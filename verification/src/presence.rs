//! The signed-in player's own presence: what the local client reports about
//! the current game loop, queue and party, and the text the header shows.
use vstd::prelude::*;
use base64::Engine;
use crate::json::Json;
use crate::local::{base64_std, lemma_base64_injective};
use crate::text::{push_text, text_eq, eq_ignore_ascii_case, eq_ignore_ascii_case_spec};

verus! {

/// The fields of the decoded private presence blob that the library reads.
pub struct Presence {
    pub loop_state: String,
    pub queue_id: String,
    pub party_state: String,
    pub provisioning_flow: String,
    pub is_idle: bool,
    pub party_owner_match_map: String,
    pub ally_score: u32,
    pub enemy_score: u32,
}

/// The member `key` of the object under `section`, when both exist.
pub open spec fn section_field(d: Json, section: Seq<char>, key: Seq<char>) -> Option<Json> {
    match d.field(section) {
        Some(s) => s.field(key),
        None => None,
    }
}

/// Where a presence field is read from: the match section first, then the
/// party section, then the root of the blob.
pub open spec fn presence_lookup(d: Json, key: Seq<char>) -> Option<Json> {
    if section_field(d, "matchPresenceData"@, key) is Some {
        section_field(d, "matchPresenceData"@, key)
    } else if section_field(d, "partyPresenceData"@, key) is Some {
        section_field(d, "partyPresenceData"@, key)
    } else {
        d.field(key)
    }
}

/// A presence text field, empty when missing or not a string.
pub open spec fn presence_text(d: Json, key: Seq<char>) -> Seq<char> {
    match presence_lookup(d, key) {
        Some(v) => match v.str_of() {
            Some(t) => t,
            None => Seq::empty(),
        },
        None => Seq::empty(),
    }
}

/// A presence count field, truncated to 32 bits, 0 when missing.
pub open spec fn presence_count(d: Json, key: Seq<char>) -> u32 {
    match presence_lookup(d, key) {
        Some(v) => match v.u64_of() {
            Some(n) => n as u32,
            None => 0,
        },
        None => 0,
    }
}

pub open spec fn presence_flag(d: Json, key: Seq<char>) -> bool {
    match presence_lookup(d, key) {
        Some(v) => match v.bool_of() {
            Some(b) => b,
            None => false,
        },
        None => false,
    }
}

fn lookup<'a>(d: &'a Json, key: &str) -> (r: Option<&'a Json>)
    ensures
        crate::json::deref_opt(r) == presence_lookup(*d, key@),
{
    if let Some(m) = d.get("matchPresenceData") {
        if let Some(v) = m.get(key) {
            return Some(v);
        }
    }
    if let Some(p) = d.get("partyPresenceData") {
        if let Some(v) = p.get(key) {
            return Some(v);
        }
    }
    d.get(key)
}

fn read_text(d: &Json, key: &str) -> (r: String)
    ensures
        r@ == presence_text(*d, key@),
{
    match lookup(d, key) {
        Some(v) => match v.as_str() {
            Some(t) => t.to_owned(),
            None => String::new(),
        },
        None => String::new(),
    }
}

fn read_count(d: &Json, key: &str) -> (r: u32)
    ensures
        r == presence_count(*d, key@),
{
    match lookup(d, key) {
        Some(v) => match v.as_u64() {
            Some(n) => n as u32,
            None => 0,
        },
        None => 0,
    }
}

/// Reads the decoded private presence blob, which comes either with its
/// fields nested under "matchPresenceData"/"partyPresenceData" or flat at the
/// root; each field is read from the first place that has it.
pub fn parse_private(decoded: &Json) -> (p: Presence)
    ensures
        p.loop_state@ == presence_text(*decoded, "sessionLoopState"@),
        p.queue_id@ == presence_text(*decoded, "queueId"@),
        p.party_state@ == presence_text(*decoded, "partyState"@),
        p.provisioning_flow@ == presence_text(*decoded, "provisioningFlow"@),
        p.is_idle == presence_flag(*decoded, "isIdle"@),
        p.party_owner_match_map@ == presence_text(*decoded, "partyOwnerMatchMap"@),
        p.ally_score == presence_count(*decoded, "partyOwnerMatchScoreAllyTeam"@),
        p.enemy_score == presence_count(*decoded, "partyOwnerMatchScoreEnemyTeam"@),
{
    let is_idle = match lookup(decoded, "isIdle") {
        Some(v) => match v.as_bool() {
            Some(b) => b,
            None => false,
        },
        None => false,
    };
    Presence {
        loop_state: read_text(decoded, "sessionLoopState"),
        queue_id: read_text(decoded, "queueId"),
        party_state: read_text(decoded, "partyState"),
        provisioning_flow: read_text(decoded, "provisioningFlow"),
        is_idle,
        party_owner_match_map: read_text(decoded, "partyOwnerMatchMap"),
        ally_score: read_count(decoded, "partyOwnerMatchScoreAllyTeam"),
        enemy_score: read_count(decoded, "partyOwnerMatchScoreEnemyTeam"),
    }
}

/// The display name of a queue: known queue ids map to their mode name, the
/// empty id and "custom" are Custom, and any other id is shown as it is.
pub open spec fn mode_name_spec(q: Seq<char>) -> Seq<char> {
    if q == "competitive"@ {
        "Competitive"@
    } else if q == "unrated"@ {
        "Unrated"@
    } else if q == "swiftplay"@ {
        "Swiftplay"@
    } else if q == "spikerush"@ {
        "Spike Rush"@
    } else if q == "deathmatch"@ {
        "Deathmatch"@
    } else if q == "ggteam"@ {
        "Escalation"@
    } else if q == "onefa"@ {
        "Replication"@
    } else if q == "hurm"@ {
        "Team Deathmatch"@
    } else if q == "snowball"@ {
        "Snowball Fight"@
    } else if q == "newmap"@ {
        "New Map"@
    } else if q == "custom"@ || q.len() == 0 {
        "Custom"@
    } else {
        q
    }
}

pub fn mode_name(queue_id: &str) -> (r: String)
    ensures
        r@ == mode_name_spec(queue_id@),
{
    let name: &str = if text_eq(queue_id, "competitive") {
        "Competitive"
    } else if text_eq(queue_id, "unrated") {
        "Unrated"
    } else if text_eq(queue_id, "swiftplay") {
        "Swiftplay"
    } else if text_eq(queue_id, "spikerush") {
        "Spike Rush"
    } else if text_eq(queue_id, "deathmatch") {
        "Deathmatch"
    } else if text_eq(queue_id, "ggteam") {
        "Escalation"
    } else if text_eq(queue_id, "onefa") {
        "Replication"
    } else if text_eq(queue_id, "hurm") {
        "Team Deathmatch"
    } else if text_eq(queue_id, "snowball") {
        "Snowball Fight"
    } else if text_eq(queue_id, "newmap") {
        "New Map"
    } else if text_eq(queue_id, "custom") || queue_id.is_empty() {
        "Custom"
    } else {
        queue_id
    };
    name.to_owned()
}

/// Free-for-all modes have no two-team structure, so ally/enemy grouping
/// does not apply.
pub fn is_ffa(queue_id: &str) -> (r: bool)
    ensures
        r == (queue_id@ == "deathmatch"@),
{
    text_eq(queue_id, "deathmatch")
}

/// Score races (deathmatch, team deathmatch, escalation) report a single
/// pseudo-round, so per-round statistics do not apply to them.
pub open spec fn has_rounds_spec(q: Seq<char>) -> bool {
    q != "deathmatch"@ && q != "hurm"@ && q != "ggteam"@
}

pub fn has_rounds(queue_id: &str) -> (r: bool)
    ensures
        r == has_rounds_spec(queue_id@),
{
    !(text_eq(queue_id, "deathmatch") || text_eq(queue_id, "hurm") || text_eq(queue_id, "ggteam"))
}

/// What the player is doing, in words, for the header and Discord presence.
pub open spec fn describe_activity_spec(p: Presence, mode: Seq<char>) -> Seq<char> {
    if p.loop_state@ == "INGAME"@ {
        "Playing "@ + mode
    } else if p.loop_state@ == "PREGAME"@ {
        "Agent Select - "@ + mode
    } else if p.loop_state@ == "MENUS"@ {
        if eq_ignore_ascii_case_spec(p.provisioning_flow@, "CustomGame"@) || p.party_state@
            == "CUSTOM_GAME_SETUP"@ {
            "In a custom lobby"@
        } else if p.party_state@ == "MATCHMAKING"@ {
            "In queue - "@ + mode
        } else if p.is_idle {
            "Away"@
        } else {
            "In the lobby"@
        }
    } else {
        "Idle"@
    }
}

pub fn describe_activity(p: &Presence, mode: &str) -> (r: String)
    ensures
        r@ == describe_activity_spec(*p, mode@),
{
    let ls = p.loop_state.as_str();
    if text_eq(ls, "INGAME") {
        let mut s = "Playing ".to_owned();
        push_text(&mut s, mode);
        s
    } else if text_eq(ls, "PREGAME") {
        let mut s = "Agent Select - ".to_owned();
        push_text(&mut s, mode);
        s
    } else if text_eq(ls, "MENUS") {
        if eq_ignore_ascii_case(p.provisioning_flow.as_str(), "CustomGame") || text_eq(
            p.party_state.as_str(),
            "CUSTOM_GAME_SETUP",
        ) {
            "In a custom lobby".to_owned()
        } else if text_eq(p.party_state.as_str(), "MATCHMAKING") {
            let mut s = "In queue - ".to_owned();
            push_text(&mut s, mode);
            s
        } else if p.is_idle {
            "Away".to_owned()
        } else {
            "In the lobby".to_owned()
        }
    } else {
        "Idle".to_owned()
    }
}

/// The bytes whose standard padded base64 is `text`, or `None` when no
/// bytes encode to it (there is at most one such string of bytes).
pub open spec fn base64_decode_spec(text: Seq<char>) -> Option<Seq<u8>> {
    if exists|b: Seq<u8>| base64_std(b) == text {
        Some(choose|b: Seq<u8>| base64_std(b) == text)
    } else {
        None
    }
}

/// Decoding is the inverse of encoding: `text` decodes to `b` exactly when
/// `b` encodes to `text`.
pub proof fn lemma_base64_decode_spec(text: Seq<char>, b: Seq<u8>)
    ensures
        base64_decode_spec(text) == Some(b) <==> base64_std(b) == text,
{
    if base64_std(b) == text {
        let c = choose|c: Seq<u8>| base64_std(c) == text;
        lemma_base64_injective(c, b);
    }
}

/// `base64::engine::general_purpose::STANDARD.decode`: the standard
/// alphabet, padding required and canonical, no stray bits in the last
/// symbol. So it succeeds exactly on the padded base64 of some bytes, and
/// then gives those bytes; the decode error is dropped to `None`.
#[verifier::external_body]
fn decode_base64(text: &str) -> (r: Option<Vec<u8>>)
    ensures
        match r {
            Some(b) => base64_std(b@) == text@,
            None => forall|b: Seq<u8>| base64_std(b) != text@,
        },
{
    base64::engine::general_purpose::STANDARD.decode(text).ok()
}

/// The bytes that a base64 text stands for.
fn decode_text(text: &str) -> (r: Option<Vec<u8>>)
    ensures
        match r {
            Some(b) => base64_decode_spec(text@) == Some(b@),
            None => base64_decode_spec(text@) is None,
        },
{
    let r = decode_base64(text);
    proof {
        if r is Some {
            lemma_base64_decode_spec(text@, r->0@);
        }
    }
    r
}

/// The first presence entry whose "puuid" is `puuid`.
pub open spec fn own_entry(ps: Seq<Json>, puuid: Seq<char>) -> Option<Json>
    decreases ps.len(),
{
    if ps.len() == 0 {
        None
    } else if ps[0].field_str("puuid"@) == Some(puuid) {
        Some(ps[0])
    } else {
        own_entry(ps.drop_first(), puuid)
    }
}

/// The decoded private blob of the player `puuid` in a presences response.
pub open spec fn private_payload_spec(body: Json, puuid: Seq<char>) -> Option<Seq<u8>> {
    match body.field_arr("presences"@) {
        Some(ps) => match own_entry(ps, puuid) {
            Some(me) => match me.field_str("private"@) {
                Some(t) => base64_decode_spec(t),
                None => None,
            },
            None => None,
        },
        None => None,
    }
}

proof fn lemma_own_entry_skip(ps: Seq<Json>, puuid: Seq<char>, i: int)
    requires
        0 <= i <= ps.len(),
        forall|j: int| 0 <= j < i ==> ps[j].field_str("puuid"@) != Some(puuid),
    ensures
        own_entry(ps, puuid) == own_entry(ps.skip(i), puuid),
    decreases i,
{
    if i > 0 {
        lemma_own_entry_skip(ps, puuid, i - 1);
        assert(ps.skip(i - 1)[0] == ps[i - 1]);
        assert(ps.skip(i - 1).drop_first() =~= ps.skip(i));
    } else {
        assert(ps.skip(0) =~= ps);
    }
}

/// Finds the signed-in player's entry in the local presences response and
/// decodes its base64 "private" blob; the caller reads the bytes as JSON.
pub fn private_payload(body: &Json, puuid: &str) -> (r: Option<Vec<u8>>)
    ensures
        match r {
            Some(b) => private_payload_spec(*body, puuid@) == Some(b@),
            None => private_payload_spec(*body, puuid@) is None,
        },
{
    let ps = match body.get_array("presences") {
        Some(ps) => ps,
        None => return None,
    };
    let mut i: usize = 0;
    while i < ps.len()
        invariant
            i <= ps@.len(),
            body.field_arr("presences"@) == Some(ps@),
            forall|j: int| 0 <= j < i ==> ps@[j].field_str("puuid"@) != Some(puuid@),
        decreases ps@.len() - i,
    {
        let hit = match ps[i].get_str("puuid") {
            Some(p) => text_eq(p, puuid),
            None => false,
        };
        if hit {
            proof {
                lemma_own_entry_skip(ps@, puuid@, i as int);
                assert(ps@.skip(i as int)[0] == ps@[i as int]);
            }
            return match ps[i].get_str("private") {
                Some(t) => decode_text(t),
                None => None,
            };
        }
        i += 1;
    }
    proof {
        lemma_own_entry_skip(ps@, puuid@, i as int);
    }
    None
}


/// Free-for-all modes are score races: none of them has rounds.
pub proof fn law_ffa_has_no_rounds(q: Seq<char>)
    requires
        q == "deathmatch"@,
    ensures
        !has_rounds_spec(q),
{
}

} // verus!
