//! The local player's current match phase and the players in it, read from
//! the core-game and pregame responses.
use vstd::prelude::*;
use crate::json::Json;
use crate::model::MatchState;
use crate::static_cache::arr_or_empty;
use crate::text::text_eq;

verus! {

/// A player as the match payload lists them.
#[derive(Debug, PartialEq, Eq)]
pub struct RawPlayer {
    pub puuid: String,
    pub team: String,
    pub character_id: String,
    pub party_id: String,
    pub account_level: u32,
    pub incognito: bool,
    pub hide_level: bool,
    pub player_card_id: String,
    /// Agent select only: true once the player has locked their agent.
    pub locked: bool,
}

pub struct RawView {
    pub puuid: Seq<char>,
    pub team: Seq<char>,
    pub character_id: Seq<char>,
    pub party_id: Seq<char>,
    pub account_level: u32,
    pub incognito: bool,
    pub hide_level: bool,
    pub player_card_id: Seq<char>,
    pub locked: bool,
}

impl View for RawPlayer {
    type V = RawView;

    open spec fn view(&self) -> RawView {
        RawView {
            puuid: self.puuid@,
            team: self.team@,
            character_id: self.character_id@,
            party_id: self.party_id@,
            account_level: self.account_level,
            incognito: self.incognito,
            hide_level: self.hide_level,
            player_card_id: self.player_card_id@,
            locked: self.locked,
        }
    }
}

pub open spec fn raw_views(v: Seq<RawPlayer>) -> Seq<RawView> {
    v.map_values(|p: RawPlayer| p@)
}

/// The member `key` of the player's "PlayerIdentity" object.
pub open spec fn identity_field(p: Json, key: Seq<char>) -> Option<Json> {
    match p.field("PlayerIdentity"@) {
        Some(id) => id.field(key),
        None => None,
    }
}

/// A player entry of a core-game or pregame payload.
pub open spec fn raw_player(p: Json) -> RawView {
    RawView {
        puuid: p.text_at("Subject"@),
        team: p.text_at("TeamID"@),
        character_id: p.text_at("CharacterID"@),
        party_id: p.text_at("PartyID"@),
        account_level: match identity_field(p, "AccountLevel"@) {
            Some(v) => match v.u64_of() {
                Some(n) => n as u32,
                None => 0,
            },
            None => 0,
        },
        incognito: match identity_field(p, "Incognito"@) {
            Some(v) => match v.bool_of() {
                Some(b) => b,
                None => false,
            },
            None => false,
        },
        hide_level: match identity_field(p, "HideAccountLevel"@) {
            Some(v) => match v.bool_of() {
                Some(b) => b,
                None => false,
            },
            None => false,
        },
        player_card_id: match identity_field(p, "PlayerCardID"@) {
            Some(v) => match v.str_of() {
                Some(t) => t,
                None => Seq::empty(),
            },
            None => Seq::empty(),
        },
        locked: p.text_at("CharacterSelectionState"@) == "locked"@,
    }
}

/// The players of a payload's "Players" array, in order.
pub open spec fn match_players(json: Json) -> Seq<RawView> {
    arr_or_empty(json.field_arr("Players"@)).map_values(|p: Json| raw_player(p))
}

fn identity_u64(p: &Json, key: &str) -> (r: u64)
    ensures
        r == match identity_field(*p, key@) {
            Some(v) => match v.u64_of() {
                Some(n) => n,
                None => 0,
            },
            None => 0,
        },
{
    match p.get("PlayerIdentity") {
        Some(id) => id.count(key),
        None => 0,
    }
}

fn identity_bool(p: &Json, key: &str) -> (r: bool)
    ensures
        r == match identity_field(*p, key@) {
            Some(v) => match v.bool_of() {
                Some(b) => b,
                None => false,
            },
            None => false,
        },
{
    match p.get("PlayerIdentity") {
        Some(id) => id.flag(key),
        None => false,
    }
}

fn identity_text(p: &Json, key: &str) -> (r: String)
    ensures
        r@ == match identity_field(*p, key@) {
            Some(v) => match v.str_of() {
                Some(t) => t,
                None => Seq::empty(),
            },
            None => Seq::empty(),
        },
{
    match p.get("PlayerIdentity") {
        Some(id) => id.text(key),
        None => String::new(),
    }
}

fn raw_player_of(p: &Json) -> (r: RawPlayer)
    ensures
        r@ == raw_player(*p),
{
    let state = p.text("CharacterSelectionState");
    RawPlayer {
        puuid: p.text("Subject"),
        team: p.text("TeamID"),
        character_id: p.text("CharacterID"),
        party_id: p.text("PartyID"),
        account_level: identity_u64(p, "AccountLevel") as u32,
        incognito: identity_bool(p, "Incognito"),
        hide_level: identity_bool(p, "HideAccountLevel"),
        player_card_id: identity_text(p, "PlayerCardID"),
        locked: text_eq(state.as_str(), "locked"),
    }
}

/// Reads the players of a core-game match, or of a pregame team.
pub fn parse_match_players(json: &Json) -> (r: Vec<RawPlayer>)
    ensures
        raw_views(r@) == match_players(*json),
{
    let mut out: Vec<RawPlayer> = Vec::new();
    let arr = match json.get_array("Players") {
        Some(a) => a,
        None => {
            proof {
                assert(raw_views(out@) =~= match_players(*json));
            }
            return out;
        },
    };
    let mut i: usize = 0;
    while i < arr.len()
        invariant
            i <= arr@.len(),
            json.field_arr("Players"@) == Some(arr@),
            raw_views(out@) == arr@.take(i as int).map_values(|p: Json| raw_player(p)),
        decreases arr@.len() - i,
    {
        let ghost before = out@;
        let rp = raw_player_of(&arr[i]);
        out.push(rp);
        proof {
            assert(raw_views(out@) =~= raw_views(before).push(rp@));
            assert(arr@.take(i as int + 1).map_values(|p: Json| raw_player(p)) =~= arr@.take(
                i as int,
            ).map_values(|p: Json| raw_player(p)).push(raw_player(arr@[i as int])));
        }
        i += 1;
    }
    proof {
        assert(arr@.take(arr@.len() as int) =~= arr@);
    }
    out
}

/// The "MatchID" of a core-game or pregame player response.
pub fn match_id_of(json: &Json) -> (r: Option<String>)
    ensures
        match r {
            Some(m) => json.field_str("MatchID"@) == Some(m@),
            None => json.field_str("MatchID"@) is None,
        },
{
    match json.get_str("MatchID") {
        Some(m) => Some(m.to_owned()),
        None => None,
    }
}

/// Snapshot of the local player's current match phase.
pub struct CurrentState {
    pub state: MatchState,
    pub match_id: Option<String>,
    pub players: Vec<RawPlayer>,
    /// Seconds left in the agent select countdown, 0 outside of pregame.
    pub phase_time: u32,
}

/// In a core game: the match's players, none when the match document did not load.
pub fn core_state(match_id: String, doc: Option<&Json>) -> (r: CurrentState)
    ensures
        r.state == MatchState::CoreGame,
        r.match_id == Some(match_id),
        r.phase_time == 0,
        raw_views(r.players@) == match doc {
            Some(d) => match_players(*d),
            None => Seq::empty(),
        },
{
    let players = match doc {
        Some(d) => parse_match_players(d),
        None => {
            let v: Vec<RawPlayer> = Vec::new();
            proof {
                assert(raw_views(v@) =~= Seq::<RawView>::empty());
            }
            v
        },
    };
    CurrentState { state: MatchState::CoreGame, match_id: Some(match_id), players, phase_time: 0 }
}

/// Whole seconds left of agent select: PhaseTimeRemainingNS / 1e9, truncated
/// to 32 bits, or 0.
pub open spec fn phase_seconds(doc: Json) -> u32 {
    match doc.field_u64("PhaseTimeRemainingNS"@) {
        Some(ns) => (ns / 1_000_000_000) as u32,
        None => 0,
    }
}

/// In agent select: the allied team's players and the countdown.
pub fn pregame_state(match_id: String, doc: Option<&Json>) -> (r: CurrentState)
    ensures
        r.state == MatchState::PreGame,
        r.match_id == Some(match_id),
        raw_views(r.players@) == match doc {
            Some(d) => match d.field("AllyTeam"@) {
                Some(a) => match_players(a),
                None => Seq::empty(),
            },
            None => Seq::empty(),
        },
        r.phase_time == match doc {
            Some(d) => phase_seconds(*d),
            None => 0,
        },
{
    let (players, phase_time) = match doc {
        Some(d) => {
            let players = match d.get("AllyTeam") {
                Some(a) => parse_match_players(a),
                None => {
                    let v: Vec<RawPlayer> = Vec::new();
                    proof {
                        assert(raw_views(v@) =~= Seq::<RawView>::empty());
                    }
                    v
                },
            };
            let t = match d.get_u64("PhaseTimeRemainingNS") {
                Some(ns) => (ns / 1_000_000_000) as u32,
                None => 0,
            };
            (players, t)
        },
        None => {
            let v: Vec<RawPlayer> = Vec::new();
            proof {
                assert(raw_views(v@) =~= Seq::<RawView>::empty());
            }
            (v, 0)
        },
    };
    CurrentState { state: MatchState::PreGame, match_id: Some(match_id), players, phase_time }
}

/// In the menus: no match, no players.
pub fn menu_state() -> (r: CurrentState)
    ensures
        r.state == MatchState::Menu,
        r.match_id is None,
        r.players@.len() == 0,
        r.phase_time == 0,
{
    CurrentState { state: MatchState::Menu, match_id: None, players: Vec::new(), phase_time: 0 }
}

/// The boolean stored under a key of a player's "PlayerIdentity" object,
/// false when the object, the key or a boolean there is missing.
pub open spec fn identity_flag(p: Json, key: Seq<char>) -> bool {
    match p.field("PlayerIdentity"@) {
        Some(id) => match id.field(key) {
            Some(v) => v.bool_of() == Some(true),
            None => false,
        },
        None => false,
    }
}

/// Each parsed player is read from the entry at the same place of the
/// "Players" array: its id from "Subject", its team from "TeamID", whether
/// its name is hidden from PlayerIdentity.Incognito and whether its level is
/// hidden from PlayerIdentity.HideAccountLevel, each flag on its own.
pub proof fn law_players_read(json: Json, i: int)
    ensures
        match_players(json).len() == arr_or_empty(json.field_arr("Players"@)).len(),
        0 <= i < match_players(json).len() ==> {
            let e = arr_or_empty(json.field_arr("Players"@))[i];
            let p = match_players(json)[i];
            &&& p.puuid == e.text_at("Subject"@)
            &&& p.team == e.text_at("TeamID"@)
            &&& p.incognito == identity_flag(e, "Incognito"@)
            &&& p.hide_level == identity_flag(e, "HideAccountLevel"@)
        },
{
    if 0 <= i < match_players(json).len() {
        let e = arr_or_empty(json.field_arr("Players"@))[i];
        match e.field("PlayerIdentity"@) {
            Some(id) => {
                match id.field("Incognito"@) {
                    Some(v) => {
                        match v.bool_of() {
                            Some(b) => {},
                            None => {},
                        }
                    },
                    None => {},
                }
                match id.field("HideAccountLevel"@) {
                    Some(v) => {
                        match v.bool_of() {
                            Some(b) => {},
                            None => {},
                        }
                    },
                    None => {},
                }
            },
            None => {},
        }
    }
}

} // verus!
