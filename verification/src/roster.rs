//! The roster: one row per player, built from the match payload and the
//! fetched ranks, names, loadouts and recent form; refreshed cheaply within a
//! match; and grouped into parties.
use vstd::prelude::*;
use crate::json::Json;
use crate::assoc::{get_text, text_map};
use crate::fetcher::{
    Mmr, MmrView, RecentForm, smurf_score, smurf_score_spec, win_rate, win_rate_spec,
};
use crate::match_state::{RawPlayer, RawView, raw_views};
use crate::model::{PlayerRow, RowView, blank_row, row_views};
use crate::static_cache::{StaticData, SkinView, text_or_empty_in};
use crate::text::{text_eq, lower_text};

verus! {

/// The default melee weapon.
pub open spec fn melee_weapon() -> Seq<char> {
    "2f59173c-4bed-b6c3-2191-dea9b58be9c7"@
}

/// The skin socket shared by the melee and the Vandal.
pub open spec fn skin_socket() -> Seq<char> {
    "bcef87d6-209b-46c6-8b19-fbe40bd95abc"@
}

/// The Vandal.
pub open spec fn vandal_weapon() -> Seq<char> {
    "9c82e19d-4575-0200-1a81-3eacf00cf872"@
}

/// The items of a loadout entry, at its root or under "Loadout".
pub open spec fn loadout_items(e: Json) -> Option<Json> {
    match e.field("Items"@) {
        Some(i) => Some(i),
        None => match e.field("Loadout"@) {
            Some(l) => l.field("Items"@),
            None => None,
        },
    }
}

/// The player a loadout entry belongs to, at its root or under "Loadout".
pub open spec fn loadout_subject(e: Json) -> Option<Seq<char>> {
    let v = match e.field("Subject"@) {
        Some(s) => Some(s),
        None => match e.field("Loadout"@) {
            Some(l) => l.field("Subject"@),
            None => None,
        },
    };
    match v {
        Some(x) => x.str_of(),
        None => None,
    }
}

/// The skin id equipped on a weapon: Items[weapon].Sockets[socket].Item.ID.
pub open spec fn weapon_skin(e: Json, weapon: Seq<char>) -> Option<Seq<char>> {
    match loadout_items(e) {
        Some(items) => match items.field(weapon) {
            Some(w) => match w.field("Sockets"@) {
                Some(s) => match s.field(skin_socket()) {
                    Some(k) => match k.field("Item"@) {
                        Some(it) => it.field_str("ID"@),
                        None => None,
                    },
                    None => None,
                },
                None => None,
            },
            None => None,
        },
        None => None,
    }
}

fn loadout_items_of(e: &Json) -> (r: Option<&Json>)
    ensures
        crate::json::deref_opt(r) == loadout_items(*e),
{
    match e.get("Items") {
        Some(i) => Some(i),
        None => match e.get("Loadout") {
            Some(l) => l.get("Items"),
            None => None,
        },
    }
}

pub fn loadout_subject_of(e: &Json) -> (r: Option<&str>)
    ensures
        match r {
            Some(t) => loadout_subject(*e) == Some(t@),
            None => loadout_subject(*e) is None,
        },
{
    let v = match e.get("Subject") {
        Some(s) => Some(s),
        None => match e.get("Loadout") {
            Some(l) => l.get("Subject"),
            None => None,
        },
    };
    match v {
        Some(x) => x.as_str(),
        None => None,
    }
}

fn weapon_skin_of<'a>(e: &'a Json, weapon: &str) -> (r: Option<&'a str>)
    ensures
        match r {
            Some(t) => weapon_skin(*e, weapon@) == Some(t@),
            None => weapon_skin(*e, weapon@) is None,
        },
{
    let items = match loadout_items_of(e) {
        Some(i) => i,
        None => return None,
    };
    let w = match items.get(weapon) {
        Some(w) => w,
        None => return None,
    };
    let s = match w.get("Sockets") {
        Some(s) => s,
        None => return None,
    };
    let k = match s.get("bcef87d6-209b-46c6-8b19-fbe40bd95abc") {
        Some(k) => k,
        None => return None,
    };
    match k.get("Item") {
        Some(it) => it.get_str("ID"),
        None => None,
    }
}

/// Equipped Vandal skin (name, art, tier color) of a loadout entry; the stock
/// skin (named "Vandal") and any missing lookup give empty texts.
pub open spec fn vandal_spec(e: Json, sd: StaticData) -> (Seq<char>, Seq<char>, Seq<char>) {
    match weapon_skin(e, vandal_weapon()) {
        Some(id) => if id.len() > 0 && sd.skins_view().contains_key(lower_text(id)) {
            let info = sd.skins_view()[lower_text(id)];
            if info.name == "Vandal"@ {
                (Seq::empty(), Seq::empty(), Seq::empty())
            } else {
                (info.name, info.image, sd.tier_color_spec(info.tier_uuid))
            }
        } else {
            (Seq::empty(), Seq::empty(), Seq::empty())
        },
        None => (Seq::empty(), Seq::empty(), Seq::empty()),
    }
}

pub fn vandal_fields(e: &Json, sd: &StaticData) -> (r: (String, String, String))
    ensures
        (r.0@, r.1@, r.2@) == vandal_spec(*e, *sd),
{
    let id = match weapon_skin_of(e, "9c82e19d-4575-0200-1a81-3eacf00cf872") {
        Some(id) => id,
        None => return (String::new(), String::new(), String::new()),
    };
    if id.is_empty() {
        return (String::new(), String::new(), String::new());
    }
    let info = match sd.skin_info(id) {
        Some(i) => i,
        None => return (String::new(), String::new(), String::new()),
    };
    if text_eq(info.name.as_str(), "Vandal") {
        return (String::new(), String::new(), String::new());
    }
    (info.name.clone(), info.image.clone(), sd.tier_color(info.tier_uuid.as_str()))
}

/// The loadout runs a melee skin other than the stock "Melee".
pub open spec fn premium_spec(e: Json, sd: StaticData) -> bool {
    match weapon_skin(e, melee_weapon()) {
        Some(id) => id.len() > 0 && sd.skins_view().contains_key(lower_text(id)) && sd.skins_view()[lower_text(id)].name.len() > 0
            && sd.skins_view()[lower_text(id)].name != "Melee"@,
        None => false,
    }
}

pub fn has_premium_melee(e: &Json, sd: &StaticData) -> (r: bool)
    ensures
        r == premium_spec(*e, *sd),
{
    let id = match weapon_skin_of(e, "2f59173c-4bed-b6c3-2191-dea9b58be9c7") {
        Some(id) => id,
        None => return false,
    };
    if id.is_empty() {
        return false;
    }
    match sd.skin_info(id) {
        Some(info) => !info.name.as_str().is_empty() && !text_eq(info.name.as_str(), "Melee"),
        None => false,
    }
}

/// The last loadout entry that names the player `puuid`.
pub open spec fn loadout_for(ls: Seq<Json>, puuid: Seq<char>) -> Option<Json>
    decreases ls.len(),
{
    if ls.len() == 0 {
        None
    } else if loadout_subject(ls.last()) == Some(puuid) {
        Some(ls.last())
    } else {
        loadout_for(ls.drop_last(), puuid)
    }
}

/// The loadout entry of a player: the one naming them, else the one at their
/// index in the match's player order.
pub open spec fn player_loadout(ls: Seq<Json>, puuid: Seq<char>, i: int) -> Option<Json> {
    match loadout_for(ls, puuid) {
        Some(e) => Some(e),
        None => if 0 <= i < ls.len() {
            Some(ls[i])
        } else {
            None
        },
    }
}

fn player_loadout_of<'a>(ls: &'a Vec<Json>, puuid: &str, i: usize) -> (r: Option<&'a Json>)
    ensures
        crate::json::deref_opt(r) == player_loadout(ls@, puuid@, i as int),
{
    let mut k: usize = ls.len();
    proof {
        assert(ls@.take(k as int) =~= ls@);
    }
    while k > 0
        invariant
            k <= ls@.len(),
            loadout_for(ls@, puuid@) == loadout_for(ls@.take(k as int), puuid@),
        decreases k,
    {
        proof {
            assert(ls@.take(k as int).drop_last() =~= ls@.take(k - 1));
            assert(ls@.take(k as int).last() == ls@[k - 1]);
        }
        let hit = match loadout_subject_of(&ls[k - 1]) {
            Some(s) => text_eq(s, puuid),
            None => false,
        };
        if hit {
            return Some(&ls[k - 1]);
        }
        k -= 1;
    }
    if i < ls.len() {
        Some(&ls[i])
    } else {
        None
    }
}

/// The team label of a player: "Ally" or "Enemy" against the signed-in
/// player's team, the raw team id when that is unknown, empty without one.
pub open spec fn team_label(team: Seq<char>, own: Option<Seq<char>>) -> Seq<char> {
    if team.len() == 0 {
        Seq::empty()
    } else {
        match own {
            Some(mine) => if team == mine {
                "Ally"@
            } else {
                "Enemy"@
            },
            None => team,
        }
    }
}

/// The team of the first listed player who is the signed-in player.
pub open spec fn own_team(ps: Seq<RawView>, self_puuid: Seq<char>) -> Option<Seq<char>>
    decreases ps.len(),
{
    if ps.len() == 0 {
        None
    } else if ps[0].puuid == self_puuid {
        Some(ps[0].team)
    } else {
        own_team(ps.drop_first(), self_puuid)
    }
}

pub fn own_team_of(ps: &Vec<RawPlayer>, self_puuid: &str) -> (r: Option<String>)
    ensures
        match r {
            Some(t) => own_team(raw_views(ps@), self_puuid@) == Some(t@),
            None => own_team(raw_views(ps@), self_puuid@) is None,
        },
{
    let ghost rv = raw_views(ps@);
    let mut i: usize = 0;
    proof {
        assert(rv.skip(0) =~= rv);
    }
    while i < ps.len()
        invariant
            i <= ps@.len(),
            rv == raw_views(ps@),
            own_team(rv, self_puuid@) == own_team(rv.skip(i as int), self_puuid@),
        decreases ps@.len() - i,
    {
        proof {
            assert(rv.skip(i as int)[0] == ps@[i as int]@);
            assert(rv.skip(i as int).drop_first() =~= rv.skip(i as int + 1));
        }
        if text_eq(ps[i].puuid.as_str(), self_puuid) {
            return Some(ps[i].team.clone());
        }
        i += 1;
    }
    None
}

pub fn team_label_of(team: &str, own: &Option<String>) -> (r: String)
    ensures
        r@ == team_label(team@, match own {
            Some(t) => Some(t@),
            None => None,
        }),
{
    if team.is_empty() {
        return String::new();
    }
    match own {
        Some(mine) => if text_eq(team, mine.as_str()) {
            "Ally".to_owned()
        } else {
            "Enemy".to_owned()
        },
        None => team.to_owned(),
    }
}

/// How many listed players the party map puts in the (non-empty) party `id`;
/// 1 for an empty id.
pub open spec fn party_count(ps: Seq<RawView>, pm: Map<Seq<char>, Seq<char>>, id: Seq<char>) -> nat
    decreases ps.len(),
{
    if ps.len() == 0 {
        0
    } else {
        party_count(ps.drop_last(), pm, id) + if pm.contains_key(ps.last().puuid) && pm[ps.last().puuid] == id {
            1nat
        } else {
            0nat
        }
    }
}

pub open spec fn party_size_spec(ps: Seq<RawView>, pm: Map<Seq<char>, Seq<char>>, id: Seq<char>) -> nat {
    if id.len() == 0 {
        1
    } else {
        party_count(ps, pm, id)
    }
}

proof fn lemma_party_count_bound(ps: Seq<RawView>, pm: Map<Seq<char>, Seq<char>>, id: Seq<char>)
    ensures
        party_count(ps, pm, id) <= ps.len(),
    decreases ps.len(),
{
    if ps.len() > 0 {
        lemma_party_count_bound(ps.drop_last(), pm, id);
    }
}

fn party_size_of(ps: &Vec<RawPlayer>, party: &Vec<(String, String)>, id: &str) -> (r: u32)
    requires
        ps@.len() <= u32::MAX,
    ensures
        r == party_size_spec(raw_views(ps@), text_map(party@), id@),
{
    if id.is_empty() {
        return 1;
    }
    let ghost rv = raw_views(ps@);
    let mut n: u32 = 0;
    let mut i: usize = 0;
    proof {
        assert(rv.take(0) =~= Seq::<RawView>::empty());
    }
    while i < ps.len()
        invariant
            i <= ps@.len(),
            ps@.len() <= u32::MAX,
            rv == raw_views(ps@),
            n == party_count(rv.take(i as int), text_map(party@), id@),
        decreases ps@.len() - i,
    {
        proof {
            assert(rv.take(i as int + 1).drop_last() =~= rv.take(i as int));
            assert(rv.take(i as int + 1).last() == ps@[i as int]@);
            lemma_party_count_bound(rv.take(i as int), text_map(party@), id@);
        }
        match get_text(party, ps[i].puuid.as_str()) {
            Some(pid) => {
                if text_eq(pid.as_str(), id) {
                    n += 1;
                }
            },
            None => {},
        }
        i += 1;
    }
    proof {
        assert(rv.take(rv.len() as int) =~= rv);
    }
    n
}

/// A standing with nothing known.
pub open spec fn zero_mmr() -> MmrView {
    MmrView { tier: 0, rr: 0, peak: 0, peak_season: Seq::empty(), wins: 0, games: 0, leaderboard: 0 }
}

/// A fetched standing, or nothing known when the rank request failed.
pub open spec fn mmr_or_zero(m: Option<Mmr>) -> MmrView {
    match m {
        Some(x) => x@,
        None => zero_mmr(),
    }
}

/// A roster row as first built from the match payload and the fetched data.
pub open spec fn built_row(
    p: RawView,
    i: int,
    self_puuid: Seq<char>,
    players: Seq<RawView>,
    names: Map<Seq<char>, Seq<char>>,
    self_level: u32,
    loadouts: Seq<Json>,
    mmr: Option<Mmr>,
    form: Option<RecentForm>,
    sd: StaticData,
    pm: Map<Seq<char>, Seq<char>>,
) -> RowView {
    let m = mmr_or_zero(mmr);
    let is_self = p.puuid == self_puuid;
    let hidden = p.incognito && !is_self;
    let level = if is_self && self_level > 0 {
        self_level
    } else {
        p.account_level
    };
    let party_id = text_or_empty_in(pm, p.puuid);
    let lo = player_loadout(loadouts, p.puuid, i);
    let premium = match lo {
        Some(e) => premium_spec(e, sd),
        None => false,
    };
    let vandal = match lo {
        Some(e) => vandal_spec(e, sd),
        None => (Seq::empty(), Seq::empty(), Seq::empty()),
    };
    let wr = win_rate_spec(m.wins, m.games);
    RowView {
        puuid: p.puuid,
        name: if hidden {
            Seq::empty()
        } else {
            text_or_empty_in(names, p.puuid)
        },
        player_card: sd.card_art_spec(p.player_card_id),
        agent: sd.agent_name_spec(p.character_id),
        agent_icon: sd.agent_icon_spec(p.character_id),
        team: team_label(p.team, own_team(players, self_puuid)),
        party_id,
        hidden_name: hidden,
        rank_tier: m.tier,
        rank_name: sd.rank_name_spec(m.tier),
        rank_icon: sd.rank_icon_spec(m.tier),
        rr: m.rr,
        peak_rank_name: sd.rank_name_spec(m.peak),
        peak_rank_tier: m.peak,
        peak_rank_icon: sd.rank_icon_spec(m.peak),
        peak_act: sd.season_label_spec(m.peak_season),
        win_rate: wr,
        wins: m.wins,
        games: m.games,
        leaderboard: m.leaderboard,
        account_level: level,
        last_kills: match form {
            Some(f) => f.kills,
            None => 0,
        },
        last_deaths: match form {
            Some(f) => f.deaths,
            None => 0,
        },
        last_hs: match form {
            Some(f) => f.hs,
            None => 0,
        },
        last_acs: 0,
        last_adr: 0,
        last_kast: 0,
        last_assists: 0,
        has_combat: form is Some,
        streak: match form {
            Some(f) => f.streak,
            None => 0,
        },
        rr_trend: match form {
            Some(f) => f.rr_trend,
            None => 0,
        },
        recent_wins: match form {
            Some(f) => f.wins,
            None => 0,
        },
        recent_losses: match form {
            Some(f) => f.losses,
            None => 0,
        },
        smurf_score: smurf_score_spec(level, m.tier, m.games, wr, premium),
        party_size: party_size_spec(players, pm, party_id) as u32,
        encounters: 0,
        encounter_wins: 0,
        encounter_losses: 0,
        locked: p.locked,
        premium_skins: premium,
        vandal_skin: vandal.0,
        vandal_image: vandal.1,
        vandal_tier_color: vandal.2,
    }
}

/// The row of the first earlier row with this player's id.
pub open spec fn prev_row(rows: Seq<RowView>, puuid: Seq<char>) -> Option<RowView>
    decreases rows.len(),
{
    if rows.len() == 0 {
        None
    } else if rows[0].puuid == puuid {
        Some(rows[0])
    } else {
        prev_row(rows.drop_first(), puuid)
    }
}

/// The last known rank fields of an earlier row.
pub open spec fn keep_rank(r: RowView, prev: RowView) -> RowView {
    RowView {
        rank_tier: prev.rank_tier,
        rank_name: prev.rank_name,
        rank_icon: prev.rank_icon,
        rr: prev.rr,
        peak_rank_name: prev.peak_rank_name,
        peak_rank_tier: prev.peak_rank_tier,
        peak_act: prev.peak_act,
        win_rate: prev.win_rate,
        wins: prev.wins,
        games: prev.games,
        leaderboard: prev.leaderboard,
        ..r
    }
}

/// The last known combat fields of an earlier row.
pub open spec fn keep_combat(r: RowView, prev: RowView) -> RowView {
    RowView {
        last_kills: prev.last_kills,
        last_deaths: prev.last_deaths,
        last_hs: prev.last_hs,
        last_acs: prev.last_acs,
        last_adr: prev.last_adr,
        last_kast: prev.last_kast,
        last_assists: prev.last_assists,
        streak: prev.streak,
        rr_trend: prev.rr_trend,
        recent_wins: prev.recent_wins,
        recent_losses: prev.recent_losses,
        has_combat: true,
        ..r
    }
}

/// A built row with the last known values kept where this fetch got none: the
/// rank when the rank request failed, the combat stats when none came, and a
/// level recovered earlier when the payload hides it.
pub open spec fn with_fallbacks(r: RowView, prev: Option<RowView>, rank_failed: bool) -> RowView {
    match prev {
        None => r,
        Some(pv) => {
            let r1 = if rank_failed {
                keep_rank(r, pv)
            } else {
                r
            };
            let r2 = if !r1.has_combat && pv.has_combat {
                keep_combat(r1, pv)
            } else {
                r1
            };
            if r2.account_level == 0 && pv.account_level > 0 {
                RowView { account_level: pv.account_level, ..r2 }
            } else {
                r2
            }
        },
    }
}

pub fn find_row<'a>(rows: &'a Vec<PlayerRow>, puuid: &str) -> (r: Option<&'a PlayerRow>)
    ensures
        match r {
            Some(x) => prev_row(row_views(rows@), puuid@) == Some(x@),
            None => prev_row(row_views(rows@), puuid@) is None,
        },
{
    let ghost rv = row_views(rows@);
    let mut i: usize = 0;
    proof {
        assert(rv.skip(0) =~= rv);
    }
    while i < rows.len()
        invariant
            i <= rows@.len(),
            rv == row_views(rows@),
            prev_row(rv, puuid@) == prev_row(rv.skip(i as int), puuid@),
        decreases rows@.len() - i,
    {
        proof {
            assert(rv.skip(i as int)[0] == rows@[i as int]@);
            assert(rv.skip(i as int).drop_first() =~= rv.skip(i as int + 1));
        }
        if text_eq(rows[i].puuid.as_str(), puuid) {
            return Some(&rows[i]);
        }
        i += 1;
    }
    None
}

fn text_or_empty_of(m: &Vec<(String, String)>, k: &str) -> (r: String)
    ensures
        r@ == text_or_empty_in(text_map(m@), k@),
{
    match get_text(m, k) {
        Some(v) => v,
        None => String::new(),
    }
}

fn build_row(
    p: &RawPlayer,
    i: usize,
    self_puuid: &str,
    players: &Vec<RawPlayer>,
    own: &Option<String>,
    names: &Vec<(String, String)>,
    self_level: u32,
    loadouts: &Vec<Json>,
    mmr: &Option<Mmr>,
    form: &Option<RecentForm>,
    sd: &StaticData,
    party_map: &Vec<(String, String)>,
) -> (r: PlayerRow)
    requires
        players@.len() <= u32::MAX,
        match own {
            Some(t) => own_team(raw_views(players@), self_puuid@) == Some(t@),
            None => own_team(raw_views(players@), self_puuid@) is None,
        },
    ensures
        r@ == built_row(p@, i as int, self_puuid@, raw_views(players@), text_map(names@), self_level, loadouts@, *mmr, *form, *sd, text_map(party_map@)),
{
    let zero = Mmr::unranked();
    let m: &Mmr = match mmr {
        Some(x) => x,
        None => &zero,
    };
    let is_self = text_eq(p.puuid.as_str(), self_puuid);
    let hidden = p.incognito && !is_self;
    let level = if is_self && self_level > 0 {
        self_level
    } else {
        p.account_level
    };
    let party_id = text_or_empty_of(party_map, p.puuid.as_str());
    let lo = player_loadout_of(loadouts, p.puuid.as_str(), i);
    let premium = match lo {
        Some(e) => has_premium_melee(e, sd),
        None => false,
    };
    let (vs, vi, vc) = match lo {
        Some(e) => vandal_fields(e, sd),
        None => (String::new(), String::new(), String::new()),
    };
    let wr = win_rate(m);
    let party_size = party_size_of(players, party_map, party_id.as_str());
    let name = if hidden {
        String::new()
    } else {
        text_or_empty_of(names, p.puuid.as_str())
    };
    let (lk, ld, lh, st, tr, rw, rl, hc) = match form {
        Some(f) => (f.kills, f.deaths, f.hs, f.streak, f.rr_trend, f.wins, f.losses, true),
        None => (0, 0, 0, 0, 0, 0, 0, false),
    };
    PlayerRow {
        puuid: p.puuid.clone(),
        name,
        player_card: sd.card_art(p.player_card_id.as_str()),
        agent: sd.agent_name(p.character_id.as_str()),
        agent_icon: sd.agent_icon(p.character_id.as_str()),
        team: team_label_of(p.team.as_str(), own),
        party_id,
        hidden_name: hidden,
        rank_tier: m.tier,
        rank_name: sd.rank_name(m.tier),
        rank_icon: sd.rank_icon(m.tier),
        rr: m.rr,
        peak_rank_name: sd.rank_name(m.peak),
        peak_rank_tier: m.peak,
        peak_rank_icon: sd.rank_icon(m.peak),
        peak_act: sd.season_label(m.peak_season.as_str()),
        win_rate: wr,
        wins: m.wins,
        games: m.games,
        leaderboard: m.leaderboard,
        account_level: level,
        last_kills: lk,
        last_deaths: ld,
        last_hs: lh,
        last_acs: 0,
        last_adr: 0,
        last_kast: 0,
        last_assists: 0,
        has_combat: hc,
        streak: st,
        rr_trend: tr,
        recent_wins: rw,
        recent_losses: rl,
        smurf_score: smurf_score(level, m.tier, m.games, wr, premium),
        party_size,
        encounters: 0,
        encounter_wins: 0,
        encounter_losses: 0,
        locked: p.locked,
        premium_skins: premium,
        vandal_skin: vs,
        vandal_image: vi,
        vandal_tier_color: vc,
    }
}

fn apply_fallbacks(row: &mut PlayerRow, last_rows: &Vec<PlayerRow>, rank_failed: bool)
    ensures
        final(row)@ == with_fallbacks(old(row)@, prev_row(row_views(last_rows@), old(row).puuid@), rank_failed),
{
    let prev = match find_row(last_rows, row.puuid.as_str()) {
        Some(p) => p,
        None => return,
    };
    if rank_failed {
        row.rank_tier = prev.rank_tier;
        row.rank_name = prev.rank_name.clone();
        row.rank_icon = prev.rank_icon.clone();
        row.rr = prev.rr;
        row.peak_rank_name = prev.peak_rank_name.clone();
        row.peak_rank_tier = prev.peak_rank_tier;
        row.peak_act = prev.peak_act.clone();
        row.win_rate = prev.win_rate;
        row.wins = prev.wins;
        row.games = prev.games;
        row.leaderboard = prev.leaderboard;
    }
    if !row.has_combat && prev.has_combat {
        row.last_kills = prev.last_kills;
        row.last_deaths = prev.last_deaths;
        row.last_hs = prev.last_hs;
        row.last_acs = prev.last_acs;
        row.last_adr = prev.last_adr;
        row.last_kast = prev.last_kast;
        row.last_assists = prev.last_assists;
        row.streak = prev.streak;
        row.rr_trend = prev.rr_trend;
        row.recent_wins = prev.recent_wins;
        row.recent_losses = prev.recent_losses;
        row.has_combat = true;
    }
    if row.account_level == 0 && prev.account_level > 0 {
        row.account_level = prev.account_level;
    }
}

/// The roster for a freshly loaded match: one row per listed player, built
/// from that player's fetched rank and recent form (`fetched`, in the same
/// order), the names, the signed-in player's own level, the core-game
/// loadouts (none in agent select) and the party map, keeping last known
/// values where this fetch got none.
pub fn assemble_rows(
    self_puuid: &str,
    players: &Vec<RawPlayer>,
    names: &Vec<(String, String)>,
    self_level: u32,
    loadouts: &Vec<Json>,
    fetched: &Vec<(Option<Mmr>, Option<RecentForm>)>,
    sd: &StaticData,
    last_rows: &Vec<PlayerRow>,
    party_map: &Vec<(String, String)>,
) -> (r: Vec<PlayerRow>)
    requires
        fetched@.len() == players@.len(),
        players@.len() <= u32::MAX,
    ensures
        r@.len() == players@.len(),
        forall|i: int|
            0 <= i < players@.len() ==> #[trigger] r@[i]@ == with_fallbacks(
                built_row(
                    players@[i]@,
                    i,
                    self_puuid@,
                    raw_views(players@),
                    text_map(names@),
                    self_level,
                    loadouts@,
                    fetched@[i].0,
                    fetched@[i].1,
                    *sd,
                    text_map(party_map@),
                ),
                prev_row(row_views(last_rows@), players@[i].puuid@),
                fetched@[i].0 is None,
            ),
{
    let own = own_team_of(players, self_puuid);
    let mut rows: Vec<PlayerRow> = Vec::new();
    let mut i: usize = 0;
    while i < players.len()
        invariant
            i <= players@.len(),
            fetched@.len() == players@.len(),
            players@.len() <= u32::MAX,
            match own {
                Some(t) => own_team(raw_views(players@), self_puuid@) == Some(t@),
                None => own_team(raw_views(players@), self_puuid@) is None,
            },
            rows@.len() == i,
            forall|k: int|
                0 <= k < i ==> #[trigger] rows@[k]@ == with_fallbacks(
                    built_row(
                        players@[k]@,
                        k,
                        self_puuid@,
                        raw_views(players@),
                        text_map(names@),
                        self_level,
                        loadouts@,
                        fetched@[k].0,
                        fetched@[k].1,
                        *sd,
                        text_map(party_map@),
                    ),
                    prev_row(row_views(last_rows@), players@[k].puuid@),
                    fetched@[k].0 is None,
                ),
        decreases players@.len() - i,
    {
        let mut row = build_row(
            &players[i],
            i,
            self_puuid,
            players,
            &own,
            names,
            self_level,
            loadouts,
            &fetched[i].0,
            &fetched[i].1,
            sd,
            party_map,
        );
        let failed = fetched[i].0.is_none();
        apply_fallbacks(&mut row, last_rows, failed);
        rows.push(row);
        i += 1;
    }
    rows
}

/// A cached row brought up to date with the cheap fields of the live payload:
/// team, agent, card, lock state, and the level when the payload shows one.
pub open spec fn refreshed_row(base: RowView, p: RawView, own: Option<Seq<char>>, sd: StaticData) -> RowView {
    RowView {
        team: team_label(p.team, own),
        agent: sd.agent_name_spec(p.character_id),
        agent_icon: sd.agent_icon_spec(p.character_id),
        player_card: sd.card_art_spec(p.player_card_id),
        locked: p.locked,
        account_level: if p.account_level > 0 {
            p.account_level
        } else {
            base.account_level
        },
        ..base
    }
}

/// Rebuilds the rows of the current match from the cached rows, refreshing
/// only the fields that come from the match payload; a player without a
/// cached row starts from a blank one.
pub fn refresh_rows(
    cached: &Vec<PlayerRow>,
    raw: &Vec<RawPlayer>,
    sd: &StaticData,
    self_puuid: &str,
) -> (r: Vec<PlayerRow>)
    ensures
        r@.len() == raw@.len(),
        forall|i: int|
            0 <= i < raw@.len() ==> #[trigger] r@[i]@ == refreshed_row(
                match prev_row(row_views(cached@), raw@[i].puuid@) {
                    Some(c) => c,
                    None => blank_row(raw@[i].puuid@),
                },
                raw@[i]@,
                own_team(raw_views(raw@), self_puuid@),
                *sd,
            ),
{
    let own = own_team_of(raw, self_puuid);
    let mut out: Vec<PlayerRow> = Vec::new();
    let mut i: usize = 0;
    while i < raw.len()
        invariant
            i <= raw@.len(),
            match own {
                Some(t) => own_team(raw_views(raw@), self_puuid@) == Some(t@),
                None => own_team(raw_views(raw@), self_puuid@) is None,
            },
            out@.len() == i,
            forall|k: int|
                0 <= k < i ==> #[trigger] out@[k]@ == refreshed_row(
                    match prev_row(row_views(cached@), raw@[k].puuid@) {
                        Some(c) => c,
                        None => blank_row(raw@[k].puuid@),
                    },
                    raw@[k]@,
                    own_team(raw_views(raw@), self_puuid@),
                    *sd,
                ),
        decreases raw@.len() - i,
    {
        let p = &raw[i];
        let mut row = match find_row(cached, p.puuid.as_str()) {
            Some(c) => c.copy_row(),
            None => PlayerRow::blank(p.puuid.clone()),
        };
        row.team = team_label_of(p.team.as_str(), &own);
        row.agent = sd.agent_name(p.character_id.as_str());
        row.agent_icon = sd.agent_icon(p.character_id.as_str());
        row.player_card = sd.card_art(p.player_card_id.as_str());
        row.locked = p.locked;
        if p.account_level > 0 {
            row.account_level = p.account_level;
        }
        out.push(row);
        i += 1;
    }
    out
}

/// Lexicographic order of texts by character, as `<` on strings orders them.
pub open spec fn text_lt(a: Seq<char>, b: Seq<char>) -> bool
    decreases a.len(),
{
    if a.len() == 0 {
        b.len() > 0
    } else if b.len() == 0 {
        false
    } else if (a[0] as u32) < (b[0] as u32) {
        true
    } else if (a[0] as u32) > (b[0] as u32) {
        false
    } else {
        text_lt(a.drop_first(), b.drop_first())
    }
}

pub fn less_text(a: &str, b: &str) -> (r: bool)
    ensures
        r == text_lt(a@, b@),
{
    let x = crate::text::chars_of(a);
    let y = crate::text::chars_of(b);
    let mut i: usize = 0;
    proof {
        assert(x@.skip(0) =~= x@);
        assert(y@.skip(0) =~= y@);
    }
    while i < x.len() && i < y.len()
        invariant
            i <= x@.len(),
            i <= y@.len(),
            text_lt(a@, b@) == text_lt(x@.skip(i as int), y@.skip(i as int)),
            x@ == a@,
            y@ == b@,
        decreases x@.len() - i,
    {
        proof {
            assert(x@.skip(i as int)[0] == x@[i as int]);
            assert(y@.skip(i as int)[0] == y@[i as int]);
            assert(x@.skip(i as int).drop_first() =~= x@.skip(i as int + 1));
            assert(y@.skip(i as int).drop_first() =~= y@.skip(i as int + 1));
        }
        let cx = x[i] as u32;
        let cy = y[i] as u32;
        if cx < cy {
            return true;
        }
        if cx > cy {
            return false;
        }
        i += 1;
    }
    i >= x.len() && i < y.len()
}

/// The player `b` is among `a`'s recent party mates.
pub open spec fn mates_has(mm: Seq<(String, Vec<String>)>, a: Seq<char>, b: Seq<char>) -> bool {
    crate::assoc::as_map(mm).contains_key(a) && crate::encounter::texts(
        crate::assoc::as_map(mm)[a]@,
    ).contains(b)
}

/// Rows `a` and `b` have no presence party and one lists the other as a
/// recent party mate.
pub open spec fn mate_edge(
    rv: Seq<RowView>,
    pm: Map<Seq<char>, Seq<char>>,
    mm: Seq<(String, Vec<String>)>,
    a: int,
    b: int,
) -> bool {
    text_or_empty_in(pm, rv[a].puuid).len() == 0 && text_or_empty_in(pm, rv[b].puuid).len() == 0
        && (mates_has(mm, rv[a].puuid, rv[b].puuid) || mates_has(mm, rv[b].puuid, rv[a].puuid))
}

/// Some row among the first `a` is marked in `from` and shares a mate edge
/// with row `j`.
pub open spec fn edge_from(
    rv: Seq<RowView>,
    pm: Map<Seq<char>, Seq<char>>,
    mm: Seq<(String, Vec<String>)>,
    from: Seq<bool>,
    j: int,
    a: int,
) -> bool
    decreases a,
{
    if a <= 0 {
        false
    } else {
        edge_from(rv, pm, mm, from, j, a - 1) || (from[a - 1] && mate_edge(rv, pm, mm, a - 1, j))
    }
}

/// The rows marked in `from`, together with those one mate edge away from one
/// of them.
pub open spec fn widen(
    rv: Seq<RowView>,
    pm: Map<Seq<char>, Seq<char>>,
    mm: Seq<(String, Vec<String>)>,
    from: Seq<bool>,
) -> Seq<bool> {
    Seq::new(rv.len(), |j: int| from[j] || edge_from(rv, pm, mm, from, j, rv.len() as int))
}

/// The rows reachable from row `i` over at most `k` mate edges.
pub open spec fn reach(
    rv: Seq<RowView>,
    pm: Map<Seq<char>, Seq<char>>,
    mm: Seq<(String, Vec<String>)>,
    k: nat,
    i: int,
) -> Seq<bool>
    decreases k,
{
    if k == 0 {
        Seq::new(rv.len(), |j: int| j == i)
    } else {
        widen(rv, pm, mm, reach(rv, pm, mm, (k - 1) as nat, i))
    }
}

/// Rows `i` and `j` are in one inferred party: connected by mate edges.
pub open spec fn linked(
    rv: Seq<RowView>,
    pm: Map<Seq<char>, Seq<char>>,
    mm: Seq<(String, Vec<String>)>,
    i: int,
    j: int,
) -> bool {
    reach(rv, pm, mm, rv.len(), i)[j]
}

/// How many of the first `k` rows are linked to row `i`.
pub open spec fn group_count(
    rv: Seq<RowView>,
    pm: Map<Seq<char>, Seq<char>>,
    mm: Seq<(String, Vec<String>)>,
    i: int,
    k: int,
) -> nat
    decreases k,
{
    if k <= 0 {
        0
    } else {
        group_count(rv, pm, mm, i, k - 1) + if linked(rv, pm, mm, i, k - 1) {
            1nat
        } else {
            0nat
        }
    }
}

/// The smallest id among the first `k` rows linked to row `i`.
pub open spec fn group_min(
    rv: Seq<RowView>,
    pm: Map<Seq<char>, Seq<char>>,
    mm: Seq<(String, Vec<String>)>,
    i: int,
    k: int,
) -> Option<Seq<char>>
    decreases k,
{
    if k <= 0 {
        None
    } else {
        let prev = group_min(rv, pm, mm, i, k - 1);
        if linked(rv, pm, mm, i, k - 1) {
            match prev {
                Some(m) => if text_lt(rv[k - 1].puuid, m) {
                    Some(rv[k - 1].puuid)
                } else {
                    Some(m)
                },
                None => Some(rv[k - 1].puuid),
            }
        } else {
            prev
        }
    }
}

/// The party a row resolves to: its presence party when it has one, else
/// "h:" and the smallest id of its inferred group when that group has two or
/// more rows, else none.
pub open spec fn resolved_party(
    rv: Seq<RowView>,
    pm: Map<Seq<char>, Seq<char>>,
    mm: Seq<(String, Vec<String>)>,
    i: int,
) -> Seq<char> {
    let pres = text_or_empty_in(pm, rv[i].puuid);
    if pres.len() > 0 {
        pres
    } else if group_count(rv, pm, mm, i, rv.len() as int) >= 2 {
        "h:"@ + group_min(rv, pm, mm, i, rv.len() as int)->0
    } else {
        Seq::empty()
    }
}

/// How many of the first `k` parties equal `id`.
pub open spec fn id_count(ids: Seq<Seq<char>>, id: Seq<char>, k: int) -> nat
    decreases k,
{
    if k <= 0 {
        0
    } else {
        id_count(ids, id, k - 1) + if ids[k - 1] == id {
            1nat
        } else {
            0nat
        }
    }
}

/// The resolved parties of all rows.
pub open spec fn resolved_ids(
    rv: Seq<RowView>,
    pm: Map<Seq<char>, Seq<char>>,
    mm: Seq<(String, Vec<String>)>,
) -> Seq<Seq<char>> {
    Seq::new(rv.len(), |i: int| resolved_party(rv, pm, mm, i))
}

/// The rows with their resolved party and its size (1 without a party).
pub open spec fn with_parties(
    rv: Seq<RowView>,
    pm: Map<Seq<char>, Seq<char>>,
    mm: Seq<(String, Vec<String>)>,
) -> Seq<RowView> {
    let ids = resolved_ids(rv, pm, mm);
    Seq::new(
        rv.len(),
        |i: int|
            RowView {
                party_id: ids[i],
                party_size: if ids[i].len() == 0 {
                    1
                } else {
                    id_count(ids, ids[i], rv.len() as int) as u32
                },
                ..rv[i]
            },
    )
}

fn mates_has_of(mm: &Vec<(String, Vec<String>)>, a: &str, b: &str) -> (r: bool)
    ensures
        r == mates_has(mm@, a@, b@),
{
    match crate::assoc::lookup(mm, a) {
        Some(list) => {
            let mut k: usize = 0;
            while k < list.len()
                invariant
                    k <= list@.len(),
                    crate::assoc::assoc(mm@, a@) == Some(*list),
                    forall|t: int| 0 <= t < k ==> list@[t]@ != b@,
                decreases list@.len() - k,
            {
                if text_eq(list[k].as_str(), b) {
                    proof {
                        assert(crate::encounter::texts(list@)[k as int] == b@);
                    }
                    return true;
                }
                k += 1;
            }
            proof {
                if crate::encounter::texts(list@).contains(b@) {
                    let t = choose|t: int| 0 <= t < crate::encounter::texts(list@).len() && crate::encounter::texts(list@)[t] == b@;
                    assert(list@[t]@ == b@);
                }
            }
            false
        },
        None => false,
    }
}


/// The presence party of every row, empty where the map has none.
fn presence_ids(rows: &Vec<PlayerRow>, party_map: &Vec<(String, String)>) -> (p: Vec<String>)
    ensures
        p@.len() == rows@.len(),
        forall|i: int|
            0 <= i < p@.len() ==> #[trigger] p@[i]@ == text_or_empty_in(
                text_map(party_map@),
                rows@[i].puuid@,
            ),
{
    let mut p: Vec<String> = Vec::new();
    for i in 0..rows.len()
        invariant
            p@.len() == i,
            forall|j: int|
                0 <= j < i ==> #[trigger] p@[j]@ == text_or_empty_in(
                    text_map(party_map@),
                    rows@[j].puuid@,
                ),
    {
        let t = match get_text(party_map, rows[i].puuid.as_str()) {
            Some(t) => t,
            None => String::new(),
        };
        p.push(t);
    }
    p
}

/// The mate-edge matrix over the rows.
fn mate_edges(
    rows: &Vec<PlayerRow>,
    party_map: &Vec<(String, String)>,
    mates: &Vec<(String, Vec<String>)>,
    pres: &Vec<String>,
) -> (e: Vec<Vec<bool>>)
    requires
        pres@.len() == rows@.len(),
        forall|i: int|
            0 <= i < pres@.len() ==> #[trigger] pres@[i]@ == text_or_empty_in(
                text_map(party_map@),
                rows@[i].puuid@,
            ),
    ensures
        e@.len() == rows@.len(),
        forall|a: int| 0 <= a < e@.len() ==> #[trigger] e@[a]@.len() == rows@.len(),
        forall|a: int, b: int|
            0 <= a < rows@.len() && 0 <= b < rows@.len() ==> #[trigger] e@[a]@[b] == mate_edge(
                row_views(rows@),
                text_map(party_map@),
                mates@,
                a,
                b,
            ),
{
    let n = rows.len();
    let ghost rv = row_views(rows@);
    let mut e: Vec<Vec<bool>> = Vec::new();
    for a in 0..n
        invariant
            n == rows@.len(),
            rv == row_views(rows@),
            pres@.len() == n,
            forall|i: int|
                0 <= i < n ==> #[trigger] pres@[i]@ == text_or_empty_in(
                    text_map(party_map@),
                    rows@[i].puuid@,
                ),
            e@.len() == a,
            forall|x: int| 0 <= x < a ==> #[trigger] e@[x]@.len() == n,
            forall|x: int, y: int|
                0 <= x < a && 0 <= y < n ==> #[trigger] e@[x]@[y] == mate_edge(
                    rv,
                    text_map(party_map@),
                    mates@,
                    x,
                    y,
                ),
    {
        let mut line: Vec<bool> = Vec::new();
        for b in 0..n
            invariant
                n == rows@.len(),
                rv == row_views(rows@),
                pres@.len() == n,
                forall|i: int|
                    0 <= i < n ==> #[trigger] pres@[i]@ == text_or_empty_in(
                        text_map(party_map@),
                        rows@[i].puuid@,
                    ),
                0 <= a < n,
                line@.len() == b,
                forall|y: int|
                    0 <= y < b ==> #[trigger] line@[y] == mate_edge(
                        rv,
                        text_map(party_map@),
                        mates@,
                        a as int,
                        y,
                    ),
        {
            let v = pres[a].as_str().is_empty() && pres[b].as_str().is_empty() && (mates_has_of(
                mates,
                rows[a].puuid.as_str(),
                rows[b].puuid.as_str(),
            ) || mates_has_of(mates, rows[b].puuid.as_str(), rows[a].puuid.as_str()));
            proof {
                assert(rv[a as int].puuid == rows@[a as int].puuid@);
                assert(rv[b as int].puuid == rows@[b as int].puuid@);
            }
            line.push(v);
        }
        e.push(line);
    }
    e
}

/// One more step of reachability from a fixed row.
fn reach_step(
    rows: &Vec<PlayerRow>,
    party_map: &Vec<(String, String)>,
    mates: &Vec<(String, Vec<String>)>,
    e: &Vec<Vec<bool>>,
    cur: &Vec<bool>,
) -> (next: Vec<bool>)
    requires
        e@.len() == rows@.len(),
        forall|a: int| 0 <= a < e@.len() ==> #[trigger] e@[a]@.len() == rows@.len(),
        forall|a: int, b: int|
            0 <= a < rows@.len() && 0 <= b < rows@.len() ==> #[trigger] e@[a]@[b] == mate_edge(
                row_views(rows@),
                text_map(party_map@),
                mates@,
                a,
                b,
            ),
        cur@.len() == rows@.len(),
    ensures
        next@ == widen(row_views(rows@), text_map(party_map@), mates@, cur@),
{
    let n = rows.len();
    let ghost rv = row_views(rows@);
    let ghost pm = text_map(party_map@);
    let mut next: Vec<bool> = Vec::new();
    for j in 0..n
        invariant
            n == rows@.len(),
            rv == row_views(rows@),
            pm == text_map(party_map@),
            e@.len() == n,
            forall|a: int| 0 <= a < n ==> #[trigger] e@[a]@.len() == n,
            forall|a: int, b: int|
                0 <= a < n && 0 <= b < n ==> #[trigger] e@[a]@[b] == mate_edge(
                    rv,
                    pm,
                    mates@,
                    a,
                    b,
                ),
            cur@.len() == n,
            next@.len() == j,
            forall|x: int|
                0 <= x < j ==> #[trigger] next@[x] == (cur@[x] || edge_from(
                    rv,
                    pm,
                    mates@,
                    cur@,
                    x,
                    n as int,
                )),
    {
        let mut found = false;
        for a in 0..n
            invariant
                n == rows@.len(),
                rv == row_views(rows@),
                0 <= j < n,
                e@.len() == n,
                forall|x: int| 0 <= x < n ==> #[trigger] e@[x]@.len() == n,
                forall|x: int, y: int|
                    0 <= x < n && 0 <= y < n ==> #[trigger] e@[x]@[y] == mate_edge(
                        rv,
                        pm,
                        mates@,
                        x,
                        y,
                    ),
                cur@.len() == n,
                found == edge_from(rv, pm, mates@, cur@, j as int, a as int),
        {
            proof {
                assert(e@[a as int]@[j as int] == mate_edge(rv, pm, mates@, a as int, j as int));
            }
            if cur[a] && e[a][j] {
                found = true;
            }
        }
        next.push(cur[j] || found);
    }
    proof {
        assert(next@ =~= widen(rv, pm, mates@, cur@));
    }
    next
}

/// Which rows are linked to row `i`.
fn linked_from(
    rows: &Vec<PlayerRow>,
    party_map: &Vec<(String, String)>,
    mates: &Vec<(String, Vec<String>)>,
    e: &Vec<Vec<bool>>,
    i: usize,
) -> (l: Vec<bool>)
    requires
        i < rows@.len(),
        e@.len() == rows@.len(),
        forall|a: int| 0 <= a < e@.len() ==> #[trigger] e@[a]@.len() == rows@.len(),
        forall|a: int, b: int|
            0 <= a < rows@.len() && 0 <= b < rows@.len() ==> #[trigger] e@[a]@[b] == mate_edge(
                row_views(rows@),
                text_map(party_map@),
                mates@,
                a,
                b,
            ),
    ensures
        l@ == reach(row_views(rows@), text_map(party_map@), mates@, rows@.len(), i as int),
{
    let n = rows.len();
    let ghost rv = row_views(rows@);
    let ghost pm = text_map(party_map@);
    let mut cur: Vec<bool> = Vec::new();
    for j in 0..n
        invariant
            cur@.len() == j,
            forall|x: int| 0 <= x < j ==> #[trigger] cur@[x] == (x == i),
    {
        cur.push(j == i);
    }
    proof {
        assert(rv.len() == n);
        assert(cur@ =~= reach(rv, pm, mates@, 0, i as int));
    }
    let mut k: usize = 0;
    while k < n
        invariant
            n == rows@.len(),
            rv == row_views(rows@),
            pm == text_map(party_map@),
            k <= n,
            e@.len() == rows@.len(),
            forall|a: int| 0 <= a < e@.len() ==> #[trigger] e@[a]@.len() == rows@.len(),
            forall|a: int, b: int|
                0 <= a < rows@.len() && 0 <= b < rows@.len() ==> #[trigger] e@[a]@[b] == mate_edge(
                    rv,
                    pm,
                    mates@,
                    a,
                    b,
                ),
            cur@ == reach(rv, pm, mates@, k as nat, i as int),
        decreases n - k,
    {
        proof {
            assert(reach(rv, pm, mates@, (k + 1) as nat, i as int) == widen(rv, pm, mates@, cur@));
        }
        cur = reach_step(rows, party_map, mates, e, &cur);
        k += 1;
    }
    cur
}

proof fn lemma_id_count_le(ids: Seq<Seq<char>>, id: Seq<char>, k: int)
    ensures
        id_count(ids, id, k) <= if k < 0 {
            0
        } else {
            k
        },
    decreases k,
{
    if k > 0 {
        lemma_id_count_le(ids, id, k - 1);
    }
}

proof fn lemma_group_count_le(
    rv: Seq<RowView>,
    pm: Map<Seq<char>, Seq<char>>,
    mm: Seq<(String, Vec<String>)>,
    i: int,
    k: int,
)
    ensures
        group_count(rv, pm, mm, i, k) <= if k < 0 {
            0
        } else {
            k
        },
    decreases k,
{
    if k > 0 {
        lemma_group_count_le(rv, pm, mm, i, k - 1);
    }
}

proof fn lemma_group_min_some(
    rv: Seq<RowView>,
    pm: Map<Seq<char>, Seq<char>>,
    mm: Seq<(String, Vec<String>)>,
    i: int,
    k: int,
)
    ensures
        group_count(rv, pm, mm, i, k) > 0 ==> group_min(rv, pm, mm, i, k) is Some,
    decreases k,
{
    if k > 0 {
        lemma_group_min_some(rv, pm, mm, i, k - 1);
    }
}

/// The resolved party of row `i`.
fn party_of(
    rows: &Vec<PlayerRow>,
    party_map: &Vec<(String, String)>,
    mates: &Vec<(String, Vec<String>)>,
    pres: &Vec<String>,
    e: &Vec<Vec<bool>>,
    i: usize,
) -> (id: String)
    requires
        i < rows@.len(),
        rows@.len() <= u32::MAX,
        pres@.len() == rows@.len(),
        forall|x: int|
            0 <= x < pres@.len() ==> #[trigger] pres@[x]@ == text_or_empty_in(
                text_map(party_map@),
                rows@[x].puuid@,
            ),
        e@.len() == rows@.len(),
        forall|a: int| 0 <= a < e@.len() ==> #[trigger] e@[a]@.len() == rows@.len(),
        forall|a: int, b: int|
            0 <= a < rows@.len() && 0 <= b < rows@.len() ==> #[trigger] e@[a]@[b] == mate_edge(
                row_views(rows@),
                text_map(party_map@),
                mates@,
                a,
                b,
            ),
    ensures
        id@ == resolved_party(row_views(rows@), text_map(party_map@), mates@, i as int),
{
    let ghost rv = row_views(rows@);
    let ghost pm = text_map(party_map@);
    proof {
        assert(rv[i as int].puuid == rows@[i as int].puuid@);
    }
    if !pres[i].as_str().is_empty() {
        return pres[i].clone();
    }
    let l = linked_from(rows, party_map, mates, e, i);
    let n = rows.len();
    proof {
        assert(rv.len() == n);
    }
    let mut count: u32 = 0;
    let mut least: Option<String> = None;
    for k in 0..n
        invariant
            n == rows@.len(),
            n <= u32::MAX,
            rv == row_views(rows@),
            pm == text_map(party_map@),
            l@.len() == n,
            l@ == reach(rv, pm, mates@, n as nat, i as int),
            count == group_count(rv, pm, mates@, i as int, k as int),
            match least {
                Some(m) => group_min(rv, pm, mates@, i as int, k as int) == Some(m@),
                None => group_min(rv, pm, mates@, i as int, k as int) is None,
            },
    {
        proof {
            lemma_group_count_le(rv, pm, mates@, i as int, k as int);
            assert(l@[k as int] == linked(rv, pm, mates@, i as int, k as int));
            assert(rv[k as int].puuid == rows@[k as int].puuid@);
        }
        if l[k] {
            count += 1;
            least = match least {
                Some(m) => if less_text(rows[k].puuid.as_str(), m.as_str()) {
                    Some(rows[k].puuid.clone())
                } else {
                    Some(m)
                },
                None => Some(rows[k].puuid.clone()),
            };
        }
    }
    proof {
        lemma_group_min_some(rv, pm, mates@, i as int, n as int);
        assert(rv.len() == n);
    }
    if count >= 2 {
        match least {
            Some(m) => {
                let mut id = String::new();
                crate::text::push_text(&mut id, "h:");
                crate::text::push_text(&mut id, m.as_str());
                proof {
                    reveal_strlit("h:");
                    assert(id@ =~= "h:"@ + m@);
                }
                id
            },
            None => String::new(),
        }
    } else {
        String::new()
    }
}


/// How many parties equal `id`.
fn count_id(ids: &Vec<String>, id: &str, Ghost(spec_ids): Ghost<Seq<Seq<char>>>) -> (c: u32)
    requires
        ids@.len() <= u32::MAX,
        spec_ids.len() == ids@.len(),
        forall|x: int| 0 <= x < ids@.len() ==> #[trigger] ids@[x]@ == spec_ids[x],
    ensures
        c == id_count(spec_ids, id@, ids@.len() as int),
{
    let mut c: u32 = 0;
    for k in 0..ids.len()
        invariant
            ids@.len() <= u32::MAX,
            spec_ids.len() == ids@.len(),
            forall|x: int| 0 <= x < ids@.len() ==> #[trigger] ids@[x]@ == spec_ids[x],
            c == id_count(spec_ids, id@, k as int),
    {
        proof {
            lemma_id_count_le(spec_ids, id@, k as int);
            assert(ids@[k as int]@ == spec_ids[k as int]);
        }
        if text_eq(ids[k].as_str(), id) {
            c += 1;
        }
    }
    c
}

/// Resolves every row's party from two sources: the presence party ids, which
/// are authoritative and never overwritten, and the recent party mates seen
/// in match history. Rows without a presence id that are connected by mate
/// links (either row listing the other) form one inferred party, named "h:"
/// followed by the smallest player id in it; a lone row keeps an empty id.
/// Each row's party size is then the number of rows sharing its resolved id,
/// and 1 without one.
pub fn apply_parties(
    rows: &mut Vec<PlayerRow>,
    party_map: &Vec<(String, String)>,
    mates: &Vec<(String, Vec<String>)>,
)
    requires
        old(rows)@.len() <= u32::MAX,
    ensures
        row_views(final(rows)@) == with_parties(
            row_views(old(rows)@),
            text_map(party_map@),
            mates@,
        ),
{
    let n = rows.len();
    let ghost rv = row_views(rows@);
    let ghost pm = text_map(party_map@);
    let ghost spec_ids = resolved_ids(rv, pm, mates@);
    let pres = presence_ids(rows, party_map);
    let e = mate_edges(rows, party_map, mates, &pres);
    let mut ids: Vec<String> = Vec::new();
    for i in 0..n
        invariant
            n == rows@.len(),
            n <= u32::MAX,
            rv == row_views(rows@),
            pm == text_map(party_map@),
            spec_ids == resolved_ids(rv, pm, mates@),
            pres@.len() == n,
            forall|x: int|
                0 <= x < n ==> #[trigger] pres@[x]@ == text_or_empty_in(
                    text_map(party_map@),
                    rows@[x].puuid@,
                ),
            e@.len() == n,
            forall|a: int| 0 <= a < n ==> #[trigger] e@[a]@.len() == n,
            forall|a: int, b: int|
                0 <= a < n && 0 <= b < n ==> #[trigger] e@[a]@[b] == mate_edge(
                    rv,
                    pm,
                    mates@,
                    a,
                    b,
                ),
            ids@.len() == i,
            forall|x: int| 0 <= x < i ==> #[trigger] ids@[x]@ == spec_ids[x],
    {
        let id = party_of(rows, party_map, mates, &pres, &e, i);
        ids.push(id);
    }
    let mut out: Vec<PlayerRow> = Vec::new();
    for i in 0..n
        invariant
            n == rows@.len(),
            n <= u32::MAX,
            rv == row_views(rows@),
            spec_ids == resolved_ids(rv, pm, mates@),
            spec_ids.len() == n,
            ids@.len() == n,
            forall|x: int| 0 <= x < n ==> #[trigger] ids@[x]@ == spec_ids[x],
            out@.len() == i,
            forall|x: int|
                0 <= x < i ==> #[trigger] out@[x]@ == with_parties(rv, pm, mates@)[x],
    {
        let size: u32 = if ids[i].as_str().is_empty() {
            1
        } else {
            count_id(&ids, ids[i].as_str(), Ghost(spec_ids))
        };
        let mut r = rows[i].copy_row();
        r.party_id = ids[i].clone();
        r.party_size = size;
        proof {
            lemma_id_count_le(spec_ids, spec_ids[i as int], n as int);
            assert(ids@[i as int]@ == spec_ids[i as int]);
            assert(rv[i as int] == rows@[i as int]@);
            assert(r@ == with_parties(rv, pm, mates@)[i as int]);
        }
        out.push(r);
    }
    proof {
        assert(row_views(out@) =~= with_parties(rv, pm, mates@));
    }
    *rows = out;
}


/// The recent party mates table as a map from a player to the mates' ids.
pub open spec fn mates_view(mm: Seq<(String, Vec<String>)>) -> Map<Seq<char>, Seq<String>> {
    crate::assoc::as_map(mm).map_values(|v: Vec<String>| v@)
}

/// A row with a player's recent form filled in: the stats of the last games,
/// the streak, the RR trend and the recent record; a hidden level (0) takes
/// the level seen in match history when that is known; and the row is marked
/// as having combat data.
pub open spec fn with_form(r: RowView, f: RecentForm) -> RowView {
    RowView {
        last_kills: f.kills,
        last_deaths: f.deaths,
        last_hs: f.hs,
        last_acs: f.acs,
        last_adr: f.adr,
        last_kast: f.kast,
        last_assists: f.assists,
        streak: f.streak,
        rr_trend: f.rr_trend,
        recent_wins: f.wins,
        recent_losses: f.losses,
        account_level: if r.account_level == 0 && f.level > 0 {
            f.level
        } else {
            r.account_level
        },
        has_combat: true,
        ..r
    }
}

/// Row `i` is the first row with id `p`.
pub open spec fn first_with(rv: Seq<RowView>, p: Seq<char>, i: int) -> bool {
    0 <= i < rv.len() && rv[i].puuid == p && forall|j: int| 0 <= j < i ==> rv[j].puuid != p
}

/// The rows after a player's form is given to the first row with the
/// player's id; unchanged when no row has it.
pub open spec fn form_applied(rv: Seq<RowView>, p: Seq<char>, f: RecentForm) -> Seq<RowView> {
    if exists|i: int| first_with(rv, p, i) {
        let i = choose|i: int| first_with(rv, p, i);
        rv.update(i, with_form(rv[i], f))
    } else {
        rv
    }
}

/// The rows after every fetched form is applied in order; a failed fetch
/// changes nothing.
pub open spec fn forms_applied(rv: Seq<RowView>, ups: Seq<(String, Option<RecentForm>)>) -> Seq<
    RowView,
>
    decreases ups.len(),
{
    if ups.len() == 0 {
        rv
    } else {
        let prev = forms_applied(rv, ups.drop_last());
        match ups.last().1 {
            Some(f) => form_applied(prev, ups.last().0@, f),
            None => prev,
        }
    }
}

/// The mates table after every fetched form stores the player's mates.
pub open spec fn mates_after(
    m: Map<Seq<char>, Seq<String>>,
    ups: Seq<(String, Option<RecentForm>)>,
) -> Map<Seq<char>, Seq<String>>
    decreases ups.len(),
{
    if ups.len() == 0 {
        m
    } else {
        let prev = mates_after(m, ups.drop_last());
        match ups.last().1 {
            Some(f) => prev.insert(ups.last().0@, f.mates@),
            None => prev,
        }
    }
}

fn copy_texts(v: &Vec<String>) -> (r: Vec<String>)
    ensures
        r@ == v@,
{
    let mut r: Vec<String> = Vec::new();
    for i in 0..v.len()
        invariant
            r@ == v@.take(i as int),
    {
        proof {
            assert(v@.take(i as int + 1) =~= v@.take(i as int).push(v@[i as int]));
        }
        r.push(v[i].clone());
    }
    proof {
        assert(v@.take(v@.len() as int) =~= v@);
    }
    r
}

/// Gives a player's recent form to the first row with the player's id.
fn give_form(rows: &mut Vec<PlayerRow>, p: &str, f: &RecentForm)
    ensures
        final(rows)@.len() == old(rows)@.len(),
        row_views(final(rows)@) == form_applied(row_views(old(rows)@), p@, *f),
{
    let ghost rv = row_views(rows@);
    let mut i: usize = 0;
    while i < rows.len()
        invariant
            i <= rows@.len(),
            rv == row_views(rows@),
            rv == row_views(old(rows)@),
            rows@ == old(rows)@,
            forall|j: int| 0 <= j < i ==> rv[j].puuid != p@,
        decreases rows@.len() - i,
    {
        proof {
            assert(rv[i as int] == rows@[i as int]@);
        }
        if text_eq(rows[i].puuid.as_str(), p) {
            let mut r = rows[i].copy_row();
            r.last_kills = f.kills;
            r.last_deaths = f.deaths;
            r.last_hs = f.hs;
            r.last_acs = f.acs;
            r.last_adr = f.adr;
            r.last_kast = f.kast;
            r.last_assists = f.assists;
            r.streak = f.streak;
            r.rr_trend = f.rr_trend;
            r.recent_wins = f.wins;
            r.recent_losses = f.losses;
            if r.account_level == 0 && f.level > 0 {
                r.account_level = f.level;
            }
            r.has_combat = true;
            proof {
                assert(first_with(rv, p@, i as int));
                let c = choose|c: int| first_with(rv, p@, c);
                assert(c == i as int) by {
                    if c < i {
                        assert(rv[c].puuid != p@);
                    }
                    if c > i {
                        assert(rv[i as int].puuid != p@);
                    }
                }
                assert(r@ == with_form(rv[i as int], *f));
            }
            rows.set(i, r);
            proof {
                assert(row_views(rows@) =~= form_applied(rv, p@, *f));
            }
            return;
        }
        i += 1;
    }
    proof {
        assert(!exists|c: int| first_with(rv, p@, c));
        assert(row_views(rows@) =~= rv);
    }
}

/// Fills in each fetched recent form in order: the player's recent party
/// mates are stored, and the first row with the player's id takes the form.
/// Then every row's party is resolved from the presence parties and the
/// stored mates.
pub fn apply_recent(
    rows: &mut Vec<PlayerRow>,
    updates: &Vec<(String, Option<RecentForm>)>,
    mates: &mut Vec<(String, Vec<String>)>,
    party_map: &Vec<(String, String)>,
)
    requires
        old(rows)@.len() <= u32::MAX,
    ensures
        mates_view(final(mates)@) == mates_after(mates_view(old(mates)@), updates@),
        crate::assoc::unique_keys(old(mates)@) ==> crate::assoc::unique_keys(final(mates)@),
        row_views(final(rows)@) == with_parties(
            forms_applied(row_views(old(rows)@), updates@),
            text_map(party_map@),
            final(mates)@,
        ),
{
    let ghost rv0 = row_views(rows@);
    let ghost mm0 = mates@;
    for k in 0..updates.len()
        invariant
            rows@.len() == rv0.len(),
            rv0.len() <= u32::MAX,
            row_views(rows@) == forms_applied(rv0, updates@.take(k as int)),
            mates_view(mates@) == mates_after(mates_view(mm0), updates@.take(k as int)),
            crate::assoc::unique_keys(mm0) ==> crate::assoc::unique_keys(mates@),
    {
        proof {
            assert(updates@.take(k as int + 1).drop_last() =~= updates@.take(k as int));
            assert(updates@.take(k as int + 1).last() == updates@[k as int]);
        }
        match &updates[k].1 {
            Some(f) => {
                let ghost before = mates@;
                let list = copy_texts(&f.mates);
                crate::assoc::insert(mates, updates[k].0.clone(), list);
                proof {
                    assert(mates_view(mates@) =~= mates_view(before).insert(
                        updates@[k as int].0@,
                        f.mates@,
                    ));
                }
                give_form(rows, updates[k].0.as_str(), f);
            },
            None => {},
        }
    }
    proof {
        assert(updates@.take(updates@.len() as int) =~= updates@);
    }
    apply_parties(rows, party_map, mates);
}


proof fn lemma_reach_len(
    rv: Seq<RowView>,
    pm: Map<Seq<char>, Seq<char>>,
    mm: Seq<(String, Vec<String>)>,
    k: nat,
    i: int,
)
    ensures
        reach(rv, pm, mm, k, i).len() == rv.len(),
    decreases k,
{
    if k > 0 {
        lemma_reach_len(rv, pm, mm, (k - 1) as nat, i);
    }
}

proof fn lemma_edge_from(
    rv: Seq<RowView>,
    pm: Map<Seq<char>, Seq<char>>,
    mm: Seq<(String, Vec<String>)>,
    from: Seq<bool>,
    j: int,
    a: int,
)
    ensures
        edge_from(rv, pm, mm, from, j, a) <==> exists|y: int|
            0 <= y < a && #[trigger] from[y] && mate_edge(rv, pm, mm, y, j),
    decreases a,
{
    if a > 0 {
        lemma_edge_from(rv, pm, mm, from, j, a - 1);
        if edge_from(rv, pm, mm, from, j, a) {
            if edge_from(rv, pm, mm, from, j, a - 1) {
                let y = choose|y: int| 0 <= y < a - 1 && #[trigger] from[y] && mate_edge(rv, pm, mm, y, j);
                assert(0 <= y < a && from[y] && mate_edge(rv, pm, mm, y, j));
            } else {
                assert(from[a - 1] && mate_edge(rv, pm, mm, a - 1, j));
            }
        }
        if exists|y: int| 0 <= y < a && #[trigger] from[y] && mate_edge(rv, pm, mm, y, j) {
            let y = choose|y: int| 0 <= y < a && #[trigger] from[y] && mate_edge(rv, pm, mm, y, j);
            if y < a - 1 {
                assert(edge_from(rv, pm, mm, from, j, a - 1));
            }
        }
    }
}

proof fn lemma_reach_grows(
    rv: Seq<RowView>,
    pm: Map<Seq<char>, Seq<char>>,
    mm: Seq<(String, Vec<String>)>,
    k: nat,
    k2: nat,
    i: int,
    x: int,
)
    requires
        0 <= x < rv.len(),
        k <= k2,
        reach(rv, pm, mm, k, i)[x],
    ensures
        reach(rv, pm, mm, k2, i)[x],
    decreases k2 - k,
{
    if k < k2 {
        lemma_reach_len(rv, pm, mm, k, i);
        assert(reach(rv, pm, mm, k + 1, i) == widen(rv, pm, mm, reach(rv, pm, mm, k, i)));
        lemma_reach_grows(rv, pm, mm, k + 1, k2, i, x);
    }
}

proof fn lemma_reach_edge(
    rv: Seq<RowView>,
    pm: Map<Seq<char>, Seq<char>>,
    mm: Seq<(String, Vec<String>)>,
    k: nat,
    i: int,
    y: int,
    x: int,
)
    requires
        0 <= y < rv.len(),
        0 <= x < rv.len(),
        reach(rv, pm, mm, k, i)[y],
        mate_edge(rv, pm, mm, y, x),
    ensures
        reach(rv, pm, mm, k + 1, i)[x],
{
    let cur = reach(rv, pm, mm, k, i);
    lemma_reach_len(rv, pm, mm, k, i);
    lemma_edge_from(rv, pm, mm, cur, x, rv.len() as int);
    assert(cur[y] && mate_edge(rv, pm, mm, y, x));
    assert(edge_from(rv, pm, mm, cur, x, rv.len() as int));
    assert(reach(rv, pm, mm, k + 1, i) == widen(rv, pm, mm, cur));
}

proof fn lemma_reach_self(
    rv: Seq<RowView>,
    pm: Map<Seq<char>, Seq<char>>,
    mm: Seq<(String, Vec<String>)>,
    k: nat,
    i: int,
)
    requires
        0 <= i < rv.len(),
    ensures
        reach(rv, pm, mm, k, i)[i],
{
    assert(reach(rv, pm, mm, 0, i)[i]);
    lemma_reach_grows(rv, pm, mm, 0, k, i, i);
}

proof fn lemma_reach_concat(
    rv: Seq<RowView>,
    pm: Map<Seq<char>, Seq<char>>,
    mm: Seq<(String, Vec<String>)>,
    a: nat,
    b: nat,
    i: int,
    j: int,
    x: int,
)
    requires
        0 <= j < rv.len(),
        0 <= x < rv.len(),
        reach(rv, pm, mm, a, i)[j],
        reach(rv, pm, mm, b, j)[x],
    ensures
        reach(rv, pm, mm, a + b, i)[x],
    decreases b,
{
    if b == 0 {
        assert(x == j);
    } else {
        let prev = reach(rv, pm, mm, (b - 1) as nat, j);
        lemma_reach_len(rv, pm, mm, (b - 1) as nat, j);
        assert(reach(rv, pm, mm, b, j) == widen(rv, pm, mm, prev));
        if prev[x] {
            lemma_reach_concat(rv, pm, mm, a, (b - 1) as nat, i, j, x);
            lemma_reach_grows(rv, pm, mm, (a + b - 1) as nat, a + b, i, x);
        } else {
            lemma_edge_from(rv, pm, mm, prev, x, rv.len() as int);
            let y = choose|y: int|
                0 <= y < rv.len() && #[trigger] prev[y] && mate_edge(rv, pm, mm, y, x);
            lemma_reach_concat(rv, pm, mm, a, (b - 1) as nat, i, j, y);
            lemma_reach_edge(rv, pm, mm, (a + b - 1) as nat, i, y, x);
        }
    }
}

proof fn lemma_reach_symmetric(
    rv: Seq<RowView>,
    pm: Map<Seq<char>, Seq<char>>,
    mm: Seq<(String, Vec<String>)>,
    k: nat,
    i: int,
    j: int,
)
    requires
        0 <= i < rv.len(),
        0 <= j < rv.len(),
        reach(rv, pm, mm, k, i)[j],
    ensures
        reach(rv, pm, mm, k, j)[i],
    decreases k,
{
    if k == 0 {
        assert(i == j);
    } else {
        let prev = reach(rv, pm, mm, (k - 1) as nat, i);
        lemma_reach_len(rv, pm, mm, (k - 1) as nat, i);
        assert(reach(rv, pm, mm, k, i) == widen(rv, pm, mm, prev));
        if prev[j] {
            lemma_reach_symmetric(rv, pm, mm, (k - 1) as nat, i, j);
            lemma_reach_grows(rv, pm, mm, (k - 1) as nat, k, j, i);
        } else {
            lemma_edge_from(rv, pm, mm, prev, j, rv.len() as int);
            let y = choose|y: int|
                0 <= y < rv.len() && #[trigger] prev[y] && mate_edge(rv, pm, mm, y, j);
            lemma_reach_symmetric(rv, pm, mm, (k - 1) as nat, i, y);
            assert(mate_edge(rv, pm, mm, j, y));
            lemma_reach_self(rv, pm, mm, 0, j);
            lemma_reach_edge(rv, pm, mm, 0, j, j, y);
            lemma_reach_concat(rv, pm, mm, 1, (k - 1) as nat, j, y, i);
        }
    }
}

/// How many entries of `s` are set.
pub open spec fn marked(s: Seq<bool>) -> nat
    decreases s.len(),
{
    if s.len() == 0 {
        0
    } else {
        marked(s.drop_last()) + if s.last() {
            1nat
        } else {
            0nat
        }
    }
}

proof fn lemma_marked_le(s: Seq<bool>)
    ensures
        marked(s) <= s.len(),
    decreases s.len(),
{
    if s.len() > 0 {
        lemma_marked_le(s.drop_last());
    }
}

proof fn lemma_marked_grows(s: Seq<bool>, t: Seq<bool>)
    requires
        s.len() == t.len(),
        forall|x: int| 0 <= x < s.len() && #[trigger] s[x] ==> t[x],
    ensures
        marked(s) <= marked(t),
        s != t ==> marked(s) < marked(t),
    decreases s.len(),
{
    if s.len() == 0 {
        assert(s =~= t);
    } else {
        lemma_marked_grows(s.drop_last(), t.drop_last());
        assert(s.last() ==> t.last());
        if s != t {
            if s.drop_last() == t.drop_last() {
                assert(s.last() != t.last()) by {
                    if s.last() == t.last() {
                        assert forall|x: int| 0 <= x < s.len() implies s[x] == t[x] by {
                            if x < s.len() - 1 {
                                assert(s[x] == s.drop_last()[x]);
                                assert(t[x] == t.drop_last()[x]);
                            }
                        }
                        assert(s =~= t);
                    }
                }
            }
        }
    }
}

proof fn lemma_marked_one(s: Seq<bool>, i: int)
    requires
        0 <= i < s.len(),
        s[i],
    ensures
        marked(s) >= 1,
    decreases s.len(),
{
    if i < s.len() - 1 {
        lemma_marked_one(s.drop_last(), i);
    }
}

proof fn lemma_reach_fixed(
    rv: Seq<RowView>,
    pm: Map<Seq<char>, Seq<char>>,
    mm: Seq<(String, Vec<String>)>,
    k: nat,
    m: nat,
    i: int,
)
    requires
        k <= m,
        reach(rv, pm, mm, k + 1, i) == reach(rv, pm, mm, k, i),
    ensures
        reach(rv, pm, mm, m, i) == reach(rv, pm, mm, k, i),
    decreases m - k,
{
    if k < m {
        assert(reach(rv, pm, mm, k + 2, i) == widen(rv, pm, mm, reach(rv, pm, mm, k + 1, i)));
        lemma_reach_fixed(rv, pm, mm, k + 1, m, i);
    }
}

proof fn lemma_reach_grows_all(
    rv: Seq<RowView>,
    pm: Map<Seq<char>, Seq<char>>,
    mm: Seq<(String, Vec<String>)>,
    k: nat,
    i: int,
)
    ensures
        forall|x: int|
            0 <= x < reach(rv, pm, mm, k, i).len() && #[trigger] reach(rv, pm, mm, k, i)[x] ==> reach(
                rv,
                pm,
                mm,
                k + 1,
                i,
            )[x],
{
    lemma_reach_len(rv, pm, mm, k, i);
    assert forall|x: int|
        0 <= x < reach(rv, pm, mm, k, i).len() && #[trigger] reach(rv, pm, mm, k, i)[x] implies reach(
        rv,
        pm,
        mm,
        k + 1,
        i,
    )[x] by {
        lemma_reach_grows(rv, pm, mm, k, k + 1, i, x);
    }
}

proof fn lemma_reach_counts(
    rv: Seq<RowView>,
    pm: Map<Seq<char>, Seq<char>>,
    mm: Seq<(String, Vec<String>)>,
    k: nat,
    i: int,
)
    requires
        0 <= i < rv.len(),
    ensures
        (exists|j: nat| j < k && reach(rv, pm, mm, j + 1, i) == #[trigger] reach(rv, pm, mm, j, i))
            || marked(reach(rv, pm, mm, k, i)) >= k + 1,
    decreases k,
{
    if k == 0 {
        lemma_reach_self(rv, pm, mm, 0, i);
        lemma_marked_one(reach(rv, pm, mm, 0, i), i);
    } else {
        let km = (k - 1) as nat;
        lemma_reach_counts(rv, pm, mm, km, i);
        if exists|j: nat| j < km && reach(rv, pm, mm, j + 1, i) == #[trigger] reach(rv, pm, mm, j, i) {
            let j = choose|j: nat| j < km && reach(rv, pm, mm, j + 1, i) == #[trigger] reach(rv, pm, mm, j, i);
            assert(j < k);
        } else if reach(rv, pm, mm, k, i) == reach(rv, pm, mm, km, i) {
            assert(reach(rv, pm, mm, km + 1, i) == reach(rv, pm, mm, km, i));
        } else {
            lemma_reach_len(rv, pm, mm, km, i);
            lemma_reach_len(rv, pm, mm, k, i);
            lemma_reach_grows_all(rv, pm, mm, km, i);
            lemma_marked_grows(reach(rv, pm, mm, km, i), reach(rv, pm, mm, k, i));
        }
    }
}

proof fn lemma_reach_stable(
    rv: Seq<RowView>,
    pm: Map<Seq<char>, Seq<char>>,
    mm: Seq<(String, Vec<String>)>,
    m: nat,
    i: int,
)
    requires
        0 <= i < rv.len(),
        rv.len() <= m,
    ensures
        reach(rv, pm, mm, m, i) == reach(rv, pm, mm, rv.len(), i),
{
    let n = rv.len();
    lemma_reach_counts(rv, pm, mm, n, i);
    lemma_reach_len(rv, pm, mm, n, i);
    lemma_marked_le(reach(rv, pm, mm, n, i));
    let j = choose|j: nat| j < n && reach(rv, pm, mm, j + 1, i) == #[trigger] reach(rv, pm, mm, j, i);
    lemma_reach_fixed(rv, pm, mm, j, m, i);
    lemma_reach_fixed(rv, pm, mm, j, n, i);
}

/// Linking is symmetric: if row `j` is linked to row `i`, row `i` is linked
/// to row `j`.
pub proof fn law_linked_symmetric(
    rv: Seq<RowView>,
    pm: Map<Seq<char>, Seq<char>>,
    mm: Seq<(String, Vec<String>)>,
    i: int,
    j: int,
)
    requires
        0 <= i < rv.len(),
        0 <= j < rv.len(),
        linked(rv, pm, mm, i, j),
    ensures
        linked(rv, pm, mm, j, i),
{
    lemma_reach_symmetric(rv, pm, mm, rv.len(), i, j);
}

/// Linking is transitive: a chain of mate links of any length puts its rows
/// in one group.
pub proof fn law_linked_transitive(
    rv: Seq<RowView>,
    pm: Map<Seq<char>, Seq<char>>,
    mm: Seq<(String, Vec<String>)>,
    i: int,
    j: int,
    x: int,
)
    requires
        0 <= i < rv.len(),
        0 <= j < rv.len(),
        0 <= x < rv.len(),
        linked(rv, pm, mm, i, j),
        linked(rv, pm, mm, j, x),
    ensures
        linked(rv, pm, mm, i, x),
{
    let n = rv.len();
    lemma_reach_concat(rv, pm, mm, n, n, i, j, x);
    lemma_reach_stable(rv, pm, mm, n + n, i);
}

/// Two rows without a presence party where one lists the other among its
/// recent party mates are linked.
pub proof fn law_mates_linked(
    rv: Seq<RowView>,
    pm: Map<Seq<char>, Seq<char>>,
    mm: Seq<(String, Vec<String>)>,
    i: int,
    j: int,
)
    requires
        0 <= i < rv.len(),
        0 <= j < rv.len(),
        text_or_empty_in(pm, rv[i].puuid).len() == 0,
        text_or_empty_in(pm, rv[j].puuid).len() == 0,
        mates_has(mm, rv[i].puuid, rv[j].puuid) || mates_has(mm, rv[j].puuid, rv[i].puuid),
    ensures
        linked(rv, pm, mm, i, j),
{
    lemma_reach_self(rv, pm, mm, 0, i);
    lemma_reach_edge(rv, pm, mm, 0, i, i, j);
    lemma_reach_grows(rv, pm, mm, 1, rv.len(), i, j);
}

proof fn lemma_same_groups(
    rv: Seq<RowView>,
    pm: Map<Seq<char>, Seq<char>>,
    mm: Seq<(String, Vec<String>)>,
    i: int,
    j: int,
    k: int,
)
    requires
        forall|x: int| 0 <= x < rv.len() ==> #[trigger] linked(rv, pm, mm, i, x) == linked(rv, pm, mm, j, x),
        k <= rv.len(),
    ensures
        group_count(rv, pm, mm, i, k) == group_count(rv, pm, mm, j, k),
        group_min(rv, pm, mm, i, k) == group_min(rv, pm, mm, j, k),
    decreases k,
{
    if k > 0 {
        lemma_same_groups(rv, pm, mm, i, j, k - 1);
        assert(linked(rv, pm, mm, i, k - 1) == linked(rv, pm, mm, j, k - 1));
    }
}

/// Rows without a presence party that are linked through recent party
/// mates resolve to one party id: "h:" and the smallest player id among
/// them, or none for a group of one.
pub proof fn law_linked_rows_share_party(
    rv: Seq<RowView>,
    pm: Map<Seq<char>, Seq<char>>,
    mm: Seq<(String, Vec<String>)>,
    i: int,
    j: int,
)
    requires
        0 <= i < rv.len(),
        0 <= j < rv.len(),
        text_or_empty_in(pm, rv[i].puuid).len() == 0,
        text_or_empty_in(pm, rv[j].puuid).len() == 0,
        linked(rv, pm, mm, i, j),
    ensures
        resolved_party(rv, pm, mm, i) == resolved_party(rv, pm, mm, j),
{
    assert forall|x: int| 0 <= x < rv.len() implies #[trigger] linked(rv, pm, mm, i, x) == linked(
        rv,
        pm,
        mm,
        j,
        x,
    ) by {
        law_linked_symmetric(rv, pm, mm, i, j);
        if linked(rv, pm, mm, i, x) {
            law_linked_transitive(rv, pm, mm, j, i, x);
        }
        if linked(rv, pm, mm, j, x) {
            law_linked_transitive(rv, pm, mm, i, j, x);
        }
    }
    lemma_same_groups(rv, pm, mm, i, j, rv.len() as int);
}

/// A presence party is authoritative: a row that has one keeps it.
pub proof fn law_presence_kept(
    rv: Seq<RowView>,
    pm: Map<Seq<char>, Seq<char>>,
    mm: Seq<(String, Vec<String>)>,
    i: int,
)
    requires
        0 <= i < rv.len(),
        text_or_empty_in(pm, rv[i].puuid).len() > 0,
    ensures
        with_parties(rv, pm, mm)[i].party_id == text_or_empty_in(pm, rv[i].puuid),
{
}


/// The party each player of a match payload reports, for those that report
/// one; a later entry for the same player wins.
pub open spec fn party_table(ps: Seq<RawView>) -> Map<Seq<char>, Seq<char>>
    decreases ps.len(),
{
    if ps.len() == 0 {
        Map::empty()
    } else {
        let prev = party_table(ps.drop_last());
        let p = ps.last();
        if p.party_id.len() > 0 {
            prev.insert(p.puuid, p.party_id)
        } else {
            prev
        }
    }
}

/// The table from player to party that the match payload gives.
pub fn party_map_of(players: &Vec<RawPlayer>) -> (r: Vec<(String, String)>)
    ensures
        text_map(r@) == party_table(raw_views(players@)),
{
    let ghost rv = raw_views(players@);
    let mut out: Vec<(String, String)> = Vec::new();
    proof {
        assert(text_map(out@) =~= Map::<Seq<char>, Seq<char>>::empty());
        assert(rv.take(0) =~= Seq::<RawView>::empty());
    }
    for i in 0..players.len()
        invariant
            rv == raw_views(players@),
            text_map(out@) == party_table(rv.take(i as int)),
    {
        proof {
            assert(rv.take(i as int + 1).drop_last() =~= rv.take(i as int));
            assert(rv.take(i as int + 1).last() == players@[i as int]@);
        }
        let p = &players[i];
        if !p.party_id.as_str().is_empty() {
            crate::assoc::insert_text(&mut out, p.puuid.clone(), p.party_id.clone());
        }
    }
    proof {
        assert(rv.take(rv.len() as int) =~= rv);
    }
    out
}


proof fn lemma_text_lt_irreflexive(a: Seq<char>)
    ensures
        !text_lt(a, a),
    decreases a.len(),
{
    if a.len() > 0 {
        lemma_text_lt_irreflexive(a.drop_first());
    }
}

proof fn lemma_text_lt_transitive(a: Seq<char>, b: Seq<char>, c: Seq<char>)
    requires
        text_lt(a, b),
        text_lt(b, c),
    ensures
        text_lt(a, c),
    decreases a.len(),
{
    if a.len() > 0 && (a[0] as u32) == (b[0] as u32) && (b[0] as u32) == (c[0] as u32) {
        lemma_text_lt_transitive(a.drop_first(), b.drop_first(), c.drop_first());
    }
}

proof fn lemma_group_min(
    rv: Seq<RowView>,
    pm: Map<Seq<char>, Seq<char>>,
    mm: Seq<(String, Vec<String>)>,
    i: int,
    k: int,
)
    requires
        k <= rv.len(),
    ensures
        match group_min(rv, pm, mm, i, k) {
            Some(m) => (exists|x: int| 0 <= x < k && #[trigger] linked(rv, pm, mm, i, x) && rv[x].puuid == m)
                && forall|x: int| 0 <= x < k && #[trigger] linked(rv, pm, mm, i, x) ==> !text_lt(rv[x].puuid, m),
            None => forall|x: int| 0 <= x < k ==> !#[trigger] linked(rv, pm, mm, i, x),
        },
    decreases k,
{
    if k > 0 {
        lemma_group_min(rv, pm, mm, i, k - 1);
        let p = rv[k - 1].puuid;
        lemma_text_lt_irreflexive(p);
        if linked(rv, pm, mm, i, k - 1) {
            match group_min(rv, pm, mm, i, k - 1) {
                Some(m0) => {
                    if text_lt(p, m0) {
                        assert forall|x: int| 0 <= x < k && #[trigger] linked(rv, pm, mm, i, x) implies !text_lt(rv[x].puuid, p) by {
                            if x < k - 1 && text_lt(rv[x].puuid, p) {
                                lemma_text_lt_transitive(rv[x].puuid, p, m0);
                            }
                        }
                    } else {
                        let w = choose|x: int| 0 <= x < k - 1 && #[trigger] linked(rv, pm, mm, i, x) && rv[x].puuid == m0;
                        assert(0 <= w < k && linked(rv, pm, mm, i, w) && rv[w].puuid == m0);
                    }
                },
                None => {},
            }
        }
    }
}

/// An inferred party is named after the smallest id in it: "h:" and the id
/// of a row in the group, and no row of the group has a smaller id.
pub proof fn law_party_named_by_smallest(
    rv: Seq<RowView>,
    pm: Map<Seq<char>, Seq<char>>,
    mm: Seq<(String, Vec<String>)>,
    i: int,
)
    requires
        0 <= i < rv.len(),
        text_or_empty_in(pm, rv[i].puuid).len() == 0,
        group_count(rv, pm, mm, i, rv.len() as int) >= 2,
    ensures
        ({
            let m = group_min(rv, pm, mm, i, rv.len() as int)->0;
            &&& resolved_party(rv, pm, mm, i) == "h:"@ + m
            &&& exists|x: int| 0 <= x < rv.len() && #[trigger] linked(rv, pm, mm, i, x) && rv[x].puuid == m
            &&& forall|x: int|
                0 <= x < rv.len() && #[trigger] linked(rv, pm, mm, i, x) ==> !text_lt(rv[x].puuid, m)
        }),
{
    lemma_group_min_some(rv, pm, mm, i, rv.len() as int);
    lemma_group_min(rv, pm, mm, i, rv.len() as int);
}


proof fn lemma_edge_from_same(
    rv: Seq<RowView>,
    rw: Seq<RowView>,
    pm: Map<Seq<char>, Seq<char>>,
    mm: Seq<(String, Vec<String>)>,
    from: Seq<bool>,
    j: int,
    a: int,
)
    requires
        rv.len() == rw.len(),
        forall|x: int| 0 <= x < rv.len() ==> #[trigger] rv[x].puuid == rw[x].puuid,
        0 <= j < rv.len(),
        a <= rv.len(),
    ensures
        edge_from(rv, pm, mm, from, j, a) == edge_from(rw, pm, mm, from, j, a),
    decreases a,
{
    if a > 0 {
        lemma_edge_from_same(rv, rw, pm, mm, from, j, a - 1);
        assert(rv[a - 1].puuid == rw[a - 1].puuid);
        assert(rv[j].puuid == rw[j].puuid);
    }
}

proof fn lemma_reach_same(
    rv: Seq<RowView>,
    rw: Seq<RowView>,
    pm: Map<Seq<char>, Seq<char>>,
    mm: Seq<(String, Vec<String>)>,
    k: nat,
    i: int,
)
    requires
        rv.len() == rw.len(),
        forall|x: int| 0 <= x < rv.len() ==> #[trigger] rv[x].puuid == rw[x].puuid,
    ensures
        reach(rv, pm, mm, k, i) == reach(rw, pm, mm, k, i),
    decreases k,
{
    if k == 0 {
        assert(reach(rv, pm, mm, 0, i) =~= reach(rw, pm, mm, 0, i));
    } else {
        lemma_reach_same(rv, rw, pm, mm, (k - 1) as nat, i);
        let prev = reach(rv, pm, mm, (k - 1) as nat, i);
        assert forall|j: int| 0 <= j < rv.len() implies #[trigger] widen(rv, pm, mm, prev)[j] == widen(
            rw,
            pm,
            mm,
            prev,
        )[j] by {
            lemma_edge_from_same(rv, rw, pm, mm, prev, j, rv.len() as int);
        }
        assert(widen(rv, pm, mm, prev) =~= widen(rw, pm, mm, prev));
    }
}

proof fn lemma_groups_same(
    rv: Seq<RowView>,
    rw: Seq<RowView>,
    pm: Map<Seq<char>, Seq<char>>,
    mm: Seq<(String, Vec<String>)>,
    i: int,
    k: int,
)
    requires
        rv.len() == rw.len(),
        forall|x: int| 0 <= x < rv.len() ==> #[trigger] rv[x].puuid == rw[x].puuid,
        reach(rv, pm, mm, rv.len(), i) == reach(rw, pm, mm, rw.len(), i),
        k <= rv.len(),
    ensures
        group_count(rv, pm, mm, i, k) == group_count(rw, pm, mm, i, k),
        group_min(rv, pm, mm, i, k) == group_min(rw, pm, mm, i, k),
    decreases k,
{
    if k > 0 {
        lemma_groups_same(rv, rw, pm, mm, i, k - 1);
        assert(rv[k - 1].puuid == rw[k - 1].puuid);
    }
}

/// Resolving parties again changes nothing: the parties depend only on the
/// players, the presence parties and the recent mates, not on the party
/// fields that resolving writes.
pub proof fn law_parties_settled(
    rv: Seq<RowView>,
    pm: Map<Seq<char>, Seq<char>>,
    mm: Seq<(String, Vec<String>)>,
)
    ensures
        with_parties(with_parties(rv, pm, mm), pm, mm) == with_parties(rv, pm, mm),
{
    let rw = with_parties(rv, pm, mm);
    assert forall|x: int| 0 <= x < rv.len() implies #[trigger] rv[x].puuid == rw[x].puuid by {}
    assert forall|i: int| 0 <= i < rv.len() implies #[trigger] resolved_party(rv, pm, mm, i)
        == resolved_party(rw, pm, mm, i) by {
        lemma_reach_same(rv, rw, pm, mm, rv.len(), i);
        lemma_groups_same(rv, rw, pm, mm, i, rv.len() as int);
        assert(rv[i].puuid == rw[i].puuid);
    }
    assert(resolved_ids(rv, pm, mm) =~= resolved_ids(rw, pm, mm));
    assert(with_parties(rw, pm, mm) =~= rw);
}

/// `k` is the first listed player who is the signed-in player.
pub open spec fn first_self(ps: Seq<RawView>, self_puuid: Seq<char>, k: int) -> bool {
    &&& 0 <= k < ps.len()
    &&& ps[k].puuid == self_puuid
    &&& forall|j: int| 0 <= j < k ==> #[trigger] ps[j].puuid != self_puuid
}

proof fn lemma_own_team_first(ps: Seq<RawView>, self_puuid: Seq<char>, k: int)
    ensures
        first_self(ps, self_puuid, k) ==> own_team(ps, self_puuid) == Some(ps[k].team),
        (forall|j: int| 0 <= j < ps.len() ==> #[trigger] ps[j].puuid != self_puuid) ==> own_team(
            ps,
            self_puuid,
        ) is None,
    decreases ps.len(),
{
    if ps.len() > 0 {
        let rest = ps.drop_first();
        lemma_own_team_first(rest, self_puuid, k - 1);
        assert forall|j: int| 0 <= j < rest.len() implies rest[j] == ps[j + 1] by {}
        if first_self(ps, self_puuid, k) && k > 0 {
            assert(ps[0].puuid != self_puuid);
            assert forall|j: int| 0 <= j < k - 1 implies #[trigger] rest[j].puuid != self_puuid by {
                assert(ps[j + 1].puuid != self_puuid);
            }
            assert(first_self(rest, self_puuid, k - 1));
        }
        if forall|j: int| 0 <= j < ps.len() ==> #[trigger] ps[j].puuid != self_puuid {
            assert(ps[0].puuid != self_puuid);
            assert forall|j: int| 0 <= j < rest.len() implies #[trigger] rest[j].puuid != self_puuid by {
                assert(ps[j + 1].puuid != self_puuid);
            }
        }
    }
}

/// Labels against the signed-in player's team (the team of the first listed
/// player who is the signed-in player, `k`): a player on that team is an
/// "Ally" (so is the signed-in player, whenever a team is known), one on
/// another team an "Enemy"; with the signed-in player not listed the raw
/// team id is kept; no team gives no label.
pub proof fn law_team_label_against_self(ps: Seq<RawView>, self_puuid: Seq<char>, k: int, i: int)
    requires
        0 <= i < ps.len(),
    ensures
        ({
            let label = team_label(ps[i].team, own_team(ps, self_puuid));
            &&& first_self(ps, self_puuid, k) && ps[i].team.len() > 0 && ps[i].team == ps[k].team
                ==> label == "Ally"@
            &&& first_self(ps, self_puuid, k) && ps[i].team.len() > 0 && ps[i].team != ps[k].team
                ==> label == "Enemy"@
            &&& first_self(ps, self_puuid, k) && i == k && ps[k].team.len() > 0 ==> label == "Ally"@
            &&& (forall|j: int| 0 <= j < ps.len() ==> #[trigger] ps[j].puuid != self_puuid)
                ==> label == ps[i].team
            &&& ps[i].team.len() == 0 ==> label.len() == 0
        }),
{
    lemma_own_team_first(ps, self_puuid, k);
}

/// The rows built for a match carry those labels: each row's team is its
/// player's label against the signed-in player's team, both in a fresh
/// build and in a refresh of cached rows.
pub proof fn law_rows_labelled(
    ps: Seq<RawView>,
    self_puuid: Seq<char>,
    k: int,
    i: int,
    names: Map<Seq<char>, Seq<char>>,
    self_level: u32,
    loadouts: Seq<Json>,
    mmr: Option<Mmr>,
    form: Option<RecentForm>,
    sd: StaticData,
    pm: Map<Seq<char>, Seq<char>>,
    prev: Option<RowView>,
    rank_failed: bool,
    base: RowView,
)
    requires
        0 <= i < ps.len(),
        first_self(ps, self_puuid, k),
        ps[i].team.len() > 0,
    ensures
        ({
            let built = with_fallbacks(
                built_row(ps[i], i, self_puuid, ps, names, self_level, loadouts, mmr, form, sd, pm),
                prev,
                rank_failed,
            );
            let refreshed = refreshed_row(base, ps[i], own_team(ps, self_puuid), sd);
            let want = if ps[i].team == ps[k].team {
                "Ally"@
            } else {
                "Enemy"@
            };
            built.team == want && refreshed.team == want
        }),
{
    lemma_own_team_first(ps, self_puuid, k);
}

/// An incognito player's name is hidden on the roster, unless the player is
/// the signed-in one; a player who is not incognito has the name shown
/// (as far as it is known).
pub proof fn law_incognito_hidden(
    p: RawView,
    i: int,
    self_puuid: Seq<char>,
    ps: Seq<RawView>,
    names: Map<Seq<char>, Seq<char>>,
    self_level: u32,
    loadouts: Seq<Json>,
    mmr: Option<Mmr>,
    form: Option<RecentForm>,
    sd: StaticData,
    pm: Map<Seq<char>, Seq<char>>,
)
    ensures
        ({
            let r = built_row(p, i, self_puuid, ps, names, self_level, loadouts, mmr, form, sd, pm);
            &&& r.hidden_name == (p.incognito && p.puuid != self_puuid)
            &&& p.incognito && p.puuid != self_puuid ==> r.name.len() == 0
            &&& !p.incognito ==> r.name == text_or_empty_in(names, p.puuid)
        }),
{
}

} // verus!
