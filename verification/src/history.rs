//! The signed-in user's match history and profile: the lines of the history
//! screen, the stats merged into them from match details, the current act,
//! the equipped card, and the user's own row outside a match.
use vstd::prelude::*;
use crate::json::Json;
use crate::assoc::text_map;
use crate::fetcher::{Mmr, MatchStats, RecentForm, win_rate, win_rate_spec};
use crate::model::{HistoryEntry, HistoryView, PlayerRow, RowView, blank_history, blank_row, history_views};
use crate::presence::{mode_name, mode_name_spec};
use crate::static_cache::{StaticData, arr_or_empty, text_or_empty_in};

verus! {

/// A season entry is the active act.
pub open spec fn active_act(s: Json) -> bool {
    s.field_bool("IsActive"@) == Some(true) && s.field_str("Type"@) == Some("act"@)
}

/// The first season entry that is the active act.
pub open spec fn first_active(ss: Seq<Json>) -> Option<Json>
    decreases ss.len(),
{
    if ss.len() == 0 {
        None
    } else if active_act(ss[0]) {
        Some(ss[0])
    } else {
        first_active(ss.drop_first())
    }
}

/// The id of the active act in a content response: the "ID" of the first
/// entry of "Seasons" whose "IsActive" is true and whose "Type" is "act".
pub open spec fn current_act_spec(content: Json) -> Option<Seq<char>> {
    match content.field_arr("Seasons"@) {
        None => None,
        Some(ss) => match first_active(ss) {
            Some(s) => s.field_str("ID"@),
            None => None,
        },
    }
}

/// The active act's season id, which keys the current rank; `None` when the
/// content response names none.
pub fn current_act(content: &Json) -> (r: Option<String>)
    ensures
        match r {
            Some(t) => current_act_spec(*content) == Some(t@),
            None => current_act_spec(*content) is None,
        },
{
    let ss = match content.get_array("Seasons") {
        Some(a) => a,
        None => return None,
    };
    let mut i: usize = 0;
    proof {
        assert(ss@.skip(0) =~= ss@);
    }
    while i < ss.len()
        invariant
            i <= ss@.len(),
            content.field_arr("Seasons"@) == Some(ss@),
            first_active(ss@) == first_active(ss@.skip(i as int)),
        decreases ss@.len() - i,
    {
        proof {
            assert(ss@.skip(i as int)[0] == ss@[i as int]);
            assert(ss@.skip(i as int).drop_first() =~= ss@.skip(i as int + 1));
        }
        let s = &ss[i];
        let active = match s.get_bool("IsActive") {
            Some(b) => b,
            None => false,
        };
        let is_act = match s.get_str("Type") {
            Some(t) => crate::text::text_eq(t, "act"),
            None => false,
        };
        if active && is_act {
            return match s.get_str("ID") {
                Some(t) => Some(t.to_owned()),
                None => None,
            };
        }
        i += 1;
    }
    None
}

/// The equipped player card id in a player loadout response, or "".
pub open spec fn loadout_card_spec(body: Json) -> Seq<char> {
    match body.field("Identity"@) {
        Some(id) => id.text_at("PlayerCardID"@),
        None => Seq::empty(),
    }
}

/// The signed-in user's equipped player card id.
pub fn loadout_card(body: &Json) -> (r: String)
    ensures
        r@ == loadout_card_spec(*body),
{
    match body.get("Identity") {
        Some(id) => id.text("PlayerCardID"),
        None => String::new(),
    }
}

/// The match ids of a competitiveupdates response, "" where one is missing.
pub open spec fn comp_ids_spec(json: Json) -> Seq<Seq<char>> {
    arr_or_empty(json.field_arr("Matches"@)).map_values(|m: Json| m.text_at("MatchID"@))
}

/// The match id of every competitive history line, in order.
pub fn comp_ids(json: &Json) -> (r: Vec<String>)
    ensures
        crate::encounter::texts(r@) == comp_ids_spec(*json),
{
    let mut out: Vec<String> = Vec::new();
    let ms = match json.get_array("Matches") {
        Some(a) => a,
        None => {
            proof {
                assert(crate::encounter::texts(out@) =~= comp_ids_spec(*json));
            }
            return out;
        },
    };
    for i in 0..ms.len()
        invariant
            json.field_arr("Matches"@) == Some(ms@),
            out@.len() == i,
            forall|j: int|
                0 <= j < i ==> #[trigger] out@[j]@ == ms@[j].text_at("MatchID"@),
    {
        out.push(ms[i].text("MatchID"));
    }
    proof {
        assert(crate::encounter::texts(out@) =~= comp_ids_spec(*json));
    }
    out
}

/// The query that narrows match-history to a queue: unrated for queue 1,
/// every mode otherwise.
pub open spec fn mode_filter_spec(queue: u8) -> Seq<char> {
    if queue == 1 {
        "&queue=unrated"@
    } else {
        Seq::empty()
    }
}

pub fn mode_filter(queue: u8) -> (r: String)
    ensures
        r@ == mode_filter_spec(queue),
{
    if queue == 1 {
        "&queue=unrated".to_owned()
    } else {
        String::new()
    }
}

/// A line of a non-competitive history: no RR, unranked, labelled with the
/// name of its mode.
pub open spec fn mode_line(m: Json) -> HistoryView {
    HistoryView { rank_name: mode_name_spec(m.text_at("QueueID"@)), ranked: false, ..blank_history() }
}

/// The entries of a match-history response's "History".
pub open spec fn mode_entries(json: Json) -> Seq<Json> {
    arr_or_empty(json.field_arr("History"@))
}

/// The lines and match ids of a match-history response, in order; both empty
/// without a "History" array.
pub fn mode_history(json: &Json) -> (r: (Vec<HistoryEntry>, Vec<String>))
    ensures
        history_views(r.0@) == mode_entries(*json).map_values(|m: Json| mode_line(m)),
        crate::encounter::texts(r.1@) == mode_entries(*json).map_values(
            |m: Json| m.text_at("MatchID"@),
        ),
{
    let mut entries: Vec<HistoryEntry> = Vec::new();
    let mut ids: Vec<String> = Vec::new();
    let hs = match json.get_array("History") {
        Some(a) => a,
        None => {
            proof {
                assert(history_views(entries@) =~= mode_entries(*json).map_values(
                    |m: Json| mode_line(m),
                ));
                assert(crate::encounter::texts(ids@) =~= mode_entries(*json).map_values(
                    |m: Json| m.text_at("MatchID"@),
                ));
            }
            return (entries, ids);
        },
    };
    for i in 0..hs.len()
        invariant
            json.field_arr("History"@) == Some(hs@),
            entries@.len() == i,
            ids@.len() == i,
            forall|j: int| 0 <= j < i ==> #[trigger] entries@[j]@ == mode_line(hs@[j]),
            forall|j: int| 0 <= j < i ==> #[trigger] ids@[j]@ == hs@[j].text_at("MatchID"@),
    {
        let m = &hs[i];
        let id = m.text("MatchID");
        let queue_id = m.text("QueueID");
        let mut h = HistoryEntry::blank();
        h.rank_name = mode_name(queue_id.as_str());
        h.ranked = false;
        entries.push(h);
        ids.push(id);
    }
    proof {
        assert(history_views(entries@) =~= mode_entries(*json).map_values(|m: Json| mode_line(m)));
        assert(crate::encounter::texts(ids@) =~= mode_entries(*json).map_values(
            |m: Json| m.text_at("MatchID"@),
        ));
    }
    (entries, ids)
}

/// A history line with a match detail's stats merged in. The map is taken
/// from the detail only when it names one, since a competitive line already
/// has it from the update feed.
pub open spec fn with_stats(h: HistoryView, s: crate::fetcher::MatchStatsView) -> HistoryView {
    HistoryView {
        agent_icon: s.agent_icon,
        agent_name: s.agent_name,
        kills: s.kills,
        deaths: s.deaths,
        assists: s.assists,
        acs: s.acs,
        adr: s.adr,
        kast: s.kast,
        hs: s.hs,
        self_rounds: s.self_rounds,
        enemy_rounds: s.enemy_rounds,
        won: s.won,
        map: if s.map.len() > 0 {
            s.map
        } else {
            h.map
        },
        map_image: if s.map.len() > 0 {
            s.map_image
        } else {
            h.map_image
        },
        scoreboard: s.scoreboard,
        has_stats: true,
        ..h
    }
}

/// Merges a match detail's stats into a history line.
pub fn apply_stats(entry: &mut HistoryEntry, s: &MatchStats)
    ensures
        final(entry)@ == with_stats(old(entry)@, s@),
{
    entry.agent_icon = s.agent_icon.clone();
    entry.agent_name = s.agent_name.clone();
    entry.kills = s.kills;
    entry.deaths = s.deaths;
    entry.assists = s.assists;
    entry.acs = s.acs;
    entry.adr = s.adr;
    entry.kast = s.kast;
    entry.hs = s.hs;
    entry.self_rounds = s.self_rounds;
    entry.enemy_rounds = s.enemy_rounds;
    entry.won = s.won;
    if !s.map.as_str().is_empty() {
        entry.map = s.map.clone();
        entry.map_image = s.map_image.clone();
    }
    entry.scoreboard = crate::model::copy_scoreboard(&s.scoreboard);
    entry.has_stats = true;
}

/// The history lines after the stats found for each line's match are merged
/// in; lines past the end of `stats`, or whose stats are unknown, stay as
/// they are.
pub open spec fn merged(hs: Seq<HistoryView>, stats: Seq<Option<MatchStats>>) -> Seq<HistoryView> {
    Seq::new(
        hs.len(),
        |i: int|
            if i < stats.len() && stats[i] is Some {
                with_stats(hs[i], stats[i]->0@)
            } else {
                hs[i]
            },
    )
}

/// Merges into each history line the stats found for its match.
pub fn merge_history(entries: &mut Vec<HistoryEntry>, stats: &Vec<Option<MatchStats>>)
    ensures
        history_views(final(entries)@) == merged(history_views(old(entries)@), stats@),
{
    let ghost hs0 = history_views(entries@);
    let n = entries.len();
    for i in 0..n
        invariant
            n == hs0.len(),
            entries@.len() == hs0.len(),
            forall|j: int|
                0 <= j < entries@.len() ==> #[trigger] entries@[j]@ == if j < i {
                    merged(hs0, stats@)[j]
                } else {
                    hs0[j]
                },
    {
        if i < stats.len() {
            match &stats[i] {
                Some(s) => {
                    let mut h = entries[i].copy_history();
                    apply_stats(&mut h, s);
                    entries.set(i, h);
                },
                None => {},
            }
        }
    }
    proof {
        assert(history_views(entries@) =~= merged(hs0, stats@));
    }
}

/// The signed-in user's own row outside a match: rank, peak, record and win
/// rate from the rank data, the name, level and card, the recent form where
/// it loaded (kills, deaths, headshots, streak, trend and record only), and
/// the presence party.
pub open spec fn self_row_spec(
    puuid: Seq<char>,
    mmr: Mmr,
    names: Map<Seq<char>, Seq<char>>,
    level: u32,
    card_id: Seq<char>,
    recent: Option<RecentForm>,
    sd: StaticData,
    pm: Map<Seq<char>, Seq<char>>,
) -> RowView {
    let r = RowView {
        name: text_or_empty_in(names, puuid),
        player_card: sd.card_art_spec(card_id),
        party_id: text_or_empty_in(pm, puuid),
        rank_tier: mmr.tier,
        rank_name: sd.rank_name_spec(mmr.tier),
        rank_icon: sd.rank_icon_spec(mmr.tier),
        rr: mmr.rr,
        peak_rank_name: sd.rank_name_spec(mmr.peak),
        peak_rank_tier: mmr.peak,
        peak_rank_icon: sd.rank_icon_spec(mmr.peak),
        peak_act: sd.season_label_spec(mmr.peak_season@),
        win_rate: win_rate_spec(mmr.wins, mmr.games),
        wins: mmr.wins,
        games: mmr.games,
        leaderboard: mmr.leaderboard,
        account_level: level,
        party_size: 0,
        ..blank_row(puuid)
    };
    match recent {
        Some(f) => RowView {
            last_kills: f.kills,
            last_deaths: f.deaths,
            last_hs: f.hs,
            streak: f.streak,
            rr_trend: f.rr_trend,
            recent_wins: f.wins,
            recent_losses: f.losses,
            has_combat: true,
            ..r
        },
        None => r,
    }
}

/// Builds the signed-in user's own row from what was fetched for it.
pub fn self_row(
    puuid: &str,
    mmr: &Mmr,
    names: &Vec<(String, String)>,
    level: u32,
    card_id: &str,
    recent: &Option<RecentForm>,
    sd: &StaticData,
    party_map: &Vec<(String, String)>,
) -> (r: PlayerRow)
    ensures
        r@ == self_row_spec(
            puuid@,
            *mmr,
            text_map(names@),
            level,
            card_id@,
            *recent,
            *sd,
            text_map(party_map@),
        ),
{
    let mut r = PlayerRow::blank(puuid.to_owned());
    r.name = match crate::assoc::get_text(names, puuid) {
        Some(t) => t,
        None => String::new(),
    };
    r.player_card = sd.card_art(card_id);
    r.party_id = match crate::assoc::get_text(party_map, puuid) {
        Some(t) => t,
        None => String::new(),
    };
    r.rank_tier = mmr.tier;
    r.rank_name = sd.rank_name(mmr.tier);
    r.rank_icon = sd.rank_icon(mmr.tier);
    r.rr = mmr.rr;
    r.peak_rank_name = sd.rank_name(mmr.peak);
    r.peak_rank_tier = mmr.peak;
    r.peak_rank_icon = sd.rank_icon(mmr.peak);
    r.peak_act = sd.season_label(mmr.peak_season.as_str());
    r.win_rate = win_rate(mmr);
    r.wins = mmr.wins;
    r.games = mmr.games;
    r.leaderboard = mmr.leaderboard;
    r.account_level = level;
    r.party_size = 0;
    match recent {
        Some(f) => {
            r.last_kills = f.kills;
            r.last_deaths = f.deaths;
            r.last_hs = f.hs;
            r.streak = f.streak;
            r.rr_trend = f.rr_trend;
            r.recent_wins = f.wins;
            r.recent_losses = f.losses;
            r.has_combat = true;
        },
        None => {},
    }
    r
}

} // verus!
