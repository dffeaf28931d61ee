//! The decisions of the poll loop. The caller does the waiting and the
//! requests; each function here takes what came back and says what to do
//! next: whether to refresh the profile, whether the roster can be reused,
//! rebuilt or only refreshed, which players get combat stats this poll, and
//! what the window shows.
use vstd::prelude::*;
use crate::encounter::{EncounterStore, texts};
use crate::fetcher::MatchStats;
use crate::model::{
    HistoryEntry, HistoryView, MatchState, MatchView, MatchViewV, PlayerRow, RowView, history_views,
    opt_row_view, row_views,
};
use crate::presence::Presence;
use crate::static_cache::StaticData;
use crate::text::text_eq;

verus! {

/// The profile is refreshed every this many polls.
pub const SELF_REFRESH_EVERY: u32 = 10;

/// Players whose combat stats are fetched in one poll.
pub const COMBAT_CHUNK: usize = 3;

/// A view of the given state, mode and rows and nothing else.
pub open spec fn base_view(state: MatchState, mode: Seq<char>, players: Seq<RowView>, stale: bool) -> MatchViewV {
    MatchViewV {
        state,
        mode,
        activity: Seq::empty(),
        players,
        me: None,
        history: Seq::empty(),
        stale,
        phase_time: 0,
        map: Seq::empty(),
        map_image: Seq::empty(),
        ally_score: 0,
        enemy_score: 0,
        combat_loading: false,
    }
}

/// A view of the given state, mode and rows, with no profile, history or
/// live score.
pub fn assemble_view(state: MatchState, mode: String, rows: Vec<PlayerRow>, stale: bool) -> (v:
    MatchView)
    ensures
        v@ == base_view(state, mode@, row_views(rows@), stale),
{
    let v = MatchView {
        state,
        mode,
        activity: String::new(),
        players: rows,
        me: None,
        history: Vec::new(),
        stale,
        phase_time: 0,
        map: String::new(),
        map_image: String::new(),
        ally_score: 0,
        enemy_score: 0,
        combat_loading: false,
    };
    proof {
        assert(history_views(v.history@) =~= Seq::<HistoryView>::empty());
    }
    v
}

/// The text of an optional string.
pub open spec fn opt_text(o: Option<String>) -> Option<Seq<char>> {
    match o {
        Some(s) => Some(s@),
        None => None,
    }
}

fn same_opt(a: &Option<String>, b: &Option<String>) -> (r: bool)
    ensures
        r == (opt_text(*a) == opt_text(*b)),
{
    match (a, b) {
        (Some(x), Some(y)) => text_eq(x.as_str(), y.as_str()),
        (None, None) => true,
        _ => false,
    }
}

fn clone_opt(a: &Option<String>) -> (r: Option<String>)
    ensures
        opt_text(r) == opt_text(*a),
{
    match a {
        Some(x) => Some(x.clone()),
        None => None,
    }
}

/// What a poll does once the presence is read.
pub enum Phase {
    /// Not in a pregame or game: show the menu.
    Menu,
    /// In a game whose full roster is already loaded: reuse it.
    Reuse,
    /// Ask the match servers for the current state.
    Fetch,
}

/// What a poll does with the current match state.
pub enum RosterPlan {
    /// The match has no players yet.
    Empty,
    /// Same match as before: refresh the cheap fields of the cached rows.
    Refresh,
    /// A new match: fetch every player's rank and record the encounter.
    Rebuild,
}

/// The players among the rows that still lack combat stats and were not
/// tried in this match, in row order.
pub open spec fn pending_combat(rv: Seq<RowView>, attempted: Seq<Seq<char>>) -> Seq<Seq<char>>
    decreases rv.len(),
{
    if rv.len() == 0 {
        Seq::empty()
    } else {
        let prev = pending_combat(rv.drop_last(), attempted);
        let r = rv.last();
        if !r.has_combat && !attempted.contains(r.puuid) {
            prev.push(r.puuid)
        } else {
            prev
        }
    }
}

/// A player already tried for combat stats in this match is never picked
/// again: no player of the attempted list is pending.
pub proof fn law_tried_once(rv: Seq<RowView>, attempted: Seq<Seq<char>>, p: Seq<char>)
    requires
        attempted.contains(p),
    ensures
        !pending_combat(rv, attempted).contains(p),
    decreases rv.len(),
{
    if rv.len() > 0 {
        law_tried_once(rv.drop_last(), attempted, p);
        let prev = pending_combat(rv.drop_last(), attempted);
        if !rv.last().has_combat && !attempted.contains(rv.last().puuid) {
            assert forall|k: int| 0 <= k < prev.push(rv.last().puuid).len() implies prev.push(
                rv.last().puuid,
            )[k] != p by {
                if k < prev.len() {
                    assert(prev[k] != p);
                }
            }
        }
    }
}

/// What the loop remembers between polls.
pub struct PollState {
    /// The match whose roster the last view shows.
    pub last_match_id: Option<String>,
    /// The loop state presence reported last poll.
    pub last_loop_state: String,
    /// Polls since start, wrapping.
    pub self_tick: u32,
    /// The match whose combat stats are all filled in.
    pub combat_done: Option<String>,
    /// Players whose combat stats were tried in this match.
    pub combat_attempted: Vec<String>,
}

impl PollState {
    pub fn new() -> (s: PollState)
        ensures
            s.last_match_id is None,
            s.last_loop_state@ == Seq::<char>::empty(),
            s.self_tick == 0,
            s.combat_done is None,
            s.combat_attempted@.len() == 0,
    {
        PollState {
            last_match_id: None,
            last_loop_state: String::new(),
            self_tick: 0,
            combat_done: None,
            combat_attempted: Vec::new(),
        }
    }

    /// The client is not running: the roster is forgotten.
    pub fn no_game(&mut self) -> (v: MatchView)
        ensures
            final(self).last_match_id is None,
            final(self).last_loop_state == old(self).last_loop_state,
            final(self).self_tick == old(self).self_tick,
            final(self).combat_done == old(self).combat_done,
            final(self).combat_attempted == old(self).combat_attempted,
            v@ == base_view(MatchState::NoGame, Seq::empty(), Seq::empty(), false),
    {
        self.last_match_id = None;
        let v = assemble_view(MatchState::NoGame, String::new(), Vec::new(), false);
        proof {
            assert(row_views(Seq::<PlayerRow>::empty()) =~= Seq::<RowView>::empty());
        }
        v
    }

    /// Counts a poll. The profile and history are refreshed when there is no
    /// profile yet, and otherwise every tenth poll.
    pub fn tick_self(&mut self, has_me: bool) -> (refresh: bool)
        ensures
            final(self).self_tick == if old(self).self_tick == u32::MAX {
                0
            } else {
                (old(self).self_tick + 1) as u32
            },
            refresh == (!has_me || final(self).self_tick % SELF_REFRESH_EVERY == 0),
            final(self).last_match_id == old(self).last_match_id,
            final(self).last_loop_state == old(self).last_loop_state,
            final(self).combat_done == old(self).combat_done,
            final(self).combat_attempted == old(self).combat_attempted,
    {
        self.self_tick = if self.self_tick == u32::MAX {
            0
        } else {
            self.self_tick + 1
        };
        !has_me || self.self_tick % SELF_REFRESH_EVERY == 0
    }

    /// Decides from the presence loop state what this poll does. Outside a
    /// pregame or game the roster is forgotten. In a game that was already
    /// in progress last poll, whose full roster is loaded and (when combat
    /// stats are on) whose combat stats are all in, the roster is reused;
    /// otherwise the match servers are asked.
    pub fn on_presence(&mut self, loop_state: &str, last: &MatchView, fetch_combat: bool) -> (p:
        Phase)
        ensures
            final(self).last_loop_state@ == loop_state@,
            final(self).self_tick == old(self).self_tick,
            final(self).combat_done == old(self).combat_done,
            final(self).combat_attempted == old(self).combat_attempted,
            ({
                let in_match = loop_state@ == "PREGAME"@ || loop_state@ == "INGAME"@;
                let entered = old(self).last_loop_state@ != loop_state@;
                let settled = last.players@.len() > 0 && loop_state@ == "INGAME"@ && last.state
                    == MatchState::CoreGame && (!fetch_combat || opt_text(old(self).combat_done)
                    == opt_text(old(self).last_match_id));
                &&& !in_match ==> p is Menu && final(self).last_match_id is None
                &&& in_match ==> final(self).last_match_id == old(self).last_match_id
                &&& in_match && !entered && settled ==> p is Reuse
                &&& in_match && !(!entered && settled) ==> p is Fetch
            }),
    {
        let in_match = text_eq(loop_state, "PREGAME") || text_eq(loop_state, "INGAME");
        let entered = !text_eq(self.last_loop_state.as_str(), loop_state);
        self.last_loop_state = loop_state.to_owned();
        if !in_match {
            self.last_match_id = None;
            return Phase::Menu;
        }
        let settled = last.players.len() > 0 && text_eq(loop_state, "INGAME") && last.state
            == MatchState::CoreGame && (!fetch_combat || same_opt(
            &self.combat_done,
            &self.last_match_id,
        ));
        if !entered && settled {
            Phase::Reuse
        } else {
            Phase::Fetch
        }
    }

    /// Decides from the current match state how the roster is built. With no
    /// players the roster is forgotten; the same match with a roster shown is
    /// refreshed; anything else is a new match, whose id is remembered and
    /// whose combat progress starts over.
    pub fn on_roster(&mut self, match_id: &Option<String>, raw_empty: bool, last_has_players: bool) -> (p:
        RosterPlan)
        ensures
            final(self).last_loop_state == old(self).last_loop_state,
            final(self).self_tick == old(self).self_tick,
            raw_empty ==> p is Empty && final(self).last_match_id is None && final(self).combat_done
                == old(self).combat_done && final(self).combat_attempted == old(
                self,
            ).combat_attempted,
            !raw_empty && match_id.is_some() && opt_text(old(self).last_match_id) == opt_text(
                *match_id,
            ) && last_has_players ==> p is Refresh && *final(self) == *old(self),
            !raw_empty && !(match_id.is_some() && opt_text(old(self).last_match_id) == opt_text(
                *match_id,
            ) && last_has_players) ==> p is Rebuild && opt_text(final(self).last_match_id)
                == opt_text(*match_id) && final(self).combat_done is None
                && final(self).combat_attempted@.len() == 0,
    {
        if raw_empty {
            self.last_match_id = None;
            return RosterPlan::Empty;
        }
        let same_match = match_id.is_some() && same_opt(&self.last_match_id, match_id)
            && last_has_players;
        if same_match {
            RosterPlan::Refresh
        } else {
            self.last_match_id = clone_opt(match_id);
            self.combat_done = None;
            self.combat_attempted = Vec::new();
            RosterPlan::Rebuild
        }
    }

    /// Decides which players get combat stats this poll, a few at a time and
    /// each once per match. Returns them and whether stats are still loading.
    /// Nothing is fetched unless combat stats are on and the match is in a
    /// pregame or game; when no player is left the match is marked done. The
    /// first batch waits for the next poll after a rebuild, so ranks show at
    /// once.
    pub fn combat_chunk(
        &mut self,
        rows: &Vec<PlayerRow>,
        state: MatchState,
        fetch_combat: bool,
        same_match: bool,
        cur_match_id: &Option<String>,
    ) -> (r: (Vec<String>, bool))
        ensures
            final(self).last_match_id == old(self).last_match_id,
            final(self).last_loop_state == old(self).last_loop_state,
            final(self).self_tick == old(self).self_tick,
            ({
                let want = fetch_combat && (state == MatchState::PreGame || state
                    == MatchState::CoreGame);
                let pending = pending_combat(row_views(rows@), texts(old(self).combat_attempted@));
                let chunk = if same_match {
                    pending.take(
                        if pending.len() < COMBAT_CHUNK {
                            pending.len() as int
                        } else {
                            COMBAT_CHUNK as int
                        },
                    )
                } else {
                    Seq::empty()
                };
                if want && rows@.len() > 0 {
                    if pending.len() == 0 {
                        &&& texts(r.0@) == Seq::<Seq<char>>::empty()
                        &&& !r.1
                        &&& opt_text(final(self).combat_done) == opt_text(*cur_match_id)
                        &&& final(self).combat_attempted == old(self).combat_attempted
                    } else {
                        &&& texts(r.0@) == chunk
                        &&& r.1
                        &&& final(self).combat_done == old(self).combat_done
                        &&& texts(final(self).combat_attempted@) == texts(
                            old(self).combat_attempted@,
                        ) + chunk
                    }
                } else {
                    &&& texts(r.0@) == Seq::<Seq<char>>::empty()
                    &&& !r.1
                    &&& final(self).combat_done == old(self).combat_done
                    &&& final(self).combat_attempted == old(self).combat_attempted
                }
            }),
    {
        let mut chunk: Vec<String> = Vec::new();
        proof {
            assert(texts(chunk@) =~= Seq::<Seq<char>>::empty());
        }
        let want = fetch_combat && (state == MatchState::PreGame || state == MatchState::CoreGame);
        if !want || rows.len() == 0 {
            return (chunk, false);
        }
        let ghost rv = row_views(rows@);
        let ghost att = texts(self.combat_attempted@);
        let mut pending: Vec<String> = Vec::new();
        for i in 0..rows.len()
            invariant
                rv == row_views(rows@),
                att == texts(self.combat_attempted@),
                *self == *old(self),
                texts(pending@) == pending_combat(rv.take(i as int), att),
        {
            proof {
                assert(rv.take(i as int + 1).drop_last() =~= rv.take(i as int));
                assert(rv.take(i as int + 1).last() == rows@[i as int]@);
            }
            let r = &rows[i];
            if !r.has_combat && !contains_text(&self.combat_attempted, r.puuid.as_str()) {
                let ghost before = pending@;
                pending.push(r.puuid.clone());
                proof {
                    assert(texts(pending@) =~= texts(before).push(r.puuid@));
                }
            }
        }
        proof {
            assert(rv.take(rv.len() as int) =~= rv);
        }
        if pending.len() == 0 {
            self.combat_done = clone_opt(cur_match_id);
            return (chunk, false);
        }
        if same_match {
            let n = if pending.len() < COMBAT_CHUNK {
                pending.len()
            } else {
                COMBAT_CHUNK
            };
            for i in 0..n
                invariant
                    n <= pending@.len(),
                    self.last_match_id == old(self).last_match_id,
                    self.last_loop_state == old(self).last_loop_state,
                    self.self_tick == old(self).self_tick,
                    self.combat_done == old(self).combat_done,
                    texts(chunk@) == texts(pending@).take(i as int),
                    texts(self.combat_attempted@) == att + texts(pending@).take(i as int),
            {
                let ghost c0 = chunk@;
                let ghost a0 = self.combat_attempted@;
                chunk.push(pending[i].clone());
                self.combat_attempted.push(pending[i].clone());
                proof {
                    assert(texts(chunk@) =~= texts(c0).push(pending@[i as int]@));
                    assert(texts(self.combat_attempted@) =~= texts(a0).push(pending@[i as int]@));
                    assert(texts(pending@).take(i as int + 1) =~= texts(pending@).take(i as int).push(
                        pending@[i as int]@,
                    ));
                }
            }
        } else {
            proof {
                assert(att + Seq::<Seq<char>>::empty() =~= att);
            }
        }
        (chunk, true)
    }
}

/// Whether `t` is among the texts of `v`.
pub fn contains_text(v: &Vec<String>, t: &str) -> (r: bool)
    ensures
        r == texts(v@).contains(t@),
{
    for i in 0..v.len()
        invariant
            forall|j: int| 0 <= j < i ==> v@[j]@ != t@,
    {
        if text_eq(v[i].as_str(), t) {
            proof {
                assert(texts(v@)[i as int] == t@);
            }
            return true;
        }
    }
    proof {
        if texts(v@).contains(t@) {
            let j = choose|j: int| 0 <= j < texts(v@).len() && texts(v@)[j] == t@;
            assert(v@[j]@ == t@);
        }
    }
    false
}

/// The history to show: the fresh one, or the last one when the fresh fetch
/// came back empty.
pub fn pick_history(fresh: Vec<HistoryEntry>, last: &Vec<HistoryEntry>) -> (r: Vec<HistoryEntry>)
    ensures
        history_views(r@) == if fresh@.len() == 0 {
            history_views(last@)
        } else {
            history_views(fresh@)
        },
{
    if fresh.len() == 0 {
        crate::model::copy_history_list(last)
    } else {
        fresh
    }
}

/// The rows with how often each other player was seen before and the
/// user's record with them; the user's own row is left as it is.
pub open spec fn with_encounters(rv: Seq<RowView>, m: Map<Seq<char>, crate::encounter::RecordView>, self_puuid: Seq<char>) -> Seq<RowView> {
    Seq::new(
        rv.len(),
        |i: int|
            if rv[i].puuid == self_puuid {
                rv[i]
            } else {
                let rec = crate::encounter::record_or_fresh(m, rv[i].puuid);
                RowView {
                    encounters: rec.seen,
                    encounter_wins: rec.wins,
                    encounter_losses: rec.losses,
                    ..rv[i]
                }
            },
    )
}

/// Shows on each other player's row how often they were seen before and the
/// user's record with them.
pub fn mark_encounters(rows: &mut Vec<PlayerRow>, store: &EncounterStore, self_puuid: &str)
    ensures
        row_views(final(rows)@) == with_encounters(
            row_views(old(rows)@),
            store.players_view(),
            self_puuid@,
        ),
{
    let ghost rv = row_views(rows@);
    let n = rows.len();
    for i in 0..n
        invariant
            n == rv.len(),
            rows@.len() == n,
            forall|j: int|
                0 <= j < n ==> #[trigger] rows@[j]@ == if j < i {
                    with_encounters(rv, store.players_view(), self_puuid@)[j]
                } else {
                    rv[j]
                },
    {
        proof {
            assert(rows@[i as int]@ == rv[i as int]);
        }
        if !text_eq(rows[i].puuid.as_str(), self_puuid) {
            let (seen, wins, losses) = store.prior(rows[i].puuid.as_str());
            let mut r = rows[i].copy_row();
            r.encounters = seen;
            r.encounter_wins = wins;
            r.encounter_losses = losses;
            proof {
                assert(r@ == with_encounters(rv, store.players_view(), self_puuid@)[i as int]);
            }
            rows.set(i, r);
        } else {
            proof {
                assert(rows@[i as int]@ == with_encounters(rv, store.players_view(), self_puuid@)[i as int]);
            }
        }
    }
    proof {
        assert(row_views(rows@) =~= with_encounters(rv, store.players_view(), self_puuid@));
    }
}

/// The other players of a roster as (id, name, rank tier), in order.
pub open spec fn others(rv: Seq<RowView>, self_puuid: Seq<char>) -> Seq<(Seq<char>, Seq<char>, u32)>
    decreases rv.len(),
{
    if rv.len() == 0 {
        Seq::empty()
    } else {
        let prev = others(rv.drop_last(), self_puuid);
        let r = rv.last();
        if r.puuid == self_puuid {
            prev
        } else {
            prev.push((r.puuid, r.name, r.rank_tier))
        }
    }
}

pub open spec fn roster_view(v: Seq<(String, String, u32)>) -> Seq<(Seq<char>, Seq<char>, u32)> {
    v.map_values(|e: (String, String, u32)| (e.0@, e.1@, e.2))
}

/// The roster to record for a match: every other player's id, name and tier.
pub fn seen_roster(rows: &Vec<PlayerRow>, self_puuid: &str) -> (r: Vec<(String, String, u32)>)
    ensures
        roster_view(r@) == others(row_views(rows@), self_puuid@),
{
    let ghost rv = row_views(rows@);
    let mut out: Vec<(String, String, u32)> = Vec::new();
    for i in 0..rows.len()
        invariant
            rv == row_views(rows@),
            roster_view(out@) == others(rv.take(i as int), self_puuid@),
    {
        proof {
            assert(rv.take(i as int + 1).drop_last() =~= rv.take(i as int));
            assert(rv.take(i as int + 1).last() == rows@[i as int]@);
        }
        if !text_eq(rows[i].puuid.as_str(), self_puuid) {
            let ghost before = out@;
            let e = (rows[i].puuid.clone(), rows[i].name.clone(), rows[i].rank_tier);
            out.push(e);
            proof {
                assert(roster_view(out@) =~= roster_view(before).push((e.0@, e.1@, e.2)));
            }
        }
    }
    proof {
        assert(rv.take(rv.len() as int) =~= rv);
    }
    out
}

/// Records a core-game roster as one encounter with every other player. Only
/// a core game with a match id is recorded, and only while every sighting
/// count still fits in 32 bits.
pub fn record_roster(
    store: &mut EncounterStore,
    state: MatchState,
    match_id: &Option<String>,
    roster: &Vec<(String, String, u32)>,
    now: i64,
)
    requires
        old(store).wf(),
    ensures
        final(store).wf(),
        final(store)@ == if state == MatchState::CoreGame && match_id is Some
            && crate::encounter::roster_fits(old(store).players_view(), roster@, now) {
            crate::encounter::record_step(old(store)@, match_id->0@, roster@, now)
        } else {
            old(store)@
        },
{
    if state != MatchState::CoreGame {
        return;
    }
    let mid = match match_id {
        Some(m) => m,
        None => return,
    };
    if !store.can_record(roster.as_slice(), now) {
        return;
    }
    store.record_seen(mid.as_str(), roster.as_slice(), now);
}

/// The encounter pass of a rebuilt roster: each other player's row shows how
/// often they were seen before and the user's record with them, read before
/// this match is recorded so it stays out of the shown totals; then a core
/// game is recorded. Returns the roster recorded for it.
pub fn note_encounters(
    rows: &mut Vec<PlayerRow>,
    store: &mut EncounterStore,
    state: MatchState,
    match_id: &Option<String>,
    self_puuid: &str,
    now: i64,
) -> (roster: Vec<(String, String, u32)>)
    requires
        old(store).wf(),
    ensures
        final(store).wf(),
        roster_view(roster@) == others(row_views(old(rows)@), self_puuid@),
        row_views(final(rows)@) == with_encounters(
            row_views(old(rows)@),
            old(store).players_view(),
            self_puuid@,
        ),
        final(store)@ == if state == MatchState::CoreGame && match_id is Some
            && crate::encounter::roster_fits(old(store).players_view(), roster@, now) {
            crate::encounter::record_step(old(store)@, match_id->0@, roster@, now)
        } else {
            old(store)@
        },
{
    let roster = seen_roster(rows, self_puuid);
    mark_encounters(rows, store, self_puuid);
    record_roster(store, state, match_id, &roster, now);
    roster
}

/// The stats cached for a match id, when there are any.
pub fn cached_stats<'a>(cache: &'a Vec<(String, MatchStats)>, id: &str) -> (r: Option<&'a MatchStats>)
    ensures
        match r {
            Some(s) => crate::assoc::assoc(cache@, id@) == Some(*s),
            None => crate::assoc::assoc(cache@, id@) is None,
        },
{
    crate::assoc::lookup(cache, id)
}

/// The store after the results known from cached match stats are credited,
/// match by match in the order of `ids`, each as far as its counts fit in
/// 32 bits.
pub open spec fn settled(
    v: crate::encounter::StoreView,
    ids: Seq<Seq<char>>,
    cache: Seq<(String, MatchStats)>,
) -> crate::encounter::StoreView
    decreases ids.len(),
{
    if ids.len() == 0 {
        v
    } else {
        let prev = settled(v, ids.drop_last(), cache);
        let id = ids.last();
        match crate::assoc::assoc(cache, id) {
            Some(st) => if prev.pending.contains_key(id) ==> crate::encounter::outcome_fits(
                prev.players,
                prev.pending[id],
                st.won,
            ) {
                crate::encounter::outcome_step(prev, id, st.won)
            } else {
                prev
            },
            None => prev,
        }
    }
}

/// Credits the result of every recorded match that has since shown up in
/// the user's own history, as far as the counts fit in 32 bits.
pub fn settle_outcomes(store: &mut EncounterStore, cache: &Vec<(String, MatchStats)>)
    requires
        old(store).wf(),
    ensures
        final(store).wf(),
        final(store)@ == settled(
            old(store)@,
            crate::assoc::keys_of(old(store).pending@),
            cache@,
        ),
{
    let ids = store.pending_ids();
    let ghost v0 = store@;
    let ghost keys = texts(ids@);
    proof {
        assert(keys.take(0) =~= Seq::<Seq<char>>::empty());
    }
    for i in 0..ids.len()
        invariant
            store.wf(),
            keys == texts(ids@),
            store@ == settled(v0, keys.take(i as int), cache@),
    {
        proof {
            assert(keys.take(i as int + 1).drop_last() =~= keys.take(i as int));
            assert(keys.take(i as int + 1).last() == ids@[i as int]@);
        }
        match cached_stats(cache, ids[i].as_str()) {
            Some(stats) => {
                if store.can_credit(ids[i].as_str(), stats.won) {
                    store.apply_outcome(ids[i].as_str(), stats.won);
                }
            },
            None => {},
        }
    }
    proof {
        assert(keys.take(keys.len() as int) =~= keys);
    }
}

/// The players' team labels cleared, as in a free-for-all.
pub fn clear_teams(rows: &mut Vec<PlayerRow>)
    ensures
        row_views(final(rows)@) == row_views(old(rows)@).map_values(
            |r: RowView| RowView { team: Seq::empty(), ..r },
        ),
{
    let ghost rv = row_views(rows@);
    let n = rows.len();
    for i in 0..n
        invariant
            n == rv.len(),
            rows@.len() == n,
            forall|j: int|
                0 <= j < n ==> #[trigger] rows@[j]@ == if j < i {
                    RowView { team: Seq::empty(), ..rv[j] }
                } else {
                    rv[j]
                },
    {
        proof {
            assert(rows@[i as int]@ == rv[i as int]);
        }
        let mut r = rows[i].copy_row();
        r.team = String::new();
        proof {
            assert(r@ == RowView { team: Seq::empty(), ..rv[i as int] });
        }
        rows.set(i, r);
    }
    proof {
        assert(row_views(rows@) =~= rv.map_values(|r: RowView| RowView { team: Seq::empty(), ..r }));
    }
}

/// The profile to show: a freshly read one when it came, else the last one
/// shown (also when no refresh was due).
pub fn keep_self(fresh: Option<PlayerRow>, last: &Option<PlayerRow>) -> (r: Option<PlayerRow>)
    ensures
        r == match fresh {
            Some(p) => Some(p),
            None => *last,
        },
{
    match fresh {
        Some(p) => Some(p),
        None => match last {
            Some(m) => Some(m.copy_row()),
            None => None,
        },
    }
}

/// The match id that premium-skin detection may use: the core game's id; a
/// pregame has none to give.
pub fn skin_match_id(state: MatchState, match_id: &Option<String>) -> (r: Option<String>)
    ensures
        opt_text(r) == if state == MatchState::CoreGame {
            opt_text(*match_id)
        } else {
            None
        },
{
    if state == MatchState::CoreGame {
        match match_id {
            Some(id) => Some(id.clone()),
            None => None,
        }
    } else {
        None
    }
}

/// The view at the end of a poll that read the roster: the rows, with their
/// team labels cleared in a free-for-all, the pregame timer and whether
/// combat stats are still loading.
pub open spec fn finished_view(
    state: MatchState,
    mode: Seq<char>,
    rows: Seq<RowView>,
    ffa: bool,
    phase_time: u32,
    combat_loading: bool,
) -> MatchViewV {
    let shown = if ffa {
        rows.map_values(|r: RowView| RowView { team: Seq::empty(), ..r })
    } else {
        rows
    };
    MatchViewV { phase_time, combat_loading, ..base_view(state, mode, shown, false) }
}

pub fn finish_view(
    state: MatchState,
    mode: String,
    rows: Vec<PlayerRow>,
    queue_id: &str,
    phase_time: u32,
    combat_loading: bool,
) -> (v: MatchView)
    ensures
        v@ == finished_view(
            state,
            mode@,
            row_views(rows@),
            queue_id@ == "deathmatch"@,
            phase_time,
            combat_loading,
        ),
{
    let mut rows = rows;
    if crate::presence::is_ffa(queue_id) {
        clear_teams(&mut rows);
    }
    let mut view = assemble_view(state, mode, rows, false);
    view.phase_time = phase_time;
    view.combat_loading = combat_loading;
    view
}

/// A view with the profile, history and activity added.
pub open spec fn with_me(v: MatchViewV, me: Option<RowView>, history: Seq<HistoryView>, activity: Seq<char>) -> MatchViewV {
    MatchViewV { me, history, activity, ..v }
}

/// Adds the profile, the history and the activity to a view.
pub fn add_me(view: &mut MatchView, me: &Option<PlayerRow>, history: &Vec<HistoryEntry>, activity: &str)
    ensures
        final(view)@ == with_me(old(view)@, opt_row_view(*me), history_views(history@), activity@),
{
    view.me = match me {
        Some(m) => Some(m.copy_row()),
        None => None,
    };
    view.history = crate::model::copy_history_list(history);
    view.activity = activity.to_owned();
}

/// A view with the live map and score from the presence, when there is one.
pub open spec fn with_live(v: MatchViewV, p: Option<Presence>, sd: StaticData) -> MatchViewV {
    match p {
        Some(pr) => MatchViewV {
            map: sd.map_name_spec(pr.party_owner_match_map@),
            map_image: sd.map_image_spec(pr.party_owner_match_map@),
            ally_score: pr.ally_score,
            enemy_score: pr.enemy_score,
            ..v
        },
        None => v,
    }
}

/// Adds the live map and score that presence reports.
pub fn add_live(view: &mut MatchView, presence: &Option<Presence>, sd: &StaticData)
    ensures
        final(view)@ == with_live(old(view)@, *presence, *sd),
{
    match presence {
        Some(p) => {
            view.map = sd.map_name(p.party_owner_match_map.as_str());
            view.map_image = sd.map_image(p.party_owner_match_map.as_str());
            view.ally_score = p.ally_score;
            view.enemy_score = p.enemy_score;
        },
        None => {},
    }
}

/// What the activity line says: the presence's activity, or "Idle" with no
/// presence.
pub open spec fn activity_spec(p: Option<Presence>, mode: Seq<char>) -> Seq<char> {
    match p {
        Some(pr) => crate::presence::describe_activity_spec(pr, mode),
        None => "Idle"@,
    }
}

pub fn activity_of(presence: &Option<Presence>, mode: &str) -> (r: String)
    ensures
        r@ == activity_spec(*presence, mode@),
{
    match presence {
        Some(p) => crate::presence::describe_activity(p, mode),
        None => "Idle".to_owned(),
    }
}

/// The view to show after a poll, and the view to remember. A poll that
/// failed shows the last view marked stale when it had players, and an
/// empty view otherwise; either way the remembered view stays.
pub open spec fn after_poll_spec(last: MatchViewV, polled: Option<MatchViewV>) -> (MatchViewV, MatchViewV) {
    match polled {
        Some(v) => (v, v),
        None => if last.players.len() == 0 {
            (base_view(MatchState::NoGame, Seq::empty(), Seq::empty(), false), last)
        } else {
            (MatchViewV { stale: true, ..last }, last)
        },
    }
}

pub fn after_poll(last: &MatchView, polled: Option<MatchView>) -> (r: (MatchView, MatchView))
    ensures
        (r.0@, r.1@) == after_poll_spec(
            last@,
            match polled {
                Some(v) => Some(v@),
                None => None,
            },
        ),
{
    match polled {
        Some(v) => {
            let keep = v.copy_view();
            (v, keep)
        },
        None => {
            if last.players.len() == 0 {
                let v = assemble_view(MatchState::NoGame, String::new(), Vec::new(), false);
                proof {
                    assert(row_views(Seq::<PlayerRow>::empty()) =~= Seq::<RowView>::empty());
                }
                (v, last.copy_view())
            } else {
                let mut stale = last.copy_view();
                stale.stale = true;
                (stale, last.copy_view())
            }
        },
    }
}

/// How long to wait before the next poll: almost no time while combat
/// stats are still filling in, the normal three seconds otherwise.
pub fn poll_delay_ms(view: &MatchView) -> (r: u64)
    ensures
        r == if view.combat_loading {
            250u64
        } else {
            3000u64
        },
{
    if view.combat_loading {
        250
    } else {
        3000
    }
}

} // verus!
