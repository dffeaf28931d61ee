//! Encounter memory: every player the user has shared a match with, how often,
//! and the user's record in those matches.
use vstd::prelude::*;
use crate::assoc::{as_map, assoc, find_key, insert, keys_of, unique_keys, lemma_assoc_unique};
use crate::text::text_eq;

verus! {

/// What is remembered about a player across matches.
pub struct Record {
    pub name: String,
    pub rank_tier: u32,
    pub last_seen: i64,
    pub seen: u32,
    pub wins: u32,
    pub losses: u32,
}

/// A record as values.
pub struct RecordView {
    pub name: Seq<char>,
    pub rank_tier: u32,
    pub last_seen: i64,
    pub seen: u32,
    pub wins: u32,
    pub losses: u32,
}

impl View for Record {
    type V = RecordView;

    open spec fn view(&self) -> RecordView {
        RecordView {
            name: self.name@,
            rank_tier: self.rank_tier,
            last_seen: self.last_seen,
            seen: self.seen,
            wins: self.wins,
            losses: self.losses,
        }
    }
}

/// The record of a player never seen before.
pub open spec fn fresh_record() -> RecordView {
    RecordView { name: Seq::empty(), rank_tier: 0, last_seen: 0, seen: 0, wins: 0, losses: 0 }
}

/// A player's record, or a fresh one.
pub open spec fn record_or_fresh(m: Map<Seq<char>, RecordView>, p: Seq<char>) -> RecordView {
    if m.contains_key(p) {
        m[p]
    } else {
        fresh_record()
    }
}

/// One sighting: counted once more, last seen now, and name and tier taken
/// over when known (non-empty name, tier above 0).
pub open spec fn sighted(r: RecordView, name: Seq<char>, tier: u32, now: i64) -> RecordView {
    RecordView {
        name: if name.len() == 0 {
            r.name
        } else {
            name
        },
        rank_tier: if tier > 0 {
            tier
        } else {
            r.rank_tier
        },
        last_seen: now,
        seen: (r.seen + 1) as u32,
        wins: r.wins,
        losses: r.losses,
    }
}

/// The players' records after the sightings of a roster, in order.
pub open spec fn after_roster(
    m: Map<Seq<char>, RecordView>,
    roster: Seq<(String, String, u32)>,
    now: i64,
) -> Map<Seq<char>, RecordView>
    decreases roster.len(),
{
    if roster.len() == 0 {
        m
    } else {
        let prev = after_roster(m, roster.drop_last(), now);
        let e = roster.last();
        prev.insert(e.0@, sighted(record_or_fresh(prev, e.0@), e.1@, e.2, now))
    }
}

/// No sighting count overflows while a roster is recorded.
pub open spec fn roster_fits(
    m: Map<Seq<char>, RecordView>,
    roster: Seq<(String, String, u32)>,
    now: i64,
) -> bool
    decreases roster.len(),
{
    roster.len() == 0 || (roster_fits(m, roster.drop_last(), now) && record_or_fresh(
        after_roster(m, roster.drop_last(), now),
        roster.last().0@,
    ).seen < u32::MAX)
}

/// One result: a win or a loss more for a player already recorded.
pub open spec fn credited(r: RecordView, won: bool) -> RecordView {
    RecordView {
        wins: if won {
            (r.wins + 1) as u32
        } else {
            r.wins
        },
        losses: if won {
            r.losses
        } else {
            (r.losses + 1) as u32
        },
        ..r
    }
}

/// The records after crediting a result to each listed player that has one.
pub open spec fn after_outcome(m: Map<Seq<char>, RecordView>, ps: Seq<Seq<char>>, won: bool) -> Map<
    Seq<char>,
    RecordView,
>
    decreases ps.len(),
{
    if ps.len() == 0 {
        m
    } else {
        let prev = after_outcome(m, ps.drop_last(), won);
        let p = ps.last();
        if prev.contains_key(p) {
            prev.insert(p, credited(prev[p], won))
        } else {
            prev
        }
    }
}

/// No win or loss count overflows while a result is credited.
pub open spec fn outcome_fits(m: Map<Seq<char>, RecordView>, ps: Seq<Seq<char>>, won: bool) -> bool
    decreases ps.len(),
{
    ps.len() == 0 || (outcome_fits(m, ps.drop_last(), won) && {
        let prev = after_outcome(m, ps.drop_last(), won);
        prev.contains_key(ps.last()) ==> (if won {
            prev[ps.last()].wins < u32::MAX
        } else {
            prev[ps.last()].losses < u32::MAX
        })
    })
}

/// The texts of a list of strings.
pub open spec fn texts(v: Seq<String>) -> Seq<Seq<char>> {
    v.map_values(|s: String| s@)
}

/// The store as values: the players' records, the matches counted, the
/// matches whose result was credited, and the matches waiting for one with
/// their players.
pub struct StoreView {
    pub players: Map<Seq<char>, RecordView>,
    pub seen: Set<Seq<char>>,
    pub outcomes: Set<Seq<char>>,
    pub pending: Map<Seq<char>, Seq<Seq<char>>>,
}

/// The store after a match is counted: an empty or already counted id
/// changes nothing; otherwise every listed player is sighted once more, the
/// match is counted, and it waits for its result with the players' ids.
pub open spec fn record_step(
    v: StoreView,
    id: Seq<char>,
    roster: Seq<(String, String, u32)>,
    now: i64,
) -> StoreView {
    if id.len() == 0 || v.seen.contains(id) {
        v
    } else {
        StoreView {
            players: after_roster(v.players, roster, now),
            seen: v.seen.insert(id),
            pending: v.pending.insert(id, roster.map_values(|e: (String, String, u32)| e.0@)),
            ..v
        }
    }
}

/// The store after a match's result lands: an empty id, one already
/// credited, or one not waiting changes nothing; otherwise each of its
/// players is credited the win or loss, and the match stops waiting.
pub open spec fn outcome_step(v: StoreView, id: Seq<char>, won: bool) -> StoreView {
    if id.len() == 0 || v.outcomes.contains(id) || !v.pending.contains_key(id) {
        v
    } else {
        StoreView {
            players: after_outcome(v.players, v.pending[id], won),
            outcomes: v.outcomes.insert(id),
            pending: v.pending.remove(id),
            ..v
        }
    }
}

/// Local history of every player the user has shared a match with, and the
/// user's record in those matches. Holds no I/O: the caller feeds it rosters
/// and outcomes, and persists it.
pub struct EncounterStore {
    pub players: Vec<(String, Record)>,
    /// Match ids already counted, so a match seen on several polls counts once.
    pub seen_matches: Vec<String>,
    /// Match ids whose win or loss has already been applied.
    pub outcome_matches: Vec<String>,
    /// Match id to the other players in it, waiting for the result to land.
    pub pending: Vec<(String, Vec<String>)>,
}

impl View for EncounterStore {
    type V = StoreView;

    open spec fn view(&self) -> StoreView {
        StoreView {
            players: self.players_view(),
            seen: self.seen_view(),
            outcomes: self.outcome_view(),
            pending: self.pending_view(),
        }
    }
}

impl EncounterStore {
    /// Each pending match id occurs once.
    pub open spec fn wf(&self) -> bool {
        unique_keys(self.pending@)
    }

    pub open spec fn players_view(&self) -> Map<Seq<char>, RecordView> {
        records(self.players@)
    }

    pub open spec fn seen_view(&self) -> Set<Seq<char>> {
        texts(self.seen_matches@).to_set()
    }

    pub open spec fn outcome_view(&self) -> Set<Seq<char>> {
        texts(self.outcome_matches@).to_set()
    }

    pub open spec fn pending_view(&self) -> Map<Seq<char>, Seq<Seq<char>>> {
        as_map(self.pending@).map_values(|v: Vec<String>| texts(v@))
    }

    pub fn new() -> (s: Self)
        ensures
            s.wf(),
            s.players_view() == Map::<Seq<char>, RecordView>::empty(),
            s.seen_view() == Set::<Seq<char>>::empty(),
            s.outcome_view() == Set::<Seq<char>>::empty(),
            s.pending_view() == Map::<Seq<char>, Seq<Seq<char>>>::empty(),
    {
        let s = EncounterStore {
            players: Vec::new(),
            seen_matches: Vec::new(),
            outcome_matches: Vec::new(),
            pending: Vec::new(),
        };
        proof {
            assert(s.players_view() =~= Map::<Seq<char>, RecordView>::empty());
            assert(s.seen_view() =~= Set::<Seq<char>>::empty());
            assert(s.outcome_view() =~= Set::<Seq<char>>::empty());
            assert(s.pending_view() =~= Map::<Seq<char>, Seq<Seq<char>>>::empty());
        }
        s
    }

    /// Whether the pending ids are distinct, as a store read back from disk must be.
    pub fn is_wf(&self) -> (r: bool)
        ensures
            r == self.wf(),
    {
        let n = self.pending.len();
        let mut i: usize = 0;
        while i < n
            invariant
                n == self.pending@.len(),
                i <= n,
                forall|a: int, b: int| 0 <= a < b < n && a < i ==> self.pending@[a].0@ != self.pending@[b].0@,
            decreases n - i,
        {
            let mut j: usize = i + 1;
            while j < n
                invariant
                    n == self.pending@.len(),
                    i < n,
                    i + 1 <= j <= n,
                    forall|a: int, b: int| 0 <= a < b < n && a < i ==> self.pending@[a].0@ != self.pending@[b].0@,
                    forall|b: int| i < b < j ==> self.pending@[i as int].0@ != self.pending@[b].0@,
                decreases n - j,
            {
                if text_eq(self.pending[i].0.as_str(), self.pending[j].0.as_str()) {
                    return false;
                }
                j += 1;
            }
            i += 1;
        }
        true
    }

    /// Counts as they stand for a player: (seen, wins, losses), not including
    /// the current match when called before `record_seen`.
    pub fn prior(&self, puuid: &str) -> (r: (u32, u32, u32))
        ensures
            ({
                let rec = record_or_fresh(self.players_view(), puuid@);
                r == (rec.seen, rec.wins, rec.losses)
            }),
    {
        match find_key(&self.players, puuid) {
            Some(i) => {
                let r = &self.players[i].1;
                (r.seen, r.wins, r.losses)
            },
            None => (0, 0, 0),
        }
    }

    fn contains_id(v: &Vec<String>, id: &str) -> (r: bool)
        ensures
            r == texts(v@).to_set().contains(id@),
    {
        let mut i: usize = 0;
        while i < v.len()
            invariant
                i <= v@.len(),
                forall|j: int| 0 <= j < i ==> v@[j]@ != id@,
            decreases v@.len() - i,
        {
            if text_eq(v[i].as_str(), id) {
                proof {
                    assert(texts(v@)[i as int] == id@);
                }
                return true;
            }
            i += 1;
        }
        proof {
            if texts(v@).to_set().contains(id@) {
                let j = choose|j: int| 0 <= j < texts(v@).len() && texts(v@)[j] == id@;
                assert(v@[j]@ == id@);
            }
        }
        false
    }

    /// Counts a match once. `players` is every other player in it as
    /// (puuid, name, rank tier); the result is credited later by
    /// `apply_outcome`. An empty or already counted match id changes nothing.
    pub fn record_seen(&mut self, match_id: &str, players: &[(String, String, u32)], now: i64)
        requires
            old(self).wf(),
            match_id@.len() > 0 && !old(self).seen_view().contains(match_id@) ==> roster_fits(
                old(self).players_view(),
                players@,
                now,
            ),
        ensures
            final(self).wf(),
            final(self)@ == record_step(old(self)@, match_id@, players@, now),
            final(self).outcome_view() == old(self).outcome_view(),
            if match_id@.len() == 0 || old(self).seen_view().contains(match_id@) {
                &&& final(self).players_view() == old(self).players_view()
                &&& final(self).seen_view() == old(self).seen_view()
                &&& final(self).pending_view() == old(self).pending_view()
            } else {
                &&& final(self).players_view() == after_roster(
                    old(self).players_view(),
                    players@,
                    now,
                )
                &&& final(self).seen_view() == old(self).seen_view().insert(match_id@)
                &&& final(self).pending_view() == old(self).pending_view().insert(
                    match_id@,
                    players@.map_values(|e: (String, String, u32)| e.0@),
                )
            },
    {
        if match_id.is_empty() || Self::contains_id(&self.seen_matches, match_id) {
            return;
        }
        let ghost old_seen = self.seen_matches@;
        let mid: String = match_id.to_owned();
        self.seen_matches.push(mid);
        proof {
            lemma_texts_push(old_seen, mid);
        }
        let ghost m0 = self.players_view();
        let mut puuids: Vec<String> = Vec::new();
        let mut i: usize = 0;
        while i < players.len()
            invariant
                i <= players@.len(),
                roster_fits(m0, players@, now),
                self.pending@ == old(self).pending@,
                self.outcome_matches@ == old(self).outcome_matches@,
                self.seen_view() == old(self).seen_view().insert(match_id@),
                self.wf(),
                self.players_view() == after_roster(m0, players@.take(i as int), now),
                puuids@.len() == i,
                forall|j: int| 0 <= j < i ==> puuids@[j]@ == (#[trigger] players@[j]).0@,
            decreases players@.len() - i,
        {
            proof {
                lemma_roster_fits_prefix(m0, players@, now, i as int + 1);
                assert(players@.take(i as int + 1).drop_last() =~= players@.take(i as int));
                assert(players@.take(i as int + 1).last() == players@[i as int]);
            }
            let puuid = &players[i].0;
            sight(&mut self.players, puuid, &players[i].1, players[i].2, now);
            puuids.push(puuid.clone());
            i += 1;
        }
        proof {
            assert(players@.take(players@.len() as int) =~= players@);
        }
        let ghost old_pending = self.pending@;
        insert(&mut self.pending, match_id.to_owned(), puuids);
        proof {
            assert(texts(puuids@) =~= players@.map_values(|e: (String, String, u32)| e.0@));
            assert(self.pending_view() =~= as_map(old_pending).map_values(
                |v: Vec<String>| texts(v@),
            ).insert(match_id@, texts(puuids@)));
        }
    }

    /// Credits a win or loss for a match counted earlier, once. An empty id,
    /// one already credited, or one not waiting for a result changes nothing.
    pub fn apply_outcome(&mut self, match_id: &str, won: bool)
        requires
            old(self).wf(),
            match_id@.len() > 0 && !old(self).outcome_view().contains(match_id@)
                && old(self).pending_view().contains_key(match_id@) ==> outcome_fits(
                old(self).players_view(),
                old(self).pending_view()[match_id@],
                won,
            ),
        ensures
            final(self).wf(),
            final(self)@ == outcome_step(old(self)@, match_id@, won),
            final(self).seen_view() == old(self).seen_view(),
            if match_id@.len() == 0 || old(self).outcome_view().contains(match_id@)
                || !old(self).pending_view().contains_key(match_id@) {
                &&& final(self).players_view() == old(self).players_view()
                &&& final(self).outcome_view() == old(self).outcome_view()
                &&& final(self).pending_view() == old(self).pending_view()
            } else {
                &&& final(self).players_view() == after_outcome(
                    old(self).players_view(),
                    old(self).pending_view()[match_id@],
                    won,
                )
                &&& final(self).outcome_view() == old(self).outcome_view().insert(match_id@)
                &&& final(self).pending_view() == old(self).pending_view().remove(match_id@)
            },
    {
        if match_id.is_empty() || Self::contains_id(&self.outcome_matches, match_id) {
            return;
        }
        let k = match find_key(&self.pending, match_id) {
            Some(k) => k,
            None => {
                return;
            },
        };
        let ghost old_pending = self.pending@;
        let ghost list = texts(old_pending[k as int].1@);
        let (_, puuids) = self.pending.remove(k);
        proof {
            lemma_remove_unique(old_pending, k as int);
            assert(self.pending_view() =~= as_map(old_pending).map_values(
                |v: Vec<String>| texts(v@),
            ).remove(match_id@));
            assert(list == texts(puuids@));
        }
        let ghost old_out = self.outcome_matches@;
        let mid: String = match_id.to_owned();
        self.outcome_matches.push(mid);
        proof {
            lemma_texts_push(old_out, mid);
        }
        let ghost m0 = self.players_view();
        let mut i: usize = 0;
        while i < puuids.len()
            invariant
                i <= puuids@.len(),
                outcome_fits(m0, texts(puuids@), won),
                self.wf(),
                self.seen_matches@ == old(self).seen_matches@,
                self.outcome_view() == old(self).outcome_view().insert(match_id@),
                self.pending_view() == old(self).pending_view().remove(match_id@),
                self.players_view() == after_outcome(m0, texts(puuids@).take(i as int), won),
            decreases puuids@.len() - i,
        {
            proof {
                lemma_outcome_fits_prefix(m0, texts(puuids@), won, i as int + 1);
                assert(texts(puuids@).take(i as int + 1).drop_last() =~= texts(puuids@).take(
                    i as int,
                ));
                assert(texts(puuids@).take(i as int + 1).last() == puuids@[i as int]@);
            }
            credit(&mut self.players, &puuids[i], won);
            i += 1;
        }
        proof {
            assert(texts(puuids@).take(puuids@.len() as int) =~= texts(puuids@));
        }
    }

    /// Whether recording this roster keeps every sighting count within 32
    /// bits, which `record_seen` needs.
    pub fn can_record(&self, players: &[(String, String, u32)], now: i64) -> (r: bool)
        ensures
            r == roster_fits(self.players_view(), players@, now),
    {
        let ghost m0 = self.players_view();
        let mut sim = copy_records(&self.players);
        for i in 0..players.len()
            invariant
                m0 == self.players_view(),
                records(sim@) == after_roster(m0, players@.take(i as int), now),
                roster_fits(m0, players@.take(i as int), now),
        {
            proof {
                assert(players@.take(i as int + 1).drop_last() =~= players@.take(i as int));
                assert(players@.take(i as int + 1).last() == players@[i as int]);
            }
            let seen = match find_key(&sim, players[i].0.as_str()) {
                Some(k) => sim[k].1.seen,
                None => 0,
            };
            if seen == u32::MAX {
                proof {
                    assert(!roster_fits(m0, players@.take(i as int + 1), now));
                    if roster_fits(m0, players@, now) {
                        lemma_roster_fits_prefix(m0, players@, now, i as int + 1);
                    }
                }
                return false;
            }
            sight(&mut sim, &players[i].0, &players[i].1, players[i].2, now);
        }
        proof {
            assert(players@.take(players@.len() as int) =~= players@);
        }
        true
    }

    /// Whether crediting a result for this match keeps every win and loss
    /// count within 32 bits, which `apply_outcome` needs.
    pub fn can_credit(&self, match_id: &str, won: bool) -> (r: bool)
        ensures
            r == (self.pending_view().contains_key(match_id@) ==> outcome_fits(
                self.players_view(),
                self.pending_view()[match_id@],
                won,
            )),
    {
        let k = match find_key(&self.pending, match_id) {
            Some(k) => k,
            None => return true,
        };
        let ps = &self.pending[k].1;
        let ghost m0 = self.players_view();
        let ghost list = texts(ps@);
        proof {
            assert(as_map(self.pending@).contains_key(match_id@));
            assert(self.pending_view().contains_key(match_id@));
            assert(self.pending_view()[match_id@] == list);
        }
        let mut sim = copy_records(&self.players);
        for i in 0..ps.len()
            invariant
                m0 == self.players_view(),
                list == texts(ps@),
                self.pending_view().contains_key(match_id@),
                self.pending_view()[match_id@] == list,
                records(sim@) == after_outcome(m0, list.take(i as int), won),
                outcome_fits(m0, list.take(i as int), won),
        {
            proof {
                assert(list.take(i as int + 1).drop_last() =~= list.take(i as int));
                assert(list.take(i as int + 1).last() == ps@[i as int]@);
            }
            let full = match find_key(&sim, ps[i].as_str()) {
                Some(j) => if won {
                    sim[j].1.wins == u32::MAX
                } else {
                    sim[j].1.losses == u32::MAX
                },
                None => false,
            };
            if full {
                proof {
                    assert(!outcome_fits(m0, list.take(i as int + 1), won));
                    if outcome_fits(m0, list, won) {
                        lemma_outcome_fits_prefix(m0, list, won, i as int + 1);
                    }
                }
                return false;
            }
            credit(&mut sim, &ps[i], won);
        }
        proof {
            assert(list.take(list.len() as int) =~= list);
        }
        true
    }

    /// Match ids still waiting for a result, so the caller knows which
    /// outcomes to look up.
    pub fn pending_ids(&self) -> (r: Vec<String>)
        ensures
            texts(r@) == keys_of(self.pending@),
            forall|m: Seq<char>| texts(r@).contains(m) <==> self.pending_view().contains_key(m),
            self.wf() ==> texts(r@).no_duplicates(),
    {
        let mut out: Vec<String> = Vec::new();
        let mut i: usize = 0;
        while i < self.pending.len()
            invariant
                i <= self.pending@.len(),
                texts(out@) == keys_of(self.pending@).take(i as int),
            decreases self.pending@.len() - i,
        {
            let ghost old_out = out@;
            let key = self.pending[i].0.clone();
            out.push(key);
            proof {
                lemma_texts_push(old_out, key);
                assert(keys_of(self.pending@).take(i as int + 1) =~= keys_of(self.pending@).take(
                    i as int,
                ).push(self.pending@[i as int].0@));
            }
            i += 1;
        }
        proof {
            assert(keys_of(self.pending@).take(i as int) =~= keys_of(self.pending@));
            let ks = texts(out@);
            assert forall|m: Seq<char>| ks.contains(m) <==> self.pending_view().contains_key(m) by {
                crate::assoc::lemma_assoc_some(self.pending@, m);
                if ks.contains(m) {
                    let j = choose|j: int| 0 <= j < ks.len() && ks[j] == m;
                    assert(self.pending@[j].0@ == m);
                }
                if assoc(self.pending@, m) is Some {
                    let j = choose|j: int| 0 <= j < self.pending@.len() && self.pending@[j].0@ == m;
                    assert(ks[j] == m);
                }
            }
        }
        out
    }
}

/// The records a list of players stands for.
pub open spec fn records(players: Seq<(String, Record)>) -> Map<Seq<char>, RecordView> {
    as_map(players).map_values(|r: Record| r@)
}

impl Record {
    /// An equal copy.
    pub fn copy_record(&self) -> (r: Record)
        ensures
            r == *self,
    {
        Record {
            name: self.name.clone(),
            rank_tier: self.rank_tier,
            last_seen: self.last_seen,
            seen: self.seen,
            wins: self.wins,
            losses: self.losses,
        }
    }
}

fn copy_records(v: &Vec<(String, Record)>) -> (r: Vec<(String, Record)>)
    ensures
        r@ == v@,
{
    let mut r: Vec<(String, Record)> = Vec::new();
    for i in 0..v.len()
        invariant
            r@ == v@.take(i as int),
    {
        proof {
            assert(v@.take(i as int + 1) =~= v@.take(i as int).push(v@[i as int]));
        }
        r.push((v[i].0.clone(), v[i].1.copy_record()));
    }
    proof {
        assert(v@.take(v@.len() as int) =~= v@);
    }
    r
}

/// Counts one sighting of a player.
fn sight(players: &mut Vec<(String, Record)>, puuid: &String, name: &String, tier: u32, now: i64)
    requires
        record_or_fresh(records(old(players)@), puuid@).seen < u32::MAX,
    ensures
        records(final(players)@) == records(old(players)@).insert(
            puuid@,
            sighted(record_or_fresh(records(old(players)@), puuid@), name@, tier, now),
        ),
        unique_keys(old(players)@) ==> unique_keys(final(players)@),
{
    let ghost before = records(players@);
    match find_key(players, puuid.as_str()) {
        Some(k) => {
            let old_rec = &players[k].1;
            let rec = Record {
                name: if name.as_str().is_empty() {
                    old_rec.name.clone()
                } else {
                    name.clone()
                },
                rank_tier: if tier > 0 {
                    tier
                } else {
                    old_rec.rank_tier
                },
                last_seen: now,
                seen: old_rec.seen + 1,
                wins: old_rec.wins,
                losses: old_rec.losses,
            };
            let ghost recv = rec@;
            let ghost old_players = players@;
            insert(players, puuid.clone(), rec);
            proof {
                assert(recv == sighted(record_or_fresh(before, puuid@), name@, tier, now));
                assert(records(players@) =~= as_map(old_players).insert(puuid@, rec).map_values(
                    |r: Record| r@,
                ));
            }
        },
        None => {
            let rec = Record {
                name: name.clone(),
                rank_tier: tier,
                last_seen: now,
                seen: 1,
                wins: 0,
                losses: 0,
            };
            let ghost recv = rec@;
            let ghost old_players = players@;
            insert(players, puuid.clone(), rec);
            proof {
                assert(!before.contains_key(puuid@));
                assert(name@.len() == 0 ==> name@ =~= Seq::<char>::empty());
                assert(recv == sighted(record_or_fresh(before, puuid@), name@, tier, now));
                assert(records(players@) =~= as_map(old_players).insert(puuid@, rec).map_values(
                    |r: Record| r@,
                ));
            }
        },
    }
    proof {
        assert(records(players@) =~= before.insert(
            puuid@,
            sighted(record_or_fresh(before, puuid@), name@, tier, now),
        ));
    }
}

/// Credits one win or loss to a player already recorded.
fn credit(players: &mut Vec<(String, Record)>, p: &String, won: bool)
    requires
        records(old(players)@).contains_key(p@) ==> (if won {
            records(old(players)@)[p@].wins < u32::MAX
        } else {
            records(old(players)@)[p@].losses < u32::MAX
        }),
    ensures
        records(final(players)@) == if records(old(players)@).contains_key(p@) {
            records(old(players)@).insert(p@, credited(records(old(players)@)[p@], won))
        } else {
            records(old(players)@)
        },
{
    let ghost before = records(players@);
    match find_key(players, p.as_str()) {
        Some(k) => {
            let old_rec = &players[k].1;
            let rec = Record {
                name: old_rec.name.clone(),
                rank_tier: old_rec.rank_tier,
                last_seen: old_rec.last_seen,
                seen: old_rec.seen,
                wins: if won {
                    old_rec.wins + 1
                } else {
                    old_rec.wins
                },
                losses: if won {
                    old_rec.losses
                } else {
                    old_rec.losses + 1
                },
            };
            insert(players, p.clone(), rec);
            proof {
                assert(records(players@) =~= before.insert(p@, credited(before[p@], won)));
            }
        },
        None => {},
    }
}

proof fn lemma_texts_push(v: Seq<String>, x: String)
    ensures
        texts(v.push(x)) == texts(v).push(x@),
        texts(v.push(x)).to_set() == texts(v).to_set().insert(x@),
{
    assert(texts(v.push(x)) =~= texts(v).push(x@));
    let a = texts(v).push(x@);
    assert forall|y: Seq<char>| #[trigger] a.to_set().contains(y) == texts(v).to_set().insert(
        x@,
    ).contains(y) by {
        if a.to_set().contains(y) {
            let j = choose|j: int| 0 <= j < a.len() && a[j] == y;
            if j < texts(v).len() {
                assert(texts(v)[j] == y);
            }
        }
        if texts(v).to_set().contains(y) {
            let j = choose|j: int| 0 <= j < texts(v).len() && texts(v)[j] == y;
            assert(a[j] == y);
        }
        if y == x@ {
            assert(a[a.len() - 1] == y);
        }
    }
    assert(a.to_set() =~= texts(v).to_set().insert(x@));
}

proof fn lemma_roster_fits_prefix(
    m: Map<Seq<char>, RecordView>,
    roster: Seq<(String, String, u32)>,
    now: i64,
    k: int,
)
    requires
        0 <= k <= roster.len(),
        roster_fits(m, roster, now),
    ensures
        roster_fits(m, roster.take(k), now),
    decreases roster.len() - k,
{
    if k < roster.len() {
        lemma_roster_fits_prefix(m, roster.drop_last(), now, k);
        assert(roster.drop_last().take(k) =~= roster.take(k));
    } else {
        assert(roster.take(k) =~= roster);
    }
}

proof fn lemma_outcome_fits_prefix(m: Map<Seq<char>, RecordView>, ps: Seq<Seq<char>>, won: bool, k: int)
    requires
        0 <= k <= ps.len(),
        outcome_fits(m, ps, won),
    ensures
        outcome_fits(m, ps.take(k), won),
    decreases ps.len() - k,
{
    if k < ps.len() {
        lemma_outcome_fits_prefix(m, ps.drop_last(), won, k);
        assert(ps.drop_last().take(k) =~= ps.take(k));
    } else {
        assert(ps.take(k) =~= ps);
    }
}

proof fn lemma_remove_unique<V>(m: Seq<(String, V)>, k: int)
    requires
        unique_keys(m),
        0 <= k < m.len(),
    ensures
        unique_keys(m.remove(k)),
        as_map(m.remove(k)) == as_map(m).remove(m[k].0@),
{
    let r = m.remove(k);
    assert forall|key: Seq<char>| #[trigger] as_map(r).contains_key(key) == as_map(m).remove(
        m[k].0@,
    ).contains_key(key) && (as_map(r).contains_key(key) ==> as_map(r)[key] == as_map(m).remove(
        m[k].0@,
    )[key]) by {
        crate::assoc::lemma_assoc_some(r, key);
        crate::assoc::lemma_assoc_some(m, key);
        if exists|j: int| 0 <= j < r.len() && r[j].0@ == key {
            let j = choose|j: int| 0 <= j < r.len() && r[j].0@ == key;
            assert(unique_keys(r));
            lemma_assoc_unique(r, j);
            if j < k {
                assert(r[j] == m[j]);
                lemma_assoc_unique(m, j);
            } else {
                assert(r[j] == m[j + 1]);
                lemma_assoc_unique(m, j + 1);
            }
        }
        if exists|j: int| 0 <= j < m.len() && m[j].0@ == key {
            let j = choose|j: int| 0 <= j < m.len() && m[j].0@ == key;
            if key != m[k].0@ {
                if j < k {
                    assert(r[j] == m[j]);
                } else {
                    assert(j != k);
                    assert(r[j - 1] == m[j]);
                }
            }
        }
    }
    assert(as_map(r) =~= as_map(m).remove(m[k].0@));
}


/// How many times `p` occurs in `s`.
pub open spec fn count_of(s: Seq<Seq<char>>, p: Seq<char>) -> nat
    decreases s.len(),
{
    if s.len() == 0 {
        0
    } else {
        count_of(s.drop_last(), p) + if s.last() == p {
            1nat
        } else {
            0nat
        }
    }
}

/// The ids of a roster.
pub open spec fn roster_ids(roster: Seq<(String, String, u32)>) -> Seq<Seq<char>> {
    roster.map_values(|e: (String, String, u32)| e.0@)
}

/// A match is counted once: counting the same id again, with any roster and
/// at any time, changes nothing.
pub proof fn law_match_counted_once(
    v: StoreView,
    id: Seq<char>,
    first: Seq<(String, String, u32)>,
    again: Seq<(String, String, u32)>,
    now1: i64,
    now2: i64,
)
    ensures
        record_step(record_step(v, id, first, now1), id, again, now2) == record_step(
            v,
            id,
            first,
            now1,
        ),
{
}

/// A result is credited once: crediting the same match again, won or lost,
/// changes nothing.
pub proof fn law_result_credited_once(v: StoreView, id: Seq<char>, won: bool, again: bool)
    ensures
        outcome_step(outcome_step(v, id, won), id, again) == outcome_step(v, id, won),
{
}

/// Counting a match sights each player once per listing: a player's count
/// grows by the number of times the roster lists them, and nobody else's
/// record changes.
pub proof fn law_sightings_counted(
    m: Map<Seq<char>, RecordView>,
    roster: Seq<(String, String, u32)>,
    now: i64,
    p: Seq<char>,
)
    requires
        roster_fits(m, roster, now),
    ensures
        record_or_fresh(after_roster(m, roster, now), p).seen == record_or_fresh(m, p).seen
            + count_of(roster_ids(roster), p),
        count_of(roster_ids(roster), p) == 0 ==> record_or_fresh(after_roster(m, roster, now), p)
            == record_or_fresh(m, p),
    decreases roster.len(),
{
    if roster.len() > 0 {
        assert(roster_ids(roster.drop_last()) =~= roster_ids(roster).drop_last());
        law_sightings_counted(m, roster.drop_last(), now, p);
    }
}

/// Crediting a result gives each recorded player one win (or one loss) per
/// listing and leaves everything else of the record alone; players without
/// a record stay without one.
pub proof fn law_results_counted(
    m: Map<Seq<char>, RecordView>,
    ps: Seq<Seq<char>>,
    won: bool,
    p: Seq<char>,
)
    requires
        outcome_fits(m, ps, won),
    ensures
        after_outcome(m, ps, won).contains_key(p) == m.contains_key(p),
        m.contains_key(p) ==> {
            let before = m[p];
            let after = after_outcome(m, ps, won)[p];
            &&& after.wins == before.wins + if won {
                count_of(ps, p)
            } else {
                0
            }
            &&& after.losses == before.losses + if won {
                0
            } else {
                count_of(ps, p)
            }
            &&& after.seen == before.seen
            &&& after.name == before.name
            &&& after.rank_tier == before.rank_tier
            &&& after.last_seen == before.last_seen
        },
    decreases ps.len(),
{
    if ps.len() > 0 {
        law_results_counted(m, ps.drop_last(), won, p);
    }
}

/// One call on the store: counting a match, or crediting its result.
pub enum StoreCall {
    Record { id: Seq<char>, roster: Seq<(String, String, u32)>, now: i64 },
    Outcome { id: Seq<char>, won: bool },
}

/// The store after one call.
pub open spec fn call_step(v: StoreView, c: StoreCall) -> StoreView {
    match c {
        StoreCall::Record { id, roster, now } => record_step(v, id, roster, now),
        StoreCall::Outcome { id, won } => outcome_step(v, id, won),
    }
}

/// The store after a run of calls, in order.
pub open spec fn after_calls(v: StoreView, cs: Seq<StoreCall>) -> StoreView
    decreases cs.len(),
{
    if cs.len() == 0 {
        v
    } else {
        call_step(after_calls(v, cs.drop_last()), cs.last())
    }
}

/// A store that remembers nothing yet.
pub open spec fn empty_store() -> StoreView {
    StoreView {
        players: Map::empty(),
        seen: Set::empty(),
        outcomes: Set::empty(),
        pending: Map::empty(),
    }
}

/// The call counts match `m`.
pub open spec fn records_id(c: StoreCall, m: Seq<char>) -> bool {
    c matches StoreCall::Record { id, .. } && id == m
}

/// The call credits a result to match `m`.
pub open spec fn credits_id(c: StoreCall, m: Seq<char>) -> bool {
    c matches StoreCall::Outcome { id, .. } && id == m
}

/// Some call of the run counts match `m`.
pub open spec fn was_recorded(cs: Seq<StoreCall>, m: Seq<char>) -> bool {
    exists|i: int| 0 <= i < cs.len() && #[trigger] records_id(cs[i], m)
}

/// Some call of the run credits a result to match `m` after a call that
/// counts it.
pub open spec fn credited_after(cs: Seq<StoreCall>, m: Seq<char>) -> bool {
    exists|i: int, j: int|
        0 <= i < j < cs.len() && #[trigger] records_id(cs[i], m) && #[trigger] credits_id(cs[j], m)
}

/// Which matches wait for a result, after any run of calls on a new store: a
/// match waits exactly when its id is not empty, some call counted it, and no
/// result was credited to it after it was counted. Likewise a match is
/// counted when a call counted it (and its id is not empty), and credited
/// when a result came for it after it was counted.
pub proof fn law_pending_after_calls(cs: Seq<StoreCall>, m: Seq<char>)
    ensures
        after_calls(empty_store(), cs).pending.contains_key(m) <==> m.len() > 0 && was_recorded(
            cs,
            m,
        ) && !credited_after(cs, m),
        after_calls(empty_store(), cs).seen.contains(m) <==> m.len() > 0 && was_recorded(cs, m),
        after_calls(empty_store(), cs).outcomes.contains(m) <==> m.len() > 0 && credited_after(
            cs,
            m,
        ),
    decreases cs.len(),
{
    if cs.len() > 0 {
        let pre = cs.drop_last();
        let c = cs.last();
        let n = cs.len() - 1;
        law_pending_after_calls(pre, m);
        assert(cs[n] == c);
        assert forall|i: int| 0 <= i < n implies cs[i] == pre[i] by {}
        assert(was_recorded(cs, m) <==> was_recorded(pre, m) || records_id(c, m)) by {
            if was_recorded(pre, m) {
                let i = choose|i: int| 0 <= i < pre.len() && #[trigger] records_id(pre[i], m);
                assert(records_id(cs[i], m));
            }
            if was_recorded(cs, m) && !records_id(c, m) {
                let i = choose|i: int| 0 <= i < cs.len() && #[trigger] records_id(cs[i], m);
                assert(records_id(pre[i], m));
            }
        }
        assert(credited_after(cs, m) <==> credited_after(pre, m) || (credits_id(c, m)
            && was_recorded(pre, m))) by {
            if credited_after(pre, m) {
                let (i, j) = choose|i: int, j: int|
                    0 <= i < j < pre.len() && #[trigger] records_id(pre[i], m)
                        && #[trigger] credits_id(pre[j], m);
                assert(records_id(cs[i], m) && credits_id(cs[j], m));
            }
            if credits_id(c, m) && was_recorded(pre, m) {
                let i = choose|i: int| 0 <= i < pre.len() && #[trigger] records_id(pre[i], m);
                assert(records_id(cs[i], m) && credits_id(cs[n], m));
            }
            if credited_after(cs, m) && !credited_after(pre, m) {
                let (i, j) = choose|i: int, j: int|
                    0 <= i < j < cs.len() && #[trigger] records_id(cs[i], m)
                        && #[trigger] credits_id(cs[j], m);
                if j < n {
                    assert(records_id(pre[i], m) && credits_id(pre[j], m));
                } else {
                    assert(records_id(pre[i], m));
                }
            }
        }
        if records_id(c, m) {
            assert(!credits_id(c, m));
        }
        if credits_id(c, m) {
            assert(!records_id(c, m));
        }
    }
}

} // verus!
