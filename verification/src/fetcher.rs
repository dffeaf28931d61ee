//! Reading Riot's responses into ranks, names, levels, recent form and match
//! statistics, and assembling the roster rows from them.
use vstd::prelude::*;
use crate::json::{Json, member_lookup};
use crate::assoc::{insert_text, text_map};
use crate::model::{HistoryEntry, HistoryView, blank_history, ScoreEntry, ScoreView, score_views};
use crate::presence::{has_rounds, has_rounds_spec};
use crate::static_cache::{StaticData, arr_or_empty};
use crate::text::{chars_of, parse_u32, parse_u32_spec, push_text};

verus! {

/// A player's competitive standing.
#[derive(Debug, PartialEq, Eq, Default)]
pub struct Mmr {
    pub tier: u32,
    pub rr: u32,
    pub peak: u32,
    pub peak_season: String,
    pub wins: u32,
    pub games: u32,
    pub leaderboard: u32,
}

pub struct MmrView {
    pub tier: u32,
    pub rr: u32,
    pub peak: u32,
    pub peak_season: Seq<char>,
    pub wins: u32,
    pub games: u32,
    pub leaderboard: u32,
}

impl View for Mmr {
    type V = MmrView;

    open spec fn view(&self) -> MmrView {
        MmrView {
            tier: self.tier,
            rr: self.rr,
            peak: self.peak,
            peak_season: self.peak_season@,
            wins: self.wins,
            games: self.games,
            leaderboard: self.leaderboard,
        }
    }
}

impl Mmr {
    /// An unranked standing: everything zero or empty.
    pub fn unranked() -> (m: Mmr)
        ensures
            m@ == (MmrView {
                tier: 0,
                rr: 0,
                peak: 0,
                peak_season: Seq::empty(),
                wins: 0,
                games: 0,
                leaderboard: 0,
            }),
    {
        Mmr { tier: 0, rr: 0, peak: 0, peak_season: String::new(), wins: 0, games: 0, leaderboard: 0 }
    }
}

/// A count of a JSON object truncated to 32 bits, as `as u32` does.
pub open spec fn count32(j: Json, key: Seq<char>) -> u32 {
    j.count_at(key) as u32
}

/// The competitive seasons: QueueSkills.competitive.SeasonalInfoBySeasonID.
pub open spec fn season_table(json: Json) -> Option<Seq<(String, Json)>> {
    match json.field("QueueSkills"@) {
        Some(q) => match q.field("competitive"@) {
            Some(c) => c.field_obj("SeasonalInfoBySeasonID"@),
            None => None,
        },
        None => None,
    }
}

/// Wins of a season, placements included when reported: the value under
/// "NumberOfWinsWithPlacements" when that key exists, else "NumberOfWins".
pub open spec fn season_wins(info: Json) -> u32 {
    match info.field("NumberOfWinsWithPlacements"@) {
        Some(v) => match v.u64_of() {
            Some(n) => n as u32,
            None => 0,
        },
        None => count32(info, "NumberOfWins"@),
    }
}

/// The highest tier number among the keys of a WinsByTier object.
pub open spec fn max_tier_key(keys: Seq<(String, Json)>) -> u32
    decreases keys.len(),
{
    if keys.len() == 0 {
        0
    } else {
        let prev = max_tier_key(keys.drop_last());
        match parse_u32_spec(keys.last().0@) {
            Some(t) => if t > prev {
                t
            } else {
                prev
            },
            None => prev,
        }
    }
}

/// The best tier reached in a season: the highest tier it has wins in, or
/// its competitive tier when that is higher.
pub open spec fn season_peak(info: Json) -> u32 {
    let by_wins = match info.field_obj("WinsByTier"@) {
        Some(k) => max_tier_key(k),
        None => 0,
    };
    match info.field_u64("CompetitiveTier"@) {
        Some(t) => if (t as u32) > by_wins {
            t as u32
        } else {
            by_wins
        },
        None => by_wins,
    }
}

/// Scans the seasons in order, starting from a peak and its season; a
/// season replaces them when its own peak is strictly higher.
pub open spec fn peak_scan(seasons: Seq<(String, Json)>, peak: u32, season: Seq<char>) -> (
    u32,
    Seq<char>,
)
    decreases seasons.len(),
{
    if seasons.len() == 0 {
        (peak, season)
    } else {
        let (p, s) = peak_scan(seasons.drop_last(), peak, season);
        let e = seasons.last();
        if season_peak(e.1) > p {
            (season_peak(e.1), e.0@)
        } else {
            (p, s)
        }
    }
}

/// The info of the last season with id `id`.
pub open spec fn last_season(seasons: Seq<(String, Json)>, id: Seq<char>) -> Option<Json>
    decreases seasons.len(),
{
    if seasons.len() == 0 {
        None
    } else if seasons.last().0@ == id {
        Some(seasons.last().1)
    } else {
        last_season(seasons.drop_last(), id)
    }
}

/// Tiers 1 and 2 are unused legacy slots and read as unranked.
pub open spec fn clamp_tier(t: u32) -> u32 {
    if t <= 2 {
        0
    } else {
        t
    }
}

/// The standing a mmr response gives for the current act `act`. With an
/// act, the current fields come from that act's season entry (all zero when
/// the player has not placed in it); without one (the content fetch failed)
/// tier and rr come from the last competitive game and the other fields from
/// that game's season. The peak is the best season peak, seeded with the
/// current tier and season.
pub open spec fn parse_mmr_spec(json: Json, act: Seq<char>) -> MmrView {
    let seasons = season_table(json);
    let entries = match seasons {
        Some(s) => s,
        None => Seq::empty(),
    };
    if act.len() > 0 {
        let info = match seasons {
            Some(s) => member_lookup(s, act),
            None => None,
        };
        let tier = match info {
            Some(i) => clamp_tier(count32(i, "CompetitiveTier"@)),
            None => 0,
        };
        let (peak, ps) = peak_scan(entries, tier, act);
        match info {
            Some(i) => MmrView {
                tier,
                rr: count32(i, "RankedRating"@),
                peak,
                peak_season: ps,
                wins: season_wins(i),
                games: count32(i, "NumberOfGames"@),
                leaderboard: count32(i, "LeaderboardRank"@),
            },
            None => MmrView {
                tier: 0,
                rr: 0,
                peak,
                peak_season: ps,
                wins: 0,
                games: 0,
                leaderboard: 0,
            },
        }
    } else {
        let (tier, rr, cur) = match json.field("LatestCompetitiveUpdate"@) {
            Some(l) => (
                count32(l, "TierAfterUpdate"@),
                count32(l, "RankedRatingAfterUpdate"@),
                l.text_at("SeasonID"@),
            ),
            None => (0u32, 0u32, Seq::empty()),
        };
        let (peak, ps) = peak_scan(entries, tier, cur);
        match last_season(entries, cur) {
            Some(i) => MmrView {
                tier,
                rr,
                peak,
                peak_season: ps,
                wins: season_wins(i),
                games: count32(i, "NumberOfGames"@),
                leaderboard: count32(i, "LeaderboardRank"@),
            },
            None => MmrView {
                tier,
                rr,
                peak,
                peak_season: ps,
                wins: 0,
                games: 0,
                leaderboard: 0,
            },
        }
    }
}

fn count32_of(j: &Json, key: &str) -> (r: u32)
    ensures
        r == count32(*j, key@),
{
    j.count(key) as u32
}

fn season_wins_of(info: &Json) -> (r: u32)
    ensures
        r == season_wins(*info),
{
    match info.get("NumberOfWinsWithPlacements") {
        Some(v) => match v.as_u64() {
            Some(n) => n as u32,
            None => 0,
        },
        None => count32_of(info, "NumberOfWins"),
    }
}

fn season_peak_of(info: &Json) -> (r: u32)
    ensures
        r == season_peak(*info),
{
    let mut best: u32 = 0;
    match info.get_object("WinsByTier") {
        Some(keys) => {
            let mut i: usize = 0;
            proof {
                assert(keys@.take(0) =~= Seq::<(String, Json)>::empty());
            }
            while i < keys.len()
                invariant
                    i <= keys@.len(),
                    best == max_tier_key(keys@.take(i as int)),
                decreases keys@.len() - i,
            {
                proof {
                    assert(keys@.take(i as int + 1).drop_last() =~= keys@.take(i as int));
                    assert(keys@.take(i as int + 1).last() == keys@[i as int]);
                }
                let kc = chars_of(keys[i].0.as_str());
                match parse_u32(&kc) {
                    Some(t) => {
                        if t > best {
                            best = t;
                        }
                    },
                    None => {},
                }
                i += 1;
            }
            proof {
                assert(keys@.take(keys@.len() as int) =~= keys@);
            }
        },
        None => {},
    }
    match info.get_u64("CompetitiveTier") {
        Some(t) => {
            if (t as u32) > best {
                best = t as u32;
            }
        },
        None => {},
    }
    best
}

/// Reads a player's standing from the mmr response; see `parse_mmr_spec`.
pub fn parse_mmr(json: &Json, current_act: &str) -> (m: Mmr)
    ensures
        m@ == parse_mmr_spec(*json, current_act@),
{
    let seasons: Option<&Vec<(String, Json)>> = match json.get("QueueSkills") {
        Some(q) => match q.get("competitive") {
            Some(c) => c.get_object("SeasonalInfoBySeasonID"),
            None => None,
        },
        None => None,
    };
    let mut tier: u32 = 0;
    let mut rr: u32 = 0;
    let mut wins: u32 = 0;
    let mut games: u32 = 0;
    let mut leaderboard: u32 = 0;
    let mut current_season: String = current_act.to_owned();
    let act_given = !current_act.is_empty();
    if act_given {
        let info: Option<&Json> = match seasons {
            Some(s) => match crate::assoc::lookup(s, current_act) {
                Some(v) => Some(v),
                None => None,
            },
            None => None,
        };
        proof {
            match seasons {
                Some(s) => {
                    lemma_member_is_assoc(s@, current_act@);
                },
                None => {},
            }
        }
        match info {
            Some(i) => {
                tier = count32_of(i, "CompetitiveTier");
                if tier <= 2 {
                    tier = 0;
                }
                rr = count32_of(i, "RankedRating");
                games = count32_of(i, "NumberOfGames");
                wins = season_wins_of(i);
                leaderboard = count32_of(i, "LeaderboardRank");
            },
            None => {},
        }
    } else {
        match json.get("LatestCompetitiveUpdate") {
            Some(l) => {
                tier = count32_of(l, "TierAfterUpdate");
                rr = count32_of(l, "RankedRatingAfterUpdate");
                current_season = l.text("SeasonID");
            },
            None => {
                current_season = String::new();
            },
        }
    }
    let empty: Vec<(String, Json)> = Vec::new();
    let table: &Vec<(String, Json)> = match seasons {
        Some(s) => s,
        None => &empty,
    };
    let (peak, peak_season) = scan_peak(table, tier, &current_season);
    if !act_given {
        let (w, g, l) = season_fields(table, &current_season);
        wins = w;
        games = g;
        leaderboard = l;
    }
    Mmr { tier, rr, peak, peak_season, wins, games, leaderboard }
}

fn scan_peak(s: &Vec<(String, Json)>, tier: u32, cur: &String) -> (r: (u32, String))
    ensures
        (r.0, r.1@) == peak_scan(s@, tier, cur@),
{
    let mut peak: u32 = tier;
    let mut peak_season: String = cur.clone();
    let ghost es = s@;
    let mut i: usize = 0;
    proof {
        assert(es.take(0) =~= Seq::<(String, Json)>::empty());
    }
    while i < s.len()
        invariant
            i <= es.len(),
            es == s@,
            (peak, peak_season@) == peak_scan(es.take(i as int), tier, cur@),
        decreases es.len() - i,
    {
        proof {
            assert(es.take(i as int + 1).drop_last() =~= es.take(i as int));
            assert(es.take(i as int + 1).last() == es[i as int]);
        }
        let sp = season_peak_of(&s[i].1);
        if sp > peak {
            peak = sp;
            peak_season = s[i].0.clone();
        }
        i += 1;
    }
    proof {
        assert(es.take(es.len() as int) =~= es);
    }
    (peak, peak_season)
}

/// Wins, games and leaderboard rank of the last season with id `cur`, or zeros.
fn season_fields(s: &Vec<(String, Json)>, cur: &String) -> (r: (u32, u32, u32))
    ensures
        match last_season(s@, cur@) {
            Some(inf) => r == (season_wins(inf), count32(inf, "NumberOfGames"@), count32(
                inf,
                "LeaderboardRank"@,
            )),
            None => r == (0u32, 0u32, 0u32),
        },
{
    let mut r: (u32, u32, u32) = (0, 0, 0);
    let ghost es = s@;
    let mut i: usize = 0;
    proof {
        assert(es.take(0) =~= Seq::<(String, Json)>::empty());
    }
    while i < s.len()
        invariant
            i <= es.len(),
            es == s@,
            match last_season(es.take(i as int), cur@) {
                Some(inf) => r == (season_wins(inf), count32(inf, "NumberOfGames"@), count32(
                    inf,
                    "LeaderboardRank"@,
                )),
                None => r == (0u32, 0u32, 0u32),
            },
        decreases es.len() - i,
    {
        proof {
            assert(es.take(i as int + 1).drop_last() =~= es.take(i as int));
            assert(es.take(i as int + 1).last() == es[i as int]);
        }
        if s[i].0 == *cur {
            let info = &s[i].1;
            r = (season_wins_of(info), count32_of(info, "NumberOfGames"), count32_of(info, "LeaderboardRank"));
        }
        i += 1;
    }
    proof {
        assert(es.take(es.len() as int) =~= es);
    }
    r
}

proof fn lemma_member_is_assoc(m: Seq<(String, Json)>, k: Seq<char>)
    ensures
        member_lookup(m, k) == crate::assoc::assoc(m, k),
    decreases m.len(),
{
    if m.len() > 0 {
        lemma_member_is_assoc(m.drop_first(), k);
    }
}

/// Win percentage, rounded down; 0 with no games.
pub open spec fn win_rate_spec(wins: u32, games: u32) -> u32 {
    if games > 0 {
        ((wins * 100) / (games as int)) as u32
    } else {
        0
    }
}

pub fn win_rate(mmr: &Mmr) -> (r: u32)
    ensures
        r == win_rate_spec(mmr.wins, mmr.games),
{
    if mmr.games > 0 {
        ((mmr.wins as u64 * 100) / (mmr.games as u64)) as u32
    } else {
        0
    }
}

/// The players' display names of a name-service response: puuid to
/// "GameName#TagLine" for each entry that has all three.
pub open spec fn names_map(entries: Seq<Json>) -> Map<Seq<char>, Seq<char>>
    decreases entries.len(),
{
    if entries.len() == 0 {
        Map::empty()
    } else {
        let prev = names_map(entries.drop_last());
        let e = entries.last();
        match (e.field_str("Subject"@), e.field_str("GameName"@), e.field_str("TagLine"@)) {
            (Some(p), Some(n), Some(t)) => prev.insert(p, n + "#"@ + t),
            _ => prev,
        }
    }
}

pub fn parse_names(json: &Json) -> (r: Vec<(String, String)>)
    ensures
        text_map(r@) == names_map(arr_or_empty(json.arr_of())),
{
    let mut out: Vec<(String, String)> = Vec::new();
    proof {
        assert(text_map(out@) =~= Map::<Seq<char>, Seq<char>>::empty());
    }
    let arr = match json.as_array() {
        Some(a) => a,
        None => return out,
    };
    let ghost es = arr@;
    proof {
        assert(es.take(0) =~= Seq::<Json>::empty());
    }
    let mut i: usize = 0;
    while i < arr.len()
        invariant
            i <= es.len(),
            es == arr@,
            text_map(out@) == names_map(es.take(i as int)),
        decreases es.len() - i,
    {
        let e = &arr[i];
        proof {
            assert(es.take(i as int + 1).drop_last() =~= es.take(i as int));
            assert(es.take(i as int + 1).last() == *e);
        }
        match (e.get_str("Subject"), e.get_str("GameName"), e.get_str("TagLine")) {
            (Some(p), Some(n), Some(t)) => {
                let mut v = n.to_owned();
                push_text(&mut v, "#");
                push_text(&mut v, t);
                insert_text(&mut out, p.to_owned(), v);
            },
            _ => {},
        }
        i += 1;
    }
    proof {
        assert(es.take(es.len() as int) =~= es);
    }
    out
}

/// Account level: Progress.Level, truncated to 32 bits, or 0.
pub open spec fn account_level_spec(json: Json) -> u32 {
    match json.field("Progress"@) {
        Some(p) => count32(p, "Level"@),
        None => 0,
    }
}

pub fn parse_account_level(json: &Json) -> (r: u32)
    ensures
        r == account_level_spec(*json),
{
    match json.get("Progress") {
        Some(p) => count32_of(p, "Level"),
        None => 0,
    }
}

/// Heuristic 0 to 100 read on how likely a ranked account is a smurf: a high
/// rank on a low account level, few games to a high rank, a strong winrate
/// over a meaningful sample, and a premium melee on a fresh account. Unranked
/// players score 0; a hidden level (0) adds nothing through the level terms.
pub open spec fn smurf_score_spec(
    account_level: u32,
    rank_tier: u32,
    games: u32,
    win_rate: u32,
    premium_skins: bool,
) -> u32 {
    if rank_tier == 0 {
        0
    } else {
        let a: int = if rank_tier >= 18 && account_level > 0 && account_level < 45 {
            (45 - account_level) * 2
        } else {
            0
        };
        let b: int = if rank_tier >= 21 && games > 0 && games <= 40 {
            40 - games
        } else {
            0
        };
        let c: int = if games >= 5 && win_rate >= 60 {
            win_rate - 60
        } else {
            0
        };
        let d: int = if premium_skins && account_level > 0 && account_level < 30 {
            10
        } else {
            0
        };
        if a + b + c + d > 100 {
            100
        } else {
            (a + b + c + d) as u32
        }
    }
}

pub fn smurf_score(
    account_level: u32,
    rank_tier: u32,
    games: u32,
    win_rate: u32,
    premium_skins: bool,
) -> (r: u32)
    ensures
        r == smurf_score_spec(account_level, rank_tier, games, win_rate, premium_skins),
        r <= 100,
{
    if rank_tier == 0 {
        return 0;
    }
    let mut score: u64 = 0;
    if rank_tier >= 18 && account_level > 0 && account_level < 45 {
        score += ((45 - account_level) * 2) as u64;
    }
    if rank_tier >= 21 && games > 0 && games <= 40 {
        score += (40 - games) as u64;
    }
    if games >= 5 && win_rate >= 60 {
        score += (win_rate - 60) as u64;
    }
    if premium_skins && account_level > 0 && account_level < 30 {
        score += 10;
    }
    if score > 100 {
        100
    } else {
        score as u32
    }
}

/// The RR a competitive update earned, or 0.
pub open spec fn earned(m: Json) -> i64 {
    m.int_at("RankedRatingEarned"@)
}

pub open spec fn sign_of(x: i64) -> int {
    if x > 0 {
        1
    } else if x < 0 {
        -1
    } else {
        0
    }
}

/// Sum of the RR earned over a list of updates.
pub open spec fn rr_sum(ms: Seq<Json>) -> int
    decreases ms.len(),
{
    if ms.len() == 0 {
        0
    } else {
        rr_sum(ms.drop_last()) + earned(ms.last())
    }
}

/// Every running RR sum fits a signed 64-bit integer, as summing them needs.
pub open spec fn rr_sums_fit(ms: Seq<Json>) -> bool {
    forall|k: int| 0 <= k <= ms.len() ==> i64::MIN <= #[trigger] rr_sum(ms.take(k)) <= i64::MAX
}

/// Number of leading updates whose RR sign is `s`.
pub open spec fn lead_run(ms: Seq<Json>, s: int) -> nat
    decreases ms.len(),
{
    if ms.len() > 0 && sign_of(earned(ms[0])) == s {
        1 + lead_run(ms.drop_first(), s)
    } else {
        0
    }
}

/// The signed run of results at the head of the list (most recent first):
/// positive for wins, negative for losses, 0 when the latest game broke even.
pub open spec fn streak_spec(ms: Seq<Json>) -> int {
    if ms.len() == 0 {
        0
    } else {
        let s = sign_of(earned(ms[0]));
        s * lead_run(ms, s)
    }
}

fn earned_of(m: &Json) -> (r: i64)
    ensures
        r == earned(*m),
{
    m.signed("RankedRatingEarned")
}

proof fn lemma_lead_run_skip(ms: Seq<Json>, s: int, i: int)
    requires
        0 <= i <= ms.len(),
        forall|j: int| 0 <= j < i ==> sign_of(earned(ms[j])) == s,
    ensures
        lead_run(ms, s) == i + lead_run(ms.skip(i), s),
    decreases i,
{
    if i > 0 {
        lemma_lead_run_skip(ms, s, i - 1);
        assert(ms.skip(i - 1)[0] == ms[i - 1]);
        assert(ms.skip(i - 1).drop_first() =~= ms.skip(i));
    } else {
        assert(ms.skip(0) =~= ms);
    }
}

proof fn lemma_streak_value(ms: Seq<Json>, s: int, n: int)
    requires
        ms.len() > 0,
        sign_of(earned(ms[0])) == s,
        s == 1 || s == -1,
        lead_run(ms, s) == n,
    ensures
        s == 1 ==> streak_spec(ms) == n,
        s == -1 ==> streak_spec(ms) == -n,
{
    if s == 1 {
        assert(streak_spec(ms) == 1 * n);
    } else {
        assert(streak_spec(ms) == -1 * n);
    }
}

/// Win or loss streak and RR trend over recent competitive updates, most
/// recent first. The trend is the RR sum, truncated to 32 bits.
pub fn streak_and_trend(matches: &Vec<Json>) -> (r: (i32, i32))
    requires
        rr_sums_fit(matches@),
        matches@.len() <= i32::MAX,
    ensures
        r.0 == streak_spec(matches@),
        r.1 == rr_sum(matches@) as i32,
{
    let ghost ms = matches@;
    let mut total: i64 = 0;
    let mut i: usize = 0;
    proof {
        assert(ms.take(0) =~= Seq::<Json>::empty());
    }
    while i < matches.len()
        invariant
            i <= ms.len(),
            ms == matches@,
            rr_sums_fit(ms),
            total == rr_sum(ms.take(i as int)),
        decreases ms.len() - i,
    {
        proof {
            assert(ms.take(i as int + 1).drop_last() =~= ms.take(i as int));
            assert(ms.take(i as int + 1).last() == ms[i as int]);
            assert(i64::MIN <= rr_sum(ms.take(i as int + 1)) <= i64::MAX);
        }
        total = total + earned_of(&matches[i]);
        i += 1;
    }
    proof {
        assert(ms.take(ms.len() as int) =~= ms);
    }
    let mut streak: i32 = 0;
    let mut sign: i32 = 0;
    let mut k: usize = 0;
    while k < matches.len()
        invariant
            k <= ms.len(),
            ms == matches@,
            ms.len() <= i32::MAX,
            total == rr_sum(ms),
            k == 0 ==> sign == 0 && streak == 0,
            k > 0 ==> sign == sign_of(earned(ms[0])) && (sign == 1 || sign == -1),
            k > 0 && sign == 1 ==> streak == k,
            k > 0 && sign == -1 ==> streak == -(k as int),
            forall|j: int| 0 <= j < k ==> sign_of(earned(ms[j])) == sign,
        decreases ms.len() - k,
    {
        let e = earned_of(&matches[k]);
        let s: i32 = if e > 0 {
            1
        } else if e < 0 {
            -1
        } else {
            0
        };
        if sign == 0 {
            if s == 0 {
                proof {
                    assert(lead_run(ms, 0) == 1 + lead_run(ms.drop_first(), 0));
                }
                return (0, total as i32);
            }
            sign = s;
            streak = s;
        } else if s == sign {
            streak = streak + sign;
        } else {
            proof {
                lemma_lead_run_skip(ms, sign as int, k as int);
                assert(ms.skip(k as int)[0] == ms[k as int]);
                assert(lead_run(ms, sign as int) == k);
                lemma_streak_value(ms, sign as int, k as int);
            }
            return (streak, total as i32);
        }
        k += 1;
    }
    proof {
        if ms.len() > 0 {
            lemma_lead_run_skip(ms, sign as int, ms.len() as int);
            assert(ms.skip(ms.len() as int).len() == 0);
            assert(lead_run(ms, sign as int) == ms.len());
            lemma_streak_value(ms, sign as int, ms.len() as int);
        }
    }
    (streak, total as i32)
}

/// Wins (RR gained) and losses (RR lost) over recent updates.
pub open spec fn win_loss_spec(ms: Seq<Json>) -> (nat, nat)
    decreases ms.len(),
{
    if ms.len() == 0 {
        (0, 0)
    } else {
        let (w, l) = win_loss_spec(ms.drop_last());
        let e = earned(ms.last());
        if e > 0 {
            (w + 1, l)
        } else if e < 0 {
            (w, l + 1)
        } else {
            (w, l)
        }
    }
}

proof fn lemma_win_loss_bound(ms: Seq<Json>)
    ensures
        win_loss_spec(ms).0 + win_loss_spec(ms).1 <= ms.len(),
    decreases ms.len(),
{
    if ms.len() > 0 {
        lemma_win_loss_bound(ms.drop_last());
    }
}

pub fn win_loss(matches: &Vec<Json>) -> (r: (u32, u32))
    requires
        matches@.len() <= u32::MAX,
    ensures
        r.0 == win_loss_spec(matches@).0,
        r.1 == win_loss_spec(matches@).1,
{
    let ghost ms = matches@;
    let mut wins: u32 = 0;
    let mut losses: u32 = 0;
    let mut i: usize = 0;
    proof {
        assert(ms.take(0) =~= Seq::<Json>::empty());
    }
    while i < matches.len()
        invariant
            i <= ms.len(),
            ms == matches@,
            ms.len() <= u32::MAX,
            (wins as nat, losses as nat) == win_loss_spec(ms.take(i as int)),
        decreases ms.len() - i,
    {
        proof {
            assert(ms.take(i as int + 1).drop_last() =~= ms.take(i as int));
            assert(ms.take(i as int + 1).last() == ms[i as int]);
            lemma_win_loss_bound(ms.take(i as int));
        }
        let e = earned_of(&matches[i]);
        if e > 0 {
            wins += 1;
        } else if e < 0 {
            losses += 1;
        }
        i += 1;
    }
    proof {
        assert(ms.take(ms.len() as int) =~= ms);
    }
    (wins, losses)
}

/// A history line from a competitive update: map, RR change (truncated to
/// 32 bits), tier after the game and its rank name.
pub open spec fn history_line(m: Json, sd: StaticData) -> HistoryView {
    let tier = count32(m, "TierAfterUpdate"@);
    let map_id = m.text_at("MapID"@);
    HistoryView {
        map: sd.map_name_spec(map_id),
        map_image: sd.map_image_spec(map_id),
        rr_change: m.int_at("RankedRatingEarned"@) as i32,
        tier,
        rank_name: sd.rank_name_spec(tier),
        ranked: true,
        ..blank_history()
    }
}

pub open spec fn history_lines(ms: Seq<Json>, sd: StaticData) -> Seq<HistoryView> {
    ms.map_values(|m: Json| history_line(m, sd))
}

/// The competitive history lines of a competitiveupdates response.
pub fn parse_history(json: &Json, sd: &StaticData) -> (r: Vec<HistoryEntry>)
    ensures
        crate::model::history_views(r@) == history_lines(arr_or_empty(json.field_arr("Matches"@)), *sd),
{
    let mut out: Vec<HistoryEntry> = Vec::new();
    let ms = match json.get_array("Matches") {
        Some(a) => a,
        None => {
            proof {
                assert(crate::model::history_views(out@) =~= history_lines(Seq::<Json>::empty(), *sd));
            }
            return out;
        },
    };
    let mut i: usize = 0;
    while i < ms.len()
        invariant
            i <= ms@.len(),
            crate::model::history_views(out@) == history_lines(ms@.take(i as int), *sd),
        decreases ms@.len() - i,
    {
        let m = &ms[i];
        let tier = count32_of(m, "TierAfterUpdate");
        let map_id = m.text("MapID");
        let mut h = HistoryEntry::blank();
        h.map = sd.map_name(map_id.as_str());
        h.map_image = sd.map_image(map_id.as_str());
        h.rr_change = m.signed("RankedRatingEarned") as i32;
        h.tier = tier;
        h.rank_name = sd.rank_name(tier);
        h.ranked = true;
        let ghost before = out@;
        proof {
            assert(h@ == history_line(ms@[i as int], *sd));
        }
        out.push(h);
        proof {
            assert(crate::model::history_views(out@) =~= crate::model::history_views(before).push(h@));
            assert(history_lines(ms@.take(i as int + 1), *sd) =~= history_lines(ms@.take(i as int), *sd).push(history_line(ms@[i as int], *sd)));
        }
        i += 1;
    }
    proof {
        assert(ms@.take(ms@.len() as int) =~= ms@);
    }
    out
}

/// The entries behind a list of references.
pub open spec fn derefs(v: Seq<&Json>) -> Seq<Json> {
    v.map_values(|j: &Json| *j)
}

/// The round results of a match detail, or none.
pub open spec fn rounds_of(detail: Json) -> Seq<Json> {
    arr_or_empty(detail.field_arr("roundResults"@))
}

/// The damage entries of the player `puuid` among one round's player stats.
pub open spec fn stats_damage(stats: Seq<Json>, puuid: Seq<char>) -> Seq<Json>
    decreases stats.len(),
{
    if stats.len() == 0 {
        Seq::empty()
    } else {
        stats_damage(stats.drop_last(), puuid) + if stats.last().field_str("subject"@) == Some(
            puuid,
        ) {
            arr_or_empty(stats.last().field_arr("damage"@))
        } else {
            Seq::empty()
        }
    }
}

/// Every damage entry of the player `puuid`, over every round.
pub open spec fn damage_entries(rounds: Seq<Json>, puuid: Seq<char>) -> Seq<Json>
    decreases rounds.len(),
{
    if rounds.len() == 0 {
        Seq::empty()
    } else {
        damage_entries(rounds.drop_last(), puuid) + stats_damage(
            arr_or_empty(rounds.last().field_arr("playerStats"@)),
            puuid,
        )
    }
}

/// The sum of the counts under `key` over a list of entries.
pub open spec fn sum_key(ds: Seq<Json>, key: Seq<char>) -> nat
    decreases ds.len(),
{
    if ds.len() == 0 {
        0
    } else {
        sum_key(ds.drop_last(), key) + ds.last().count_at(key) as nat
    }
}

/// A player's summed count under `key` over all damage entries of a match.
pub open spec fn damage_total(detail: Json, puuid: Seq<char>, key: Seq<char>) -> nat {
    sum_key(damage_entries(rounds_of(detail), puuid), key)
}

pub proof fn lemma_sum_concat(a: Seq<Json>, b: Seq<Json>, key: Seq<char>)
    ensures
        sum_key(a + b, key) == sum_key(a, key) + sum_key(b, key),
    decreases b.len(),
{
    if b.len() == 0 {
        assert(a + b =~= a);
    } else {
        lemma_sum_concat(a, b.drop_last(), key);
        assert((a + b).drop_last() =~= a + b.drop_last());
    }
}

proof fn lemma_stats_damage_split(stats: Seq<Json>, puuid: Seq<char>, j: int)
    requires
        0 <= j <= stats.len(),
    ensures
        stats_damage(stats, puuid) == stats_damage(stats.take(j), puuid) + stats_damage(
            stats.skip(j),
            puuid,
        ),
    decreases stats.len(),
{
    if j == stats.len() {
        assert(stats.take(j) =~= stats);
        assert(stats.skip(j) =~= Seq::<Json>::empty());
        assert(stats_damage(stats, puuid) + Seq::<Json>::empty() =~= stats_damage(stats, puuid));
    } else {
        lemma_stats_damage_split(stats.drop_last(), puuid, j);
        assert(stats.drop_last().take(j) =~= stats.take(j));
        assert(stats.skip(j).drop_last() =~= stats.drop_last().skip(j));
        assert(stats.skip(j).last() == stats.last());
        assert(stats_damage(stats, puuid) =~= stats_damage(stats.take(j), puuid) + stats_damage(
            stats.skip(j),
            puuid,
        ));
    }
}

proof fn lemma_damage_entries_split(rounds: Seq<Json>, puuid: Seq<char>, i: int)
    requires
        0 <= i <= rounds.len(),
    ensures
        damage_entries(rounds, puuid) == damage_entries(rounds.take(i), puuid) + damage_entries(
            rounds.skip(i),
            puuid,
        ),
    decreases rounds.len(),
{
    if i == rounds.len() {
        assert(rounds.take(i) =~= rounds);
        assert(rounds.skip(i) =~= Seq::<Json>::empty());
        assert(damage_entries(rounds, puuid) + Seq::<Json>::empty() =~= damage_entries(
            rounds,
            puuid,
        ));
    } else {
        lemma_damage_entries_split(rounds.drop_last(), puuid, i);
        assert(rounds.drop_last().take(i) =~= rounds.take(i));
        assert(rounds.skip(i).drop_last() =~= rounds.drop_last().skip(i));
        assert(rounds.skip(i).last() == rounds.last());
        assert(damage_entries(rounds, puuid) =~= damage_entries(rounds.take(i), puuid)
            + damage_entries(rounds.skip(i), puuid));
    }
}

/// Sums the counts under `key` over the damage entries of the player `puuid`
/// across every round of a match detail; `None` when the sum exceeds 64 bits.
fn damage_sum(detail: &Json, puuid: &str, key: &str) -> (r: Option<u64>)
    ensures
        r == (if damage_total(*detail, puuid@, key@) <= u64::MAX {
            Some(damage_total(*detail, puuid@, key@) as u64)
        } else {
            None::<u64>
        }),
{
    let rounds = match detail.get_array("roundResults") {
        Some(r) => r,
        None => return Some(0),
    };
    let ghost rs = rounds@;
    let ghost total = damage_total(*detail, puuid@, key@);
    let mut acc: u64 = 0;
    let mut i: usize = 0;
    proof {
        assert(rs.take(0) =~= Seq::<Json>::empty());
    }
    while i < rounds.len()
        invariant
            i <= rs.len(),
            rs == rounds@,
            rs == rounds_of(*detail),
            total == damage_total(*detail, puuid@, key@),
            sum_key(damage_entries(rs.take(i as int), puuid@), key@) <= total,
            acc == sum_key(damage_entries(rs.take(i as int), puuid@), key@),
        decreases rs.len() - i,
    {
        let ghost base = damage_entries(rs.take(i as int), puuid@);
        proof {
            assert(rs.take(i as int + 1).drop_last() =~= rs.take(i as int));
            assert(rs.take(i as int + 1).last() == rs[i as int]);
            lemma_damage_entries_split(rs, puuid@, i as int + 1);
            lemma_sum_concat(damage_entries(rs.take(i as int + 1), puuid@), damage_entries(rs.skip(i as int + 1), puuid@), key@);
        }
        match rounds[i].get_array("playerStats") {
            Some(stats) => {
                let ghost st = stats@;
                let mut j: usize = 0;
                proof {
                    assert(st.take(0) =~= Seq::<Json>::empty());
                    assert(base + stats_damage(st.take(0), puuid@) =~= base);
                }
                while j < stats.len()
                    invariant
                        j <= st.len(),
                        st == stats@,
                        total == damage_total(*detail, puuid@, key@),
                        sum_key(base + stats_damage(st, puuid@), key@) <= total,
                        sum_key(base + stats_damage(st.take(j as int), puuid@), key@) <= total,
                        acc == sum_key(base + stats_damage(st.take(j as int), puuid@), key@),
                    decreases st.len() - j,
                {
                    let ghost b2 = base + stats_damage(st.take(j as int), puuid@);
                    proof {
                        assert(st.take(j as int + 1).drop_last() =~= st.take(j as int));
                        assert(st.take(j as int + 1).last() == st[j as int]);
                        lemma_stats_damage_split(st, puuid@, j as int + 1);
                        assert(base + stats_damage(st, puuid@) =~= (base + stats_damage(st.take(j as int + 1), puuid@)) + stats_damage(st.skip(j as int + 1), puuid@));
                        lemma_sum_concat(base + stats_damage(st.take(j as int + 1), puuid@), stats_damage(st.skip(j as int + 1), puuid@), key@);
                    }
                    let ps = &stats[j];
                    let mine = match ps.get_str("subject") {
                        Some(sj) => crate::text::text_eq(sj, puuid),
                        None => false,
                    };
                    let mut added: bool = false;
                    if mine {
                        match ps.get_array("damage") {
                            Some(ds) => {
                                let mut k: usize = 0;
                                proof {
                                    assert(ds@.take(0) =~= Seq::<Json>::empty());
                                    assert(b2 + ds@.take(0) =~= b2);
                                    assert(b2 + ds@ =~= base + stats_damage(st.take(j as int + 1), puuid@));
                                }
                                while k < ds.len()
                                    invariant
                                        k <= ds@.len(),
                                        total == damage_total(*detail, puuid@, key@),
                                        sum_key(b2 + ds@, key@) <= total,
                                        acc == sum_key(b2 + ds@.take(k as int), key@),
                                    decreases ds@.len() - k,
                                {
                                    proof {
                                        assert((b2 + ds@.take(k as int + 1)).drop_last() =~= b2 + ds@.take(k as int));
                                        assert((b2 + ds@.take(k as int + 1)).last() == ds@[k as int]);
                                        assert(b2 + ds@ =~= (b2 + ds@.take(k as int + 1)) + ds@.skip(k as int + 1));
                                        lemma_sum_concat(b2 + ds@.take(k as int + 1), ds@.skip(k as int + 1), key@);
                                    }
                                    match acc.checked_add(ds[k].count(key)) {
                                        Some(v) => {
                                            acc = v;
                                        },
                                        None => {
                                            proof {
                                                assert(sum_key(b2 + ds@.take(k as int + 1), key@) == acc + ds@[k as int].count_at(key@));
                                            }
                                            return None;
                                        },
                                    }
                                    k += 1;
                                }
                                proof {
                                    assert(ds@.take(ds@.len() as int) =~= ds@);
                                }
                                added = true;
                            },
                            None => {},
                        }
                    }
                    proof {
                        if !added {
                            assert(base + stats_damage(st.take(j as int + 1), puuid@) =~= b2);
                        }
                    }
                    j += 1;
                }
                proof {
                    assert(st.take(st.len() as int) =~= st);
                }
            },
            None => {
                proof {
                    assert(base + stats_damage(Seq::<Json>::empty(), puuid@) =~= base);
                }
            },
        }
        i += 1;
    }
    proof {
        assert(rs.take(rs.len() as int) =~= rs);
    }
    Some(acc)
}

/// Head, body and leg shots of a player fit the sums and the percentage.
pub open spec fn shots_fit(detail: Json, puuid: Seq<char>) -> bool {
    damage_total(detail, puuid, "headshots"@) + damage_total(detail, puuid, "bodyshots"@)
        + damage_total(detail, puuid, "legshots"@) <= u64::MAX && damage_total(
        detail,
        puuid,
        "headshots"@,
    ) * 100 <= u64::MAX
}

/// Summed (head, body, leg) shots for a player across every round's damage.
pub fn shot_counts(detail: &Json, puuid: &str) -> (r: (u64, u64, u64))
    requires
        shots_fit(*detail, puuid@),
    ensures
        r == (damage_total(*detail, puuid@, "headshots"@) as u64, damage_total(*detail, puuid@, "bodyshots"@) as u64, damage_total(*detail, puuid@, "legshots"@) as u64),
{
    (
        damage_sum(detail, puuid, "headshots").unwrap(),
        damage_sum(detail, puuid, "bodyshots").unwrap(),
        damage_sum(detail, puuid, "legshots").unwrap(),
    )
}

/// Headshot percentage over every round's shot damage, rounded down; 0 with
/// no shots.
pub open spec fn headshot_pct_spec(detail: Json, puuid: Seq<char>) -> u32 {
    let h = damage_total(detail, puuid, "headshots"@);
    let t = h + damage_total(detail, puuid, "bodyshots"@) + damage_total(detail, puuid, "legshots"@);
    if t > 0 {
        ((h * 100) / t) as u32
    } else {
        0
    }
}

pub fn headshot_pct(detail: &Json, puuid: &str) -> (r: u32)
    requires
        shots_fit(*detail, puuid@),
    ensures
        r == headshot_pct_spec(*detail, puuid@),
{
    let (head, body, leg) = shot_counts(detail, puuid);
    let total = head + body + leg;
    if total > 0 {
        (head * 100 / total) as u32
    } else {
        0
    }
}

/// Raw damage a player dealt across every round.
pub fn round_damage(detail: &Json, puuid: &str) -> (r: u64)
    requires
        damage_total(*detail, puuid@, "damage"@) <= u64::MAX,
    ensures
        r == damage_total(*detail, puuid@, "damage"@),
{
    damage_sum(detail, puuid, "damage").unwrap()
}

/// Every kill of a round, over all of its player stats.
pub open spec fn round_kills(stats: Seq<Json>) -> Seq<Json>
    decreases stats.len(),
{
    if stats.len() == 0 {
        Seq::empty()
    } else {
        round_kills(stats.drop_last()) + arr_or_empty(stats.last().field_arr("kills"@))
    }
}

/// The player took part in the round.
pub open spec fn is_present(stats: Seq<Json>, puuid: Seq<char>) -> bool {
    exists|i: int| 0 <= i < stats.len() && #[trigger] stats[i].field_str("subject"@) == Some(puuid)
}

/// The player is among a kill's assistants.
pub open spec fn assisted_by(k: Json, puuid: Seq<char>) -> bool {
    exists|i: int|
        0 <= i < arr_or_empty(k.field_arr("assistants"@)).len() && #[trigger] arr_or_empty(
            k.field_arr("assistants"@),
        )[i].str_of() == Some(puuid)
}

/// The first kill whose victim is the player.
pub open spec fn first_death(ks: Seq<Json>, puuid: Seq<char>) -> Option<Json>
    decreases ks.len(),
{
    if ks.len() == 0 {
        None
    } else if ks[0].text_at("victim"@) == puuid {
        Some(ks[0])
    } else {
        first_death(ks.drop_first(), puuid)
    }
}

/// A trade window, in milliseconds: the death counts as traded when its
/// killer dies within this time.
pub open spec fn trade_window() -> int {
    3000
}

/// The killer of `d` was killed within the trade window after `d`.
pub open spec fn traded(ks: Seq<Json>, d: Json) -> bool {
    exists|j: int|
        0 <= j < ks.len() && #[trigger] ks[j].text_at("victim"@) == d.text_at("killer"@)
            && ks[j].int_at("roundTime"@) >= d.int_at("roundTime"@) && ks[j].int_at("roundTime"@)
            <= d.int_at("roundTime"@) + trade_window()
}

/// A round counts toward KAST when the player got a Kill, an Assist,
/// Survived, or was Traded.
pub open spec fn kast_round(ks: Seq<Json>, puuid: Seq<char>) -> bool {
    (exists|i: int| 0 <= i < ks.len() && #[trigger] ks[i].text_at("killer"@) == puuid) || (exists|
        i: int,
    | 0 <= i < ks.len() && #[trigger] assisted_by(ks[i], puuid)) || match first_death(ks, puuid) {
        None => true,
        Some(d) => traded(ks, d),
    }
}

/// (qualifying rounds, rounds present) over a list of rounds.
pub open spec fn kast_fold(rounds: Seq<Json>, puuid: Seq<char>) -> (nat, nat)
    decreases rounds.len(),
{
    if rounds.len() == 0 {
        (0, 0)
    } else {
        let (q, p) = kast_fold(rounds.drop_last(), puuid);
        match rounds.last().field_arr("playerStats"@) {
            Some(st) => if is_present(st, puuid) {
                (q + if kast_round(round_kills(st), puuid) {
                    1nat
                } else {
                    0nat
                }, p + 1)
            } else {
                (q, p)
            },
            None => (q, p),
        }
    }
}

/// KAST tally for a player over a match detail.
pub open spec fn kast_spec(detail: Json, puuid: Seq<char>) -> (nat, nat) {
    kast_fold(rounds_of(detail), puuid)
}

proof fn lemma_kast_fold_bound(rounds: Seq<Json>, puuid: Seq<char>)
    ensures
        kast_fold(rounds, puuid).0 <= kast_fold(rounds, puuid).1 <= rounds.len(),
    decreases rounds.len(),
{
    if rounds.len() > 0 {
        lemma_kast_fold_bound(rounds.drop_last(), puuid);
    }
}

fn kill_list<'a>(stats: &'a Vec<Json>) -> (r: Vec<&'a Json>)
    ensures
        derefs(r@) == round_kills(stats@),
{
    let mut out: Vec<&Json> = Vec::new();
    let mut j: usize = 0;
    proof {
        assert(derefs(out@) =~= round_kills(stats@.take(0)));
    }
    while j < stats.len()
        invariant
            j <= stats@.len(),
            derefs(out@) == round_kills(stats@.take(j as int)),
        decreases stats@.len() - j,
    {
        proof {
            assert(stats@.take(j as int + 1).drop_last() =~= stats@.take(j as int));
            assert(stats@.take(j as int + 1).last() == stats@[j as int]);
        }
        let ghost base = derefs(out@);
        match stats[j].get_array("kills") {
            Some(ks) => {
                let mut k: usize = 0;
                proof {
                    assert(base + ks@.take(0) =~= base);
                }
                while k < ks.len()
                    invariant
                        k <= ks@.len(),
                        derefs(out@) == base + ks@.take(k as int),
                    decreases ks@.len() - k,
                {
                    let ghost before = out@;
                    out.push(&ks[k]);
                    proof {
                        assert(derefs(out@) =~= derefs(before).push(ks@[k as int]));
                        assert(base + ks@.take(k as int + 1) =~= (base + ks@.take(k as int)).push(ks@[k as int]));
                    }
                    k += 1;
                }
                proof {
                    assert(ks@.take(ks@.len() as int) =~= ks@);
                }
            },
            None => {
                proof {
                    assert(base + Seq::<Json>::empty() =~= base);
                }
            },
        }
        j += 1;
    }
    proof {
        assert(stats@.take(stats@.len() as int) =~= stats@);
    }
    out
}

fn present_in(stats: &Vec<Json>, puuid: &str) -> (r: bool)
    ensures
        r == is_present(stats@, puuid@),
{
    let mut j: usize = 0;
    while j < stats.len()
        invariant
            j <= stats@.len(),
            forall|t: int| 0 <= t < j ==> stats@[t].field_str("subject"@) != Some(puuid@),
        decreases stats@.len() - j,
    {
        let hit = match stats[j].get_str("subject") {
            Some(sj) => crate::text::text_eq(sj, puuid),
            None => false,
        };
        if hit {
            return true;
        }
        j += 1;
    }
    false
}

fn qualifies(ks: &Vec<&Json>, puuid: &str) -> (r: bool)
    ensures
        r == kast_round(derefs(ks@), puuid@),
{
    let ghost d = derefs(ks@);
    let n = ks.len();
    let mut i: usize = 0;
    while i < n
        invariant
            n == ks@.len(),
            d == derefs(ks@),
            i <= n,
            forall|t: int| 0 <= t < i ==> d[t].text_at("killer"@) != puuid@,
        decreases n - i,
    {
        let killer = ks[i].text("killer");
        if crate::text::text_eq(killer.as_str(), puuid) {
            proof {
                assert(d[i as int] == *ks@[i as int]);
            }
            return true;
        }
        i += 1;
    }
    let mut i: usize = 0;
    while i < n
        invariant
            n == ks@.len(),
            d == derefs(ks@),
            i <= n,
            forall|t: int| 0 <= t < n ==> d[t].text_at("killer"@) != puuid@,
            forall|t: int| 0 <= t < i ==> !assisted_by(d[t], puuid@),
        decreases n - i,
    {
        match ks[i].get_array("assistants") {
            Some(a) => {
                let mut k: usize = 0;
                while k < a.len()
                    invariant
                        i < n,
                        n == ks@.len(),
                        d == derefs(ks@),
                        k <= a@.len(),
                        d[i as int].field_arr("assistants"@) == Some(a@),
                        forall|t: int| 0 <= t < k ==> a@[t].str_of() != Some(puuid@),
                    decreases a@.len() - k,
                {
                    let hit = match a[k].as_str() {
                        Some(x) => crate::text::text_eq(x, puuid),
                        None => false,
                    };
                    if hit {
                        proof {
                            assert(arr_or_empty(d[i as int].field_arr("assistants"@))[k as int].str_of() == Some(puuid@));
                            assert(assisted_by(d[i as int], puuid@));
                        }
                        return true;
                    }
                    k += 1;
                }
            },
            None => {},
        }
        i += 1;
    }
    let mut i: usize = 0;
    proof {
        assert(d.skip(0) =~= d);
    }
    while i < n
        invariant
            n == ks@.len(),
            d == derefs(ks@),
            i <= n,
            forall|t: int| 0 <= t < n ==> d[t].text_at("killer"@) != puuid@,
            forall|t: int| 0 <= t < n ==> !assisted_by(d[t], puuid@),
            forall|t: int| 0 <= t < i ==> d[t].text_at("victim"@) != puuid@,
            first_death(d, puuid@) == first_death(d.skip(i as int), puuid@),
        decreases n - i,
    {
        proof {
            assert(d.skip(i as int)[0] == d[i as int]);
            assert(d.skip(i as int).drop_first() =~= d.skip(i as int + 1));
        }
        let victim = ks[i].text("victim");
        if crate::text::text_eq(victim.as_str(), puuid) {
            proof {
                assert(first_death(d.skip(i as int), puuid@) == Some(d[i as int]));
            }
            let killer = ks[i].text("killer");
            let t = ks[i].signed("roundTime") as i128;
            let mut j: usize = 0;
            while j < n
                invariant
                    n == ks@.len(),
                    d == derefs(ks@),
                    i < n,
                    j <= n,
                    forall|t: int| 0 <= t < n ==> d[t].text_at("killer"@) != puuid@,
                    forall|t: int| 0 <= t < n ==> !assisted_by(d[t], puuid@),
                    first_death(d, puuid@) == Some(d[i as int]),
                    killer@ == d[i as int].text_at("killer"@),
                    t == d[i as int].int_at("roundTime"@),
                    forall|u: int| 0 <= u < j ==> !(d[u].text_at("victim"@) == d[i as int].text_at("killer"@)
                        && d[u].int_at("roundTime"@) >= d[i as int].int_at("roundTime"@) && d[u].int_at("roundTime"@)
                        <= d[i as int].int_at("roundTime"@) + trade_window()),
                decreases n - j,
            {
                let v2 = ks[j].text("victim");
                let vt = ks[j].signed("roundTime") as i128;
                if crate::text::text_eq(v2.as_str(), killer.as_str()) && vt >= t && vt <= t + 3000 {
                    proof {
                        assert(d[j as int].text_at("victim"@) == d[i as int].text_at("killer"@));
                        assert(traded(d, d[i as int]));
                    }
                    return true;
                }
                j += 1;
            }
            return false;
        }
        i += 1;
    }
    proof {
        assert(d.skip(n as int).len() == 0);
    }
    true
}

/// KAST tally for a player: (qualifying rounds, rounds present). Rounds the
/// player was absent for, and rounds without player stats, are skipped.
pub fn kast_rounds(detail: &Json, puuid: &str) -> (r: (u32, u32))
    requires
        rounds_of(*detail).len() <= u32::MAX,
    ensures
        (r.0 as nat, r.1 as nat) == kast_spec(*detail, puuid@),
{
    let rounds = match detail.get_array("roundResults") {
        Some(r) => r,
        None => return (0, 0),
    };
    let ghost rs = rounds@;
    let mut q: u32 = 0;
    let mut p: u32 = 0;
    let mut i: usize = 0;
    proof {
        assert(rs.take(0) =~= Seq::<Json>::empty());
    }
    while i < rounds.len()
        invariant
            i <= rs.len(),
            rs == rounds@,
            rs.len() <= u32::MAX,
            (q as nat, p as nat) == kast_fold(rs.take(i as int), puuid@),
        decreases rs.len() - i,
    {
        proof {
            assert(rs.take(i as int + 1).drop_last() =~= rs.take(i as int));
            assert(rs.take(i as int + 1).last() == rs[i as int]);
            lemma_kast_fold_bound(rs.take(i as int), puuid@);
        }
        match rounds[i].get_array("playerStats") {
            Some(stats) => {
                if present_in(stats, puuid) {
                    let ks = kill_list(stats);
                    if qualifies(&ks, puuid) {
                        q += 1;
                    }
                    p += 1;
                }
            },
            None => {},
        }
        i += 1;
    }
    proof {
        assert(rs.take(rs.len() as int) =~= rs);
    }
    (q, p)
}

/// One match from the player's point of view.
pub struct MatchStats {
    pub kills: u32,
    pub deaths: u32,
    pub assists: u32,
    pub acs: u32,
    pub adr: u32,
    pub kast: u32,
    pub hs: u32,
    pub self_rounds: u32,
    pub enemy_rounds: u32,
    pub won: bool,
    pub map: String,
    pub map_image: String,
    pub agent_icon: String,
    pub agent_name: String,
    pub scoreboard: Vec<ScoreEntry>,
}

pub struct MatchStatsView {
    pub kills: u32,
    pub deaths: u32,
    pub assists: u32,
    pub acs: u32,
    pub adr: u32,
    pub kast: u32,
    pub hs: u32,
    pub self_rounds: u32,
    pub enemy_rounds: u32,
    pub won: bool,
    pub map: Seq<char>,
    pub map_image: Seq<char>,
    pub agent_icon: Seq<char>,
    pub agent_name: Seq<char>,
    pub scoreboard: Seq<ScoreView>,
}

impl View for MatchStats {
    type V = MatchStatsView;

    open spec fn view(&self) -> MatchStatsView {
        MatchStatsView {
            kills: self.kills,
            deaths: self.deaths,
            assists: self.assists,
            acs: self.acs,
            adr: self.adr,
            kast: self.kast,
            hs: self.hs,
            self_rounds: self.self_rounds,
            enemy_rounds: self.enemy_rounds,
            won: self.won,
            map: self.map@,
            map_image: self.map_image@,
            agent_icon: self.agent_icon@,
            agent_name: self.agent_name@,
            scoreboard: score_views(self.scoreboard@),
        }
    }
}

/// The stats of a match the player is not found in.
pub open spec fn no_stats() -> MatchStatsView {
    MatchStatsView {
        kills: 0,
        deaths: 0,
        assists: 0,
        acs: 0,
        adr: 0,
        kast: 0,
        hs: 0,
        self_rounds: 0,
        enemy_rounds: 0,
        won: false,
        map: Seq::empty(),
        map_image: Seq::empty(),
        agent_icon: Seq::empty(),
        agent_name: Seq::empty(),
        scoreboard: Seq::empty(),
    }
}

impl MatchStats {
    pub fn empty() -> (m: MatchStats)
        ensures
            m@ == no_stats(),
    {
        let m = MatchStats {
            kills: 0,
            deaths: 0,
            assists: 0,
            acs: 0,
            adr: 0,
            kast: 0,
            hs: 0,
            self_rounds: 0,
            enemy_rounds: 0,
            won: false,
            map: String::new(),
            map_image: String::new(),
            agent_icon: String::new(),
            agent_name: String::new(),
            scoreboard: Vec::new(),
        };
        proof {
            assert(score_views(m.scoreboard@) =~= Seq::<ScoreView>::empty());
        }
        m
    }

    pub fn copy_stats(&self) -> (r: MatchStats)
        ensures
            r@ == self@,
    {
        MatchStats {
            kills: self.kills,
            deaths: self.deaths,
            assists: self.assists,
            acs: self.acs,
            adr: self.adr,
            kast: self.kast,
            hs: self.hs,
            self_rounds: self.self_rounds,
            enemy_rounds: self.enemy_rounds,
            won: self.won,
            map: self.map.clone(),
            map_image: self.map_image.clone(),
            agent_icon: self.agent_icon.clone(),
            agent_name: self.agent_name.clone(),
            scoreboard: crate::model::copy_scoreboard(&self.scoreboard),
        }
    }
}

/// The first entry whose "subject" is `puuid`.
pub open spec fn first_subject(ps: Seq<Json>, puuid: Seq<char>) -> Option<Json>
    decreases ps.len(),
{
    if ps.len() == 0 {
        None
    } else if ps[0].field_str("subject"@) == Some(puuid) {
        Some(ps[0])
    } else {
        first_subject(ps.drop_first(), puuid)
    }
}

pub fn find_subject<'a>(ps: &'a Vec<Json>, puuid: &str) -> (r: Option<&'a Json>)
    ensures
        crate::json::deref_opt(r) == first_subject(ps@, puuid@),
{
    let mut i: usize = 0;
    proof {
        assert(ps@.skip(0) =~= ps@);
    }
    while i < ps.len()
        invariant
            i <= ps@.len(),
            first_subject(ps@, puuid@) == first_subject(ps@.skip(i as int), puuid@),
        decreases ps@.len() - i,
    {
        proof {
            assert(ps@.skip(i as int)[0] == ps@[i as int]);
            assert(ps@.skip(i as int).drop_first() =~= ps@.skip(i as int + 1));
        }
        let hit = match ps[i].get_str("subject") {
            Some(x) => crate::text::text_eq(x, puuid),
            None => false,
        };
        if hit {
            return Some(&ps[i]);
        }
        i += 1;
    }
    None
}

/// A player's count under stats.`key`, truncated to 32 bits, or 0.
pub open spec fn stat_of(p: Json, key: Seq<char>) -> u32 {
    match p.field("stats"@) {
        Some(s) => count32(s, key),
        None => 0,
    }
}

fn stat(p: &Json, key: &str) -> (r: u32)
    ensures
        r == stat_of(*p, key@),
{
    match p.get("stats") {
        Some(s) => count32_of(s, key),
        None => 0,
    }
}

/// (own team's rounds won, whether it won, the most rounds another team won).
pub open spec fn teams_fold(teams: Seq<Json>, team_id: Seq<char>) -> (u32, bool, u32)
    decreases teams.len(),
{
    if teams.len() == 0 {
        (0, false, 0)
    } else {
        let (sr, w, er) = teams_fold(teams.drop_last(), team_id);
        let t = teams.last();
        let r = count32(t, "roundsWon"@);
        if t.field_str("teamId"@) == Some(team_id) {
            (r, t.flag_at("won"@), er)
        } else {
            (sr, w, if r > er {
                r
            } else {
                er
            })
        }
    }
}

pub open spec fn max1(x: u32) -> u32 {
    if x > 1 {
        x
    } else {
        1
    }
}

/// A player's scoreboard line.
pub open spec fn score_line(
    detail: Json,
    p: Json,
    team_id: Seq<char>,
    puuid: Seq<char>,
    rb: bool,
    sd: StaticData,
) -> ScoreView {
    let subject = p.text_at("subject"@);
    let game_name = p.text_at("gameName"@);
    ScoreView {
        name: if game_name.len() == 0 {
            Seq::empty()
        } else {
            game_name + "#"@ + p.text_at("tagLine"@)
        },
        agent_icon: sd.agent_icon_spec(p.text_at("characterId"@)),
        kills: stat_of(p, "kills"@),
        deaths: stat_of(p, "deaths"@),
        assists: stat_of(p, "assists"@),
        acs: if rb {
            stat_of(p, "score"@) / max1(stat_of(p, "roundsPlayed"@))
        } else {
            0
        },
        hs: if rb {
            headshot_pct_spec(detail, subject)
        } else {
            0
        },
        ally: p.text_at("teamId"@) == team_id,
        is_self: subject == puuid,
    }
}

pub open spec fn score_lines(
    detail: Json,
    ps: Seq<Json>,
    team_id: Seq<char>,
    puuid: Seq<char>,
    rb: bool,
    sd: StaticData,
) -> Seq<ScoreView> {
    ps.map_values(|p: Json| score_line(detail, p, team_id, puuid, rb, sd))
}

/// `a` goes before `b` on the scoreboard: allies first, then higher ACS.
pub open spec fn score_before(a: ScoreView, b: ScoreView) -> bool {
    (a.ally && !b.ally) || (a.ally == b.ally && a.acs > b.acs)
}

/// Inserts `x` into an ordered scoreboard after every line it does not go
/// before, which keeps equal lines in their original order.
pub open spec fn insert_ordered(l: Seq<ScoreView>, x: ScoreView) -> Seq<ScoreView>
    decreases l.len(),
{
    if l.len() > 0 && score_before(x, l.last()) {
        insert_ordered(l.drop_last(), x).push(l.last())
    } else {
        l.push(x)
    }
}

/// The stable sort of a scoreboard: allies first, then by ACS, highest
/// first, with ties in their original order.
pub open spec fn sort_scores(s: Seq<ScoreView>) -> Seq<ScoreView>
    decreases s.len(),
{
    if s.len() == 0 {
        Seq::empty()
    } else {
        insert_ordered(sort_scores(s.drop_last()), s.last())
    }
}

/// No line of the scoreboard goes before a line above it.
pub open spec fn ordered_scores(s: Seq<ScoreView>) -> bool {
    forall|i: int, j: int| 0 <= i < j < s.len() ==> !score_before(#[trigger] s[j], #[trigger] s[i])
}

proof fn lemma_insert_sorted(l: Seq<ScoreView>, x: ScoreView)
    requires
        ordered_scores(l),
    ensures
        ordered_scores(insert_ordered(l, x)),
        insert_ordered(l, x).to_multiset() == l.to_multiset().insert(x),
        insert_ordered(l, x).len() == l.len() + 1,
        forall|k: int|
            0 <= k < insert_ordered(l, x).len() ==> insert_ordered(l, x)[k] == x || exists|j: int|
                0 <= j < l.len() && #[trigger] l[j] == insert_ordered(l, x)[k],
    decreases l.len(),
{
    broadcast use vstd::multiset::group_multiset_axioms;

    let r = insert_ordered(l, x);
    if l.len() > 0 && score_before(x, l.last()) {
        let lp = l.drop_last();
        let last = l.last();
        assert forall|i: int, j: int| 0 <= i < j < lp.len() implies !score_before(
            #[trigger] lp[j],
            #[trigger] lp[i],
        ) by {
            assert(lp[i] == l[i] && lp[j] == l[j]);
        }
        lemma_insert_sorted(lp, x);
        let rp = insert_ordered(lp, x);
        assert(r == rp.push(last));
        assert forall|i: int, j: int| 0 <= i < j < r.len() implies !score_before(
            #[trigger] r[j],
            #[trigger] r[i],
        ) by {
            if j == r.len() - 1 {
                assert(r[j] == last);
                assert(r[i] == rp[i]);
                if rp[i] != x {
                    let t = choose|t: int| 0 <= t < lp.len() && #[trigger] lp[t] == rp[i];
                    assert(l[t] == lp[t]);
                    assert(!score_before(l[l.len() - 1], l[t]));
                }
            } else {
                assert(r[i] == rp[i] && r[j] == rp[j]);
            }
        }
        vstd::seq_lib::to_multiset_build(rp, last);
        vstd::seq_lib::to_multiset_build(lp, last);
        assert(lp.push(last) =~= l);
        assert(r.to_multiset() =~= l.to_multiset().insert(x));
        assert forall|k: int| 0 <= k < r.len() implies r[k] == x || exists|j: int|
            0 <= j < l.len() && #[trigger] l[j] == r[k] by {
            if k == r.len() - 1 {
                assert(l[l.len() - 1] == r[k]);
            } else {
                assert(r[k] == rp[k]);
                if rp[k] != x {
                    let t = choose|t: int| 0 <= t < lp.len() && #[trigger] lp[t] == rp[k];
                    assert(l[t] == r[k]);
                }
            }
        }
    } else {
        assert(r == l.push(x));
        assert forall|i: int, j: int| 0 <= i < j < r.len() implies !score_before(
            #[trigger] r[j],
            #[trigger] r[i],
        ) by {
            if j == r.len() - 1 {
                assert(r[j] == x);
                assert(r[i] == l[i]);
                if i < l.len() - 1 {
                    assert(!score_before(l[l.len() - 1], l[i]));
                }
            } else {
                assert(r[i] == l[i] && r[j] == l[j]);
            }
        }
        vstd::seq_lib::to_multiset_build(l, x);
        assert forall|k: int| 0 <= k < r.len() implies r[k] == x || exists|j: int|
            0 <= j < l.len() && #[trigger] l[j] == r[k] by {
            if k < l.len() {
                assert(l[k] == r[k]);
            }
        }
    }
}

/// The scoreboard comes out in order, allies first and then by ACS from the
/// highest, and holds exactly the lines that went in.
pub proof fn law_scoreboard_sorted(s: Seq<ScoreView>)
    ensures
        ordered_scores(sort_scores(s)),
        sort_scores(s).to_multiset() == s.to_multiset(),
    decreases s.len(),
{
    broadcast use vstd::multiset::group_multiset_axioms;

    if s.len() == 0 {
        assert(sort_scores(s) =~= s);
    } else {
        law_scoreboard_sorted(s.drop_last());
        lemma_insert_sorted(sort_scores(s.drop_last()), s.last());
        vstd::seq_lib::to_multiset_build(s.drop_last(), s.last());
        assert(s.drop_last().push(s.last()) =~= s);
    }
}

/// Every shot count and the rounds of a match fit the arithmetic that the
/// match statistics need.
pub open spec fn match_fits(detail: Json, puuid: Seq<char>) -> bool {
    let players = arr_or_empty(detail.field_arr("players"@));
    let queue_id = match detail.field("matchInfo"@) {
        Some(m) => m.text_at("queueId"@),
        None => Seq::empty(),
    };
    first_subject(players, puuid) is Some && has_rounds_spec(queue_id) ==> {
        &&& shots_fit(detail, puuid)
        &&& damage_total(detail, puuid, "damage"@) <= u64::MAX
        &&& rounds_of(detail).len() * 100 <= u32::MAX
        &&& forall|i: int|
            0 <= i < players.len() ==> shots_fit(detail, #[trigger] players[i].text_at("subject"@))
    }
}

/// One match from the player's point of view, and its full scoreboard.
/// Score races (no rounds) leave the per-round statistics at 0.
pub open spec fn match_stats_spec(detail: Json, puuid: Seq<char>, sd: StaticData) -> MatchStatsView {
    let players = arr_or_empty(detail.field_arr("players"@));
    match first_subject(players, puuid) {
        None => no_stats(),
        Some(me) => {
            let character_id = me.text_at("characterId"@);
            let team_id = me.text_at("teamId"@);
            let (map_path, queue_id) = match detail.field("matchInfo"@) {
                Some(m) => (m.text_at("mapId"@), m.text_at("queueId"@)),
                None => (Seq::empty(), Seq::empty()),
            };
            let rb = has_rounds_spec(queue_id);
            let rounds = max1(stat_of(me, "roundsPlayed"@));
            let (q, p) = kast_spec(detail, puuid);
            let (sr, won, er) = teams_fold(arr_or_empty(detail.field_arr("teams"@)), team_id);
            MatchStatsView {
                kills: stat_of(me, "kills"@),
                deaths: stat_of(me, "deaths"@),
                assists: stat_of(me, "assists"@),
                acs: if rb {
                    stat_of(me, "score"@) / rounds
                } else {
                    0
                },
                adr: if rb {
                    (damage_total(detail, puuid, "damage"@) / (rounds as nat)) as u32
                } else {
                    0
                },
                kast: if rb && p > 0 {
                    (q * 100 / p) as u32
                } else {
                    0
                },
                hs: if rb {
                    headshot_pct_spec(detail, puuid)
                } else {
                    0
                },
                self_rounds: sr,
                enemy_rounds: er,
                won,
                map: sd.map_name_spec(map_path),
                map_image: sd.map_image_spec(map_path),
                agent_icon: sd.agent_icon_spec(character_id),
                agent_name: sd.agent_name_spec(character_id),
                scoreboard: sort_scores(score_lines(detail, players, team_id, puuid, rb, sd)),
            }
        },
    }
}

proof fn lemma_insert_ordered(l: Seq<ScoreView>, x: ScoreView, p: int)
    requires
        0 <= p <= l.len(),
        forall|k: int| p <= k < l.len() ==> score_before(x, #[trigger] l[k]),
        p == 0 || !score_before(x, l[p - 1]),
    ensures
        insert_ordered(l, x) == l.insert(p, x),
    decreases l.len(),
{
    if p < l.len() {
        assert(score_before(x, l[l.len() - 1]));
        lemma_insert_ordered(l.drop_last(), x, p);
        assert(l.drop_last().insert(p, x).push(l.last()) =~= l.insert(p, x));
    } else {
        assert(l.push(x) =~= l.insert(p, x));
    }
}

fn entry_before(a: &ScoreEntry, b: &ScoreEntry) -> (r: bool)
    ensures
        r == score_before(a@, b@),
{
    (a.ally && !b.ally) || (a.ally == b.ally && a.acs > b.acs)
}

/// Stable sort of scoreboard lines: allies first, then by ACS, highest first.
pub fn sort_scoreboard(lines: Vec<ScoreEntry>) -> (r: Vec<ScoreEntry>)
    ensures
        score_views(r@) == sort_scores(score_views(lines@)),
{
    let ghost sv = score_views(lines@);
    let mut out: Vec<ScoreEntry> = Vec::new();
    proof {
        assert(score_views(out@) =~= sort_scores(sv.take(0)));
    }
    let src = lines;
    let n = src.len();
    let mut i: usize = 0;
    while i < n
        invariant
            n == src@.len(),
            sv == score_views(src@),
            i <= n,
            score_views(out@) == sort_scores(sv.take(i as int)),
        decreases n - i,
    {
        proof {
            assert(sv.take(i as int + 1).drop_last() =~= sv.take(i as int));
            assert(sv.take(i as int + 1).last() == src@[i as int]@);
        }
        let x = src[i].copy_entry();
        let mut p: usize = out.len();
        while p > 0 && entry_before(&x, &out[p - 1])
            invariant
                p <= out@.len(),
                forall|k: int| p <= k < out@.len() ==> score_before(x@, #[trigger] score_views(out@)[k]),
            decreases p,
        {
            p -= 1;
        }
        proof {
            lemma_insert_ordered(score_views(out@), x@, p as int);
        }
        let ghost before = out@;
        out.insert(p, x);
        proof {
            assert(score_views(out@) =~= score_views(before).insert(p as int, x@));
        }
        i += 1;
    }
    proof {
        assert(sv.take(n as int) =~= sv);
    }
    out
}

fn score_line_of(
    detail: &Json,
    p: &Json,
    team_id: &str,
    puuid: &str,
    rb: bool,
    sd: &StaticData,
) -> (r: ScoreEntry)
    requires
        rb ==> shots_fit(*detail, p.text_at("subject"@)),
    ensures
        r@ == score_line(*detail, *p, team_id@, puuid@, rb, *sd),
{
    let subject = p.text("subject");
    let team = p.text("teamId");
    let agent = p.text("characterId");
    let rp0 = stat(p, "roundsPlayed");
    let rp = if rp0 > 1 {
        rp0
    } else {
        1
    };
    let game_name = p.text("gameName");
    let tag = p.text("tagLine");
    let name = if game_name.as_str().is_empty() {
        String::new()
    } else {
        let mut n = game_name.clone();
        push_text(&mut n, "#");
        push_text(&mut n, tag.as_str());
        n
    };
    ScoreEntry {
        name,
        agent_icon: sd.agent_icon(agent.as_str()),
        kills: stat(p, "kills"),
        deaths: stat(p, "deaths"),
        assists: stat(p, "assists"),
        acs: if rb {
            stat(p, "score") / rp
        } else {
            0
        },
        hs: if rb {
            headshot_pct(detail, subject.as_str())
        } else {
            0
        },
        ally: crate::text::text_eq(team.as_str(), team_id),
        is_self: crate::text::text_eq(subject.as_str(), puuid),
    }
}

fn teams_of(detail: &Json, team_id: &str) -> (r: (u32, bool, u32))
    ensures
        r == teams_fold(arr_or_empty(detail.field_arr("teams"@)), team_id@),
{
    let mut r: (u32, bool, u32) = (0, false, 0);
    let teams = match detail.get_array("teams") {
        Some(t) => t,
        None => return r,
    };
    let ghost ts = teams@;
    let mut i: usize = 0;
    proof {
        assert(ts.take(0) =~= Seq::<Json>::empty());
    }
    while i < teams.len()
        invariant
            i <= ts.len(),
            ts == teams@,
            r == teams_fold(ts.take(i as int), team_id@),
        decreases ts.len() - i,
    {
        proof {
            assert(ts.take(i as int + 1).drop_last() =~= ts.take(i as int));
            assert(ts.take(i as int + 1).last() == ts[i as int]);
        }
        let t = &teams[i];
        let won_rounds = count32_of(t, "roundsWon");
        let mine = match t.get_str("teamId") {
            Some(x) => crate::text::text_eq(x, team_id),
            None => false,
        };
        if mine {
            r = (won_rounds, t.flag("won"), r.2);
        } else {
            r = (r.0, r.1, if won_rounds > r.2 {
                won_rounds
            } else {
                r.2
            });
        }
        i += 1;
    }
    proof {
        assert(ts.take(ts.len() as int) =~= ts);
    }
    r
}

/// Reads one match from the player's point of view, with the scoreboard of
/// every player, allies first and by ACS.
pub fn parse_match_stats(detail: &Json, puuid: &str, sd: &StaticData) -> (r: MatchStats)
    requires
        match_fits(*detail, puuid@),
    ensures
        r@ == match_stats_spec(*detail, puuid@, *sd),
{
    let players: &Vec<Json> = match detail.get_array("players") {
        Some(a) => a,
        None => return MatchStats::empty(),
    };
    let me = match find_subject(players, puuid) {
        Some(m) => m,
        None => return MatchStats::empty(),
    };
    let character_id = me.text("characterId");
    let team_id = me.text("teamId");
    let (map_path, queue_id) = match detail.get("matchInfo") {
        Some(m) => (m.text("mapId"), m.text("queueId")),
        None => (String::new(), String::new()),
    };
    let rb = has_rounds(queue_id.as_str());
    let r0 = stat(me, "roundsPlayed");
    let rounds = if r0 > 1 {
        r0
    } else {
        1
    };
    let acs = if rb {
        stat(me, "score") / rounds
    } else {
        0
    };
    let adr = if rb {
        (round_damage(detail, puuid) / rounds as u64) as u32
    } else {
        0
    };
    let kast = if rb {
        let (q, p) = kast_rounds(detail, puuid);
        proof {
            lemma_kast_fold_bound(rounds_of(*detail), puuid@);
        }
        if p > 0 {
            q * 100 / p
        } else {
            0
        }
    } else {
        0
    };
    let hs = if rb {
        headshot_pct(detail, puuid)
    } else {
        0
    };
    let (self_rounds, won, enemy_rounds) = teams_of(detail, team_id.as_str());
    let mut lines: Vec<ScoreEntry> = Vec::new();
    let mut i: usize = 0;
    let ghost tid = team_id@;
    while i < players.len()
        invariant
            i <= players@.len(),
            tid == team_id@,
            rb ==> forall|k: int|
                0 <= k < players@.len() ==> shots_fit(*detail, #[trigger] players@[k].text_at("subject"@)),
            score_views(lines@) == score_lines(*detail, players@.take(i as int), team_id@, puuid@, rb, *sd),
        decreases players@.len() - i,
    {
        let ghost before = lines@;
        let line = score_line_of(detail, &players[i], team_id.as_str(), puuid, rb, sd);
        lines.push(line);
        proof {
            assert(score_views(lines@) =~= score_views(before).push(line@));
            assert(score_lines(*detail, players@.take(i as int + 1), team_id@, puuid@, rb, *sd) =~= score_lines(*detail, players@.take(i as int), team_id@, puuid@, rb, *sd).push(score_line(*detail, players@[i as int], team_id@, puuid@, rb, *sd)));
        }
        i += 1;
    }
    proof {
        assert(players@.take(players@.len() as int) =~= players@);
    }
    let scoreboard = sort_scoreboard(lines);
    MatchStats {
        kills: stat(me, "kills"),
        deaths: stat(me, "deaths"),
        assists: stat(me, "assists"),
        acs,
        adr,
        kast,
        hs,
        self_rounds,
        enemy_rounds,
        won,
        map: sd.map_name(map_path.as_str()),
        map_image: sd.map_image(map_path.as_str()),
        agent_icon: sd.agent_icon(character_id.as_str()),
        agent_name: sd.agent_name(character_id.as_str()),
        scoreboard,
    }
}

/// Whether `parse_match_stats` may read this match for this player.
pub fn stats_fit(detail: &Json, puuid: &str) -> (r: bool)
    ensures
        r == match_fits(*detail, puuid@),
{
    let players: &Vec<Json> = match detail.get_array("players") {
        Some(a) => a,
        None => return true,
    };
    if find_subject(players, puuid).is_none() {
        return true;
    }
    let queue_id = match detail.get("matchInfo") {
        Some(m) => m.text("queueId"),
        None => String::new(),
    };
    if !has_rounds(queue_id.as_str()) {
        return true;
    }
    if !shots_ok(detail, puuid) {
        return false;
    }
    if damage_sum(detail, puuid, "damage").is_none() {
        return false;
    }
    let n_rounds: usize = match detail.get_array("roundResults") {
        Some(r) => r.len(),
        None => 0,
    };
    if n_rounds > 42949672 {
        proof {
            assert(n_rounds * 100 > u32::MAX) by (nonlinear_arith)
                requires
                    n_rounds > 42949672,
            ;
        }
        return false;
    }
    proof {
        assert(n_rounds * 100 <= u32::MAX) by (nonlinear_arith)
            requires
                n_rounds <= 42949672,
        ;
    }
    let mut i: usize = 0;
    while i < players.len()
        invariant
            i <= players@.len(),
            players@ == arr_or_empty(detail.field_arr("players"@)),
            first_subject(players@, puuid@) is Some,
            has_rounds_spec(match detail.field("matchInfo"@) {
                Some(m) => m.text_at("queueId"@),
                None => Seq::empty(),
            }),
            shots_fit(*detail, puuid@),
            damage_total(*detail, puuid@, "damage"@) <= u64::MAX,
            rounds_of(*detail).len() * 100 <= u32::MAX,
            forall|k: int| 0 <= k < i ==> shots_fit(*detail, #[trigger] players@[k].text_at("subject"@)),
        decreases players@.len() - i,
    {
        let subject = players[i].text("subject");
        if !shots_ok(detail, subject.as_str()) {
            return false;
        }
        i += 1;
    }
    true
}

fn shots_ok(detail: &Json, puuid: &str) -> (r: bool)
    ensures
        r == shots_fit(*detail, puuid@),
{
    match (damage_sum(detail, puuid, "headshots"), damage_sum(detail, puuid, "bodyshots"), damage_sum(detail, puuid, "legshots")) {
        (Some(h), Some(b), Some(l)) => {
            match h.checked_add(b) {
                Some(hb) => match hb.checked_add(l) {
                    Some(_) => h.checked_mul(100).is_some(),
                    None => false,
                },
                None => false,
            }
        },
        _ => false,
    }
}

/// Recent competitive form for a player over the last games: totals, averages
/// per round, streak, RR trend, win/loss record, likely premade mates, and the
/// real account level.
pub struct RecentForm {
    pub kills: u32,
    pub deaths: u32,
    pub hs: u32,
    pub acs: u32,
    pub adr: u32,
    pub kast: u32,
    pub assists: u32,
    pub streak: i32,
    pub rr_trend: i32,
    pub wins: u32,
    pub losses: u32,
    pub mates: Vec<String>,
    pub level: u32,
}

/// Sums over a player's recent match details.
pub struct FormTotals {
    pub kills: nat,
    pub deaths: nat,
    pub assists: nat,
    pub score: nat,
    pub damage: nat,
    pub kast_q: nat,
    pub kast_p: nat,
    pub level: u32,
    pub head: nat,
    pub body: nat,
    pub leg: nat,
}

/// A player's count under stats.`key` as a 64-bit number, or 0.
pub open spec fn stat64(p: Json, key: Seq<char>) -> nat {
    match p.field("stats"@) {
        Some(s) => s.count_at(key) as nat,
        None => 0,
    }
}

pub open spec fn players_of(d: Json) -> Seq<Json> {
    arr_or_empty(d.field_arr("players"@))
}

/// The totals over match details: the player's own stats over the matches
/// the player is found in, the highest account level seen there, and shots
/// over every match.
pub open spec fn form_totals(ds: Seq<Json>, puuid: Seq<char>) -> FormTotals
    decreases ds.len(),
{
    if ds.len() == 0 {
        FormTotals {
            kills: 0,
            deaths: 0,
            assists: 0,
            score: 0,
            damage: 0,
            kast_q: 0,
            kast_p: 0,
            level: 0,
            head: 0,
            body: 0,
            leg: 0,
        }
    } else {
        let t = form_totals(ds.drop_last(), puuid);
        let d = ds.last();
        let shots = FormTotals {
            head: t.head + damage_total(d, puuid, "headshots"@),
            body: t.body + damage_total(d, puuid, "bodyshots"@),
            leg: t.leg + damage_total(d, puuid, "legshots"@),
            ..t
        };
        match first_subject(players_of(d), puuid) {
            Some(me) => {
                let lv = count32(me, "accountLevel"@);
                FormTotals {
                    kills: t.kills + stat64(me, "kills"@),
                    deaths: t.deaths + stat64(me, "deaths"@),
                    assists: t.assists + stat64(me, "assists"@),
                    score: t.score + stat64(me, "score"@),
                    damage: t.damage + damage_total(d, puuid, "damage"@),
                    kast_q: t.kast_q + kast_spec(d, puuid).0,
                    kast_p: t.kast_p + kast_spec(d, puuid).1,
                    level: if lv > t.level {
                        lv
                    } else {
                        t.level
                    },
                    ..shots
                }
            },
            None => shots,
        }
    }
}

/// How many other players of one match shared the player's (non-empty) party
/// and have the id `s`.
pub open spec fn party_hits(ps: Seq<Json>, puuid: Seq<char>, party: Seq<char>, s: Seq<char>) -> nat
    decreases ps.len(),
{
    if ps.len() == 0 {
        0
    } else {
        party_hits(ps.drop_last(), puuid, party, s) + if ps.last().text_at("subject"@) == s && s
            != puuid && s.len() > 0 && ps.last().text_at("partyId"@) == party {
            1nat
        } else {
            0nat
        }
    }
}

/// How many recent matches' party-sharing entries name the player `s`.
pub open spec fn mate_count(ds: Seq<Json>, puuid: Seq<char>, s: Seq<char>) -> nat
    decreases ds.len(),
{
    if ds.len() == 0 {
        0
    } else {
        let d = ds.last();
        mate_count(ds.drop_last(), puuid, s) + match first_subject(players_of(d), puuid) {
            Some(me) => if me.text_at("partyId"@).len() > 0 {
                party_hits(players_of(d), puuid, me.text_at("partyId"@), s)
            } else {
                0
            },
            None => 0,
        }
    }
}

/// The sums stay within 64 bits and each match's rounds within 32 bits.
pub open spec fn recent_fits(ds: Seq<Json>, puuid: Seq<char>) -> bool {
    let t = form_totals(ds, puuid);
    &&& t.kills <= u64::MAX && t.deaths <= u64::MAX && t.assists <= u64::MAX && t.score <= u64::MAX
    &&& t.damage <= u64::MAX
    &&& t.kast_q * 100 <= u64::MAX && t.kast_p <= u64::MAX
    &&& t.head + t.body + t.leg <= u64::MAX && t.head * 100 <= u64::MAX
    &&& forall|i: int| 0 <= i < ds.len() ==> rounds_of(#[trigger] ds[i]).len() <= u32::MAX
}

pub open spec fn max1n(x: nat) -> nat {
    if x > 1 {
        x
    } else {
        1
    }
}

/// The updates of a competitiveupdates response, when there are any.
pub open spec fn recent_matches(cu: Json) -> Option<Seq<Json>> {
    match cu.field_arr("Matches"@) {
        Some(ms) => if ms.len() > 0 {
            Some(ms)
        } else {
            None
        },
        None => None,
    }
}

proof fn lemma_totals_mono(ds: Seq<Json>, puuid: Seq<char>, i: int)
    requires
        0 <= i <= ds.len(),
    ensures
        ({
            let a = form_totals(ds.take(i), puuid);
            let b = form_totals(ds, puuid);
            a.kills <= b.kills && a.deaths <= b.deaths && a.assists <= b.assists && a.score
                <= b.score && a.damage <= b.damage && a.kast_q <= b.kast_q && a.kast_p
                <= b.kast_p && a.head <= b.head && a.body <= b.body && a.leg <= b.leg
        }),
    decreases ds.len() - i,
{
    if i < ds.len() {
        lemma_totals_mono(ds.drop_last(), puuid, i);
        assert(ds.drop_last().take(i) =~= ds.take(i));
    } else {
        assert(ds.take(i) =~= ds);
    }
}

pub open spec fn min2(x: nat) -> nat {
    if x > 2 {
        2
    } else {
        x
    }
}

/// A running count, capped at 2, from a table of counts.
pub open spec fn capped(m: Seq<(String, u8)>, s: Seq<char>) -> nat {
    if crate::assoc::as_map(m).contains_key(s) {
        crate::assoc::as_map(m)[s] as nat
    } else {
        0
    }
}

/// Counts, capped at 2, the other players of one match who shared the
/// player's party.
fn count_party(ps: &Vec<Json>, puuid: &str, party: &str, counts: &mut Vec<(String, u8)>)
    requires
        party@.len() > 0,
        crate::assoc::unique_keys(old(counts)@),
        forall|s: Seq<char>| #[trigger] capped(old(counts)@, s) <= 2,
    ensures
        crate::assoc::unique_keys(final(counts)@),
        forall|s: Seq<char>| #[trigger] capped(final(counts)@, s) == min2(
            capped(old(counts)@, s) + party_hits(ps@, puuid@, party@, s),
        ),
{
    let ghost c0 = counts@;
    let mut k: usize = 0;
    proof {
        assert(ps@.take(0) =~= Seq::<Json>::empty());
    }
    while k < ps.len()
        invariant
            k <= ps@.len(),
            crate::assoc::unique_keys(counts@),
            forall|s: Seq<char>| #[trigger] capped(c0, s) <= 2,
            forall|s: Seq<char>| #[trigger] capped(counts@, s) == min2(
                capped(c0, s) + party_hits(ps@.take(k as int), puuid@, party@, s),
            ),
        decreases ps@.len() - k,
    {
        proof {
            assert(ps@.take(k as int + 1).drop_last() =~= ps@.take(k as int));
            assert(ps@.take(k as int + 1).last() == ps@[k as int]);
        }
        let subj = ps[k].text("subject");
        let pid = ps[k].text("partyId");
        if !crate::text::text_eq(subj.as_str(), puuid) && !subj.as_str().is_empty()
            && crate::text::text_eq(pid.as_str(), party) {
            let cur: u8 = match crate::assoc::lookup(counts, subj.as_str()) {
                Some(c) => *c,
                None => 0,
            };
            let next: u8 = if cur >= 2 {
                2
            } else {
                cur + 1
            };
            let ghost before = counts@;
            let ghost key = subj@;
            crate::assoc::insert(counts, subj, next);
            proof {
                assert forall|s: Seq<char>| #[trigger] capped(counts@, s) == min2(
                    capped(c0, s) + party_hits(ps@.take(k as int + 1), puuid@, party@, s),
                ) by {
                    if s == key {
                        assert(capped(before, s) == cur);
                    } else {
                        assert(capped(counts@, s) == capped(before, s));
                    }
                }
            }
        } else {
            proof {
                assert forall|s: Seq<char>| #[trigger] capped(counts@, s) == min2(
                    capped(c0, s) + party_hits(ps@.take(k as int + 1), puuid@, party@, s),
                ) by {
                    assert(party_hits(ps@.take(k as int + 1), puuid@, party@, s) == party_hits(ps@.take(k as int), puuid@, party@, s));
                }
            }
        }
        k += 1;
    }
    proof {
        assert(ps@.take(ps@.len() as int) =~= ps@);
    }
}

/// The MatchID texts of a list of updates, skipping updates without one.
pub open spec fn match_ids(xs: Seq<Json>) -> Seq<Seq<char>>
    decreases xs.len(),
{
    if xs.len() == 0 {
        Seq::empty()
    } else {
        match xs.last().field_str("MatchID"@) {
            Some(u) => match_ids(xs.drop_last()).push(u),
            None => match_ids(xs.drop_last()),
        }
    }
}

/// The ids of the (at most `games`) most recent competitive matches whose
/// details make up the recent form; `None` when there are no updates.
pub fn recent_match_ids(cu: &Json, games: usize) -> (r: Option<Vec<String>>)
    ensures
        match recent_matches(*cu) {
            None => r is None,
            Some(ms) => r is Some && crate::encounter::texts(r->0@) == match_ids(
                ms.take(if games < ms.len() {
                    games as int
                } else {
                    ms.len() as int
                }),
            ),
        },
{
    let ms = match cu.get_array("Matches") {
        Some(m) => m,
        None => return None,
    };
    if ms.len() == 0 {
        return None;
    }
    let n = if games < ms.len() {
        games
    } else {
        ms.len()
    };
    let mut ids: Vec<String> = Vec::new();
    let mut i: usize = 0;
    proof {
        assert(ms@.take(0) =~= Seq::<Json>::empty());
        assert(crate::encounter::texts(ids@) =~= Seq::<Seq<char>>::empty());
    }
    while i < n
        invariant
            i <= n <= ms@.len(),
            crate::encounter::texts(ids@) == match_ids(ms@.take(i as int)),
        decreases n - i,
    {
        proof {
            assert(ms@.take(i as int + 1).drop_last() =~= ms@.take(i as int));
            assert(ms@.take(i as int + 1).last() == ms@[i as int]);
        }
        match ms[i].get_str("MatchID") {
            Some(u) => {
                let ghost before = ids@;
                let us = u.to_owned();
                ids.push(us);
                proof {
                    assert(crate::encounter::texts(ids@) =~= crate::encounter::texts(before).push(us@));
                }
            },
            None => {},
        }
        i += 1;
    }
    proof {
        assert(ms@.take(n as int) =~= ms@.take(n as int));
    }
    Some(ids)
}

/// What the recent form reports, given the updates `ms` and the details `ds`
/// of the matches that loaded, as values.
pub open spec fn form_ok(f: RecentForm, ms: Seq<Json>, ds: Seq<Json>, puuid: Seq<char>) -> bool {
    let t = form_totals(ds, puuid);
    let shots = t.head + t.body + t.leg;
    let rounds = max1n(t.kast_p);
    &&& f.kills == t.kills as u32
    &&& f.deaths == t.deaths as u32
    &&& f.assists == t.assists as u32
    &&& f.hs == (if shots > 0 {
        (t.head * 100 / shots) as u32
    } else {
        0
    })
    &&& f.acs == (t.score / rounds) as u32
    &&& f.adr == (t.damage / rounds) as u32
    &&& f.kast == (t.kast_q * 100 / rounds) as u32
    &&& f.streak == streak_spec(ms)
    &&& f.rr_trend == rr_sum(ms) as i32
    &&& f.wins == win_loss_spec(ms).0
    &&& f.losses == win_loss_spec(ms).1
    &&& f.level == t.level
    &&& crate::encounter::texts(f.mates@).no_duplicates()
    &&& forall|s: Seq<char>| #[trigger] crate::encounter::texts(f.mates@).contains(s) <==> mate_count(ds, puuid, s) >= 2
}

/// Recent competitive form for a player: kills, deaths and headshot%
/// aggregated over the match details that loaded (failed ones are left out
/// by the caller), streak, RR trend and win/loss record over all the recent
/// updates, and the players who shared this player's party in at least two of
/// those matches. `None` when there are no competitive updates.
pub fn recent_form(cu: &Json, details: &Vec<Json>, puuid: &str) -> (r: Option<RecentForm>)
    requires
        match recent_matches(*cu) {
            Some(ms) => rr_sums_fit(ms) && ms.len() <= i32::MAX,
            None => true,
        },
        recent_fits(details@, puuid@),
    ensures
        match recent_matches(*cu) {
            None => r is None,
            Some(ms) => r is Some && form_ok(r->0, ms, details@, puuid@),
        },
{
    let matches = match cu.get_array("Matches") {
        Some(m) => m,
        None => return None,
    };
    if matches.len() == 0 {
        return None;
    }
    let (streak, rr_trend) = streak_and_trend(matches);
    let (wins, losses) = win_loss(matches);
    let ghost ds = details@;
    let mut kills: u64 = 0;
    let mut deaths: u64 = 0;
    let mut assists: u64 = 0;
    let mut score: u64 = 0;
    let mut damage: u64 = 0;
    let mut kast_q: u64 = 0;
    let mut kast_p: u64 = 0;
    let mut level: u32 = 0;
    let mut head: u64 = 0;
    let mut body: u64 = 0;
    let mut leg: u64 = 0;
    let mut counts: Vec<(String, u8)> = Vec::new();
    let mut i: usize = 0;
    proof {
        assert(ds.take(0) =~= Seq::<Json>::empty());
        assert forall|s: Seq<char>| #[trigger] capped(counts@, s) == min2(mate_count(ds.take(0), puuid@, s)) by {
            crate::assoc::lemma_assoc_none(counts@, s);
        }
    }
    while i < details.len()
        invariant
            i <= ds.len(),
            ds == details@,
            recent_fits(ds, puuid@),
            crate::assoc::unique_keys(counts@),
            forall|s: Seq<char>| #[trigger] capped(counts@, s) == min2(mate_count(ds.take(i as int), puuid@, s)),
            ({
                let t = form_totals(ds.take(i as int), puuid@);
                kills == t.kills && deaths == t.deaths && assists == t.assists && score == t.score
                    && damage == t.damage && kast_q == t.kast_q && kast_p == t.kast_p && level
                    == t.level && head == t.head && body == t.body && leg == t.leg
            }),
        decreases ds.len() - i,
    {
        proof {
            assert(ds.take(i as int + 1).drop_last() =~= ds.take(i as int));
            assert(ds.take(i as int + 1).last() == ds[i as int]);
            lemma_totals_mono(ds, puuid@, i as int + 1);
            assert(rounds_of(ds[i as int]).len() <= u32::MAX);
        }
        let d = &details[i];
        let ghost prev_counts = counts@;
        match d.get_array("players") {
            Some(players) => {
                match find_subject(players, puuid) {
                    Some(me) => {
                        kills = kills + me_stat(me, "kills");
                        deaths = deaths + me_stat(me, "deaths");
                        assists = assists + me_stat(me, "assists");
                        score = score + me_stat(me, "score");
                        damage = damage + damage_sum(d, puuid, "damage").unwrap();
                        let (q, p) = kast_rounds(d, puuid);
                        kast_q = kast_q + q as u64;
                        kast_p = kast_p + p as u64;
                        let lv = count32_of(me, "accountLevel");
                        if lv > level {
                            level = lv;
                        }
                        let my_party = me.text("partyId");
                        if !my_party.as_str().is_empty() {
                            proof {
                                assert forall|s: Seq<char>| #[trigger] capped(counts@, s) <= 2 by {}
                            }
                            count_party(players, puuid, my_party.as_str(), &mut counts);
                        }
                    },
                    None => {},
                }
            },
            None => {},
        }
        head = head + damage_sum(d, puuid, "headshots").unwrap();
        body = body + damage_sum(d, puuid, "bodyshots").unwrap();
        leg = leg + damage_sum(d, puuid, "legshots").unwrap();
        proof {
            assert forall|s: Seq<char>| #[trigger] capped(counts@, s) == min2(mate_count(ds.take(i as int + 1), puuid@, s)) by {
                assert(capped(prev_counts, s) == min2(mate_count(ds.take(i as int), puuid@, s)));
            }
        }
        i += 1;
    }
    proof {
        assert(ds.take(ds.len() as int) =~= ds);
    }
    let shots = head + body + leg;
    let hs = if shots > 0 {
        (head * 100 / shots) as u32
    } else {
        0
    };
    let rounds = if kast_p > 1 {
        kast_p
    } else {
        1
    };
    let mates = mates_of(&counts);
    Some(RecentForm {
        kills: kills as u32,
        deaths: deaths as u32,
        hs,
        acs: (score / rounds) as u32,
        adr: (damage / rounds) as u32,
        kast: (kast_q * 100 / rounds) as u32,
        assists: assists as u32,
        streak,
        rr_trend,
        wins,
        losses,
        mates,
        level,
    })
}

fn rr_fit(ms: &Vec<Json>) -> (r: bool)
    ensures
        r == rr_sums_fit(ms@),
{
    let mut sum: i128 = 0;
    proof {
        assert(ms@.take(0) =~= Seq::<Json>::empty());
    }
    for k in 0..ms.len()
        invariant
            sum == rr_sum(ms@.take(k as int)),
            forall|j: int| 0 <= j <= k ==> i64::MIN <= #[trigger] rr_sum(ms@.take(j)) <= i64::MAX,
    {
        proof {
            assert(ms@.take(k as int + 1).drop_last() =~= ms@.take(k as int));
            assert(ms@.take(k as int + 1).last() == ms@[k as int]);
        }
        sum = sum + ms[k].signed("RankedRatingEarned") as i128;
        if sum < i64::MIN as i128 || sum > i64::MAX as i128 {
            proof {
                assert(!(i64::MIN <= rr_sum(ms@.take(k as int + 1)) <= i64::MAX));
            }
            return false;
        }
    }
    proof {
        assert(ms@.take(ms@.len() as int) =~= ms@);
    }
    true
}

fn totals_fit(details: &Vec<Json>, puuid: &str) -> (r: bool)
    ensures
        r == recent_fits(details@, puuid@),
{
    let ghost ds = details@;
    let mut kills: u128 = 0;
    let mut deaths: u128 = 0;
    let mut assists: u128 = 0;
    let mut score: u128 = 0;
    let mut damage: u128 = 0;
    let mut kast_q: u128 = 0;
    let mut kast_p: u128 = 0;
    let mut head: u128 = 0;
    let mut body: u128 = 0;
    let mut leg: u128 = 0;
    let max: u128 = u64::MAX as u128;
    proof {
        assert(ds.take(0) =~= Seq::<Json>::empty());
    }
    for i in 0..details.len()
        invariant
            ds == details@,
            max == u64::MAX,
            kills <= max && deaths <= max && assists <= max && score <= max && damage <= max,
            kast_q <= max && kast_p <= max && head <= max && body <= max && leg <= max,
            ({
                let t = form_totals(ds.take(i as int), puuid@);
                kills == t.kills && deaths == t.deaths && assists == t.assists && score == t.score
                    && damage == t.damage && kast_q == t.kast_q && kast_p == t.kast_p && head
                    == t.head && body == t.body && leg == t.leg
            }),
            forall|j: int| 0 <= j < i ==> rounds_of(#[trigger] ds[j]).len() <= u32::MAX,
    {
        let ghost pre = ds.take(i as int + 1);
        proof {
            assert(pre.drop_last() =~= ds.take(i as int));
            assert(pre.last() == ds[i as int]);
            lemma_totals_mono(ds, puuid@, i as int + 1);
        }
        let d = &details[i];
        let n_rounds: usize = match d.get_array("roundResults") {
            Some(r) => r.len(),
            None => 0,
        };
        if n_rounds > u32::MAX as usize {
            proof {
                assert(rounds_of(ds[i as int]).len() > u32::MAX);
            }
            return false;
        }
        match d.get_array("players") {
            Some(players) => {
                match find_subject(players, puuid) {
                    Some(me) => {
                        kills = kills + me_stat(me, "kills") as u128;
                        deaths = deaths + me_stat(me, "deaths") as u128;
                        assists = assists + me_stat(me, "assists") as u128;
                        score = score + me_stat(me, "score") as u128;
                        match damage_sum(d, puuid, "damage") {
                            Some(x) => {
                                damage = damage + x as u128;
                            },
                            None => {
                                return false;
                            },
                        }
                        let (q, p) = kast_rounds(d, puuid);
                        kast_q = kast_q + q as u128;
                        kast_p = kast_p + p as u128;
                    },
                    None => {},
                }
            },
            None => {},
        }
        let h = damage_sum(d, puuid, "headshots");
        let b = damage_sum(d, puuid, "bodyshots");
        let l = damage_sum(d, puuid, "legshots");
        match (h, b, l) {
            (Some(x), Some(y), Some(z)) => {
                head = head + x as u128;
                body = body + y as u128;
                leg = leg + z as u128;
            },
            _ => {
                return false;
            },
        }
        if kills > max || deaths > max || assists > max || score > max || damage > max || kast_q
            > max || kast_p > max || head > max || body > max || leg > max {
            return false;
        }
    }
    proof {
        assert(ds.take(ds.len() as int) =~= ds);
    }
    kast_q * 100 <= max && head + body + leg <= max && head * 100 <= max
}

/// Whether the sums behind `recent_form` fit: every running RR sum of the
/// updates in 64 bits with at most `i32::MAX` updates, and the totals over
/// the match details within 64 bits.
pub fn form_fits(cu: &Json, details: &Vec<Json>, puuid: &str) -> (r: bool)
    ensures
        r == ((match recent_matches(*cu) {
            Some(ms) => rr_sums_fit(ms) && ms.len() <= i32::MAX,
            None => true,
        }) && recent_fits(details@, puuid@)),
{
    let rr_ok = match cu.get_array("Matches") {
        Some(ms) => ms.len() == 0 || (ms.len() <= i32::MAX as usize && rr_fit(ms)),
        None => true,
    };
    rr_ok && totals_fit(details, puuid)
}

fn me_stat(p: &Json, key: &str) -> (r: u64)
    ensures
        r == stat64(*p, key@),
{
    match p.get("stats") {
        Some(s) => s.count(key),
        None => 0,
    }
}

/// The ids whose capped count reached 2, each once.
fn mates_of(counts: &Vec<(String, u8)>) -> (r: Vec<String>)
    requires
        crate::assoc::unique_keys(counts@),
    ensures
        crate::encounter::texts(r@).no_duplicates(),
        forall|s: Seq<char>| #[trigger] crate::encounter::texts(r@).contains(s) <==> capped(counts@, s) >= 2,
{
    let mut out: Vec<String> = Vec::new();
    let mut i: usize = 0;
    while i < counts.len()
        invariant
            i <= counts@.len(),
            crate::assoc::unique_keys(counts@),
            crate::encounter::texts(out@).no_duplicates(),
            forall|s: Seq<char>| #[trigger] crate::encounter::texts(out@).contains(s) ==> exists|j: int| 0 <= j < i && counts@[j].0@ == s,
            forall|s: Seq<char>| #[trigger] crate::encounter::texts(out@).contains(s) <==> exists|j: int| 0 <= j < i && counts@[j].0@ == s && counts@[j].1 >= 2,
        decreases counts@.len() - i,
    {
        if counts[i].1 >= 2 {
            let ghost before = out@;
            let key = counts[i].0.clone();
            out.push(key);
            proof {
                assert(crate::encounter::texts(out@) =~= crate::encounter::texts(before).push(key@));
                assert forall|a: int, b: int| 0 <= a < b < crate::encounter::texts(out@).len() implies crate::encounter::texts(out@)[a] != crate::encounter::texts(out@)[b] by {
                    if b == crate::encounter::texts(out@).len() - 1 {
                        let x = crate::encounter::texts(out@)[a];
                        assert(crate::encounter::texts(before).contains(x));
                        let j = choose|j: int| 0 <= j < i && counts@[j].0@ == x;
                        assert(j < i);
                    }
                }
                assert forall|s: Seq<char>| #[trigger] crate::encounter::texts(out@).contains(s) implies exists|j: int| 0 <= j < i + 1 && counts@[j].0@ == s by {
                    if s == key@ {
                        assert(counts@[i as int].0@ == s);
                    } else {
                        assert(crate::encounter::texts(before).contains(s));
                    }
                }
                assert forall|s: Seq<char>| #[trigger] crate::encounter::texts(out@).contains(s) <==> exists|j: int| 0 <= j < i + 1 && counts@[j].0@ == s && counts@[j].1 >= 2 by {
                    if s == key@ {
                        assert(crate::encounter::texts(out@)[crate::encounter::texts(out@).len() - 1] == s);
                    } else {
                        if crate::encounter::texts(out@).contains(s) {
                            let t = choose|t: int| 0 <= t < crate::encounter::texts(out@).len() && crate::encounter::texts(out@)[t] == s;
                            assert(t < crate::encounter::texts(before).len());
                            assert(crate::encounter::texts(before).contains(s));
                        }
                        if exists|j: int| 0 <= j < i + 1 && counts@[j].0@ == s && counts@[j].1 >= 2 {
                            assert(crate::encounter::texts(before).contains(s));
                            let t = choose|t: int| 0 <= t < crate::encounter::texts(before).len() && crate::encounter::texts(before)[t] == s;
                            assert(crate::encounter::texts(out@)[t] == s);
                        }
                    }
                }
            }
        }
        i += 1;
    }
    proof {
        assert forall|s: Seq<char>| #[trigger] crate::encounter::texts(out@).contains(s) <==> capped(counts@, s) >= 2 by {
            crate::assoc::lemma_assoc_some(counts@, s);
            if exists|j: int| 0 <= j < counts@.len() && counts@[j].0@ == s {
                let j = choose|j: int| 0 <= j < counts@.len() && counts@[j].0@ == s;
                crate::assoc::lemma_assoc_unique(counts@, j);
                assert forall|j2: int| 0 <= j2 < counts@.len() && counts@[j2].0@ == s implies j2 == j by {
                    if j2 != j {
                        if j2 < j {
                        } else {
                        }
                    }
                }
            }
        }
    }
    out
}


proof fn lemma_percent(part: nat, whole: nat)
    requires
        part <= whole,
        whole > 0,
    ensures
        part * 100 / whole <= 100,
{
    assert(part * 100 <= whole * 100) by (nonlinear_arith)
        requires
            part <= whole,
    ;
    assert(part * 100 / whole <= whole * 100 / whole) by (nonlinear_arith)
        requires
            part * 100 <= whole * 100,
            whole > 0,
    ;
    assert(whole * 100 / whole == 100) by (nonlinear_arith)
        requires
            whole > 0,
    ;
}

/// A win rate of no more wins than games is a percentage: at most 100.
pub proof fn law_win_rate_percent(wins: u32, games: u32)
    requires
        wins <= games,
    ensures
        win_rate_spec(wins, games) <= 100,
{
    if games > 0 {
        lemma_percent(wins as nat, games as nat);
    }
}

/// A match's headshot share and KAST are percentages: at most 100. A
/// player is never credited more KAST rounds than rounds played.
pub proof fn law_match_rates_percent(detail: Json, puuid: Seq<char>, sd: StaticData)
    ensures
        match_stats_spec(detail, puuid, sd).hs <= 100,
        match_stats_spec(detail, puuid, sd).kast <= 100,
        kast_spec(detail, puuid).0 <= kast_spec(detail, puuid).1,
{
    lemma_kast_fold_bound(rounds_of(detail), puuid);
    let (q, p) = kast_spec(detail, puuid);
    if p > 0 {
        lemma_percent(q, p);
    }
    let h = damage_total(detail, puuid, "headshots"@);
    let t = h + damage_total(detail, puuid, "bodyshots"@) + damage_total(detail, puuid, "legshots"@);
    if t > 0 {
        lemma_percent(h, t);
    }
}


/// A hidden account level (0) adds nothing through the level terms of the
/// smurf read: only few games to a high rank and a strong win rate count,
/// and a premium melee does not.
pub proof fn law_hidden_level_smurf(rank_tier: u32, games: u32, win_rate: u32, premium_skins: bool)
    requires
        rank_tier > 0,
    ensures
        smurf_score_spec(0, rank_tier, games, win_rate, premium_skins) == ({
            let b: int = if rank_tier >= 21 && games > 0 && games <= 40 {
                40 - games
            } else {
                0
            };
            let c: int = if games >= 5 && win_rate >= 60 {
                win_rate - 60
            } else {
                0
            };
            if b + c > 100 {
                100u32
            } else {
                (b + c) as u32
            }
        }),
{
}

/// `k` is one of the kills listed under some player's stats in a round.
pub open spec fn listed_kill(st: Seq<Json>, k: Json) -> bool {
    exists|j: int, x: int|
        0 <= j < st.len() && 0 <= x < arr_or_empty(st[j].field_arr("kills"@)).len()
            && #[trigger] arr_or_empty(st[j].field_arr("kills"@))[x] == k
}

/// The player got a kill in the round.
pub open spec fn round_kill_by(st: Seq<Json>, p: Seq<char>) -> bool {
    exists|k: Json| #[trigger] listed_kill(st, k) && k.text_at("killer"@) == p
}

/// The player is named among the assistants of a kill of the round.
pub open spec fn round_assist_by(st: Seq<Json>, p: Seq<char>) -> bool {
    exists|k: Json, y: int|
        #![trigger listed_kill(st, k), arr_or_empty(k.field_arr("assistants"@))[y]]
        listed_kill(st, k) && 0 <= y < arr_or_empty(k.field_arr("assistants"@)).len()
            && arr_or_empty(k.field_arr("assistants"@))[y].str_of() == Some(p)
}

/// The player died in the round.
pub open spec fn round_death_of(st: Seq<Json>, p: Seq<char>) -> bool {
    exists|d: Json| #[trigger] listed_kill(st, d) && d.text_at("victim"@) == p
}

/// The killer of `d` died in the round within three seconds after `d`.
pub open spec fn round_trade_of(st: Seq<Json>, d: Json) -> bool {
    exists|e: Json|
        #[trigger] listed_kill(st, e) && e.text_at("victim"@) == d.text_at("killer"@)
            && d.int_at("roundTime"@) <= e.int_at("roundTime"@) <= d.int_at("roundTime"@) + 3000
}

/// Every death of the player in the round was traded.
pub open spec fn round_all_deaths_traded(st: Seq<Json>, p: Seq<char>) -> bool {
    forall|d: Json| #[trigger] listed_kill(st, d) && d.text_at("victim"@) == p ==> round_trade_of(st, d)
}

/// No death of the player in the round was traded.
pub open spec fn round_no_death_traded(st: Seq<Json>, p: Seq<char>) -> bool {
    forall|d: Json| #[trigger] listed_kill(st, d) && d.text_at("victim"@) == p ==> !round_trade_of(st, d)
}

/// The player has stats in the round.
pub open spec fn round_has(st: Seq<Json>, p: Seq<char>) -> bool {
    exists|i: int| 0 <= i < st.len() && #[trigger] st[i].field_str("subject"@) == Some(p)
}

proof fn lemma_round_kills_listed(st: Seq<Json>)
    ensures
        forall|k: Json| round_kills(st).contains(k) <==> #[trigger] listed_kill(st, k),
    decreases st.len(),
{
    if st.len() > 0 {
        let pre = st.drop_last();
        lemma_round_kills_listed(pre);
        let ka = arr_or_empty(st.last().field_arr("kills"@));
        let rk = round_kills(st);
        assert(rk == round_kills(pre) + ka);
        assert forall|k: Json| rk.contains(k) <==> #[trigger] listed_kill(st, k) by {
            if rk.contains(k) {
                let i = choose|i: int| 0 <= i < rk.len() && rk[i] == k;
                if i < round_kills(pre).len() {
                    assert(round_kills(pre)[i] == k);
                    assert(round_kills(pre).contains(k));
                    assert(listed_kill(pre, k));
                    let (j, x) = choose|j: int, x: int|
                        0 <= j < pre.len() && 0 <= x < arr_or_empty(pre[j].field_arr("kills"@)).len()
                            && #[trigger] arr_or_empty(pre[j].field_arr("kills"@))[x] == k;
                    assert(st[j] == pre[j]);
                    assert(arr_or_empty(st[j].field_arr("kills"@))[x] == k);
                } else {
                    let x = i - round_kills(pre).len();
                    assert(ka[x] == k);
                    let j = st.len() - 1;
                    assert(arr_or_empty(st[j].field_arr("kills"@))[x] == k);
                }
            }
            if listed_kill(st, k) {
                let (j, x) = choose|j: int, x: int|
                    0 <= j < st.len() && 0 <= x < arr_or_empty(st[j].field_arr("kills"@)).len()
                        && #[trigger] arr_or_empty(st[j].field_arr("kills"@))[x] == k;
                if j < pre.len() {
                    assert(pre[j] == st[j]);
                    assert(arr_or_empty(pre[j].field_arr("kills"@))[x] == k);
                    assert(listed_kill(pre, k));
                    let i = choose|i: int| 0 <= i < round_kills(pre).len() && round_kills(pre)[i] == k;
                    assert(rk[i] == k);
                } else {
                    assert(rk[round_kills(pre).len() + x] == k);
                }
            }
        }
    } else {
        assert forall|k: Json| round_kills(st).contains(k) <==> #[trigger] listed_kill(st, k) by {}
    }
}

proof fn lemma_first_death_facts(ks: Seq<Json>, p: Seq<char>)
    ensures
        first_death(ks, p) is None <==> forall|i: int| 0 <= i < ks.len() ==> #[trigger] ks[i].text_at("victim"@) != p,
        first_death(ks, p) is Some ==> ks.contains(first_death(ks, p)->0) && first_death(ks, p)->0.text_at("victim"@) == p,
    decreases ks.len(),
{
    if ks.len() > 0 {
        let rest = ks.drop_first();
        lemma_first_death_facts(rest, p);
        if ks[0].text_at("victim"@) != p {
            assert forall|i: int| 0 <= i < rest.len() implies rest[i] == ks[i + 1] by {}
            if first_death(ks, p) is Some {
                let d = first_death(ks, p)->0;
                let i = choose|i: int| 0 <= i < rest.len() && rest[i] == d;
                assert(ks[i + 1] == d);
            }
            if first_death(ks, p) is Some {
                let i = choose|i: int| 0 <= i < rest.len() && rest[i].text_at("victim"@) == p;
                assert(ks[i + 1].text_at("victim"@) == p);
            }
            if !(forall|i: int| 0 <= i < ks.len() ==> #[trigger] ks[i].text_at("victim"@) != p) {
                let i = choose|i: int| 0 <= i < ks.len() && #[trigger] ks[i].text_at("victim"@) == p;
                assert(rest[i - 1].text_at("victim"@) == p);
            }
        } else {
            assert(ks[0] == ks[0]);
        }
    }
}

/// What decides whether a round the player took part in counts toward KAST,
/// over the round's kills as listed under each player's stats.
proof fn lemma_kast_round_cases(st: Seq<Json>, p: Seq<char>)
    ensures
        round_kill_by(st, p) ==> kast_round(round_kills(st), p),
        round_assist_by(st, p) ==> kast_round(round_kills(st), p),
        !round_death_of(st, p) ==> kast_round(round_kills(st), p),
        round_all_deaths_traded(st, p) ==> kast_round(round_kills(st), p),
        !round_kill_by(st, p) && !round_assist_by(st, p) && round_death_of(st, p)
            && round_no_death_traded(st, p) ==> !kast_round(round_kills(st), p),
{
    let ks = round_kills(st);
    lemma_round_kills_listed(st);
    lemma_first_death_facts(ks, p);
    if round_kill_by(st, p) {
        let k = choose|k: Json| #[trigger] listed_kill(st, k) && k.text_at("killer"@) == p;
        assert(ks.contains(k));
        let i = choose|i: int| 0 <= i < ks.len() && ks[i] == k;
        assert(ks[i].text_at("killer"@) == p);
    }
    if round_assist_by(st, p) {
        let (k, y) = choose|k: Json, y: int|
            #![trigger listed_kill(st, k), arr_or_empty(k.field_arr("assistants"@))[y]]
            listed_kill(st, k) && 0 <= y < arr_or_empty(k.field_arr("assistants"@)).len()
                && arr_or_empty(k.field_arr("assistants"@))[y].str_of() == Some(p);
        assert(ks.contains(k));
        let i = choose|i: int| 0 <= i < ks.len() && ks[i] == k;
        assert(assisted_by(ks[i], p));
    }
    if !round_death_of(st, p) {
        assert forall|i: int| 0 <= i < ks.len() implies #[trigger] ks[i].text_at("victim"@) != p by {
            assert(ks.contains(ks[i]));
            assert(listed_kill(st, ks[i]));
        }
    }
    if first_death(ks, p) is Some {
        let d = first_death(ks, p)->0;
        assert(listed_kill(st, d));
        if round_all_deaths_traded(st, p) {
            assert(round_trade_of(st, d));
            let e = choose|e: Json|
                #[trigger] listed_kill(st, e) && e.text_at("victim"@) == d.text_at("killer"@)
                    && d.int_at("roundTime"@) <= e.int_at("roundTime"@) <= d.int_at("roundTime"@) + 3000;
            assert(ks.contains(e));
            let j = choose|j: int| 0 <= j < ks.len() && ks[j] == e;
            assert(ks[j].text_at("victim"@) == d.text_at("killer"@));
            assert(traded(ks, d));
        }
        if round_no_death_traded(st, p) {
            assert(!round_trade_of(st, d));
            if traded(ks, d) {
                let j = choose|j: int|
                    0 <= j < ks.len() && #[trigger] ks[j].text_at("victim"@) == d.text_at("killer"@)
                        && ks[j].int_at("roundTime"@) >= d.int_at("roundTime"@) && ks[j].int_at("roundTime"@)
                        <= d.int_at("roundTime"@) + trade_window();
                assert(ks.contains(ks[j]));
                assert(listed_kill(st, ks[j]));
            }
        }
    } else if round_death_of(st, p) {
        let d = choose|d: Json| #[trigger] listed_kill(st, d) && d.text_at("victim"@) == p;
        assert(ks.contains(d));
        let i = choose|i: int| 0 <= i < ks.len() && ks[i] == d;
        assert(ks[i].text_at("victim"@) == p);
    }
    if !round_kill_by(st, p) {
        assert forall|i: int| 0 <= i < ks.len() implies #[trigger] ks[i].text_at("killer"@) != p by {
            assert(ks.contains(ks[i]));
            assert(listed_kill(st, ks[i]));
        }
    }
    if !round_assist_by(st, p) {
        assert forall|i: int| 0 <= i < ks.len() implies !#[trigger] assisted_by(ks[i], p) by {
            assert(ks.contains(ks[i]));
            assert(listed_kill(st, ks[i]));
            if assisted_by(ks[i], p) {
                let y = choose|y: int|
                    0 <= y < arr_or_empty(ks[i].field_arr("assistants"@)).len() && #[trigger] arr_or_empty(
                        ks[i].field_arr("assistants"@),
                    )[y].str_of() == Some(p);
                assert(round_assist_by(st, p));
            }
        }
    }
}

/// KAST, round by round. A round the player has no stats in (or one without
/// player stats) changes neither count. A round the player took part in adds
/// one to the rounds present, and one to the qualifying rounds when the
/// player got a Kill or an Assist in it, Survived it, or was Traded (every
/// death of the player avenged by a kill on its killer within three
/// seconds); a round with none of these, where the player died and no death
/// was avenged, adds nothing to the qualifying rounds.
pub proof fn law_kast_round_by_round(rounds: Seq<Json>, r: Json, p: Seq<char>)
    ensures
        ({
            let before = kast_fold(rounds, p);
            let after = kast_fold(rounds.push(r), p);
            match r.field_arr("playerStats"@) {
                None => after == before,
                Some(st) => {
                    &&& !round_has(st, p) ==> after == before
                    &&& round_has(st, p) && (round_kill_by(st, p) || round_assist_by(st, p)
                        || !round_death_of(st, p) || round_all_deaths_traded(st, p)) ==> after == (
                    before.0 + 1, before.1 + 1)
                    &&& round_has(st, p) && !round_kill_by(st, p) && !round_assist_by(st, p)
                        && round_death_of(st, p) && round_no_death_traded(st, p) ==> after == (
                    before.0, before.1 + 1)
                },
            }
        }),
{
    let rs = rounds.push(r);
    assert(rs.drop_last() =~= rounds);
    assert(rs.last() == r);
    match r.field_arr("playerStats"@) {
        None => {},
        Some(st) => {
            lemma_kast_round_cases(st, p);
            assert(round_has(st, p) == is_present(st, p));
        },
    }
}

/// The updates that earned RR: the games won.
pub open spec fn rr_gained(ms: Seq<Json>) -> Seq<Json> {
    ms.filter(|m: Json| m.int_at("RankedRatingEarned"@) > 0)
}

/// The updates that lost RR: the games lost.
pub open spec fn rr_lost(ms: Seq<Json>) -> Seq<Json> {
    ms.filter(|m: Json| m.int_at("RankedRatingEarned"@) < 0)
}

/// A game that earned RR is a win and one that lost RR a loss: the record
/// counts the updates with positive and with negative `RankedRatingEarned`;
/// updates with none (draws, placements) count as neither.
pub proof fn law_win_loss_counts(ms: Seq<Json>)
    ensures
        win_loss_spec(ms) == (rr_gained(ms).len(), rr_lost(ms).len()),
        (forall|i: int| 0 <= i < ms.len() ==> #[trigger] ms[i].int_at("RankedRatingEarned"@) > 0)
            ==> win_loss_spec(ms) == (ms.len(), 0nat),
        (forall|i: int| 0 <= i < ms.len() ==> #[trigger] ms[i].int_at("RankedRatingEarned"@) < 0)
            ==> win_loss_spec(ms) == (0nat, ms.len()),
    decreases ms.len(),
{
    reveal_with_fuel(Seq::filter, 2);
    if ms.len() > 0 {
        let pre = ms.drop_last();
        law_win_loss_counts(pre);
        assert forall|i: int| 0 <= i < pre.len() implies pre[i] == ms[i] by {}
        if forall|i: int| 0 <= i < ms.len() ==> #[trigger] ms[i].int_at("RankedRatingEarned"@) > 0 {
            assert(ms.last() == ms[ms.len() - 1]);
            assert forall|i: int| 0 <= i < pre.len() implies #[trigger] pre[i].int_at(
                "RankedRatingEarned"@,
            ) > 0 by {
                assert(ms[i].int_at("RankedRatingEarned"@) > 0);
            }
        }
        if forall|i: int| 0 <= i < ms.len() ==> #[trigger] ms[i].int_at("RankedRatingEarned"@) < 0 {
            assert(ms.last() == ms[ms.len() - 1]);
            assert forall|i: int| 0 <= i < pre.len() implies #[trigger] pre[i].int_at(
                "RankedRatingEarned"@,
            ) < 0 by {
                assert(ms[i].int_at("RankedRatingEarned"@) < 0);
            }
        }
    }
}

/// The recent form's record: its wins are the recent updates that earned RR
/// and its losses those that lost RR.
pub proof fn law_recent_record(f: RecentForm, ms: Seq<Json>, ds: Seq<Json>, puuid: Seq<char>)
    requires
        form_ok(f, ms, ds, puuid),
    ensures
        f.wins == rr_gained(ms).len(),
        f.losses == rr_lost(ms).len(),
{
    law_win_loss_counts(ms);
}

/// The smurf read is a score from 0 to 100, and 0 for an unranked player.
pub proof fn law_smurf_range(level: u32, tier: u32, games: u32, win_rate: u32, premium: bool)
    ensures
        smurf_score_spec(level, tier, games, win_rate, premium) <= 100,
        tier == 0 ==> smurf_score_spec(level, tier, games, win_rate, premium) == 0,
        level >= 45 && games > 40 && win_rate < 60 ==> smurf_score_spec(
            level,
            tier,
            games,
            win_rate,
            premium,
        ) == 0,
{
}

/// A premium melee counts only on a fresh account (level 1 to 29): there it
/// adds ten points (up to the cap of 100); at any other level, or hidden
/// (0), it changes nothing.
pub proof fn law_smurf_premium(level: u32, tier: u32, games: u32, win_rate: u32)
    ensures
        level == 0 || level >= 30 || tier == 0 ==> smurf_score_spec(level, tier, games, win_rate, true)
            == smurf_score_spec(level, tier, games, win_rate, false),
        0 < level < 30 && tier > 0 ==> {
            let without = smurf_score_spec(level, tier, games, win_rate, false);
            let with = smurf_score_spec(level, tier, games, win_rate, true);
            &&& without <= with <= without + 10
            &&& without <= 90 ==> with == without + 10
        },
{
}

/// A hidden account level (0) gives no level-based evidence: it scores as
/// an account of level 45 or more without a premium melee.
pub proof fn law_smurf_hidden_level(tier: u32, games: u32, win_rate: u32, premium: bool)
    ensures
        smurf_score_spec(0, tier, games, win_rate, premium) == smurf_score_spec(
            45,
            tier,
            games,
            win_rate,
            false,
        ),
{
}

/// A lower (known) account level never makes the score lower, nor does a
/// lower win rate make it higher.
pub proof fn law_smurf_monotone(
    l1: u32,
    l2: u32,
    w1: u32,
    w2: u32,
    tier: u32,
    games: u32,
    premium: bool,
)
    ensures
        0 < l1 <= l2 ==> smurf_score_spec(l2, tier, games, w1, premium) <= smurf_score_spec(
            l1,
            tier,
            games,
            w1,
            premium,
        ),
        w1 <= w2 ==> smurf_score_spec(l1, tier, games, w1, premium) <= smurf_score_spec(
            l1,
            tier,
            games,
            w2,
            premium,
        ),
{
}

/// A match's KAST is the share, in whole percent rounded down, of the rounds
/// the player took part in that qualified: 100 when every one did, 0 when
/// none did; it is 0 for score races and for a player in no round.
pub proof fn law_match_kast_percent(detail: Json, puuid: Seq<char>, sd: StaticData)
    ensures
        ({
            let k = match_stats_spec(detail, puuid, sd).kast;
            let (q, p) = kast_spec(detail, puuid);
            let players = arr_or_empty(detail.field_arr("players"@));
            let queue_id = match detail.field("matchInfo"@) {
                Some(m) => m.text_at("queueId"@),
                None => Seq::empty(),
            };
            let counted = first_subject(players, puuid) is Some && has_rounds_spec(queue_id) && p > 0;
            &&& k <= 100
            &&& counted ==> k * p <= q * 100 < (k + 1) * p
            &&& counted && q == p ==> k == 100
            &&& counted && q == 0 ==> k == 0
            &&& !counted ==> k == 0
        }),
{
    let (q, p) = kast_spec(detail, puuid);
    lemma_kast_fold_bound(rounds_of(detail), puuid);
    if p > 0 {
        assert(q * 100 / p <= 100) by (nonlinear_arith)
            requires
                q <= p,
                p > 0,
        ;
        let k = q * 100 / p;
        assert(k * p <= q * 100 < (k + 1) * p) by (nonlinear_arith)
            requires
                k == q * 100 / p,
                p > 0,
        ;
        if q == p {
            assert(p * 100 / p == 100) by (nonlinear_arith)
                requires
                    p > 0,
            ;
        }
    }
}

/// Each sign lifts the score by at least its own weight (up to the cap):
/// Diamond or higher (tier 18+) on a known level under 45 by twice the
/// missing levels; Ascendant or higher (tier 21+) with 1 to 40 games by the
/// games short of 40; a win rate of 60 or more over at least 5 games by the
/// points above 60. Below Diamond the account level only counts through a
/// premium melee, and under 5 games the win rate does not count.
pub proof fn law_smurf_signs(level: u32, tier: u32, games: u32, win_rate: u32, premium: bool)
    ensures
        ({
            let s = smurf_score_spec(level, tier, games, win_rate, premium);
            &&& tier >= 18 && 0 < level < 45 ==> s >= if (45 - level) * 2 > 100 {
                100
            } else {
                (45 - level) * 2
            }
            &&& tier >= 21 && 0 < games <= 40 ==> s >= 40 - games
            &&& tier > 0 && games >= 5 && win_rate >= 60 ==> s >= if win_rate - 60 > 100 {
                100
            } else {
                win_rate - 60
            }
            &&& 0 < tier < 18 ==> smurf_score_spec(level, tier, games, win_rate, false)
                == smurf_score_spec(45, tier, games, win_rate, false)
            &&& games < 5 ==> s == smurf_score_spec(level, tier, games, 0, premium)
        }),
{
}

} // verus!
