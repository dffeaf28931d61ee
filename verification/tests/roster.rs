use peek::fetcher::RecentForm;
use peek::history::{apply_stats, merge_history, self_row};
use peek::fetcher::{MatchStats, Mmr};
use peek::model::{HistoryEntry, PlayerRow};
use peek::roster::{apply_parties, apply_recent, less_text};
use peek::static_cache::StaticData;

fn row(puuid: &str) -> PlayerRow {
    PlayerRow::blank(puuid.to_string())
}

fn mates(entries: &[(&str, &[&str])]) -> Vec<(String, Vec<String>)> {
    entries
        .iter()
        .map(|(k, v)| (k.to_string(), v.iter().map(|s| s.to_string()).collect()))
        .collect()
}

#[test]
fn infers_enemy_party_from_shared_history() {
    let mut rows = vec![row("a"), row("b"), row("c")];
    let party_map: Vec<(String, String)> = Vec::new();
    let m = mates(&[("a", &["b"])]);
    apply_parties(&mut rows, &party_map, &m);
    assert_eq!(rows[0].party_id, "h:a");
    assert_eq!(rows[1].party_id, "h:a");
    assert_eq!(rows[0].party_size, 2);
    assert_eq!(rows[1].party_size, 2);
    assert!(rows[2].party_id.is_empty());
    assert_eq!(rows[2].party_size, 1);
}

#[test]
fn presence_party_is_not_overwritten_by_inference() {
    let mut rows = vec![row("a"), row("b")];
    let party_map = vec![("a".to_string(), "real-party".to_string())];
    let m = mates(&[("a", &["b"])]);
    apply_parties(&mut rows, &party_map, &m);
    assert_eq!(rows[0].party_id, "real-party");
    assert_eq!(rows[0].party_size, 1);
    assert!(rows[1].party_id.is_empty());
    assert_eq!(rows[1].party_size, 1);
}

#[test]
fn lone_player_stays_size_one() {
    let mut rows = vec![row("a")];
    apply_parties(&mut rows, &Vec::new(), &Vec::new());
    assert!(rows[0].party_id.is_empty());
    assert_eq!(rows[0].party_size, 1);
}

#[test]
fn mate_links_chain_into_one_party_named_by_smallest_id() {
    // d lists c, c lists b: one group of three named after "b".
    let mut rows = vec![row("d"), row("c"), row("b"), row("z")];
    let m = mates(&[("d", &["c"]), ("c", &["b"])]);
    apply_parties(&mut rows, &Vec::new(), &m);
    for i in 0..3 {
        assert_eq!(rows[i].party_id, "h:b");
        assert_eq!(rows[i].party_size, 3);
    }
    assert!(rows[3].party_id.is_empty());
    assert_eq!(rows[3].party_size, 1);
}

#[test]
fn presence_parties_are_counted_by_shared_id() {
    let mut rows = vec![row("a"), row("b"), row("c")];
    let party_map = vec![
        ("a".to_string(), "p1".to_string()),
        ("b".to_string(), "p1".to_string()),
        ("c".to_string(), "p2".to_string()),
    ];
    apply_parties(&mut rows, &party_map, &Vec::new());
    assert_eq!(rows[0].party_size, 2);
    assert_eq!(rows[1].party_size, 2);
    assert_eq!(rows[2].party_size, 1);
    assert_eq!(rows[2].party_id, "p2");
}

#[test]
fn text_order_is_by_code_point() {
    assert!(less_text("a", "b"));
    assert!(less_text("a", "ab"));
    assert!(!less_text("ab", "a"));
    assert!(!less_text("b", "b"));
    assert!(less_text("Z", "a"));
}

fn form(kills: u32, level: u32, mates: &[&str]) -> RecentForm {
    RecentForm {
        kills,
        deaths: 4,
        hs: 30,
        acs: 250,
        adr: 150,
        kast: 70,
        assists: 2,
        streak: 2,
        rr_trend: 35,
        wins: 3,
        losses: 1,
        mates: mates.iter().map(|s| s.to_string()).collect(),
        level,
    }
}

#[test]
fn recent_form_fills_rows_and_groups_mates() {
    let mut rows = vec![row("a"), row("b"), row("c")];
    rows[1].account_level = 50;
    let updates = vec![
        ("a".to_string(), Some(form(12, 80, &["b"]))),
        ("b".to_string(), Some(form(7, 90, &[]))),
        ("c".to_string(), None),
    ];
    let mut table: Vec<(String, Vec<String>)> = Vec::new();
    apply_recent(&mut rows, &updates, &mut table, &Vec::new());
    assert_eq!(rows[0].last_kills, 12);
    assert!(rows[0].has_combat);
    // A hidden level is filled from history; a visible one is kept.
    assert_eq!(rows[0].account_level, 80);
    assert_eq!(rows[1].account_level, 50);
    assert_eq!(rows[1].last_kills, 7);
    assert!(!rows[2].has_combat);
    assert_eq!(rows[0].party_id, "h:a");
    assert_eq!(rows[1].party_id, "h:a");
    assert_eq!(table.len(), 2);
}

#[test]
fn stats_merge_keeps_map_when_detail_has_none() {
    let mut h = HistoryEntry::blank();
    h.map = "Split".to_string();
    let mut s = MatchStats::empty();
    s.kills = 9;
    s.won = true;
    apply_stats(&mut h, &s);
    assert_eq!(h.map, "Split");
    assert_eq!(h.kills, 9);
    assert!(h.won && h.has_stats);
    s.map = "Ascent".to_string();
    apply_stats(&mut h, &s);
    assert_eq!(h.map, "Ascent");
}

#[test]
fn history_merge_follows_line_order() {
    let mut entries = vec![HistoryEntry::blank(), HistoryEntry::blank(), HistoryEntry::blank()];
    let mut s = MatchStats::empty();
    s.kills = 4;
    let stats = vec![None, Some(s)];
    merge_history(&mut entries, &stats);
    assert!(!entries[0].has_stats);
    assert!(entries[1].has_stats);
    assert_eq!(entries[1].kills, 4);
    assert!(!entries[2].has_stats);
}

#[test]
fn own_row_from_profile_data() {
    let sd = StaticData {
        tiers: vec![(24u32, "Immortal 1".to_string())],
        card_arts: vec![("card".to_string(), "wide.png".to_string())],
        ..StaticData::empty()
    };
    let mmr = Mmr {
        tier: 24,
        rr: 40,
        peak: 24,
        peak_season: String::new(),
        wins: 6,
        games: 10,
        leaderboard: 0,
    };
    let names = vec![("me".to_string(), "Me#1".to_string())];
    let party = vec![("me".to_string(), "party-x".to_string())];
    let r = self_row("me", &mmr, &names, 120, "card", &Some(form(15, 0, &[])), &sd, &party);
    assert_eq!(r.name, "Me#1");
    assert_eq!(r.rank_name, "Immortal 1");
    assert_eq!(r.win_rate, 60);
    assert_eq!(r.player_card, "wide.png");
    assert_eq!(r.party_id, "party-x");
    assert_eq!(r.account_level, 120);
    assert_eq!(r.last_kills, 15);
    assert_eq!(r.last_acs, 0);
    assert!(r.has_combat);
    let r = self_row("me", &mmr, &Vec::new(), 0, "", &None, &sd, &Vec::new());
    assert_eq!(r.name, "");
    assert!(!r.has_combat);
}

#[test]
fn resolving_parties_twice_changes_nothing() {
    let mut rows = vec![row("d"), row("c"), row("b"), row("a")];
    let party_map = vec![("a".to_string(), "p".to_string())];
    let m = mates(&[("d", &["c"]), ("b", &["c"])]);
    apply_parties(&mut rows, &party_map, &m);
    let first: Vec<(String, u32)> = rows.iter().map(|r| (r.party_id.clone(), r.party_size)).collect();
    apply_parties(&mut rows, &party_map, &m);
    let second: Vec<(String, u32)> = rows.iter().map(|r| (r.party_id.clone(), r.party_size)).collect();
    assert_eq!(first, second);
    assert_eq!(first[0], ("h:b".to_string(), 3));
    assert_eq!(first[3], ("p".to_string(), 1));
}
