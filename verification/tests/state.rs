use peek::discord::{activity_text, large_asset, pick_app_id, Begin, Rpc};
use peek::encounter::EncounterStore;
use peek::fetcher::MatchStats;
use peek::local::basic_auth;
use peek::model::{MatchState, MatchView, PlayerRow};
use peek::orchestrator::{
    after_poll, assemble_view, clear_teams, finish_view, keep_self, note_encounters, poll_delay_ms,
    settle_outcomes, skin_match_id, Phase, PollState, RosterPlan,
};
use peek::retry::{on_status, retry_after, retry_step, Reply, RetryAction};

fn roster() -> Vec<(String, String, u32)> {
    vec![
        ("p1".to_string(), "Ace#NA1".to_string(), 24u32),
        ("p2".to_string(), "Bee#NA1".to_string(), 18u32),
    ]
}

#[test]
fn counts_and_records_outcome() {
    let mut s = EncounterStore::new();
    let roster = roster();
    assert_eq!(s.prior("p1"), (0, 0, 0));
    s.record_seen("m1", &roster, 100);
    assert_eq!(s.prior("p1"), (1, 0, 0));
    s.record_seen("m1", &roster, 200);
    assert_eq!(s.prior("p1"), (1, 0, 0));
    s.apply_outcome("m1", true);
    assert_eq!(s.prior("p1"), (1, 1, 0));
    s.apply_outcome("m1", true);
    assert_eq!(s.prior("p1"), (1, 1, 0));

    s.record_seen("m2", &roster, 300);
    s.apply_outcome("m2", false);
    assert_eq!(s.prior("p1"), (2, 1, 1));
}

#[test]
fn encounter_keeps_known_name_and_tier() {
    let mut s = EncounterStore::new();
    s.record_seen("m1", &roster(), 100);
    s.record_seen("m2", &[("p1".to_string(), String::new(), 0)], 200);
    let rec = &peek::assoc::lookup(&s.players, "p1").unwrap();
    assert_eq!(rec.name, "Ace#NA1");
    assert_eq!(rec.rank_tier, 24);
    assert_eq!(rec.last_seen, 200);
    assert_eq!(rec.seen, 2);
    assert!(s.pending_ids().contains(&"m2".to_string()));
}

#[test]
fn empty_match_id_and_unknown_outcome_change_nothing() {
    let mut s = EncounterStore::new();
    s.record_seen("", &roster(), 1);
    assert_eq!(s.prior("p1"), (0, 0, 0));
    s.apply_outcome("nope", true);
    assert!(s.pending_ids().is_empty());
    assert!(s.can_record(&roster(), 1));
    assert!(s.can_credit("nope", true));
}

fn row(puuid: &str, name: &str, tier: u32) -> PlayerRow {
    let mut r = PlayerRow::blank(puuid.to_string());
    r.name = name.to_string();
    r.rank_tier = tier;
    r
}

#[test]
fn encounter_pass_shows_prior_counts_then_records() {
    let mut store = EncounterStore::new();
    store.record_seen("old", &[("p1".to_string(), "Ace".to_string(), 10)], 5);
    store.apply_outcome("old", false);
    let mut rows = vec![row("me", "Me", 20), row("p1", "Ace", 12), row("p2", "Bee", 0)];
    let recorded = note_encounters(
        &mut rows,
        &mut store,
        MatchState::CoreGame,
        &Some("m9".to_string()),
        "me",
        77,
    );
    assert_eq!(recorded.len(), 2);
    assert_eq!((rows[1].encounters, rows[1].encounter_wins, rows[1].encounter_losses), (1, 0, 1));
    assert_eq!(rows[2].encounters, 0);
    assert_eq!(rows[0].encounters, 0);
    assert_eq!(store.prior("p1"), (2, 0, 1));
    // A pregame is not recorded.
    let mut rows2 = vec![row("p3", "Cee", 1)];
    note_encounters(&mut rows2, &mut store, MatchState::PreGame, &Some("m10".to_string()), "me", 78);
    assert_eq!(store.prior("p3"), (0, 0, 0));
}

#[test]
fn outcomes_settle_from_cached_stats() {
    let mut store = EncounterStore::new();
    store.record_seen("m1", &roster(), 1);
    store.record_seen("m2", &roster(), 2);
    let mut won = MatchStats::empty();
    won.won = true;
    let cache = vec![("m1".to_string(), won)];
    settle_outcomes(&mut store, &cache);
    assert_eq!(store.prior("p2"), (2, 1, 0));
    assert_eq!(store.pending_ids(), vec!["m2".to_string()]);
}

#[test]
fn assembles_view_passthrough() {
    let v = assemble_view(MatchState::CoreGame, "Competitive".to_string(), Vec::new(), false);
    assert_eq!(v.state, MatchState::CoreGame);
    assert_eq!(v.mode, "Competitive");
    assert!(!v.stale);
    assert!(v.players.is_empty());
}

#[test]
fn profile_refreshes_every_tenth_poll() {
    let mut st = PollState::new();
    assert!(st.tick_self(false));
    let mut refreshed = 0;
    for _ in 0..20 {
        if st.tick_self(true) {
            refreshed += 1;
        }
    }
    assert_eq!(refreshed, 2);
    st.self_tick = u32::MAX;
    st.tick_self(true);
    assert_eq!(st.self_tick, 0);
}

fn in_game_view() -> MatchView {
    assemble_view(MatchState::CoreGame, String::new(), vec![PlayerRow::blank("x".to_string())], false)
}

#[test]
fn presence_decides_menu_reuse_or_fetch() {
    let mut st = PollState::new();
    st.last_match_id = Some("m".to_string());
    assert!(matches!(st.on_presence("MENUS", &in_game_view(), false), Phase::Menu));
    assert!(st.last_match_id.is_none());
    assert!(matches!(st.on_presence("INGAME", &in_game_view(), false), Phase::Fetch));
    assert!(matches!(st.on_presence("INGAME", &in_game_view(), false), Phase::Reuse));
    // With combat stats on, the roster is reused only once they are all in.
    st.last_match_id = Some("m".to_string());
    assert!(matches!(st.on_presence("INGAME", &in_game_view(), true), Phase::Fetch));
    st.combat_done = Some("m".to_string());
    assert!(matches!(st.on_presence("INGAME", &in_game_view(), true), Phase::Reuse));
    assert!(matches!(st.on_presence("PREGAME", &in_game_view(), false), Phase::Fetch));
}

#[test]
fn roster_plan_refreshes_same_match_only() {
    let mut st = PollState::new();
    assert!(matches!(st.on_roster(&Some("m".to_string()), false, false), RosterPlan::Rebuild));
    assert_eq!(st.last_match_id.as_deref(), Some("m"));
    assert!(matches!(st.on_roster(&Some("m".to_string()), false, true), RosterPlan::Refresh));
    assert!(matches!(st.on_roster(&Some("n".to_string()), false, true), RosterPlan::Rebuild));
    assert!(matches!(st.on_roster(&Some("n".to_string()), true, true), RosterPlan::Empty));
    assert!(st.last_match_id.is_none());
}

#[test]
fn combat_stats_come_in_chunks_once_per_player() {
    let mut st = PollState::new();
    let mut rows: Vec<PlayerRow> = ["a", "b", "c", "d", "e"]
        .iter()
        .map(|p| PlayerRow::blank(p.to_string()))
        .collect();
    rows[1].has_combat = true;
    let mid = Some("m".to_string());
    let (chunk, loading) = st.combat_chunk(&rows, MatchState::CoreGame, true, false, &mid);
    assert!(chunk.is_empty() && loading);
    let (chunk, loading) = st.combat_chunk(&rows, MatchState::CoreGame, true, true, &mid);
    assert_eq!(chunk, vec!["a".to_string(), "c".to_string(), "d".to_string()]);
    assert!(loading);
    let (chunk, _) = st.combat_chunk(&rows, MatchState::CoreGame, true, true, &mid);
    assert_eq!(chunk, vec!["e".to_string()]);
    let (chunk, loading) = st.combat_chunk(&rows, MatchState::CoreGame, true, true, &mid);
    assert!(chunk.is_empty() && !loading);
    assert_eq!(st.combat_done.as_deref(), Some("m"));
    let (chunk, loading) = st.combat_chunk(&rows, MatchState::Menu, true, true, &mid);
    assert!(chunk.is_empty() && !loading);
}

#[test]
fn failed_poll_shows_stale_view_or_nothing() {
    let last = in_game_view();
    let (shown, kept) = after_poll(&last, None);
    assert!(shown.stale && !kept.stale);
    assert_eq!(shown.players.len(), 1);
    let empty = assemble_view(MatchState::Menu, String::new(), Vec::new(), false);
    let (shown, _) = after_poll(&empty, None);
    assert_eq!(shown.state, MatchState::NoGame);
    let mut busy = in_game_view();
    busy.combat_loading = true;
    assert_eq!(poll_delay_ms(&busy), 250);
    assert_eq!(poll_delay_ms(&last), 3000);
}

#[test]
fn free_for_all_clears_teams() {
    let mut rows = vec![PlayerRow::blank("a".to_string())];
    rows[0].team = "Ally".to_string();
    clear_teams(&mut rows);
    assert_eq!(rows[0].team, "");
}

#[test]
fn discord_status_text() {
    let mut v = assemble_view(MatchState::CoreGame, String::new(), Vec::new(), false);
    assert_eq!(activity_text(&v), ("Idle".to_string(), String::new()));
    v.activity = "Competitive - Ascent".to_string();
    v.ally_score = 7;
    v.enemy_score = 5;
    let mut me = PlayerRow::blank("me".to_string());
    me.rank_tier = 24;
    me.rank_name = "Immortal 1".to_string();
    me.rr = 40;
    v.me = Some(me);
    assert_eq!(
        activity_text(&v),
        ("Competitive - Ascent  7 - 5".to_string(), "Immortal 1 - 40 RR".to_string())
    );
    assert_eq!(large_asset(&v), ("logo".to_string(), "Peek".to_string()));
    v.map_image = "a.png".to_string();
    assert_eq!(large_asset(&v), ("a.png".to_string(), "Peek".to_string()));
    assert_eq!(pick_app_id(Some(String::new())), "1519865652763033752");
    assert_eq!(pick_app_id(Some("42".to_string())), "42");
}

#[test]
fn discord_sends_on_change_and_keepalive() {
    let mut rpc = Rpc::new("app".to_string(), 1000);
    assert!(matches!(rpc.begin(true), Begin::Connect));
    rpc.on_connect(true, true);
    assert!(matches!(rpc.begin(true), Begin::Ready));
    let v = assemble_view(MatchState::Menu, String::new(), Vec::new(), false);
    let s = rpc.prepare(&v).unwrap();
    assert_eq!(s.key, "Idle||logo||0");
    rpc.on_sent(s.key.clone(), true);
    // Unchanged: nothing until the tenth update re-sends.
    for _ in 0..8 {
        assert!(rpc.prepare(&v).is_none());
    }
    assert!(rpc.prepare(&v).is_some());
    // A failed send drops the connection and forces a resend.
    rpc.on_sent("x".to_string(), false);
    assert!(!rpc.connected);
    assert!(matches!(rpc.begin(true), Begin::Connect));
    // Turning presence off clears once.
    assert!(matches!(rpc.begin(false), Begin::ClearOff));
    assert!(matches!(rpc.begin(false), Begin::StayOff));
    let mut none = Rpc::new(String::new(), 0);
    assert!(matches!(none.begin(true), Begin::Skip));
}

#[test]
fn retry_decisions() {
    assert!(matches!(on_status(429), Reply::RateLimited));
    assert!(matches!(on_status(200), Reply::Success));
    assert!(matches!(on_status(204), Reply::Success));
    assert!(matches!(on_status(404), Reply::Fail));
    assert_eq!(retry_after(Some("12")), 12);
    assert_eq!(retry_after(Some("+7")), 7);
    assert_eq!(retry_after(Some("soon")), 5);
    assert_eq!(retry_after(Some("18446744073709551616")), 5);
    assert_eq!(retry_after(None), 5);
}

#[test]
fn local_auth_header() {
    assert_eq!(basic_auth("pw"), "Basic cmlvdDpwdw==");
}

#[test]
fn retry_steps() {
    assert!(matches!(retry_step(0, 429, Some("2")), RetryAction::Wait { secs: 3, again: true }));
    assert!(matches!(retry_step(1, 429, None), RetryAction::Wait { secs: 6, again: true }));
    assert!(matches!(retry_step(2, 429, None), RetryAction::Wait { secs: 6, again: false }));
    assert!(matches!(retry_step(0, 200, None), RetryAction::Read));
    assert!(matches!(retry_step(2, 204, Some("9")), RetryAction::Read));
    assert!(matches!(retry_step(0, 404, None), RetryAction::GiveUp));
    assert!(matches!(retry_step(0, 500, Some("1")), RetryAction::GiveUp));
}

#[test]
fn pending_ids_follow_counts_and_results() {
    let mut s = EncounterStore::new();
    s.record_seen("a", &roster(), 1);
    s.record_seen("b", &roster(), 2);
    s.record_seen("", &roster(), 3);
    s.apply_outcome("a", true);
    s.record_seen("a", &roster(), 4);
    s.apply_outcome("c", false);
    s.record_seen("c", &roster(), 5);
    let mut ids = s.pending_ids();
    ids.sort();
    assert_eq!(ids, vec!["b".to_string(), "c".to_string()]);
}

#[test]
fn local_auth_header_padding() {
    assert_eq!(basic_auth(""), "Basic cmlvdDo=");
    assert_eq!(basic_auth("a"), "Basic cmlvdDph");
    assert_eq!(basic_auth("ab"), "Basic cmlvdDphYg==");
}

#[test]
fn discord_reconnect_resends_and_off_then_on() {
    let mut rpc = Rpc::new("app".to_string(), 5);
    let v = assemble_view(MatchState::Menu, String::new(), Vec::new(), false);
    rpc.begin(true);
    rpc.on_connect(true, true);
    let s = rpc.prepare(&v).unwrap();
    rpc.on_sent(s.key.clone(), true);
    assert!(rpc.prepare(&v).is_none());
    // A failed connection leaves everything as it was.
    let mut cold = Rpc::new("app".to_string(), 5);
    assert!(matches!(cold.begin(true), Begin::Connect));
    cold.on_connect(false, true);
    assert!(!cold.connected);
    assert_eq!(cold.last_key, "");
    // A fresh connection forgets the last status, so the same one goes out again.
    rpc.on_sent("k".to_string(), false);
    assert!(matches!(rpc.begin(true), Begin::Connect));
    rpc.on_connect(true, true);
    assert!(rpc.prepare(&v).is_some());
    // Off: cleared once, the off key kept across a connection made to clear.
    let mut off = Rpc::new("app".to_string(), 5);
    assert!(matches!(off.begin(false), Begin::ClearOff));
    off.on_connect(true, false);
    assert_eq!(off.last_key, "__rpc_off__");
    assert!(matches!(off.begin(false), Begin::StayOff));
    // On again: the status differs from the off key, so it is sent.
    assert!(matches!(off.begin(true), Begin::Ready));
    assert!(off.prepare(&v).is_some());
}

#[test]
fn poll_view_helpers() {
    let last = Some(PlayerRow::blank("me".to_string()));
    let mut fresh = PlayerRow::blank("me".to_string());
    fresh.name = "New#1".to_string();
    assert_eq!(keep_self(Some(fresh), &last).unwrap().name, "New#1");
    assert_eq!(keep_self(None, &last).unwrap().puuid, "me");
    assert!(keep_self(None, &None).is_none());

    let id = Some("m7".to_string());
    assert_eq!(skin_match_id(MatchState::CoreGame, &id), Some("m7".to_string()));
    assert_eq!(skin_match_id(MatchState::PreGame, &id), None);
    assert_eq!(skin_match_id(MatchState::CoreGame, &None), None);

    let mut a = PlayerRow::blank("a".to_string());
    a.team = "Blue".to_string();
    let v = finish_view(MatchState::CoreGame, "Deathmatch".to_string(), vec![a.copy_row()], "deathmatch", 0, true);
    assert_eq!(v.players[0].team, "");
    assert!(v.combat_loading);
    let v = finish_view(MatchState::PreGame, "Competitive".to_string(), vec![a], "competitive", 42, false);
    assert_eq!(v.players[0].team, "Blue");
    assert_eq!(v.phase_time, 42);
    assert!(!v.combat_loading);
    assert_eq!(v.mode, "Competitive");
}
