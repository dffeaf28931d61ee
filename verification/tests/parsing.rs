use peek::assoc::{get_text, lookup};
use peek::client_version::{parse_region_from_log, parse_version, parse_version_from_log, pick_region, Region};
use peek::fetcher::{
    kast_rounds, parse_account_level, parse_history, parse_match_stats, parse_mmr, parse_names,
    smurf_score, stats_fit, streak_and_trend, win_rate, Mmr,
};
use peek::history::{comp_ids, current_act, loadout_card, mode_filter, mode_history};
use peek::json::Json;
use peek::match_state::parse_match_players;
use peek::presence::{describe_activity, has_rounds, is_ffa, mode_name, parse_private, private_payload};
use peek::static_cache::{
    build_static, parse_agents, parse_map_images, parse_maps, parse_seasons, parse_skins,
    parse_tier_colors, parse_tiers, tier_colors_sliceable, StaticData,
};
use serde_json::Value;

fn conv(v: &Value) -> Json {
    match v {
        Value::Null => Json::Null,
        Value::Bool(b) => Json::Bool(*b),
        Value::Number(n) => {
            if let Some(u) = n.as_u64() {
                Json::UInt(u)
            } else if let Some(i) = n.as_i64() {
                Json::Neg(i)
            } else {
                Json::Float
            }
        }
        Value::String(s) => Json::Str(s.clone()),
        Value::Array(a) => Json::Arr(a.iter().map(conv).collect()),
        Value::Object(o) => Json::Obj(o.iter().map(|(k, v)| (k.clone(), conv(v))).collect()),
    }
}

fn parse(text: &str) -> Json {
    conv(&serde_json::from_str::<Value>(text).unwrap())
}

#[test]
fn builds_pvp_bases() {
    let r = Region {
        region: "na".into(),
        shard: "na".into(),
    };
    assert_eq!(r.pd_base(), "https://pd.na.a.pvp.net");
    assert_eq!(r.glz_base(), "https://glz-na-1.na.a.pvp.net");
    assert_eq!(r.shared_base(), "https://shared.na.a.pvp.net");
}

#[test]
fn parses_region_from_log_line() {
    let line = "info: connecting to https://glz-eu-1.eu.a.pvp.net/something";
    let r = parse_region_from_log(line).unwrap();
    assert_eq!(r.region, "eu");
    assert_eq!(r.shard, "eu");
}

#[test]
fn region_from_log_handles_distinct_shard() {
    let line = "https://glz-na-1.na.a.pvp.net";
    let r = parse_region_from_log(line).unwrap();
    assert_eq!(r.region, "na");
    assert_eq!(r.shard, "na");
}

#[test]
fn region_from_log_none_when_absent() {
    assert!(parse_region_from_log("no url here").is_none());
}

#[test]
fn parses_version() {
    let v = parse(r#"{"data":{"riotClientVersion":"release-09.00-x"}}"#);
    assert_eq!(parse_version(&v).unwrap(), "release-09.00-x");
}

#[test]
fn parses_version_from_log_line() {
    let log = "info: branch release-13.00-shipping-31-1\nlater: release-13.00-shipping-32-4990475 connected\n";
    assert_eq!(
        parse_version_from_log(log).unwrap(),
        "release-13.00-shipping-32-4990475"
    );
    assert!(parse_version_from_log("no version here").is_none());
}

#[test]
fn region_from_log_with_other_region_and_shard() {
    let r = parse_region_from_log("x https://glz-latam-1.na.a.pvp.net y").unwrap();
    assert_eq!(r.region, "latam");
    assert_eq!(r.shard, "na");
    assert!(parse_region_from_log("https://glz--1.na.a.pvp.net").is_none());
}

#[test]
fn region_choice_prefers_configured_then_log_then_default() {
    let r = pick_region(Some("eu".to_string()), None, None);
    assert_eq!((r.region.as_str(), r.shard.as_str()), ("eu", "eu"));
    let r = pick_region(Some("latam".to_string()), Some("na".to_string()), None);
    assert_eq!((r.region.as_str(), r.shard.as_str()), ("latam", "na"));
    let log = Region { region: "ap".into(), shard: "ap".into() };
    let r = pick_region(None, Some("na".to_string()), Some(log));
    assert_eq!((r.region.as_str(), r.shard.as_str()), ("ap", "ap"));
    let r = pick_region(None, None, None);
    assert_eq!((r.region.as_str(), r.shard.as_str()), ("na", "na"));
}

#[test]
fn version_from_log_skips_bare_release() {
    assert!(parse_version_from_log("release- and release-13.00").is_none());
    assert_eq!(
        parse_version_from_log("release-1-shipping-2;").unwrap(),
        "release-1-shipping-2"
    );
}

#[test]
fn kast_counts_kill_survive_and_trade() {
    let v = parse(
        r#"{"roundResults":[
          {"playerStats":[
            {"subject":"p","kills":[{"killer":"p","victim":"e","roundTime":1000,"assistants":[]}]},
            {"subject":"e","kills":[]}
          ]},
          {"playerStats":[
            {"subject":"p","kills":[]},
            {"subject":"e","kills":[{"killer":"e","victim":"p","roundTime":2000,"assistants":[]}]}
          ]},
          {"playerStats":[
            {"subject":"p","kills":[]},
            {"subject":"t","kills":[{"killer":"t","victim":"e","roundTime":2500,"assistants":[]}]},
            {"subject":"e","kills":[{"killer":"e","victim":"p","roundTime":1500,"assistants":[]}]}
          ]}
        ]}"#,
    );
    assert_eq!(kast_rounds(&v, "p"), (2, 3));
}

#[test]
fn kast_misses_a_late_trade() {
    let v = parse(
        r#"{"roundResults":[
          {"playerStats":[
            {"subject":"p","kills":[]},
            {"subject":"t","kills":[{"killer":"t","victim":"e","roundTime":5000,"assistants":[]}]},
            {"subject":"e","kills":[{"killer":"e","victim":"p","roundTime":1500,"assistants":[]}]}
          ]},
          {"playerStats":[{"subject":"q","kills":[]}]}
        ]}"#,
    );
    assert_eq!(kast_rounds(&v, "p"), (0, 1));
}

#[test]
fn parses_mmr_current_and_peak() {
    let v = parse(
        r#"{
          "LatestCompetitiveUpdate":{"TierAfterUpdate":23,"RankedRatingAfterUpdate":42,"SeasonID":"s2"},
          "QueueSkills":{"competitive":{"SeasonalInfoBySeasonID":{
            "s1":{"CompetitiveTier":18,"WinsByTier":{"17":3,"18":5}},
            "s2":{"CompetitiveTier":23,"RankedRating":55,"WinsByTier":{"24":4,"25":2},"NumberOfWins":7,"NumberOfWinsWithPlacements":10,"NumberOfGames":15,"LeaderboardRank":0}
          }}}}"#,
    );
    let m = parse_mmr(&v, "s2");
    assert_eq!(m.tier, 23);
    assert_eq!(m.rr, 55);
    assert_eq!(m.peak, 25);
    assert_eq!(m.peak_season, "s2");
    assert_eq!(m.wins, 10);
    assert_eq!(m.games, 15);
    assert_eq!(win_rate(&m), 66);
}

#[test]
fn parses_mmr_unranked_when_act_absent() {
    let v = parse(
        r#"{
          "LatestCompetitiveUpdate":{"TierAfterUpdate":23,"RankedRatingAfterUpdate":42,"SeasonID":"s2"},
          "QueueSkills":{"competitive":{"SeasonalInfoBySeasonID":{
            "s1":{"CompetitiveTier":18,"WinsByTier":{"17":3,"18":5}},
            "s2":{"CompetitiveTier":23,"WinsByTier":{"24":4,"25":2}}
          }}}}"#,
    );
    let m = parse_mmr(&v, "s3");
    assert_eq!(m.tier, 0);
    assert_eq!(m.rr, 0);
    assert_eq!(m.games, 0);
    assert_eq!(m.wins, 0);
    assert_eq!(m.peak, 25);
    assert_eq!(m.peak_season, "s2");
}

#[test]
fn parses_mmr_falls_back_without_act() {
    let v = parse(
        r#"{
          "LatestCompetitiveUpdate":{"TierAfterUpdate":23,"RankedRatingAfterUpdate":42,"SeasonID":"s2"},
          "QueueSkills":{"competitive":{"SeasonalInfoBySeasonID":{
            "s2":{"CompetitiveTier":23,"WinsByTier":{"24":4,"25":2},"NumberOfWinsWithPlacements":10,"NumberOfGames":15}
          }}}}"#,
    );
    let m = parse_mmr(&v, "");
    assert_eq!(m.tier, 23);
    assert_eq!(m.rr, 42);
    assert_eq!(m.games, 15);
    assert_eq!(m.wins, 10);
    assert_eq!(m.peak, 25);
}

#[test]
fn parses_mmr_handles_missing() {
    let v = parse("{}");
    assert_eq!(parse_mmr(&v, ""), Mmr::default());
}

#[test]
fn win_rate_rounds_down_and_is_zero_without_games() {
    let mut m = Mmr::default();
    assert_eq!(win_rate(&m), 0);
    m.wins = 2;
    m.games = 3;
    assert_eq!(win_rate(&m), 66);
    m.wins = 3;
    assert_eq!(win_rate(&m), 100);
}

#[test]
fn parses_history_rr_changes() {
    let sd = StaticData {
        tiers: vec![(18u32, "Diamond 1".to_string())],
        maps: vec![("/Game/Maps/Bonsai/Bonsai".to_string(), "Split".to_string())],
        ..StaticData::empty()
    };
    let v = parse(
        r#"{"Matches":[
            {"MapID":"/Game/Maps/Bonsai/Bonsai","RankedRatingEarned":18,"TierAfterUpdate":18},
            {"MapID":"/Game/Maps/Bonsai/Bonsai","RankedRatingEarned":-21,"TierAfterUpdate":18}
        ]}"#,
    );
    let hist = parse_history(&v, &sd);
    assert_eq!(hist.len(), 2);
    assert_eq!(hist[0].rr_change, 18);
    assert_eq!(hist[0].map, "Split");
    assert_eq!(hist[0].rank_name, "Diamond 1");
    assert_eq!(hist[1].rr_change, -21);
}

#[test]
fn parses_account_level() {
    let v = parse(r#"{"Progress":{"Level":237,"XP":1200}}"#);
    assert_eq!(parse_account_level(&v), 237);
    assert_eq!(parse_account_level(&parse("{}")), 0);
}

#[test]
fn parses_names() {
    let v = parse(r#"[{"Subject":"p1","GameName":"Ace","TagLine":"NA1"}]"#);
    let m = parse_names(&v);
    assert_eq!(get_text(&m, "p1").unwrap(), "Ace#NA1");
}

fn rr_matches(values: &[i64]) -> Vec<Json> {
    values
        .iter()
        .map(|v| {
            let n = if *v >= 0 { Json::UInt(*v as u64) } else { Json::Neg(*v) };
            Json::Obj(vec![("RankedRatingEarned".to_string(), n)])
        })
        .collect()
}

#[test]
fn streak_counts_leading_win_run() {
    let (streak, trend) = streak_and_trend(&rr_matches(&[20, 18, 15, -12]));
    assert_eq!(streak, 3);
    assert_eq!(trend, 41);
}

#[test]
fn streak_counts_leading_loss_run() {
    let (streak, trend) = streak_and_trend(&rr_matches(&[-10, -15, 20]));
    assert_eq!(streak, -2);
    assert_eq!(trend, -5);
}

#[test]
fn streak_zero_when_latest_breaks_even() {
    let (streak, trend) = streak_and_trend(&rr_matches(&[0, 20, 18]));
    assert_eq!(streak, 0);
    assert_eq!(trend, 38);
}

#[test]
fn smurf_flags_obvious_smurf() {
    let score = smurf_score(22, 24, 25, 70, false);
    assert!(score >= 50, "expected a high smurf score, got {score}");
}

#[test]
fn smurf_clears_normal_account() {
    assert_eq!(smurf_score(200, 12, 300, 50, false), 0);
}

#[test]
fn smurf_score_exact_and_capped() {
    // (45 - 22) * 2 + (40 - 25) + (70 - 60) = 71
    assert_eq!(smurf_score(22, 24, 25, 70, false), 71);
    // Premium melee on a fresh account adds 10.
    assert_eq!(smurf_score(22, 24, 25, 70, true), 81);
    // Unranked scores nothing.
    assert_eq!(smurf_score(1, 0, 1, 100, true), 0);
    // Everything at once is capped at 100.
    assert_eq!(smurf_score(1, 27, 1, 100, true), 100);
}

#[test]
fn parses_match_stats_with_sorted_scoreboard() {
    let v = parse(
        r#"{"matchInfo":{"mapId":"/Game/Maps/Ascent/Ascent","queueId":"competitive"},
            "players":[
              {"subject":"me","teamId":"Blue","characterId":"jett","gameName":"Me","tagLine":"1","stats":{"kills":10,"deaths":5,"assists":2,"score":400,"roundsPlayed":2}},
              {"subject":"foe","teamId":"Red","characterId":"sage","gameName":"Foe","tagLine":"2","stats":{"kills":3,"deaths":8,"assists":0,"score":900,"roundsPlayed":2}},
              {"subject":"mate","teamId":"Blue","characterId":"sova","gameName":"Mate","tagLine":"3","stats":{"kills":4,"deaths":4,"assists":1,"score":600,"roundsPlayed":2}}
            ],
            "teams":[{"teamId":"Blue","won":true,"roundsWon":13},{"teamId":"Red","won":false,"roundsWon":7}],
            "roundResults":[
              {"playerStats":[{"subject":"me","kills":[],"damage":[{"damage":100,"headshots":1,"bodyshots":1,"legshots":0}]}]},
              {"playerStats":[{"subject":"me","kills":[],"damage":[{"damage":50,"headshots":0,"bodyshots":2,"legshots":0}]}]}
            ]}"#,
    );
    let sd = StaticData {
        maps: vec![("/Game/Maps/Ascent/Ascent".to_string(), "Ascent".to_string())],
        ..StaticData::empty()
    };
    assert!(stats_fit(&v, "me"));
    let s = parse_match_stats(&v, "me", &sd);
    assert_eq!(s.kills, 10);
    assert_eq!(s.acs, 200);
    assert_eq!(s.adr, 75);
    assert_eq!(s.hs, 25);
    assert_eq!(s.kast, 100);
    assert_eq!(s.self_rounds, 13);
    assert_eq!(s.enemy_rounds, 7);
    assert!(s.won);
    assert_eq!(s.map, "Ascent");
    let order: Vec<u32> = s.scoreboard.iter().map(|e| e.acs).collect();
    assert_eq!(order, vec![300, 200, 450]);
    assert!(s.scoreboard[0].ally && s.scoreboard[1].ally && !s.scoreboard[2].ally);
}

#[test]
fn parses_coregame_players() {
    let v = parse(
        r#"{"Players":[
            {"Subject":"p1","TeamID":"Blue","CharacterID":"add6443a-41bd-e414-f6ad-e58d267f4e95","PartyID":"party-a","PlayerIdentity":{"AccountLevel":120}},
            {"Subject":"p2","TeamID":"Red","CharacterID":""}
        ]}"#,
    );
    let players = parse_match_players(&v);
    assert_eq!(players.len(), 2);
    assert_eq!(players[0].puuid, "p1");
    assert_eq!(players[0].team, "Blue");
    assert_eq!(players[0].party_id, "party-a");
    assert_eq!(players[0].account_level, 120);
    assert_eq!(players[1].team, "Red");
    assert_eq!(players[1].party_id, "");
    assert_eq!(players[1].account_level, 0);
    assert!(!players[0].locked);
}

#[test]
fn reads_pregame_lock_state() {
    let v = parse(
        r#"{"Players":[
            {"Subject":"p1","CharacterID":"x","CharacterSelectionState":"locked"},
            {"Subject":"p2","CharacterID":"","CharacterSelectionState":"selected"},
            {"Subject":"p3"}
        ]}"#,
    );
    let players = parse_match_players(&v);
    assert!(players[0].locked);
    assert!(!players[1].locked);
    assert!(!players[2].locked);
}

#[test]
fn empty_when_no_players_key() {
    let v = parse(r#"{"foo":1}"#);
    assert!(parse_match_players(&v).is_empty());
}

#[test]
fn parses_flat_private() {
    let v = parse(r#"{"sessionLoopState":"MENUS","queueId":"competitive","partyState":"MATCHMAKING"}"#);
    let p = parse_private(&v);
    assert_eq!(p.loop_state, "MENUS");
    assert_eq!(p.queue_id, "competitive");
    assert_eq!(p.party_state, "MATCHMAKING");
}

#[test]
fn parses_nested_private() {
    let v = parse(
        r#"{"matchPresenceData":{"sessionLoopState":"PREGAME","queueId":"deathmatch"},"partyPresenceData":{"partyState":"DEFAULT"}}"#,
    );
    let p = parse_private(&v);
    assert_eq!(p.loop_state, "PREGAME");
    assert_eq!(p.queue_id, "deathmatch");
    assert_eq!(p.party_state, "DEFAULT");
}

#[test]
fn maps_known_and_unknown_modes() {
    assert_eq!(mode_name("hurm"), "Team Deathmatch");
    assert_eq!(mode_name("ggteam"), "Escalation");
    assert_eq!(mode_name(""), "Custom");
    assert_eq!(mode_name("somethingnew"), "somethingnew");
}

#[test]
fn flags_deathmatch_as_ffa() {
    assert!(is_ffa("deathmatch"));
    assert!(!is_ffa("hurm"));
    assert!(!is_ffa("competitive"));
}

#[test]
fn maps_tier_and_agent_names() {
    let tiers = parse(
        r#"{"data":[{"tiers":[{"tier":21,"tierName":"IMMORTAL 3"},{"tier":0,"tierName":"UNRANKED"}]}]}"#,
    );
    let agents = parse(r#"{"data":[{"uuid":"abc","displayName":"Jett","isPlayableCharacter":true}]}"#);
    let sd = StaticData {
        tiers: parse_tiers(&tiers),
        agents: parse_agents(&agents),
        ..StaticData::empty()
    };
    assert_eq!(sd.rank_name(21), "IMMORTAL 3");
    assert_eq!(sd.rank_name(999), "Unranked");
    assert_eq!(sd.agent_name("abc"), "Jett");
    assert_eq!(sd.agent_name("missing"), "");
}

#[test]
fn seasons_map_old_and_new_naming() {
    let v = parse(
        r#"{"data":[
            {"uuid":"ep8","displayName":"EPISODE 8","parentUuid":null},
            {"uuid":"act-a","displayName":"ACT II","parentUuid":"ep8"},
            {"uuid":"v26","displayName":"V26","parentUuid":null},
            {"uuid":"act-b","displayName":"ACT IV","parentUuid":"v26"}
        ]}"#,
    );
    let m = parse_seasons(&v);
    assert_eq!(get_text(&m, "act-a").unwrap(), "E8A2");
    assert_eq!(get_text(&m, "act-b").unwrap(), "V26A4");
}

#[test]
fn maps_url_to_name_and_image() {
    let v = parse(
        r#"{"data":[{"mapUrl":"/Game/Maps/Ascent/Ascent","displayName":"Ascent","listViewIcon":"https://x/ascent.png"}]}"#,
    );
    let maps = parse_maps(&v);
    let images = parse_map_images(&v);
    assert_eq!(get_text(&maps, "/Game/Maps/Ascent/Ascent").unwrap(), "Ascent");
    assert_eq!(
        get_text(&images, "/Game/Maps/Ascent/Ascent").unwrap(),
        "https://x/ascent.png"
    );
}

#[test]
fn skins_index_every_id_with_image_fallback() {
    let v = parse(
        r#"{"data":[{"skins":[
            {"uuid":"skin-prime","displayName":"Prime Vandal","contentTierUuid":"tier-deluxe","displayIcon":"skin.png","chromas":[{"uuid":"chroma-1","displayIcon":"chroma.png"}],"levels":[{"uuid":"lvl-1","displayIcon":"lvl.png"},{"uuid":"lvl-2"}]},
            {"uuid":"skin-default","displayName":"Vandal","contentTierUuid":"","displayIcon":null,"chromas":[{"uuid":"chroma-d","displayIcon":"chroma-d.png"}],"levels":[{"uuid":"lvl-default"}]}
        ]}]}"#,
    );
    let skins = parse_skins(&v);
    let by_skin = lookup(&skins, "skin-prime").unwrap();
    let by_level = lookup(&skins, "lvl-1").unwrap();
    assert_eq!(by_skin.name, "Prime Vandal");
    assert_eq!(by_level.name, "Prime Vandal");
    assert_eq!(by_skin.image, by_level.image);
    assert_eq!(by_level.tier_uuid, "tier-deluxe");
    assert_eq!(lookup(&skins, "lvl-2").unwrap().image, "skin.png");
    assert_eq!(lookup(&skins, "chroma-1").unwrap().image, "skin.png");
    assert_eq!(lookup(&skins, "lvl-default").unwrap().image, "chroma-d.png");
    assert_eq!(lookup(&skins, "skin-default").unwrap().image, "chroma-d.png");
}

#[test]
fn tier_colors_drop_alpha() {
    let v = parse(r#"{"data":[{"uuid":"tier-deluxe","highlightColor":"009984ff"}]}"#);
    let colors = parse_tier_colors(&v);
    assert_eq!(get_text(&colors, "tier-deluxe").unwrap(), "#009984");
}

#[test]
fn tier_colors_skip_short_and_check_slicing() {
    let v = parse(r#"{"data":[{"uuid":"t1","highlightColor":"abc"},{"uuid":"t2","highlightColor":"é1234ff"}]}"#);
    assert!(tier_colors_sliceable(&v));
    let colors = parse_tier_colors(&v);
    assert!(get_text(&colors, "t1").is_none());
    assert_eq!(get_text(&colors, "t2").unwrap(), "#é1234");
    let bad = parse(r#"{"data":[{"uuid":"t3","highlightColor":"12345é"}]}"#);
    assert!(!tier_colors_sliceable(&bad));
}

#[test]
fn static_tables_from_catalogues() {
    let tiers = parse(r#"{"data":[{"tiers":[{"tier":21,"tierName":"IMMORTAL 3","largeIcon":"i21.png"}]}]}"#);
    let agents = parse(r#"{"data":[{"uuid":"abc","displayName":"Jett","displayIcon":"jett.png"}]}"#);
    let maps = parse(r#"{"data":[{"mapUrl":"/m","displayName":"Ascent","listViewIcon":"a.png"}]}"#);
    let cards = parse(r#"{"data":[{"uuid":"card","wideArt":"wide.png"}]}"#);
    let seasons = parse(r#"{"data":[]}"#);
    let weapons = parse(r#"{"data":[]}"#);
    let colors = parse(r#"{"data":[]}"#);
    let sd = build_static(&tiers, &agents, &maps, &cards, &seasons, &weapons, &colors);
    assert_eq!(sd.rank_icon(21), "i21.png");
    assert_eq!(sd.agent_icon("ABC"), "jett.png");
    assert_eq!(sd.map_image("/m"), "a.png");
    assert_eq!(sd.card_art("card"), "wide.png");
}

#[test]
fn current_act_is_first_active_act() {
    let v = parse(
        r#"{"Seasons":[
            {"ID":"ep","IsActive":true,"Type":"episode"},
            {"ID":"old","IsActive":false,"Type":"act"},
            {"ID":"now","IsActive":true,"Type":"act"},
            {"ID":"later","IsActive":true,"Type":"act"}
        ]}"#,
    );
    assert_eq!(current_act(&v).unwrap(), "now");
    assert!(current_act(&parse(r#"{"Seasons":[]}"#)).is_none());
    assert!(current_act(&parse("{}")).is_none());
}

#[test]
fn loadout_card_reads_identity() {
    assert_eq!(loadout_card(&parse(r#"{"Identity":{"PlayerCardID":"card-1"}}"#)), "card-1");
    assert_eq!(loadout_card(&parse(r#"{"Identity":{}}"#)), "");
}

#[test]
fn comp_and_mode_history_ids() {
    let cu = parse(r#"{"Matches":[{"MatchID":"m1"},{"RankedRatingEarned":3}]}"#);
    assert_eq!(comp_ids(&cu), vec!["m1".to_string(), String::new()]);
    let mh = parse(r#"{"History":[{"MatchID":"a","QueueID":"unrated"},{"MatchID":"b","QueueID":"hurm"}]}"#);
    let (entries, ids) = mode_history(&mh);
    assert_eq!(ids, vec!["a".to_string(), "b".to_string()]);
    assert_eq!(entries[0].rank_name, "Unrated");
    assert_eq!(entries[1].rank_name, "Team Deathmatch");
    assert!(!entries[0].ranked);
    assert_eq!(mode_filter(1), "&queue=unrated");
    assert_eq!(mode_filter(2), "");
}

#[test]
fn own_private_presence_is_decoded() {
    // "eyJhIjoxfQ==" is the base64 of {"a":1}.
    let body = parse(
        r#"{"presences":[
            {"puuid":"other","private":"e30="},
            {"puuid":"me","private":"eyJhIjoxfQ=="}
        ]}"#,
    );
    let bytes = private_payload(&body, "me").unwrap();
    assert_eq!(bytes, b"{\"a\":1}".to_vec());
    assert!(private_payload(&body, "nobody").is_none());
    let bad = parse(r#"{"presences":[{"puuid":"me","private":"%%%"}]}"#);
    assert!(private_payload(&bad, "me").is_none());
}

#[test]
fn season_names_in_any_case() {
    let v = parse(
        r#"{"data":[
            {"uuid":"ep9","displayName":"Episode 9","parentUuid":null},
            {"uuid":"act-c","displayName":"act iii","parentUuid":"ep9"},
            {"uuid":"act-d","displayName":"ACT 12","parentUuid":"ep9"},
            {"uuid":"act-e","displayName":"ACT IX","parentUuid":"ep9"}
        ]}"#,
    );
    let m = parse_seasons(&v);
    assert_eq!(get_text(&m, "act-c").unwrap(), "E9A3");
    assert_eq!(get_text(&m, "act-d").unwrap(), "E9A12");
    assert!(get_text(&m, "act-e").is_none());
}

#[test]
fn activity_lines_follow_the_loop_state() {
    let mut p = parse_private(&parse(r#"{"sessionLoopState":"INGAME"}"#));
    assert_eq!(describe_activity(&p, "Competitive"), "Playing Competitive");
    p.loop_state = "PREGAME".to_string();
    assert_eq!(describe_activity(&p, "Unrated"), "Agent Select - Unrated");
    p.loop_state = "MENUS".to_string();
    p.party_state = "MATCHMAKING".to_string();
    assert_eq!(describe_activity(&p, "Swiftplay"), "In queue - Swiftplay");
    p.provisioning_flow = "customgame".to_string();
    assert_eq!(describe_activity(&p, "Swiftplay"), "In a custom lobby");
    p.loop_state = String::new();
    assert_eq!(describe_activity(&p, "x"), "Idle");
    assert!(!has_rounds("deathmatch") && !has_rounds("hurm") && has_rounds("competitive"));
}

#[test]
fn glz_url_parses_back_to_its_region() {
    for (region, shard) in [("ap", "ap"), ("kr", "kr"), ("latam", "na"), ("br", "na"), ("eu", "eu")] {
        let reg = Region { region: region.to_string(), shard: shard.to_string() };
        let log = format!("boot ok\nGET {}/session/v1 200\n", reg.glz_base());
        let back = parse_region_from_log(&log).unwrap();
        assert_eq!(back.region, region);
        assert_eq!(back.shard, shard);
    }
}

#[test]
fn private_presence_needs_canonical_base64() {
    let body = |t: &str| parse(&format!(r#"{{"presences":[{{"puuid":"me","private":"{t}"}}]}}"#));
    assert_eq!(private_payload(&body("eyJhIjoxfQ=="), "me").unwrap(), b"{\"a\":1}".to_vec());
    // Missing padding, stray bits in the last symbol, and padding mid-text are refused.
    assert!(private_payload(&body("eyJhIjoxfQ"), "me").is_none());
    assert!(private_payload(&body("eyJhIjoxfR=="), "me").is_none());
    assert!(private_payload(&body("e3==e30="), "me").is_none());
    assert_eq!(private_payload(&body(""), "me").unwrap(), Vec::<u8>::new());
}
