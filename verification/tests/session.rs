use dipspp::consts::DD2_MAP_UID;
use dipspp::ids::{parse_user_id, twitch_target, or_own_id, user_id_or_reject};
use dipspp::router::{GameMap, PlayerCtx};
use dipspp::session::{
    accept_retry, is_in_top_10, parse_context_report, is_official_report, is_stats_round, on_ping_check_update_last_map,
    pb_report_decision, remove_closed, secret_assets, secret_assets_for, should_send_map_update, PbReport,
    LoginSession, PlayerMgrErr, PlayerMgrState, ACCEPT_MAX_BACKOFF_S, DD2_TOP_10, MAP_CACHE_TTL_MS, MAP_SEND_TTL_MS,
};

fn map(uid: &str) -> GameMap {
    GameMap { uid: uid.to_string(), name: "m".to_string(), hash: String::new() }
}

#[test]
fn reports_count_only_in_official_contexts() {
    let mut official = Some(PlayerCtx::new(3311, 0, Some(map(DD2_MAP_UID)), false));
    assert!(is_official_report(&mut official));
    assert_eq!(official.as_ref().unwrap().is_official, Some(true));
    assert!(!is_official_report(&mut None));
    let mut editor = Some(PlayerCtx::new(2279, 0, Some(map(DD2_MAP_UID)), false));
    assert!(!is_official_report(&mut editor));
    assert_eq!(editor.as_ref().unwrap().is_official, Some(false));
}

#[test]
fn pb_report_reasons() {
    assert!(matches!(pb_report_decision(&mut None), PbReport::NoContext));
    let mut official = Some(PlayerCtx::new(3311, 0, Some(map(DD2_MAP_UID)), false));
    assert!(matches!(pb_report_decision(&mut official), PbReport::Accept));
    let mut no_map = Some(PlayerCtx::new(3311, 0, None, false));
    assert!(matches!(pb_report_decision(&mut no_map), PbReport::NoMap));
    let mut other = Some(PlayerCtx::new(3311, 0, Some(map("CustomClimbMap_____________")), false));
    assert!(matches!(pb_report_decision(&mut other), PbReport::NotDd2));
    let mut editor = Some(PlayerCtx::new(2279, 0, Some(map(DD2_MAP_UID)), false));
    assert!(matches!(pb_report_decision(&mut editor), PbReport::InvalidFlags));
    // a longer UID that starts with the DD2 UID is official but not the exact map
    let mut longer = Some(PlayerCtx::new(2279, 0, Some(map("DeepDip2__The_Storm_Is_Here2")), false));
    assert!(matches!(pb_report_decision(&mut longer), PbReport::NotDd2));
    // a kept verdict decides, whatever the flags have become
    let mut kept = Some(PlayerCtx::new(3311, 0, Some(map(DD2_MAP_UID)), false));
    assert!(is_official_report(&mut kept));
    kept.as_mut().unwrap().sf = 2279;
    assert!(matches!(pb_report_decision(&mut kept), PbReport::Accept));
}

#[test]
fn map_updates_on_ping() {
    assert_eq!(MAP_CACHE_TTL_MS, 9000);
    assert_eq!(MAP_SEND_TTL_MS, 11000);
    assert!(should_send_map_update(true, 1_000_000));
    assert!(should_send_map_update(false, 11000));
    assert!(!should_send_map_update(false, 11001));
}

#[test]
fn last_map_tracking() {
    let mut last: Option<String> = None;
    assert!(!on_ping_check_update_last_map(&mut last, None));
    assert!(on_ping_check_update_last_map(&mut last, Some("A")));
    assert_eq!(last.as_deref(), Some("A"));
    assert!(!on_ping_check_update_last_map(&mut last, Some("A")));
    // entering another map is a change once; then that map is remembered
    assert!(on_ping_check_update_last_map(&mut last, Some("B")));
    assert_eq!(last.as_deref(), Some("B"));
    assert!(!on_ping_check_update_last_map(&mut last, Some("B")));
    assert!(on_ping_check_update_last_map(&mut last, None));
    assert_eq!(last, None);
}

#[test]
fn top_players() {
    assert_eq!(DD2_TOP_10.len(), 11);
    assert!(is_in_top_10("0a2d1bc0-4aaa-4374-b2db-3d561bdab1c9"));
    assert!(is_in_top_10("5d6b14db-4d41-47a4-93e2-36a3bf229f9b"));
    assert!(!is_in_top_10("00000000-0000-0000-0000-000000000000"));
    assert!(!is_in_top_10("5D6B14DB-4D41-47A4-93E2-36A3BF229F9B"));
}

#[test]
fn secret_assets_before_and_after_top3() {
    let someone = "11111111-2222-3333-4444-555555555555";
    assert!(secret_assets(someone, false).is_none());
    let v = secret_assets(someone, true).unwrap();
    assert_eq!(v.len(), 6);
    assert_eq!(v[0].name, "head");
    assert_eq!(v[0].filename, "img/s1head.jpg");
    assert_eq!(v[0].url, "https://assets.xk.io/d++/secret/s1head-3948765.jpg");
    assert_eq!(v[3].url, "https://assets.xk.io/d++/secret/flight-vae-3948765.mp3");
    assert_eq!(v[5].name, "fanfare");
    assert_eq!(v[5].filename, "img/fanfare-self.png");
    assert_eq!(v[5].url, "https://assets.xk.io/d++/secret/generic.png");
    let top = "0a2d1bc0-4aaa-4374-b2db-3d561bdab1c9";
    let v = secret_assets(top, false).unwrap();
    assert_eq!(v[5].url, format!("https://assets.xk.io/d++/secret/{}.png", top));
    let v = secret_assets(top, true).unwrap();
    assert_eq!(v[5].url, format!("https://assets.xk.io/d++/secret/{}.png", top));
}

#[test]
fn secret_assets_by_id_use_the_hyphenated_id() {
    let id: u128 = 0x0a2d1bc0_4aaa_4374_b2db_3d561bdab1c9;
    let v = secret_assets_for(id, false).unwrap();
    assert_eq!(v[5].url, "https://assets.xk.io/d++/secret/0a2d1bc0-4aaa-4374-b2db-3d561bdab1c9.png");
    assert!(secret_assets_for(1, false).is_none());
    let v = secret_assets_for(1, true).unwrap();
    assert_eq!(v[5].url, "https://assets.xk.io/d++/secret/generic.png");
}

#[test]
fn user_ids() {
    assert_eq!(
        parse_user_id("0a2d1bc0-4aaa-4374-b2db-3d561bdab1c9").ok(),
        Some(0x0a2d1bc0_4aaa_4374_b2db_3d561bdab1c9u128)
    );
    assert_eq!(parse_user_id("0a2d1bc04aaa4374b2db3d561bdab1c9").ok(), Some(0x0a2d1bc0_4aaa_4374_b2db_3d561bdab1c9u128));
    match parse_user_id("not-a-uuid") {
        Ok(_) => panic!("must be refused"),
        Err(e) => assert_eq!(e.err, "Invalid user id"),
    }
    assert_eq!(user_id_or_reject(Some(5)).ok(), Some(5));
    assert_eq!(user_id_or_reject(None).err().unwrap().err, "Invalid user id");
    assert_eq!(or_own_id(None, 9), 9);
    assert_eq!(or_own_id(Some(3), 9), 3);
    assert_eq!(twitch_target(None, 9), 9);
    assert_eq!(twitch_target(Some("junk"), 9), 9);
    assert_eq!(twitch_target(Some("00000000-0000-0000-0000-000000000001"), 9), 1);
}

#[test]
fn removing_closed_players_keeps_order() {
    let mut ps = vec!["a", "b", "c", "d"];
    remove_closed(&mut ps, &[false, true, false, true]);
    assert_eq!(ps, vec!["a", "c"]);
    let mut none: Vec<u8> = vec![];
    remove_closed(&mut none, &[]);
    assert!(none.is_empty());
}

#[test]
fn manager_rounds_and_retries() {
    assert!(is_stats_round(10, 3));
    assert!(is_stats_round(0, 1));
    assert!(!is_stats_round(10, 0));
    assert!(!is_stats_round(11, 3));
    assert_eq!(ACCEPT_MAX_BACKOFF_S, 64);
    assert_eq!(accept_retry(1), Some((1, 2)));
    assert_eq!(accept_retry(64), Some((64, 128)));
    assert_eq!(accept_retry(128), None);
    // starting from one second, the accept loop gives up after eight failures
    let mut b = 1;
    let mut slept = 0;
    let mut failures = 1;
    while let Some((s, n)) = accept_retry(b) {
        slept += s;
        b = n;
        failures += 1;
    }
    assert_eq!(failures, 8);
    assert_eq!(slept, 127);
}

#[test]
fn manager_state_and_errors() {
    let s = PlayerMgrState::default();
    assert!(s.last_record_check.is_none());
    let e: PlayerMgrErr = std::io::Error::new(std::io::ErrorKind::Other, "closed").into();
    match e {
        PlayerMgrErr::IoError(inner) => assert_eq!(inner.kind(), std::io::ErrorKind::Other),
    }
}

#[test]
fn context_reports_parse_both_values() {
    assert_eq!(parse_context_report("0xCEF", "0x5FC777FF1F6BF6B"), Ok((3311, 0x5FC777FF1F6BF6B)));
    assert_eq!(parse_context_report("cef", "10"), Ok((3311, 16)));
    assert_eq!(parse_context_report("0xzz", "10"), Err("Invalid sf/mi: 0xzz/10".to_string()));
    assert_eq!(parse_context_report("10", "0x"), Err("Invalid sf/mi: 10/0x".to_string()));
}

#[test]
fn login_sessions() {
    let ls = LoginSession::new(7, "XertroV".to_string(), 9, false, "Name: Dips++\nVersion:0.5.1");
    assert_eq!(ls.user_id(), 7);
    assert_eq!(ls.session_id(), 9);
    assert_eq!(ls.display_name(), "XertroV");
    assert_eq!(ls.plugin_ver, "0.5.1");
    assert!(!ls.resumed);
    let resumed = LoginSession::new(7, "X".to_string(), 10, true, "");
    assert_eq!(resumed.plugin_ver, "0.0.0");
    assert!(resumed.resumed);
}
