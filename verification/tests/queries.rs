use dipspp::context_flags::decode_context_flags;
use dipspp::donations::{gfm_amount_text, GFM_SPLIT1_PAT, GFM_SPLIT2_PAT};
use dipspp::router::PlayerCtx;
use dipspp::queries::{
    check_aux_spec_delete, check_aux_spec_upload, gc_nod_flags, global_lb_page_bounds, global_lb_window,
    is_lb_map_uid, is_live_map_uid, is_position_map_uid, is_valid_clip_vote, map_hash_bytes, map_lb_page_bounds,
    map_lb_window, pb_rank, context_row, pb_update_res, records_display_name, respawn_race_time, seconds_in_map_to_i32,
    session_ip, should_archive_stats, stats_rank, ApiErrRejection, AuxSpecError, GameCamNod, AUX_SPEC_EDIT_WINDOW_S,
};

#[test]
fn global_leaderboard_windows() {
    assert_eq!(global_lb_window(1, 11), Some((10, 0)));
    assert_eq!(global_lb_window(0, 100), Some((100, 0)));
    assert_eq!(global_lb_window(101, 201), Some((100, 100)));
    assert_eq!(global_lb_window(5, 5), Some((0, 4)));
    assert_eq!(global_lb_window(10, 5), None);
    assert_eq!(global_lb_page_bounds(0), (0, 100));
    assert_eq!(global_lb_page_bounds(3), (300, 400));
    assert_eq!(map_lb_page_bounds(2), (200, 300));
    assert_eq!(map_lb_window(200, 300), (100, 200));
    assert_eq!(map_lb_window(0, 10), (10, 0));
}

#[test]
fn map_uid_lengths() {
    let uid27 = "DeepDip2__The_Storm_Is_Here";
    assert!(is_lb_map_uid(uid27));
    assert!(is_lb_map_uid(""));
    assert!(!is_lb_map_uid("0123456789012345678901234567890"));
    assert!(is_live_map_uid(uid27));
    assert!(is_live_map_uid("01234567890123456789"));
    assert!(!is_live_map_uid("0123456789012345678"));
    assert!(!is_live_map_uid("012345678901234567890123456789"));
    assert!(is_position_map_uid(uid27));
    assert!(!is_position_map_uid("DeepDip2__The_Storm_Is_Her"));
}

#[test]
fn game_cam_nod_summary() {
    assert_eq!(gc_nod_flags(&[1, 2, 3]), (0, true, true, true, false));
    let mut raw = vec![0u8; 0x2C0];
    raw[0] = 9;
    raw[0x75] = 1;
    raw[0x1a8] = 0x16;
    assert_eq!(gc_nod_flags(&raw), (9, false, true, true, true));
    let nod = GameCamNod { id: 1, session_token: 2, context_id: 3, raw: raw.clone() };
    assert!(!nod.is_race_nod_null());
    assert!(nod.is_editor_cam_null());
    assert!(nod.is_race_88_null());
    assert!(nod.is_cam_1a8_16());
    raw[0x8f] = 4;
    raw[0x1a8] = 0;
    assert_eq!(gc_nod_flags(&raw), (9, false, true, false, false));
}

#[test]
fn map_hashes() {
    let hex = "00ff10ABcdef0123456789abcdef0123456789abcdef0123456789abcdef0123";
    let b = map_hash_bytes(hex);
    assert_eq!(b.len(), 32);
    assert_eq!(&b[..6], &[0x00, 0xff, 0x10, 0xab, 0xcd, 0xef]);
    assert_eq!(b[31], 0x23);
    // not hexadecimal: the first 32 bytes are kept
    let raw = "zz".repeat(32);
    assert_eq!(map_hash_bytes(&raw), "z".repeat(32).into_bytes());
    assert_eq!(map_hash_bytes("short"), b"short".to_vec());
    assert_eq!(map_hash_bytes(""), Vec::<u8>::new());
}

#[test]
fn session_ip_is_cut_at_39_bytes() {
    assert_eq!(session_ip("127.0.0.1"), "127.0.0.1");
    let long = "a".repeat(50);
    assert_eq!(session_ip(&long), &long[..39]);
}

#[test]
fn stored_values() {
    assert!(is_valid_clip_vote(-2));
    assert!(is_valid_clip_vote(2));
    assert!(!is_valid_clip_vote(3));
    assert!(!is_valid_clip_vote(-3));
    assert!(should_archive_stats(8));
    assert!(should_archive_stats(-2));
    assert!(!should_archive_stats(10));
    assert_eq!(seconds_in_map_to_i32(5), 5);
    assert_eq!(seconds_in_map_to_i32(1 << 40), 0);
    assert_eq!(seconds_in_map_to_i32(-5), -5);
    assert_eq!(stats_rank(Some(3)), 3);
    assert_eq!(stats_rank(None), u32::MAX);
    assert_eq!(stats_rank(Some((1i64 << 32) + 7)), 7);
    assert_eq!(pb_rank(None), 99999);
    assert_eq!(pb_rank(Some(12)), 12);
    assert_eq!(respawn_race_time(1234), 1234);
    assert_eq!(respawn_race_time(i32::MAX as i64 + 1), -1);
    assert_eq!(respawn_race_time(-7), -7);
    assert_eq!(respawn_race_time(i64::MIN), 0);
    assert!(pb_update_res(3).is_top_3);
    assert!(pb_update_res(9).is_top_3);
    assert!(!pb_update_res(10).is_top_3);
}

#[test]
fn display_name_updates() {
    assert!(records_display_name(None, "X"));
    assert!(records_display_name(Some("Old"), "New"));
    assert!(!records_display_name(Some("Same"), "Same"));
}

#[test]
fn aux_spec_edit_window() {
    let now = 1_000_000;
    assert_eq!(AUX_SPEC_EDIT_WINDOW_S, 86400);
    assert!(matches!(check_aux_spec_upload(false, None, now), Err(AuxSpecError::InvalidSpec)));
    assert!(check_aux_spec_upload(true, None, now).is_ok());
    assert!(check_aux_spec_upload(true, Some(now - 86400), now).is_ok());
    assert!(matches!(check_aux_spec_upload(true, Some(now - 86401), now), Err(AuxSpecError::TooOld)));
    assert!(matches!(check_aux_spec_upload(false, Some(now - 86401), now), Err(AuxSpecError::InvalidSpec)));
    assert!(check_aux_spec_delete(None, now).is_ok());
    assert!(check_aux_spec_delete(Some(now), now).is_ok());
    assert!(matches!(check_aux_spec_delete(Some(0), now), Err(AuxSpecError::TooOld)));
}

#[test]
fn api_error_keeps_message() {
    assert_eq!(ApiErrRejection::new("Invalid user id").err, "Invalid user id");
}

#[test]
fn context_rows_keep_the_packed_bits() {
    let c = PlayerCtx::new(3311, u64::MAX, None, true);
    let r = context_row(&c);
    assert_eq!(r.flags, decode_context_flags(3311));
    assert!(r.flags[0] && r.flags[2]);
    assert_eq!(r.flags_raw, 3311);
    assert_eq!(r.managers, -1);
    assert!(r.has_vl_item);
    let big = PlayerCtx::new(0x8000_0000_0000_0001, 431351055724756843, None, false);
    let r = context_row(&big);
    assert_eq!(r.flags_raw, i64::MIN + 1);
    assert_eq!(r.managers, 431351055724756843);
}

#[test]
fn fundraiser_amount_text() {
    assert_eq!(GFM_SPLIT1_PAT, r#"amount_raised_unattributed\":"#);
    assert_eq!(GFM_SPLIT2_PAT, r#",\""#);
    let page = r#"{\"goal\":1,\"amount_raised_unattributed\":5597,\"currency\":\"USD\"}"#;
    assert_eq!(gfm_amount_text(page), Ok("5597".to_string()));
    let page2 = r#"x amount_raised_unattributed\":12.5 end"#;
    assert_eq!(gfm_amount_text(page2), Ok("12.5 end".to_string()));
    assert_eq!(gfm_amount_text("nothing here"), Err("Split1 failed".to_string()));
}
