use dipspp::clean_db::{
    assign_pings_to_contexts, clean_username, gen_ctx_timeline_desc_row, map_display_name, map_segments,
    ping_context_window, since_init_ms_of, timestamp_seconds, user_timeline_data, users_to_delete, managers_row, scene_flags_row, CtxTlRow, CtxType, MapCtxEntry,
    UserContext, MGRS_IN_MAP, MGRS_IN_MAP_EDITOR, MGRS_IN_MAP_UNK, MGRS_LOADING,
};
use dipspp::consts::DD2_MAP_UID;

fn ctx(session: u128, created_ts: i64, set: &[usize]) -> UserContext {
    let mut flags = vec![false; 15];
    for &i in set {
        flags[i] = true;
    }
    UserContext {
        context_id: created_ts as u128,
        session_token: session,
        created_ts,
        flags,
        has_vl_item: false,
        flags_raw: None,
        bi_count: 0,
        block_count: 0,
        item_count: 0,
        managers: 0,
        predecessor: None,
        successor: None,
        terminated: false,
        editor: None,
        map_id: None,
        map_uid: None,
        map_name: None,
        map_hash: None,
        map_load_count: None,
    }
}

#[test]
fn ctx_type_numbers() {
    assert_eq!(CtxType::MainMenu.as_int(), 0);
    assert_eq!(CtxType::MapDriving.as_int(), 2);
    assert_eq!(CtxType::MapMenu.as_int(), 3);
    assert_eq!(CtxType::MapUnk.as_int(), 5);
    assert_eq!(CtxType::Unk.as_int(), 7);
    assert_eq!(CtxType::EditorUnk.as_int(), 9);
    assert_eq!(CtxType::EditorMap.as_int(), 10);
    assert_eq!(CtxType::EditorMT.as_int(), 11);
    assert_eq!(CtxType::EditorDriving.as_int(), 12);
}

#[test]
fn ctx_type_classification() {
    let mut c = ctx(1, 0, &[0]);
    c.managers = MGRS_IN_MAP;
    assert_eq!(CtxType::of_context(&c).as_int(), CtxType::MapDriving.as_int());
    c.flags[10] = true;
    assert_eq!(CtxType::of_context(&c).as_int(), CtxType::MapMenu.as_int());
    let mut d = ctx(1, 0, &[]);
    d.managers = MGRS_IN_MAP_UNK;
    assert_eq!(CtxType::of_context(&d).as_int(), CtxType::MapUnk.as_int());
    d.managers = MGRS_LOADING;
    assert_eq!(CtxType::of_context(&d).as_int(), CtxType::Unk.as_int());
    let mut e = ctx(1, 0, &[5]);
    e.managers = MGRS_IN_MAP_EDITOR;
    assert_eq!(CtxType::of_context(&e).as_int(), CtxType::EditorUnk.as_int());
    e.flags[2] = true;
    assert_eq!(CtxType::of_context(&e).as_int(), CtxType::EditorDriving.as_int());
    let mut f = ctx(1, 0, &[]);
    f.editor = Some(true);
    f.managers = MGRS_IN_MAP;
    assert_eq!(CtxType::of_context(&f).as_int(), CtxType::EditorDriving.as_int());
    f.flags[10] = true;
    assert_eq!(CtxType::of_context(&f).as_int(), CtxType::EditorUnk.as_int());
}

#[test]
fn timeline_headers_and_rows() {
    assert_eq!(CtxTlRow::headers(), vec!["start_ts", "end_ts", "ty", "map_id", "is_dd2_uid"]);
    let row = CtxTlRow { start_ts: 1700000000, end_ts: Some(1700000060), ty: CtxType::MapDriving, map_id: 12, is_dd2_uid: true };
    assert_eq!(row.to_row_string(), "1700000000, 1700000060, 2, 12, 1");
    let row = CtxTlRow { start_ts: -5, end_ts: None, ty: CtxType::Unk, map_id: -1, is_dd2_uid: false };
    assert_eq!(row.to_row_string(), "-5, , 7, -1, 0");
}

#[test]
fn timestamps_round_down_to_seconds() {
    assert_eq!(timestamp_seconds(1_700_000_000_999_999), 1_700_000_000);
    assert_eq!(timestamp_seconds(0), 0);
    assert_eq!(timestamp_seconds(-1), -1);
    assert_eq!(timestamp_seconds(-1_000_000), -1);
    assert_eq!(timestamp_seconds(-1_000_001), -2);
}

#[test]
fn timeline_row_of_a_context() {
    let mut a = ctx(1, 10_500_000, &[0]);
    a.managers = MGRS_IN_MAP;
    a.map_uid = Some(DD2_MAP_UID.to_string());
    a.map_id = Some(4);
    let b = ctx(1, 70_000_000, &[]);
    let r = gen_ctx_timeline_desc_row(&a, Some(&b));
    assert_eq!(r.to_row_string(), "10, 70, 2, 4, 1");
    let r = gen_ctx_timeline_desc_row(&b, None);
    assert_eq!(r.to_row_string(), "70, , 7, -1, 0");
    let mut c = ctx(1, 0, &[]);
    c.has_vl_item = true;
    assert!(gen_ctx_timeline_desc_row(&c, None).is_dd2_uid);
}

#[test]
fn timelines_split_by_session() {
    let cs = vec![ctx(7, 1_000_000, &[]), ctx(7, 2_000_000, &[]), ctx(9, 3_000_000, &[]), ctx(7, 4_000_000, &[])];
    let out = user_timeline_data(&cs);
    assert_eq!(out.len(), 3);
    assert_eq!(out[0].0, 7);
    assert_eq!(out[0].1, "start_ts, end_ts, ty, map_id, is_dd2_uid\n1, 2, 7, -1, 0\n2, , 7, -1, 0");
    assert_eq!(out[1].0, 9);
    assert_eq!(out[1].1, "start_ts, end_ts, ty, map_id, is_dd2_uid\n3, , 7, -1, 0");
    assert_eq!(out[2].0, 7);
    assert!(user_timeline_data(&[]).is_empty());
}

#[test]
fn clean_username_drops_trailing_dots_and_underscores() {
    assert_eq!(clean_username("XertroV._._"), "XertroV");
    assert_eq!(clean_username("a_b.c"), "a_b.c");
    assert_eq!(clean_username("._"), "");
    assert_eq!(clean_username(""), "");
}

#[test]
fn pings_are_matched_to_contexts() {
    // contexts at 0 s, 10 s, 20 s, 30 s (microseconds)
    let created = [0i64, 10_000_000, 20_000_000, 30_000_000];
    // a context created less than 900 ms before a ping counts as after it:
    // the ping at 10.5 s belongs to the context of 0 s
    let pings = [10_500_000i64, 20_800_000, 50_000_000];
    assert_eq!(assign_pings_to_contexts(&pings, &created), vec![0, 1, 3]);
    // a ping before every context has none
    assert_eq!(assign_pings_to_contexts(&[-5_000_000], &created), vec![-1]);
    assert_eq!(assign_pings_to_contexts(&[1_000_000], &[]), vec![-1]);
    // the contexts are walked once: the second ping starts after the
    // context that ended the first one's walk
    assert_eq!(assign_pings_to_contexts(&[10_500_000, 10_600_000], &created), vec![0, 1]);
}

#[test]
fn ping_windows() {
    assert_eq!(ping_context_window(-1, 4), None);
    assert_eq!(ping_context_window(0, 4), Some((0, 4)));
    assert_eq!(ping_context_window(1, 10), Some((0, 5)));
    assert_eq!(ping_context_window(7, 10), Some((6, 10)));
}

fn entry(ts: i64, name: &str, bi: i32) -> MapCtxEntry {
    MapCtxEntry { ts, map_name: name.to_string(), bi_count: bi, since_init_ms: 0 }
}

#[test]
fn map_segments_cut_on_map_or_count_change() {
    let es = vec![entry(100, "A", 1), entry(150, "A", 1), entry(200, "B", 1), entry(400, "B", 2)];
    let segs = map_segments(&es);
    assert_eq!(segs.len(), 3);
    assert_eq!((segs[0].ctx_ix, segs[0].start_ts, segs[0].end_ts, segs[0].duration_s), (0, 100, 200, 100));
    assert_eq!(segs[0].map_name, "A");
    assert_eq!((segs[1].ctx_ix, segs[1].start_ts, segs[1].end_ts, segs[1].duration_s), (2, 200, 400, 200));
    // the last segment is open: it lasts a minute
    assert_eq!((segs[2].ctx_ix, segs[2].start_ts, segs[2].end_ts, segs[2].duration_s), (3, 400, 460, 60));
    assert_eq!(segs[2].bi_count, 2);
}

#[test]
fn since_init_from_gamer_info() {
    assert_eq!(since_init_ms_of("Name: x\nSinceInit:12345\nOther: y"), Some(12345));
    assert_eq!(since_init_ms_of("SinceInit:77"), Some(77));
    assert_eq!(since_init_ms_of("SinceInit:abc\n"), None);
    assert_eq!(since_init_ms_of("nothing"), None);
    assert_eq!(since_init_ms_of("SinceInit:5SinceInit:6"), Some(5));
}

#[test]
fn map_display_names() {
    let mut c = ctx(1, 0, &[]);
    assert_eq!(map_display_name(&c), "no-map");
    c.map_uid = Some("UID123".to_string());
    assert_eq!(map_display_name(&c), "UID123");
    c.map_name = Some("Cool Map".to_string());
    assert_eq!(map_display_name(&c), "Cool Map");
    c.map_name = Some("<!:;hidden".to_string());
    assert_eq!(map_display_name(&c), "UID123");
    c.map_uid = None;
    assert_eq!(map_display_name(&c), "not-rel&no-uid");
}

#[test]
fn dd2_uid_must_match_exactly() {
    let mut c = ctx(1, 0, &[]);
    assert!(!c.is_dd2_uid());
    c.map_uid = Some(DD2_MAP_UID.to_string());
    assert!(c.is_dd2_uid());
    c.map_uid = Some(format!("{}x", DD2_MAP_UID));
    assert!(!c.is_dd2_uid());
}

#[test]
fn cleaning_twice_is_cleaning_once() {
    for n in ["a._", "._.", "plain", "x_y_", ""] {
        let once = clean_username(n);
        assert_eq!(clean_username(&once), once);
    }
}

#[test]
fn users_to_delete_are_those_not_kept() {
    let all = vec![(1u128, "a".to_string()), (2, "b".to_string()), (3, "c".to_string()), (4, "d".to_string())];
    let del = users_to_delete(&[2, 4, 9], &all);
    assert_eq!(del, vec![(1u128, "a".to_string()), (3, "c".to_string())]);
    assert_eq!(users_to_delete(&[], &all), all);
    assert!(users_to_delete(&[1, 2, 3, 4], &all).is_empty());
}

#[test]
fn rows_split_back_into_their_fields() {
    let rows = [
        CtxTlRow { start_ts: -17, end_ts: Some(i64::MAX), ty: CtxType::EditorDriving, map_id: i32::MIN, is_dd2_uid: true },
        CtxTlRow { start_ts: 0, end_ts: None, ty: CtxType::MainMenu, map_id: 0, is_dd2_uid: false },
    ];
    for row in rows.iter() {
        let text = row.to_row_string();
        let f: Vec<&str> = text.split(", ").collect();
        assert_eq!(f.len(), CtxTlRow::headers().len());
        assert_eq!(f[0], row.start_ts.to_string());
        assert_eq!(f[1], row.end_ts.map_or(String::new(), |t| t.to_string()));
        assert_eq!(f[2], row.ty.as_int().to_string());
        assert_eq!(f[3], row.map_id.to_string());
        assert_eq!(f[4], if row.is_dd2_uid { "1" } else { "0" });
    }
}

#[test]
fn eleven_flags_classify_when_an_editor_flag_is_set() {
    let mut c = ctx(1, 0, &[5]);
    c.flags.truncate(11);
    c.managers = MGRS_IN_MAP;
    assert_eq!(CtxType::of_context(&c).as_int(), CtxType::EditorDriving.as_int());
    assert_eq!(gen_ctx_timeline_desc_row(&c, None).to_row_string(), "0, , 12, -1, 0");
}

#[test]
fn summary_rows() {
    assert_eq!(scene_flags_row(&[true, false, true], Some(3311), 42), "3311,42,101");
    assert_eq!(scene_flags_row(&[], None, 0), "-111,0,");
    assert_eq!(managers_row(MGRS_IN_MAP, 7), "431351055724756843,7");
    assert_eq!(managers_row(-5, -1), "-5,-1");
}

#[test]
fn extreme_timestamps_print_in_full() {
    let row = CtxTlRow { start_ts: i64::MIN, end_ts: Some(i64::MAX), ty: CtxType::Unk, map_id: i32::MIN, is_dd2_uid: false };
    assert_eq!(
        row.to_row_string(),
        format!("{}, {}, 7, {}, 0", i64::MIN, i64::MAX, i32::MIN)
    );
}
