use dipspp::consts::DD2_MAP_UID;
use dipspp::router::{GameMap, PlayerCtx, RequestKind, ResponseKind};
use dipspp::wire::{encode_frame, parse_frame_header, FrameError, FRAME_HEADER_LEN};

#[test]
fn frame_header_layout() {
    let f = encode_frame(8, b"{}");
    assert_eq!(f, vec![7, 0, 0, 0, 8, 2, 0, 0, 0, b'{', b'}']);
    let g = encode_frame(129, &[]);
    assert_eq!(g, vec![5, 0, 0, 0, 129, 0, 0, 0, 0]);
}

#[test]
fn frame_round_trip() {
    let payload: Vec<u8> = (0..300u32).map(|i| (i % 251) as u8).collect();
    let f = encode_frame(37, &payload);
    assert_eq!(f.len(), FRAME_HEADER_LEN + payload.len());
    let h = match parse_frame_header(&f[..FRAME_HEADER_LEN]) {
        Ok(h) => h,
        Err(_) => panic!("header of an encoded frame must parse"),
    };
    assert_eq!(h.len, 305);
    assert_eq!(h.ty, 37);
    assert_eq!(h.str_len, 300);
    assert_eq!(&f[FRAME_HEADER_LEN..], &payload[..]);
}

#[test]
fn frame_header_with_wrong_length_is_refused() {
    let bad = [6u8, 0, 0, 0, 8, 2, 0, 0, 0];
    assert!(matches!(parse_frame_header(&bad), Err(FrameError::InvalidLength)));
    let big = [4u8, 1, 0, 0, 3, 255, 0, 0, 0];
    match parse_frame_header(&big) {
        Ok(h) => {
            assert_eq!(h.len, 260);
            assert_eq!(h.ty, 3);
            assert_eq!(h.str_len, 255);
        }
        Err(_) => panic!("260 = 255 + 5"),
    }
}

#[test]
fn request_and_response_kinds() {
    assert_eq!(RequestKind::Authenticate.ty(), 1);
    assert_eq!(RequestKind::ReportGCNodMsg.ty(), 4);
    assert_eq!(RequestKind::ReportGCNodMsg.name(), "ReportGameCamNod");
    assert_eq!(RequestKind::ReportPBHeight.ty(), 39);
    assert_eq!(RequestKind::GetFriendsLB.ty(), 130);
    assert_eq!(RequestKind::StressMe.ty(), 255);
    assert_eq!(RequestKind::Ping.name(), "Ping");
    assert_eq!(ResponseKind::into(&ResponseKind::ServerInfo), 9);
    assert_eq!(ResponseKind::into(&ResponseKind::NewRecord), 32);
    assert_eq!(ResponseKind::FriendsLB.name(), "FriendsLB");
}

fn map(uid: &str) -> GameMap {
    GameMap { uid: uid.to_string(), name: "a map".to_string(), hash: String::new() }
}

#[test]
fn dd2_map_is_recognised_by_prefix() {
    assert!(map(DD2_MAP_UID).is_dd2());
    assert!(map("DeepDip2__The_Storm_Is_Here_and_more").is_dd2());
    assert!(!map("DeepDip2__The_Storm_Is_Her").is_dd2());
    assert!(!map("CustomClimbMap_____________").is_dd2());
}

#[test]
fn official_context_needs_flags_and_dd2_map() {
    // 3311 packs flags 0 and 2: playing, not in an editor
    let mut c = PlayerCtx::new(3311, 0, Some(map(DD2_MAP_UID)), true);
    assert!(c.is_official.is_none());
    assert!(c.is_official());
    assert_eq!(c.is_official, Some(true));
    assert_eq!(c.sf, 3311);
    assert!(c.i);
    let mut other = PlayerCtx::new(3311, 0, Some(map("CustomClimbMap_____________")), false);
    assert!(!other.is_official());
    let mut no_map = PlayerCtx::new(3311, 0, None, false);
    assert!(!no_map.is_official());
    // 2279 packs flags 2 and 5: in an editor
    let mut editor = PlayerCtx::new(2279, 0, Some(map(DD2_MAP_UID)), false);
    assert!(!editor.is_official());
    let mut d = PlayerCtx::default();
    assert_eq!(d.sf, 0);
    assert!(d.map.is_none());
    assert!(d.is_official.is_none());
    assert!(!d.is_official());
}

#[test]
fn official_verdict_is_kept_once_asked() {
    // 43 packs flag 2 alone: playing
    let mut c = PlayerCtx::new(43, 0, Some(map(DD2_MAP_UID)), false);
    assert!(c.is_official());
    c.sf = 1;
    c.map = None;
    assert!(c.is_official());
    // a context never asked answers from its current fields
    let mut fresh = PlayerCtx::new(43, 0, Some(map(DD2_MAP_UID)), false);
    fresh.sf = 1;
    assert!(!fresh.is_official());
    fresh.sf = 43;
    assert!(!fresh.is_official());
}

#[test]
fn copies_keep_the_verdict() {
    let mut p = PlayerCtx::new(43, 0, Some(map(DD2_MAP_UID)), false);
    let before = p.clone();
    assert!(p.is_official());
    let mut after = p.clone();
    assert_eq!(after.is_official, Some(true));
    after.sf = 1;
    after.map = None;
    assert!(after.is_official());
    // a copy taken before the first question works its verdict out itself
    let mut b = before;
    assert!(b.is_official.is_none());
    assert!(b.is_official());
    assert_eq!(p.map.clone().unwrap().uid, DD2_MAP_UID);
}
