use dipspp::consts::DD2_MAP_UID;
use dipspp::read_loop::{on_context_stored, on_request, ClientRequest, LoopAction, SessionState};
use dipspp::router::{GameMap, PlayerCtx};
use dipspp::session::PbReport;

fn empty() -> SessionState {
    SessionState { ctx: None, ctx_id: None, previous_ctx_id: None }
}

fn dd2() -> GameMap {
    GameMap { uid: DD2_MAP_UID.to_string(), name: "Deep Dip 2".to_string(), hash: String::new() }
}

fn report(sf: &str, mi: &str) -> ClientRequest {
    ClientRequest::ReportContext { sf: sf.to_string(), mi: mi.to_string(), map: Some(dd2()), i: Some(true), bi: [3, 4], e: None }
}

#[test]
fn context_report_then_store() {
    let (s, acts) = on_request(empty(), report("0xCEF", "0x10"));
    assert_eq!(acts.len(), 1);
    let ctx = match &acts[0] {
        LoopAction::StoreContext { ctx, prior, bi, editor } => {
            assert_eq!(ctx.sf, 3311);
            assert_eq!(ctx.mi, 16);
            assert!(ctx.i);
            assert!(ctx.is_official.is_none());
            assert_eq!(*prior, None);
            assert_eq!(*bi, [3, 4]);
            assert_eq!(*editor, None);
            PlayerCtx::new(ctx.sf, ctx.mi, Some(dd2()), ctx.i)
        }
        _ => panic!("a parsed report is stored"),
    };
    let (s, mark) = on_context_stored(s, ctx, 77);
    assert_eq!(mark, None);
    assert_eq!(s.ctx_id, Some(77));
    // the next report names the stored context as its predecessor
    let (s2, acts) = on_request(s, report("2b", "0"));
    assert_eq!(s2.previous_ctx_id, Some(77));
    match &acts[0] {
        LoopAction::StoreContext { prior, ctx, .. } => {
            assert_eq!(*prior, Some(77));
            assert_eq!(ctx.sf, 43);
        }
        _ => panic!("a parsed report is stored"),
    }
    let (s3, mark) = on_context_stored(s2, PlayerCtx::new(43, 0, None, false), 78);
    assert_eq!(mark, Some((77, 78)));
    assert_eq!(s3.ctx_id, Some(78));
    assert_eq!(s3.previous_ctx_id, Some(77));
}

#[test]
fn bad_context_report_is_only_logged() {
    let start = SessionState { ctx: None, ctx_id: Some(5), previous_ctx_id: Some(4) };
    let (s, acts) = on_request(start, report("0xzz", "10"));
    assert_eq!(s.ctx_id, Some(5));
    assert_eq!(s.previous_ctx_id, Some(4));
    assert!(s.ctx.is_none());
    match &acts[..] {
        [LoopAction::LogError(m)] => assert_eq!(m, "Invalid sf/mi: 0xzz/10"),
        _ => panic!("one logged error"),
    }
}

#[test]
fn pings_reports_and_queries() {
    let (_, acts) = on_request(empty(), ClientRequest::Ping);
    assert!(matches!(&acts[..], [LoopAction::SendPing]));
    let with_ctx = SessionState { ctx: Some(PlayerCtx::new(3311, 0, Some(dd2()), false)), ctx_id: Some(9), previous_ctx_id: None };
    let (s, acts) = on_request(with_ctx, ClientRequest::Ping);
    assert!(matches!(&acts[..], [LoopAction::SendPing, LoopAction::CheckMapOnPing]));
    let (s, acts) = on_request(s, ClientRequest::ReportVehicleState);
    assert!(matches!(&acts[..], [LoopAction::StoreVehicleState { ctx_id: Some(9), is_official: true }]));
    assert_eq!(s.ctx.as_ref().unwrap().is_official, Some(true));
    let (s, acts) = on_request(s, ClientRequest::ReportStats);
    assert!(matches!(&acts[..], [LoopAction::StoreStats]));
    let (s, acts) = on_request(s, ClientRequest::ReportPBHeight);
    assert!(matches!(&acts[..], [LoopAction::UpdatePbHeight]));
    let (s, acts) = on_request(s, ClientRequest::ReportRespawn { race_time: 1 << 40 });
    assert!(matches!(&acts[..], [LoopAction::StoreRespawn { race_time: -1 }]));
    let (s, acts) = on_request(s, ClientRequest::ReportFinish { race_time: 12345 });
    assert!(matches!(&acts[..], [LoopAction::StoreFinish { race_time: 12345 }]));
    let (s, acts) = on_request(s, ClientRequest::StressMe);
    assert!(matches!(&acts[..], [LoopAction::SendPings(100)]));
    let (s, acts) = on_request(s, ClientRequest::Query);
    assert!(matches!(&acts[..], [LoopAction::Answer]));
    let (_, acts) = on_request(s, ClientRequest::ReportFallStart);
    assert!(acts.is_empty());
    let (_, acts) = on_request(empty(), ClientRequest::ReportStats);
    assert!(matches!(&acts[..], [LoopAction::DropStats]));
    let (_, acts) = on_request(empty(), ClientRequest::ReportPBHeight);
    assert!(matches!(&acts[..], [LoopAction::DropPbHeight(PbReport::NoContext)]));
    let (_, acts) = on_request(empty(), ClientRequest::Authenticate);
    assert!(acts.is_empty());
}
