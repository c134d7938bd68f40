//! One step of a player's read loop: what a request changes in the session's
//! state and what the loop must then do (store, send, log or drop). The loop
//! itself, the database and the socket are the caller's.
use vstd::prelude::*;
use vstd::utf8::{encode_utf8, is_char_boundary};
use crate::context_flags::hex_body;
use crate::queries::respawn_race_time;
use crate::router::{GameMap, PlayerCtx};
use crate::session::{
    ctx_after_check, is_official_report, parse_context_report, pb_report_decision, pb_report_spec, report_counts,
    PbReport,
};
use crate::text::{parses_unsigned, unsigned_value};

verus! {

broadcast use vstd::string::group_string_axioms;

/// What the read loop keeps between requests: the current context, its id,
/// and the id of the context before it.
pub struct SessionState {
    pub ctx: Option<PlayerCtx>,
    pub ctx_id: Option<u128>,
    pub previous_ctx_id: Option<u128>,
}

/// A request as the read loop sees it: the values its decisions read.
/// Payloads that only travel to the database (positions, stats, heights)
/// stay with the caller.
pub enum ClientRequest {
    /// Ignored once logged in.
    Authenticate,
    /// Ignored once logged in.
    ResumeSession,
    /// A new context: packed scene flags and managers as hexadecimal text,
    /// the map, the climbing item, block and item counts, editor presence.
    ReportContext { sf: String, mi: String, map: Option<GameMap>, i: Option<bool>, bi: [i32; 2], e: Option<bool> },
    /// Ignored.
    ReportGCNodMsg,
    Ping,
    ReportVehicleState,
    ReportRespawn { race_time: i64 },
    ReportFinish { race_time: i32 },
    /// Ignored.
    ReportFallStart,
    /// Ignored.
    ReportFallEnd,
    ReportStats,
    ReportPBHeight,
    /// Answered with a hundred pings.
    StressMe,
    /// A request that only reads and replies.
    Query,
}

/// What the loop does after a request.
pub enum LoopAction {
    /// Store the context with its predecessor, then report the new id with
    /// `on_context_stored`.
    StoreContext { ctx: PlayerCtx, prior: Option<u128>, bi: [i32; 2], editor: Option<bool> },
    /// Log the error and go on reading.
    LogError(String),
    /// Queue a ping reply.
    SendPing,
    /// Check the current map's cached leaderboard and live players.
    CheckMapOnPing,
    /// Store the reported vehicle state under the context id.
    StoreVehicleState { ctx_id: Option<u128>, is_official: bool },
    StoreRespawn { race_time: i32 },
    StoreFinish { race_time: i32 },
    StoreStats,
    /// The stats were reported outside an official context.
    DropStats,
    UpdatePbHeight,
    DropPbHeight(PbReport),
    /// Queue this many ping replies.
    SendPings(u32),
    /// Carry out the query and reply.
    Answer,
}

/// The predecessor of the next stored context: the current one, else the
/// one before it.
pub open spec fn prior_ctx_id(s: SessionState) -> Option<u128> {
    match s.ctx_id {
        Some(c) => Some(c),
        None => s.previous_ctx_id,
    }
}

/// `s` after its context's verdict was asked for (it is kept).
pub open spec fn with_checked_ctx(s: SessionState) -> SessionState {
    SessionState { ctx: ctx_after_check(s.ctx), ..s }
}

/// The sf and mi texts of a context report both parse.
pub open spec fn report_parses(sf: Seq<char>, mi: Seq<char>) -> bool {
    parses_unsigned(hex_body(sf), 16, u64::MAX as int) && parses_unsigned(hex_body(mi), 16, u64::MAX as int)
}

/// Handles one request. A context report with unparsable sf or mi is only
/// logged, and leaves the state as it was.
pub fn on_request(state: SessionState, req: ClientRequest) -> (r: (SessionState, Vec<LoopAction>))
    requires
        req matches ClientRequest::ReportContext { sf, mi, .. } ==> is_char_boundary(encode_utf8(sf@), 2)
            && is_char_boundary(encode_utf8(mi@), 2),
    ensures
        match req {
            ClientRequest::ReportContext { sf, mi, map, i, bi, e } => if report_parses(sf@, mi@) {
                &&& r.0 == SessionState { previous_ctx_id: prior_ctx_id(state), ..state }
                &&& r.1@ == seq![
                    LoopAction::StoreContext {
                        ctx: PlayerCtx {
                            sf: unsigned_value(hex_body(sf@), 16) as u64,
                            mi: unsigned_value(hex_body(mi@), 16) as u64,
                            map,
                            i: i == Some(true),
                            is_official: None,
                        },
                        prior: prior_ctx_id(state),
                        bi,
                        editor: e,
                    },
                ]
            } else {
                &&& r.0 == state
                &&& r.1@.len() == 1
                &&& r.1@[0] matches LoopAction::LogError(m) && m@ == "Invalid sf/mi: "@ + sf@ + "/"@ + mi@
            },
            ClientRequest::Ping => r.0 == state && r.1@ == if state.ctx is Some {
                seq![LoopAction::SendPing, LoopAction::CheckMapOnPing]
            } else {
                seq![LoopAction::SendPing]
            },
            ClientRequest::ReportVehicleState => r.0 == with_checked_ctx(state) && r.1@ == seq![
                LoopAction::StoreVehicleState { ctx_id: state.ctx_id, is_official: report_counts(state.ctx) },
            ],
            ClientRequest::ReportRespawn { race_time } => r.0 == state && r.1@ == seq![
                LoopAction::StoreRespawn {
                    race_time: if race_time > i32::MAX { -1i32 } else { race_time as i32 },
                },
            ],
            ClientRequest::ReportFinish { race_time } => r.0 == state && r.1@ == seq![
                LoopAction::StoreFinish { race_time },
            ],
            ClientRequest::ReportStats => r.0 == with_checked_ctx(state) && r.1@ == if report_counts(state.ctx) {
                seq![LoopAction::StoreStats]
            } else {
                seq![LoopAction::DropStats]
            },
            ClientRequest::ReportPBHeight => r.0 == with_checked_ctx(state) && r.1@ == match pb_report_spec(
                state.ctx,
            ) {
                PbReport::Accept => seq![LoopAction::UpdatePbHeight],
                reason => seq![LoopAction::DropPbHeight(reason)],
            },
            ClientRequest::StressMe => r.0 == state && r.1@ == seq![LoopAction::SendPings(100)],
            ClientRequest::Query => r.0 == state && r.1@ == seq![LoopAction::Answer],
            _ => r.0 == state && r.1@.len() == 0,
        },
{
    let mut state = state;
    let mut actions: Vec<LoopAction> = Vec::new();
    match req {
        ClientRequest::ReportContext { sf, mi, map, i, bi, e } => {
            match parse_context_report(sf.as_str(), mi.as_str()) {
                Ok((a, b)) => {
                    let prior = match state.ctx_id {
                        Some(c) => Some(c),
                        None => state.previous_ctx_id,
                    };
                    state.previous_ctx_id = prior;
                    let has_vl_item = match i {
                        Some(x) => x,
                        None => false,
                    };
                    let ctx = PlayerCtx::new(a, b, map, has_vl_item);
                    actions.push(LoopAction::StoreContext { ctx, prior, bi, editor: e });
                },
                Err(m) => {
                    actions.push(LoopAction::LogError(m));
                },
            }
        },
        ClientRequest::Ping => {
            actions.push(LoopAction::SendPing);
            if state.ctx.is_some() {
                actions.push(LoopAction::CheckMapOnPing);
            }
        },
        ClientRequest::ReportVehicleState => {
            let ctx_id = state.ctx_id;
            let off = is_official_report(&mut state.ctx);
            actions.push(LoopAction::StoreVehicleState { ctx_id, is_official: off });
        },
        ClientRequest::ReportRespawn { race_time } => {
            actions.push(LoopAction::StoreRespawn { race_time: respawn_race_time(race_time) });
        },
        ClientRequest::ReportFinish { race_time } => {
            actions.push(LoopAction::StoreFinish { race_time });
        },
        ClientRequest::ReportStats => {
            if is_official_report(&mut state.ctx) {
                actions.push(LoopAction::StoreStats);
            } else {
                actions.push(LoopAction::DropStats);
            }
        },
        ClientRequest::ReportPBHeight => {
            match pb_report_decision(&mut state.ctx) {
                PbReport::Accept => actions.push(LoopAction::UpdatePbHeight),
                reason => actions.push(LoopAction::DropPbHeight(reason)),
            }
        },
        ClientRequest::StressMe => {
            actions.push(LoopAction::SendPings(100));
        },
        ClientRequest::Query => {
            actions.push(LoopAction::Answer);
        },
        _ => {},
    }
    (state, actions)
}

/// After the context of a `StoreContext` was stored under `new_id`: it
/// becomes the current context, and its predecessor (if any) is to be marked
/// as succeeded by it.
pub fn on_context_stored(state: SessionState, ctx: PlayerCtx, new_id: u128) -> (r: (SessionState, Option<(u128, u128)>))
    ensures
        r.0 == (SessionState { ctx: Some(ctx), ctx_id: Some(new_id), previous_ctx_id: state.previous_ctx_id }),
        r.1 == match state.previous_ctx_id {
            Some(p) => Some((p, new_id)),
            None => None::<(u128, u128)>,
        },
{
    let mark = match state.previous_ctx_id {
        Some(p) => Some((p, new_id)),
        None => None,
    };
    (SessionState { ctx: Some(ctx), ctx_id: Some(new_id), previous_ctx_id: state.previous_ctx_id }, mark)
}

} // verus!
