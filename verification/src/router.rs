//! Values the game client reports about its context, and small records the
//! server hands out.
use vstd::prelude::*;
use crate::consts::{dd2_map_uid, dd2_map_uid_chars};
use crate::context_flags::{check_flags_sf_mi, decode_spec, flags_not_in_editor};
use crate::text::{chars_of, starts_with, starts_with_spec};

verus! {

/// The database handle a router is built with (it holds nothing).
pub struct Database {}

/// An auxiliary game-camera node report (it holds nothing).
pub struct AuxGCNod {}

/// Counters shown to players about the server.
pub struct ServerInfo {
    pub nb_players: u32,
    pub nb_sessions: u32,
    pub nb_falls: u32,
    pub nb_floors_fallen: u32,
    pub total_height_fallen: u32,
}

/// A map the player is on.
pub struct GameMap {
    pub uid: String,
    pub name: String,
    /// Either 64 hex characters, or a raw string, or empty for none.
    pub hash: String,
}

impl GameMap {
    /// The map is the Deep Dip 2 map (its UID starts with the DD2 UID).
    pub fn is_dd2(&self) -> (r: bool)
        ensures
            r == starts_with_spec(self.uid@, dd2_map_uid()),
    {
        let uid = chars_of(self.uid.as_str());
        let dd2 = dd2_map_uid_chars();
        starts_with(uid.as_slice(), dd2.as_slice())
    }
}

/// The context a player last reported: packed scene flags, packed managers,
/// the map if any, and whether the climbing item is present. The official
/// verdict is worked out once, on the first question, and kept.
pub struct PlayerCtx {
    pub sf: u64,
    pub mi: u64,
    pub map: Option<GameMap>,
    pub i: bool,
    /// The official verdict, once it has been worked out.
    pub is_official: Option<bool>,
}

/// A context is official when the player is not in an editor, is playing,
/// and is on the Deep Dip 2 map.
pub open spec fn ctx_is_official(sf: u64, map: Option<Seq<char>>) -> bool {
    flags_not_in_editor(decode_spec(sf as nat)) && match map {
        Some(uid) => starts_with_spec(uid, dd2_map_uid()),
        None => false,
    }
}

/// The answer of `is_official` on `c`: the kept verdict, or the one worked
/// out from the fields when none is kept yet.
pub open spec fn official_verdict(c: PlayerCtx) -> bool {
    match c.is_official {
        Some(b) => b,
        None => ctx_is_official(c.sf, c.map_uid()),
    }
}

/// `c` after `is_official` was asked: the verdict is kept.
pub open spec fn after_official_check(c: PlayerCtx) -> PlayerCtx {
    PlayerCtx { is_official: Some(official_verdict(c)), ..c }
}

impl PlayerCtx {
    /// The UID of the context's map, if any.
    pub open spec fn map_uid(&self) -> Option<Seq<char>> {
        match self.map {
            Some(m) => Some(m.uid@),
            None => None,
        }
    }

    /// A context with no verdict kept yet.
    pub fn new(sf: u64, mi: u64, map: Option<GameMap>, i: bool) -> (c: Self)
        ensures
            c.sf == sf,
            c.mi == mi,
            c.map == map,
            c.i == i,
            c.is_official is None,
    {
        PlayerCtx { sf, mi, map, i, is_official: None }
    }

    /// Whether climbs reported in this context count (see `ctx_is_official`).
    /// The first answer is kept and given again on every later question,
    /// whatever the fields have become since.
    pub fn is_official(&mut self) -> (r: bool)
        ensures
            r == official_verdict(*old(self)),
            *final(self) == after_official_check(*old(self)),
    {
        match self.is_official {
            Some(b) => b,
            None => {
                let flags_ok = check_flags_sf_mi(self.sf, self.mi);
                let on_dd2 = match &self.map {
                    Some(m) => m.is_dd2(),
                    None => false,
                };
                let ans = flags_ok && on_dd2;
                self.is_official = Some(ans);
                ans
            },
        }
    }
}

impl Clone for GameMap {
    fn clone(&self) -> (r: Self)
        ensures
            r.uid@ == self.uid@,
            r.name@ == self.name@,
            r.hash@ == self.hash@,
    {
        GameMap { uid: self.uid.clone(), name: self.name.clone(), hash: self.hash.clone() }
    }
}

/// `q` is a copy of `p`: the same packed values, map and kept verdict.
pub open spec fn same_ctx(p: PlayerCtx, q: PlayerCtx) -> bool {
    &&& q.sf == p.sf
    &&& q.mi == p.mi
    &&& q.i == p.i
    &&& q.is_official == p.is_official
    &&& q.map_uid() == p.map_uid()
}

impl Clone for PlayerCtx {
    /// A copy with the same values and the same kept verdict.
    fn clone(&self) -> (r: Self)
        ensures
            same_ctx(*self, r),
    {
        let map = match &self.map {
            Some(m) => Some(m.clone()),
            None => None,
        };
        PlayerCtx { sf: self.sf, mi: self.mi, map, i: self.i, is_official: self.is_official }
    }
}

/// A copy of a context answers as the context does; once the verdict is
/// kept, the context and every copy taken since answer it again, whatever
/// their fields become.
pub proof fn lemma_copies_share_verdict(p: PlayerCtx, q: PlayerCtx, sf: u64, mi: u64, map: Option<GameMap>)
    requires
        same_ctx(p, q),
    ensures
        official_verdict(q) == official_verdict(p),
        same_ctx(after_official_check(p), after_official_check(q)),
        official_verdict(PlayerCtx { sf, mi, map, ..after_official_check(q) }) == official_verdict(p),
{
}

/// Once a context's verdict has been asked for, later questions get the same
/// answer, whatever its flags, managers and map have become.
pub proof fn lemma_official_verdict_kept(c: PlayerCtx, sf: u64, mi: u64, map: Option<GameMap>)
    ensures
        official_verdict(PlayerCtx { sf, mi, map, ..after_official_check(c) }) == official_verdict(c),
{
}

impl Default for PlayerCtx {
    fn default() -> (c: Self)
        ensures
            c.sf == 0,
            c.mi == 0,
            c.map is None,
            !c.i,
            c.is_official is None,
    {
        PlayerCtx::new(0, 0, None, false)
    }
}

/// The kinds of request a client sends; each has its own type byte on the wire.
#[derive(PartialEq, Eq, Structural)]
pub enum RequestKind {
    Authenticate,
    ResumeSession,
    ReportContext,
    ReportGCNodMsg,
    Ping,
    ReportVehicleState,
    ReportRespawn,
    ReportFinish,
    ReportFallStart,
    ReportFallEnd,
    ReportStats,
    ReportPBHeight,
    GetMyStats,
    GetGlobalLB,
    GetFriendsLB,
    StressMe,
}

/// The type byte of a request kind.
pub open spec fn request_ty(k: RequestKind) -> u8 {
    match k {
        RequestKind::Authenticate => 1,
        RequestKind::ResumeSession => 2,
        RequestKind::ReportContext => 3,
        RequestKind::ReportGCNodMsg => 4,
        RequestKind::Ping => 8,
        RequestKind::ReportVehicleState => 32,
        RequestKind::ReportRespawn => 33,
        RequestKind::ReportFinish => 34,
        RequestKind::ReportFallStart => 35,
        RequestKind::ReportFallEnd => 36,
        RequestKind::ReportStats => 37,
        RequestKind::ReportPBHeight => 39,
        RequestKind::GetMyStats => 128,
        RequestKind::GetGlobalLB => 129,
        RequestKind::GetFriendsLB => 130,
        RequestKind::StressMe => 255,
    }
}

impl RequestKind {
    /// The type byte sent in the frame header (see `request_ty`).
    pub fn ty(&self) -> (r: u8)
        ensures
            r == request_ty(*self),
    {
        match self {
            RequestKind::Authenticate => 1,
            RequestKind::ResumeSession => 2,
            RequestKind::ReportContext => 3,
            RequestKind::ReportGCNodMsg => 4,
            RequestKind::Ping => 8,
            RequestKind::ReportVehicleState => 32,
            RequestKind::ReportRespawn => 33,
            RequestKind::ReportFinish => 34,
            RequestKind::ReportFallStart => 35,
            RequestKind::ReportFallEnd => 36,
            RequestKind::ReportStats => 37,
            RequestKind::ReportPBHeight => 39,
            RequestKind::GetMyStats => 128,
            RequestKind::GetGlobalLB => 129,
            RequestKind::GetFriendsLB => 130,
            RequestKind::StressMe => 255,
        }
    }

    /// The name of the request kind, as logs show it.
    pub fn name(&self) -> (r: &'static str)
        ensures
            r@ == match *self {
                RequestKind::Authenticate => "Authenticate"@,
                RequestKind::ResumeSession => "ResumeSession"@,
                RequestKind::ReportContext => "ReportContext"@,
                RequestKind::ReportGCNodMsg => "ReportGameCamNod"@,
                RequestKind::Ping => "Ping"@,
                RequestKind::ReportVehicleState => "ReportVehicleState"@,
                RequestKind::ReportRespawn => "ReportRespawn"@,
                RequestKind::ReportFinish => "ReportFinish"@,
                RequestKind::ReportFallStart => "ReportFallStart"@,
                RequestKind::ReportFallEnd => "ReportFallEnd"@,
                RequestKind::ReportStats => "ReportStats"@,
                RequestKind::ReportPBHeight => "ReportPBHeight"@,
                RequestKind::GetMyStats => "GetMyStats"@,
                RequestKind::GetGlobalLB => "GetGlobalLB"@,
                RequestKind::GetFriendsLB => "GetFriendsLB"@,
                RequestKind::StressMe => "StressMe"@,
            },
    {
        match self {
            RequestKind::Authenticate => "Authenticate",
            RequestKind::ResumeSession => "ResumeSession",
            RequestKind::ReportContext => "ReportContext",
            RequestKind::ReportGCNodMsg => "ReportGameCamNod",
            RequestKind::Ping => "Ping",
            RequestKind::ReportVehicleState => "ReportVehicleState",
            RequestKind::ReportRespawn => "ReportRespawn",
            RequestKind::ReportFinish => "ReportFinish",
            RequestKind::ReportFallStart => "ReportFallStart",
            RequestKind::ReportFallEnd => "ReportFallEnd",
            RequestKind::ReportStats => "ReportStats",
            RequestKind::ReportPBHeight => "ReportPBHeight",
            RequestKind::GetMyStats => "GetMyStats",
            RequestKind::GetGlobalLB => "GetGlobalLB",
            RequestKind::GetFriendsLB => "GetFriendsLB",
            RequestKind::StressMe => "StressMe",
        }
    }
}

/// Distinct request kinds have distinct type bytes, so the type byte of a
/// frame names the kind of its payload.
pub proof fn lemma_request_ty_injective(a: RequestKind, b: RequestKind)
    ensures
        request_ty(a) == request_ty(b) ==> a == b,
{
}

/// The kinds of reply the server sends; each has its own type byte on the wire.
#[derive(PartialEq, Eq, Structural)]
pub enum ResponseKind {
    AuthFail,
    AuthSuccess,
    ContextAck,
    Ping,
    ServerInfo,
    NewRecord,
    Stats,
    GlobalLB,
    FriendsLB,
}

/// The type byte of a reply kind.
pub open spec fn response_ty(k: ResponseKind) -> u8 {
    match k {
        ResponseKind::AuthFail => 1,
        ResponseKind::AuthSuccess => 2,
        ResponseKind::ContextAck => 3,
        ResponseKind::Ping => 8,
        ResponseKind::ServerInfo => 9,
        ResponseKind::NewRecord => 32,
        ResponseKind::Stats => 128,
        ResponseKind::GlobalLB => 129,
        ResponseKind::FriendsLB => 130,
    }
}

impl ResponseKind {
    /// The type byte sent in the frame header (see `response_ty`).
    pub fn into(&self) -> (r: u8)
        ensures
            r == response_ty(*self),
    {
        match self {
            ResponseKind::AuthFail => 1,
            ResponseKind::AuthSuccess => 2,
            ResponseKind::ContextAck => 3,
            ResponseKind::Ping => 8,
            ResponseKind::ServerInfo => 9,
            ResponseKind::NewRecord => 32,
            ResponseKind::Stats => 128,
            ResponseKind::GlobalLB => 129,
            ResponseKind::FriendsLB => 130,
        }
    }

    /// The name of the reply kind, as logs show it.
    pub fn name(&self) -> (r: &'static str)
        ensures
            r@ == match *self {
                ResponseKind::AuthFail => "AuthFail"@,
                ResponseKind::AuthSuccess => "AuthSuccess"@,
                ResponseKind::ContextAck => "ContextAck"@,
                ResponseKind::Ping => "Ping"@,
                ResponseKind::ServerInfo => "ServerInfo"@,
                ResponseKind::NewRecord => "NewRecord"@,
                ResponseKind::Stats => "Stats"@,
                ResponseKind::GlobalLB => "GlobalLB"@,
                ResponseKind::FriendsLB => "FriendsLB"@,
            },
    {
        match self {
            ResponseKind::AuthFail => "AuthFail",
            ResponseKind::AuthSuccess => "AuthSuccess",
            ResponseKind::ContextAck => "ContextAck",
            ResponseKind::Ping => "Ping",
            ResponseKind::ServerInfo => "ServerInfo",
            ResponseKind::NewRecord => "NewRecord",
            ResponseKind::Stats => "Stats",
            ResponseKind::GlobalLB => "GlobalLB",
            ResponseKind::FriendsLB => "FriendsLB",
        }
    }
}

/// Distinct reply kinds have distinct type bytes.
pub proof fn lemma_response_ty_injective(a: ResponseKind, b: ResponseKind)
    ensures
        response_ty(a) == response_ty(b) ==> a == b,
{
}

} // verus!
