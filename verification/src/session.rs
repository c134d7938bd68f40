//! Decisions a connected player's session makes: which reports count, when to
//! push map updates, which secret assets to hand out, and the plugin version
//! gate; and the manager's bookkeeping of connected players.
use vstd::prelude::*;
use vstd::string::StringSliceAdditionalSpecFns;
use vstd::utf8::is_char_boundary;
use crate::consts::dd2_map_uid;
use crate::context_flags::{decode_spec, flags_not_in_editor, hex_body, parse_u64_str};
use crate::ids::{uuid_hyphenated, uuid_text};
use crate::router::{after_official_check, official_verdict, PlayerCtx};
use crate::text::{chars_of, parses_unsigned, push_str, unsigned_value};
use crate::version::{
    extracted_version, plugin_info_extract_version, version_less, version_less_spec, version_parses,
    version_parts, version_str_to_parts, version_text, version_to_string, MIN_PLUGIN_VERSION,
};

verus! {

broadcast use vstd::string::group_string_axioms;

// ---------------------------------------------------------------------------
// Plugin version gate
// ---------------------------------------------------------------------------

/// The version parts of a plugin description; `0.0.0` when they do not parse.
pub open spec fn plugin_version_parts(plugin_info: Seq<char>) -> Seq<u32> {
    let v = extracted_version(plugin_info);
    if version_parses(v) {
        version_parts(v).map_values(|x: int| x as u32)
    } else {
        seq![0u32, 0u32, 0u32]
    }
}

/// Refuses plugins older than `MIN_PLUGIN_VERSION` with the message
/// `Update Plugin! Version too low: ` followed by the version.
pub fn check_min_plugin_version(plugin_info: &str) -> (r: Result<(), String>)
    ensures
        r is Err <==> version_less_spec(plugin_version_parts(plugin_info@), MIN_PLUGIN_VERSION@),
        r matches Err(m) ==> m@ == "Update Plugin! Version too low: "@ + version_text(
            plugin_version_parts(plugin_info@),
        ),
{
    let version = plugin_info_extract_version(plugin_info);
    let parts = match version_str_to_parts(version.as_str()) {
        Ok(p) => p,
        Err(_) => {
            let mut z: Vec<u32> = Vec::new();
            z.push(0);
            z.push(0);
            z.push(0);
            z
        },
    };
    assert(parts@ =~= plugin_version_parts(plugin_info@));
    let minv = MIN_PLUGIN_VERSION;
    if version_less(parts.as_slice(), &minv) {
        let mut m = <String as vstd::string::StringExecFns>::from_str("Update Plugin! Version too low: ");
        let t = version_to_string(parts.as_slice());
        push_str(&mut m, t.as_str());
        return Err(m);
    }
    Ok(())
}

/// A logged-in player: who they are, their session, whether the session was
/// resumed, and the plugin version they reported.
pub struct LoginSession {
    pub user_id: u128,
    pub display_name: String,
    pub session_token: u128,
    pub resumed: bool,
    pub plugin_ver: String,
}

impl LoginSession {
    /// A login by token (`resumed` false) or by session (`resumed` true);
    /// the plugin version is read from the plugin description.
    pub fn new(user_id: u128, display_name: String, session_token: u128, resumed: bool, plugin_info: &str) -> (r: Self)
        ensures
            r.user_id == user_id,
            r.display_name@ == display_name@,
            r.session_token == session_token,
            r.resumed == resumed,
            r.plugin_ver@ == extracted_version(plugin_info@),
    {
        LoginSession { user_id, display_name, session_token, resumed, plugin_ver: plugin_info_extract_version(plugin_info) }
    }

    pub fn display_name(&self) -> (r: &str)
        ensures
            r@ == self.display_name@,
    {
        self.display_name.as_str()
    }

    pub fn user_id(&self) -> (r: u128)
        ensures
            r == self.user_id,
    {
        self.user_id
    }

    pub fn session_id(&self) -> (r: u128)
        ensures
            r == self.session_token,
    {
        self.session_token
    }
}

// ---------------------------------------------------------------------------
// Reports
// ---------------------------------------------------------------------------

/// The packed scene flags and managers of a context report, both sent as
/// hexadecimal text (see `parse_u64_str`); when either does not parse, the
/// error `Invalid sf/mi: ` followed by the two texts separated by `/`.
pub fn parse_context_report(sf: &str, mi: &str) -> (r: Result<(u64, u64), String>)
    requires
        is_char_boundary(sf.spec_bytes(), 2),
        is_char_boundary(mi.spec_bytes(), 2),
    ensures
        r is Ok <==> parses_unsigned(hex_body(sf@), 16, u64::MAX as int) && parses_unsigned(
            hex_body(mi@),
            16,
            u64::MAX as int,
        ),
        r matches Ok((a, b)) ==> a as int == unsigned_value(hex_body(sf@), 16) && b as int == unsigned_value(
            hex_body(mi@),
            16,
        ),
        r matches Err(e) ==> e@ == "Invalid sf/mi: "@ + sf@ + "/"@ + mi@,
{
    match (parse_u64_str(sf), parse_u64_str(mi)) {
        (Ok(a), Ok(b)) => Ok((a, b)),
        _ => {
            let mut e = <String as vstd::string::StringExecFns>::from_str("Invalid sf/mi: ");
            push_str(&mut e, sf);
            push_str(&mut e, "/");
            push_str(&mut e, mi);
            Err(e)
        },
    }
}

/// Whether a report made in `ctx` counts: only in an official context (by
/// the context's kept verdict, see `official_verdict`).
pub open spec fn report_counts(ctx: Option<PlayerCtx>) -> bool {
    match ctx {
        Some(c) => official_verdict(c),
        None => false,
    }
}

/// The context after its official verdict was asked for (it is kept).
pub open spec fn ctx_after_check(ctx: Option<PlayerCtx>) -> Option<PlayerCtx> {
    match ctx {
        Some(c) => Some(after_official_check(c)),
        None => None,
    }
}

/// Whether a stats or vehicle report made in `ctx` counts. Asking keeps the
/// context's verdict.
pub fn is_official_report(ctx: &mut Option<PlayerCtx>) -> (r: bool)
    ensures
        r == report_counts(*old(ctx)),
        *final(ctx) == ctx_after_check(*old(ctx)),
{
    match ctx {
        Some(c) => c.is_official(),
        None => false,
    }
}

/// What happens to a reported personal-best height.
pub enum PbReport {
    /// The context is official: the height is recorded.
    Accept,
    /// Dropped: no context.
    NoContext,
    /// Dropped: the context has no map.
    NoMap,
    /// Dropped: the map is not Deep Dip 2.
    NotDd2,
    /// Dropped: the scene flags say editor or not playing.
    InvalidFlags,
    /// Dropped: the context is not official.
    NotOfficial,
}

/// The outcome of a personal-best report: accepted in an official context
/// (by its kept verdict); otherwise the first reason that applies (no
/// context, no map, a map UID other than exactly the DD2 UID, bad scene
/// flags, not official).
pub open spec fn pb_report_spec(ctx: Option<PlayerCtx>) -> PbReport {
    match ctx {
        None => PbReport::NoContext,
        Some(c) => if official_verdict(c) {
            PbReport::Accept
        } else {
            match c.map {
                None => PbReport::NoMap,
                Some(m) => if m.uid@ != dd2_map_uid() {
                    PbReport::NotDd2
                } else if !flags_not_in_editor(decode_spec(c.sf as nat)) {
                    PbReport::InvalidFlags
                } else {
                    PbReport::NotOfficial
                }
            }
        },
    }
}

/// Decides about a personal-best report (see `pb_report_spec`). Asking keeps
/// the context's verdict.
pub fn pb_report_decision(ctx: &mut Option<PlayerCtx>) -> (r: PbReport)
    ensures
        r == pb_report_spec(*old(ctx)),
        *final(ctx) == ctx_after_check(*old(ctx)),
{
    match ctx {
        None => PbReport::NoContext,
        Some(c) => {
            if c.is_official() {
                return PbReport::Accept;
            }
            match &c.map {
                None => PbReport::NoMap,
                Some(m) => {
                    let uid = chars_of(m.uid.as_str());
                    let dd2 = crate::consts::dd2_map_uid_chars();
                    if !crate::queries::chars_equal(uid.as_slice(), dd2.as_slice()) {
                        PbReport::NotDd2
                    } else if !crate::context_flags::check_flags_sf_mi(c.sf, c.mi) {
                        PbReport::InvalidFlags
                    } else {
                        PbReport::NotOfficial
                    }
                },
            }
        },
    }
}

// ---------------------------------------------------------------------------
// Map updates on ping
// ---------------------------------------------------------------------------

/// Cached map information is refetched after this long.
pub const MAP_CACHE_TTL_MS: u64 = 9000;
/// Map information younger than this is pushed again on a ping.
pub const MAP_SEND_TTL_MS: u64 = 11000;

/// Map information is pushed when the map changed or the cached copy is fresh.
pub fn should_send_map_update(map_changed: bool, age_ms: u64) -> (r: bool)
    ensures
        r == (map_changed || age_ms <= MAP_SEND_TTL_MS),
{
    map_changed || age_ms <= MAP_SEND_TTL_MS
}

/// The remembered map as characters.
pub open spec fn opt_view(s: Option<String>) -> Option<Seq<char>> {
    match s {
        Some(x) => Some(x@),
        None => None,
    }
}

/// Tracks the map a player is in, to notice when they enter a new one: the
/// remembered map becomes the ping's map (none when the ping has none), and
/// the answer is whether it differs from the one remembered before.
pub fn on_ping_check_update_last_map(last_map: &mut Option<String>, map_uid: Option<&str>) -> (changed: bool)
    ensures
        opt_view(*final(last_map)) == match map_uid {
            Some(u) => Some(u@),
            None => None,
        },
        changed == (opt_view(*old(last_map)) != match map_uid {
            Some(u) => Some(u@),
            None => None,
        }),
{
    let changed = match (map_uid, &*last_map) {
        (Some(m), Some(lm)) => {
            let a = chars_of(m);
            let b = chars_of(lm.as_str());
            !crate::queries::chars_equal(a.as_slice(), b.as_slice())
        },
        (Some(_), None) => true,
        (None, Some(_)) => true,
        (None, None) => false,
    };
    *last_map = match map_uid {
        Some(m) => Some(<String as vstd::string::StringExecFns>::from_str(m)),
        None => None,
    };
    changed
}

// ---------------------------------------------------------------------------
// Secret assets
// ---------------------------------------------------------------------------

/// The top players who get their own fanfare.
pub const DD2_TOP_10: [&'static str; 11] = [
    "5d6b14db-4d41-47a4-93e2-36a3bf229f9b",
    "e5a9863b-1844-4436-a8a8-cea583888f8b",
    "d46fb45d-d422-47c9-9785-67270a311e25",
    "e3ff2309-bc24-414a-b9f1-81954236c34b",
    "0fd26a9f-8f70-4f51-85e1-fe99a4ed6ffb",
    "bd45204c-80f1-4809-b983-38b3f0ffc1ef",
    "da4642f9-6acf-43fe-88b6-b120ff1308ba",
    "d320a237-1b0a-4069-af83-f2c09fbf042e",
    "803695f6-8319-4b8e-8c28-44856834fe3b",
    "076d23a5-51a6-48aa-8d99-9d618cd13c93",
    "0a2d1bc0-4aaa-4374-b2db-3d561bdab1c9",
];

/// The user is one of `DD2_TOP_10`.
pub open spec fn in_top_10(user_id: Seq<char>) -> bool {
    exists|i: int| 0 <= i < 11 && #[trigger] DD2_TOP_10@[i]@ == user_id
}

/// Whether the user is one of `DD2_TOP_10`.
pub fn is_in_top_10(user_id: &str) -> (r: bool)
    ensures
        r == in_top_10(user_id@),
{
    let u = chars_of(user_id);
    let top = DD2_TOP_10;
    let mut i: usize = 0;
    while i < 11
        invariant
            i <= 11,
            top@ == DD2_TOP_10@,
            u@ == user_id@,
            forall|j: int| 0 <= j < i ==> #[trigger] DD2_TOP_10@[j]@ != user_id@,
        decreases 11 - i,
    {
        let t = chars_of(top[i]);
        if crate::queries::chars_equal(t.as_slice(), u.as_slice()) {
            return true;
        }
        i = i + 1;
    }
    false
}

/// A file the plugin can download.
pub struct AssetRef {
    pub name: String,
    pub filename: String,
    pub url: String,
}

fn asset(name: &str, filename: &str, url: &str) -> (a: AssetRef)
    ensures
        a.name@ == name@,
        a.filename@ == filename@,
        a.url@ == url@,
{
    AssetRef {
        name: <String as vstd::string::StringExecFns>::from_str(name),
        filename: <String as vstd::string::StringExecFns>::from_str(filename),
        url: <String as vstd::string::StringExecFns>::from_str(url),
    }
}

/// The fanfare named after the player for the top players and, until the
/// top 3 finished, for everyone; `generic` afterwards.
pub open spec fn fanfare_is_personal(user_id: Seq<char>, top3_done: bool) -> bool {
    in_top_10(user_id) || !top3_done
}

/// The six secret assets handed to a player: five fixed files and a
/// fanfare image whose URL names the player or is `generic`.
pub open spec fn is_secret_asset_list(v: Seq<AssetRef>, user_id: Seq<char>, top3_done: bool) -> bool {
    &&& v.len() == 6
    &&& v[0].name@ == "head"@ && v[0].filename@ == "img/s1head.jpg"@
        && v[0].url@ == "https://assets.xk.io/d++/secret/s1head-3948765.jpg"@
    &&& v[1].name@ == "s-flight-vae"@ && v[1].filename@ == "subs/flight-vae.txt"@
        && v[1].url@ == "https://assets.xk.io/d++/secret/subs-vae-3948765.txt"@
    &&& v[2].name@ == "s-flight"@ && v[2].filename@ == "subs/flight.txt"@
        && v[2].url@ == "https://assets.xk.io/d++/secret/subs-3948765.txt"@
    &&& v[3].name@ == "flight-vae"@ && v[3].filename@ == "vl/flight-vae.mp3"@
        && v[3].url@ == "https://assets.xk.io/d++/secret/flight-vae-3948765.mp3"@
    &&& v[4].name@ == "flight"@ && v[4].filename@ == "vl/flight.mp3"@
        && v[4].url@ == "https://assets.xk.io/d++/secret/flight-3948765.mp3"@
    &&& v[5].name@ == "fanfare"@ && v[5].filename@ == "img/fanfare-self.png"@
    &&& v[5].url@ == "https://assets.xk.io/d++/secret/"@ + (if fanfare_is_personal(user_id, top3_done) {
        user_id
    } else {
        "generic"@
    }) + ".png"@
}

/// The secret assets for a player, once the top 3 finished (or at once for
/// the top players): five fixed files and a fanfare image whose URL names
/// the player or is `generic`.
pub fn secret_assets(user_id: &str, top3_done: bool) -> (r: Option<Vec<AssetRef>>)
    ensures
        r is Some <==> (top3_done || in_top_10(user_id@)),
        r matches Some(v) ==> is_secret_asset_list(v@, user_id@, top3_done),
{
    let special = is_in_top_10(user_id);
    if !(top3_done || special) {
        return None;
    }
    let mut url = <String as vstd::string::StringExecFns>::from_str("https://assets.xk.io/d++/secret/");
    if special || !top3_done {
        push_str(&mut url, user_id);
    } else {
        push_str(&mut url, "generic");
    }
    push_str(&mut url, ".png");
    let mut v: Vec<AssetRef> = Vec::new();
    v.push(asset("head", "img/s1head.jpg", "https://assets.xk.io/d++/secret/s1head-3948765.jpg"));
    v.push(asset("s-flight-vae", "subs/flight-vae.txt", "https://assets.xk.io/d++/secret/subs-vae-3948765.txt"));
    v.push(asset("s-flight", "subs/flight.txt", "https://assets.xk.io/d++/secret/subs-3948765.txt"));
    v.push(asset("flight-vae", "vl/flight-vae.mp3", "https://assets.xk.io/d++/secret/flight-vae-3948765.mp3"));
    v.push(asset("flight", "vl/flight.mp3", "https://assets.xk.io/d++/secret/flight-3948765.mp3"));
    v.push(AssetRef {
        name: <String as vstd::string::StringExecFns>::from_str("fanfare"),
        filename: <String as vstd::string::StringExecFns>::from_str("img/fanfare-self.png"),
        url,
    });
    Some(v)
}

/// The secret assets for a player given by id (see `secret_assets`; the id
/// is written as `uuid` displays it).
pub fn secret_assets_for(user_id: u128, top3_done: bool) -> (r: Option<Vec<AssetRef>>)
    ensures
        r is Some <==> (top3_done || in_top_10(uuid_hyphenated(user_id))),
        r matches Some(v) ==> is_secret_asset_list(v@, uuid_hyphenated(user_id), top3_done),
{
    let text = uuid_text(user_id);
    secret_assets(text.as_str(), top3_done)
}

// ---------------------------------------------------------------------------
// Player manager bookkeeping
// ---------------------------------------------------------------------------

/// The items whose `closed` flag is not set, in order.
pub open spec fn keep_open<T>(items: Seq<T>, closed: Seq<bool>) -> Seq<T>
    decreases items.len(),
{
    if items.len() == 0 {
        Seq::empty()
    } else {
        let rest = keep_open(items.drop_last(), closed);
        if closed[items.len() - 1] {
            rest
        } else {
            rest.push(items.last())
        }
    }
}

/// Drops the players whose connection is closed, keeping the others in order.
pub fn remove_closed<T>(players: &mut Vec<T>, closed: &[bool])
    requires
        closed@.len() == old(players)@.len(),
    ensures
        final(players)@ == keep_open(old(players)@, closed@),
{
    let ghost orig = players@;
    let mut rest: Vec<T> = Vec::new();
    std::mem::swap(&mut rest, players);
    let mut i: usize = 0;
    let n = rest.len();
    while rest.len() > 0
        invariant
            i + rest@.len() == n,
            n == orig.len(),
            closed@.len() == n,
            rest@ == orig.skip(i as int),
            players@ == keep_open(orig.take(i as int), closed@),
        decreases rest@.len(),
    {
        let p = rest.remove(0);
        proof {
            assert(orig.take(i + 1).drop_last() =~= orig.take(i as int));
            assert(orig.take(i + 1).last() == orig[i as int]);
            assert(rest@ =~= orig.skip(i + 1));
        }
        if !closed[i] {
            players.push(p);
        }
        i = i + 1;
    }
    assert(orig.take(n as int) =~= orig);
}

/// Server statistics are refreshed and pushed to the players on every
/// tenth round of the top-3 loop, when any player is connected.
pub fn is_stats_round(count: u64, nb_players: usize) -> (r: bool)
    ensures
        r == (count % 10 == 0 && nb_players > 0),
{
    count % 10 == 0 && nb_players > 0
}

/// Pauses between failed accepts double until they pass this many seconds.
pub const ACCEPT_MAX_BACKOFF_S: u64 = 64;

/// What follows a failed accept while the pause is `backoff` seconds:
/// `None` gives up (the pause has passed `ACCEPT_MAX_BACKOFF_S`); otherwise
/// sleep `backoff` seconds and try again with the pause doubled.
pub fn accept_retry(backoff: u64) -> (r: Option<(u64, u64)>)
    ensures
        backoff > ACCEPT_MAX_BACKOFF_S ==> r is None,
        backoff <= ACCEPT_MAX_BACKOFF_S ==> r == Some((backoff, (2 * backoff) as u64)),
{
    if backoff > ACCEPT_MAX_BACKOFF_S {
        None
    } else {
        Some((backoff, backoff * 2))
    }
}

// ---------------------------------------------------------------------------
// Player manager state and errors
// ---------------------------------------------------------------------------

/// State the player manager keeps between rounds: when records were last
/// rechecked, in milliseconds since the epoch, if ever.
pub struct PlayerMgrState {
    pub last_record_check: Option<u64>,
}

impl Default for PlayerMgrState {
    fn default() -> (s: Self)
        ensures
            s.last_record_check is None,
    {
        PlayerMgrState { last_record_check: None }
    }
}

/// An I/O error, as std reports it.
#[verifier::external_type_specification]
#[verifier::external_body]
pub struct ExIoError(std::io::Error);

/// Why the player manager stopped.
pub enum PlayerMgrErr {
    IoError(std::io::Error),
}

impl From<std::io::Error> for PlayerMgrErr {
    fn from(e: std::io::Error) -> (r: Self) {
        PlayerMgrErr::IoError(e)
    }
}

impl vstd::std_specs::convert::FromSpecImpl<std::io::Error> for PlayerMgrErr {
    open spec fn obeys_from_spec() -> bool {
        true
    }

    open spec fn from_spec(e: std::io::Error) -> Self {
        PlayerMgrErr::IoError(e)
    }
}

} // verus!
