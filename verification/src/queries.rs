//! The decisions the database queries make around their SQL: which rows to
//! ask for, which inputs to refuse, and how stored values are converted.
use vstd::prelude::*;
use vstd::string::StringSliceAdditionalSpecFns;
use crate::context_flags::{decode_context_flags, decode_spec};
use crate::router::PlayerCtx;

verus! {

broadcast use vstd::string::group_string_axioms;

// ---------------------------------------------------------------------------
// Leaderboard windows
// ---------------------------------------------------------------------------

/// Rows `start..end` (1-based ranks) of the global leaderboard as `(limit,
/// offset)`, or `None` for an empty window.
pub open spec fn global_lb_window_spec(start: i32, end: i32) -> Option<(int, int)> {
    if end < start {
        None
    } else {
        Some((end - start, if start - 1 > 0 { start - 1 } else { 0 }))
    }
}

/// The `(limit, offset)` of a global leaderboard query for ranks `start..end`.
pub fn global_lb_window(start: i32, end: i32) -> (r: Option<(i64, i64)>)
    requires
        end - start <= i32::MAX,
    ensures
        match global_lb_window_spec(start, end) {
            Some((l, o)) => r == Some((l as i64, o as i64)),
            None => r is None,
        },
{
    if end < start {
        return None;
    }
    let limit = end - start;
    let off = start as i64 - 1;
    let offset = if off > 0 {
        off
    } else {
        0
    };
    Some((limit as i64, offset))
}

/// A non-empty window of ranks `start..end` asks for `end - start` rows and
/// skips the `start - 1` rows before rank `start` (none when `start` is 0
/// or below); it is empty exactly when `end < start`.
pub proof fn lemma_global_lb_window_rows(start: i32, end: i32)
    ensures
        end < start ==> global_lb_window_spec(start, end) is None,
        start <= end && start >= 1 ==> global_lb_window_spec(start, end) == Some(((end - start) as int, (start - 1) as int)),
        start <= end && start <= 0 ==> global_lb_window_spec(start, end) == Some(((end - start) as int, 0int)),
{
}

/// Moving a window one rank on skips one more row and asks for as many.
pub proof fn lemma_global_lb_window_shift(start: i32, end: i32)
    requires
        1 <= start <= end < i32::MAX,
    ensures
        ({
            let w1 = global_lb_window_spec(start, end);
            let w2 = global_lb_window_spec((start + 1) as i32, (end + 1) as i32);
            w1 is Some && w2 is Some && w2.unwrap().0 == w1.unwrap().0 && w2.unwrap().1 == w1.unwrap().1 + 1
        }),
{
}

/// From page 1 on, the windows of consecutive pages of the global
/// leaderboard API adjoin: each page skips what the page before skipped
/// and asked for, 100 rows each. (Page 1 skips 99 rows after page 0's 100,
/// so rank 100 appears on both.)
pub proof fn lemma_global_lb_pages_adjoin(page: u32)
    requires
        1 <= page,
        (page + 1) * 100 + 100 <= i32::MAX,
    ensures
        ({
            let p1 = global_lb_page_spec(page);
            let p2 = global_lb_page_spec((page + 1) as u32);
            let w1 = global_lb_window_spec(p1.0 as i32, p1.1 as i32);
            let w2 = global_lb_window_spec(p2.0 as i32, p2.1 as i32);
            &&& w1 == Some((100int, page * 100 - 1))
            &&& w2 is Some && w2.unwrap().0 == 100 && w2.unwrap().1 == w1.unwrap().1 + w1.unwrap().0
        }),
{
    assert((page * 100) as u32 == page * 100);
    assert(((page * 100) as u32) as i32 == page * 100);
    assert((((page + 1) as u32) * 100) as u32 == (page + 1) * 100);
    assert(((((page + 1) as u32) * 100) as u32) as i32 == (page + 1) * 100);
}

/// The ranks asked for by page `page` of the global leaderboard API (100 per page).
pub open spec fn global_lb_page_spec(page: u32) -> (int, int) {
    let start = (page * 100) as i32;
    (start as int, start + 100)
}

/// The ranks `(start, end)` asked for by page `page` of the global leaderboard API.
pub fn global_lb_page_bounds(page: u32) -> (r: (i32, i32))
    requires
        page * 100 <= u32::MAX,
        ((page * 100) as i32) <= i32::MAX - 100,
    ensures
        r.0 == global_lb_page_spec(page).0,
        r.1 == global_lb_page_spec(page).1,
{
    let start = (page * 100) as i32;
    let end = start + 100;
    (start, end)
}

/// The rows `(start, end)` of page `page` of a map leaderboard (100 per page).
pub fn map_lb_page_bounds(page: u32) -> (r: (i64, i64))
    requires
        page * 100 <= u32::MAX,
    ensures
        r.0 == page * 100,
        r.1 == page * 100 + 100,
{
    let start = (page * 100) as i64;
    (start, start + 100)
}

/// The `(limit, offset)` of a map leaderboard query for rows `start..end`.
pub fn map_lb_window(start: i64, end: i64) -> (r: (i64, i64))
    requires
        i64::MIN <= end - start <= i64::MAX,
    ensures
        r.0 == end - start,
        r.1 == start,
{
    (end - start, start)
}

// ---------------------------------------------------------------------------
// Map UIDs
// ---------------------------------------------------------------------------

/// Map leaderboards are kept for UIDs of at most 30 bytes.
pub fn is_lb_map_uid(uid: &str) -> (r: bool)
    requires
        uid.spec_bytes().len() <= usize::MAX,
    ensures
        r == (uid.spec_bytes().len() <= 30),
{
    uid.len() <= 30
}

/// Live heights are kept for UIDs of 20 to 29 bytes.
pub fn is_live_map_uid(uid: &str) -> (r: bool)
    requires
        uid.spec_bytes().len() <= usize::MAX,
    ensures
        r == (20 <= uid.spec_bytes().len() < 30),
{
    let n = uid.len();
    20 <= n && n < 30
}

/// Current positions are recorded for UIDs of exactly 27 bytes.
pub fn is_position_map_uid(uid: &str) -> (r: bool)
    requires
        uid.spec_bytes().len() <= usize::MAX,
    ensures
        r == (uid.spec_bytes().len() == 27),
{
    uid.len() == 27
}

// ---------------------------------------------------------------------------
// Game camera nodes
// ---------------------------------------------------------------------------

/// Eight zero bytes from `at` on.
pub open spec fn zero8(raw: Seq<u8>, at: int) -> bool {
    forall|i: int| at <= i < at + 8 ==> raw[i] == 0
}

fn is_zero8(raw: &[u8], at: usize) -> (r: bool)
    requires
        at + 8 <= raw@.len(),
    ensures
        r == zero8(raw@, at as int),
{
    let n = raw.len();
    let end = at + 8;
    let mut i = at;
    while i < end
        invariant
            at <= i <= end,
            end == at + 8,
            end <= raw@.len(),
            forall|j: int| at <= j < i ==> raw@[j] == 0,
        decreases end - i,
    {
        if raw[i] != 0 {
            return false;
        }
        i = i + 1;
    }
    true
}

/// A stored game camera node.
pub struct GameCamNod {
    pub id: i32,
    pub session_token: u128,
    pub context_id: u128,
    pub raw: Vec<u8>,
}

impl GameCamNod {
    /// The race node pointer (bytes 0x70..0x78) is null.
    pub fn is_race_nod_null(&self) -> (r: bool)
        requires
            self.raw@.len() >= 0x78,
        ensures
            r == zero8(self.raw@, 0x70),
    {
        is_zero8(self.raw.as_slice(), 0x70)
    }

    /// The editor camera pointer (bytes 0x80..0x88) is null.
    pub fn is_editor_cam_null(&self) -> (r: bool)
        requires
            self.raw@.len() >= 0x88,
        ensures
            r == zero8(self.raw@, 0x80),
    {
        is_zero8(self.raw.as_slice(), 0x80)
    }

    /// Bytes 0x88..0x90 are null.
    pub fn is_race_88_null(&self) -> (r: bool)
        requires
            self.raw@.len() >= 0x90,
        ensures
            r == zero8(self.raw@, 0x88),
    {
        is_zero8(self.raw.as_slice(), 0x88)
    }

    /// Byte 0x1a8 is 0x16.
    pub fn is_cam_1a8_16(&self) -> (r: bool)
        requires
            self.raw@.len() > 0x1a8,
        ensures
            r == (self.raw@[0x1a8] == 0x16),
    {
        self.raw[0x1a8] == 0x16
    }
}

/// The summary columns stored with a game camera node: short nodes (under
/// 0x2C0 bytes) get `(0, true, true, true, false)`.
pub open spec fn gc_nod_flags_spec(nod: Seq<u8>) -> (u8, bool, bool, bool, bool) {
    if nod.len() < 0x2C0 {
        (0, true, true, true, false)
    } else {
        (nod[0], zero8(nod, 0x70), zero8(nod, 0x80), zero8(nod, 0x88), nod[0x1a8] == 0x16)
    }
}

/// The summary columns of a game camera node (see `gc_nod_flags_spec`).
pub fn gc_nod_flags(nod: &[u8]) -> (r: (u8, bool, bool, bool, bool))
    ensures
        r == gc_nod_flags_spec(nod@),
{
    if nod.len() < 0x2C0 {
        (0, true, true, true, false)
    } else {
        (nod[0], is_zero8(nod, 0x70), is_zero8(nod, 0x80), is_zero8(nod, 0x88), nod[0x1a8] == 0x16)
    }
}

// ---------------------------------------------------------------------------
// Map hashes
// ---------------------------------------------------------------------------

/// Value of a hexadecimal digit byte (either case), or -1.
pub open spec fn hex_val(b: u8) -> int {
    if 48 <= b <= 57 {
        b - 48
    } else if 97 <= b <= 102 {
        b - 87
    } else if 65 <= b <= 70 {
        b - 55
    } else {
        -1
    }
}

/// An even number of hexadecimal digits.
pub open spec fn is_hex_text(d: Seq<u8>) -> bool {
    d.len() % 2 == 0 && forall|i: int| 0 <= i < d.len() ==> 0 <= #[trigger] hex_val(d[i])
}

/// The bytes written by pairs of hexadecimal digits, high digit first.
pub open spec fn hex_decoded(d: Seq<u8>) -> Seq<u8> {
    Seq::new((d.len() / 2) as nat, |k: int| (hex_val(d[2 * k]) * 16 + hex_val(d[2 * k + 1])) as u8)
}

/// The error of `hex::decode`.
#[verifier::external_type_specification]
#[verifier::external_body]
pub struct ExFromHexError(hex::FromHexError);

/// `hex::decode`: succeeds exactly on an even number of hexadecimal digits
/// and gives the byte of each pair.
#[verifier::external_body]
fn hex_decode(data: &[u8]) -> (r: Result<Vec<u8>, hex::FromHexError>)
    ensures
        r is Ok <==> is_hex_text(data@),
        r matches Ok(v) ==> v@ == hex_decoded(data@),
{
    hex::decode(data)
}

/// At most the first 32 bytes.
pub open spec fn first_32(b: Seq<u8>) -> Seq<u8> {
    b.take(if b.len() < 32 { b.len() as int } else { 32 })
}

/// The stored hash of a map: 64 hexadecimal digits are stored as the 32
/// bytes they write; anything else as its first 32 bytes.
pub open spec fn map_hash_spec(hash: Seq<u8>) -> Seq<u8> {
    if hash.len() == 64 && is_hex_text(hash) {
        hex_decoded(hash)
    } else {
        first_32(hash)
    }
}

/// The bytes stored as a map's hash (see `map_hash_spec`). Texts whose
/// 32nd byte falls inside a character are left out when they are not 64
/// hexadecimal digits: there the text cannot be cut.
pub fn map_hash_bytes(hash: &str) -> (r: Vec<u8>)
    requires
        !(hash.spec_bytes().len() == 64 && is_hex_text(hash.spec_bytes())) ==> vstd::utf8::is_char_boundary(
            hash.spec_bytes(),
            if hash.spec_bytes().len() < 32 { hash.spec_bytes().len() as int } else { 32 },
        ),
    ensures
        r@ == map_hash_spec(hash.spec_bytes()),
{
    let b = hash.as_bytes();
    let n = if b.len() < 32 {
        b.len()
    } else {
        32
    };
    if b.len() == 64 {
        match hex_decode(b) {
            Ok(h) => {
                return h;
            },
            Err(_) => {},
        }
    }
    let mut out: Vec<u8> = Vec::new();
    let mut i: usize = 0;
    while i < n
        invariant
            i <= n,
            n <= b@.len(),
            out@ == b@.take(i as int),
        decreases n - i,
    {
        out.push(b[i]);
        i = i + 1;
        assert(out@ =~= b@.take(i as int));
    }
    out
}

/// The address stored with a session: at most its first 39 bytes.
pub fn session_ip(ip_address: &str) -> (r: &str)
    requires
        ip_address.spec_bytes().len() <= usize::MAX,
        vstd::utf8::is_char_boundary(
            ip_address.spec_bytes(),
            if ip_address.spec_bytes().len() < 39 { ip_address.spec_bytes().len() as int } else { 39 },
        ),
    ensures
        r.spec_bytes() == ip_address.spec_bytes().take(
            if ip_address.spec_bytes().len() < 39 { ip_address.spec_bytes().len() as int } else { 39 },
        ),
{
    let n = if ip_address.len() < 39 {
        ip_address.len()
    } else {
        39
    };
    let (head, _) = ip_address.split_at(n);
    assert(head.spec_bytes() =~= ip_address.spec_bytes().take(n as int));
    head
}

// ---------------------------------------------------------------------------
// Values taken in and given out
// ---------------------------------------------------------------------------

/// Clip votes range from -2 to 2.
pub fn is_valid_clip_vote(vote: i32) -> (r: bool)
    ensures
        r == (-2 <= vote <= 2),
{
    -2 <= vote && vote <= 2
}

/// Stats are archived when the update count plus two is a multiple of ten.
pub fn should_archive_stats(update_count: i32) -> (r: bool)
    requires
        update_count <= i32::MAX - 2,
    ensures
        r == ((update_count + 2) % 10 == 0),
{
    let c = update_count + 2;
    c % 10 == 0
}

/// Seconds in a map are stored as an `i32`; values that do not fit become 0.
pub fn seconds_in_map_to_i32(secs: i64) -> (r: i32)
    ensures
        r == if i32::MIN <= secs <= i32::MAX { secs as int } else { 0 },
{
    if i32::MIN as i64 <= secs && secs <= i32::MAX as i64 {
        secs as i32
    } else {
        0
    }
}

/// The rank given with a player's stats: the stored rank truncated to `u32`,
/// `u32::MAX` when there is none.
pub fn stats_rank(rank_at_time: Option<i64>) -> (r: u32)
    ensures
        r == match rank_at_time {
            Some(x) => x as u32,
            None => u32::MAX,
        },
{
    match rank_at_time {
        Some(x) => x as u32,
        None => u32::MAX,
    }
}

/// The rank shown for a player's personal best: 99999 when unranked.
pub fn pb_rank(rank: Option<i64>) -> (r: i64)
    ensures
        r == match rank {
            Some(x) => x,
            None => 99999,
        },
{
    match rank {
        Some(x) => x,
        None => 99999,
    }
}

/// The race time stored with a respawn: -1 above `i32::MAX`, otherwise
/// truncated to `i32`.
pub fn respawn_race_time(race_time: i64) -> (r: i32)
    ensures
        r == if race_time > i32::MAX { -1i32 } else { race_time as i32 },
{
    if race_time > i32::MAX as i64 {
        -1
    } else {
        race_time as i32
    }
}

/// A login records the display name when the user is new or renamed.
pub fn records_display_name(existing: Option<&str>, display_name: &str) -> (r: bool)
    ensures
        r == match existing {
            Some(n) => n@ != display_name@,
            None => true,
        },
{
    match existing {
        Some(n) => {
            let a = crate::text::chars_of(n);
            let b = crate::text::chars_of(display_name);
            !chars_equal(a.as_slice(), b.as_slice())
        },
        None => true,
    }
}

/// Whether two character slices are equal.
pub fn chars_equal(a: &[char], b: &[char]) -> (r: bool)
    ensures
        r == (a@ == b@),
{
    if a.len() != b.len() {
        return false;
    }
    let mut i: usize = 0;
    while i < a.len()
        invariant
            i <= a@.len(),
            a@.len() == b@.len(),
            forall|j: int| 0 <= j < i ==> a@[j] == b@[j],
        decreases a.len() - i,
    {
        if a[i] != b[i] {
            return false;
        }
        i = i + 1;
    }
    assert(a@ =~= b@);
    true
}

// ---------------------------------------------------------------------------
// Custom map aux specs
// ---------------------------------------------------------------------------

/// A spec can be changed for a day after it is first stored.
pub const AUX_SPEC_EDIT_WINDOW_S: i64 = 86400;

/// Why a custom map aux spec request is refused.
pub enum AuxSpecError {
    /// The spec is not a non-empty JSON object.
    InvalidSpec,
    /// The stored spec is more than a day old.
    TooOld,
}

/// An upload is refused when the spec is not a non-empty object, then when
/// the stored spec (if any) was created more than a day before `now`.
pub open spec fn aux_spec_upload_spec(is_nonempty_object: bool, existing_created_at: Option<i64>, now: i64) -> Option<AuxSpecError> {
    if !is_nonempty_object {
        Some(AuxSpecError::InvalidSpec)
    } else {
        match existing_created_at {
            Some(c) => if c < now - AUX_SPEC_EDIT_WINDOW_S {
                Some(AuxSpecError::TooOld)
            } else {
                None
            },
            None => None,
        }
    }
}

/// Whether a spec upload may proceed (times in seconds).
pub fn check_aux_spec_upload(is_nonempty_object: bool, existing_created_at: Option<i64>, now: i64) -> (r: Result<(), AuxSpecError>)
    requires
        now >= i64::MIN + AUX_SPEC_EDIT_WINDOW_S,
    ensures
        match aux_spec_upload_spec(is_nonempty_object, existing_created_at, now) {
            Some(e) => r == Err::<(), AuxSpecError>(e),
            None => r is Ok,
        },
{
    if !is_nonempty_object {
        return Err(AuxSpecError::InvalidSpec);
    }
    check_aux_spec_delete(existing_created_at, now)
}

/// A deletion is refused when the stored spec was created more than a day before `now`.
pub fn check_aux_spec_delete(existing_created_at: Option<i64>, now: i64) -> (r: Result<(), AuxSpecError>)
    requires
        now >= i64::MIN + AUX_SPEC_EDIT_WINDOW_S,
    ensures
        match aux_spec_upload_spec(true, existing_created_at, now) {
            Some(e) => r == Err::<(), AuxSpecError>(e),
            None => r is Ok,
        },
{
    match existing_created_at {
        Some(c) => {
            if c < now - AUX_SPEC_EDIT_WINDOW_S {
                return Err(AuxSpecError::TooOld);
            }
            Ok(())
        },
        None => Ok(()),
    }
}

// ---------------------------------------------------------------------------
// Contexts
// ---------------------------------------------------------------------------

/// The columns stored for a reported context: the unpacked scene flags, the
/// packed flags and managers as signed integers with the same bits, and
/// whether the climbing item is present.
pub struct ContextRow {
    pub flags: [bool; 15],
    pub flags_raw: i64,
    pub has_vl_item: bool,
    pub managers: i64,
}

/// The columns stored for a context (see `ContextRow`).
pub fn context_row(ctx: &PlayerCtx) -> (r: ContextRow)
    ensures
        r.flags@ == decode_spec(ctx.sf as nat),
        r.flags_raw == ctx.sf as i64,
        r.has_vl_item == ctx.i,
        r.managers == ctx.mi as i64,
{
    ContextRow {
        flags: decode_context_flags(ctx.sf),
        flags_raw: ctx.sf as i64,
        has_vl_item: ctx.i,
        managers: ctx.mi as i64,
    }
}

// ---------------------------------------------------------------------------
// Replies
// ---------------------------------------------------------------------------

/// An error reply of the HTTP API, with its message.
pub struct ApiErrRejection {
    pub err: String,
}

impl ApiErrRejection {
    pub fn new(err: &str) -> (r: Self)
        ensures
            r.err@ == err@,
    {
        ApiErrRejection { err: <String as vstd::string::StringExecFns>::from_str(err) }
    }
}

/// The outcome of recording a personal-best height: whether the player is
/// now in the top 3.
pub struct PBUpdateRes {
    pub is_top_3: bool,
}

/// The outcome of a raised personal best, from the rank archived with it:
/// the top flag is set below rank 10.
pub fn pb_update_res(rank_at_time: i64) -> (r: PBUpdateRes)
    ensures
        r.is_top_3 == (rank_at_time < 10),
{
    PBUpdateRes { is_top_3: rank_at_time < 10 }
}

} // verus!
