//! Offline analysis of the contexts players reported: classifying each
//! context, building per-session timelines, matching map-loader pings to the
//! contexts around them, and naming output files.
//!
//! Timestamps are microseconds since the Unix epoch; identifiers are the
//! 128-bit values of UUIDs.
use vstd::prelude::*;
use crate::consts::{dd2_map_uid, DD2_MAP_UID};
use crate::text::{
    chars_of, digit_value, i32_decimal, i64_decimal, int_decimal, nat_decimal, push_char, push_chars, push_str,
    split_spec, string_of,
};

verus! {

broadcast use vstd::string::group_string_axioms;

/// Managers value: on a server, in driving or solo.
pub const MGRS_IN_MAP: i64 = 431351055724756843;
/// Managers value: in a map, state unknown.
pub const MGRS_IN_MAP_UNK: i64 = 431351055724756971;
/// Managers value: in the map or MT editor.
pub const MGRS_IN_MAP_EDITOR: i64 = 305250248978513771;
/// Managers value: loading.
pub const MGRS_LOADING: i64 = 305250248978513899;

/// A context as stored, with what the analysis reads.
pub struct UserContext {
    pub context_id: u128,
    pub session_token: u128,
    pub created_ts: i64,
    pub flags: Vec<bool>,
    pub has_vl_item: bool,
    pub flags_raw: Option<i64>,
    pub bi_count: i32,
    pub block_count: i32,
    pub item_count: i32,
    pub managers: i64,
    pub predecessor: Option<u128>,
    pub successor: Option<u128>,
    pub terminated: bool,
    pub editor: Option<bool>,
    pub map_id: Option<i32>,
    pub map_uid: Option<String>,
    pub map_name: Option<String>,
    pub map_hash: Option<Vec<u8>>,
    pub map_load_count: Option<i32>,
}

impl UserContext {
    /// The context's map UID is exactly the Deep Dip 2 UID.
    pub open spec fn is_dd2_uid_spec(&self) -> bool {
        match self.map_uid {
            Some(u) => u@ == dd2_map_uid(),
            None => false,
        }
    }

    /// Whether the context's map UID is exactly the Deep Dip 2 UID.
    pub fn is_dd2_uid(&self) -> (r: bool)
        ensures
            r == self.is_dd2_uid_spec(),
    {
        match &self.map_uid {
            Some(u) => {
                let dd2 = <String as vstd::string::StringExecFns>::from_str(DD2_MAP_UID);
                proof {
                    reveal_strlit("DeepDip2__The_Storm_Is_Here");
                    assert(dd2@ =~= dd2_map_uid());
                }
                *u == dd2
            },
            None => false,
        }
    }
}

/// The flags that classifying a context reads are there: twelve of them,
/// or eleven when flag 5, 7 or 9 is set (flag 11 is then not read).
pub open spec fn classifiable(c: UserContext) -> bool {
    c.flags@.len() >= 12 || (c.flags@.len() == 11 && (c.flags@[5] || c.flags@[7] || c.flags@[9]))
}

/// What the player was doing in a context.
pub enum CtxType {
    MainMenu,
    EditorMap,
    EditorMT,
    EditorDriving,
    EditorUnk,
    MapDriving,
    MapMenu,
    MapUnk,
    Unk,
}

impl CtxType {
    /// The number that stands for the kind in output files.
    pub open spec fn as_int_spec(&self) -> int {
        match self {
            CtxType::MainMenu => 0,
            CtxType::MapDriving => 2,
            CtxType::MapMenu => 3,
            CtxType::MapUnk => 5,
            CtxType::Unk => 7,
            CtxType::EditorUnk => 9,
            CtxType::EditorMap => 10,
            CtxType::EditorMT => 11,
            CtxType::EditorDriving => 12,
        }
    }

    pub fn as_int(&self) -> (r: i32)
        ensures
            r == self.as_int_spec(),
    {
        match self {
            CtxType::MainMenu => 0,
            CtxType::MapDriving => 2,
            CtxType::MapMenu => 3,
            CtxType::MapUnk => 5,
            CtxType::Unk => 7,
            CtxType::EditorUnk => 9,
            CtxType::EditorMap => 10,
            CtxType::EditorMT => 11,
            CtxType::EditorDriving => 12,
        }
    }

    /// Classification of a context: editor contexts are driving when the
    /// managers or flags say driving and no menu is open; otherwise, in a
    /// map (by managers) the menu flag, then the driving flag decide.
    pub open spec fn classify(c: UserContext) -> CtxType {
        let f = c.flags@;
        let editor_flagged = c.editor == Some(true);
        let mgrs_map_pg = c.managers == MGRS_IN_MAP;
        let mgrs_map_unk = c.managers == MGRS_IN_MAP_UNK;
        let menu = f[10];
        let some_editor = f[5] || f[7] || f[9] || f[11];
        let pg_or_driving = f[2] || f[3] || f[4];
        if editor_flagged || some_editor {
            if menu {
                CtxType::EditorUnk
            } else if mgrs_map_pg || mgrs_map_unk || pg_or_driving {
                CtxType::EditorDriving
            } else {
                CtxType::EditorUnk
            }
        } else if mgrs_map_pg || mgrs_map_unk {
            if menu {
                CtxType::MapMenu
            } else if f[0] {
                CtxType::MapDriving
            } else {
                CtxType::MapUnk
            }
        } else {
            CtxType::Unk
        }
    }

    /// Classifies a context (see `classify`).
    pub fn of_context(c: &UserContext) -> (t: CtxType)
        requires
            classifiable(*c),
        ensures
            t == CtxType::classify(*c),
    {
        let editor_flagged = match c.editor {
            Some(e) => e,
            None => false,
        };
        let mgrs_map_editor = c.managers == MGRS_IN_MAP_EDITOR;
        let mgrs_map_pg = c.managers == MGRS_IN_MAP;
        let mgrs_map_unk = c.managers == MGRS_IN_MAP_UNK;
        let some_menu_open_mb = c.flags[10];
        let some_editor = c.flags[5] || c.flags[7] || c.flags[9] || c.flags[11];
        let pg_or_driving = c.flags[2] || c.flags[3] || c.flags[4];
        if editor_flagged || some_editor {
            if some_menu_open_mb {
                return CtxType::EditorUnk;
            }
            if mgrs_map_pg || mgrs_map_unk || pg_or_driving {
                return CtxType::EditorDriving;
            }
            if mgrs_map_editor {
                return CtxType::EditorUnk;
            }
            return CtxType::EditorUnk;
        }
        if mgrs_map_pg || mgrs_map_unk {
            if some_menu_open_mb {
                return CtxType::MapMenu;
            }
            if c.flags[0] {
                return CtxType::MapDriving;
            }
            return CtxType::MapUnk;
        }
        CtxType::Unk
    }
}

/// The context is in an editor: flagged so, or one of the editor scene
/// flags (5, 7, 9, 11) is set.
pub open spec fn in_editor(c: UserContext) -> bool {
    c.editor == Some(true) || c.flags@[5] || c.flags@[7] || c.flags@[9] || c.flags@[11]
}

/// The managers say the player is in a map (playing, or state unknown).
pub open spec fn in_map_managers(m: i64) -> bool {
    m == MGRS_IN_MAP || m == MGRS_IN_MAP_UNK
}

/// Outside an editor, in a map by its managers, with no menu open and the
/// driving flag set, a context is driving in the map, whichever of the two
/// in-map manager values it carries.
pub proof fn lemma_in_map_driving(c: UserContext)
    requires
        !in_editor(c),
        in_map_managers(c.managers),
        !c.flags@[10],
        c.flags@[0],
    ensures
        CtxType::classify(c) == CtxType::MapDriving,
{
}

/// Outside an editor and in a map by its managers: an open menu gives the
/// map menu; otherwise the driving flag decides between driving and
/// unknown.
pub proof fn lemma_in_map_kinds(c: UserContext)
    requires
        !in_editor(c),
        in_map_managers(c.managers),
    ensures
        c.flags@[10] ==> CtxType::classify(c) == CtxType::MapMenu,
        !c.flags@[10] && c.flags@[0] ==> CtxType::classify(c) == CtxType::MapDriving,
        !c.flags@[10] && !c.flags@[0] ==> CtxType::classify(c) == CtxType::MapUnk,
{
}

/// The two in-map manager values classify every context alike.
pub proof fn lemma_in_map_managers_alike(c: UserContext)
    ensures
        CtxType::classify(UserContext { managers: MGRS_IN_MAP, ..c }) == CtxType::classify(
            UserContext { managers: MGRS_IN_MAP_UNK, ..c },
        ),
{
}

/// Editor contexts are driving when no menu is open and the managers say in
/// a map or a playing flag (2, 3, 4) is set, and of unknown state otherwise;
/// contexts outside an editor and outside a map are unknown.
pub proof fn lemma_editor_and_other_kinds(c: UserContext)
    ensures
        in_editor(c) ==> (CtxType::classify(c) == CtxType::EditorDriving <==> !c.flags@[10] && (in_map_managers(
            c.managers,
        ) || c.flags@[2] || c.flags@[3] || c.flags@[4])),
        in_editor(c) ==> (CtxType::classify(c) == CtxType::EditorDriving || CtxType::classify(c)
            == CtxType::EditorUnk),
        !in_editor(c) && !in_map_managers(c.managers) ==> CtxType::classify(c) == CtxType::Unk,
{
}

/// Seconds since the epoch of a timestamp in microseconds (rounded down).
pub open spec fn seconds_of(us: i64) -> int {
    us as int / 1_000_000
}

/// Seconds since the epoch of a timestamp in microseconds (rounded down).
pub fn timestamp_seconds(us: i64) -> (s: i64)
    ensures
        s == seconds_of(us),
{
    if us >= 0 {
        us / 1_000_000
    } else {
        let m = -(us + 1);
        let s = -(m / 1_000_000) - 1;
        assert(s == (us as int) / 1_000_000) by {
            assert(m as int == -(us as int) - 1);
            vstd::arithmetic::div_mod::lemma_fundamental_div_mod(m as int, 1_000_000);
            vstd::arithmetic::div_mod::lemma_fundamental_div_mod(us as int, 1_000_000);
        }
        s
    }
}

/// One row of a context timeline.
pub struct CtxTlRow {
    pub start_ts: i64,
    pub end_ts: Option<i64>,
    pub ty: CtxType,
    pub map_id: i32,
    pub is_dd2_uid: bool,
}

/// `", "` as characters.
pub open spec fn comma_sep() -> Seq<char> {
    seq![',', ' ']
}

/// The text of a timeline row: start, end (empty when none), kind, map id
/// and 1 or 0 for the DD2 UID, separated by `", "`.
pub open spec fn row_text(r: CtxTlRow) -> Seq<char> {
    int_decimal(r.start_ts as int) + comma_sep() + match r.end_ts {
        Some(e) => int_decimal(e as int),
        None => Seq::empty(),
    } + comma_sep() + int_decimal(r.ty.as_int_spec()) + comma_sep() + int_decimal(r.map_id as int)
        + comma_sep() + seq![if r.is_dd2_uid { '1' } else { '0' }]
}

/// The header line of a timeline file.
pub open spec fn timeline_header_text() -> Seq<char> {
    seq![
        's', 't', 'a', 'r', 't', '_', 't', 's', ',', ' ', 'e', 'n', 'd', '_', 't', 's', ',', ' ',
        't', 'y', ',', ' ', 'm', 'a', 'p', '_', 'i', 'd', ',', ' ', 'i', 's', '_', 'd', 'd', '2',
        '_', 'u', 'i', 'd',
    ]
}

/// Appends `", "`.
fn push_comma(s: &mut String)
    ensures
        final(s)@ == old(s)@ + comma_sep(),
{
    push_char(s, ',');
    push_char(s, ' ');
    assert(s@ =~= old(s)@ + comma_sep());
}

impl CtxTlRow {
    /// The column names of a timeline file.
    pub fn headers() -> (h: Vec<String>)
        ensures
            h@.len() == 5,
            h@[0]@ == seq!['s', 't', 'a', 'r', 't', '_', 't', 's'],
            h@[1]@ == seq!['e', 'n', 'd', '_', 't', 's'],
            h@[2]@ == seq!['t', 'y'],
            h@[3]@ == seq!['m', 'a', 'p', '_', 'i', 'd'],
            h@[4]@ == seq!['i', 's', '_', 'd', 'd', '2', '_', 'u', 'i', 'd'],
    {
        let mut h: Vec<String> = Vec::new();
        let a = <String as vstd::string::StringExecFns>::from_str("start_ts");
        let b = <String as vstd::string::StringExecFns>::from_str("end_ts");
        let c = <String as vstd::string::StringExecFns>::from_str("ty");
        let d = <String as vstd::string::StringExecFns>::from_str("map_id");
        let e = <String as vstd::string::StringExecFns>::from_str("is_dd2_uid");
        proof {
            reveal_strlit("start_ts");
            reveal_strlit("end_ts");
            reveal_strlit("ty");
            reveal_strlit("map_id");
            reveal_strlit("is_dd2_uid");
        }
        h.push(a);
        h.push(b);
        h.push(c);
        h.push(d);
        h.push(e);
        proof {
            assert(h@[0]@ =~= seq!['s', 't', 'a', 'r', 't', '_', 't', 's']);
            assert(h@[1]@ =~= seq!['e', 'n', 'd', '_', 't', 's']);
            assert(h@[2]@ =~= seq!['t', 'y']);
            assert(h@[3]@ =~= seq!['m', 'a', 'p', '_', 'i', 'd']);
            assert(h@[4]@ =~= seq!['i', 's', '_', 'd', 'd', '2', '_', 'u', 'i', 'd']);
        }
        h
    }

    /// The row as text (see `row_text`).
    pub fn to_row_string(&self) -> (s: String)
        ensures
            s@ == row_text(*self),
    {
        let mut s = i64_decimal(self.start_ts);
        push_comma(&mut s);
        match self.end_ts {
            Some(e) => {
                let t = i64_decimal(e);
                push_str(&mut s, t.as_str());
            },
            None => {},
        }
        push_comma(&mut s);
        let t = i32_decimal(self.ty.as_int());
        push_str(&mut s, t.as_str());
        push_comma(&mut s);
        let t = i32_decimal(self.map_id);
        push_str(&mut s, t.as_str());
        push_comma(&mut s);
        push_char(&mut s, if self.is_dd2_uid { '1' } else { '0' });
        proof {
            assert(s@ =~= row_text(*self));
        }
        s
    }
}

proof fn lemma_int_decimal_no_comma(n: int)
    ensures
        forall|i: int| 0 <= i < int_decimal(n).len() ==> #[trigger] int_decimal(n)[i] != ',',
{
    let m: nat = if n < 0 { (-n) as nat } else { n as nat };
    crate::version::lemma_decimal_digits(m);
    let d = nat_decimal(m);
    assert forall|i: int| 0 <= i < int_decimal(n).len() implies #[trigger] int_decimal(n)[i] != ',' by {
        if n < 0 {
            if i > 0 {
                assert(int_decimal(n)[i] == d[i - 1]);
                assert(0 <= digit_value(d[i - 1]) < 10);
            }
        } else {
            assert(0 <= digit_value(d[i]) < 10);
        }
    }
}

proof fn lemma_split_field(a: Seq<char>, f: Seq<char>)
    requires
        forall|i: int| 0 <= i < f.len() ==> #[trigger] f[i] != ',',
    ensures
        split_spec(a + comma_sep() + f, ',') == split_spec(a, ',').push(seq![' '] + f),
{
    let b = seq![' '] + f;
    assert forall|i: int| 0 <= i < b.len() implies #[trigger] b[i] != ',' by {
        if i > 0 {
            assert(b[i] == f[i - 1]);
        }
    }
    crate::version::lemma_split_append(a, b, ',');
    assert(a + seq![','] + b =~= a + comma_sep() + f);
}

/// The five fields of a timeline row: start, end (empty when none), kind,
/// map id, and `1` or `0`.
pub open spec fn row_fields(r: CtxTlRow) -> Seq<Seq<char>> {
    seq![
        int_decimal(r.start_ts as int),
        match r.end_ts {
            Some(e) => int_decimal(e as int),
            None => Seq::empty(),
        },
        int_decimal(r.ty.as_int_spec()),
        int_decimal(r.map_id as int),
        seq![if r.is_dd2_uid { '1' } else { '0' }],
    ]
}

/// A row's text splits back into its five fields, one per header: no field
/// holds a comma, so cutting at the commas gives the first field, then each
/// other field after the space that follows its comma.
pub proof fn lemma_row_fields_split_back(r: CtxTlRow)
    ensures
        split_spec(row_text(r), ',') == seq![
            row_fields(r)[0],
            seq![' '] + row_fields(r)[1],
            seq![' '] + row_fields(r)[2],
            seq![' '] + row_fields(r)[3],
            seq![' '] + row_fields(r)[4],
        ],
{
    let f = row_fields(r);
    lemma_int_decimal_no_comma(r.start_ts as int);
    lemma_int_decimal_no_comma(r.ty.as_int_spec());
    lemma_int_decimal_no_comma(r.map_id as int);
    match r.end_ts {
        Some(e) => lemma_int_decimal_no_comma(e as int),
        None => {},
    }
    assert forall|i: int| 0 <= i < f[4].len() implies #[trigger] f[4][i] != ',' by {}
    crate::version::lemma_split_without_sep(f[0], ',');
    let a1 = f[0] + comma_sep() + f[1];
    let a2 = a1 + comma_sep() + f[2];
    let a3 = a2 + comma_sep() + f[3];
    lemma_split_field(f[0], f[1]);
    lemma_split_field(a1, f[2]);
    lemma_split_field(a2, f[3]);
    lemma_split_field(a3, f[4]);
    assert(row_text(r) =~= a3 + comma_sep() + f[4]);
    assert(split_spec(row_text(r), ',') =~= seq![f[0], seq![' '] + f[1], seq![' '] + f[2], seq![' '] + f[3], seq![' '] + f[4]]);
}

/// The timeline row of a context, ended by the next context of its session if any.
pub open spec fn row_of(ctx: UserContext, next: Option<UserContext>) -> CtxTlRow {
    CtxTlRow {
        start_ts: seconds_of(ctx.created_ts) as i64,
        end_ts: match next {
            Some(n) => Some(seconds_of(n.created_ts) as i64),
            None => None,
        },
        ty: CtxType::classify(ctx),
        map_id: match ctx.map_id {
            Some(m) => m,
            None => -1i32,
        },
        is_dd2_uid: ctx.is_dd2_uid_spec() || ctx.has_vl_item,
    }
}

/// The timeline row of a context (see `row_of`).
pub fn gen_ctx_timeline_desc_row(ctx: &UserContext, next_ctx: Option<&UserContext>) -> (r: CtxTlRow)
    requires
        classifiable(*ctx),
    ensures
        r == row_of(*ctx, match next_ctx {
            Some(n) => Some(*n),
            None => None,
        }),
{
    let start_ts = timestamp_seconds(ctx.created_ts);
    let end_ts = match next_ctx {
        Some(c) => Some(timestamp_seconds(c.created_ts)),
        None => None,
    };
    let ty = CtxType::of_context(ctx);
    let map_id = match ctx.map_id {
        Some(m) => m,
        None => -1,
    };
    let is_dd2_uid = ctx.is_dd2_uid() || ctx.has_vl_item;
    CtxTlRow { start_ts, end_ts, ty, map_id, is_dd2_uid }
}

/// Drops trailing dots and underscores from a user name (used for file names).
pub open spec fn clean_username_spec(name: Seq<char>) -> Seq<char>
    decreases name.len(),
{
    if name.len() > 0 && (name.last() == '.' || name.last() == '_') {
        clean_username_spec(name.drop_last())
    } else {
        name
    }
}

/// Cleaning a name twice is cleaning it once.
pub proof fn lemma_clean_username_idempotent(name: Seq<char>)
    ensures
        clean_username_spec(clean_username_spec(name)) == clean_username_spec(name),
    decreases name.len(),
{
    if name.len() > 0 && (name.last() == '.' || name.last() == '_') {
        lemma_clean_username_idempotent(name.drop_last());
    }
}

/// Drops trailing dots and underscores from a user name.
pub fn clean_username(name: &str) -> (r: String)
    ensures
        r@ == clean_username_spec(name@),
        !(r@.len() > 0 && (r@.last() == '.' || r@.last() == '_')),
        r@.is_prefix_of(name@),
{
    let mut v = chars_of(name);
    while v.len() > 0 && (v[v.len() - 1] == '.' || v[v.len() - 1] == '_')
        invariant
            clean_username_spec(v@) == clean_username_spec(name@),
            v@.is_prefix_of(name@),
        decreases v.len(),
    {
        v.pop();
    }
    string_of(v.as_slice())
}

/// The users of `all` (id and name, in order) whose id is not in `keep`.
pub open spec fn users_not_kept(all: Seq<(u128, Seq<char>)>, keep: Seq<u128>) -> Seq<(u128, Seq<char>)>
    decreases all.len(),
{
    if all.len() == 0 {
        Seq::empty()
    } else {
        let rest = users_not_kept(all.drop_last(), keep);
        if keep.contains(all.last().0) {
            rest
        } else {
            rest.push(all.last())
        }
    }
}

/// The id and name of a user, as characters.
pub open spec fn user_view(u: (u128, String)) -> (u128, Seq<char>) {
    (u.0, u.1@)
}

/// The users to delete: every user (in order) whose id is not among the
/// users to keep (those with a leaderboard height above 800).
pub fn users_to_delete(keep: &[u128], all: &[(u128, String)]) -> (r: Vec<(u128, String)>)
    ensures
        r@.map_values(|u: (u128, String)| user_view(u)) == users_not_kept(
            all@.map_values(|u: (u128, String)| user_view(u)),
            keep@,
        ),
{
    let ghost av = all@.map_values(|u: (u128, String)| user_view(u));
    let mut r: Vec<(u128, String)> = Vec::new();
    let mut i: usize = 0;
    while i < all.len()
        invariant
            i <= all@.len(),
            av == all@.map_values(|u: (u128, String)| user_view(u)),
            r@.map_values(|u: (u128, String)| user_view(u)) == users_not_kept(av.take(i as int), keep@),
        decreases all.len() - i,
    {
        let id = all[i].0;
        let mut kept = false;
        let mut j: usize = 0;
        while j < keep.len()
            invariant
                j <= keep@.len(),
                kept == exists|k: int| 0 <= k < j && keep@[k] == id,
            decreases keep.len() - j,
        {
            if keep[j] == id {
                kept = true;
            }
            j = j + 1;
        }
        proof {
            assert(av.take(i + 1).drop_last() =~= av.take(i as int));
            assert(av.take(i + 1).last() == user_view(all@[i as int]));
            if kept {
                let k = choose|k: int| 0 <= k < keep@.len() && keep@[k] == id;
                assert(keep@.contains(id));
            } else {
                assert(!keep@.contains(id));
            }
        }
        let ghost before = r@;
        if !kept {
            r.push((id, all[i].1.clone()));
            proof {
                assert(r@.map_values(|u: (u128, String)| user_view(u)) =~= before.map_values(
                    |u: (u128, String)| user_view(u),
                ).push(user_view(all@[i as int])));
            }
        }
        i = i + 1;
    }
    assert(av.take(all@.len() as int) =~= av);
    r
}

/// The flags as a text of `1`s and `0`s.
pub open spec fn flag_bits(f: Seq<bool>) -> Seq<char> {
    Seq::new(f.len(), |i: int| if f[i] { '1' } else { '0' })
}

/// A line of the scene-flags summary: the packed flags (-111 when none were
/// stored), how many contexts had them, and the flags as bits, separated by
/// commas.
pub open spec fn scene_flags_row_text(flags: Seq<bool>, flags_raw: Option<i64>, count: i64) -> Seq<char> {
    int_decimal(match flags_raw {
        Some(x) => x as int,
        None => -111,
    }) + seq![','] + int_decimal(count as int) + seq![','] + flag_bits(flags)
}

/// A line of the scene-flags summary (see `scene_flags_row_text`).
pub fn scene_flags_row(flags: &[bool], flags_raw: Option<i64>, count: i64) -> (r: String)
    ensures
        r@ == scene_flags_row_text(flags@, flags_raw, count),
{
    let raw: i64 = match flags_raw {
        Some(x) => x,
        None => -111,
    };
    let mut s = i64_decimal(raw);
    push_char(&mut s, ',');
    let c = i64_decimal(count);
    push_str(&mut s, c.as_str());
    push_char(&mut s, ',');
    let ghost head = s@;
    let mut i: usize = 0;
    while i < flags.len()
        invariant
            i <= flags@.len(),
            s@ == head + flag_bits(flags@.take(i as int)),
        decreases flags.len() - i,
    {
        push_char(&mut s, if flags[i] { '1' } else { '0' });
        i = i + 1;
        assert(s@ =~= head + flag_bits(flags@.take(i as int)));
    }
    assert(flags@.take(flags@.len() as int) =~= flags@);
    assert(s@ =~= scene_flags_row_text(flags@, flags_raw, count));
    s
}

/// A line of the managers summary: the packed managers and how many
/// contexts had them, separated by a comma.
pub fn managers_row(managers: i64, count: i64) -> (r: String)
    ensures
        r@ == int_decimal(managers as int) + seq![','] + int_decimal(count as int),
{
    let mut s = i64_decimal(managers);
    push_char(&mut s, ',');
    let c = i64_decimal(count);
    push_str(&mut s, c.as_str());
    s
}

/// A context created less than 900 ms before a ping counts as after it.
pub const PING_CONTEXT_SLACK_US: i64 = 900_000;

/// The index of the first context at or after `k` created later than
/// `threshold`, or the number of contexts.
pub open spec fn first_after(created: Seq<i64>, k: int, threshold: int) -> int
    decreases created.len() - k,
{
    if k >= created.len() {
        created.len() as int
    } else if created[k] > threshold {
        k
    } else {
        first_after(created, k + 1, threshold)
    }
}

/// How many contexts have been consumed before ping `ix`: the contexts are
/// walked once, in order, over all pings; each ping consumes the contexts
/// created no later than 900 ms before it and the first context after that.
pub open spec fn ping_cursor(created: Seq<i64>, pings: Seq<i64>, ix: int) -> int
    decreases ix,
{
    if ix <= 0 {
        0
    } else {
        let k = ping_cursor(created, pings, ix - 1);
        let m = first_after(created, k, pings[ix - 1] - PING_CONTEXT_SLACK_US);
        if m + 1 < created.len() {
            m + 1
        } else {
            created.len() as int
        }
    }
}

/// The context of ping `ix`: the last context consumed before the first one
/// created later than 900 ms before the ping (-1 when there is none).
pub open spec fn ping_context(created: Seq<i64>, pings: Seq<i64>, ix: int) -> int {
    first_after(created, ping_cursor(created, pings, ix), pings[ix] - PING_CONTEXT_SLACK_US) - 1
}

proof fn lemma_first_after_bounds(created: Seq<i64>, k: int, threshold: int)
    requires
        0 <= k,
    ensures
        k <= first_after(created, k, threshold) || (k > created.len() && first_after(created, k, threshold) == created.len()),
        first_after(created, k, threshold) <= created.len(),
        forall|j: int| k <= j < first_after(created, k, threshold) ==> created[j] <= threshold,
        first_after(created, k, threshold) < created.len() ==> created[first_after(created, k, threshold)] > threshold,
    decreases created.len() - k,
{
    if k < created.len() && created[k] <= threshold {
        lemma_first_after_bounds(created, k + 1, threshold);
    }
}

proof fn lemma_cursor_bounds(created: Seq<i64>, pings: Seq<i64>, ix: int)
    ensures
        0 <= ping_cursor(created, pings, ix) <= created.len(),
    decreases ix,
{
    if ix > 0 {
        lemma_cursor_bounds(created, pings, ix - 1);
        lemma_first_after_bounds(created, ping_cursor(created, pings, ix - 1), pings[ix - 1] - PING_CONTEXT_SLACK_US);
    }
}

proof fn lemma_ping_context_bounds(created: Seq<i64>, pings: Seq<i64>, ix: int)
    requires
        0 <= ix,
    ensures
        -1 <= ping_context(created, pings, ix) < created.len(),
        ping_cursor(created, pings, ix) - 1 <= ping_context(created, pings, ix),
        ping_context(created, pings, ix) < created.len() - 1 ==> ping_cursor(created, pings, ix + 1)
            == ping_context(created, pings, ix) + 2,
        ping_context(created, pings, ix) == created.len() - 1 ==> ping_cursor(created, pings, ix + 1)
            == created.len(),
{
    lemma_cursor_bounds(created, pings, ix);
    let k = ping_cursor(created, pings, ix);
    lemma_first_after_bounds(created, k, pings[ix] - PING_CONTEXT_SLACK_US);
}

/// Pings are matched to contexts in order: a later ping never gets an
/// earlier context, and every match is -1 (none) or a context index.
pub proof fn lemma_ping_contexts_in_order(created: Seq<i64>, pings: Seq<i64>, i: int, j: int)
    requires
        0 <= i <= j,
    ensures
        -1 <= ping_context(created, pings, i) < created.len(),
        ping_context(created, pings, i) <= ping_context(created, pings, j),
    decreases j - i,
{
    lemma_ping_context_bounds(created, pings, i);
    if i < j {
        lemma_ping_contexts_in_order(created, pings, i + 1, j);
        lemma_ping_context_bounds(created, pings, i + 1);
    }
}

/// For each ping (times in microseconds, in order), the index of its context
/// among contexts ordered by creation (see `ping_context`).
pub fn assign_pings_to_contexts(ping_ts: &[i64], ctx_created: &[i64]) -> (r: Vec<i64>)
    requires
        forall|i: int| 0 <= i < ping_ts@.len() ==> #[trigger] ping_ts@[i] >= i64::MIN + PING_CONTEXT_SLACK_US,
        ctx_created@.len() < i64::MAX,
    ensures
        r@.len() == ping_ts@.len(),
        forall|ix: int| 0 <= ix < r@.len() ==> #[trigger] r@[ix] == ping_context(ctx_created@, ping_ts@, ix),
{
    let n = ctx_created.len();
    let mut r: Vec<i64> = Vec::new();
    let mut k: usize = 0;
    let mut ix: usize = 0;
    while ix < ping_ts.len()
        invariant
            ix <= ping_ts@.len(),
            n == ctx_created@.len(),
            n < i64::MAX,
            forall|i: int| 0 <= i < ping_ts@.len() ==> #[trigger] ping_ts@[i] >= i64::MIN + PING_CONTEXT_SLACK_US,
            k as int == ping_cursor(ctx_created@, ping_ts@, ix as int),
            r@.len() == ix,
            forall|j: int| 0 <= j < ix ==> #[trigger] r@[j] == ping_context(ctx_created@, ping_ts@, j),
        decreases ping_ts.len() - ix,
    {
        let threshold = ping_ts[ix] - PING_CONTEXT_SLACK_US;
        proof {
            lemma_cursor_bounds(ctx_created@, ping_ts@, ix as int);
        }
        let mut m = k;
        while m < n && ctx_created[m] <= threshold
            invariant
                k <= m <= n,
                n == ctx_created@.len(),
                first_after(ctx_created@, k as int, threshold as int) == first_after(ctx_created@, m as int, threshold as int),
            decreases n - m,
        {
            m = m + 1;
        }
        proof {
            assert(first_after(ctx_created@, m as int, threshold as int) == m);
        }
        r.push(m as i64 - 1);
        k = if m < n {
            m + 1
        } else {
            n
        };
        ix = ix + 1;
        proof {
            assert(ping_cursor(ctx_created@, ping_ts@, ix as int) == k);
        }
    }
    r
}

/// The indices of the (at most five) contexts shown with a ping matched to
/// context `c_ix`: from the context before it (or the first) on; none when
/// the ping has no context.
pub open spec fn ping_window(c_ix: int, n: int) -> Option<(int, int)> {
    if c_ix < 0 {
        None
    } else {
        let start = if c_ix >= 1 {
            c_ix - 1
        } else {
            0
        };
        Some((start, if start + 5 < n { start + 5 } else { n }))
    }
}

/// The contexts shown with a ping (see `ping_window`).
pub fn ping_context_window(c_ix: i64, n: usize) -> (r: Option<(usize, usize)>)
    requires
        c_ix < n,
    ensures
        match ping_window(c_ix as int, n as int) {
            Some((a, b)) => r == Some((a as usize, b as usize)),
            None => r is None,
        },
{
    if c_ix < 0 {
        return None;
    }
    let start: usize = if c_ix >= 1 {
        (c_ix - 1) as usize
    } else {
        0
    };
    let end: usize = if n - start > 5 {
        start + 5
    } else {
        n
    };
    Some((start, end))
}

/// The runs of consecutive equal session tokens, as index ranges.
pub open spec fn session_runs(tokens: Seq<u128>) -> Seq<(int, int)>
    decreases tokens.len(),
{
    if tokens.len() == 0 {
        seq![]
    } else {
        let n = tokens.len() - 1;
        let r = session_runs(tokens.drop_last());
        if n > 0 && tokens[n - 1] == tokens[n] {
            r.update(r.len() - 1, (r.last().0, n + 1))
        } else {
            r.push((n, n + 1))
        }
    }
}

/// The session tokens of a list of contexts.
pub open spec fn tokens_of(cs: Seq<UserContext>) -> Seq<u128> {
    cs.map_values(|c: UserContext| c.session_token)
}

proof fn lemma_session_runs_last(tokens: Seq<u128>)
    ensures
        tokens.len() > 0 ==> session_runs(tokens).len() > 0 && session_runs(tokens).last().1 == tokens.len()
            && 0 <= session_runs(tokens).last().0 < tokens.len(),
    decreases tokens.len(),
{
    if tokens.len() > 0 {
        lemma_session_runs_last(tokens.drop_last());
    }
}

/// The timeline text of the contexts `a..b` (rows up to `i`): the header, then
/// one row per context, each ended by the next context of the run.
pub open spec fn run_text(cs: Seq<UserContext>, a: int, b: int, i: int) -> Seq<char>
    decreases i - a,
{
    if i <= a {
        timeline_header_text()
    } else {
        run_text(cs, a, b, i - 1) + seq!['\n'] + row_text(
            row_of(cs[i - 1], if i < b { Some(cs[i]) } else { None }),
        )
    }
}

/// Computes the runs of consecutive contexts of one session.
fn session_runs_of(cs: &[UserContext]) -> (runs: Vec<(usize, usize)>)
    ensures
        runs@.len() == session_runs(tokens_of(cs@)).len(),
        forall|k: int| 0 <= k < runs@.len() ==> (#[trigger] runs@[k]).0 as int == session_runs(tokens_of(cs@))[k].0
            && runs@[k].1 as int == session_runs(tokens_of(cs@))[k].1,
{
    let mut runs: Vec<(usize, usize)> = Vec::new();
    let mut i: usize = 0;
    let ghost t = tokens_of(cs@);
    while i < cs.len()
        invariant
            i <= cs@.len(),
            t == tokens_of(cs@),
            runs@.len() == session_runs(t.take(i as int)).len(),
            forall|k: int| 0 <= k < runs@.len() ==> (#[trigger] runs@[k]).0 as int == session_runs(t.take(i as int))[k].0
                && runs@[k].1 as int == session_runs(t.take(i as int))[k].1,
        decreases cs.len() - i,
    {
        proof {
            assert(t.take(i + 1).drop_last() =~= t.take(i as int));
            lemma_session_runs_last(t.take(i as int));
        }
        if i > 0 && cs[i - 1].session_token == cs[i].session_token {
            let last = runs.len() - 1;
            let start = runs[last].0;
            runs.set(last, (start, i + 1));
        } else {
            runs.push((i, i + 1));
        }
        i = i + 1;
    }
    proof {
        assert(t.take(cs@.len() as int) =~= t);
    }
    runs
}

/// The timeline text of the contexts `a..b` (see `run_text`).
fn run_text_of(cs: &[UserContext], a: usize, b: usize) -> (s: String)
    requires
        a <= b <= cs@.len(),
        forall|i: int| 0 <= i < cs@.len() ==> classifiable(#[trigger] cs@[i]),
    ensures
        s@ == run_text(cs@, a as int, b as int, b as int),
{
    let mut s = String::new();
    let head = chars_of("start_ts, end_ts, ty, map_id, is_dd2_uid");
    proof {
        reveal_strlit("start_ts, end_ts, ty, map_id, is_dd2_uid");
        assert(head@ =~= timeline_header_text());
    }
    push_chars(&mut s, head.as_slice());
    assert(s@ =~= timeline_header_text());
    let mut i = a;
    while i < b
        invariant
            a <= i <= b,
            b <= cs@.len(),
            forall|j: int| 0 <= j < cs@.len() ==> classifiable(#[trigger] cs@[j]),
            s@ == run_text(cs@, a as int, b as int, i as int),
        decreases b - i,
    {
        let next = if i + 1 < b {
            Some(&cs[i + 1])
        } else {
            None
        };
        let row = gen_ctx_timeline_desc_row(&cs[i], next);
        push_char(&mut s, '\n');
        let t = row.to_row_string();
        push_str(&mut s, t.as_str());
        i = i + 1;
        proof {
            assert(s@ =~= run_text(cs@, a as int, b as int, i as int));
        }
    }
    s
}

/// For each run of consecutive contexts of one session (contexts ordered by
/// creation): the session token and the timeline text of the run.
pub fn user_timeline_data(cs: &[UserContext]) -> (out: Vec<(u128, String)>)
    requires
        forall|i: int| 0 <= i < cs@.len() ==> classifiable(#[trigger] cs@[i]),
    ensures
        out@.len() == session_runs(tokens_of(cs@)).len(),
        forall|k: int| 0 <= k < out@.len() ==> {
            let (a, b) = #[trigger] session_runs(tokens_of(cs@))[k];
            out@[k].0 == cs@[a].session_token && out@[k].1@ == run_text(cs@, a, b, b)
        },
{
    let runs = session_runs_of(cs);
    proof {
        lemma_session_runs_bounds(tokens_of(cs@));
    }
    let mut out: Vec<(u128, String)> = Vec::new();
    let mut k: usize = 0;
    while k < runs.len()
        invariant
            k <= runs@.len(),
            runs@.len() == session_runs(tokens_of(cs@)).len(),
            forall|j: int| 0 <= j < runs@.len() ==> (#[trigger] runs@[j]).0 as int == session_runs(tokens_of(cs@))[j].0
                && runs@[j].1 as int == session_runs(tokens_of(cs@))[j].1,
            forall|j: int| 0 <= j < runs@.len() ==> 0 <= (#[trigger] session_runs(tokens_of(cs@))[j]).0 < session_runs(tokens_of(cs@))[j].1 <= cs@.len(),
            forall|i: int| 0 <= i < cs@.len() ==> classifiable(#[trigger] cs@[i]),
            out@.len() == k,
            forall|j: int| 0 <= j < k ==> {
                let (a, b) = #[trigger] session_runs(tokens_of(cs@))[j];
                out@[j].0 == cs@[a].session_token && out@[j].1@ == run_text(cs@, a, b, b)
            },
        decreases runs.len() - k,
    {
        let (a, b) = runs[k];
        assert(session_runs(tokens_of(cs@))[k as int].0 < session_runs(tokens_of(cs@))[k as int].1);
        let text = run_text_of(cs, a, b);
        out.push((cs[a].session_token, text));
        k = k + 1;
    }
    out
}

/// The runs of a session list cut it into consecutive pieces: the first
/// starts at 0, each starts where the one before ends, the last ends at the
/// end; the tokens within a run are equal, and adjacent runs have different
/// tokens.
pub proof fn lemma_session_runs_partition(tokens: Seq<u128>)
    ensures
        tokens.len() > 0 ==> session_runs(tokens).len() > 0 && session_runs(tokens)[0].0 == 0
            && session_runs(tokens).last().1 == tokens.len(),
        forall|k: int|
            0 <= k < session_runs(tokens).len() - 1 ==> (#[trigger] session_runs(tokens)[k]).1 == session_runs(
                tokens,
            )[k + 1].0,
        forall|k: int, a: int|
            0 <= k < session_runs(tokens).len() && (#[trigger] session_runs(tokens)[k]).0 <= a < session_runs(tokens)[k].1
                ==> #[trigger] tokens[a] == tokens[session_runs(tokens)[k].0],
        forall|k: int|
            0 <= k < session_runs(tokens).len() - 1 ==> tokens[(#[trigger] session_runs(tokens)[k]).1 - 1] != tokens[session_runs(
                tokens,
            )[k + 1].0],
    decreases tokens.len(),
{
    if tokens.len() > 0 {
        let d = tokens.drop_last();
        lemma_session_runs_partition(d);
        lemma_session_runs_last(d);
        lemma_session_runs_bounds(d);
        lemma_session_runs_bounds(tokens);
        let rd = session_runs(d);
        let r = session_runs(tokens);
        let n = tokens.len() - 1;
        assert forall|a: int| 0 <= a < n implies #[trigger] tokens[a] == d[a] by {}
        if n > 0 && tokens[n - 1] == tokens[n] {
            assert(r == rd.update(rd.len() - 1, (rd.last().0, n + 1)));
            assert forall|k: int, a: int|
                0 <= k < r.len() && (#[trigger] r[k]).0 <= a < r[k].1 implies #[trigger] tokens[a] == tokens[r[k].0] by {
                if k < rd.len() - 1 {
                    assert(r[k] == rd[k]);
                    assert(tokens[a] == d[a]);
                    assert(d[a] == d[rd[k].0]);
                } else {
                    assert(rd[k].0 <= n - 1 < rd[k].1);
                    assert(d[n - 1] == d[rd[k].0]);
                    if a < n {
                        assert(rd[k].0 <= a < rd[k].1);
                        assert(d[a] == d[rd[k].0]);
                    }
                }
            }
            assert forall|k: int| 0 <= k < r.len() - 1 implies tokens[(#[trigger] r[k]).1 - 1] != tokens[r[k + 1].0] by {
                assert(r[k] == rd[k]);
                if k + 1 < rd.len() - 1 {
                    assert(r[k + 1] == rd[k + 1]);
                }
                assert(rd[k].1 - 1 < n);
                assert(d[rd[k].1 - 1] != d[rd[k + 1].0]);
            }
            assert forall|k: int| 0 <= k < r.len() - 1 implies (#[trigger] r[k]).1 == r[k + 1].0 by {
                assert(r[k] == rd[k]);
                assert(rd[k].1 == rd[k + 1].0);
            }
        } else {
            assert(r == rd.push((n, n + 1)));
            assert forall|k: int, a: int|
                0 <= k < r.len() && (#[trigger] r[k]).0 <= a < r[k].1 implies #[trigger] tokens[a] == tokens[r[k].0] by {
                if k < rd.len() {
                    assert(r[k] == rd[k]);
                    assert(d[a] == d[rd[k].0]);
                }
            }
            assert forall|k: int| 0 <= k < r.len() - 1 implies tokens[(#[trigger] r[k]).1 - 1] != tokens[r[k + 1].0] by {
                assert(r[k] == rd[k]);
                if k + 1 < rd.len() {
                    assert(r[k + 1] == rd[k + 1]);
                    assert(d[rd[k].1 - 1] != d[rd[k + 1].0]);
                } else {
                    assert(rd[k].1 == n);
                }
            }
            assert forall|k: int| 0 <= k < r.len() - 1 implies (#[trigger] r[k]).1 == r[k + 1].0 by {
                assert(r[k] == rd[k]);
                if k + 1 < rd.len() {
                    assert(rd[k].1 == rd[k + 1].0);
                }
            }
        }
    }
}

proof fn lemma_session_runs_bounds(tokens: Seq<u128>)
    ensures
        forall|j: int| 0 <= j < session_runs(tokens).len() ==> 0 <= (#[trigger] session_runs(tokens)[j]).0 < session_runs(tokens)[j].1 <= tokens.len(),
    decreases tokens.len(),
{
    if tokens.len() > 0 {
        let d = tokens.drop_last();
        lemma_session_runs_bounds(d);
        lemma_session_runs_last(d);
        let r = session_runs(d);
        let n = tokens.len() - 1;
        let res = session_runs(tokens);
        assert forall|j: int| 0 <= j < res.len() implies 0 <= (#[trigger] res[j]).0 < res[j].1 <= tokens.len() by {
            if j < r.len() {
                if n > 0 && tokens[n - 1] == tokens[n] && j == r.len() - 1 {
                    assert(res[j] == (r.last().0, n + 1));
                } else {
                    assert(res[j] == r[j]);
                }
            }
        }
    }
}

/// What the map-session table needs of one context.
pub struct MapCtxEntry {
    /// Creation time in seconds.
    pub ts: i64,
    pub map_name: String,
    pub bi_count: i32,
    /// Milliseconds since the game started, from the session's gamer info.
    pub since_init_ms: u64,
}

/// A stretch of consecutive contexts on one map with one block/item count.
pub struct MapSegment {
    pub ctx_ix: usize,
    pub start_ts: i64,
    pub map_name: String,
    pub bi_count: i32,
    pub since_init_ms: u64,
    pub end_ts: i64,
    pub duration_s: i64,
}

/// Timestamps small enough that adding a minute or subtracting two of them fits.
pub open spec fn ts_in_range(ts: i64) -> bool {
    -0x2000_0000_0000_0000 <= ts <= 0x2000_0000_0000_0000
}

/// The segment opened by entry `i`: it lasts a minute until extended.
pub open spec fn open_segment(es: Seq<MapCtxEntry>, i: int) -> MapSegment {
    MapSegment {
        ctx_ix: i as usize,
        start_ts: es[i].ts,
        map_name: es[i].map_name,
        bi_count: es[i].bi_count,
        since_init_ms: es[i].since_init_ms,
        end_ts: (es[i].ts + 60) as i64,
        duration_s: 60,
    }
}

/// `seg` ended at `ts`.
pub open spec fn end_segment(seg: MapSegment, ts: i64) -> MapSegment {
    MapSegment { end_ts: ts, duration_s: (ts - seg.start_ts) as i64, ..seg }
}

/// The finished segments and the open one after the first `i` entries (`i >= 1`):
/// an entry on another map or with another count finishes the open segment
/// at its time and opens a new one; otherwise it extends the open segment.
pub open spec fn segments_upto(es: Seq<MapCtxEntry>, i: int) -> (Seq<MapSegment>, MapSegment)
    decreases i,
{
    if i <= 1 {
        (seq![], open_segment(es, 0))
    } else {
        let (done, cur) = segments_upto(es, i - 1);
        let e = es[i - 1];
        if cur.map_name@ != e.map_name@ || cur.bi_count != e.bi_count {
            (done.push(end_segment(cur, e.ts)), open_segment(es, i - 1))
        } else {
            (done, end_segment(cur, e.ts))
        }
    }
}

/// All segments of a non-empty list of entries.
pub open spec fn map_segments_spec(es: Seq<MapCtxEntry>) -> Seq<MapSegment> {
    segments_upto(es, es.len() as int).0.push(segments_upto(es, es.len() as int).1)
}

proof fn lemma_segment_start(es: Seq<MapCtxEntry>, i: int)
    requires
        1 <= i <= es.len(),
        es.len() <= usize::MAX,
    ensures
        0 <= segments_upto(es, i).1.ctx_ix < i,
        segments_upto(es, i).1.start_ts == es[segments_upto(es, i).1.ctx_ix as int].ts,
    decreases i,
{
    if i > 1 {
        lemma_segment_start(es, i - 1);
    }
}

/// The segment after `done[k]`: the next finished one, or `cur`.
pub open spec fn next_segment(done: Seq<MapSegment>, cur: MapSegment, k: int) -> MapSegment {
    if k + 1 < done.len() {
        done[k + 1]
    } else {
        cur
    }
}

/// Finished segments last from their start to where the next segment starts,
/// and start at increasing contexts.
pub open spec fn segments_meet(done: Seq<MapSegment>, cur: MapSegment) -> bool {
    forall|k: int|
        0 <= k < done.len() ==> {
            &&& (#[trigger] done[k]).end_ts == next_segment(done, cur, k).start_ts
            &&& done[k].duration_s == done[k].end_ts - done[k].start_ts
            &&& done[k].ctx_ix < next_segment(done, cur, k).ctx_ix
        }
}

proof fn lemma_segments_upto_meet(es: Seq<MapCtxEntry>, i: int)
    requires
        1 <= i <= es.len(),
        es.len() <= usize::MAX,
        forall|j: int| 0 <= j < es.len() ==> ts_in_range(#[trigger] es[j].ts),
    ensures
        segments_meet(segments_upto(es, i).0, segments_upto(es, i).1),
        segments_upto(es, i).0.len() > 0 ==> segments_upto(es, i).0[0].ctx_ix == 0
            && segments_upto(es, i).0[0].start_ts == es[0].ts,
        segments_upto(es, i).0.len() == 0 ==> segments_upto(es, i).1.ctx_ix == 0
            && segments_upto(es, i).1.start_ts == es[0].ts,
    decreases i,
{
    lemma_segment_start(es, i);
    if i > 1 {
        lemma_segments_upto_meet(es, i - 1);
        lemma_segment_start(es, i - 1);
        let (done, cur) = segments_upto(es, i - 1);
        let e = es[i - 1];
        assert(ts_in_range(es[cur.ctx_ix as int].ts));
        if cur.map_name@ != e.map_name@ || cur.bi_count != e.bi_count {
            let d2 = done.push(end_segment(cur, e.ts));
            let c2 = open_segment(es, i - 1);
            assert forall|k: int| 0 <= k < d2.len() implies {
                &&& (#[trigger] d2[k]).end_ts == next_segment(d2, c2, k).start_ts
                &&& d2[k].duration_s == d2[k].end_ts - d2[k].start_ts
                &&& d2[k].ctx_ix < next_segment(d2, c2, k).ctx_ix
            } by {
                if k < done.len() {
                    assert(d2[k] == done[k]);
                    assert(done[k].end_ts == next_segment(done, cur, k).start_ts);
                }
            }
        }
    }
}

/// Entries `a` and `b` are on the same map with the same block/item count.
pub open spec fn same_map_and_count(a: MapCtxEntry, b: MapCtxEntry) -> bool {
    a.map_name@ == b.map_name@ && a.bi_count == b.bi_count
}

proof fn lemma_open_segment_run(es: Seq<MapCtxEntry>, i: int)
    requires
        1 <= i <= es.len(),
        es.len() <= usize::MAX,
        forall|j: int| 0 <= j < es.len() ==> ts_in_range(#[trigger] es[j].ts),
    ensures
        0 <= segments_upto(es, i).1.ctx_ix < i,
        segments_upto(es, i).1.start_ts == es[segments_upto(es, i).1.ctx_ix as int].ts,
        segments_upto(es, i).1.map_name@ == es[segments_upto(es, i).1.ctx_ix as int].map_name@,
        segments_upto(es, i).1.bi_count == es[segments_upto(es, i).1.ctx_ix as int].bi_count,
        forall|j: int|
            segments_upto(es, i).1.ctx_ix <= j < i ==> same_map_and_count(
                #[trigger] es[j],
                es[segments_upto(es, i).1.ctx_ix as int],
            ),
        segments_upto(es, i).1.ctx_ix > 0 ==> !same_map_and_count(
            es[segments_upto(es, i).1.ctx_ix - 1],
            es[segments_upto(es, i).1.ctx_ix as int],
        ),
        segments_upto(es, i).1.ctx_ix < i - 1 ==> segments_upto(es, i).1.end_ts == es[i - 1].ts
            && segments_upto(es, i).1.duration_s == segments_upto(es, i).1.end_ts - segments_upto(es, i).1.start_ts,
        segments_upto(es, i).1.ctx_ix == i - 1 ==> segments_upto(es, i).1.end_ts == es[i - 1].ts + 60
            && segments_upto(es, i).1.duration_s == 60,
    decreases i,
{
    if i > 1 {
        lemma_open_segment_run(es, i - 1);
        let (done, cur) = segments_upto(es, i - 1);
        let c = cur.ctx_ix as int;
        assert(same_map_and_count(es[i - 2], es[c]));
        assert(ts_in_range(es[c].ts));
        assert(ts_in_range(es[i - 1].ts));
    }
}

/// The last map segment is the last run of entries on one map with one
/// block/item count: it starts at the run's first entry, which differs from
/// the entry before it (if any); every entry of the run shares its map and
/// count; and it ends at the run's last entry, lasting from start to end,
/// or lasts a minute when the run has a single entry.
pub proof fn lemma_last_segment_run(es: Seq<MapCtxEntry>)
    requires
        es.len() > 0,
        es.len() <= usize::MAX,
        forall|j: int| 0 <= j < es.len() ==> ts_in_range(#[trigger] es[j].ts),
    ensures
        ({
            let seg = map_segments_spec(es).last();
            let n = es.len() as int;
            &&& 0 <= seg.ctx_ix < n
            &&& seg.start_ts == es[seg.ctx_ix as int].ts
            &&& seg.map_name@ == es[seg.ctx_ix as int].map_name@
            &&& seg.bi_count == es[seg.ctx_ix as int].bi_count
            &&& forall|j: int| seg.ctx_ix <= j < n ==> same_map_and_count(#[trigger] es[j], es[seg.ctx_ix as int])
            &&& seg.ctx_ix > 0 ==> !same_map_and_count(es[seg.ctx_ix - 1], es[seg.ctx_ix as int])
            &&& seg.ctx_ix < n - 1 ==> seg.end_ts == es[n - 1].ts && seg.duration_s == seg.end_ts - seg.start_ts
            &&& seg.ctx_ix == n - 1 ==> seg.end_ts == es[n - 1].ts + 60 && seg.duration_s == 60
        }),
{
    lemma_open_segment_run(es, es.len() as int);
}

/// Entries all on one map with one block/item count make a single segment,
/// from the first entry to the last (a minute for a single entry).
pub proof fn lemma_single_run_one_segment(es: Seq<MapCtxEntry>)
    requires
        es.len() > 0,
        es.len() <= usize::MAX,
        forall|j: int| 0 <= j < es.len() ==> ts_in_range(#[trigger] es[j].ts),
        forall|j: int| 0 <= j < es.len() ==> same_map_and_count(#[trigger] es[j], es[0]),
    ensures
        map_segments_spec(es).len() == 1,
        map_segments_spec(es)[0].ctx_ix == 0,
        map_segments_spec(es)[0].start_ts == es[0].ts,
        es.len() > 1 ==> map_segments_spec(es)[0].end_ts == es[es.len() - 1].ts
            && map_segments_spec(es)[0].duration_s == es[es.len() - 1].ts - es[0].ts,
        es.len() == 1 ==> map_segments_spec(es)[0].end_ts == es[0].ts + 60 && map_segments_spec(es)[0].duration_s == 60,
{
    lemma_last_segment_run(es);
    lemma_map_segments_meet(es);
    let segs = map_segments_spec(es);
    let seg = segs.last();
    if seg.ctx_ix > 0 {
        assert(same_map_and_count(es[seg.ctx_ix - 1], es[0]));
        assert(same_map_and_count(es[seg.ctx_ix as int], es[0]));
        assert(false);
    }
    if segs.len() > 1 {
        assert(segs[segs.len() - 2].ctx_ix < segs[segs.len() - 1].ctx_ix);
        assert(false);
    }
}

/// Consecutive map segments meet: each segment but the last ends when the
/// next one starts and lasts from its start to its end, the segments start
/// at increasing contexts, and the first starts at the first context.
pub proof fn lemma_map_segments_meet(es: Seq<MapCtxEntry>)
    requires
        es.len() > 0,
        es.len() <= usize::MAX,
        forall|j: int| 0 <= j < es.len() ==> ts_in_range(#[trigger] es[j].ts),
    ensures
        map_segments_spec(es)[0].ctx_ix == 0,
        map_segments_spec(es)[0].start_ts == es[0].ts,
        forall|k: int|
            0 <= k < map_segments_spec(es).len() - 1 ==> {
                &&& (#[trigger] map_segments_spec(es)[k]).end_ts == map_segments_spec(es)[k + 1].start_ts
                &&& map_segments_spec(es)[k].duration_s == map_segments_spec(es)[k].end_ts
                    - map_segments_spec(es)[k].start_ts
                &&& map_segments_spec(es)[k].ctx_ix < map_segments_spec(es)[k + 1].ctx_ix
            },
{
    lemma_segments_upto_meet(es, es.len() as int);
    let (done, cur) = segments_upto(es, es.len() as int);
    let segs = map_segments_spec(es);
    assert forall|k: int| 0 <= k < segs.len() - 1 implies {
        &&& (#[trigger] segs[k]).end_ts == segs[k + 1].start_ts
        &&& segs[k].duration_s == segs[k].end_ts - segs[k].start_ts
        &&& segs[k].ctx_ix < segs[k + 1].ctx_ix
    } by {
        assert(segs[k] == done[k]);
        assert(done[k].end_ts == next_segment(done, cur, k).start_ts);
    }
}

/// Cuts contexts (ordered by creation) into map segments (see `segments_upto`).
pub fn map_segments(es: &[MapCtxEntry]) -> (out: Vec<MapSegment>)
    requires
        es@.len() > 0,
        forall|i: int| 0 <= i < es@.len() ==> ts_in_range(#[trigger] es@[i].ts),
    ensures
        out@ == map_segments_spec(es@),
{
    let mut done: Vec<MapSegment> = Vec::new();
    let mut cur = MapSegment {
        ctx_ix: 0,
        start_ts: es[0].ts,
        map_name: es[0].map_name.clone(),
        bi_count: es[0].bi_count,
        since_init_ms: es[0].since_init_ms,
        end_ts: es[0].ts + 60,
        duration_s: 60,
    };
    let mut i: usize = 1;
    while i < es.len()
        invariant
            1 <= i <= es@.len(),
            forall|j: int| 0 <= j < es@.len() ==> ts_in_range(#[trigger] es@[j].ts),
            (done@, cur) == segments_upto(es@, i as int),
        decreases es.len() - i,
    {
        proof {
            lemma_segment_start(es@, i as int);
            assert(ts_in_range(es@[cur.ctx_ix as int].ts));
            assert(ts_in_range(es@[i as int].ts));
        }
        let e = &es[i];
        if cur.map_name != e.map_name || cur.bi_count != e.bi_count {
            let finished = MapSegment {
                ctx_ix: cur.ctx_ix,
                start_ts: cur.start_ts,
                map_name: cur.map_name,
                bi_count: cur.bi_count,
                since_init_ms: cur.since_init_ms,
                end_ts: e.ts,
                duration_s: e.ts - cur.start_ts,
            };
            done.push(finished);
            cur = MapSegment {
                ctx_ix: i,
                start_ts: e.ts,
                map_name: e.map_name.clone(),
                bi_count: e.bi_count,
                since_init_ms: e.since_init_ms,
                end_ts: e.ts + 60,
                duration_s: 60,
            };
        } else {
            cur.end_ts = e.ts;
            cur.duration_s = e.ts - cur.start_ts;
        }
        i = i + 1;
    }
    done.push(cur);
    done
}

/// `SinceInit:`
pub open spec fn since_init_marker() -> Seq<char> {
    seq!['S', 'i', 'n', 'c', 'e', 'I', 'n', 'i', 't', ':']
}

/// The text of the game's uptime in a gamer-info text: the first line after
/// the first `SinceInit:` (up to a second one), or empty.
pub open spec fn since_init_text(gamer_info: Seq<char>) -> Seq<char> {
    let piece = match crate::text::second_piece(gamer_info, since_init_marker()) {
        Some(p) => p,
        None => Seq::empty(),
    };
    let ls = crate::text::lines_spec(piece);
    if ls.len() > 0 {
        ls[0]
    } else {
        Seq::empty()
    }
}

/// The game's uptime in milliseconds named in a gamer-info text, if that
/// text is a `u64` (see `since_init_text`).
pub fn since_init_ms_of(gamer_info: &str) -> (r: Option<u64>)
    ensures
        r is Some <==> crate::text::parses_unsigned(since_init_text(gamer_info@), 10, u64::MAX as int),
        r matches Some(v) ==> v as int == crate::text::unsigned_value(since_init_text(gamer_info@), 10),
{
    let g = chars_of(gamer_info);
    let marker = chars_of("SinceInit:");
    proof {
        reveal_strlit("SinceInit:");
        assert(marker@ =~= since_init_marker());
    }
    let piece = match crate::text::second_piece_chars(g.as_slice(), marker.as_slice()) {
        Some(p) => p,
        None => Vec::new(),
    };
    let ls = crate::text::lines_of(piece.as_slice());
    let line = if ls.len() > 0 {
        string_of(ls[0].as_slice())
    } else {
        String::new()
    };
    assert(line@ == since_init_text(gamer_info@));
    match crate::text::parse_u64_decimal(line.as_str()) {
        Ok(v) => Some(v),
        Err(_) => None,
    }
}

/// `no-map`
pub open spec fn no_map_text() -> Seq<char> {
    seq!['n', 'o', '-', 'm', 'a', 'p']
}

/// `not-rel&no-uid`
pub open spec fn not_rel_text() -> Seq<char> {
    seq!['n', 'o', 't', '-', 'r', 'e', 'l', '&', 'n', 'o', '-', 'u', 'i', 'd']
}

/// `<!:;`, the start of names of maps that are not relevant.
pub open spec fn not_rel_marker() -> Seq<char> {
    seq!['<', '!', ':', ';']
}

/// The name of a context's map in the map-session table: its name, else its
/// UID, else `no-map`; names starting with `<!:;` are replaced by the UID, or
/// `not-rel&no-uid`.
pub open spec fn map_display_name_spec(ctx: UserContext) -> Seq<char> {
    let name = match ctx.map_name {
        Some(n) => n@,
        None => match ctx.map_uid {
            Some(u) => u@,
            None => no_map_text(),
        },
    };
    if crate::text::starts_with_spec(name, not_rel_marker()) {
        match ctx.map_uid {
            Some(u) => u@,
            None => not_rel_text(),
        }
    } else {
        name
    }
}

/// The name of a context's map in the map-session table (see `map_display_name_spec`).
pub fn map_display_name(ctx: &UserContext) -> (r: String)
    ensures
        r@ == map_display_name_spec(*ctx),
{
    let no_map = <String as vstd::string::StringExecFns>::from_str("no-map");
    let not_rel = <String as vstd::string::StringExecFns>::from_str("not-rel&no-uid");
    let marker = chars_of("<!:;");
    proof {
        reveal_strlit("no-map");
        reveal_strlit("not-rel&no-uid");
        reveal_strlit("<!:;");
        assert(no_map@ =~= no_map_text());
        assert(not_rel@ =~= not_rel_text());
        assert(marker@ =~= not_rel_marker());
    }
    let name = match &ctx.map_name {
        Some(n) => n.clone(),
        None => match &ctx.map_uid {
            Some(u) => u.clone(),
            None => no_map,
        },
    };
    let name_chars = chars_of(name.as_str());
    if crate::text::starts_with(name_chars.as_slice(), marker.as_slice()) {
        match &ctx.map_uid {
            Some(u) => u.clone(),
            None => not_rel,
        }
    } else {
        name
    }
}

} // verus!
