//! Plugin version numbers: parsing `a.b.c` texts, printing them, comparing
//! them, and the minimum version the server accepts.
use vstd::prelude::*;
use crate::text::{
    all_digits, digit_char, digit_value, digits_value, unsigned_digits, chars_of, lemma_split_nonempty, lines_of, lines_spec, nat_decimal, parse_u32_decimal, parses_unsigned,
    push_char, push_str, split_chars, split_spec, starts_with, starts_with_spec, string_of, u32_decimal,
    unsigned_value,
};

verus! {

broadcast use vstd::string::group_string_axioms;

/// The oldest plugin version the server talks to.
pub const MIN_PLUGIN_VERSION: [u32; 3] = [0, 4, 15];

/// `v1` comes before `v2`: at the first position where they differ (within
/// the shorter one), `v1` is smaller. A version never comes before one of
/// its extensions or prefixes.
pub open spec fn version_less_spec(v1: Seq<u32>, v2: Seq<u32>) -> bool {
    exists|i: int|
        0 <= i < v1.len() && i < v2.len() && v1.take(i) == v2.take(i) && #[trigger] v1[i] < v2[i]
}

/// Text of a version: the decimal parts joined by dots.
pub open spec fn version_text(v: Seq<u32>) -> Seq<char>
    decreases v.len(),
{
    if v.len() == 0 {
        Seq::empty()
    } else if v.len() == 1 {
        nat_decimal(v[0] as nat)
    } else {
        version_text(v.drop_last()) + seq!['.'] + nat_decimal(v.last() as nat)
    }
}

/// Every dot-separated piece of `version` parses as a `u32`.
pub open spec fn version_parses(version: Seq<char>) -> bool {
    forall|i: int|
        0 <= i < split_spec(version, '.').len() ==> parses_unsigned(
            #[trigger] split_spec(version, '.')[i],
            10,
            u32::MAX as int,
        )
}

/// The parts of a version text that parses.
pub open spec fn version_parts(version: Seq<char>) -> Seq<int> {
    split_spec(version, '.').map_values(|p: Seq<char>| unsigned_value(p, 10))
}

/// The first line of `ls` that starts with `pre`.
pub open spec fn first_line_with_prefix(ls: Seq<Seq<char>>, pre: Seq<char>) -> Option<Seq<char>>
    decreases ls.len(),
{
    if ls.len() == 0 {
        None
    } else if starts_with_spec(ls[0], pre) {
        Some(ls[0])
    } else {
        first_line_with_prefix(ls.drop_first(), pre)
    }
}

/// The text `Version:`.
pub open spec fn version_line_prefix() -> Seq<char> {
    seq!['V', 'e', 'r', 's', 'i', 'o', 'n', ':']
}

/// The version named in a plugin description: what follows the last `:` of
/// the first line that starts with `Version:`, or `0.0.0` without such a line.
pub open spec fn extracted_version(plugin_info: Seq<char>) -> Seq<char> {
    match first_line_with_prefix(lines_spec(plugin_info), version_line_prefix()) {
        Some(l) => split_spec(l, ':').last(),
        None => seq!['0', '.', '0', '.', '0'],
    }
}

/// Returns true if `v1` comes before `v2` (see `version_less_spec`).
pub fn version_less(v1: &[u32], v2: &[u32]) -> (r: bool)
    ensures
        r == version_less_spec(v1@, v2@),
{
    let mut i: usize = 0;
    while i < v1.len() && i < v2.len()
        invariant
            i <= v1.len(),
            i <= v2.len(),
            v1@.take(i as int) == v2@.take(i as int),
        decreases v1.len() - i,
    {
        if v1[i] < v2[i] {
            return true;
        }
        if v1[i] > v2[i] {
            proof {
                assert forall|j: int|
                    0 <= j < v1@.len() && j < v2@.len() && v1@.take(j) == v2@.take(j) implies !(
                #[trigger] v1@[j] < v2@[j]) by {
                    if j < i {
                        assert(v1@.take(i as int)[j] == v2@.take(i as int)[j]);
                    } else if j > i {
                        assert(v1@.take(j)[i as int] == v2@.take(j)[i as int]);
                    }
                }
            }
            return false;
        }
        i = i + 1;
        assert(v1@.take(i as int) =~= v1@.take(i - 1).push(v1@[i - 1]));
        assert(v2@.take(i as int) =~= v2@.take(i - 1).push(v2@[i - 1]));
    }
    proof {
        assert forall|j: int|
            0 <= j < v1@.len() && j < v2@.len() && v1@.take(j) == v2@.take(j) implies !(
        #[trigger] v1@[j] < v2@[j]) by {
            assert(v1@.take(i as int)[j] == v2@.take(i as int)[j]);
        }
    }
    false
}

/// Prints a version as its decimal parts joined by dots.
pub fn version_to_string(v: &[u32]) -> (s: String)
    ensures
        s@ == version_text(v@),
{
    let mut s = String::new();
    let mut i: usize = 0;
    while i < v.len()
        invariant
            i <= v.len(),
            s@ == version_text(v@.take(i as int)),
        decreases v.len() - i,
    {
        proof {
            assert(v@.take(i + 1).drop_last() =~= v@.take(i as int));
        }
        if i > 0 {
            push_char(&mut s, '.');
        }
        let d = u32_decimal(v[i]);
        push_str(&mut s, d.as_str());
        i = i + 1;
        proof {
            if i == 1 {
                assert(s@ =~= version_text(v@.take(i as int)));
            } else {
                assert(s@ =~= version_text(v@.take(i as int)));
            }
        }
    }
    assert(v@.take(v.len() as int) =~= v@);
    s
}

/// Parses a dot-separated version; fails if any piece is not a `u32`.
pub fn version_str_to_parts(version: &str) -> (r: Result<Vec<u32>, ()>)
    ensures
        r is Ok <==> version_parses(version@),
        r matches Ok(parts) ==> parts@.map_values(|x: u32| x as int) == version_parts(version@),
{
    let chars = chars_of(version);
    let pieces = split_chars(chars.as_slice(), '.');
    let mut parts: Vec<u32> = Vec::new();
    let mut i: usize = 0;
    let ghost sp = split_spec(version@, '.');
    while i < pieces.len()
        invariant
            i <= pieces.len(),
            pieces@.len() == sp.len(),
            forall|j: int| 0 <= j < pieces@.len() ==> #[trigger] pieces@[j]@ == sp[j],
            sp == split_spec(version@, '.'),
            parts@.len() == i,
            forall|j: int| 0 <= j < i ==> parses_unsigned(#[trigger] sp[j], 10, u32::MAX as int),
            forall|j: int| 0 <= j < i ==> #[trigger] parts@[j] as int == unsigned_value(sp[j], 10),
        decreases pieces.len() - i,
    {
        let piece = string_of(pieces[i].as_slice());
        match parse_u32_decimal(piece.as_str()) {
            Ok(n) => {
                parts.push(n);
            },
            Err(_) => {
                return Err(());
            },
        }
        i = i + 1;
    }
    proof {
        assert(parts@.map_values(|x: u32| x as int) =~= version_parts(version@));
    }
    Ok(parts)
}

/// The version named in a plugin description (see `extracted_version`).
pub fn plugin_info_extract_version(plugin_info: &str) -> (v: String)
    ensures
        v@ == extracted_version(plugin_info@),
{
    let chars = chars_of(plugin_info);
    let lines = lines_of(chars.as_slice());
    let pre = chars_of("Version:");
    proof {
        reveal_strlit("Version:");
        assert(pre@ =~= seq!['V', 'e', 'r', 's', 'i', 'o', 'n', ':']);
    }
    let mut i: usize = 0;
    let ghost ls = lines_spec(plugin_info@);
    assert(ls.skip(0) =~= ls);
    while i < lines.len()
        invariant
            i <= lines.len(),
            lines@.len() == ls.len(),
            ls == lines_spec(plugin_info@),
            forall|j: int| 0 <= j < lines@.len() ==> #[trigger] lines@[j]@ == ls[j],
            pre@ == version_line_prefix(),
            first_line_with_prefix(ls, pre@) == first_line_with_prefix(ls.skip(i as int), pre@),
        decreases lines.len() - i,
    {
        proof {
            assert(ls.skip(i as int).drop_first() =~= ls.skip(i + 1));
            assert(ls.skip(i as int)[0] == ls[i as int]);
        }
        if starts_with(lines[i].as_slice(), pre.as_slice()) {
            let pieces = split_chars(lines[i].as_slice(), ':');
            proof {
                lemma_split_nonempty(ls[i as int], ':');
            }
            let last = &pieces[pieces.len() - 1];
            proof {
                assert(first_line_with_prefix(ls.skip(i as int), pre@) == Some(ls[i as int]));
                assert(last@ == split_spec(ls[i as int], ':').last());
                assert(first_line_with_prefix(ls, pre@) == Some(ls[i as int]));
                assert(extracted_version(plugin_info@) == split_spec(ls[i as int], ':').last());
            }
            return string_of(last.as_slice());
        }
        i = i + 1;
    }
    proof {
        assert(ls.skip(i as int).len() == 0);
    }
    let dflt = chars_of("0.0.0");
    proof {
        reveal_strlit("0.0.0");
        assert(dflt@ =~= seq!['0', '.', '0', '.', '0']);
    }
    string_of(dflt.as_slice())
}

/// A version comes never before itself.
pub proof fn lemma_version_less_irreflexive(v: Seq<u32>)
    ensures
        !version_less_spec(v, v),
{
}

/// Two versions are never each before the other.
pub proof fn lemma_version_less_asymmetric(a: Seq<u32>, b: Seq<u32>)
    ensures
        !(version_less_spec(a, b) && version_less_spec(b, a)),
{
    if version_less_spec(a, b) && version_less_spec(b, a) {
        let i = choose|i: int| 0 <= i < a.len() && i < b.len() && a.take(i) == b.take(i) && #[trigger] a[i] < b[i];
        let j = choose|j: int| 0 <= j < b.len() && j < a.len() && b.take(j) == a.take(j) && #[trigger] b[j] < a[j];
        if i < j {
            assert(b.take(j)[i] == a.take(j)[i]);
        } else if j < i {
            assert(a.take(i)[j] == b.take(i)[j]);
        }
    }
}

/// Coming before is transitive.
pub proof fn lemma_version_less_transitive(a: Seq<u32>, b: Seq<u32>, c: Seq<u32>)
    requires
        version_less_spec(a, b),
        version_less_spec(b, c),
    ensures
        version_less_spec(a, c),
{
    let i = choose|i: int| 0 <= i < a.len() && i < b.len() && a.take(i) == b.take(i) && #[trigger] a[i] < b[i];
    let j = choose|j: int| 0 <= j < b.len() && j < c.len() && b.take(j) == c.take(j) && #[trigger] b[j] < c[j];
    if i < j {
        assert(c.take(j)[i] == b.take(j)[i]);
        assert forall|k: int| 0 <= k < i implies a.take(i)[k] == c.take(i)[k] by {
            assert(a.take(i)[k] == b.take(i)[k]);
            assert(c.take(j)[k] == b.take(j)[k]);
        }
        assert(a.take(i) =~= c.take(i));
        assert(a[i] < c[i]);
    } else if j < i {
        assert(a.take(i)[j] == b.take(i)[j]);
        assert forall|k: int| 0 <= k < j implies a.take(j)[k] == c.take(j)[k] by {
            assert(a.take(i)[k] == b.take(i)[k]);
            assert(c.take(j)[k] == b.take(j)[k]);
        }
        assert(a.take(j) =~= c.take(j));
        assert(a[j] < c[j]);
    } else {
        assert(a.take(i) =~= c.take(i));
        assert(a[i] < c[i]);
    }
}

/// The decimal text of a number is a non-empty digit string without sign whose value is the number.
pub(crate) proof fn lemma_decimal_digits(n: nat)
    ensures
        nat_decimal(n).len() > 0,
        all_digits(nat_decimal(n), 10),
        digits_value(nat_decimal(n), 10) == n,
        unsigned_digits(nat_decimal(n)) == nat_decimal(n),
        forall|i: int| 0 <= i < nat_decimal(n).len() ==> #[trigger] nat_decimal(n)[i] != '.',
    decreases n,
{
    let d = nat_decimal(n);
    if n < 10 {
        assert(digit_char(n) as int == n + 48);
        assert(digits_value(d.drop_last(), 10) == 0);
    } else {
        lemma_decimal_digits(n / 10);
        let p = nat_decimal(n / 10);
        assert(digit_char(n % 10) as int == n % 10 + 48);
        assert(d.drop_last() =~= p);
        assert(d.last() == digit_char(n % 10));
        assert forall|i: int| 0 <= i < d.len() implies 0 <= #[trigger] digit_value(d[i]) < 10 by {
            if i < p.len() {
                assert(d[i] == p[i]);
            }
        }
        assert forall|i: int| 0 <= i < d.len() implies #[trigger] d[i] != '.' by {
            if i < p.len() {
                assert(d[i] == p[i]);
                assert(0 <= digit_value(p[i]) < 10);
            }
        }
        assert(d[0] == p[0]);
        assert(0 <= digit_value(p[0]) < 10);
    }
    assert(0 <= digit_value(d[0]) < 10);
}

/// Splitting a text without separator gives the text itself.
pub(crate) proof fn lemma_split_without_sep(s: Seq<char>, sep: char)
    requires
        forall|i: int| 0 <= i < s.len() ==> #[trigger] s[i] != sep,
    ensures
        split_spec(s, sep) == seq![s],
    decreases s.len(),
{
    if s.len() > 0 {
        lemma_split_without_sep(s.drop_last(), sep);
        assert(s.drop_last().push(s.last()) =~= s);
        assert(split_spec(s, sep) =~= seq![s]);
    } else {
        assert(s =~= Seq::<char>::empty());
    }
}

/// Splitting `a`, a separator and a separator-free `b` adds `b` as the last piece.
pub(crate) proof fn lemma_split_append(a: Seq<char>, b: Seq<char>, sep: char)
    requires
        forall|i: int| 0 <= i < b.len() ==> #[trigger] b[i] != sep,
    ensures
        split_spec(a + seq![sep] + b, sep) == split_spec(a, sep).push(b),
    decreases b.len(),
{
    let s = a + seq![sep] + b;
    if b.len() == 0 {
        assert(s.drop_last() =~= a);
        assert(b =~= Seq::<char>::empty());
    } else {
        lemma_split_append(a, b.drop_last(), sep);
        assert(s.drop_last() =~= a + seq![sep] + b.drop_last());
        assert(b.drop_last().push(b.last()) =~= b);
        assert(split_spec(s, sep) =~= split_spec(a, sep).push(b));
    }
}

/// Printing a non-empty version and parsing the text gives the version back.
pub proof fn lemma_version_text_round_trip(v: Seq<u32>)
    requires
        v.len() > 0,
    ensures
        version_parses(version_text(v)),
        version_parts(version_text(v)) == v.map_values(|x: u32| x as int),
    decreases v.len(),
{
    let t = version_text(v);
    if v.len() == 1 {
        lemma_decimal_digits(v[0] as nat);
        lemma_split_without_sep(t, '.');
        assert(version_parts(t) =~= v.map_values(|x: u32| x as int));
    } else {
        let p = v.drop_last();
        lemma_version_text_round_trip(p);
        lemma_decimal_digits(v.last() as nat);
        lemma_split_append(version_text(p), nat_decimal(v.last() as nat), '.');
        let sp = split_spec(t, '.');
        assert(version_parts(version_text(p)).len() == p.map_values(|x: u32| x as int).len());
        assert(split_spec(version_text(p), '.').len() == p.len());
        assert(sp == split_spec(version_text(p), '.').push(nat_decimal(v.last() as nat)));
        assert forall|i: int| 0 <= i < sp.len() implies parses_unsigned(#[trigger] sp[i], 10, u32::MAX as int) by {
            if i < sp.len() - 1 {
                assert(sp[i] == split_spec(version_text(p), '.')[i]);
            }
        }
        assert(version_parts(t) =~= v.map_values(|x: u32| x as int)) by {
            assert forall|i: int| 0 <= i < v.len() implies #[trigger] version_parts(t)[i] == v[i] as int by {
                if i < v.len() - 1 {
                    assert(sp[i] == split_spec(version_text(p), '.')[i]);
                    assert(version_parts(version_text(p))[i] == p[i] as int);
                }
            }
        }
    }
}

} // verus!
