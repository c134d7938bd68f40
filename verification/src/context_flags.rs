//! Packing of the game's scene flags into a single integer.
//!
//! The client reports fifteen boolean scene flags as one `u64`: each set flag
//! multiplies the packed value by the odd part of a coefficient, and the
//! flags are shuffled by a fixed permutation before the coefficients are
//! looked up. The odd parts of the eleven coefficients that are larger than
//! one are pairwise coprime, so a flag is set exactly when its divisor divides
//! the packed value.
use vstd::prelude::*;
use vstd::arithmetic::div_mod::{lemma_mul_mod_noop, lemma_mul_mod_noop_left, lemma_mod_multiples_basic};
use vstd::string::StringSliceAdditionalSpecFns;
use vstd::utf8::is_char_boundary;
use std::num::ParseIntError;
use crate::text::{
    all_digits, chars_of, digit_value, digits_value, parse_u64_hex, parses_unsigned, string_of, sub_chars,
    unsigned_digits, unsigned_value,
};

verus! {

/// Coefficient of each flag, indexed in shuffled ("cypher") order.
pub const CONTEXT_COEFFICIENTS: [i32; 15] = [69, 59, 136, 1, 26, 77, 41, 1, 95, 53, 1, 1, 86, 62, 89];

/// From shuffled to plain order (`-1`: position maps to itself).
pub const CONTEXT_MAP_CYPHER_TO_PLAIN: [i32; 15] = [6, 1, 14, -1, 12, 0, 8, -1, 13, 5, -1, -1, 2, 4, 9];

/// From plain to shuffled order (`-1`: position maps to itself).
pub const CONTEXT_MAP_PLAIN_TO_CYPHER: [i32; 15] = [5, 1, 12, -1, 13, 9, 0, -1, 6, 14, -1, -1, 4, 8, 2];

pub open spec fn coef(k: int) -> int {
    CONTEXT_COEFFICIENTS@[k] as int
}

pub open spec fn cypher_to_plain(k: int) -> int {
    if CONTEXT_MAP_CYPHER_TO_PLAIN@[k] == -1 {
        k
    } else {
        CONTEXT_MAP_CYPHER_TO_PLAIN@[k] as int
    }
}

pub open spec fn plain_to_cypher(p: int) -> int {
    if CONTEXT_MAP_PLAIN_TO_CYPHER@[p] == -1 {
        p
    } else {
        CONTEXT_MAP_PLAIN_TO_CYPHER@[p] as int
    }
}

/// The positions that carry information (the others have coefficient one).
pub open spec fn is_carrying(k: int) -> bool {
    0 <= k < 15 && k != 3 && k != 7 && k != 10 && k != 11
}

/// `x` with every factor two removed (zero stays zero).
pub open spec fn odd_part(x: nat) -> nat
    decreases x,
{
    if x > 0 && x % 2 == 0 {
        odd_part(x / 2)
    } else {
        x
    }
}

/// The divisor that stands for the flag in shuffled position `k`.
pub open spec fn divisor(k: int) -> nat {
    odd_part(coef(k) as nat)
}

/// The factor that a set flag in plain position `p` contributes.
pub open spec fn flag_factor(p: int) -> nat {
    divisor(plain_to_cypher(p))
}

/// Packed value of the first `n` flags of `arr`.
pub open spec fn encode_prefix(arr: Seq<bool>, n: nat) -> nat
    decreases n,
{
    if n == 0 {
        1
    } else {
        encode_prefix(arr, (n - 1) as nat) * (if arr[n - 1] {
            flag_factor(n - 1)
        } else {
            1
        })
    }
}

/// Packed value of fifteen flags: the product of the factors of the set flags.
pub open spec fn encode_spec(arr: Seq<bool>) -> nat {
    encode_prefix(arr, 15)
}

/// The flags that a packed value stands for: flag `p` is set exactly when
/// the value is non-zero, `p` carries information and its divisor divides
/// the value.
pub open spec fn decode_spec(flags: nat) -> Seq<bool> {
    Seq::new(
        15,
        |p: int| flags != 0 && is_carrying(p) && flags % divisor(plain_to_cypher(p)) == 0,
    )
}

/// "Not in an editor, and in a playground, solo or server context."
pub open spec fn flags_not_in_editor(d: Seq<bool>) -> bool {
    !(d[5] || d[7] || d[9] || d[11]) && (d[2] || d[3] || d[4])
}

proof fn lemma_tables()
    ensures
        forall|p: int| 0 <= p < 15 ==> 0 <= #[trigger] plain_to_cypher(p) < 15,
        forall|k: int| 0 <= k < 15 ==> 0 <= #[trigger] cypher_to_plain(k) < 15,
        forall|p: int| 0 <= p < 15 ==> #[trigger] cypher_to_plain(plain_to_cypher(p)) == p,
        forall|k: int| 0 <= k < 15 ==> #[trigger] plain_to_cypher(cypher_to_plain(k)) == k,
        forall|p: int| 0 <= p < 15 ==> (#[trigger] is_carrying(plain_to_cypher(p)) <==> is_carrying(p)),
        forall|k: int| 0 <= k < 15 ==> (#[trigger] coef(k) >= 2 <==> is_carrying(k)),
        forall|k: int| 0 <= k < 15 ==> #[trigger] coef(k) >= 1,
{
}

proof fn lemma_divisors()
    ensures
        divisor(0) == 69,
        divisor(1) == 59,
        divisor(2) == 17,
        divisor(3) == 1,
        divisor(4) == 13,
        divisor(5) == 77,
        divisor(6) == 41,
        divisor(7) == 1,
        divisor(8) == 95,
        divisor(9) == 53,
        divisor(10) == 1,
        divisor(11) == 1,
        divisor(12) == 43,
        divisor(13) == 31,
        divisor(14) == 89,
{
    reveal_with_fuel(odd_part, 5);
}

proof fn lemma_divisor_facts(k: int)
    requires
        0 <= k < 15,
    ensures
        divisor(k) % 2 == 1,
        is_carrying(k) ==> divisor(k) > 1,
        !is_carrying(k) ==> divisor(k) == 1,
{
    lemma_divisors();
}

/// The divisor values of the carrying positions.
spec fn divisor_values() -> Seq<int> {
    seq![69, 59, 17, 13, 77, 41, 95, 53, 43, 31, 89]
}

proof fn lemma_divisor_index(k: int)
    requires
        is_carrying(k),
    ensures
        divisor_values().contains(divisor(k) as int),
{
    lemma_divisors();
    let v = divisor_values();
    if k == 0 {
        assert(v[0] == divisor(k));
    } else if k == 1 {
        assert(v[1] == divisor(k));
    } else if k == 2 {
        assert(v[2] == divisor(k));
    } else if k == 4 {
        assert(v[3] == divisor(k));
    } else if k == 5 {
        assert(v[4] == divisor(k));
    } else if k == 6 {
        assert(v[5] == divisor(k));
    } else if k == 8 {
        assert(v[6] == divisor(k));
    } else if k == 9 {
        assert(v[7] == divisor(k));
    } else if k == 12 {
        assert(v[8] == divisor(k));
    } else if k == 13 {
        assert(v[9] == divisor(k));
    } else {
        assert(v[10] == divisor(k));
    }
}

/// A multiplicative inverse of `b` modulo `a`, for two different divisor values.
spec fn inverse_mod(b: int, a: int) -> int {
    if a == 69 && b == 59 {
        62
    } else if a == 69 && b == 17 {
        65
    } else if a == 69 && b == 13 {
        16
    } else if a == 69 && b == 77 {
        26
    } else if a == 69 && b == 41 {
        32
    } else if a == 69 && b == 95 {
        8
    } else if a == 69 && b == 53 {
        56
    } else if a == 69 && b == 43 {
        61
    } else if a == 69 && b == 31 {
        49
    } else if a == 69 && b == 89 {
        38
    } else if a == 59 && b == 69 {
        6
    } else if a == 59 && b == 17 {
        7
    } else if a == 59 && b == 13 {
        50
    } else if a == 59 && b == 77 {
        23
    } else if a == 59 && b == 41 {
        36
    } else if a == 59 && b == 95 {
        41
    } else if a == 59 && b == 53 {
        49
    } else if a == 59 && b == 43 {
        11
    } else if a == 59 && b == 31 {
        40
    } else if a == 59 && b == 89 {
        2
    } else if a == 17 && b == 69 {
        1
    } else if a == 17 && b == 59 {
        15
    } else if a == 17 && b == 13 {
        4
    } else if a == 17 && b == 77 {
        2
    } else if a == 17 && b == 41 {
        5
    } else if a == 17 && b == 95 {
        12
    } else if a == 17 && b == 53 {
        9
    } else if a == 17 && b == 43 {
        2
    } else if a == 17 && b == 31 {
        11
    } else if a == 17 && b == 89 {
        13
    } else if a == 13 && b == 69 {
        10
    } else if a == 13 && b == 59 {
        2
    } else if a == 13 && b == 17 {
        10
    } else if a == 13 && b == 77 {
        12
    } else if a == 13 && b == 41 {
        7
    } else if a == 13 && b == 95 {
        10
    } else if a == 13 && b == 53 {
        1
    } else if a == 13 && b == 43 {
        10
    } else if a == 13 && b == 31 {
        8
    } else if a == 13 && b == 89 {
        6
    } else if a == 77 && b == 69 {
        48
    } else if a == 77 && b == 59 {
        47
    } else if a == 77 && b == 17 {
        68
    } else if a == 77 && b == 13 {
        6
    } else if a == 77 && b == 41 {
        62
    } else if a == 77 && b == 95 {
        30
    } else if a == 77 && b == 53 {
        16
    } else if a == 77 && b == 43 {
        43
    } else if a == 77 && b == 31 {
        5
    } else if a == 77 && b == 89 {
        45
    } else if a == 41 && b == 69 {
        22
    } else if a == 41 && b == 59 {
        16
    } else if a == 41 && b == 17 {
        29
    } else if a == 41 && b == 13 {
        19
    } else if a == 41 && b == 77 {
        8
    } else if a == 41 && b == 95 {
        19
    } else if a == 41 && b == 53 {
        24
    } else if a == 41 && b == 43 {
        21
    } else if a == 41 && b == 31 {
        4
    } else if a == 41 && b == 89 {
        6
    } else if a == 95 && b == 69 {
        84
    } else if a == 95 && b == 59 {
        29
    } else if a == 95 && b == 17 {
        28
    } else if a == 95 && b == 13 {
        22
    } else if a == 95 && b == 77 {
        58
    } else if a == 95 && b == 41 {
        51
    } else if a == 95 && b == 53 {
        52
    } else if a == 95 && b == 43 {
        42
    } else if a == 95 && b == 31 {
        46
    } else if a == 95 && b == 89 {
        79
    } else if a == 53 && b == 69 {
        10
    } else if a == 53 && b == 59 {
        9
    } else if a == 53 && b == 17 {
        25
    } else if a == 53 && b == 13 {
        49
    } else if a == 53 && b == 77 {
        42
    } else if a == 53 && b == 41 {
        22
    } else if a == 53 && b == 95 {
        24
    } else if a == 53 && b == 43 {
        37
    } else if a == 53 && b == 31 {
        12
    } else if a == 53 && b == 89 {
        28
    } else if a == 43 && b == 69 {
        5
    } else if a == 43 && b == 59 {
        35
    } else if a == 43 && b == 17 {
        38
    } else if a == 43 && b == 13 {
        10
    } else if a == 43 && b == 77 {
        19
    } else if a == 43 && b == 41 {
        21
    } else if a == 43 && b == 95 {
        24
    } else if a == 43 && b == 53 {
        13
    } else if a == 43 && b == 31 {
        25
    } else if a == 43 && b == 89 {
        29
    } else if a == 31 && b == 69 {
        9
    } else if a == 31 && b == 59 {
        10
    } else if a == 31 && b == 17 {
        11
    } else if a == 31 && b == 13 {
        12
    } else if a == 31 && b == 77 {
        29
    } else if a == 31 && b == 41 {
        28
    } else if a == 31 && b == 95 {
        16
    } else if a == 31 && b == 53 {
        24
    } else if a == 31 && b == 43 {
        13
    } else if a == 31 && b == 89 {
        23
    } else if a == 89 && b == 69 {
        40
    } else if a == 89 && b == 59 {
        86
    } else if a == 89 && b == 17 {
        21
    } else if a == 89 && b == 13 {
        48
    } else if a == 89 && b == 77 {
        37
    } else if a == 89 && b == 41 {
        76
    } else if a == 89 && b == 95 {
        15
    } else if a == 89 && b == 53 {
        42
    } else if a == 89 && b == 43 {
        29
    } else if a == 89 && b == 31 {
        23
    } else {
        0
    }
}

/// The divisors of two different carrying positions are coprime.
proof fn lemma_divisors_coprime(k: int, j: int)
    requires
        is_carrying(k),
        is_carrying(j),
        k != j,
    ensures
        (divisor(j) * inverse_mod(divisor(j) as int, divisor(k) as int)) % (divisor(k) as int) == 1,
{
    lemma_divisor_index(k);
    lemma_divisor_index(j);
    lemma_divisors();
    lemma_inverse_table(divisor(j) as int, divisor(k) as int);
}

proof fn lemma_inverse_table(b: int, a: int)
    requires
        divisor_values().contains(a),
        divisor_values().contains(b),
        a != b,
    ensures
        (b * inverse_mod(b, a)) % a == 1,
{
    if a == 69 && b == 59 {
        assert(inverse_mod(b, a) == 62);
        assert((59int * 62) % 69 == 1);
    } else if a == 69 && b == 17 {
        assert(inverse_mod(b, a) == 65);
        assert((17int * 65) % 69 == 1);
    } else if a == 69 && b == 13 {
        assert(inverse_mod(b, a) == 16);
        assert((13int * 16) % 69 == 1);
    } else if a == 69 && b == 77 {
        assert(inverse_mod(b, a) == 26);
        assert((77int * 26) % 69 == 1);
    } else if a == 69 && b == 41 {
        assert(inverse_mod(b, a) == 32);
        assert((41int * 32) % 69 == 1);
    } else if a == 69 && b == 95 {
        assert(inverse_mod(b, a) == 8);
        assert((95int * 8) % 69 == 1);
    } else if a == 69 && b == 53 {
        assert(inverse_mod(b, a) == 56);
        assert((53int * 56) % 69 == 1);
    } else if a == 69 && b == 43 {
        assert(inverse_mod(b, a) == 61);
        assert((43int * 61) % 69 == 1);
    } else if a == 69 && b == 31 {
        assert(inverse_mod(b, a) == 49);
        assert((31int * 49) % 69 == 1);
    } else if a == 69 && b == 89 {
        assert(inverse_mod(b, a) == 38);
        assert((89int * 38) % 69 == 1);
    } else if a == 59 && b == 69 {
        assert(inverse_mod(b, a) == 6);
        assert((69int * 6) % 59 == 1);
    } else if a == 59 && b == 17 {
        assert(inverse_mod(b, a) == 7);
        assert((17int * 7) % 59 == 1);
    } else if a == 59 && b == 13 {
        assert(inverse_mod(b, a) == 50);
        assert((13int * 50) % 59 == 1);
    } else if a == 59 && b == 77 {
        assert(inverse_mod(b, a) == 23);
        assert((77int * 23) % 59 == 1);
    } else if a == 59 && b == 41 {
        assert(inverse_mod(b, a) == 36);
        assert((41int * 36) % 59 == 1);
    } else if a == 59 && b == 95 {
        assert(inverse_mod(b, a) == 41);
        assert((95int * 41) % 59 == 1);
    } else if a == 59 && b == 53 {
        assert(inverse_mod(b, a) == 49);
        assert((53int * 49) % 59 == 1);
    } else if a == 59 && b == 43 {
        assert(inverse_mod(b, a) == 11);
        assert((43int * 11) % 59 == 1);
    } else if a == 59 && b == 31 {
        assert(inverse_mod(b, a) == 40);
        assert((31int * 40) % 59 == 1);
    } else if a == 59 && b == 89 {
        assert(inverse_mod(b, a) == 2);
        assert((89int * 2) % 59 == 1);
    } else if a == 17 && b == 69 {
        assert(inverse_mod(b, a) == 1);
        assert((69int * 1) % 17 == 1);
    } else if a == 17 && b == 59 {
        assert(inverse_mod(b, a) == 15);
        assert((59int * 15) % 17 == 1);
    } else if a == 17 && b == 13 {
        assert(inverse_mod(b, a) == 4);
        assert((13int * 4) % 17 == 1);
    } else if a == 17 && b == 77 {
        assert(inverse_mod(b, a) == 2);
        assert((77int * 2) % 17 == 1);
    } else if a == 17 && b == 41 {
        assert(inverse_mod(b, a) == 5);
        assert((41int * 5) % 17 == 1);
    } else if a == 17 && b == 95 {
        assert(inverse_mod(b, a) == 12);
        assert((95int * 12) % 17 == 1);
    } else if a == 17 && b == 53 {
        assert(inverse_mod(b, a) == 9);
        assert((53int * 9) % 17 == 1);
    } else if a == 17 && b == 43 {
        assert(inverse_mod(b, a) == 2);
        assert((43int * 2) % 17 == 1);
    } else if a == 17 && b == 31 {
        assert(inverse_mod(b, a) == 11);
        assert((31int * 11) % 17 == 1);
    } else if a == 17 && b == 89 {
        assert(inverse_mod(b, a) == 13);
        assert((89int * 13) % 17 == 1);
    } else if a == 13 && b == 69 {
        assert(inverse_mod(b, a) == 10);
        assert((69int * 10) % 13 == 1);
    } else if a == 13 && b == 59 {
        assert(inverse_mod(b, a) == 2);
        assert((59int * 2) % 13 == 1);
    } else if a == 13 && b == 17 {
        assert(inverse_mod(b, a) == 10);
        assert((17int * 10) % 13 == 1);
    } else if a == 13 && b == 77 {
        assert(inverse_mod(b, a) == 12);
        assert((77int * 12) % 13 == 1);
    } else if a == 13 && b == 41 {
        assert(inverse_mod(b, a) == 7);
        assert((41int * 7) % 13 == 1);
    } else if a == 13 && b == 95 {
        assert(inverse_mod(b, a) == 10);
        assert((95int * 10) % 13 == 1);
    } else if a == 13 && b == 53 {
        assert(inverse_mod(b, a) == 1);
        assert((53int * 1) % 13 == 1);
    } else if a == 13 && b == 43 {
        assert(inverse_mod(b, a) == 10);
        assert((43int * 10) % 13 == 1);
    } else if a == 13 && b == 31 {
        assert(inverse_mod(b, a) == 8);
        assert((31int * 8) % 13 == 1);
    } else if a == 13 && b == 89 {
        assert(inverse_mod(b, a) == 6);
        assert((89int * 6) % 13 == 1);
    } else if a == 77 && b == 69 {
        assert(inverse_mod(b, a) == 48);
        assert((69int * 48) % 77 == 1);
    } else if a == 77 && b == 59 {
        assert(inverse_mod(b, a) == 47);
        assert((59int * 47) % 77 == 1);
    } else if a == 77 && b == 17 {
        assert(inverse_mod(b, a) == 68);
        assert((17int * 68) % 77 == 1);
    } else if a == 77 && b == 13 {
        assert(inverse_mod(b, a) == 6);
        assert((13int * 6) % 77 == 1);
    } else if a == 77 && b == 41 {
        assert(inverse_mod(b, a) == 62);
        assert((41int * 62) % 77 == 1);
    } else if a == 77 && b == 95 {
        assert(inverse_mod(b, a) == 30);
        assert((95int * 30) % 77 == 1);
    } else if a == 77 && b == 53 {
        assert(inverse_mod(b, a) == 16);
        assert((53int * 16) % 77 == 1);
    } else if a == 77 && b == 43 {
        assert(inverse_mod(b, a) == 43);
        assert((43int * 43) % 77 == 1);
    } else if a == 77 && b == 31 {
        assert(inverse_mod(b, a) == 5);
        assert((31int * 5) % 77 == 1);
    } else if a == 77 && b == 89 {
        assert(inverse_mod(b, a) == 45);
        assert((89int * 45) % 77 == 1);
    } else if a == 41 && b == 69 {
        assert(inverse_mod(b, a) == 22);
        assert((69int * 22) % 41 == 1);
    } else if a == 41 && b == 59 {
        assert(inverse_mod(b, a) == 16);
        assert((59int * 16) % 41 == 1);
    } else if a == 41 && b == 17 {
        assert(inverse_mod(b, a) == 29);
        assert((17int * 29) % 41 == 1);
    } else if a == 41 && b == 13 {
        assert(inverse_mod(b, a) == 19);
        assert((13int * 19) % 41 == 1);
    } else if a == 41 && b == 77 {
        assert(inverse_mod(b, a) == 8);
        assert((77int * 8) % 41 == 1);
    } else if a == 41 && b == 95 {
        assert(inverse_mod(b, a) == 19);
        assert((95int * 19) % 41 == 1);
    } else if a == 41 && b == 53 {
        assert(inverse_mod(b, a) == 24);
        assert((53int * 24) % 41 == 1);
    } else if a == 41 && b == 43 {
        assert(inverse_mod(b, a) == 21);
        assert((43int * 21) % 41 == 1);
    } else if a == 41 && b == 31 {
        assert(inverse_mod(b, a) == 4);
        assert((31int * 4) % 41 == 1);
    } else if a == 41 && b == 89 {
        assert(inverse_mod(b, a) == 6);
        assert((89int * 6) % 41 == 1);
    } else if a == 95 && b == 69 {
        assert(inverse_mod(b, a) == 84);
        assert((69int * 84) % 95 == 1);
    } else if a == 95 && b == 59 {
        assert(inverse_mod(b, a) == 29);
        assert((59int * 29) % 95 == 1);
    } else if a == 95 && b == 17 {
        assert(inverse_mod(b, a) == 28);
        assert((17int * 28) % 95 == 1);
    } else if a == 95 && b == 13 {
        assert(inverse_mod(b, a) == 22);
        assert((13int * 22) % 95 == 1);
    } else if a == 95 && b == 77 {
        assert(inverse_mod(b, a) == 58);
        assert((77int * 58) % 95 == 1);
    } else if a == 95 && b == 41 {
        assert(inverse_mod(b, a) == 51);
        assert((41int * 51) % 95 == 1);
    } else if a == 95 && b == 53 {
        assert(inverse_mod(b, a) == 52);
        assert((53int * 52) % 95 == 1);
    } else if a == 95 && b == 43 {
        assert(inverse_mod(b, a) == 42);
        assert((43int * 42) % 95 == 1);
    } else if a == 95 && b == 31 {
        assert(inverse_mod(b, a) == 46);
        assert((31int * 46) % 95 == 1);
    } else if a == 95 && b == 89 {
        assert(inverse_mod(b, a) == 79);
        assert((89int * 79) % 95 == 1);
    } else if a == 53 && b == 69 {
        assert(inverse_mod(b, a) == 10);
        assert((69int * 10) % 53 == 1);
    } else if a == 53 && b == 59 {
        assert(inverse_mod(b, a) == 9);
        assert((59int * 9) % 53 == 1);
    } else if a == 53 && b == 17 {
        assert(inverse_mod(b, a) == 25);
        assert((17int * 25) % 53 == 1);
    } else if a == 53 && b == 13 {
        assert(inverse_mod(b, a) == 49);
        assert((13int * 49) % 53 == 1);
    } else if a == 53 && b == 77 {
        assert(inverse_mod(b, a) == 42);
        assert((77int * 42) % 53 == 1);
    } else if a == 53 && b == 41 {
        assert(inverse_mod(b, a) == 22);
        assert((41int * 22) % 53 == 1);
    } else if a == 53 && b == 95 {
        assert(inverse_mod(b, a) == 24);
        assert((95int * 24) % 53 == 1);
    } else if a == 53 && b == 43 {
        assert(inverse_mod(b, a) == 37);
        assert((43int * 37) % 53 == 1);
    } else if a == 53 && b == 31 {
        assert(inverse_mod(b, a) == 12);
        assert((31int * 12) % 53 == 1);
    } else if a == 53 && b == 89 {
        assert(inverse_mod(b, a) == 28);
        assert((89int * 28) % 53 == 1);
    } else if a == 43 && b == 69 {
        assert(inverse_mod(b, a) == 5);
        assert((69int * 5) % 43 == 1);
    } else if a == 43 && b == 59 {
        assert(inverse_mod(b, a) == 35);
        assert((59int * 35) % 43 == 1);
    } else if a == 43 && b == 17 {
        assert(inverse_mod(b, a) == 38);
        assert((17int * 38) % 43 == 1);
    } else if a == 43 && b == 13 {
        assert(inverse_mod(b, a) == 10);
        assert((13int * 10) % 43 == 1);
    } else if a == 43 && b == 77 {
        assert(inverse_mod(b, a) == 19);
        assert((77int * 19) % 43 == 1);
    } else if a == 43 && b == 41 {
        assert(inverse_mod(b, a) == 21);
        assert((41int * 21) % 43 == 1);
    } else if a == 43 && b == 95 {
        assert(inverse_mod(b, a) == 24);
        assert((95int * 24) % 43 == 1);
    } else if a == 43 && b == 53 {
        assert(inverse_mod(b, a) == 13);
        assert((53int * 13) % 43 == 1);
    } else if a == 43 && b == 31 {
        assert(inverse_mod(b, a) == 25);
        assert((31int * 25) % 43 == 1);
    } else if a == 43 && b == 89 {
        assert(inverse_mod(b, a) == 29);
        assert((89int * 29) % 43 == 1);
    } else if a == 31 && b == 69 {
        assert(inverse_mod(b, a) == 9);
        assert((69int * 9) % 31 == 1);
    } else if a == 31 && b == 59 {
        assert(inverse_mod(b, a) == 10);
        assert((59int * 10) % 31 == 1);
    } else if a == 31 && b == 17 {
        assert(inverse_mod(b, a) == 11);
        assert((17int * 11) % 31 == 1);
    } else if a == 31 && b == 13 {
        assert(inverse_mod(b, a) == 12);
        assert((13int * 12) % 31 == 1);
    } else if a == 31 && b == 77 {
        assert(inverse_mod(b, a) == 29);
        assert((77int * 29) % 31 == 1);
    } else if a == 31 && b == 41 {
        assert(inverse_mod(b, a) == 28);
        assert((41int * 28) % 31 == 1);
    } else if a == 31 && b == 95 {
        assert(inverse_mod(b, a) == 16);
        assert((95int * 16) % 31 == 1);
    } else if a == 31 && b == 53 {
        assert(inverse_mod(b, a) == 24);
        assert((53int * 24) % 31 == 1);
    } else if a == 31 && b == 43 {
        assert(inverse_mod(b, a) == 13);
        assert((43int * 13) % 31 == 1);
    } else if a == 31 && b == 89 {
        assert(inverse_mod(b, a) == 23);
        assert((89int * 23) % 31 == 1);
    } else if a == 89 && b == 69 {
        assert(inverse_mod(b, a) == 40);
        assert((69int * 40) % 89 == 1);
    } else if a == 89 && b == 59 {
        assert(inverse_mod(b, a) == 86);
        assert((59int * 86) % 89 == 1);
    } else if a == 89 && b == 17 {
        assert(inverse_mod(b, a) == 21);
        assert((17int * 21) % 89 == 1);
    } else if a == 89 && b == 13 {
        assert(inverse_mod(b, a) == 48);
        assert((13int * 48) % 89 == 1);
    } else if a == 89 && b == 77 {
        assert(inverse_mod(b, a) == 37);
        assert((77int * 37) % 89 == 1);
    } else if a == 89 && b == 41 {
        assert(inverse_mod(b, a) == 76);
        assert((41int * 76) % 89 == 1);
    } else if a == 89 && b == 95 {
        assert(inverse_mod(b, a) == 15);
        assert((95int * 15) % 89 == 1);
    } else if a == 89 && b == 53 {
        assert(inverse_mod(b, a) == 42);
        assert((53int * 42) % 89 == 1);
    } else if a == 89 && b == 43 {
        assert(inverse_mod(b, a) == 29);
        assert((43int * 29) % 89 == 1);
    } else if a == 89 && b == 31 {
        assert(inverse_mod(b, a) == 23);
        assert((31int * 23) % 89 == 1);
    }
}

/// If `b` has an inverse modulo `a`, then `a` divides `b * q` only when it divides `q`.
proof fn lemma_cancel(a: int, b: int, x: int, q: int)
    requires
        a > 1,
        (b * x) % a == 1,
    ensures
        ((b * q) % a == 0) <==> (q % a == 0),
{
    if q % a == 0 {
        lemma_mul_keeps_multiple(q, b, a);
        assert(q * b == b * q) by (nonlinear_arith);
    }
    if (b * q) % a == 0 {
        lemma_mul_mod_noop(q, b * x, a);
        assert(q * (b * x) == (b * q) * x) by (nonlinear_arith);
        lemma_mul_mod_noop_left(b * q, x, a);
        assert(((b * q) % a) * x == 0) by (nonlinear_arith)
            requires
                (b * q) % a == 0,
        ;
        assert((q % a) * 1 == q % a);
        assert((q % a) % a == q % a) by {
            vstd::arithmetic::div_mod::lemma_mod_twice(q, a);
        }
    }
}

/// A multiple of `x` times anything is still a multiple.
proof fn lemma_mul_keeps_multiple(x: int, m: int, a: int)
    requires
        a > 0,
        x % a == 0,
    ensures
        (x * m) % a == 0,
{
    lemma_mul_mod_noop_left(x, m, a);
    assert((x % a) * m == 0);
}

proof fn lemma_odd_times_odd(x: int, c: int)
    requires
        x % 2 == 1,
        c % 2 == 1,
    ensures
        (x * c) % 2 == 1,
{
    let s = x / 2;
    let t = c / 2;
    assert(x * c == 2 * (2 * s * t + s + t) + 1) by (nonlinear_arith)
        requires
            x == 2 * s + 1,
            c == 2 * t + 1,
    ;
}

proof fn lemma_odd_part_facts(x: nat)
    requires
        x > 0,
    ensures
        odd_part(x) % 2 == 1,
        odd_part(x) <= x,
        odd_part(x) > 0,
    decreases x,
{
    if x % 2 == 0 {
        lemma_odd_part_facts(x / 2);
    }
}

/// Removing the factors two of `x * c` for odd `x` leaves `x * odd_part(c)`.
proof fn lemma_odd_part_times_odd(x: nat, c: nat)
    requires
        x % 2 == 1,
        c > 0,
    ensures
        odd_part(x * c) == x * odd_part(c),
    decreases c,
{
    if c % 2 == 0 {
        let h = c / 2;
        assert(x * c == 2 * (x * h)) by (nonlinear_arith)
            requires
                c == 2 * h,
        ;
        assert(x * h > 0) by (nonlinear_arith)
            requires
                x > 0,
                h > 0,
        ;
        lemma_odd_part_times_odd(x, h);
        assert((x * c) % 2 == 0);
        assert((x * c) / 2 == x * h);
    } else {
        lemma_odd_times_odd(x as int, c as int);
        assert(x * c > 0) by (nonlinear_arith)
            requires
                x > 0,
                c > 0,
        ;
    }
}

proof fn lemma_encode_prefix_odd(arr: Seq<bool>, n: nat)
    requires
        n <= 15,
    ensures
        encode_prefix(arr, n) % 2 == 1,
        encode_prefix(arr, n) > 0,
    decreases n,
{
    if n > 0 {
        lemma_encode_prefix_odd(arr, (n - 1) as nat);
        lemma_tables();
        let e = encode_prefix(arr, (n - 1) as nat);
        let f: nat = if arr[n - 1] {
            flag_factor(n - 1)
        } else {
            1
        };
        lemma_divisor_facts(plain_to_cypher(n - 1));
        lemma_odd_times_odd(e as int, f as int);
        assert(e * f > 0) by (nonlinear_arith)
            requires
                e > 0,
                f > 0,
        ;
    }
}

/// The packed value of all fifteen flags set.
pub open spec fn all_set() -> Seq<bool> {
    Seq::new(15, |i: int| true)
}

proof fn lemma_encode_prefix_bounded(arr: Seq<bool>, n: nat)
    requires
        n <= 15,
    ensures
        encode_prefix(arr, n) <= encode_prefix(all_set(), n),
    decreases n,
{
    if n > 0 {
        lemma_encode_prefix_bounded(arr, (n - 1) as nat);
        lemma_tables();
        lemma_divisor_facts(plain_to_cypher(n - 1));
        let e = encode_prefix(arr, (n - 1) as nat);
        let b = encode_prefix(all_set(), (n - 1) as nat);
        let f: nat = if arr[n - 1] {
            flag_factor(n - 1)
        } else {
            1
        };
        let g = flag_factor(n - 1);
        assert(e * f <= b * g) by (nonlinear_arith)
            requires
                e <= b,
                f <= g,
                1 <= f,
        ;
    }
}

proof fn lemma_flag_factors()
    ensures
        flag_factor(0) == 77,
        flag_factor(1) == 59,
        flag_factor(2) == 43,
        flag_factor(3) == 1,
        flag_factor(4) == 31,
        flag_factor(5) == 53,
        flag_factor(6) == 69,
        flag_factor(7) == 1,
        flag_factor(8) == 41,
        flag_factor(9) == 89,
        flag_factor(10) == 1,
        flag_factor(11) == 1,
        flag_factor(12) == 13,
        flag_factor(13) == 95,
        flag_factor(14) == 17,
{
    lemma_divisors();
}

proof fn lemma_all_set_step(n: nat)
    requires
        n < 15,
    ensures
        encode_prefix(all_set(), n + 1) == encode_prefix(all_set(), n) * flag_factor(n as int),
{
    assert(all_set()[n as int]);
}

proof fn lemma_all_set_prefixes()
    ensures
        encode_prefix(all_set(), 0) == 1,
        encode_prefix(all_set(), 1) == 77,
        encode_prefix(all_set(), 2) == 4543,
        encode_prefix(all_set(), 3) == 195349,
        encode_prefix(all_set(), 4) == 195349,
        encode_prefix(all_set(), 5) == 6055819,
        encode_prefix(all_set(), 6) == 320958407,
        encode_prefix(all_set(), 7) == 22146130083,
        encode_prefix(all_set(), 8) == 22146130083,
        encode_prefix(all_set(), 9) == 907991333403,
        encode_prefix(all_set(), 10) == 80811228672867,
        encode_prefix(all_set(), 11) == 80811228672867,
        encode_prefix(all_set(), 12) == 80811228672867,
        encode_prefix(all_set(), 13) == 1050545972747271,
        encode_prefix(all_set(), 14) == 99801867410990745,
        encode_prefix(all_set(), 15) == 0x178BA59576325029,
{
    lemma_flag_factors();
    assert(encode_prefix(all_set(), 0) == 1);
    lemma_all_set_step(0);
    lemma_all_set_step(1);
    lemma_all_set_step(2);
    lemma_all_set_step(3);
    lemma_all_set_step(4);
    lemma_all_set_step(5);
    lemma_all_set_step(6);
    lemma_all_set_step(7);
    lemma_all_set_step(8);
    lemma_all_set_step(9);
    lemma_all_set_step(10);
    lemma_all_set_step(11);
    lemma_all_set_step(12);
    lemma_all_set_step(13);
    lemma_all_set_step(14);
}

proof fn lemma_bound_step(i: int)
    requires
        0 <= i < 15,
    ensures
        encode_prefix(all_set(), i as nat) * coef(plain_to_cypher(i)) <= u64::MAX,
        coef(plain_to_cypher(i)) >= 1,
{
    lemma_all_set_prefixes();
    if i == 0 {
        assert(plain_to_cypher(0) == 5);
        assert(coef(5) == 77);
        assert(encode_prefix(all_set(), 0 as nat) * 77 <= u64::MAX);
    } else if i == 1 {
        assert(plain_to_cypher(1) == 1);
        assert(coef(1) == 59);
        assert(encode_prefix(all_set(), 1 as nat) * 59 <= u64::MAX);
    } else if i == 2 {
        assert(plain_to_cypher(2) == 12);
        assert(coef(12) == 86);
        assert(encode_prefix(all_set(), 2 as nat) * 86 <= u64::MAX);
    } else if i == 3 {
        assert(plain_to_cypher(3) == 3);
        assert(coef(3) == 1);
        assert(encode_prefix(all_set(), 3 as nat) * 1 <= u64::MAX);
    } else if i == 4 {
        assert(plain_to_cypher(4) == 13);
        assert(coef(13) == 62);
        assert(encode_prefix(all_set(), 4 as nat) * 62 <= u64::MAX);
    } else if i == 5 {
        assert(plain_to_cypher(5) == 9);
        assert(coef(9) == 53);
        assert(encode_prefix(all_set(), 5 as nat) * 53 <= u64::MAX);
    } else if i == 6 {
        assert(plain_to_cypher(6) == 0);
        assert(coef(0) == 69);
        assert(encode_prefix(all_set(), 6 as nat) * 69 <= u64::MAX);
    } else if i == 7 {
        assert(plain_to_cypher(7) == 7);
        assert(coef(7) == 1);
        assert(encode_prefix(all_set(), 7 as nat) * 1 <= u64::MAX);
    } else if i == 8 {
        assert(plain_to_cypher(8) == 6);
        assert(coef(6) == 41);
        assert(encode_prefix(all_set(), 8 as nat) * 41 <= u64::MAX);
    } else if i == 9 {
        assert(plain_to_cypher(9) == 14);
        assert(coef(14) == 89);
        assert(encode_prefix(all_set(), 9 as nat) * 89 <= u64::MAX);
    } else if i == 10 {
        assert(plain_to_cypher(10) == 10);
        assert(coef(10) == 1);
        assert(encode_prefix(all_set(), 10 as nat) * 1 <= u64::MAX);
    } else if i == 11 {
        assert(plain_to_cypher(11) == 11);
        assert(coef(11) == 1);
        assert(encode_prefix(all_set(), 11 as nat) * 1 <= u64::MAX);
    } else if i == 12 {
        assert(plain_to_cypher(12) == 4);
        assert(coef(4) == 26);
        assert(encode_prefix(all_set(), 12 as nat) * 26 <= u64::MAX);
    } else if i == 13 {
        assert(plain_to_cypher(13) == 8);
        assert(coef(8) == 95);
        assert(encode_prefix(all_set(), 13 as nat) * 95 <= u64::MAX);
    } else if i == 14 {
        assert(plain_to_cypher(14) == 2);
        assert(coef(2) == 136);
        assert(encode_prefix(all_set(), 14 as nat) * 136 <= u64::MAX);
    }
}

/// Which carrying shuffled positions divide the packed value of the first `n` flags.
proof fn lemma_encode_prefix_divisibility(arr: Seq<bool>, n: nat, k: int)
    requires
        n <= 15,
        arr.len() == 15,
        is_carrying(k),
    ensures
        ((encode_prefix(arr, n) as int) % (divisor(k) as int) == 0) <==> (cypher_to_plain(k) < n
            && arr[cypher_to_plain(k)]),
    decreases n,
{
    lemma_tables();
    lemma_divisor_facts(k);
    let a = divisor(k) as int;
    if n == 0 {
        vstd::arithmetic::div_mod::lemma_small_mod(1, a as nat);
    } else {
        lemma_encode_prefix_divisibility(arr, (n - 1) as nat, k);
        let e = encode_prefix(arr, (n - 1) as nat) as int;
        let p = n - 1;
        let j = plain_to_cypher(p);
        lemma_divisor_facts(j);
        if arr[p] {
            let f = divisor(j) as int;
            assert(encode_prefix(arr, n) == e * f);
            if j == k {
                assert(cypher_to_plain(k) == p);
                lemma_mod_multiples_basic(e, a);
                assert(e * f == f * e) by (nonlinear_arith);
            } else {
                assert(cypher_to_plain(k) != p);
                if is_carrying(j) {
                    lemma_divisors_coprime(k, j);
                    lemma_cancel(a, f, inverse_mod(f, a), e);
                    assert(e * f == f * e) by (nonlinear_arith);
                } else {
                    assert(f == 1);
                }
            }
        } else {
            assert(encode_prefix(arr, n) == e);
            if cypher_to_plain(k) == p {
            }
        }
    }
}

/// The scene flags are sent shuffled: maps a shuffled position to its plain position.
/// Positions without a partner map to themselves.
pub fn context_map_cypher_to_plain(cypher: i32) -> (r: i32)
    requires
        0 <= cypher < 15,
    ensures
        r == cypher_to_plain(cypher as int),
{
    let ret = CONTEXT_MAP_CYPHER_TO_PLAIN[cypher as usize];
    if ret == -1 {
        return cypher;
    }
    ret
}

/// Maps a plain position to its shuffled position.
/// Positions without a partner map to themselves.
pub fn context_map_plain_to_cypher(plain: i32) -> (r: i32)
    requires
        0 <= plain < 15,
    ensures
        r == plain_to_cypher(plain as int),
{
    let ret = CONTEXT_MAP_PLAIN_TO_CYPHER[plain as usize];
    if ret == -1 {
        return plain;
    }
    ret
}

/// Returns true if the packed scene flags `sf` say the player is not in an
/// editor but in a playground, solo or server context.
pub fn check_flags_sf_mi(sf: u64, mi: u64) -> (r: bool)
    ensures
        r == flags_not_in_editor(decode_spec(sf as nat)),
{
    let sfs = decode_context_flags(sf);
    if sfs[5] || sfs[7] || sfs[9] || sfs[11] {
        return false;
    }
    sfs[2] || sfs[3] || sfs[4]
}

/// Packs fifteen flags into one integer.
pub fn encode_context_flags(arr: &[bool; 15]) -> (r: u64)
    ensures
        r == encode_spec(arr@),
{
    let mut ret: u64 = 1;
    let mut i: usize = 0;
    proof {
        lemma_tables();
        lemma_all_set_prefixes();
    }
    while i < 15
        invariant
            i <= 15,
            ret as nat == encode_prefix(arr@, i as nat),
            arr@.len() == 15,
            forall|p: int| 0 <= p < 15 ==> 0 <= #[trigger] plain_to_cypher(p) < 15,
        decreases 15 - i,
    {
        proof {
            lemma_encode_prefix_odd(arr@, i as nat);
            lemma_encode_prefix_bounded(arr@, i as nat);
            lemma_all_set_prefixes();
            lemma_divisors();
        }
        let ghost target = encode_prefix(arr@, (i + 1) as nat);
        let k = context_map_plain_to_cypher(i as i32);
        if arr[i] {
            let c = CONTEXT_COEFFICIENTS[k as usize] as u64;
            proof {
                lemma_bound_step(i as int);
                let b = encode_prefix(all_set(), i as nat);
                assert((ret as int) * (c as int) <= b * (c as int)) by (nonlinear_arith)
                    requires
                        ret <= b,
                        c >= 0,
                ;
                lemma_odd_part_times_odd(ret as nat, c as nat);
            }
            let ghost before = ret;
            ret = ret * c;
            proof {
                assert(ret > 0) by (nonlinear_arith)
                    requires
                        before > 0,
                        c >= 1,
                        ret == before * c,
                ;
            }
        } else {
            proof {
                lemma_odd_part_facts(ret as nat);
                if ret % 2 == 1 {
                }
            }
        }
        proof {
            lemma_odd_part_facts(ret as nat);
        }
        while ret & 1 == 0
            invariant
                ret > 0,
                odd_part(ret as nat) == target,
            decreases ret,
        {
            assert(ret & 1 == 0 ==> ret % 2 == 0) by (bit_vector);
            assert(ret >> 1 == ret / 2) by (bit_vector);
            ret = ret >> 1;
        }
        proof {
            assert(ret & 1 != 0 ==> ret % 2 == 1) by (bit_vector);
        }
        i = i + 1;
    }
    ret
}

/// Unpacks a packed value into fifteen flags (see `decode_spec`).
pub fn decode_context_flags(flags: u64) -> (plain: [bool; 15])
    ensures
        plain@ == decode_spec(flags as nat),
{
    let mut plain = [false;15];
    if flags == 0 {
        assert(plain@ =~= decode_spec(flags as nat));
        return plain;
    }
    let mut cur = flags;
    let mut i: usize = 0;
    proof {
        lemma_tables();
    }
    while i < 15
        invariant
            i <= 15,
            cur > 0,
            flags > 0,
            plain@.len() == 15,
            forall|p: int|
                0 <= p < 15 ==> #[trigger] plain@[p] == (is_carrying(p) && plain_to_cypher(p) < i
                    && (flags as int) % (divisor(plain_to_cypher(p)) as int) == 0),
            forall|j: int|
                is_carrying(j) && i <= j ==> (((cur as int) % (divisor(j) as int) == 0) <==> ((
                flags as int) % (divisor(j) as int) == 0)),
            forall|p: int| 0 <= p < 15 ==> 0 <= #[trigger] plain_to_cypher(p) < 15,
            forall|k: int| 0 <= k < 15 ==> 0 <= #[trigger] cypher_to_plain(k) < 15,
            forall|p: int| 0 <= p < 15 ==> #[trigger] cypher_to_plain(plain_to_cypher(p)) == p,
            forall|k: int| 0 <= k < 15 ==> #[trigger] plain_to_cypher(cypher_to_plain(k)) == k,
            forall|p: int| 0 <= p < 15 ==> (#[trigger] is_carrying(plain_to_cypher(p)) <==> is_carrying(p)),
            forall|k: int| 0 <= k < 15 ==> (#[trigger] coef(k) >= 2 <==> is_carrying(k)),
        decreases 15 - i,
    {
        if CONTEXT_COEFFICIENTS[i] < 2 {
            proof {
                assert(!is_carrying(i as int));
                assert forall|p: int| 0 <= p < 15 implies #[trigger] plain@[p] == (is_carrying(p)
                    && plain_to_cypher(p) < i + 1 && (flags as int) % (divisor(plain_to_cypher(p)) as int)
                    == 0) by {
                    if plain_to_cypher(p) == i {
                        assert(cypher_to_plain(i as int) == p);
                    }
                }
            }
            i = i + 1;
            continue;
        }
        let mut c = CONTEXT_COEFFICIENTS[i] as u64;
        proof {
            lemma_divisor_facts(i as int);
            assert(c as nat == coef(i as int));
        }
        let ghost d = divisor(i as int);
        while c & 1 == 0 && c > 0
            invariant
                c > 0,
                odd_part(c as nat) == d,
            decreases c,
        {
            assert(c & 1 == 0 ==> c % 2 == 0) by (bit_vector);
            assert(c >> 1 == c / 2) by (bit_vector);
            c = c >> 1;
        }
        proof {
            assert(c & 1 != 0 ==> c % 2 == 1) by (bit_vector);
            assert(c == d);
        }
        let ghost old_cur = cur;
        let ghost old_plain = plain@;
        if cur % c == 0 {
            let p = context_map_cypher_to_plain(i as i32);
            plain[p as usize] = true;
            proof {
                assert(c > 1);
            }
            cur = cur / c;
            proof {
                let q = cur as int;
                vstd::arithmetic::div_mod::lemma_fundamental_div_mod(old_cur as int, c as int);
                assert(q > 0) by (nonlinear_arith)
                    requires
                        old_cur as int == (c as int) * q,
                        old_cur > 0,
                        q >= 0,
                ;
                assert(old_cur as int == (c as int) * q);
                assert(q > 0);
                assert forall|j: int| is_carrying(j) && i + 1 <= j implies (((cur as int) % (divisor(
                    j) as int) == 0) <==> ((flags as int) % (divisor(j) as int) == 0)) by {
                    lemma_divisor_facts(j);
                    lemma_divisors_coprime(j, i as int);
                    lemma_cancel(divisor(j) as int, c as int, inverse_mod(c as int, divisor(j) as int), q);
                }
            }
        }
        proof {
            assert forall|p: int| 0 <= p < 15 implies #[trigger] plain@[p] == (is_carrying(p)
                && plain_to_cypher(p) < i + 1 && (flags as int) % (divisor(plain_to_cypher(p)) as int)
                == 0) by {
                if plain_to_cypher(p) == i {
                    assert(cypher_to_plain(i as int) == p);
                } else {
                    assert(cypher_to_plain(i as int) != p);
                }
            }
        }
        i = i + 1;
    }
    assert(plain@ =~= decode_spec(flags as nat));
    plain
}

/// The hexadecimal digits that `parse_u64_str` reads: `s` without a leading `0x`.
pub open spec fn hex_body(s: Seq<char>) -> Seq<char> {
    if s.len() >= 2 && s[0] == '0' && s[1] == 'x' {
        s.skip(2)
    } else {
        s
    }
}

/// Parses a packed flag value sent as hexadecimal text, with or without a
/// leading `0x`. The first two bytes are looked at, so byte 2 must be a
/// character boundary.
pub fn parse_u64_str(s: &str) -> (r: Result<u64, ParseIntError>)
    requires
        is_char_boundary(s.spec_bytes(), 2),
    ensures
        r is Ok <==> parses_unsigned(hex_body(s@), 16, u64::MAX as int),
        r matches Ok(v) ==> v as int == unsigned_value(hex_body(s@), 16),
{
    let v = chars_of(s);
    let n = v.len();
    if n >= 2 && v[0] == '0' && v[1] == 'x' {
        let rest = string_of(sub_chars(v.as_slice(), 2, n).as_slice());
        assert(rest@ =~= hex_body(s@));
        return parse_u64_hex(rest.as_str());
    }
    parse_u64_hex(s)
}

/// The lower-case hexadecimal digit of `d` (below 16).
pub open spec fn hex_digit_char(d: nat) -> char {
    if d < 10 {
        (d + 48) as char
    } else {
        (d + 87) as char
    }
}

/// The lower-case hexadecimal text of `n` without leading zeros, as
/// `format!("{:x}", n)` writes it.
pub open spec fn hex_text(n: nat) -> Seq<char>
    decreases n,
{
    if n < 16 {
        seq![hex_digit_char(n)]
    } else {
        hex_text(n / 16).push(hex_digit_char(n % 16))
    }
}

proof fn lemma_hex_digits(n: nat)
    ensures
        hex_text(n).len() > 0,
        all_digits(hex_text(n), 16),
        digits_value(hex_text(n), 16) == n,
        unsigned_digits(hex_text(n)) == hex_text(n),
        forall|i: int| 0 <= i < hex_text(n).len() ==> #[trigger] hex_text(n)[i] != 'x',
        n >= 16 ==> hex_text(n).len() >= 2,
    decreases n,
{
    let d = hex_text(n);
    if n < 16 {
        assert(digits_value(d.drop_last(), 16) == 0);
    } else {
        lemma_hex_digits(n / 16);
        let p = hex_text(n / 16);
        assert(d.drop_last() =~= p);
        assert(d.last() == hex_digit_char(n % 16));
        assert forall|i: int| 0 <= i < d.len() implies 0 <= #[trigger] digit_value(d[i]) < 16 by {
            if i < p.len() {
                assert(d[i] == p[i]);
            }
        }
        assert forall|i: int| 0 <= i < d.len() implies #[trigger] d[i] != 'x' by {
            if i < p.len() {
                assert(d[i] == p[i]);
            }
        }
        assert(d[0] == p[0]);
        assert(0 <= digit_value(p[0]) < 16);
    }
    assert(0 <= digit_value(d[0]) < 16);
}

/// Writing a value in hexadecimal and reading it back with `parse_u64_str`
/// gives the value: with a `0x` prefix always, and without one when the
/// text has at least two digits (a one-digit text is too short to read).
pub proof fn lemma_hex_text_round_trip(v: u64)
    ensures
        hex_body(seq!['0', 'x'] + hex_text(v as nat)) == hex_text(v as nat),
        parses_unsigned(hex_text(v as nat), 16, u64::MAX as int),
        unsigned_value(hex_text(v as nat), 16) == v,
        v >= 16 ==> hex_body(hex_text(v as nat)) == hex_text(v as nat),
{
    lemma_hex_digits(v as nat);
    let t = hex_text(v as nat);
    assert((seq!['0', 'x'] + t).skip(2) =~= t);
    if v >= 16 {
        assert(t[1] != 'x');
    }
}

/// Unpacking a packed value gives back every carrying flag, and leaves the
/// four positions without a coefficient unset.
pub proof fn lemma_decode_encode(arr: Seq<bool>)
    requires
        arr.len() == 15,
    ensures
        forall|p: int|
            0 <= p < 15 ==> #[trigger] decode_spec(encode_spec(arr))[p] == (is_carrying(p) && arr[p]),
{
    lemma_tables();
    lemma_encode_prefix_odd(arr, 15);
    assert forall|p: int| 0 <= p < 15 implies #[trigger] decode_spec(encode_spec(arr))[p] == (
    is_carrying(p) && arr[p]) by {
        if is_carrying(p) {
            lemma_encode_prefix_divisibility(arr, 15, plain_to_cypher(p));
        }
    }
}

/// The editor check on a packed context sees only flags 2, 4, 5 and 9:
/// flags 3, 7 and 11 have no coefficient and never come back unpacked.
pub proof fn lemma_check_of_packed(arr: Seq<bool>)
    requires
        arr.len() == 15,
    ensures
        flags_not_in_editor(decode_spec(encode_spec(arr))) == (!(arr[5] || arr[9]) && (arr[2] || arr[4])),
{
    lemma_decode_encode(arr);
    let d = decode_spec(encode_spec(arr));
    assert(d[2] == arr[2] && d[3] == false && d[4] == arr[4]);
    assert(d[5] == arr[5] && d[7] == false && d[9] == arr[9] && d[11] == false);
}

/// Shuffling a plain position and unshuffling it gives the position back.
pub proof fn lemma_context_map_round_trip(p: int)
    requires
        0 <= p < 15,
    ensures
        cypher_to_plain(plain_to_cypher(p)) == p,
        plain_to_cypher(cypher_to_plain(p)) == p,
{
    lemma_tables();
}

/// Packing always gives an odd, non-zero value no larger than the value of all flags set.
pub proof fn lemma_encode_range(arr: Seq<bool>)
    ensures
        encode_spec(arr) % 2 == 1,
        0 < encode_spec(arr) <= 0x178BA59576325029,
{
    lemma_encode_prefix_odd(arr, 15);
    lemma_encode_prefix_bounded(arr, 15);
    lemma_all_set_prefixes();
}

} // verus!
