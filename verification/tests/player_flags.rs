use dipspp::context_flags::{
    context_map_cypher_to_plain, context_map_plain_to_cypher, decode_context_flags, encode_context_flags,
    CONTEXT_COEFFICIENTS, CONTEXT_MAP_CYPHER_TO_PLAIN, CONTEXT_MAP_PLAIN_TO_CYPHER, check_flags_sf_mi, parse_u64_str,
};

#[test]
fn test_encode_decode() {
    let all_true: [bool; 15] = [true; 15];
    let enc = encode_context_flags(&all_true);
    let plain = decode_context_flags(enc);
    for i in 0..15 {
        if CONTEXT_MAP_CYPHER_TO_PLAIN[i] < 0 {
            continue;
        }
        assert_eq!(plain[i], true);
    }

    let all_false: [bool; 15] = [false; 15];
    let enc = encode_context_flags(&all_false);
    let plain = decode_context_flags(enc);
    for i in 0..15 {
        if CONTEXT_MAP_CYPHER_TO_PLAIN[i] < 0 {
            continue;
        }
        assert_eq!(plain[i], false);
    }

    let alternating: [bool; 15] = [
        true, false, true, false, true, false, true, false, true, false, true, false, true, false, true,
    ];
    let enc = encode_context_flags(&alternating);
    let plain = decode_context_flags(enc);
    for i in 0..15 {
        if CONTEXT_MAP_CYPHER_TO_PLAIN[i] < 0 {
            continue;
        }
        assert_eq!(plain[i], i % 2 == 0);
    }

    let mod3: [bool; 15] = [
        true, false, false, true, false, false, true, false, false, true, false, false, true, false, false,
    ];
    let enc = encode_context_flags(&mod3);
    let plain = decode_context_flags(enc);
    for i in 0..15 {
        if CONTEXT_MAP_CYPHER_TO_PLAIN[i] < 0 {
            continue;
        }
        assert_eq!(plain[i], i % 3 == 0);
    }

    let mod5: [bool; 15] = [
        true, false, false, false, false, true, false, false, false, false, true, false, false, false, false,
    ];
    let enc = encode_context_flags(&mod5);
    let plain = decode_context_flags(enc);
    for i in 0..15 {
        if CONTEXT_MAP_CYPHER_TO_PLAIN[i] < 0 {
            continue;
        }
        assert_eq!(plain[i], i % 5 == 0);
    }
}

#[test]
fn test_decode() {
    let all_true: u64 = 0x178BA59576325029;
    let plain = decode_context_flags(all_true);
    for i in 0..15 {
        if CONTEXT_COEFFICIENTS[i] < 2 {
            assert_eq!(plain[i], false);
        } else {
            assert_eq!(plain[i], true);
        }
    }

    let alternating: u64 = 0x0000000EF0F42FA9;
    let plain = decode_context_flags(alternating);
    for i in 0..15 {
        if CONTEXT_COEFFICIENTS[i] < 2 {
            assert_eq!(plain[i], false);
        } else {
            assert_eq!(plain[i], i % 2 == 0);
        }
    }

    let mod3: u64 = 0x00000000005DCC45;
    let plain = decode_context_flags(mod3);
    for i in 0..15 {
        if CONTEXT_COEFFICIENTS[i] < 2 {
            assert_eq!(plain[i], false);
        } else {
            assert_eq!(plain[i], i % 3 == 0);
        }
    }

    let mod5: u64 = 0x0000000000000FF1;
    let plain = decode_context_flags(mod5);
    for i in 0..15 {
        if CONTEXT_COEFFICIENTS[i] < 2 {
            assert_eq!(plain[i], false);
        } else {
            assert_eq!(plain[i], i % 5 == 0);
        }
    }
}

#[test]
fn test_context_map() {
    for i in 0..15 {
        let p2c = CONTEXT_MAP_PLAIN_TO_CYPHER[i];
        if (p2c) == -1 {
            continue;
        }
        let c2p = CONTEXT_MAP_CYPHER_TO_PLAIN[p2c as usize];
        assert_eq!(c2p, i as i32);
    }
}

#[test]
fn test_context_map2() {
    for i in 0..15 {
        if i == 3 || i == 7 || i == 10 || i == 11 {
            continue;
        }
        assert_eq!(i, context_map_cypher_to_plain(context_map_plain_to_cypher(i)));
    }
}

#[test]
fn single_flag_encodings_are_odd_parts_of_coefficients() {
    let expected: [u64; 15] = [77, 59, 43, 1, 31, 53, 69, 1, 41, 89, 1, 1, 13, 95, 17];
    for i in 0..15 {
        let mut arr = [false; 15];
        arr[i] = true;
        assert_eq!(encode_context_flags(&arr), expected[i]);
    }
}

#[test]
fn encode_then_decode_keeps_carrying_flags() {
    let patterns: [[bool; 15]; 3] = [
        [true, true, true, false, false, true, false, true, false, true, true, false, true, true, false],
        [false, true, false, true, true, false, true, false, true, false, false, true, false, false, true],
        [true, false, false, false, true, false, false, false, true, false, false, false, true, false, false],
    ];
    for arr in patterns.iter() {
        let plain = decode_context_flags(encode_context_flags(arr));
        for p in 0..15 {
            let carrying = !(p == 3 || p == 7 || p == 10 || p == 11);
            assert_eq!(plain[p], carrying && arr[p]);
        }
    }
}

#[test]
fn decode_zero_and_one_give_no_flags() {
    assert_eq!(decode_context_flags(0), [false; 15]);
    assert_eq!(decode_context_flags(1), [false; 15]);
}

#[test]
fn flags_checks_editor_and_playing() {
    // playing (flag 2) with flag 0: not in an editor
    assert_eq!(encode_context_flags(&{
        let mut a = [false; 15];
        a[0] = true;
        a[2] = true;
        a
    }), 3311);
    assert!(check_flags_sf_mi(3311, 0));
    // playing but flag 5 (an editor) set
    assert!(!check_flags_sf_mi(2279, 0));
    // nothing set: not playing
    assert!(!check_flags_sf_mi(1, 0));
    assert!(!check_flags_sf_mi(0, 0));
}

#[test]
fn context_map_leaves_unmapped_positions() {
    for i in [3, 7, 10, 11] {
        assert_eq!(context_map_plain_to_cypher(i), i);
        assert_eq!(context_map_cypher_to_plain(i), i);
    }
    assert_eq!(context_map_plain_to_cypher(0), 5);
    assert_eq!(context_map_cypher_to_plain(5), 0);
    assert_eq!(CONTEXT_COEFFICIENTS[0], 69);
    assert_eq!(CONTEXT_MAP_PLAIN_TO_CYPHER[14], 2);
}

#[test]
fn parse_u64_str_reads_hex_with_or_without_prefix() {
    assert_eq!(parse_u64_str("0x10"), Ok(16));
    assert_eq!(parse_u64_str("10"), Ok(16));
    assert_eq!(parse_u64_str("ff"), Ok(255));
    assert_eq!(parse_u64_str("0xFFFFFFFFFFFFFFFF"), Ok(u64::MAX));
    assert_eq!(parse_u64_str("0x178BA59576325029"), Ok(0x178BA59576325029));
    assert!(parse_u64_str("0x1FFFFFFFFFFFFFFFF").is_err());
    assert!(parse_u64_str("0xzz").is_err());
    assert!(parse_u64_str("0x").is_err());
    assert!(parse_u64_str("é").is_err());
}

#[test]
fn editor_check_sees_only_carrying_flags() {
    let mut a = [false; 15];
    a[2] = true;
    a[7] = true;
    a[11] = true;
    // flags 7 and 11 carry no information, so this still counts as playing
    assert!(check_flags_sf_mi(encode_context_flags(&a), 0));
    let mut b = [false; 15];
    b[3] = true;
    // flag 3 carries no information either: nothing is playing
    assert!(!check_flags_sf_mi(encode_context_flags(&b), 0));
    let mut c = [false; 15];
    c[4] = true;
    c[9] = true;
    assert!(!check_flags_sf_mi(encode_context_flags(&c), 0));
    c[9] = false;
    assert!(check_flags_sf_mi(encode_context_flags(&c), 0));
}

fn shift_loop_encode(arr: &[bool; 15]) -> u64 {
    let mut ret: u64 = 1;
    for i in 0..15 {
        if arr[i] {
            ret *= CONTEXT_COEFFICIENTS[context_map_plain_to_cypher(i as i32) as usize] as u64;
        }
        while ret & 1 == 0 {
            ret >>= 1;
        }
    }
    ret
}

fn dividing_decode(flags: u64) -> [bool; 15] {
    let mut plain = [false; 15];
    if flags == 0 {
        return plain;
    }
    let mut flags = flags;
    for i in 0..15 {
        if CONTEXT_COEFFICIENTS[i] < 2 {
            continue;
        }
        let mut c = CONTEXT_COEFFICIENTS[i] as u64;
        while c & 1 == 0 && c > 0 {
            c >>= 1;
        }
        if flags % c == 0 {
            plain[context_map_cypher_to_plain(i as i32) as usize] = true;
            flags /= c;
        }
    }
    plain
}

#[test]
fn every_flag_combination_packs_and_unpacks() {
    for bits in 0u32..(1 << 15) {
        let mut arr = [false; 15];
        for p in 0..15 {
            arr[p] = bits & (1 << p) != 0;
        }
        let enc = encode_context_flags(&arr);
        assert_eq!(enc, shift_loop_encode(&arr));
        assert_eq!(decode_context_flags(enc), dividing_decode(enc));
    }
}

#[test]
fn unpacking_arbitrary_values_matches_dividing_out() {
    let mut x: u64 = 0x9E3779B97F4A7C15;
    for _ in 0..20000 {
        x = x.wrapping_mul(6364136223846793005).wrapping_add(1442695040888963407);
        for v in [x, x >> 40, x % 1000003, (x >> 20) * 3311] {
            assert_eq!(decode_context_flags(v), dividing_decode(v));
        }
    }
}

#[test]
fn hex_text_reads_back() {
    for v in [0u64, 1, 15, 16, 255, 3311, 0x178BA59576325029, u64::MAX] {
        assert_eq!(parse_u64_str(&format!("{:#x}", v)), Ok(v));
        if v >= 16 {
            assert_eq!(parse_u64_str(&format!("{:x}", v)), Ok(v));
        }
    }
}
