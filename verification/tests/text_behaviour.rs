use dipspp::clean_db::{clean_username, since_init_ms_of};
use dipspp::context_flags::parse_u64_str;
use dipspp::donations::{gfm_amount_text, GFM_SPLIT1_PAT, GFM_SPLIT2_PAT};
use dipspp::version::{plugin_info_extract_version, version_str_to_parts, version_to_string};
use dipspp::web::aux_spec_name_id;

const SAMPLES: [&str; 24] = [
    "",
    "\n",
    "\r\n",
    "a\r",
    "a\n\nb",
    "Version:",
    "Version:1.2.3",
    "Version: 1.2.3",
    "x\nVersion:0.5.1\r\nVersion:9.9.9\n",
    "Version:1:2:3",
    "version:1.2.3",
    "1.2.3",
    "+1.+2",
    "1..",
    ".",
    "4294967295.4294967296",
    "0x10",
    "0X10",
    "ff",
    "+ff",
    "-1",
    "name_._",
    "a.json.json",
    "SinceInit:123\nSinceInit:456",
];

fn std_version(plugin_info: &str) -> String {
    plugin_info
        .lines()
        .find(|&l| l.starts_with("Version:"))
        .and_then(|vl| vl.split(":").last())
        .map(|s| s.to_string())
        .unwrap_or_else(|| "0.0.0".into())
}

fn std_parts(version: &str) -> Result<Vec<u32>, ()> {
    version.split('.').map(|s| s.parse().map_err(|_| ())).collect()
}

fn std_hex(s: &str) -> Result<u64, std::num::ParseIntError> {
    if &s[..2] == "0x" {
        return u64::from_str_radix(&s[2..], 16);
    }
    u64::from_str_radix(s, 16)
}

fn std_clean(name: &str) -> String {
    let mut name: String = name.into();
    while name.ends_with(|c| "._".contains(c)) {
        name.pop();
    }
    name
}

fn std_since_init(gamer_info: &str) -> Option<u64> {
    gamer_info
        .split("SinceInit:")
        .nth(1)
        .unwrap_or_default()
        .lines()
        .nth(0)
        .unwrap_or_default()
        .parse::<u64>()
        .ok()
}

#[test]
fn version_texts_behave_like_std_lines_and_split() {
    for s in SAMPLES {
        assert_eq!(plugin_info_extract_version(s), std_version(s), "input {:?}", s);
        assert_eq!(version_str_to_parts(s), std_parts(s), "input {:?}", s);
    }
}

#[test]
fn printed_versions_join_with_dots() {
    for v in [vec![], vec![0u32], vec![1, 22, 333], vec![u32::MAX, 0, 7]] {
        let joined = v.iter().map(|i| i.to_string()).collect::<Vec<String>>().join(".");
        assert_eq!(version_to_string(&v), joined);
    }
}

#[test]
fn hex_texts_behave_like_from_str_radix() {
    for s in SAMPLES {
        if s.len() >= 2 && s.is_char_boundary(2) {
            assert_eq!(parse_u64_str(s), std_hex(s), "input {:?}", s);
        }
    }
}

#[test]
fn names_and_game_info() {
    for s in SAMPLES {
        assert_eq!(clean_username(s), std_clean(s), "input {:?}", s);
        assert_eq!(since_init_ms_of(s), std_since_init(s), "input {:?}", s);
        let expected_name = if s.ends_with(".json") { Some(s.trim_end_matches(".json").to_string()) } else { None };
        assert_eq!(aux_spec_name_id(s), expected_name, "input {:?}", s);
    }
}

#[test]
fn fundraiser_pages() {
    let pages = [
        "",
        "amount_raised_unattributed\\\":",
        "amount_raised_unattributed\\\":42",
        "amount_raised_unattributed\\\":42,\\\"x",
        "a amount_raised_unattributed\\\":1 amount_raised_unattributed\\\":2",
        "no amount",
    ];
    for p in pages {
        let expected = match p.split(GFM_SPLIT1_PAT).nth(1) {
            Some(p1) => Ok(p1.split(GFM_SPLIT2_PAT).next().unwrap().to_string()),
            None => Err("Split1 failed".to_string()),
        };
        assert_eq!(gfm_amount_text(p), expected, "page {:?}", p);
    }
}
