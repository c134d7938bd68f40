use dipspp::session::check_min_plugin_version;
use dipspp::version::{
    plugin_info_extract_version, version_less, version_str_to_parts, version_to_string, MIN_PLUGIN_VERSION,
};

#[test]
fn version_less_compares_part_by_part() {
    assert!(version_less(&[0, 4, 14], &[0, 4, 15]));
    assert!(!version_less(&[0, 4, 15], &[0, 4, 15]));
    assert!(!version_less(&[0, 5, 0], &[0, 4, 15]));
    assert!(version_less(&[0, 3, 99], &[0, 4, 0]));
    // only the common parts are compared
    assert!(!version_less(&[0], &[0, 4, 15]));
    assert!(!version_less(&[0, 4, 15, 1], &[0, 4, 15]));
    assert!(!version_less(&[], &[1]));
}

#[test]
fn version_to_string_joins_with_dots() {
    assert_eq!(version_to_string(&[0, 4, 15]), "0.4.15");
    assert_eq!(version_to_string(&[4294967295, 0]), "4294967295.0");
    assert_eq!(version_to_string(&[7]), "7");
    assert_eq!(version_to_string(&[]), "");
}

#[test]
fn version_str_to_parts_parses_every_piece() {
    assert_eq!(version_str_to_parts("0.4.15"), Ok(vec![0, 4, 15]));
    assert_eq!(version_str_to_parts("+1.2"), Ok(vec![1, 2]));
    assert_eq!(version_str_to_parts("1..2"), Err(()));
    assert_eq!(version_str_to_parts("1.x"), Err(()));
    assert_eq!(version_str_to_parts(""), Err(()));
    assert_eq!(version_str_to_parts("4294967296"), Err(()));
    assert_eq!(version_str_to_parts(" 0.5.1"), Err(()));
}

#[test]
fn version_text_round_trip() {
    for v in [vec![0u32, 4, 15], vec![12], vec![1, 0, 0, 7], vec![u32::MAX, 3]] {
        assert_eq!(version_str_to_parts(&version_to_string(&v)), Ok(v));
    }
}

#[test]
fn plugin_info_version_is_after_last_colon() {
    let info = "Name: Dips++\nVersion:0.5.1\nAuthor: XertroV";
    assert_eq!(plugin_info_extract_version(info), "0.5.1");
    assert_eq!(plugin_info_extract_version("Version: 0.5.1"), " 0.5.1");
    assert_eq!(plugin_info_extract_version("Version:1:2\r\nVersion:3"), "2");
    assert_eq!(plugin_info_extract_version("No version here"), "0.0.0");
    assert_eq!(plugin_info_extract_version(""), "0.0.0");
    assert_eq!(plugin_info_extract_version(" Version:0.5.1"), "0.0.0");
}

#[test]
fn min_plugin_version_gate() {
    assert_eq!(MIN_PLUGIN_VERSION, [0, 4, 15]);
    assert_eq!(check_min_plugin_version("Version:0.4.15"), Ok(()));
    assert_eq!(check_min_plugin_version("Version:0.5.0"), Ok(()));
    assert_eq!(
        check_min_plugin_version("Version:0.4.14"),
        Err("Update Plugin! Version too low: 0.4.14".to_string())
    );
    // no version line, or one that does not parse, counts as 0.0.0
    assert_eq!(
        check_min_plugin_version("Name: Dips++"),
        Err("Update Plugin! Version too low: 0.0.0".to_string())
    );
    assert_eq!(
        check_min_plugin_version("Version: 0.5.1"),
        Err("Update Plugin! Version too low: 0.0.0".to_string())
    );
}

#[test]
fn extreme_numbers_print_in_full() {
    assert_eq!(version_to_string(&[0, u32::MAX]), "0.4294967295");
}
