use neocurl::version::{
    check_version, check_version_matches, parse_u32, split, VersionError, VERSION,
};

fn matches(current: &str, asked: &str) -> Result<bool, VersionError> {
    check_version_matches(current.to_string(), asked.to_string())
}

#[test]
fn test_check_version_matches() {
    assert!(check_version_matches("1.0.0".to_string(), "1.0.0".to_string()).unwrap());
    assert!(check_version_matches("1.0.1".to_string(), "1.0.*".to_string()).unwrap());
    assert!(check_version_matches("1.0.0".to_string(), "1.0.*".to_string()).unwrap());

    assert!(!check_version_matches("1.0.0".to_string(), "1.1.0".to_string()).unwrap());
    assert!(!check_version_matches("1.0.0".to_string(), "2.0.0".to_string()).unwrap());
    assert!(!check_version_matches("1.1.0".to_string(), "1.0.*".to_string()).unwrap());
}

#[test]
fn two_parts_match_any_patch() {
    assert_eq!(matches("1.2.3", "1.2"), Ok(true));
    assert_eq!(matches("1.2.0", "1.2"), Ok(true));
    assert_eq!(matches("1.3.3", "1.2"), Ok(false));
    assert_eq!(matches("2.2.3", "1.2"), Ok(false));
}

#[test]
fn patch_must_be_equal_where_asked_for() {
    assert_eq!(matches("1.2.3", "1.2.3"), Ok(true));
    assert_eq!(matches("1.2.3", "1.2.4"), Ok(false));
    assert_eq!(matches("1.2.3", "1.2.03"), Ok(true));
    assert_eq!(matches("1.2.3", "+1.+2.+3"), Ok(true));
}

#[test]
fn a_part_that_is_no_number_counts_as_zero() {
    assert_eq!(matches("1.0.0", "1.x.0"), Ok(true));
    assert_eq!(matches("1.0.0", "1..0"), Ok(true));
    assert_eq!(matches("1.0.0", "1.0.beta"), Ok(true));
    assert_eq!(matches("1.0.1", "1.0.beta"), Ok(false));
    assert_eq!(matches("1.0.0", "1.-0.0"), Ok(true));
    assert_eq!(matches("0.0.0", "99999999999.0.0"), Ok(true));
    assert_eq!(matches("1.0.0-rc1.5", "1.0.7"), Ok(false));
    assert_eq!(matches("1.0.rc", "1.0.0"), Ok(true));
}

#[test]
fn malformed_versions() {
    assert_eq!(matches("1.0.0", "1"), Err(VersionError::MalformedRequest));
    assert_eq!(matches("1.0.0", ""), Err(VersionError::MalformedRequest));
    assert_eq!(matches("1.0.0", "1.0.0.0"), Err(VersionError::MalformedRequest));
    assert_eq!(matches("1.0", "1.0.0"), Err(VersionError::MalformedCurrent));
    assert_eq!(matches("", "1.0"), Err(VersionError::MalformedCurrent));
    assert_eq!(matches("1", "1"), Err(VersionError::MalformedRequest));
    assert_eq!(matches("1.0.0.0", "1.0.0"), Ok(true));
}

#[test]
fn split_keeps_empty_parts() {
    let split_all = |text: &str| -> Vec<String> { split(text, '.') };
    assert_eq!(split_all("1.0.0"), vec!["1", "0", "0"]);
    assert_eq!(split_all(""), vec![""]);
    assert_eq!(split_all("."), vec!["", ""]);
    assert_eq!(split_all("a..b."), vec!["a", "", "b", ""]);
    assert_eq!(split_all("no dots"), vec!["no dots"]);
    assert_eq!(split_all("\u{e9}.\u{1f600}"), vec!["\u{e9}", "\u{1f600}"]);
    for text in ["1.0.0", "", ".", "a..b.", "..", "x"] {
        let expected: Vec<String> = text.split('.').map(|p| p.to_string()).collect();
        assert_eq!(split(text, '.'), expected);
    }
}

#[test]
fn numbers_are_read_as_the_standard_library_reads_them() {
    let cases = [
        "0", "7", "42", "007", "+5", "+", "", "-1", "1 ", " 1", "4294967295", "4294967296",
        "99999999999999999999", "1_000", "0x10", "12a", "++1", "+0", "\u{663}",
    ];
    for text in cases {
        assert_eq!(parse_u32(text), text.parse::<u32>().ok(), "{:?}", text);
    }
    assert_eq!(parse_u32("4294967295"), Some(u32::MAX));
    assert_eq!(parse_u32("4294967296"), None);
    assert_eq!(parse_u32("+17"), Some(17));
}

#[test]
fn only_the_very_version_is_this_version() {
    assert!(check_version(VERSION));
    assert!(check_version("0.1.0"));
    assert!(!check_version("0.1"));
    assert!(!check_version("0.1.*"));
    assert!(!check_version(" 0.1.0"));
}
