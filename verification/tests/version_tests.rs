use clawpanel::version::{
    base_version, order_versions, parse_version, recommended_is_newer, versions_match,
};

#[test]
fn base_version_strips_suffix() {
    assert_eq!(base_version("2026.3.13-zh.1"), "2026.3.13");
    assert_eq!(base_version("2026.3.13"), "2026.3.13");
}

#[test]
fn parse_version_reads_digit_runs() {
    assert_eq!(parse_version("2026.3.13-zh.1"), vec![2026, 3, 13, 1]);
    assert_eq!(parse_version("v1..2"), vec![1, 2]);
    assert_eq!(parse_version("99999999999.1"), vec![1]);
    assert_eq!(parse_version(""), Vec::<u32>::new());
}

#[test]
fn versions_match_ignores_zh_suffix() {
    assert!(versions_match("2026.3.13", "2026.3.13-zh.1"));
    assert!(!versions_match("2026.3.12", "2026.3.13-zh.1"));
}

#[test]
fn recommended_newer_compares_numbers() {
    assert!(recommended_is_newer("2026.3.13-zh.1", "2026.3.12"));
    assert!(!recommended_is_newer("2026.3.13-zh.1", "2026.3.13"));
    assert!(recommended_is_newer("2026.10.1", "2026.9.30"));
    assert!(recommended_is_newer("1.0.1", "1.0"));
}

#[test]
fn order_versions_newest_first_with_recommended_in_front() {
    let keys = vec!["1.0.0".to_string(), "1.10.0".to_string(), "1.2.0".to_string()];
    let r = order_versions(keys.clone(), Some("1.2.0".to_string()));
    assert_eq!(r, vec!["1.2.0", "1.10.0", "1.0.0"]);
    let r2 = order_versions(keys, Some("2.0.0-zh.1".to_string()));
    assert_eq!(r2, vec!["2.0.0-zh.1", "1.10.0", "1.2.0", "1.0.0"]);
}
