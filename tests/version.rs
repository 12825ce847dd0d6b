use scrap::version::{
    check_for_updates_inner, parse_formula_version, record_fetched_version, version_is_newer,
    UpdateStep, VersionCache,
};

#[test]
fn test_version_comparison() {
    assert!(version_is_newer("0.2.0", "0.1.0"));
    assert!(version_is_newer("0.1.1", "0.1.0"));
    assert!(version_is_newer("1.0.0", "0.9.9"));
    assert!(!version_is_newer("0.1.0", "0.1.0"));
    assert!(!version_is_newer("0.1.0", "0.2.0"));
}

#[test]
fn missing_parts_count_as_zero() {
    assert!(version_is_newer("1.0.1", "1.0"));
    assert!(!version_is_newer("1.0", "1.0.0"));
    assert!(version_is_newer("0.10.0", "0.9.0"));
    assert!(version_is_newer("x.1", "0.2"));
    assert!(version_is_newer("+2", "1"));
}

#[test]
fn formula_version_is_read_from_the_tag_line() {
    let text = "class Scrap < Formula\n  url \"https://example.com\",\n      tag: \"v0.3.1\"\nend\n";
    assert_eq!(parse_formula_version(text), Some("0.3.1".to_string()));
    assert_eq!(parse_formula_version("tag: none\ntag: \"vv2.0\""), Some("2.0".to_string()));
    assert_eq!(parse_formula_version("no version here"), None);
    assert_eq!(parse_formula_version("tag: \"unterminated"), None);
}

#[test]
fn fresh_cache_announces_a_newer_version_once() {
    let cache = VersionCache { latest_version: "0.2.0".to_string(), checked_at: 1000, notified_version: None };
    match check_for_updates_inner(2000, Some(cache), "0.1.0") {
        UpdateStep::Notify(v, w) => {
            assert_eq!(v, "0.2.0");
            assert_eq!(w.notified_version, Some("0.2.0".to_string()));
            assert_eq!(w.checked_at, 1000);
        }
        other => panic!("unexpected {:?}", other),
    }
    let told = VersionCache {
        latest_version: "0.2.0".to_string(),
        checked_at: 1000,
        notified_version: Some("0.2.0".to_string()),
    };
    assert!(matches!(check_for_updates_inner(2000, Some(told), "0.1.0"), UpdateStep::Quiet));
}

#[test]
fn old_or_missing_cache_fetches() {
    let cache = VersionCache { latest_version: "0.2.0".to_string(), checked_at: 0, notified_version: None };
    assert!(matches!(check_for_updates_inner(86400, Some(cache), "0.1.0"), UpdateStep::Fetch));
    assert!(matches!(check_for_updates_inner(5, None, "0.1.0"), UpdateStep::Fetch));
}

#[test]
fn fetched_version_is_recorded() {
    let (c, n) = record_fetched_version("1.2.0".to_string(), 77, "1.1.9");
    assert_eq!(c.latest_version, "1.2.0");
    assert_eq!(c.checked_at, 77);
    assert_eq!(c.notified_version, Some("1.2.0".to_string()));
    assert_eq!(n, Some("1.2.0".to_string()));
    let (c, n) = record_fetched_version("1.0.0".to_string(), 5, "1.1.9");
    assert_eq!(c.notified_version, None);
    assert_eq!(n, None);
}
