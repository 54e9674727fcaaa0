use hangar_application::semver_req::{normalize_comparator, parse_range_clause, resolve_range, version_satisfies_range};

fn versions(vs: &[&str]) -> Vec<String> {
    vs.iter().map(|v| v.to_string()).collect()
}

fn resolved(range: &str, vs: &[&str]) -> Option<String> {
    let list = versions(vs);
    resolve_range(range, &list).map(|i| list[i].clone())
}

#[test]
fn resolve_range_treats_a_bare_version_as_an_exact_match() {
    assert_eq!(resolved("1.2.3", &["1.0.0", "1.2.3", "2.0.0"]).unwrap(), "1.2.3");
}

#[test]
fn resolve_range_picks_the_highest_version_matching_a_caret_range() {
    assert_eq!(resolved("^1.0.0", &["1.0.0", "1.5.0", "2.0.0"]).unwrap(), "1.5.0");
}

#[test]
fn resolve_range_supports_tilde_ranges() {
    assert_eq!(resolved("~1.2.0", &["1.2.0", "1.2.9", "1.3.0"]).unwrap(), "1.2.9");
}

#[test]
fn resolve_range_supports_or_combined_ranges() {
    assert_eq!(resolved("^1.0.0 || ^3.0.0", &["1.0.0", "3.0.0"]).unwrap(), "3.0.0");
}

#[test]
fn resolve_range_returns_none_when_nothing_matches() {
    assert!(resolved("^2.0.0", &["1.0.0"]).is_none());
}

#[test]
fn version_satisfies_range_matches_a_vulnerable_versions_string() {
    assert!(version_satisfies_range("0.0.8", "<0.2.4"));
    assert!(!version_satisfies_range("1.2.8", "<0.2.4"));
}

#[test]
fn comparators_are_normalized_for_semver() {
    assert_eq!(normalize_comparator("1.2.3"), "=1.2.3");
    assert_eq!(normalize_comparator("1.x"), "=1.*");
    assert_eq!(normalize_comparator("^1.X"), "^1.*");
    assert_eq!(normalize_comparator(">=2"), ">=2");
}

#[test]
fn clauses_become_comma_separated_requirements() {
    assert_eq!(parse_range_clause("  >=1.0.0   <2.0.0 ").unwrap(), ">=1.0.0, <2.0.0");
    assert_eq!(parse_range_clause("latest").unwrap(), "*");
    assert_eq!(parse_range_clause("   ").unwrap(), "*");
    assert!(parse_range_clause("git+https://x").is_none());
}

#[test]
fn wildcards_and_unparsable_versions() {
    assert_eq!(resolved("*", &["1.0.0", "not-a-version", "0.5.0"]).unwrap(), "1.0.0");
    assert!(!version_satisfies_range("garbage", "*"));
    assert!(version_satisfies_range("1.0.0", "bogus || ^1.0.0"));
}
