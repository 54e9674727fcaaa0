use hangar_application::dependency_scan::{extract_dependencies, AdvisoryRef, DependencyWalk, MAX_DEPTH, MAX_PACKAGES};
use hangar_application::json::Json;

fn s(x: &str) -> Json {
    Json::Str(x.to_string())
}

fn obj(members: Vec<(&str, Json)>) -> Json {
    Json::Object(members.into_iter().map(|(k, v)| (k.to_string(), v)).collect())
}

fn manifest(deps: Vec<(&str, &str)>) -> Json {
    obj(vec![("name", s("x")), ("dependencies", obj(deps.into_iter().map(|(n, r)| (n, s(r))).collect()))])
}

#[test]
fn dependencies_are_the_string_members_of_the_dependencies_object() {
    let m = obj(vec![("dependencies", obj(vec![("a", s("^1.0.0")), ("weird", Json::Number("1".into())), ("b", s("~2.0.0"))]))]);
    assert_eq!(extract_dependencies(&m), vec![("a".to_string(), "^1.0.0".to_string()), ("b".to_string(), "~2.0.0".to_string())]);
    assert!(extract_dependencies(&obj(vec![])).is_empty());
}

#[test]
fn the_walk_resolves_each_range_and_queues_its_dependencies_one_level_deeper() {
    let mut walk = DependencyWalk::new(&manifest(vec![("a", "^1.0.0")]));
    let (name, range, depth) = walk.next().unwrap();
    assert_eq!((name.as_str(), range.as_str(), depth), ("a", "^1.0.0", 1));
    let packument = obj(vec![(
        "versions",
        obj(vec![("1.0.0", manifest(vec![])), ("1.2.0", manifest(vec![("b", "~2.0.0")])), ("2.0.0", manifest(vec![]))]),
    )]);
    walk.record(&name, &range, depth, Some(&packument));
    assert!(walk.has_visited("a", "1.2.0"));
    assert_eq!(walk.packages_scanned(), 1);
    let (name2, range2, depth2) = walk.next().unwrap();
    assert_eq!((name2.as_str(), range2.as_str(), depth2), ("b", "~2.0.0", 2));
    walk.record(&name2, &range2, depth2, None);
    assert!(walk.next().is_none());
    assert!(!walk.truncated);
}

#[test]
fn a_version_found_twice_is_recorded_once() {
    let mut walk = DependencyWalk::new(&manifest(vec![("a", "1.0.0")]));
    let packument = obj(vec![("versions", obj(vec![("1.0.0", manifest(vec![("a", "^1.0.0")]))]))]);
    while let Some((name, range, depth)) = walk.next() {
        walk.record(&name, &range, depth, Some(&packument));
    }
    assert_eq!(walk.packages_scanned(), 1);
}

#[test]
fn findings_are_the_advisories_whose_range_holds_the_found_version() {
    let mut walk = DependencyWalk::new(&manifest(vec![("a", "^1.0.0")]));
    let (name, range, depth) = walk.next().unwrap();
    let packument = obj(vec![("versions", obj(vec![("1.2.0", manifest(vec![]))]))]);
    walk.record(&name, &range, depth, Some(&packument));
    let advisories = vec![(
        "a".to_string(),
        vec![
            AdvisoryRef { id: 7, vulnerable_versions: "<1.5.0".into() },
            AdvisoryRef { id: 3, vulnerable_versions: ">=2.0.0".into() },
            AdvisoryRef { id: 5, vulnerable_versions: "1.2.0".into() },
        ],
    )];
    let findings = walk.findings(&advisories);
    let ids: Vec<i64> = findings.iter().map(|f| f.advisory_id).collect();
    assert_eq!(ids, vec![5, 7]);
    assert_eq!(findings[0].dependency_version, "1.2.0");
    assert_eq!(walk.audit_request(), vec![("a".to_string(), vec!["1.2.0".to_string()])]);
}

#[test]
fn the_walk_caps_are_ten_levels_and_five_hundred_packages() {
    assert_eq!(MAX_DEPTH, 10);
    assert_eq!(MAX_PACKAGES, 500);
}

#[test]
fn entries_past_the_depth_cap_are_dropped_and_mark_the_walk_truncated() {
    let mut walk = DependencyWalk::new(&manifest(vec![("p1", "1.0.0")]));
    let mut fetched = 0;
    while let Some((name, range, depth)) = walk.next() {
        let k: usize = name[1..].parse().unwrap();
        let child = format!("p{}", k + 1);
        let packument = obj(vec![("versions", obj(vec![("1.0.0", manifest(vec![(child.as_str(), "1.0.0")]))]))]);
        walk.record(&name, &range, depth, Some(&packument));
        fetched += 1;
    }
    assert_eq!(fetched, MAX_DEPTH);
    assert_eq!(walk.packages_scanned(), MAX_DEPTH);
    assert!(walk.truncated);
}
