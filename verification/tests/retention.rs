use hangar_application::retention::{keep_count, RetentionSweepReport, SweepRetentionUseCase, RETENTION_SWEEP_ACTOR};

fn dated(items: &[(&str, &str, i64)]) -> Vec<(String, String, i64)> {
    items.iter().map(|(a, b, t)| (a.to_string(), b.to_string(), *t)).collect()
}

#[test]
fn a_negative_retention_keeps_nothing() {
    assert_eq!(keep_count(-3), 0);
    assert_eq!(keep_count(4), 4);
    assert_eq!(RETENTION_SWEEP_ACTOR, 0);
    assert_eq!(RetentionSweepReport::default(), RetentionSweepReport { npm_versions_deleted: 0, docker_tags_deleted: 0 });
}

#[test]
fn npm_sweep_keeps_the_newest_and_every_dist_tagged_version() {
    let versions: Vec<(String, i64)> = vec![("1.0.0".into(), 1), ("4.0.0".into(), 4), ("2.0.0".into(), 2), ("3.0.0".into(), 3)];
    let tagged = vec!["1.0.0".to_string()];
    assert_eq!(SweepRetentionUseCase::npm_deletions(&versions, &tagged, 2), vec!["2.0.0".to_string()]);
    assert!(SweepRetentionUseCase::npm_deletions(&versions, &tagged, 4).is_empty());
    assert_eq!(SweepRetentionUseCase::npm_deletions(&versions, &vec![], 0).len(), 4);
}

#[test]
fn docker_sweep_never_deletes_latest_nor_a_digest_shared_with_a_kept_tag() {
    let tags = dated(&[("v1", "d1", 1), ("v2", "d2", 2), ("v3", "d3", 3), ("latest", "d1", 1), ("alias", "d3", 0)]);
    let candidates = SweepRetentionUseCase::docker_candidates(&tags, 1);
    assert_eq!(candidates, vec!["d2".to_string()]);
    assert!(SweepRetentionUseCase::docker_candidates(&tags, 5).is_empty());
    assert!(SweepRetentionUseCase::already_deleted(&vec!["d2".to_string()], "d2"));
    assert!(!SweepRetentionUseCase::already_deleted(&vec![], "d2"));
}

#[test]
fn a_sweep_counts_only_the_deletions_that_succeeded() {
    let mut report = hangar_application::retention::RetentionSweepReport::default();
    let mut deleted: Vec<String> = Vec::new();
    report.record_npm_deletion(true);
    report.record_npm_deletion(false);
    report.record_docker_deletion(&mut deleted, "sha256:a".into(), true);
    report.record_docker_deletion(&mut deleted, "sha256:b".into(), false);
    assert_eq!(report.npm_versions_deleted, 1);
    assert_eq!(report.docker_tags_deleted, 1);
    assert_eq!(deleted, vec!["sha256:a".to_string()]);
}
