use hangar_application::docker_catalog::{ListCatalogUseCase, ListDockerRegistryCatalogUseCase, ListTagsUseCase};
use hangar_application::model::{PackageRepositorySummary, RepositoryFormat, RepositoryType};
use hangar_application::package_details::{GetDockerImageDetailsUseCase, GetNpmPackageDetailsUseCase, NpmDistTagDetail};
use hangar_application::package_tree::{ascii_lowercase, ListRepositoryPackagesUseCase, NpmPackageTreeVersion, VulnerabilitySummary};
use hangar_application::docker::DockerMediaType;
use hangar_application::npm::{NpmDistTag, NpmPackageOrigin, NpmPackageVersion};
use hangar_application::json::Json;

fn strings(xs: &[&str]) -> Vec<String> {
    xs.iter().map(|x| x.to_string()).collect()
}

fn tv(v: &str, at: i64) -> NpmPackageTreeVersion {
    NpmPackageTreeVersion { version: v.into(), published_at: at, size_bytes: 10, deprecated: false }
}

#[test]
fn severities_are_counted_case_insensitively_with_moderate_as_medium() {
    let summary = VulnerabilitySummary::count(&strings(&["CRITICAL", "high", "Moderate", "medium", "low", "unknown", "info"]));
    assert_eq!(summary, VulnerabilitySummary { critical: 1, high: 1, medium: 2, low: 1 });
    assert_eq!(VulnerabilitySummary::count(&vec![]), VulnerabilitySummary::default());
    assert_eq!(ascii_lowercase("ÀBc"), "Àbc");
}

#[test]
fn npm_versions_are_listed_newest_first_with_the_newest_audit() {
    let packages = vec![(1u128, "a".to_string()), (2u128, "b".to_string())];
    let versions = vec![(10u128, 1u128, tv("1.0.0", 100)), (11, 1, tv("2.0.0", 200)), (12, 1, tv("1.5.0", 150)), (13, 3, tv("9.9.9", 1))];
    let audits = vec![(11u128, strings(&["high", "low"])), (10, strings(&["critical"]))];
    let tree = ListRepositoryPackagesUseCase::list_npm(&packages, &versions, &audits);
    assert_eq!(tree.len(), 2);
    assert_eq!(tree[0].name, "a");
    let listed: Vec<&str> = tree[0].versions.iter().map(|v| v.version.as_str()).collect();
    assert_eq!(listed, vec!["2.0.0", "1.5.0", "1.0.0"]);
    assert_eq!(tree[0].vulnerability_summary, VulnerabilitySummary { critical: 0, high: 1, medium: 0, low: 1 });
    assert!(tree[1].versions.is_empty());
    assert_eq!(tree[1].vulnerability_summary, VulnerabilitySummary::default());
}

#[test]
fn versions_published_at_the_same_instant_keep_their_order() {
    let packages = vec![(1u128, "a".to_string())];
    let versions = vec![(10u128, 1u128, tv("x", 5)), (11, 1, tv("y", 5))];
    let tree = ListRepositoryPackagesUseCase::list_npm(&packages, &versions, &vec![]);
    let listed: Vec<&str> = tree[0].versions.iter().map(|v| v.version.as_str()).collect();
    assert_eq!(listed, vec!["x", "y"]);
}

#[test]
fn docker_images_and_tags_are_listed_in_order_with_the_latest_scan() {
    let row = |image: &str, tag: &str, manifest: u128, at: i64| (image.to_string(), tag.to_string(), manifest, at);
    let tags = vec![row("web", "v2", 7, 30), row("api", "latest", 9, 5), row("web", "latest", 8, 10), row("web", "v1", 6, 1)];
    let scans = vec![(7u128, strings(&["HIGH", "medium"])), (8u128, strings(&["critical"]))];
    let tree = ListRepositoryPackagesUseCase::list_docker(&tags, &scans);
    assert_eq!(tree.len(), 2);
    assert_eq!(tree[0].image_name, "api");
    assert_eq!(tree[0].vulnerability_summary, VulnerabilitySummary::default());
    assert_eq!(tree[1].image_name, "web");
    assert_eq!(tree[1].tags, strings(&["latest", "v1", "v2"]));
    assert_eq!(tree[1].vulnerability_summary, VulnerabilitySummary { critical: 0, high: 1, medium: 1, low: 0 });
}

#[test]
fn docker_image_summary_follows_the_most_recently_updated_tag_not_an_older_one() {
    let tags = vec![("my-app".to_string(), "1.0.0".to_string(), 1u128, 100i64), ("my-app".to_string(), "latest".to_string(), 2u128, 200i64)];
    let scans = vec![(1u128, strings(&["CRITICAL"])), (2u128, strings(&["LOW"]))];
    let tree = ListRepositoryPackagesUseCase::list_docker(&tags, &scans);
    assert_eq!(tree[0].tags, strings(&["1.0.0", "latest"]));
    assert_eq!(tree[0].vulnerability_summary.critical, 0);
    assert_eq!(tree[0].vulnerability_summary.low, 1);
}

#[test]
fn tags_and_catalog_are_sorted_and_the_catalog_deduplicated() {
    assert_eq!(ListTagsUseCase::execute(strings(&["b", "a", "c", "a"])), strings(&["a", "a", "b", "c"]));
    assert_eq!(ListCatalogUseCase::execute(&strings(&["web", "api", "web"])), strings(&["api", "web"]));
}

fn repo(id: u128, org: u128, name: &str, format: RepositoryFormat) -> PackageRepositorySummary {
    PackageRepositorySummary {
        id,
        organization_id: org,
        name: name.into(),
        format,
        repo_type: RepositoryType::Hosted,
        remote_url: None,
        remote_username: None,
        remote_password: None,
        group_members: vec![],
        quota_bytes: None,
        retention_keep_last_n: None,
    }
}

#[test]
fn the_registry_catalog_lists_only_readable_docker_repositories_of_the_organization() {
    let repos = vec![
        repo(1, 100, "main", RepositoryFormat::Docker),
        repo(2, 200, "other-org", RepositoryFormat::Docker),
        repo(3, 100, "npm", RepositoryFormat::Npm),
        repo(4, 100, "secret", RepositoryFormat::Docker),
    ];
    let readable = vec![1u128, 2, 3];
    let images = vec![(1u128, "web".to_string()), (2, "x".to_string()), (3, "y".to_string()), (4, "z".to_string()), (1, "api".to_string())];
    assert_eq!(ListDockerRegistryCatalogUseCase::execute(100, &repos, &readable, &images), strings(&["main/api", "main/web"]));
}

#[test]
fn package_details_list_versions_newest_first_and_the_dist_tags() {
    let v = |ver: &str, at: i64| NpmPackageVersion {
        id: 1,
        npm_package_id: 1,
        version: ver.into(),
        manifest: Json::Null,
        shasum: "s".into(),
        integrity: "i".into(),
        tarball_storage_key: "k".into(),
        tarball_size_bytes: 3,
        deprecated: false,
        deprecated_message: None,
        published_by: None,
        published_at: at,
        origin: NpmPackageOrigin::Local,
    };
    let details = GetNpmPackageDetailsUseCase::execute(
        "pkg",
        vec![v("1.0.0", 1), v("3.0.0", 3), v("2.0.0", 2)],
        vec![NpmDistTag { tag: "latest".into(), version: "3.0.0".into() }],
    );
    assert_eq!(details.name, "pkg");
    let listed: Vec<&str> = details.versions.iter().map(|v| v.version.as_str()).collect();
    assert_eq!(listed, vec!["3.0.0", "2.0.0", "1.0.0"]);
    assert_eq!(details.dist_tags, vec![NpmDistTagDetail { tag: "latest".into(), version: "3.0.0".into() }]);
}

#[test]
fn image_details_show_each_tag_with_its_media_type() {
    let details = GetDockerImageDetailsUseCase::execute("web", vec![("latest".into(), "sha256:x".into(), DockerMediaType::OciIndex, 9)]);
    assert_eq!(details.image_name, "web");
    assert_eq!(details.tags[0].media_type, "application/vnd.oci.image.index.v1+json");
    assert_eq!(details.tags[0].created_at, 9);
}
