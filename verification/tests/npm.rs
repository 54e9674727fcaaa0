use hangar_application::error::ApplicationError;
use hangar_application::json::Json;
use hangar_application::npm::{
    latest_after_publish, local_name, moves_latest, npm_remote_url, require_package, require_version, tarball_integrity, tarball_shasum, tarball_storage_key,
    trim_leading_ats, DownloadNpmTarballUseCase, GetNpmPackageMetadataUseCase, NpmDistTag, NpmPackageOrigin, NpmPackageVersion,
    ProxyTarballPlan, PublishNpmPackageUseCase, UnpublishNpmPackageUseCase,
};

fn s(x: &str) -> Json {
    Json::Str(x.to_string())
}

fn obj(members: Vec<(&str, Json)>) -> Json {
    Json::Object(members.into_iter().map(|(k, v)| (k.to_string(), v)).collect())
}

fn member<'a>(j: &'a Json, key: &str) -> Option<&'a Json> {
    match j {
        Json::Object(ms) => ms.iter().find(|(k, _)| k == key).map(|(_, v)| v),
        _ => None,
    }
}

fn version(v: &str, manifest: Json, deprecated: Option<&str>) -> NpmPackageVersion {
    NpmPackageVersion {
        id: 1,
        npm_package_id: 2,
        version: v.into(),
        manifest,
        shasum: format!("sha-{v}"),
        integrity: format!("int-{v}"),
        tarball_storage_key: String::new(),
        tarball_size_bytes: 0,
        deprecated: deprecated.is_some(),
        deprecated_message: deprecated.map(|m| m.to_string()),
        published_by: None,
        published_at: 0,
        origin: NpmPackageOrigin::Local,
    }
}

#[test]
fn a_tarball_key_is_derived_from_name_and_version() {
    assert_eq!(tarball_storage_key("@scope/pkg", "1.0.0"), "scope/pkg/-/pkg-1.0.0.tgz");
    assert_eq!(tarball_storage_key("left-pad", "2.1.0"), "left-pad/-/left-pad-2.1.0.tgz");
    assert_eq!(local_name("@a/b"), "b");
    assert_eq!(trim_leading_ats("@@x"), "x");
}

#[test]
fn publishing_a_prerelease_never_moves_latest() {
    assert!(moves_latest("1.0.0"));
    assert!(!moves_latest("1.0.0-beta.1"));
}

#[test]
fn checksums_are_computed_from_the_tarball() {
    assert_eq!(tarball_shasum(b"abc"), "a9993e364706816aba3e25717850c26c9cd0d89d");
    assert_eq!(
        tarball_integrity(b"abc"),
        "sha512-3a81oZNherrMQXNJriBBMRLm+k6JqX6iCp7u5ktV05ohkpkqJ0/BqDa6PCOj/uu9RU1EI2Q86A4qmslPpUyknw=="
    );
}

#[test]
fn publishing_an_existing_version_is_refused_before_the_quota() {
    assert_eq!(PublishNpmPackageUseCase::check(true, Some(0), 10, 10), Err(ApplicationError::PackageVersionExists));
    assert_eq!(PublishNpmPackageUseCase::check(false, Some(15), 10, 10), Err(ApplicationError::StorageQuotaExceeded));
    assert_eq!(PublishNpmPackageUseCase::check(false, Some(20), 10, 10), Ok(()));
    assert_eq!(PublishNpmPackageUseCase::check(false, None, 10, 10), Ok(()));
}

#[test]
fn a_published_version_record_holds_its_checksums_and_key() {
    let r = PublishNpmPackageUseCase::version_record(5, 6, "@s/p", "1.2.3", obj(vec![]), b"abc", 9, 100);
    assert_eq!(r.shasum, "a9993e364706816aba3e25717850c26c9cd0d89d");
    assert_eq!(r.tarball_storage_key, "s/p/-/p-1.2.3.tgz");
    assert_eq!(r.tarball_size_bytes, 3);
    assert_eq!(r.published_by, Some(9));
    assert_eq!(r.origin, NpmPackageOrigin::Local);
    assert!(!r.deprecated);
}

#[test]
fn a_proxy_finds_the_tarball_url_in_its_cached_metadata() {
    let cached = obj(vec![("versions", obj(vec![("1.0.0", obj(vec![("dist", obj(vec![("tarball", s("https://r/p.tgz"))]))]))]))]);
    assert_eq!(DownloadNpmTarballUseCase::proxy_tarball_url(&cached, "1.0.0"), Some("https://r/p.tgz".to_string()));
    assert_eq!(DownloadNpmTarballUseCase::proxy_tarball_url(&cached, "2.0.0"), None);
    assert_eq!(DownloadNpmTarballUseCase::proxy_manifest(&cached, "9.9.9"), Json::Object(vec![]));
    let cached_record = DownloadNpmTarballUseCase::proxy_version_record(1, 2, "p", "1.0.0", obj(vec![]), b"abc", 50);
    assert_eq!(cached_record.origin, NpmPackageOrigin::ProxyCache);
    assert_eq!(cached_record.published_by, None);
}

#[test]
fn the_metadata_document_lists_versions_with_dist_and_deprecation() {
    let versions = vec![
        version("1.0.0", obj(vec![("name", s("p"))]), None),
        version("2.0.0", obj(vec![("name", s("p"))]), Some("use 3")),
    ];
    let tags = vec![NpmDistTag { tag: "latest".into(), version: "2.0.0".into() }];
    let doc = GetNpmPackageMetadataUseCase::build_metadata_document("p", versions, &tags);
    assert_eq!(member(&doc, "_id"), Some(&s("p")));
    assert_eq!(member(member(&doc, "dist-tags").unwrap(), "latest"), Some(&s("2.0.0")));
    let v2 = member(member(&doc, "versions").unwrap(), "2.0.0").unwrap();
    assert_eq!(member(v2, "deprecated"), Some(&s("use 3")));
    assert_eq!(member(member(v2, "dist").unwrap(), "shasum"), Some(&s("sha-2.0.0")));
    let v1 = member(member(&doc, "versions").unwrap(), "1.0.0").unwrap();
    assert_eq!(member(v1, "deprecated"), None);
    assert_eq!(member(member(v1, "dist").unwrap(), "integrity"), Some(&s("int-1.0.0")));
}

#[test]
fn cached_metadata_goes_stale_after_five_minutes() {
    assert!(GetNpmPackageMetadataUseCase::is_stale(None, 0));
    let second: i128 = 1_000_000_000;
    assert!(!GetNpmPackageMetadataUseCase::is_stale(Some(1_000 * second), 1_300 * second));
    assert!(GetNpmPackageMetadataUseCase::is_stale(Some(1_000 * second), 1_300 * second + 1));
    // 300.5 seconds have passed: already stale.
    assert!(GetNpmPackageMetadataUseCase::is_stale(Some(0), 300 * second + second / 2));
    assert!(!GetNpmPackageMetadataUseCase::is_stale(Some(i128::MAX - 10), i128::MAX));
    assert_eq!(GetNpmPackageMetadataUseCase::refresh_failed(true, ApplicationError::NpmPackageNotFound), Ok(()));
    assert_eq!(
        GetNpmPackageMetadataUseCase::refresh_failed(false, ApplicationError::NpmPackageNotFound),
        Err(ApplicationError::NpmPackageNotFound)
    );
    assert!(matches!(npm_remote_url(&None), Err(ApplicationError::InvalidNpmPayload(_))));
}

#[test]
fn unpublishing_removes_every_tag_pointing_at_the_version() {
    let tags = vec![
        NpmDistTag { tag: "latest".into(), version: "1.0.0".into() },
        NpmDistTag { tag: "beta".into(), version: "2.0.0-b".into() },
        NpmDistTag { tag: "stable".into(), version: "1.0.0".into() },
    ];
    assert_eq!(UnpublishNpmPackageUseCase::tags_to_remove(&tags, "1.0.0"), vec!["latest".to_string(), "stable".to_string()]);
    assert_eq!(require_package::<u8>(None), Err(ApplicationError::NpmPackageNotFound));
    assert_eq!(require_version(Some(3)), Ok(3));
    assert_eq!(require_version::<u8>(None), Err(ApplicationError::NpmVersionNotFound));
}

#[test]
fn a_proxied_download_reaches_the_remote_only_for_an_uncached_version_with_a_tarball_url() {
    let cached = Some(obj(vec![("versions", obj(vec![("1.0.0", obj(vec![("dist", obj(vec![("tarball", s("https://r/p.tgz"))]))]))]))]));
    let plan = DownloadNpmTarballUseCase::plan_proxy_download;
    assert_eq!(plan(false, false, &cached, "1.0.0"), ProxyTarballPlan::NotFound);
    assert_eq!(plan(true, true, &cached, "1.0.0"), ProxyTarballPlan::ServeCached);
    assert_eq!(plan(true, false, &cached, "1.0.0"), ProxyTarballPlan::Fetch("https://r/p.tgz".to_string()));
    assert_eq!(plan(true, false, &cached, "2.0.0"), ProxyTarballPlan::NotFound);
    assert_eq!(plan(true, false, &None, "1.0.0"), ProxyTarballPlan::NotFound);
}

#[test]
fn a_prerelease_leaves_latest_where_it_was() {
    assert_eq!(latest_after_publish(Some("1.0.0".into()), "2.0.0-beta.1"), Some("1.0.0".to_string()));
    assert_eq!(latest_after_publish(Some("1.0.0".into()), "2.0.0"), Some("2.0.0".to_string()));
    assert_eq!(latest_after_publish(None, "0.1.0-rc"), None);
}
