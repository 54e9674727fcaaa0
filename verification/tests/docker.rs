use hangar_application::docker_catalog::{DeleteManifestUseCase, GetManifestUseCase, ManifestLookup};
use hangar_application::access::FakeRemoteDockerRegistry;
use hangar_application::docker::{
    chunk_outcome, check_digest, digest_of, extract_blob_digests, extract_manifest_list_member_digests, is_digest,
    media_type_or_default, own_session, parse_digest, proxy_remote_url, DockerMediaType, DockerUploadSession, ManifestReferences,
    PutManifestUseCase,
};
use hangar_application::error::{ApplicationError, DomainError};
use hangar_application::json::Json;

fn s(x: &str) -> Json {
    Json::Str(x.to_string())
}

fn obj(members: Vec<(&str, Json)>) -> Json {
    Json::Object(members.into_iter().map(|(k, v)| (k.to_string(), v)).collect())
}

fn manifest_with(config: &str, layers: &[&str]) -> Json {
    obj(vec![
        ("schemaVersion", Json::Number("2".into())),
        ("config", obj(vec![("digest", s(config)), ("size", Json::Number("100".into()))])),
        ("layers", Json::Array(layers.iter().map(|l| obj(vec![("digest", s(l))])).collect())),
    ])
}

#[test]
fn a_digest_is_sha256_of_the_content_in_lowercase_hex() {
    let d = digest_of(b"");
    assert_eq!(d, "sha256:e3b0c44298fc1c149afbf4c8996fb92427ae41e4649b934ca495991b7852b855");
    assert!(is_digest(&d));
}

#[test]
fn only_well_formed_digests_parse() {
    let d = digest_of(b"config-bytes");
    assert_eq!(parse_digest(&d).unwrap(), d);
    assert!(!is_digest("latest"));
    assert!(!is_digest("sha256:ABC"));
    assert_eq!(parse_digest("latest"), Err(ApplicationError::InvalidDockerPayload("invalid digest: latest".into())));
}

#[test]
fn blob_digests_are_the_config_then_every_layer() {
    let c = digest_of(b"c");
    let l1 = digest_of(b"l1");
    let l2 = digest_of(b"l2");
    let body = manifest_with(&c, &[&l1, &l2]);
    assert_eq!(extract_blob_digests(&body).unwrap(), vec![c, l1, l2]);
}

#[test]
fn a_manifest_referencing_a_malformed_digest_is_an_invalid_payload() {
    let body = manifest_with("not-a-digest", &[]);
    assert!(matches!(extract_blob_digests(&body), Err(ApplicationError::InvalidDockerPayload(_))));
}

#[test]
fn member_digests_of_an_index_are_listed_in_order() {
    let a = digest_of(b"a");
    let b = digest_of(b"b");
    let body = obj(vec![("manifests", Json::Array(vec![obj(vec![("digest", s(&a))]), obj(vec![("size", Json::Number("1".into()))]), obj(vec![("digest", s(&b))])]))]);
    assert_eq!(extract_manifest_list_member_digests(&body).unwrap(), vec![a, b]);
}

#[test]
fn preparing_a_push_computes_the_digest_from_the_raw_body() {
    let c = digest_of(b"config-bytes");
    let l = digest_of(b"layer-bytes");
    let raw = format!("{{\"schemaVersion\":2,\"config\":{{\"digest\":\"{c}\"}},\"layers\":[{{\"digest\":\"{l}\"}}]}}");
    let prepared = PutManifestUseCase::prepare(raw.as_bytes(), DockerMediaType::DockerV2Manifest).unwrap();
    assert_eq!(prepared.digest, digest_of(raw.as_bytes()));
    assert_eq!(prepared.references, ManifestReferences::Blobs(vec![c, l.clone()]));
    let index = format!("{{\"manifests\":[{{\"digest\":\"{l}\"}}]}}");
    let prepared = PutManifestUseCase::prepare(index.as_bytes(), DockerMediaType::OciIndex).unwrap();
    assert_eq!(prepared.references, ManifestReferences::Members(vec![l]));
}

#[test]
fn a_body_that_is_not_json_is_an_invalid_payload() {
    let r = PutManifestUseCase::prepare(b"nope", DockerMediaType::OciIndex);
    match r {
        Err(ApplicationError::InvalidDockerPayload(m)) => assert!(m.contains("line 1")),
        other => panic!("unexpected {other:?}"),
    }
}

#[test]
fn pushing_a_manifest_referencing_an_unreachable_blob_is_rejected() {
    assert_eq!(PutManifestUseCase::check_blobs_reachable(&vec![true, false]), Err(ApplicationError::DockerBlobNotFound));
    assert_eq!(PutManifestUseCase::check_blobs_reachable(&vec![true, true]), Ok(()));
}

#[test]
fn pushing_a_manifest_whose_blobs_exceed_the_quota_is_rejected() {
    assert_eq!(PutManifestUseCase::check_quota(Some(20), 10, 12), Err(ApplicationError::StorageQuotaExceeded));
    assert_eq!(PutManifestUseCase::check_quota(Some(22), 10, 12), Ok(()));
    assert_eq!(PutManifestUseCase::check_quota(None, u64::MAX - 1, 1), Ok(()));
    assert_eq!(PutManifestUseCase::check_quota(Some(-1), 10, 12), Ok(()));
}

#[test]
fn pushing_by_digest_reference_does_not_create_a_tag() {
    assert!(!PutManifestUseCase::should_tag(&digest_of(b"m")));
    assert!(PutManifestUseCase::should_tag("latest"));
}

#[test]
fn a_foreign_upload_session_reads_as_missing() {
    let session = DockerUploadSession { id: 1, package_repository_id: 2, staging_path: "p".into(), bytes_received: 0, created_at: 0, expires_at: 10 };
    assert_eq!(own_session(Some(session.clone()), 3), Err(ApplicationError::DockerUploadSessionNotFound));
    assert_eq!(own_session(Some(session.clone()), 2), Ok(session));
    assert_eq!(own_session(None, 2), Err(ApplicationError::DockerUploadSessionNotFound));
}

#[test]
fn a_chunk_at_the_wrong_offset_is_reported_with_both_offsets() {
    assert_eq!(chunk_outcome(Ok(7)), Ok(7));
    assert_eq!(
        chunk_outcome(Err(DomainError::ChunkOffsetMismatch { expected: 5, got: 3 })),
        Err(ApplicationError::DockerChunkOffsetMismatch { expected: 5, got: 3 })
    );
    assert_eq!(
        chunk_outcome(Err(DomainError::Infrastructure("disk".into()))),
        Err(ApplicationError::Domain(DomainError::Infrastructure("disk".into())))
    );
}

#[test]
fn content_that_does_not_hash_to_its_digest_is_refused() {
    assert_eq!(check_digest("sha256:a", "sha256:a"), Ok(()));
    assert_eq!(
        check_digest("sha256:a", "sha256:b"),
        Err(ApplicationError::DockerDigestMismatch { expected: "sha256:a".into(), computed: "sha256:b".into() })
    );
}

#[test]
fn a_remote_content_type_is_trusted_and_defaults_to_a_plain_manifest() {
    assert_eq!(media_type_or_default("application/vnd.oci.image.index.v1+json"), DockerMediaType::OciIndex);
    assert_eq!(media_type_or_default("text/plain"), DockerMediaType::DockerV2Manifest);
    assert!(DockerMediaType::OciIndex.is_index());
    assert!(!DockerMediaType::OciManifest.is_index());
}

#[test]
fn a_proxy_without_remote_url_is_an_invalid_payload() {
    assert_eq!(
        proxy_remote_url(&None),
        Err(ApplicationError::InvalidDockerPayload("proxy repository has no remote_url configured".into()))
    );
    assert_eq!(proxy_remote_url(&Some("https://r".into())), Ok("https://r".to_string()));
}

#[test]
fn the_fake_remote_registry_serves_an_empty_v2_manifest() {
    let fake = FakeRemoteDockerRegistry::new();
    let (body, content_type) = fake.fetch_manifest().unwrap();
    assert_eq!(body, b"{}".to_vec());
    assert_eq!(content_type, "application/vnd.docker.distribution.manifest.v2+json");
    assert_eq!(fake.fetch_blob().unwrap(), b"fake-blob-bytes".to_vec());
}

#[test]
fn a_reference_is_looked_up_by_digest_only_when_it_is_one() {
    let d = digest_of(b"m");
    assert_eq!(GetManifestUseCase::lookup(&d), ManifestLookup::ByDigest(d.clone()));
    assert_eq!(GetManifestUseCase::lookup("v1"), ManifestLookup::ByTag("v1".into()));
    assert!(GetManifestUseCase::cache_may_answer(&d));
    assert!(!GetManifestUseCase::cache_may_answer("latest"));
    let (digest, media) = GetManifestUseCase::proxied_manifest(b"{}", "application/vnd.docker.distribution.manifest.list.v2+json");
    assert_eq!(digest, digest_of(b"{}"));
    assert_eq!(media, DockerMediaType::DockerV2ManifestList);
    assert!(!DeleteManifestUseCase::releases_blobs(DockerMediaType::OciIndex));
    assert!(DeleteManifestUseCase::releases_blobs(DockerMediaType::DockerV2Manifest));
}

#[test]
fn an_index_is_never_held_to_the_quota_and_raises_no_refs() {
    let members = ManifestReferences::Members(vec!["sha256:aa".into()]);
    let blobs = ManifestReferences::Blobs(vec!["sha256:bb".into(), "sha256:cc".into()]);
    assert!(!PutManifestUseCase::charges_quota(&members));
    assert!(PutManifestUseCase::charges_quota(&blobs));
    assert_eq!(PutManifestUseCase::refs_to_increment(&members, true), Vec::<String>::new());
    assert_eq!(PutManifestUseCase::refs_to_increment(&blobs, false), Vec::<String>::new());
    assert_eq!(PutManifestUseCase::refs_to_increment(&blobs, true), vec!["sha256:bb".to_string(), "sha256:cc".to_string()]);
}

#[test]
fn deleting_a_missing_manifest_is_refused() {
    assert_eq!(DeleteManifestUseCase::require_manifest::<u128>(None), Err(ApplicationError::DockerManifestNotFound));
    assert_eq!(DeleteManifestUseCase::require_manifest(Some(7u128)), Ok(7));
}
