//! The Docker registry's own rules: content digests, manifest media types, which blobs a
//! manifest references, and the checks a push, an upload or a proxied fetch must pass.

use vstd::prelude::*;

use crate::api_token::lemma_hex_chars;
use crate::crypto::{hex_encode, hex_lower_spec, lemma_hex_len, sha256, sha256_spec};
use crate::error::{ApplicationError, DomainError};
use crate::json::{as_str, as_str_spec, get, get_spec, json_parse_error_spec, json_parse_spec, jview, parse_json, Json};
use crate::quota::{check_quota, quota_limit};
use crate::text::chars_of;

verus! {

pub const DIGEST_PREFIX: &'static str = "sha256:";

pub open spec fn is_lower_hex(c: char) -> bool {
    ('0' <= c <= '9') || ('a' <= c <= 'f')
}

/// A content digest as the registry writes it: `sha256:` and 64 lowercase hex digits.
pub open spec fn digest_valid(s: Seq<char>) -> bool {
    &&& s.len() == 71
    &&& s.subrange(0, 7) == DIGEST_PREFIX@
    &&& forall|i: int| 7 <= i < 71 ==> is_lower_hex(#[trigger] s[i])
}

/// The digest of some content: its SHA-256, in lowercase hex, after `sha256:`.
pub open spec fn digest_of_spec(bytes: Seq<u8>) -> Seq<char> {
    DIGEST_PREFIX@ + hex_lower_spec(sha256_spec(bytes))
}

/// The digest of `bytes`. It is always computed from the content, never taken from a client.
pub fn digest_of(bytes: &[u8]) -> (r: String)
    ensures
        r@ == digest_of_spec(bytes@),
        digest_valid(r@),
{
    let h = sha256(bytes);
    let hex = hex_encode(h.as_slice());
    let mut r = String::from_str(DIGEST_PREFIX);
    r.append(hex.as_str());
    proof {
        lemma_computed_digest_is_valid(bytes@);
    }
    r
}

/// A digest computed by this registry is always one it accepts.
proof fn lemma_computed_digest_is_valid(bytes: Seq<u8>)
    requires
        sha256_spec(bytes).len() == 32,
    ensures
        digest_valid(digest_of_spec(bytes)),
{
    let h = hex_lower_spec(sha256_spec(bytes));
    lemma_hex_len(sha256_spec(bytes));
    reveal_strlit("sha256:");
    let d = digest_of_spec(bytes);
    assert(d.subrange(0, 7) =~= DIGEST_PREFIX@);
    assert forall|i: int| 7 <= i < 71 implies is_lower_hex(#[trigger] d[i]) by {
        assert(d[i] == h[i - 7]);
        lemma_hex_chars(sha256_spec(bytes), i - 7);
    }
}

pub open spec fn invalid_digest_message(s: Seq<char>) -> Seq<char> {
    "invalid digest: "@ + s
}

/// Whether `s` is a digest reference (as opposed to a tag).
pub fn is_digest(s: &str) -> (r: bool)
    ensures
        r == digest_valid(s@),
{
    let chars = chars_of(s);
    if chars.len() != 71 {
        return false;
    }
    let prefix = chars_of(DIGEST_PREFIX);
    proof {
        reveal_strlit("sha256:");
    }
    let mut i: usize = 0;
    while i < 7
        invariant
            i <= 7,
            chars@ == s@,
            chars@.len() == 71,
            prefix@ == DIGEST_PREFIX@,
            prefix@.len() == 7,
            forall|j: int| 0 <= j < i ==> chars@[j] == prefix@[j],
        decreases 7 - i,
    {
        if chars[i] != prefix[i] {
            assert(s@.subrange(0, 7)[i as int] != DIGEST_PREFIX@[i as int]);
            return false;
        }
        i = i + 1;
    }
    assert(s@.subrange(0, 7) =~= DIGEST_PREFIX@);
    while i < 71
        invariant
            7 <= i <= 71,
            chars@ == s@,
            chars@.len() == 71,
            forall|j: int| 7 <= j < i ==> is_lower_hex(#[trigger] chars@[j]),
        decreases 71 - i,
    {
        let c = chars[i];
        if !(('0' <= c && c <= '9') || ('a' <= c && c <= 'f')) {
            return false;
        }
        i = i + 1;
    }
    true
}

/// Reads a digest reference, refusing anything else as an invalid payload.
pub fn parse_digest(s: &str) -> (r: Result<String, ApplicationError>)
    ensures
        digest_valid(s@) ==> (r matches Ok(d) && d@ == s@),
        !digest_valid(s@) ==> (r matches Err(ApplicationError::InvalidDockerPayload(m)) && m@ == invalid_digest_message(
            s@,
        )),
{
    if is_digest(s) {
        Ok(String::from_str(s))
    } else {
        let mut m = String::from_str("invalid digest: ");
        m.append(s);
        Err(ApplicationError::InvalidDockerPayload(m))
    }
}

/// The kinds of manifest the registry stores.
#[derive(Debug, Clone, Copy, PartialEq, Eq, Structural)]
pub enum DockerMediaType {
    DockerV2Manifest,
    DockerV2ManifestList,
    OciManifest,
    OciIndex,
}

pub const DOCKER_V2_MANIFEST: &'static str = "application/vnd.docker.distribution.manifest.v2+json";

pub const DOCKER_V2_MANIFEST_LIST: &'static str = "application/vnd.docker.distribution.manifest.list.v2+json";

pub const OCI_MANIFEST: &'static str = "application/vnd.oci.image.manifest.v1+json";

pub const OCI_INDEX: &'static str = "application/vnd.oci.image.index.v1+json";

pub open spec fn media_type_text(m: DockerMediaType) -> Seq<char> {
    match m {
        DockerMediaType::DockerV2Manifest => DOCKER_V2_MANIFEST@,
        DockerMediaType::DockerV2ManifestList => DOCKER_V2_MANIFEST_LIST@,
        DockerMediaType::OciManifest => OCI_MANIFEST@,
        DockerMediaType::OciIndex => OCI_INDEX@,
    }
}

impl DockerMediaType {
    pub open spec fn is_index_spec(self) -> bool {
        self == DockerMediaType::DockerV2ManifestList || self == DockerMediaType::OciIndex
    }

    /// Whether a manifest of this type lists other manifests rather than blobs.
    pub fn is_index(self) -> (r: bool)
        ensures
            r == self.is_index_spec(),
    {
        match self {
            DockerMediaType::DockerV2ManifestList => true,
            DockerMediaType::OciIndex => true,
            _ => false,
        }
    }

    /// The `Content-Type` a manifest of this type is served with.
    pub fn as_str(self) -> (r: &'static str)
        ensures
            r@ == media_type_text(self),
    {
        match self {
            DockerMediaType::DockerV2Manifest => DOCKER_V2_MANIFEST,
            DockerMediaType::DockerV2ManifestList => DOCKER_V2_MANIFEST_LIST,
            DockerMediaType::OciManifest => OCI_MANIFEST,
            DockerMediaType::OciIndex => OCI_INDEX,
        }
    }

    /// The media type a `Content-Type` names, if it names one of the four.
    pub fn parse(text: &str) -> (r: Option<DockerMediaType>)
        ensures
            match r {
                Some(m) => media_type_text(m) == text@,
                None => forall|m: DockerMediaType| media_type_text(m) != text@,
            },
    {
        if crate::text::str_eq(text, DOCKER_V2_MANIFEST) {
            Some(DockerMediaType::DockerV2Manifest)
        } else if crate::text::str_eq(text, DOCKER_V2_MANIFEST_LIST) {
            Some(DockerMediaType::DockerV2ManifestList)
        } else if crate::text::str_eq(text, OCI_MANIFEST) {
            Some(DockerMediaType::OciManifest)
        } else if crate::text::str_eq(text, OCI_INDEX) {
            Some(DockerMediaType::OciIndex)
        } else {
            proof {
                assert forall|m: DockerMediaType| media_type_text(m) != text@ by {
                    match m {
                        DockerMediaType::DockerV2Manifest => {},
                        DockerMediaType::DockerV2ManifestList => {},
                        DockerMediaType::OciManifest => {},
                        DockerMediaType::OciIndex => {},
                    }
                }
            }
            None
        }
    }
}

/// The media type of a manifest fetched from a remote, going by its `Content-Type`: trusted, or
/// a manifest list would be misread as a single image; a plain Docker manifest when unknown.
pub fn media_type_or_default(content_type: &str) -> (r: DockerMediaType)
    ensures
        (exists|m: DockerMediaType| media_type_text(m) == content_type@) ==> media_type_text(r) == content_type@,
        (forall|m: DockerMediaType| media_type_text(m) != content_type@) ==> r == DockerMediaType::DockerV2Manifest,
{
    match DockerMediaType::parse(content_type) {
        Some(m) => m,
        None => DockerMediaType::DockerV2Manifest,
    }
}

/// The digests an array's entries give under `digest`, in order; entries without a string
/// `digest` are passed over.
pub open spec fn entry_digests(entries: Seq<Json>) -> Seq<Seq<char>>
    decreases entries.len(),
{
    if entries.len() == 0 {
        Seq::empty()
    } else {
        let rest = entry_digests(entries.drop_last());
        match as_str_spec(get_spec(entries.last(), "digest"@)) {
            Some(d) => rest.push(d),
            None => rest,
        }
    }
}

/// The digests an image manifest references: its config's, then every layer's.
pub open spec fn blob_references(body: Json) -> Seq<Seq<char>> {
    let config = match get_spec(body, "config"@) {
        Some(c) => match as_str_spec(get_spec(c, "digest"@)) {
            Some(d) => seq![d],
            None => Seq::empty(),
        },
        None => Seq::empty(),
    };
    let layers = match get_spec(body, "layers"@) {
        Some(Json::Array(items)) => entry_digests(items@),
        _ => Seq::empty(),
    };
    config + layers
}

/// The member digests a manifest list or index references.
pub open spec fn member_references(body: Json) -> Seq<Seq<char>> {
    match get_spec(body, "manifests"@) {
        Some(Json::Array(items)) => entry_digests(items@),
        _ => Seq::empty(),
    }
}

pub open spec fn all_digests_valid(refs: Seq<Seq<char>>) -> bool {
    forall|i: int| 0 <= i < refs.len() ==> digest_valid(#[trigger] refs[i])
}

/// The first reference that is no valid digest.
pub open spec fn first_invalid(refs: Seq<Seq<char>>) -> Seq<char>
    decreases refs.len(),
{
    if refs.len() == 0 {
        Seq::empty()
    } else if !digest_valid(refs[0]) {
        refs[0]
    } else {
        first_invalid(refs.drop_first())
    }
}

pub open spec fn extraction_ok(refs: Seq<Seq<char>>, r: Result<Vec<String>, ApplicationError>) -> bool {
    if all_digests_valid(refs) {
        r matches Ok(v) && strings_of(v@) == refs
    } else {
        r matches Err(ApplicationError::InvalidDockerPayload(m)) && m@ == invalid_digest_message(first_invalid(refs))
    }
}

pub open spec fn strings_of(v: Seq<String>) -> Seq<Seq<char>> {
    v.map_values(|s: String| s@)
}

proof fn lemma_first_invalid_step(refs: Seq<Seq<char>>, i: int)
    requires
        0 <= i < refs.len(),
        forall|j: int| 0 <= j < i ==> digest_valid(#[trigger] refs[j]),
        !digest_valid(refs[i]),
    ensures
        first_invalid(refs) == refs[i],
        !all_digests_valid(refs),
    decreases i,
{
    if i > 0 {
        assert forall|j: int| 0 <= j < i - 1 implies digest_valid(#[trigger] refs.drop_first()[j]) by {
            assert(refs.drop_first()[j] == refs[j + 1]);
        }
        lemma_first_invalid_step(refs.drop_first(), i - 1);
    }
}

/// Parses each reference in turn; the first that is no digest makes the payload invalid.
fn parse_all(refs: &Vec<String>) -> (r: Result<Vec<String>, ApplicationError>)
    ensures
        extraction_ok(strings_of(refs@), r),
{
    let ghost rv = strings_of(refs@);
    let mut out: Vec<String> = Vec::new();
    let mut i: usize = 0;
    while i < refs.len()
        invariant
            i <= refs@.len(),
            rv == strings_of(refs@),
            strings_of(out@) == rv.subrange(0, i as int),
            forall|j: int| 0 <= j < i ==> digest_valid(#[trigger] rv[j]),
        decreases refs@.len() - i,
    {
        assert(rv[i as int] == refs@[i as int]@);
        match parse_digest(refs[i].as_str()) {
            Ok(d) => {
                assert(digest_valid(rv[i as int]));
                assert(d@ == rv[i as int]);
                let ghost before = strings_of(out@);
                out.push(d);
                assert(strings_of(out@) =~= before.push(rv[i as int]));
                assert(strings_of(out@) =~= rv.subrange(0, i + 1));
            },
            Err(e) => {
                proof {
                    lemma_first_invalid_step(rv, i as int);
                }
                return Err(e);
            },
        }
        i = i + 1;
    }
    assert(rv.subrange(0, refs@.len() as int) =~= rv);
    Ok(out)
}

fn collect_entry_digests(items: &Vec<Json>, out: &mut Vec<String>)
    ensures
        strings_of(final(out)@) == strings_of(old(out)@) + entry_digests(items@),
{
    let ghost start = strings_of(out@);
    let mut i: usize = 0;
    while i < items.len()
        invariant
            i <= items@.len(),
            strings_of(out@) == start + entry_digests(items@.subrange(0, i as int)),
        decreases items@.len() - i,
    {
        assert(items@.subrange(0, i + 1).drop_last() =~= items@.subrange(0, i as int));
        match as_str(get(&items[i], "digest")) {
            Some(d) => {
                let ghost before = strings_of(out@);
                out.push(d.clone());
                assert(strings_of(out@) =~= before.push(d@));
            },
            None => {},
        }
        i = i + 1;
    }
    assert(items@.subrange(0, items@.len() as int) =~= items@);
}

/// Every blob digest a single-image manifest references: `config.digest`, then each
/// `layers[].digest`; the payload is invalid if one of them is no digest.
pub fn extract_blob_digests(body: &Json) -> (r: Result<Vec<String>, ApplicationError>)
    ensures
        extraction_ok(blob_references(*body), r),
{
    let mut refs: Vec<String> = Vec::new();
    match get(body, "config") {
        Some(c) => match as_str(get(c, "digest")) {
            Some(d) => {
                refs.push(d.clone());
            },
            None => {},
        },
        None => {},
    }
    assert(strings_of(refs@) =~= match get_spec(*body, "config"@) {
        Some(c) => match as_str_spec(get_spec(c, "digest"@)) {
            Some(d) => seq![d],
            None => Seq::<Seq<char>>::empty(),
        },
        None => Seq::<Seq<char>>::empty(),
    });
    match get(body, "layers") {
        Some(Json::Array(items)) => {
            collect_entry_digests(items, &mut refs);
        },
        _ => {
            assert(strings_of(refs@) =~= strings_of(refs@) + Seq::<Seq<char>>::empty());
        },
    }
    parse_all(&refs)
}

/// Every member digest a manifest list or OCI index references (`manifests[].digest`).
pub fn extract_manifest_list_member_digests(body: &Json) -> (r: Result<Vec<String>, ApplicationError>)
    ensures
        extraction_ok(member_references(*body), r),
{
    let mut refs: Vec<String> = Vec::new();
    match get(body, "manifests") {
        Some(Json::Array(items)) => {
            collect_entry_digests(items, &mut refs);
            assert(strings_of(refs@) =~= entry_digests(items@));
        },
        _ => {
            assert(strings_of(refs@) =~= Seq::<Seq<char>>::empty());
        },
    }
    parse_all(&refs)
}

/// What a pushed manifest references: member manifests for a list or index, blobs otherwise.
#[derive(Debug, Clone, PartialEq, Eq)]
pub enum ManifestReferences {
    Members(Vec<String>),
    Blobs(Vec<String>),
}

/// A pushed manifest once read: its digest and what it references.
#[derive(Debug, Clone, PartialEq, Eq)]
pub struct PreparedManifest {
    pub digest: String,
    pub references: ManifestReferences,
}

/// What reading a manifest body that parsed as `body` gives: for the references the media type
/// calls for, all valid, the digest of the raw bytes and those references; otherwise the first
/// invalid one refused.
pub open spec fn prepared_from(
    raw_body: Seq<u8>,
    body: Json,
    media_type: DockerMediaType,
    r: Result<PreparedManifest, ApplicationError>,
) -> bool {
    let refs = if media_type.is_index_spec() {
        member_references(body)
    } else {
        blob_references(body)
    };
    &&& all_digests_valid(refs) ==> (r matches Ok(p) && p.digest@ == digest_of_spec(raw_body) && (if media_type.is_index_spec() {
        p.references matches ManifestReferences::Members(v) && strings_of(v@) == refs
    } else {
        p.references matches ManifestReferences::Blobs(v) && strings_of(v@) == refs
    }))
    &&& !all_digests_valid(refs) ==> (r matches Err(ApplicationError::InvalidDockerPayload(m)) && m@
        == invalid_digest_message(first_invalid(refs)))
}

/// Storing a pushed manifest. The caller reads and writes the stores; these steps decide.
pub struct PutManifestUseCase {}

impl PutManifestUseCase {
    /// Reads a pushed manifest: its digest is computed from `raw_body` (never trusted from the
    /// client), and the body is parsed as JSON only to find what it references (the manifest
    /// itself is stored as `raw_body`, verbatim). Bytes that are not JSON are refused with the
    /// parser's message.
    pub fn prepare(raw_body: &[u8], media_type: DockerMediaType) -> (r: Result<PreparedManifest, ApplicationError>)
        ensures
            match json_parse_spec(raw_body@) {
                None => r matches Err(ApplicationError::InvalidDockerPayload(m)) && m@ == json_parse_error_spec(raw_body@),
                Some(v) => exists|body: Json| #[trigger] jview(body) == v && prepared_from(raw_body@, body, media_type, r),
            },
    {
        let digest = digest_of(raw_body);
        let body = match parse_json(raw_body) {
            Ok(b) => b,
            Err(e) => {
                return Err(ApplicationError::InvalidDockerPayload(e));
            },
        };
        let r = if media_type.is_index() {
            match extract_manifest_list_member_digests(&body) {
                Ok(v) => Ok(PreparedManifest { digest, references: ManifestReferences::Members(v) }),
                Err(e) => Err(e),
            }
        } else {
            match extract_blob_digests(&body) {
                Ok(v) => Ok(PreparedManifest { digest, references: ManifestReferences::Blobs(v) }),
                Err(e) => Err(e),
            }
        };
        assert(prepared_from(raw_body@, body, media_type, r));
        r
    }

    /// Every referenced blob must be reachable from the pushing repository (referenced by one
    /// of its manifests, or uploaded to it): blobs are stored once for everyone, so merely
    /// existing is not enough, or a pusher could mount another repository's private blob.
    /// `reachable[i]` says it of the `i`-th blob.
    pub fn check_blobs_reachable(reachable: &Vec<bool>) -> (r: Result<(), ApplicationError>)
        ensures
            (forall|i: int| 0 <= i < reachable@.len() ==> #[trigger] reachable@[i]) ==> r is Ok,
            (exists|i: int| 0 <= i < reachable@.len() && !#[trigger] reachable@[i]) ==> r == Err::<(), ApplicationError>(
                ApplicationError::DockerBlobNotFound,
            ),
    {
        let mut i: usize = 0;
        while i < reachable.len()
            invariant
                i <= reachable@.len(),
                forall|j: int| 0 <= j < i ==> #[trigger] reachable@[j],
            decreases reachable@.len() - i,
        {
            if !reachable[i] {
                return Err(ApplicationError::DockerBlobNotFound);
            }
            i = i + 1;
        }
        Ok(())
    }

    /// The quota check a manifest push makes: it is the push that attributes bytes to a
    /// repository. `added_bytes` sums every referenced blob, which over-counts on purpose.
    pub fn check_quota(quota_bytes: Option<i64>, used_bytes: u64, added_bytes: u64) -> (r: Result<(), ApplicationError>)
        requires
            used_bytes + added_bytes <= u64::MAX,
        ensures
            match quota_bytes {
                Some(q) if used_bytes + added_bytes > quota_limit(q) => r == Err::<(), ApplicationError>(
                    ApplicationError::StorageQuotaExceeded,
                ),
                _ => r is Ok,
            },
    {
        check_quota(quota_bytes, used_bytes, added_bytes)
    }

    /// Whether a push is held to the repository's quota (and its blobs to reachability): an
    /// image manifest attributes its blobs' bytes to the repository; a list or index never
    /// does, since its members hold their own blobs.
    pub fn charges_quota(references: &ManifestReferences) -> (r: bool)
        ensures
            r <==> references is Blobs,
    {
        match references {
            ManifestReferences::Blobs(_) => true,
            ManifestReferences::Members(_) => false,
        }
    }

    /// The blobs whose reference counts rise once the manifest row is written: those of an
    /// image manifest, and only when the row was newly inserted (re-pushing identical content
    /// would otherwise leak a count); none for a list or index, whose members hold their own.
    pub fn refs_to_increment(references: &ManifestReferences, inserted: bool) -> (r: Vec<String>)
        ensures
            r@ == (match references {
                ManifestReferences::Blobs(v) => if inserted {
                    v@
                } else {
                    Seq::<String>::empty()
                },
                ManifestReferences::Members(_) => Seq::<String>::empty(),
            }),
    {
        match references {
            ManifestReferences::Blobs(v) => if inserted {
                v.clone()
            } else {
                Vec::new()
            },
            ManifestReferences::Members(_) => Vec::new(),
        }
    }

    /// A reference that is a digest is not tagged: the manifest is already reachable by it.
    pub fn should_tag(reference: &str) -> (r: bool)
        ensures
            r == !digest_valid(reference@),
    {
        !is_digest(reference)
    }
}

/// An upload session: bytes staged for one repository until the blob is completed.
#[derive(Debug, Clone, PartialEq, Eq)]
pub struct DockerUploadSession {
    pub id: u128,
    pub package_repository_id: u128,
    pub staging_path: String,
    pub bytes_received: i64,
    pub created_at: i64,
    pub expires_at: i64,
}

/// The session, if it exists and belongs to `repository_id`; a foreign session is treated the
/// same as a missing one.
pub fn own_session(session: Option<DockerUploadSession>, repository_id: u128) -> (r: Result<
    DockerUploadSession,
    ApplicationError,
>)
    ensures
        match session {
            Some(s) if s.package_repository_id == repository_id => r == Ok::<DockerUploadSession, ApplicationError>(s),
            _ => r == Err::<DockerUploadSession, ApplicationError>(ApplicationError::DockerUploadSessionNotFound),
        },
{
    match session {
        Some(s) => {
            if s.package_repository_id == repository_id {
                Ok(s)
            } else {
                Err(ApplicationError::DockerUploadSessionNotFound)
            }
        },
        None => Err(ApplicationError::DockerUploadSessionNotFound),
    }
}

/// What appending a chunk reports: the new offset, or a client offset that no longer matches
/// the staged bytes, or another failure.
pub fn chunk_outcome(appended: Result<i64, DomainError>) -> (r: Result<i64, ApplicationError>)
    ensures
        match appended {
            Ok(n) => r == Ok::<i64, ApplicationError>(n),
            Err(DomainError::ChunkOffsetMismatch { expected, got }) => r == Err::<i64, ApplicationError>(
                ApplicationError::DockerChunkOffsetMismatch { expected, got },
            ),
            Err(e) => r == Err::<i64, ApplicationError>(ApplicationError::Domain(e)),
        },
{
    match appended {
        Ok(n) => Ok(n),
        Err(DomainError::ChunkOffsetMismatch { expected, got }) => Err(ApplicationError::DockerChunkOffsetMismatch { expected, got }),
        Err(e) => Err(ApplicationError::Domain(e)),
    }
}

/// Stored content must hash to the digest it is stored under: uploads and proxied blobs are
/// checked before they are kept.
pub fn check_digest(expected: &str, computed: &str) -> (r: Result<(), ApplicationError>)
    ensures
        expected@ == computed@ ==> r is Ok,
        expected@ != computed@ ==> (r matches Err(ApplicationError::DockerDigestMismatch { expected: e, computed: c })
            && e@ == expected@ && c@ == computed@),
{
    if crate::text::str_eq(expected, computed) {
        Ok(())
    } else {
        Err(ApplicationError::DockerDigestMismatch { expected: String::from_str(expected), computed: String::from_str(computed) })
    }
}

pub const NO_REMOTE_URL: &'static str = "proxy repository has no remote_url configured";

/// A proxy repository's remote, or the payload error for one configured without.
pub fn proxy_remote_url(remote_url: &Option<String>) -> (r: Result<String, ApplicationError>)
    ensures
        match remote_url {
            Some(u) => r matches Ok(v) && v@ == u@,
            None => r matches Err(ApplicationError::InvalidDockerPayload(m)) && m@ == NO_REMOTE_URL@,
        },
{
    match remote_url {
        Some(u) => Ok(u.clone()),
        None => Err(ApplicationError::InvalidDockerPayload(String::from_str(NO_REMOTE_URL))),
    }
}

} // verus!
