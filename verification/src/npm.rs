//! The npm registry's own rules: where a tarball is stored, its checksums, which version the
//! `latest` tag follows, the metadata document served for a package, and when a proxy's cached
//! copy must be refreshed.

use vstd::prelude::*;

use crate::crypto::{b64std_encode, b64std_spec, hex_encode, hex_lower_spec, sha1, sha1_spec, sha512, sha512_spec};
use crate::error::ApplicationError;
use crate::json::{
    get, get_spec, insert_member, json_clone, jview, lemma_object_view, lemma_with_member_view, members_view, with_member_v,
    Json, JsonV,
};
use crate::quota::{check_quota, quota_limit};
use crate::text::{chars_of, has_char, contains_char};

verus! {

/// Whether a package version was published here or cached from a proxy's remote.
#[derive(Debug, Clone, Copy, PartialEq, Eq, Structural)]
pub enum NpmPackageOrigin {
    Local,
    ProxyCache,
}

/// A package of one repository. A proxy keeps the remote's metadata document and when it was
/// fetched (Unix nanoseconds: its age is measured finer than a second).
#[derive(Debug, PartialEq)]
pub struct NpmPackage {
    pub id: u128,
    pub package_repository_id: u128,
    pub name: String,
    pub created_at: i64,
    pub updated_at: i64,
    pub metadata_fetched_at: Option<i128>,
    pub cached_metadata: Option<Json>,
}

/// One published (or cached) version of a package.
#[derive(Debug, PartialEq)]
pub struct NpmPackageVersion {
    pub id: u128,
    pub npm_package_id: u128,
    pub version: String,
    pub manifest: Json,
    pub shasum: String,
    pub integrity: String,
    pub tarball_storage_key: String,
    pub tarball_size_bytes: i64,
    pub deprecated: bool,
    pub deprecated_message: Option<String>,
    pub published_by: Option<u128>,
    pub published_at: i64,
    pub origin: NpmPackageOrigin,
}

/// A dist-tag: a name pointing at a version.
#[derive(Debug, Clone, PartialEq, Eq)]
pub struct NpmDistTag {
    pub tag: String,
    pub version: String,
}

/// The name without its scope: what follows the last `/`, or the whole name.
pub open spec fn local_name_spec(name: Seq<char>) -> Seq<char>
    decreases name.len(),
{
    if name.len() == 0 {
        name
    } else if name.last() == '/' {
        Seq::empty()
    } else {
        local_name_spec(name.drop_last()).push(name.last())
    }
}

/// The name with its leading `@`s taken off.
pub open spec fn without_leading_ats(name: Seq<char>) -> Seq<char>
    decreases name.len(),
{
    if name.len() > 0 && name[0] == '@' {
        without_leading_ats(name.drop_first())
    } else {
        name
    }
}

/// Where a version's tarball is stored: `<name without @>/-/<local name>-<version>.tgz`. It is
/// derived here, never from a client's file name, which could overwrite another version.
pub open spec fn tarball_storage_key_spec(name: Seq<char>, version: Seq<char>) -> Seq<char> {
    without_leading_ats(name) + "/-/"@ + local_name_spec(name) + "-"@ + version + ".tgz"@
}

pub fn local_name(name: &str) -> (r: String)
    ensures
        r@ == local_name_spec(name@),
{
    let chars = chars_of(name);
    let mut r = String::new();
    let mut i: usize = 0;
    while i < chars.len()
        invariant
            i <= chars@.len(),
            chars@ == name@,
            r@ == local_name_spec(name@.subrange(0, i as int)),
        decreases chars@.len() - i,
    {
        assert(name@.subrange(0, i + 1).drop_last() =~= name@.subrange(0, i as int));
        if chars[i] == '/' {
            r = String::new();
        } else {
            crate::text::string_push(&mut r, chars[i]);
        }
        i = i + 1;
    }
    assert(name@.subrange(0, chars@.len() as int) =~= name@);
    r
}

pub fn trim_leading_ats(name: &str) -> (r: String)
    ensures
        r@ == without_leading_ats(name@),
{
    let chars = chars_of(name);
    let mut start: usize = 0;
    assert(name@.subrange(0, name@.len() as int) =~= name@);
    while start < chars.len() && chars[start] == '@'
        invariant
            start <= chars@.len(),
            chars@ == name@,
            without_leading_ats(name@) == without_leading_ats(name@.subrange(start as int, name@.len() as int)),
        decreases chars@.len() - start,
    {
        assert(name@.subrange(start as int, name@.len() as int).drop_first() =~= name@.subrange(
            start + 1,
            name@.len() as int,
        ));
        start = start + 1;
    }
    let mut r = String::new();
    let mut i: usize = start;
    while i < chars.len()
        invariant
            start <= i <= chars@.len(),
            chars@ == name@,
            r@ == name@.subrange(start as int, i as int),
        decreases chars@.len() - i,
    {
        crate::text::string_push(&mut r, chars[i]);
        assert(r@ =~= name@.subrange(start as int, i + 1));
        i = i + 1;
    }
    proof {
        assert(name@.subrange(0, name@.len() as int) =~= name@);
    }
    r
}

pub fn tarball_storage_key(name: &str, version: &str) -> (r: String)
    ensures
        r@ == tarball_storage_key_spec(name@, version@),
{
    let mut r = trim_leading_ats(name);
    r.append("/-/");
    let local = local_name(name);
    r.append(local.as_str());
    r.append("-");
    r.append(version);
    r.append(".tgz");
    r
}

/// npm's convention: publishing a prerelease (a version with a `-` suffix, such as
/// `1.0.0-beta.1`) never moves `latest`.
pub fn moves_latest(version: &str) -> (r: bool)
    ensures
        r == !has_char(version@, '-'),
{
    !contains_char(version, '-')
}

/// The `latest` dist-tag after `version` is published over `previous`: the new version for a
/// release, `previous` unchanged for a prerelease.
pub fn latest_after_publish(previous: Option<String>, version: &str) -> (r: Option<String>)
    ensures
        !has_char(version@, '-') ==> (r matches Some(l) && l@ == version@),
        has_char(version@, '-') ==> r == previous,
{
    if moves_latest(version) {
        Some(String::from_str(version))
    } else {
        previous
    }
}

/// The `shasum` of a tarball: lowercase hex of its SHA-1.
pub open spec fn shasum_spec(tarball: Seq<u8>) -> Seq<char> {
    hex_lower_spec(sha1_spec(tarball))
}

/// The `integrity` of a tarball: `sha512-` and the standard base64 of its SHA-512.
pub open spec fn integrity_spec(tarball: Seq<u8>) -> Seq<char> {
    "sha512-"@ + b64std_spec(sha512_spec(tarball))
}

pub fn tarball_shasum(tarball: &[u8]) -> (r: String)
    ensures
        r@ == shasum_spec(tarball@),
{
    let digest = sha1(tarball);
    hex_encode(digest.as_slice())
}

pub fn tarball_integrity(tarball: &[u8]) -> (r: String)
    ensures
        r@ == integrity_spec(tarball@),
{
    let digest = sha512(tarball);
    let encoded = b64std_encode(digest.as_slice());
    let mut r = String::from_str("sha512-");
    r.append(encoded.as_str());
    r
}

/// A version record as stored: checksums computed here from the tarball (never trusted from a
/// client or a remote), the tarball's key derived from name and version, not deprecated.
pub open spec fn version_record_ok(
    r: NpmPackageVersion,
    id: u128,
    package_id: u128,
    name: Seq<char>,
    version: Seq<char>,
    manifest: Json,
    tarball: Seq<u8>,
    published_by: Option<u128>,
    published_at: i64,
    origin: NpmPackageOrigin,
) -> bool {
    &&& r.id == id
    &&& r.npm_package_id == package_id
    &&& r.version@ == version
    &&& r.manifest == manifest
    &&& r.shasum@ == shasum_spec(tarball)
    &&& r.integrity@ == integrity_spec(tarball)
    &&& r.tarball_storage_key@ == tarball_storage_key_spec(name, version)
    &&& r.tarball_size_bytes == tarball.len()
    &&& !r.deprecated
    &&& r.deprecated_message is None
    &&& r.published_by == published_by
    &&& r.published_at == published_at
    &&& r.origin == origin
}

fn version_record(
    id: u128,
    package_id: u128,
    name: &str,
    version: &str,
    manifest: Json,
    tarball: &[u8],
    published_by: Option<u128>,
    published_at: i64,
    origin: NpmPackageOrigin,
) -> (r: NpmPackageVersion)
    requires
        tarball@.len() <= i64::MAX,
    ensures
        version_record_ok(r, id, package_id, name@, version@, manifest, tarball@, published_by, published_at, origin),
{
    NpmPackageVersion {
        id,
        npm_package_id: package_id,
        version: String::from_str(version),
        manifest,
        shasum: tarball_shasum(tarball),
        integrity: tarball_integrity(tarball),
        tarball_storage_key: tarball_storage_key(name, version),
        tarball_size_bytes: tarball.len() as i64,
        deprecated: false,
        deprecated_message: None,
        published_by,
        published_at,
        origin,
    }
}

/// Publishing a version to a hosted repository. The stores are read and written by the caller.
pub struct PublishNpmPackageUseCase {}

impl PublishNpmPackageUseCase {
    /// A version is published once: an existing one is refused before the quota is looked at;
    /// then the tarball must fit in the repository's quota.
    pub fn check(version_exists: bool, quota_bytes: Option<i64>, used_bytes: u64, tarball_len: u64) -> (r: Result<
        (),
        ApplicationError,
    >)
        requires
            used_bytes + tarball_len <= u64::MAX,
        ensures
            version_exists ==> r == Err::<(), ApplicationError>(ApplicationError::PackageVersionExists),
            !version_exists ==> match quota_bytes {
                Some(q) if used_bytes + tarball_len > quota_limit(q) => r == Err::<(), ApplicationError>(
                    ApplicationError::StorageQuotaExceeded,
                ),
                _ => r is Ok,
            },
    {
        if version_exists {
            return Err(ApplicationError::PackageVersionExists);
        }
        check_quota(quota_bytes, used_bytes, tarball_len)
    }

    /// The record of a version published by `publisher_id`.
    pub fn version_record(
        id: u128,
        package_id: u128,
        name: &str,
        version: &str,
        manifest: Json,
        tarball: &[u8],
        publisher_id: u128,
        published_at: i64,
    ) -> (r: NpmPackageVersion)
        requires
            tarball@.len() <= i64::MAX,
        ensures
            version_record_ok(
                r,
                id,
                package_id,
                name@,
                version@,
                manifest,
                tarball@,
                Some(publisher_id),
                published_at,
                NpmPackageOrigin::Local,
            ),
    {
        version_record(id, package_id, name, version, manifest, tarball, Some(publisher_id), published_at, NpmPackageOrigin::Local)
    }
}

/// `value?.key`: the member of an object, if the value is one.
pub open spec fn get_in(value: Option<Json>, key: Seq<char>) -> Option<Json> {
    match value {
        Some(v) => get_spec(v, key),
        None => None,
    }
}

fn get_opt<'a>(value: Option<&'a Json>, key: &str) -> (r: Option<&'a Json>)
    ensures
        match r {
            Some(x) => get_in(
                match value {
                    Some(v) => Some(*v),
                    None => None,
                },
                key@,
            ) == Some(*x),
            None => get_in(
                match value {
                    Some(v) => Some(*v),
                    None => None,
                },
                key@,
            ) is None,
        },
{
    match value {
        Some(v) => get(v, key),
        None => None,
    }
}

/// Where a cached metadata document says a version's tarball is: `versions.<v>.dist.tarball`.
pub open spec fn tarball_url_spec(cached: Json, version: Seq<char>) -> Option<Seq<char>> {
    match get_in(get_in(get_in(Some(cached), "versions"@), version), "dist"@) {
        Some(dist) => match get_spec(dist, "tarball"@) {
            Some(Json::Str(s)) => Some(s@),
            _ => None,
        },
        None => None,
    }
}

/// Downloading a tarball; through a proxy, a tarball not cached yet is fetched from the URL its
/// cached metadata names and stored.
pub struct DownloadNpmTarballUseCase {}

/// What a proxied tarball download does next.
#[derive(Debug, Clone, PartialEq, Eq)]
pub enum ProxyTarballPlan {
    /// Nothing can be served: no package, no cached metadata, or no tarball URL for the version.
    NotFound,
    /// The version is already cached: served from the cache, the remote never asked.
    ServeCached,
    /// Fetched from this remote URL, then checksummed and cached.
    Fetch(String),
}

impl DownloadNpmTarballUseCase {
    /// Decides a proxied download: whether the package is known, whether the version is
    /// already cached, and the package's cached metadata. The remote is reached only when the
    /// version is not cached and the metadata names its tarball.
    pub fn plan_proxy_download(
        package_found: bool,
        version_cached: bool,
        cached_metadata: &Option<Json>,
        version: &str,
    ) -> (r: ProxyTarballPlan)
        ensures
            !package_found ==> r == ProxyTarballPlan::NotFound,
            package_found && version_cached ==> r == ProxyTarballPlan::ServeCached,
            package_found && !version_cached ==> match cached_metadata {
                None => r == ProxyTarballPlan::NotFound,
                Some(m) => match tarball_url_spec(*m, version@) {
                    None => r == ProxyTarballPlan::NotFound,
                    Some(u) => r matches ProxyTarballPlan::Fetch(x) && x@ == u,
                },
            },
    {
        if !package_found {
            return ProxyTarballPlan::NotFound;
        }
        if version_cached {
            return ProxyTarballPlan::ServeCached;
        }
        match cached_metadata {
            None => ProxyTarballPlan::NotFound,
            Some(m) => match Self::proxy_tarball_url(m, version) {
                None => ProxyTarballPlan::NotFound,
                Some(u) => ProxyTarballPlan::Fetch(u),
            },
        }
    }

    /// The remote tarball URL of `version`, from the proxy's cached metadata.
    pub fn proxy_tarball_url(cached: &Json, version: &str) -> (r: Option<String>)
        ensures
            match r {
                Some(u) => tarball_url_spec(*cached, version@) == Some(u@),
                None => tarball_url_spec(*cached, version@) is None,
            },
    {
        let versions = get(cached, "versions");
        let entry = get_opt(versions, version);
        let dist = get_opt(entry, "dist");
        match get_opt(dist, "tarball") {
            Some(Json::Str(s)) => Some(s.clone()),
            _ => None,
        }
    }

    /// The manifest cached for `version` (`versions.<v>`), or an empty object.
    pub fn proxy_manifest(cached: &Json, version: &str) -> (r: Json)
        ensures
            match get_in(Some(*cached), "versions"@) {
                Some(vs) => match get_spec(vs, version@) {
                    Some(m) => jview(r) == jview(m),
                    None => jview(r) == JsonV::Object(Seq::empty()),
                },
                None => jview(r) == JsonV::Object(Seq::empty()),
            },
    {
        let entry = get_opt(get(cached, "versions"), version);
        match entry {
            Some(m) => json_clone(m),
            None => {
                let empty: Vec<(String, Json)> = Vec::new();
                proof {
                    lemma_object_view(empty);
                    assert(members_view(empty@) =~= Seq::<(Seq<char>, JsonV)>::empty());
                }
                Json::Object(empty)
            },
        }
    }

    /// The record of a version cached from a proxy's remote: nobody published it here.
    pub fn proxy_version_record(
        id: u128,
        package_id: u128,
        name: &str,
        version: &str,
        manifest: Json,
        tarball: &[u8],
        fetched_at: i64,
    ) -> (r: NpmPackageVersion)
        requires
            tarball@.len() <= i64::MAX,
        ensures
            version_record_ok(
                r,
                id,
                package_id,
                name@,
                version@,
                manifest,
                tarball@,
                None,
                fetched_at,
                NpmPackageOrigin::ProxyCache,
            ),
    {
        version_record(id, package_id, name, version, manifest, tarball, None, fetched_at, NpmPackageOrigin::ProxyCache)
    }
}

/// How long a proxy's cached metadata is served before it is fetched again: five minutes, in
/// nanoseconds.
pub const PROXY_METADATA_TTL_NANOS: i128 = 300_000_000_000;

/// The manifest of a version as served: with its `dist` checksums, and its deprecation message
/// (npm reads the message as the field's value; no field means not deprecated). A manifest that
/// is no object is served as stored.
pub open spec fn served_manifest(
    manifest: JsonV,
    shasum: Seq<char>,
    integrity: Seq<char>,
    deprecated: bool,
    message: Option<Seq<char>>,
) -> JsonV {
    match manifest {
        JsonV::Object(ms) => {
            let with_dist = with_member_v(
                ms,
                "dist"@,
                JsonV::Object(seq![("shasum"@, JsonV::Str(shasum)), ("integrity"@, JsonV::Str(integrity))]),
            );
            JsonV::Object(
                if deprecated && message is Some {
                    with_member_v(with_dist, "deprecated"@, JsonV::Str(message.unwrap()))
                } else {
                    with_dist
                },
            )
        },
        other => other,
    }
}

pub open spec fn opt_view(o: Option<String>) -> Option<Seq<char>> {
    match o {
        Some(s) => Some(s@),
        None => None,
    }
}

/// The `versions` object: each version under its number, a later one replacing an earlier one
/// with the same number.
pub open spec fn versions_members(vs: Seq<NpmPackageVersion>) -> Seq<(Seq<char>, JsonV)>
    decreases vs.len(),
{
    if vs.len() == 0 {
        Seq::empty()
    } else {
        let v = vs.last();
        with_member_v(
            versions_members(vs.drop_last()),
            v.version@,
            served_manifest(jview(v.manifest), v.shasum@, v.integrity@, v.deprecated, opt_view(v.deprecated_message)),
        )
    }
}

/// The `dist-tags` object: each tag naming its version.
pub open spec fn dist_tag_members(tags: Seq<NpmDistTag>) -> Seq<(Seq<char>, JsonV)>
    decreases tags.len(),
{
    if tags.len() == 0 {
        Seq::empty()
    } else {
        with_member_v(dist_tag_members(tags.drop_last()), tags.last().tag@, JsonV::Str(tags.last().version@))
    }
}

/// The metadata document npm clients read for a package.
pub open spec fn metadata_document(name: Seq<char>, vs: Seq<NpmPackageVersion>, tags: Seq<NpmDistTag>) -> JsonV {
    JsonV::Object(
        seq![
            ("_id"@, JsonV::Str(name)),
            ("name"@, JsonV::Str(name)),
            ("dist-tags"@, JsonV::Object(dist_tag_members(tags))),
            ("versions"@, JsonV::Object(versions_members(vs))),
        ],
    )
}

fn served_manifest_exec(v: NpmPackageVersion) -> (r: Json)
    ensures
        jview(r) == served_manifest(jview(v.manifest), v.shasum@, v.integrity@, v.deprecated, opt_view(v.deprecated_message)),
{
    let NpmPackageVersion { manifest, shasum, integrity, deprecated, deprecated_message, .. } = v;
    match manifest {
        Json::Object(members) => {
            let mut members = members;
            let ghost m0 = members@;
            let dist_members: Vec<(String, Json)> = vec![
                (String::from_str("shasum"), Json::Str(shasum)),
                (String::from_str("integrity"), Json::Str(integrity)),
            ];
            let dist = Json::Object(dist_members);
            proof {
                lemma_object_view(dist_members);
                assert(members_view(dist_members@) =~= seq![("shasum"@, JsonV::Str(v.shasum@)), ("integrity"@, JsonV::Str(v.integrity@))]);
                lemma_object_view(members);
            }
            let dist_key = String::from_str("dist");
            proof {
                lemma_with_member_view(m0, dist_key, dist);
            }
            insert_member(&mut members, dist_key, dist);
            let ghost m1 = members@;
            if deprecated {
                match deprecated_message {
                    Some(message) => {
                        let key = String::from_str("deprecated");
                        proof {
                            lemma_with_member_view(m1, key, Json::Str(message));
                        }
                        insert_member(&mut members, key, Json::Str(message));
                    },
                    None => {},
                }
            }
            proof {
                lemma_object_view(members);
            }
            Json::Object(members)
        },
        other => other,
    }
}

/// Reading a package's metadata; through a proxy, the remote's document is cached and served.
pub struct GetNpmPackageMetadataUseCase {}

impl GetNpmPackageMetadataUseCase {
    /// The metadata document of a hosted package: its name, its dist-tags and every version's
    /// served manifest.
    pub fn build_metadata_document(name: &str, versions: Vec<NpmPackageVersion>, dist_tags: &Vec<NpmDistTag>) -> (r: Json)
        ensures
            jview(r) == metadata_document(name@, versions@, dist_tags@),
    {
        let ghost vs = versions@;
        let count: usize = versions.len();
        assert(vs.len() == count);
        let mut versions_doc: Vec<(String, Json)> = Vec::new();
        let mut versions = versions;
        let mut rev: Vec<NpmPackageVersion> = Vec::new();
        while versions.len() > 0
            invariant
                vs.len() <= usize::MAX,
                rev@.len() + versions@.len() == vs.len(),
                versions@ == vs.subrange(0, versions@.len() as int),
                forall|k: int| 0 <= k < rev@.len() ==> #[trigger] rev@[k] == vs[vs.len() - 1 - k],
            decreases versions@.len(),
        {
            let v = versions.pop().unwrap();
            rev.push(v);
        }
        let mut i: usize = 0;
        assert(vs.len() == rev@.len());
        while rev.len() > 0
            invariant
                i + rev@.len() == vs.len(),
                vs.len() <= usize::MAX,
                forall|k: int| 0 <= k < rev@.len() ==> #[trigger] rev@[k] == vs[vs.len() - 1 - k],
                members_view(versions_doc@) == versions_members(vs.subrange(0, i as int)),
            decreases rev@.len(),
        {
            let v = rev.pop().unwrap();
            assert(v == vs[i as int]);
            assert(vs.subrange(0, i + 1).drop_last() =~= vs.subrange(0, i as int));
            let key = v.version.clone();
            let ghost before = versions_doc@;
            let served = served_manifest_exec(v);
            proof {
                lemma_with_member_view(before, key, served);
            }
            insert_member(&mut versions_doc, key, served);
            i = i + 1;
        }
        assert(vs.subrange(0, vs.len() as int) =~= vs);
        let mut tags_doc: Vec<(String, Json)> = Vec::new();
        let mut t: usize = 0;
        while t < dist_tags.len()
            invariant
                t <= dist_tags@.len(),
                members_view(tags_doc@) == dist_tag_members(dist_tags@.subrange(0, t as int)),
            decreases dist_tags@.len() - t,
        {
            assert(dist_tags@.subrange(0, t + 1).drop_last() =~= dist_tags@.subrange(0, t as int));
            let key = dist_tags[t].tag.clone();
            let value = Json::Str(dist_tags[t].version.clone());
            proof {
                lemma_with_member_view(tags_doc@, key, value);
            }
            insert_member(&mut tags_doc, key, value);
            t = t + 1;
        }
        assert(dist_tags@.subrange(0, dist_tags@.len() as int) =~= dist_tags@);
        let ghost tv = tags_doc@;
        let ghost vv = versions_doc@;
        let tags_json = Json::Object(tags_doc);
        let versions_json = Json::Object(versions_doc);
        proof {
            lemma_object_view(tags_doc);
            lemma_object_view(versions_doc);
        }
        let doc_members: Vec<(String, Json)> = vec![
            (String::from_str("_id"), Json::Str(String::from_str(name))),
            (String::from_str("name"), Json::Str(String::from_str(name))),
            (String::from_str("dist-tags"), tags_json),
            (String::from_str("versions"), versions_json),
        ];
        proof {
            lemma_object_view(doc_members);
            assert(members_view(doc_members@) =~= seq![
                ("_id"@, JsonV::Str(name@)),
                ("name"@, JsonV::Str(name@)),
                ("dist-tags"@, JsonV::Object(dist_tag_members(dist_tags@))),
                ("versions"@, JsonV::Object(versions_members(vs))),
            ]);
        }
        Json::Object(doc_members)
    }

    /// A proxy's cached metadata is fetched again when it never was, or more than five minutes
    /// ago. Instants are Unix nanoseconds.
    pub fn is_stale(metadata_fetched_at: Option<i128>, now: i128) -> (r: bool)
        ensures
            r == match metadata_fetched_at {
                None => true,
                Some(t) => now - t > PROXY_METADATA_TTL_NANOS,
            },
    {
        match metadata_fetched_at {
            None => true,
            Some(t) => if t > i128::MAX - PROXY_METADATA_TTL_NANOS {
                false
            } else {
                now > t + PROXY_METADATA_TTL_NANOS
            },
        }
    }

    /// When refreshing failed: a stale cached copy is served rather than failing; without one
    /// the failure stands.
    pub fn refresh_failed(has_cached: bool, error: ApplicationError) -> (r: Result<(), ApplicationError>)
        ensures
            has_cached ==> r is Ok,
            !has_cached ==> r == Err::<(), ApplicationError>(error),
    {
        if has_cached {
            Ok(())
        } else {
            Err(error)
        }
    }
}

pub const NO_REMOTE_URL: &'static str = "proxy repository has no remote_url configured";

/// A proxy repository's remote, or the payload error for one configured without.
pub fn npm_remote_url(remote_url: &Option<String>) -> (r: Result<String, ApplicationError>)
    ensures
        match remote_url {
            Some(u) => r matches Ok(v) && v@ == u@,
            None => r matches Err(ApplicationError::InvalidNpmPayload(m)) && m@ == NO_REMOTE_URL@,
        },
{
    match remote_url {
        Some(u) => Ok(u.clone()),
        None => Err(ApplicationError::InvalidNpmPayload(String::from_str(NO_REMOTE_URL))),
    }
}

/// The package a request names, or not found.
pub fn require_package<T>(package: Option<T>) -> (r: Result<T, ApplicationError>)
    ensures
        match package {
            Some(p) => r == Ok::<T, ApplicationError>(p),
            None => r == Err::<T, ApplicationError>(ApplicationError::NpmPackageNotFound),
        },
{
    match package {
        Some(p) => Ok(p),
        None => Err(ApplicationError::NpmPackageNotFound),
    }
}

/// The version a request names, or not found.
pub fn require_version<T>(version: Option<T>) -> (r: Result<T, ApplicationError>)
    ensures
        match version {
            Some(v) => r == Ok::<T, ApplicationError>(v),
            None => r == Err::<T, ApplicationError>(ApplicationError::NpmVersionNotFound),
        },
{
    match version {
        Some(v) => Ok(v),
        None => Err(ApplicationError::NpmVersionNotFound),
    }
}

/// The tags pointing at a version, in the order listed.
pub open spec fn tags_pointing_at(tags: Seq<NpmDistTag>, version: Seq<char>) -> Seq<Seq<char>>
    decreases tags.len(),
{
    if tags.len() == 0 {
        Seq::empty()
    } else {
        let rest = tags_pointing_at(tags.drop_last(), version);
        if tags.last().version@ == version {
            rest.push(tags.last().tag@)
        } else {
            rest
        }
    }
}

/// Removing a version from a package.
pub struct UnpublishNpmPackageUseCase {}

impl UnpublishNpmPackageUseCase {
    /// The dist-tags to delete with a version: each one pointing at it, since a tag left on a
    /// removed version would make `npm install` unresolvable.
    pub fn tags_to_remove(tags: &Vec<NpmDistTag>, version: &str) -> (r: Vec<String>)
        ensures
            r@.map_values(|s: String| s@) == tags_pointing_at(tags@, version@),
    {
        let mut out: Vec<String> = Vec::new();
        let mut i: usize = 0;
        while i < tags.len()
            invariant
                i <= tags@.len(),
                out@.map_values(|s: String| s@) == tags_pointing_at(tags@.subrange(0, i as int), version@),
            decreases tags@.len() - i,
        {
            assert(tags@.subrange(0, i + 1).drop_last() =~= tags@.subrange(0, i as int));
            if crate::text::str_eq(tags[i].version.as_str(), version) {
                let ghost before = out@.map_values(|s: String| s@);
                out.push(tags[i].tag.clone());
                assert(out@.map_values(|s: String| s@) =~= before.push(tags@[i as int].tag@));
            }
            i = i + 1;
        }
        assert(tags@.subrange(0, tags@.len() as int) =~= tags@);
        out
    }
}

/// After a version's tags are removed, no tag left points at it.
pub proof fn lemma_no_tag_left_on_removed_version(tags: Seq<NpmDistTag>, version: Seq<char>, t: NpmDistTag)
    requires
        tags.contains(t),
        !tags_pointing_at(tags, version).contains(t.tag@),
    ensures
        t.version@ != version,
    decreases tags.len(),
{
    let k = choose|k: int| 0 <= k < tags.len() && tags[k] == t;
    if k == tags.len() - 1 {
        if t.version@ == version {
            let rest = tags_pointing_at(tags.drop_last(), version);
            assert(tags_pointing_at(tags, version) == rest.push(t.tag@));
            assert(rest.push(t.tag@)[rest.len() as int] == t.tag@);
        }
    } else {
        assert(tags.drop_last()[k] == t);
        let rest = tags_pointing_at(tags.drop_last(), version);
        if rest.contains(t.tag@) {
            let j = choose|j: int| 0 <= j < rest.len() && rest[j] == t.tag@;
            if tags.last().version@ == version {
                assert(tags_pointing_at(tags, version)[j] == t.tag@);
            } else {
                assert(tags_pointing_at(tags, version)[j] == t.tag@);
            }
        }
        lemma_no_tag_left_on_removed_version(tags.drop_last(), version, t);
    }
}

} // verus!
