//! Listing a registry's content: an image's tags, a repository's images, and the `_catalog` of
//! every Docker repository a user may read in one organization.

use vstd::prelude::*;

use crate::docker::{digest_of, digest_of_spec, digest_valid, is_digest, media_type_or_default, media_type_text, DockerMediaType};
use crate::error::ApplicationError;
use crate::model::{PackageRepositorySummary, RepositoryFormat};
use crate::package_tree::{distinct_in_order, in_order, insert_distinct_exec, insert_in_order_exec, strings_view};

verus! {

pub struct ListTagsUseCase {}

impl ListTagsUseCase {
    /// An image's tags, in order.
    pub fn execute(tags: Vec<String>) -> (r: Vec<String>)
        ensures
            strings_view(r@) == in_order(strings_view(tags@)),
    {
        let mut out: Vec<String> = Vec::new();
        let mut i: usize = 0;
        while i < tags.len()
            invariant
                i <= tags@.len(),
                strings_view(out@) == in_order(strings_view(tags@.subrange(0, i as int))),
            decreases tags@.len() - i,
        {
            assert(strings_view(tags@.subrange(0, i + 1)).drop_last() =~= strings_view(tags@.subrange(0, i as int)));
            insert_in_order_exec(&mut out, tags[i].clone());
            i = i + 1;
        }
        assert(tags@.subrange(0, tags@.len() as int) =~= tags@);
        out
    }
}

pub struct ListCatalogUseCase {}

impl ListCatalogUseCase {
    /// A repository's image names, each once, in order: the store is not trusted to list each
    /// name once.
    pub fn execute(names: &Vec<String>) -> (r: Vec<String>)
        ensures
            strings_view(r@) == distinct_in_order(strings_view(names@)),
    {
        let mut out: Vec<String> = Vec::new();
        let mut i: usize = 0;
        while i < names.len()
            invariant
                i <= names@.len(),
                strings_view(out@) == distinct_in_order(strings_view(names@.subrange(0, i as int))),
            decreases names@.len() - i,
        {
            assert(strings_view(names@.subrange(0, i + 1)).drop_last() =~= strings_view(names@.subrange(0, i as int)));
            insert_distinct_exec(&mut out, &names[i]);
            i = i + 1;
        }
        assert(names@.subrange(0, names@.len() as int) =~= names@);
        out
    }
}

/// Whether a repository shows in an organization's `_catalog` for a user: a Docker repository
/// of that organization the user holds a role on.
pub open spec fn catalog_repository(r: PackageRepositorySummary, organization_id: u128, readable: Seq<u128>) -> bool {
    r.format == RepositoryFormat::Docker && r.organization_id == organization_id && readable.contains(r.id)
}

/// The name of the catalog repository with this id (the last listed, should it be listed
/// twice).
pub open spec fn catalog_repository_name(
    repos: Seq<PackageRepositorySummary>,
    organization_id: u128,
    readable: Seq<u128>,
    id: u128,
) -> Option<Seq<char>>
    decreases repos.len(),
{
    if repos.len() == 0 {
        None
    } else if repos.last().id == id && catalog_repository(repos.last(), organization_id, readable) {
        Some(repos.last().name@)
    } else {
        catalog_repository_name(repos.drop_last(), organization_id, readable, id)
    }
}

/// `<repository>/<image>` for each listed image of a catalog repository, in the order listed.
pub open spec fn catalog_entries(
    repos: Seq<PackageRepositorySummary>,
    organization_id: u128,
    readable: Seq<u128>,
    images: Seq<(u128, String)>,
) -> Seq<Seq<char>>
    decreases images.len(),
{
    if images.len() == 0 {
        Seq::empty()
    } else {
        let rest = catalog_entries(repos, organization_id, readable, images.drop_last());
        match catalog_repository_name(repos, organization_id, readable, images.last().0) {
            Some(name) => rest.push(name + "/"@ + images.last().1@),
            None => rest,
        }
    }
}

fn contains_id(ids: &Vec<u128>, id: u128) -> (r: bool)
    ensures
        r == ids@.contains(id),
{
    let mut i: usize = 0;
    while i < ids.len()
        invariant
            i <= ids@.len(),
            forall|j: int| 0 <= j < i ==> ids@[j] != id,
        decreases ids@.len() - i,
    {
        if ids[i] == id {
            return true;
        }
        i = i + 1;
    }
    false
}

fn repository_name_for(
    repos: &Vec<PackageRepositorySummary>,
    organization_id: u128,
    readable: &Vec<u128>,
    id: u128,
) -> (r: Option<String>)
    ensures
        match r {
            Some(n) => catalog_repository_name(repos@, organization_id, readable@, id) == Some(n@),
            None => catalog_repository_name(repos@, organization_id, readable@, id) is None,
        },
{
    let mut i: usize = repos.len();
    assert(repos@.subrange(0, repos@.len() as int) =~= repos@);
    while i > 0
        invariant
            i <= repos@.len(),
            catalog_repository_name(repos@, organization_id, readable@, id) == catalog_repository_name(
                repos@.subrange(0, i as int),
                organization_id,
                readable@,
                id,
            ),
        decreases i,
    {
        assert(repos@.subrange(0, i - 1) =~= repos@.subrange(0, i as int).drop_last());
        let r = &repos[i - 1];
        if r.id == id && r.format == RepositoryFormat::Docker && r.organization_id == organization_id && contains_id(
            readable,
            r.id,
        ) {
            return Some(r.name.clone());
        }
        i = i - 1;
    }
    None
}

pub struct ListDockerRegistryCatalogUseCase {}

impl ListDockerRegistryCatalogUseCase {
    /// The `_catalog` listing: `<repository>/<image>` for every image of every Docker repository
    /// of `organization_id` that the user holds a role on (`readable`), in order. Repository
    /// names are unique per organization only, so other organizations never show.
    /// `images` lists `(repository id, image name)`.
    pub fn execute(
        organization_id: u128,
        repositories: &Vec<PackageRepositorySummary>,
        readable: &Vec<u128>,
        images: &Vec<(u128, String)>,
    ) -> (r: Vec<String>)
        ensures
            strings_view(r@) == in_order(catalog_entries(repositories@, organization_id, readable@, images@)),
    {
        let mut out: Vec<String> = Vec::new();
        let mut i: usize = 0;
        while i < images.len()
            invariant
                i <= images@.len(),
                strings_view(out@) == in_order(catalog_entries(repositories@, organization_id, readable@, images@.subrange(0, i as int))),
            decreases images@.len() - i,
        {
            let ghost before = catalog_entries(repositories@, organization_id, readable@, images@.subrange(0, i as int));
            assert(images@.subrange(0, i + 1).drop_last() =~= images@.subrange(0, i as int));
            match repository_name_for(repositories, organization_id, readable, images[i].0) {
                Some(name) => {
                    let mut entry = name;
                    entry.append("/");
                    entry.append(images[i].1.as_str());
                    let ghost ev = entry@;
                    assert(catalog_entries(repositories@, organization_id, readable@, images@.subrange(0, i + 1)) == before.push(ev));
                    assert(before.push(ev).drop_last() =~= before);
                    insert_in_order_exec(&mut out, entry);
                },
                None => {},
            }
            i = i + 1;
        }
        assert(images@.subrange(0, images@.len() as int) =~= images@);
        out
    }
}

/// How a manifest reference is looked up: by digest when it is one, by tag otherwise (the
/// Registry API accepts both).
#[derive(Debug, Clone, PartialEq, Eq)]
pub enum ManifestLookup {
    ByDigest(String),
    ByTag(String),
}

pub struct GetManifestUseCase {}

impl GetManifestUseCase {
    pub fn lookup(reference: &str) -> (r: ManifestLookup)
        ensures
            digest_valid(reference@) ==> (r matches ManifestLookup::ByDigest(d) && d@ == reference@),
            !digest_valid(reference@) ==> (r matches ManifestLookup::ByTag(t) && t@ == reference@),
    {
        if is_digest(reference) {
            ManifestLookup::ByDigest(String::from_str(reference))
        } else {
            ManifestLookup::ByTag(String::from_str(reference))
        }
    }

    /// Through a proxy, a digest already cached is served forever (content never changes under
    /// a digest); a tag is always fetched again, since it can move.
    pub fn cache_may_answer(reference: &str) -> (r: bool)
        ensures
            r == digest_valid(reference@),
    {
        is_digest(reference)
    }

    /// A manifest fetched from a remote, as served: its digest computed from its bytes, its
    /// media type as the remote's `Content-Type` says (a plain manifest when unknown).
    pub fn proxied_manifest(body: &[u8], content_type: &str) -> (r: (String, DockerMediaType))
        ensures
            r.0@ == digest_of_spec(body@),
            (exists|m: DockerMediaType| media_type_text(m) == content_type@) ==> media_type_text(r.1) == content_type@,
            (forall|m: DockerMediaType| media_type_text(m) != content_type@) ==> r.1 == DockerMediaType::DockerV2Manifest,
    {
        (digest_of(body), media_type_or_default(content_type))
    }
}

pub struct DeleteManifestUseCase {}

impl DeleteManifestUseCase {
    /// Whether deleting a manifest releases blob references: a manifest list holds none of its
    /// own (its members release theirs when deleted one by one).
    pub fn releases_blobs(media_type: DockerMediaType) -> (r: bool)
        ensures
            r == !media_type.is_index_spec(),
    {
        !media_type.is_index()
    }

    /// The manifest to delete, which must exist.
    pub fn require_manifest<T>(manifest: Option<T>) -> (r: Result<T, ApplicationError>)
        ensures
            match manifest {
                Some(m) => r == Ok::<T, ApplicationError>(m),
                None => r == Err::<T, ApplicationError>(ApplicationError::DockerManifestNotFound),
            },
    {
        match manifest {
            Some(m) => Ok(m),
            None => Err(ApplicationError::DockerManifestNotFound),
        }
    }
}

} // verus!
