//! The detail pages of a package or an image: every version newest first with its dist-tags, or
//! every tag with its manifest.

use vstd::prelude::*;

use crate::docker::{media_type_text, DockerMediaType};
use crate::npm::{NpmDistTag, NpmPackageVersion};

verus! {

#[derive(Debug, Clone, PartialEq, Eq)]
pub struct NpmVersionDetail {
    pub version: String,
    pub published_at: i64,
    pub size_bytes: i64,
    pub deprecated: bool,
    pub deprecated_message: Option<String>,
    pub shasum: String,
}

#[derive(Debug, Clone, PartialEq, Eq)]
pub struct NpmDistTagDetail {
    pub tag: String,
    pub version: String,
}

#[derive(Debug, Clone, PartialEq, Eq)]
pub struct NpmPackageDetails {
    pub name: String,
    pub versions: Vec<NpmVersionDetail>,
    pub dist_tags: Vec<NpmDistTagDetail>,
}

/// What the page shows of a version.
pub open spec fn detail_of(v: NpmPackageVersion) -> NpmVersionDetail {
    NpmVersionDetail {
        version: v.version,
        published_at: v.published_at,
        size_bytes: v.tarball_size_bytes,
        deprecated: v.deprecated,
        deprecated_message: v.deprecated_message,
        shasum: v.shasum,
    }
}

/// Inserting after every detail published at the same instant or later.
pub open spec fn insert_detail(sorted: Seq<NpmVersionDetail>, d: NpmVersionDetail) -> Seq<NpmVersionDetail>
    decreases sorted.len(),
{
    if sorted.len() == 0 {
        seq![d]
    } else if sorted[0].published_at >= d.published_at {
        seq![sorted[0]] + insert_detail(sorted.drop_first(), d)
    } else {
        seq![d] + sorted
    }
}

/// The versions newest first; equal instants keep the order listed.
pub open spec fn details_newest_first(vs: Seq<NpmPackageVersion>) -> Seq<NpmVersionDetail>
    decreases vs.len(),
{
    if vs.len() == 0 {
        Seq::empty()
    } else {
        insert_detail(details_newest_first(vs.drop_last()), detail_of(vs.last()))
    }
}

proof fn lemma_insert_detail_at(s: Seq<NpmVersionDetail>, d: NpmVersionDetail, i: int)
    requires
        0 <= i <= s.len(),
        forall|k: int| 0 <= k < i ==> (#[trigger] s[k]).published_at >= d.published_at,
        i < s.len() ==> s[i].published_at < d.published_at,
    ensures
        insert_detail(s, d) == s.insert(i, d),
    decreases s.len(),
{
    if s.len() == 0 {
        assert(s.insert(i, d) =~= seq![d]);
    } else if i == 0 {
        assert(s.insert(0, d) =~= seq![d] + s);
    } else {
        assert forall|k: int| 0 <= k < i - 1 implies (#[trigger] s.drop_first()[k]).published_at >= d.published_at by {
            assert(s.drop_first()[k] == s[k + 1]);
        }
        lemma_insert_detail_at(s.drop_first(), d, i - 1);
        assert(s.insert(i, d) =~= seq![s[0]] + s.drop_first().insert(i - 1, d));
    }
}

pub struct GetNpmPackageDetailsUseCase {}

impl GetNpmPackageDetailsUseCase {
    /// A package's details: its versions newest first and its dist-tags as listed.
    pub fn execute(name: &str, versions: Vec<NpmPackageVersion>, dist_tags: Vec<NpmDistTag>) -> (r: NpmPackageDetails)
        ensures
            r.name@ == name@,
            r.versions@ == details_newest_first(versions@),
            r.dist_tags@.len() == dist_tags@.len(),
            forall|i: int|
                0 <= i < dist_tags@.len() ==> (#[trigger] r.dist_tags@[i]).tag == dist_tags@[i].tag && r.dist_tags@[i].version
                    == dist_tags@[i].version,
    {
        let ghost vs = versions@;
        let count: usize = versions.len();
        let mut rest = versions;
        let mut rev: Vec<NpmPackageVersion> = Vec::new();
        while rest.len() > 0
            invariant
                rev@.len() + rest@.len() == vs.len(),
                vs.len() == count,
                rest@ == vs.subrange(0, rest@.len() as int),
                forall|k: int| 0 <= k < rev@.len() ==> #[trigger] rev@[k] == vs[vs.len() - 1 - k],
            decreases rest@.len(),
        {
            let v = rest.pop().unwrap();
            rev.push(v);
        }
        let mut sorted: Vec<NpmVersionDetail> = Vec::new();
        let mut i: usize = 0;
        while rev.len() > 0
            invariant
                i + rev@.len() == vs.len(),
                vs.len() == count,
                forall|k: int| 0 <= k < rev@.len() ==> #[trigger] rev@[k] == vs[vs.len() - 1 - k],
                sorted@ == details_newest_first(vs.subrange(0, i as int)),
            decreases rev@.len(),
        {
            let v = rev.pop().unwrap();
            assert(v == vs[i as int]);
            assert(vs.subrange(0, i + 1).drop_last() =~= vs.subrange(0, i as int));
            let NpmPackageVersion { version, published_at, tarball_size_bytes, deprecated, deprecated_message, shasum, .. } = v;
            let d = NpmVersionDetail { version, published_at, size_bytes: tarball_size_bytes, deprecated, deprecated_message, shasum };
            assert(d == detail_of(vs[i as int]));
            let ghost s0 = sorted@;
            let mut j: usize = 0;
            while j < sorted.len() && sorted[j].published_at >= d.published_at
                invariant
                    j <= sorted@.len(),
                    s0 == sorted@,
                    forall|k: int| 0 <= k < j ==> (#[trigger] s0[k]).published_at >= d.published_at,
                decreases sorted@.len() - j,
            {
                j = j + 1;
            }
            proof {
                lemma_insert_detail_at(s0, d, j as int);
            }
            sorted.insert(j, d);
            i = i + 1;
        }
        assert(vs.subrange(0, vs.len() as int) =~= vs);
        let mut tags: Vec<NpmDistTagDetail> = Vec::new();
        let mut rest_tags = dist_tags;
        let ghost ts = rest_tags@;
        let tag_count: usize = rest_tags.len();
        let mut rev_tags: Vec<NpmDistTag> = Vec::new();
        while rest_tags.len() > 0
            invariant
                rev_tags@.len() + rest_tags@.len() == ts.len(),
                ts.len() == tag_count,
                rest_tags@ == ts.subrange(0, rest_tags@.len() as int),
                forall|k: int| 0 <= k < rev_tags@.len() ==> #[trigger] rev_tags@[k] == ts[ts.len() - 1 - k],
            decreases rest_tags@.len(),
        {
            let t = rest_tags.pop().unwrap();
            rev_tags.push(t);
        }
        while rev_tags.len() > 0
            invariant
                tags@.len() + rev_tags@.len() == ts.len(),
                ts.len() == tag_count,
                forall|k: int| 0 <= k < rev_tags@.len() ==> #[trigger] rev_tags@[k] == ts[ts.len() - 1 - k],
                forall|k: int| 0 <= k < tags@.len() ==> (#[trigger] tags@[k]).tag == ts[k].tag && tags@[k].version == ts[k].version,
            decreases rev_tags@.len(),
        {
            let t = rev_tags.pop().unwrap();
            let NpmDistTag { tag, version } = t;
            tags.push(NpmDistTagDetail { tag, version });
        }
        NpmPackageDetails { name: String::from_str(name), versions: sorted, dist_tags: tags }
    }
}

#[derive(Debug, Clone, PartialEq, Eq)]
pub struct DockerTagDetail {
    pub tag: String,
    pub digest: String,
    pub media_type: String,
    pub created_at: i64,
}

#[derive(Debug, Clone, PartialEq, Eq)]
pub struct DockerImageDetails {
    pub image_name: String,
    pub tags: Vec<DockerTagDetail>,
}

pub struct GetDockerImageDetailsUseCase {}

impl GetDockerImageDetailsUseCase {
    /// An image's details: each tag as listed, with its digest, its manifest's media type and
    /// when that manifest was first pushed. `summaries` lists `(tag, digest, media type,
    /// created_at)`.
    pub fn execute(image_name: &str, summaries: Vec<(String, String, DockerMediaType, i64)>) -> (r: DockerImageDetails)
        ensures
            r.image_name@ == image_name@,
            r.tags@.len() == summaries@.len(),
            forall|i: int|
                0 <= i < summaries@.len() ==> {
                    let t = #[trigger] r.tags@[i];
                    let s = summaries@[i];
                    &&& t.tag == s.0
                    &&& t.digest == s.1
                    &&& t.media_type@ == media_type_text(s.2)
                    &&& t.created_at == s.3
                },
    {
        let mut tags: Vec<DockerTagDetail> = Vec::new();
        let mut i: usize = 0;
        while i < summaries.len()
            invariant
                i <= summaries@.len(),
                tags@.len() == i,
                forall|k: int|
                    0 <= k < i ==> {
                        let t = #[trigger] tags@[k];
                        let s = summaries@[k];
                        &&& t.tag == s.0
                        &&& t.digest == s.1
                        &&& t.media_type@ == media_type_text(s.2)
                        &&& t.created_at == s.3
                    },
            decreases summaries@.len() - i,
        {
            let s = &summaries[i];
            tags.push(
                DockerTagDetail {
                    tag: s.0.clone(),
                    digest: s.1.clone(),
                    media_type: String::from_str(s.2.as_str()),
                    created_at: s.3,
                },
            );
            i = i + 1;
        }
        DockerImageDetails { image_name: String::from_str(image_name), tags }
    }
}

} // verus!
