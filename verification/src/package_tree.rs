//! The package tree of a repository as the UI shows it: npm packages with their versions, newest
//! first, or docker images with their tags, each with the vulnerability counts of its latest
//! audit or scan.

use vstd::prelude::*;

use crate::npm::NpmPackageVersion;
use crate::text::{chars_of, lemma_lex_lt_asymmetric, lemma_lex_lt_irreflexive, lemma_lex_lt_total, lemma_lex_lt_transitive, lex_lt, str_eq, str_lt};

verus! {

/// The ASCII lowercase of a character: `A`-`Z` become `a`-`z`, nothing else changes.
pub open spec fn ascii_lower_char(c: char) -> char {
    if 'A' <= c <= 'Z' {
        ((c as int) + 32) as char
    } else {
        c
    }
}

pub open spec fn ascii_lowercase_spec(s: Seq<char>) -> Seq<char> {
    s.map_values(|c: char| ascii_lower_char(c))
}

pub fn ascii_lowercase(s: &str) -> (r: String)
    ensures
        r@ == ascii_lowercase_spec(s@),
{
    let chars = chars_of(s);
    let mut r = String::new();
    let mut i: usize = 0;
    while i < chars.len()
        invariant
            i <= chars@.len(),
            chars@ == s@,
            r@ == ascii_lowercase_spec(s@.subrange(0, i as int)),
        decreases chars@.len() - i,
    {
        let c = chars[i];
        let lower = if 'A' <= c && c <= 'Z' {
            ((c as u32) + 32) as u8 as char
        } else {
            c
        };
        assert(lower == ascii_lower_char(c)) by {
            if 'A' <= c <= 'Z' {
                assert((c as u32) + 32 < 256);
            }
        }
        crate::text::string_push(&mut r, lower);
        assert(r@ =~= ascii_lowercase_spec(s@.subrange(0, i + 1)));
        i = i + 1;
    }
    assert(s@.subrange(0, chars@.len() as int) =~= s@);
    r
}

/// Which of the four shown tiers a severity falls in, case aside: npm's `moderate` is the
/// scanner's `medium`. Anything else is not counted.
pub enum SeverityTier {
    Critical,
    High,
    Medium,
    Low,
    Other,
}

pub open spec fn tier_of(severity: Seq<char>) -> SeverityTier {
    let s = ascii_lowercase_spec(severity);
    if s == "critical"@ {
        SeverityTier::Critical
    } else if s == "high"@ {
        SeverityTier::High
    } else if s == "medium"@ || s == "moderate"@ {
        SeverityTier::Medium
    } else if s == "low"@ {
        SeverityTier::Low
    } else {
        SeverityTier::Other
    }
}

/// How many of the severities fall in the tier.
pub open spec fn tier_count(severities: Seq<String>, tier: SeverityTier) -> int
    decreases severities.len(),
{
    if severities.len() == 0 {
        0
    } else {
        tier_count(severities.drop_last(), tier) + (if tier_of(severities.last()@) == tier {
            1int
        } else {
            0int
        })
    }
}

proof fn lemma_tier_count_bound(severities: Seq<String>, tier: SeverityTier)
    ensures
        0 <= tier_count(severities, tier) <= severities.len(),
    decreases severities.len(),
{
    if severities.len() > 0 {
        lemma_tier_count_bound(severities.drop_last(), tier);
    }
}

/// Vulnerability counts from the latest scan or audit, in the four tiers the UI shows.
#[derive(Debug, Clone, Copy, PartialEq, Eq, Structural)]
pub struct VulnerabilitySummary {
    pub critical: i64,
    pub high: i64,
    pub medium: i64,
    pub low: i64,
}

impl Default for VulnerabilitySummary {
    fn default() -> (r: Self)
        ensures
            r == (VulnerabilitySummary { critical: 0, high: 0, medium: 0, low: 0 }),
    {
        VulnerabilitySummary { critical: 0, high: 0, medium: 0, low: 0 }
    }
}

pub open spec fn summary_of(severities: Seq<String>) -> VulnerabilitySummary {
    VulnerabilitySummary {
        critical: tier_count(severities, SeverityTier::Critical) as i64,
        high: tier_count(severities, SeverityTier::High) as i64,
        medium: tier_count(severities, SeverityTier::Medium) as i64,
        low: tier_count(severities, SeverityTier::Low) as i64,
    }
}

impl VulnerabilitySummary {
    /// Counts the severities by tier, case-insensitively; `moderate` counts as `medium`, and
    /// other severities (such as `unknown`) are left out.
    pub fn count(severities: &Vec<String>) -> (r: Self)
        requires
            severities@.len() <= i64::MAX,
        ensures
            r == summary_of(severities@),
    {
        let mut summary = VulnerabilitySummary { critical: 0, high: 0, medium: 0, low: 0 };
        let mut i: usize = 0;
        while i < severities.len()
            invariant
                i <= severities@.len(),
                severities@.len() <= i64::MAX,
                summary == summary_of(severities@.subrange(0, i as int)),
            decreases severities@.len() - i,
        {
            let ghost prefix = severities@.subrange(0, i + 1);
            assert(prefix.drop_last() =~= severities@.subrange(0, i as int));
            proof {
                lemma_tier_count_bound(severities@.subrange(0, i as int), SeverityTier::Critical);
                lemma_tier_count_bound(severities@.subrange(0, i as int), SeverityTier::High);
                lemma_tier_count_bound(severities@.subrange(0, i as int), SeverityTier::Medium);
                lemma_tier_count_bound(severities@.subrange(0, i as int), SeverityTier::Low);
                reveal_strlit("critical");
                reveal_strlit("high");
                reveal_strlit("medium");
                reveal_strlit("moderate");
                reveal_strlit("low");
            }
            let lower = ascii_lowercase(severities[i].as_str());
            if str_eq(lower.as_str(), "critical") {
                summary.critical = summary.critical + 1;
            } else if str_eq(lower.as_str(), "high") {
                summary.high = summary.high + 1;
            } else if str_eq(lower.as_str(), "medium") || str_eq(lower.as_str(), "moderate") {
                summary.medium = summary.medium + 1;
            } else if str_eq(lower.as_str(), "low") {
                summary.low = summary.low + 1;
            }
            i = i + 1;
        }
        assert(severities@.subrange(0, severities@.len() as int) =~= severities@);
        summary
    }
}

/// One version as the package tree lists it.
#[derive(Debug, Clone, PartialEq, Eq)]
pub struct NpmPackageTreeVersion {
    pub version: String,
    pub published_at: i64,
    pub size_bytes: i64,
    pub deprecated: bool,
}

fn copy_tree_version(v: &NpmPackageTreeVersion) -> (r: NpmPackageTreeVersion)
    ensures
        r == *v,
{
    NpmPackageTreeVersion {
        version: v.version.clone(),
        published_at: v.published_at,
        size_bytes: v.size_bytes,
        deprecated: v.deprecated,
    }
}

/// A package with its versions, newest first.
#[derive(Debug, Clone, PartialEq, Eq)]
pub struct NpmPackageTreeEntry {
    pub name: String,
    pub versions: Vec<NpmPackageTreeVersion>,
    /// From the newest version's dependency audit; all zeros if it was never audited.
    pub vulnerability_summary: VulnerabilitySummary,
}

/// An image with its tags in order.
#[derive(Debug, Clone, PartialEq, Eq)]
pub struct DockerImageTreeEntry {
    pub image_name: String,
    pub tags: Vec<String>,
    /// From the most recently updated tag's scan; all zeros if it was never scanned.
    pub vulnerability_summary: VulnerabilitySummary,
}

#[derive(Debug, Clone, PartialEq, Eq)]
pub enum RepositoryPackageTree {
    Npm(Vec<NpmPackageTreeEntry>),
    Docker(Vec<DockerImageTreeEntry>),
}

/// The findings table: the last entry for an id wins.
pub open spec fn findings_for(table: Seq<(u128, Vec<String>)>, id: u128) -> Option<Seq<String>>
    decreases table.len(),
{
    if table.len() == 0 {
        None
    } else if table.last().0 == id {
        Some(table.last().1@)
    } else {
        findings_for(table.drop_last(), id)
    }
}

pub open spec fn summary_for(table: Seq<(u128, Vec<String>)>, id: Option<u128>) -> VulnerabilitySummary {
    match id {
        Some(i) => match findings_for(table, i) {
            Some(s) => summary_of(s),
            None => VulnerabilitySummary { critical: 0, high: 0, medium: 0, low: 0 },
        },
        None => VulnerabilitySummary { critical: 0, high: 0, medium: 0, low: 0 },
    }
}

fn find_findings<'a>(table: &'a Vec<(u128, Vec<String>)>, id: u128) -> (r: Option<&'a Vec<String>>)
    ensures
        match r {
            Some(v) => findings_for(table@, id) == Some(v@),
            None => findings_for(table@, id) is None,
        },
{
    let mut i: usize = table.len();
    assert(table@.subrange(0, table@.len() as int) =~= table@);
    while i > 0
        invariant
            i <= table@.len(),
            findings_for(table@, id) == findings_for(table@.subrange(0, i as int), id),
        decreases i,
    {
        assert(table@.subrange(0, i - 1) =~= table@.subrange(0, i as int).drop_last());
        if table[i - 1].0 == id {
            return Some(&table[i - 1].1);
        }
        i = i - 1;
    }
    None
}

fn summary_from(table: &Vec<(u128, Vec<String>)>, id: Option<u128>) -> (r: VulnerabilitySummary)
    requires
        forall|k: int| 0 <= k < table@.len() ==> (#[trigger] table@[k]).1@.len() <= i64::MAX,
    ensures
        r == summary_for(table@, id),
{
    match id {
        Some(i) => match find_findings(table, i) {
            Some(s) => {
                proof {
                    lemma_findings_bounded(table@, i);
                }
                VulnerabilitySummary::count(s)
            },
            None => VulnerabilitySummary { critical: 0, high: 0, medium: 0, low: 0 },
        },
        None => VulnerabilitySummary { critical: 0, high: 0, medium: 0, low: 0 },
    }
}

proof fn lemma_findings_bounded(table: Seq<(u128, Vec<String>)>, id: u128)
    requires
        forall|k: int| 0 <= k < table.len() ==> (#[trigger] table[k]).1@.len() <= i64::MAX,
    ensures
        findings_for(table, id) matches Some(s) ==> s.len() <= i64::MAX,
    decreases table.len(),
{
    if table.len() > 0 && table.last().0 != id {
        assert forall|k: int| 0 <= k < table.drop_last().len() implies (#[trigger] table.drop_last()[k]).1@.len()
            <= i64::MAX by {
            assert(table.drop_last()[k] == table[k]);
        }
        lemma_findings_bounded(table.drop_last(), id);
    }
}

/// The listed versions of the package `id`, in the order given, with the id of each.
pub open spec fn versions_of_package(all: Seq<(u128, u128, NpmPackageTreeVersion)>, package_id: u128) -> Seq<
    (u128, NpmPackageTreeVersion),
>
    decreases all.len(),
{
    if all.len() == 0 {
        Seq::empty()
    } else {
        let rest = versions_of_package(all.drop_last(), package_id);
        if all.last().1 == package_id {
            rest.push((all.last().0, all.last().2))
        } else {
            rest
        }
    }
}

/// Newest first, carrying each version's id along.
pub open spec fn insert_keyed(sorted: Seq<(u128, NpmPackageTreeVersion)>, v: (u128, NpmPackageTreeVersion)) -> Seq<
    (u128, NpmPackageTreeVersion),
>
    decreases sorted.len(),
{
    if sorted.len() == 0 {
        seq![v]
    } else if sorted[0].1.published_at >= v.1.published_at {
        seq![sorted[0]] + insert_keyed(sorted.drop_first(), v)
    } else {
        seq![v] + sorted
    }
}

pub open spec fn keyed_newest_first(vs: Seq<(u128, NpmPackageTreeVersion)>) -> Seq<(u128, NpmPackageTreeVersion)>
    decreases vs.len(),
{
    if vs.len() == 0 {
        Seq::empty()
    } else {
        insert_keyed(keyed_newest_first(vs.drop_last()), vs.last())
    }
}

pub open spec fn tree_versions_of(keyed: Seq<(u128, NpmPackageTreeVersion)>) -> Seq<NpmPackageTreeVersion> {
    keyed.map_values(|k: (u128, NpmPackageTreeVersion)| k.1)
}

/// Versions newest first: none published after one before it.
pub open spec fn newest_first(vs: Seq<NpmPackageTreeVersion>) -> bool {
    forall|i: int, j: int| 0 <= i < j < vs.len() ==> (#[trigger] vs[i]).published_at >= (#[trigger] vs[j]).published_at
}

pub open spec fn keyed_sorted(s: Seq<(u128, NpmPackageTreeVersion)>) -> bool {
    forall|i: int, j: int| 0 <= i < j < s.len() ==> (#[trigger] s[i]).1.published_at >= (#[trigger] s[j]).1.published_at
}

proof fn lemma_insert_keyed_sorted(s: Seq<(u128, NpmPackageTreeVersion)>, v: (u128, NpmPackageTreeVersion))
    requires
        keyed_sorted(s),
    ensures
        keyed_sorted(insert_keyed(s, v)),
        insert_keyed(s, v).len() == s.len() + 1,
        forall|k: int|
            0 <= k < insert_keyed(s, v).len() ==> #[trigger] insert_keyed(s, v)[k] == v || s.contains(insert_keyed(s, v)[k]),
    decreases s.len(),
{
    if s.len() > 0 && s[0].1.published_at >= v.1.published_at {
        let t = s.drop_first();
        assert(keyed_sorted(t)) by {
            assert forall|i: int, j: int| 0 <= i < j < t.len() implies (#[trigger] t[i]).1.published_at >= (
            #[trigger] t[j]).1.published_at by {
                assert(t[i] == s[i + 1] && t[j] == s[j + 1]);
            }
        }
        lemma_insert_keyed_sorted(t, v);
        let rest = insert_keyed(t, v);
        let r = insert_keyed(s, v);
        assert(r == seq![s[0]] + rest);
        assert forall|k: int| 0 <= k < rest.len() implies s[0].1.published_at >= (#[trigger] rest[k]).1.published_at by {
            if rest[k] != v {
                assert(t.contains(rest[k]));
                let m = choose|m: int| 0 <= m < t.len() && t[m] == rest[k];
                assert(t[m] == s[m + 1]);
            }
        }
        assert forall|i: int, j: int| 0 <= i < j < r.len() implies (#[trigger] r[i]).1.published_at >= (
        #[trigger] r[j]).1.published_at by {
            if i == 0 {
                assert(r[j] == rest[j - 1]);
            } else {
                assert(r[i] == rest[i - 1] && r[j] == rest[j - 1]);
            }
        }
        assert forall|k: int| 0 <= k < r.len() implies #[trigger] r[k] == v || s.contains(r[k]) by {
            if k == 0 {
                assert(s[0] == r[0]);
            } else {
                assert(r[k] == rest[k - 1]);
                if rest[k - 1] != v {
                    let m = choose|m: int| 0 <= m < t.len() && t[m] == rest[k - 1];
                    assert(s[m + 1] == r[k]);
                }
            }
        }
    } else {
        let r = insert_keyed(s, v);
        assert(r == seq![v] + s);
        assert forall|i: int, j: int| 0 <= i < j < r.len() implies (#[trigger] r[i]).1.published_at >= (
        #[trigger] r[j]).1.published_at by {
            if i == 0 {
                assert(r[j] == s[j - 1]);
                if j - 1 > 0 {
                    assert(s[0].1.published_at >= s[j - 1].1.published_at);
                }
            } else {
                assert(r[i] == s[i - 1] && r[j] == s[j - 1]);
            }
        }
        assert forall|k: int| 0 <= k < r.len() implies #[trigger] r[k] == v || s.contains(r[k]) by {
            if k > 0 {
                assert(r[k] == s[k - 1]);
            }
        }
    }
}

/// A package's versions come out newest first.
pub proof fn lemma_keyed_newest_first_sorted(vs: Seq<(u128, NpmPackageTreeVersion)>)
    ensures
        keyed_sorted(keyed_newest_first(vs)),
        newest_first(tree_versions_of(keyed_newest_first(vs))),
    decreases vs.len(),
{
    if vs.len() > 0 {
        lemma_keyed_newest_first_sorted(vs.drop_last());
        lemma_insert_keyed_sorted(keyed_newest_first(vs.drop_last()), vs.last());
    }
    let k = keyed_newest_first(vs);
    let t = tree_versions_of(k);
    assert forall|i: int, j: int| 0 <= i < j < t.len() implies (#[trigger] t[i]).published_at >= (
    #[trigger] t[j]).published_at by {
        assert(t[i] == k[i].1 && t[j] == k[j].1);
    }
}

/// The entry of a package: its versions newest first, and the counts of the newest one's audit.
pub open spec fn npm_entry_ok(
    e: NpmPackageTreeEntry,
    package: (u128, String),
    all: Seq<(u128, u128, NpmPackageTreeVersion)>,
    audits: Seq<(u128, Vec<String>)>,
) -> bool {
    let sorted = keyed_newest_first(versions_of_package(all, package.0));
    &&& e.name@ == package.1@
    &&& e.versions@ == tree_versions_of(sorted)
    &&& e.vulnerability_summary == summary_for(
        audits,
        if sorted.len() > 0 {
            Some(sorted[0].0)
        } else {
            None
        },
    )
}

fn insert_keyed_exec(sorted: &mut Vec<(u128, NpmPackageTreeVersion)>, v: (u128, NpmPackageTreeVersion))
    ensures
        final(sorted)@ == insert_keyed(old(sorted)@, v),
{
    let ghost s0 = sorted@;
    let mut i: usize = 0;
    while i < sorted.len() && sorted[i].1.published_at >= v.1.published_at
        invariant
            i <= sorted@.len(),
            sorted@ == s0,
            forall|k: int| 0 <= k < i ==> (#[trigger] s0[k]).1.published_at >= v.1.published_at,
        decreases sorted@.len() - i,
    {
        i = i + 1;
    }
    proof {
        lemma_insert_keyed_at(s0, v, i as int);
    }
    sorted.insert(i, v);
}

proof fn lemma_insert_keyed_at(s: Seq<(u128, NpmPackageTreeVersion)>, v: (u128, NpmPackageTreeVersion), i: int)
    requires
        0 <= i <= s.len(),
        forall|k: int| 0 <= k < i ==> (#[trigger] s[k]).1.published_at >= v.1.published_at,
        i < s.len() ==> s[i].1.published_at < v.1.published_at,
    ensures
        insert_keyed(s, v) == s.insert(i, v),
    decreases s.len(),
{
    if s.len() == 0 {
        assert(s.insert(i, v) =~= seq![v]);
    } else if i == 0 {
        assert(s.insert(0, v) =~= seq![v] + s);
    } else {
        assert forall|k: int| 0 <= k < i - 1 implies (#[trigger] s.drop_first()[k]).1.published_at >= v.1.published_at by {
            assert(s.drop_first()[k] == s[k + 1]);
        }
        lemma_insert_keyed_at(s.drop_first(), v, i - 1);
        assert(s.insert(i, v) =~= seq![s[0]] + s.drop_first().insert(i - 1, v));
    }
}

pub struct ListRepositoryPackagesUseCase {}

impl ListRepositoryPackagesUseCase {
    /// The npm tree: each package (in the order given, with its id and name), its versions newest
    /// first, and the counts of its newest version's audit. `versions` lists `(version id,
    /// package id, version)`; `audits` the latest audit's severities per version id.
    pub fn list_npm(
        packages: &Vec<(u128, String)>,
        versions: &Vec<(u128, u128, NpmPackageTreeVersion)>,
        audits: &Vec<(u128, Vec<String>)>,
    ) -> (r: Vec<NpmPackageTreeEntry>)
        requires
            forall|k: int| 0 <= k < audits@.len() ==> (#[trigger] audits@[k]).1@.len() <= i64::MAX,
        ensures
            r@.len() == packages@.len(),
            forall|i: int| 0 <= i < r@.len() ==> npm_entry_ok(#[trigger] r@[i], packages@[i], versions@, audits@),
            forall|i: int| 0 <= i < r@.len() ==> newest_first(#[trigger] r@[i].versions@),
    {
        let mut out: Vec<NpmPackageTreeEntry> = Vec::new();
        let mut p: usize = 0;
        while p < packages.len()
            invariant
                p <= packages@.len(),
                out@.len() == p,
                forall|k: int| 0 <= k < audits@.len() ==> (#[trigger] audits@[k]).1@.len() <= i64::MAX,
                forall|i: int| 0 <= i < p ==> npm_entry_ok(#[trigger] out@[i], packages@[i], versions@, audits@),
            decreases packages@.len() - p,
        {
            let package_id = packages[p].0;
            let mut sorted: Vec<(u128, NpmPackageTreeVersion)> = Vec::new();
            let mut k: usize = 0;
            while k < versions.len()
                invariant
                    k <= versions@.len(),
                    sorted@ == keyed_newest_first(versions_of_package(versions@.subrange(0, k as int), package_id)),
                decreases versions@.len() - k,
            {
                let ghost prefix = versions@.subrange(0, k + 1);
                assert(prefix.drop_last() =~= versions@.subrange(0, k as int));
                let ghost before = versions_of_package(versions@.subrange(0, k as int), package_id);
                if versions[k].1 == package_id {
                    let entry = (versions[k].0, copy_tree_version(&versions[k].2));
                    assert(entry == (versions@[k as int].0, versions@[k as int].2));
                    assert(versions_of_package(prefix, package_id) == before.push(entry));
                    assert(before.push(entry).drop_last() =~= before);
                    insert_keyed_exec(&mut sorted, entry);
                } else {
                    assert(versions_of_package(prefix, package_id) == before);
                }
                k = k + 1;
            }
            assert(versions@.subrange(0, versions@.len() as int) =~= versions@);
            let latest = if sorted.len() > 0 {
                Some(sorted[0].0)
            } else {
                None
            };
            let vulnerability_summary = summary_from(audits, latest);
            let mut tree_versions: Vec<NpmPackageTreeVersion> = Vec::new();
            let mut j: usize = 0;
            while j < sorted.len()
                invariant
                    j <= sorted@.len(),
                    tree_versions@ == tree_versions_of(sorted@.subrange(0, j as int)),
                decreases sorted@.len() - j,
            {
                tree_versions.push(copy_tree_version(&sorted[j].1));
                assert(tree_versions@ =~= tree_versions_of(sorted@.subrange(0, j + 1)));
                j = j + 1;
            }
            assert(sorted@.subrange(0, sorted@.len() as int) =~= sorted@);
            out.push(NpmPackageTreeEntry { name: packages[p].1.clone(), versions: tree_versions, vulnerability_summary });
            p = p + 1;
        }
        assert forall|i: int| 0 <= i < out@.len() implies newest_first(#[trigger] out@[i].versions@) by {
            lemma_keyed_newest_first_sorted(versions_of_package(versions@, packages@[i].0));
        }
        out
    }
}

/// Inserting into a list of names kept in order: after every name that is not greater.
pub open spec fn insert_in_order(sorted: Seq<Seq<char>>, x: Seq<char>) -> Seq<Seq<char>>
    decreases sorted.len(),
{
    if sorted.len() == 0 {
        seq![x]
    } else if lex_lt(x, sorted[0]) {
        seq![x] + sorted
    } else {
        seq![sorted[0]] + insert_in_order(sorted.drop_first(), x)
    }
}

/// The names in order (as `sort` orders strings).
pub open spec fn in_order(xs: Seq<Seq<char>>) -> Seq<Seq<char>>
    decreases xs.len(),
{
    if xs.len() == 0 {
        Seq::empty()
    } else {
        insert_in_order(in_order(xs.drop_last()), xs.last())
    }
}

/// Inserting into a list of distinct names kept in order; a name already there is not added.
pub open spec fn insert_distinct(sorted: Seq<Seq<char>>, x: Seq<char>) -> Seq<Seq<char>>
    decreases sorted.len(),
{
    if sorted.len() == 0 {
        seq![x]
    } else if x == sorted[0] {
        sorted
    } else if lex_lt(x, sorted[0]) {
        seq![x] + sorted
    } else {
        seq![sorted[0]] + insert_distinct(sorted.drop_first(), x)
    }
}

pub open spec fn distinct_in_order(xs: Seq<Seq<char>>) -> Seq<Seq<char>>
    decreases xs.len(),
{
    if xs.len() == 0 {
        Seq::empty()
    } else {
        insert_distinct(distinct_in_order(xs.drop_last()), xs.last())
    }
}

pub open spec fn image_names(pairs: Seq<(String, String, u128, i64)>) -> Seq<Seq<char>> {
    pairs.map_values(|p: (String, String, u128, i64)| p.0@)
}

/// The tags listed for an image, in the order given.
pub open spec fn tags_of_image(pairs: Seq<(String, String, u128, i64)>, name: Seq<char>) -> Seq<Seq<char>>
    decreases pairs.len(),
{
    if pairs.len() == 0 {
        Seq::empty()
    } else {
        let rest = tags_of_image(pairs.drop_last(), name);
        if pairs.last().0@ == name {
            rest.push(pairs.last().1@)
        } else {
            rest
        }
    }
}

/// The most recently updated tag of an image, as `(manifest id, updated_at)`: the tag with the
/// greatest update time (the first listed of equally recent ones).
pub open spec fn latest_tag_of(tags: Seq<(String, String, u128, i64)>, name: Seq<char>) -> Option<(u128, i64)>
    decreases tags.len(),
{
    if tags.len() == 0 {
        None
    } else {
        let rest = latest_tag_of(tags.drop_last(), name);
        let t = tags.last();
        let newer = match rest {
            None => true,
            Some((_, at)) => t.3 > at,
        };
        if t.0@ == name && newer {
            Some((t.2, t.3))
        } else {
            rest
        }
    }
}

/// The manifest an image's summary is drawn from: its most recently updated tag's.
pub open spec fn latest_manifest_of(tags: Seq<(String, String, u128, i64)>, name: Seq<char>) -> Option<u128> {
    match latest_tag_of(tags, name) {
        Some((m, _)) => Some(m),
        None => None,
    }
}

pub open spec fn strings_view(v: Seq<String>) -> Seq<Seq<char>> {
    v.map_values(|s: String| s@)
}

pub fn insert_in_order_exec(sorted: &mut Vec<String>, x: String)
    ensures
        strings_view(final(sorted)@) == insert_in_order(strings_view(old(sorted)@), x@),
{
    let ghost s0 = strings_view(sorted@);
    let mut i: usize = 0;
    while i < sorted.len() && !str_lt(x.as_str(), sorted[i].as_str())
        invariant
            i <= sorted@.len(),
            s0 == strings_view(sorted@),
            forall|k: int| 0 <= k < i ==> !lex_lt(x@, #[trigger] s0[k]),
        decreases sorted@.len() - i,
    {
        i = i + 1;
    }
    proof {
        lemma_insert_in_order_at(s0, x@, i as int);
    }
    let ghost xv = x@;
    sorted.insert(i, x);
    assert(strings_view(sorted@) =~= s0.insert(i as int, xv));
}

proof fn lemma_insert_in_order_at(s: Seq<Seq<char>>, x: Seq<char>, i: int)
    requires
        0 <= i <= s.len(),
        forall|k: int| 0 <= k < i ==> !lex_lt(x, #[trigger] s[k]),
        i < s.len() ==> lex_lt(x, s[i]),
    ensures
        insert_in_order(s, x) == s.insert(i, x),
    decreases s.len(),
{
    if s.len() == 0 {
        assert(s.insert(i, x) =~= seq![x]);
    } else if i == 0 {
        assert(s.insert(0, x) =~= seq![x] + s);
    } else {
        assert forall|k: int| 0 <= k < i - 1 implies !lex_lt(x, #[trigger] s.drop_first()[k]) by {
            assert(s.drop_first()[k] == s[k + 1]);
        }
        lemma_insert_in_order_at(s.drop_first(), x, i - 1);
        assert(s.insert(i, x) =~= seq![s[0]] + s.drop_first().insert(i - 1, x));
    }
}

pub fn insert_distinct_exec(sorted: &mut Vec<String>, x: &String)
    ensures
        strings_view(final(sorted)@) == insert_distinct(strings_view(old(sorted)@), x@),
{
    let ghost s0 = strings_view(sorted@);
    let mut i: usize = 0;
    while i < sorted.len() && !str_eq(x.as_str(), sorted[i].as_str()) && !str_lt(x.as_str(), sorted[i].as_str())
        invariant
            i <= sorted@.len(),
            s0 == strings_view(sorted@),
            forall|k: int| 0 <= k < i ==> x@ != #[trigger] s0[k] && !lex_lt(x@, s0[k]),
        decreases sorted@.len() - i,
    {
        i = i + 1;
    }
    if i < sorted.len() && str_eq(x.as_str(), sorted[i].as_str()) {
        proof {
            lemma_insert_distinct_found(s0, x@, i as int);
        }
        return;
    }
    proof {
        lemma_insert_distinct_at(s0, x@, i as int);
    }
    sorted.insert(i, x.clone());
    assert(strings_view(sorted@) =~= s0.insert(i as int, x@));
}

proof fn lemma_insert_distinct_found(s: Seq<Seq<char>>, x: Seq<char>, i: int)
    requires
        0 <= i < s.len(),
        forall|k: int| 0 <= k < i ==> x != #[trigger] s[k] && !lex_lt(x, s[k]),
        s[i] == x,
    ensures
        insert_distinct(s, x) == s,
    decreases s.len(),
{
    if i > 0 {
        assert forall|k: int| 0 <= k < i - 1 implies x != #[trigger] s.drop_first()[k] && !lex_lt(x, s.drop_first()[k]) by {
            assert(s.drop_first()[k] == s[k + 1]);
        }
        lemma_insert_distinct_found(s.drop_first(), x, i - 1);
        assert(seq![s[0]] + s.drop_first() =~= s);
    }
}

proof fn lemma_insert_distinct_at(s: Seq<Seq<char>>, x: Seq<char>, i: int)
    requires
        0 <= i <= s.len(),
        forall|k: int| 0 <= k < i ==> x != #[trigger] s[k] && !lex_lt(x, s[k]),
        i < s.len() ==> lex_lt(x, s[i]) && x != s[i],
    ensures
        insert_distinct(s, x) == s.insert(i, x),
    decreases s.len(),
{
    if s.len() == 0 {
        assert(s.insert(i, x) =~= seq![x]);
    } else if i == 0 {
        assert(s.insert(0, x) =~= seq![x] + s);
    } else {
        assert forall|k: int| 0 <= k < i - 1 implies x != #[trigger] s.drop_first()[k] && !lex_lt(x, s.drop_first()[k]) by {
            assert(s.drop_first()[k] == s[k + 1]);
        }
        lemma_insert_distinct_at(s.drop_first(), x, i - 1);
        assert(s.insert(i, x) =~= seq![s[0]] + s.drop_first().insert(i - 1, x));
    }
}

fn latest_manifest(tags: &Vec<(String, String, u128, i64)>, name: &str) -> (r: Option<u128>)
    ensures
        r == latest_manifest_of(tags@, name@),
{
    let mut best: Option<(u128, i64)> = None;
    let mut i: usize = 0;
    while i < tags.len()
        invariant
            i <= tags@.len(),
            best == latest_tag_of(tags@.subrange(0, i as int), name@),
        decreases tags@.len() - i,
    {
        assert(tags@.subrange(0, i + 1).drop_last() =~= tags@.subrange(0, i as int));
        if str_eq(tags[i].0.as_str(), name) {
            let newer = match best {
                None => true,
                Some((_, at)) => tags[i].3 > at,
            };
            if newer {
                best = Some((tags[i].2, tags[i].3));
            }
        }
        i = i + 1;
    }
    assert(tags@.subrange(0, tags@.len() as int) =~= tags@);
    match best {
        Some((m, _)) => Some(m),
        None => None,
    }
}

/// The entry of an image: its tags in order, and the counts of its latest manifest's scan.
pub open spec fn docker_entry_ok(
    e: DockerImageTreeEntry,
    name: Seq<char>,
    pairs: Seq<(String, String, u128, i64)>,
    scans: Seq<(u128, Vec<String>)>,
) -> bool {
    &&& e.image_name@ == name
    &&& strings_view(e.tags@) == in_order(tags_of_image(pairs, name))
    &&& e.vulnerability_summary == summary_for(scans, latest_manifest_of(pairs, name))
}

impl ListRepositoryPackagesUseCase {
    /// The docker tree: each image that has a tag, by name in order, its tags in order, and the
    /// counts of the scan of its most recently updated tag's manifest. `pairs` lists `(image,
    /// tag, manifest id, updated_at)`; `scans` the latest scan's severities per manifest id.
    pub fn list_docker(
        pairs: &Vec<(String, String, u128, i64)>,
        scans: &Vec<(u128, Vec<String>)>,
    ) -> (r: Vec<DockerImageTreeEntry>)
        requires
            forall|k: int| 0 <= k < scans@.len() ==> (#[trigger] scans@[k]).1@.len() <= i64::MAX,
        ensures
            strings_view(r@.map_values(|e: DockerImageTreeEntry| e.image_name)) == distinct_in_order(image_names(pairs@)),
            forall|i: int|
                0 <= i < r@.len() ==> docker_entry_ok(#[trigger] r@[i], r@[i].image_name@, pairs@, scans@),
            names_strictly_sorted(strings_view(r@.map_values(|e: DockerImageTreeEntry| e.image_name))),
            forall|i: int| 0 <= i < r@.len() ==> names_sorted(strings_view((#[trigger] r@[i]).tags@)),
    {
        let mut names: Vec<String> = Vec::new();
        let mut k: usize = 0;
        while k < pairs.len()
            invariant
                k <= pairs@.len(),
                strings_view(names@) == distinct_in_order(image_names(pairs@.subrange(0, k as int))),
            decreases pairs@.len() - k,
        {
            assert(image_names(pairs@.subrange(0, k + 1)).drop_last() =~= image_names(pairs@.subrange(0, k as int)));
            insert_distinct_exec(&mut names, &pairs[k].0);
            k = k + 1;
        }
        assert(pairs@.subrange(0, pairs@.len() as int) =~= pairs@);
        let ghost nv = strings_view(names@);
        let mut out: Vec<DockerImageTreeEntry> = Vec::new();
        let mut n: usize = 0;
        while n < names.len()
            invariant
                n <= names@.len(),
                nv == strings_view(names@),
                out@.len() == n,
                forall|k: int| 0 <= k < scans@.len() ==> (#[trigger] scans@[k]).1@.len() <= i64::MAX,
                forall|i: int| 0 <= i < n ==> (#[trigger] out@[i]).image_name@ == nv[i],
                forall|i: int|
                    0 <= i < n ==> docker_entry_ok(#[trigger] out@[i], out@[i].image_name@, pairs@, scans@),
            decreases names@.len() - n,
        {
            let name = &names[n];
            let mut tags: Vec<String> = Vec::new();
            let mut t: usize = 0;
            while t < pairs.len()
                invariant
                    t <= pairs@.len(),
                    strings_view(tags@) == in_order(tags_of_image(pairs@.subrange(0, t as int), name@)),
                decreases pairs@.len() - t,
            {
                let ghost prefix = pairs@.subrange(0, t + 1);
                assert(prefix.drop_last() =~= pairs@.subrange(0, t as int));
                let ghost before = tags_of_image(pairs@.subrange(0, t as int), name@);
                if str_eq(pairs[t].0.as_str(), name.as_str()) {
                    assert(tags_of_image(prefix, name@) == before.push(pairs@[t as int].1@));
                    assert(before.push(pairs@[t as int].1@).drop_last() =~= before);
                    insert_in_order_exec(&mut tags, pairs[t].1.clone());
                } else {
                    assert(tags_of_image(prefix, name@) == before);
                }
                t = t + 1;
            }
            assert(pairs@.subrange(0, pairs@.len() as int) =~= pairs@);
            let manifest = latest_manifest(pairs, name.as_str());
            let vulnerability_summary = summary_from(scans, manifest);
            out.push(DockerImageTreeEntry { image_name: name.clone(), tags, vulnerability_summary });
            n = n + 1;
        }
        assert(strings_view(out@.map_values(|e: DockerImageTreeEntry| e.image_name)) =~= nv);
        proof {
            lemma_distinct_in_order(image_names(pairs@));
            assert forall|i: int| 0 <= i < out@.len() implies names_sorted(strings_view((#[trigger] out@[i]).tags@)) by {
                lemma_in_order_sorted(tags_of_image(pairs@, out@[i].image_name@));
            }
        }
        out
    }
}

/// Names in non-decreasing order.
pub open spec fn names_sorted(s: Seq<Seq<char>>) -> bool {
    forall|i: int, j: int| 0 <= i < j < s.len() ==> !lex_lt(#[trigger] s[j], #[trigger] s[i])
}

/// Names in increasing order, none twice.
pub open spec fn names_strictly_sorted(s: Seq<Seq<char>>) -> bool {
    forall|i: int, j: int| 0 <= i < j < s.len() ==> lex_lt(#[trigger] s[i], #[trigger] s[j])
}

proof fn lemma_insert_in_order_sorted(s: Seq<Seq<char>>, x: Seq<char>)
    requires
        names_sorted(s),
    ensures
        names_sorted(insert_in_order(s, x)),
        insert_in_order(s, x).len() == s.len() + 1,
        forall|k: int| 0 <= k < insert_in_order(s, x).len() ==> (#[trigger] insert_in_order(s, x)[k] == x || s.contains(
            insert_in_order(s, x)[k],
        )),
    decreases s.len(),
{
    let r = insert_in_order(s, x);
    if s.len() == 0 {
    } else if lex_lt(x, s[0]) {
        assert forall|i: int, j: int| 0 <= i < j < r.len() implies !lex_lt(#[trigger] r[j], #[trigger] r[i]) by {
            if i == 0 {
                assert(r[j] == s[j - 1]);
                lemma_lex_lt_asymmetric(x, s[0]);
                if j - 1 > 0 {
                    assert(!lex_lt(s[j - 1], s[0]));
                    lemma_lex_lt_total(s[0], s[j - 1]);
                    if lex_lt(s[j - 1], x) {
                        if s[0] =~= s[j - 1] {
                            lemma_lex_lt_asymmetric(x, s[0]);
                        } else {
                            lemma_lex_lt_transitive(x, s[0], s[j - 1]);
                            lemma_lex_lt_asymmetric(x, s[j - 1]);
                        }
                    }
                }
            } else {
                assert(r[i] == s[i - 1] && r[j] == s[j - 1]);
            }
        }
        assert forall|k: int| 0 <= k < r.len() implies (#[trigger] r[k] == x || s.contains(r[k])) by {
            if k > 0 {
                assert(r[k] == s[k - 1]);
            }
        }
    } else {
        let rest = s.drop_first();
        assert forall|i: int, j: int| 0 <= i < j < rest.len() implies !lex_lt(#[trigger] rest[j], #[trigger] rest[i]) by {
            assert(rest[i] == s[i + 1] && rest[j] == s[j + 1]);
        }
        lemma_insert_in_order_sorted(rest, x);
        let inner = insert_in_order(rest, x);
        assert(r == seq![s[0]] + inner);
        assert forall|k: int| 0 <= k < inner.len() implies !lex_lt(#[trigger] inner[k], s[0]) by {
            if inner[k] == x {
            } else {
                assert(rest.contains(inner[k]));
                let m = choose|m: int| 0 <= m < rest.len() && rest[m] == inner[k];
                assert(rest[m] == s[m + 1]);
            }
        }
        assert forall|i: int, j: int| 0 <= i < j < r.len() implies !lex_lt(#[trigger] r[j], #[trigger] r[i]) by {
            if i == 0 {
                assert(r[j] == inner[j - 1]);
            } else {
                assert(r[i] == inner[i - 1] && r[j] == inner[j - 1]);
            }
        }
        assert forall|k: int| 0 <= k < r.len() implies (#[trigger] r[k] == x || s.contains(r[k])) by {
            if k == 0 {
                assert(s.contains(s[0]));
            } else {
                assert(r[k] == inner[k - 1]);
                if inner[k - 1] != x {
                    let m = choose|m: int| 0 <= m < rest.len() && rest[m] == inner[k - 1];
                    assert(s[m + 1] == rest[m]);
                }
            }
        }
    }
}

/// Tags and names listed `in_order` come out in order.
pub proof fn lemma_in_order_sorted(xs: Seq<Seq<char>>)
    ensures
        names_sorted(in_order(xs)),
        in_order(xs).len() == xs.len(),
    decreases xs.len(),
{
    if xs.len() > 0 {
        lemma_in_order_sorted(xs.drop_last());
        lemma_insert_in_order_sorted(in_order(xs.drop_last()), xs.last());
    }
}

proof fn lemma_insert_distinct_sorted(s: Seq<Seq<char>>, x: Seq<char>)
    requires
        names_strictly_sorted(s),
    ensures
        names_strictly_sorted(insert_distinct(s, x)),
        forall|y: Seq<char>| #[trigger] insert_distinct(s, x).contains(y) <==> (y == x || s.contains(y)),
    decreases s.len(),
{
    let r = insert_distinct(s, x);
    if s.len() == 0 {
        assert forall|y: Seq<char>| #[trigger] r.contains(y) <==> (y == x || s.contains(y)) by {
            if y == x {
                assert(r[0] == x);
            }
        }
    } else if x == s[0] {
        assert forall|y: Seq<char>| #[trigger] r.contains(y) <==> (y == x || s.contains(y)) by {
            if y == x {
                assert(s[0] == x);
            }
        }
    } else if lex_lt(x, s[0]) {
        assert forall|i: int, j: int| 0 <= i < j < r.len() implies lex_lt(#[trigger] r[i], #[trigger] r[j]) by {
            if i == 0 {
                assert(r[j] == s[j - 1]);
                if j - 1 > 0 {
                    lemma_lex_lt_transitive(x, s[0], s[j - 1]);
                }
            } else {
                assert(r[i] == s[i - 1] && r[j] == s[j - 1]);
            }
        }
        assert forall|y: Seq<char>| #[trigger] r.contains(y) <==> (y == x || s.contains(y)) by {
            if r.contains(y) {
                let k = choose|k: int| 0 <= k < r.len() && r[k] == y;
                if k > 0 {
                    assert(s[k - 1] == y);
                }
            }
            if y == x {
                assert(r[0] == x);
            }
            if s.contains(y) {
                let k = choose|k: int| 0 <= k < s.len() && s[k] == y;
                assert(r[k + 1] == y);
            }
        }
    } else {
        let rest = s.drop_first();
        assert forall|i: int, j: int| 0 <= i < j < rest.len() implies lex_lt(#[trigger] rest[i], #[trigger] rest[j]) by {
            assert(rest[i] == s[i + 1] && rest[j] == s[j + 1]);
        }
        lemma_insert_distinct_sorted(rest, x);
        let inner = insert_distinct(rest, x);
        assert(r == seq![s[0]] + inner);
        lemma_lex_lt_total(x, s[0]);
        assert forall|k: int| 0 <= k < inner.len() implies lex_lt(s[0], #[trigger] inner[k]) by {
            assert(inner.contains(inner[k]));
            if inner[k] != x {
                let m = choose|m: int| 0 <= m < rest.len() && rest[m] == inner[k];
                assert(rest[m] == s[m + 1]);
            }
        }
        assert forall|i: int, j: int| 0 <= i < j < r.len() implies lex_lt(#[trigger] r[i], #[trigger] r[j]) by {
            if i == 0 {
                assert(r[j] == inner[j - 1]);
            } else {
                assert(r[i] == inner[i - 1] && r[j] == inner[j - 1]);
            }
        }
        assert forall|y: Seq<char>| #[trigger] r.contains(y) <==> (y == x || s.contains(y)) by {
            if r.contains(y) {
                let k = choose|k: int| 0 <= k < r.len() && r[k] == y;
                if k > 0 {
                    assert(inner[k - 1] == y);
                    assert(inner.contains(y));
                    if y != x {
                        let m = choose|m: int| 0 <= m < rest.len() && rest[m] == y;
                        assert(s[m + 1] == y);
                    }
                } else {
                    assert(s[0] == y);
                }
            }
            if y == x {
                assert(inner.contains(x));
                let k = choose|k: int| 0 <= k < inner.len() && inner[k] == x;
                assert(r[k + 1] == x);
            }
            if s.contains(y) {
                let k = choose|k: int| 0 <= k < s.len() && s[k] == y;
                if k == 0 {
                    assert(r[0] == y);
                } else {
                    assert(rest[k - 1] == y);
                    assert(rest.contains(y));
                    assert(inner.contains(y));
                    let m = choose|m: int| 0 <= m < inner.len() && inner[m] == y;
                    assert(r[m + 1] == y);
                }
            }
        }
    }
}

/// Image names listed `distinct_in_order` come out in increasing order, each once, and are
/// exactly the names given.
pub proof fn lemma_distinct_in_order(xs: Seq<Seq<char>>)
    ensures
        names_strictly_sorted(distinct_in_order(xs)),
        forall|y: Seq<char>| #[trigger] distinct_in_order(xs).contains(y) <==> xs.contains(y),
    decreases xs.len(),
{
    if xs.len() > 0 {
        lemma_distinct_in_order(xs.drop_last());
        lemma_insert_distinct_sorted(distinct_in_order(xs.drop_last()), xs.last());
        assert forall|y: Seq<char>| #[trigger] distinct_in_order(xs).contains(y) <==> xs.contains(y) by {
            if xs.contains(y) && y != xs.last() {
                let k = choose|k: int| 0 <= k < xs.len() && xs[k] == y;
                assert(xs.drop_last()[k] == y);
                assert(xs.drop_last().contains(y));
            }
            if xs.drop_last().contains(y) {
                let k = choose|k: int| 0 <= k < xs.drop_last().len() && xs.drop_last()[k] == y;
                assert(xs[k] == y);
            }
            if y == xs.last() {
                assert(xs[xs.len() - 1] == y);
            }
        }
    } else {
        assert(names_strictly_sorted(distinct_in_order(xs)));
    }
}

proof fn lemma_insert_in_order_is_insert(s: Seq<Seq<char>>, x: Seq<char>) -> (i: int)
    ensures
        0 <= i <= s.len(),
        insert_in_order(s, x) == s.insert(i, x),
    decreases s.len(),
{
    if s.len() == 0 {
        assert(s.insert(0, x) =~= seq![x]);
        0
    } else if lex_lt(x, s[0]) {
        assert(s.insert(0, x) =~= seq![x] + s);
        0
    } else {
        let j = lemma_insert_in_order_is_insert(s.drop_first(), x);
        assert(s.insert(j + 1, x) =~= seq![s[0]] + s.drop_first().insert(j, x));
        j + 1
    }
}

/// Ordering names neither adds nor drops one: the result holds each name as often as the input.
pub proof fn lemma_in_order_permutes(xs: Seq<Seq<char>>)
    ensures
        in_order(xs).to_multiset() == xs.to_multiset(),
    decreases xs.len(),
{
    if xs.len() == 0 {
        assert(in_order(xs) =~= xs);
    } else {
        let rest = xs.drop_last();
        lemma_in_order_permutes(rest);
        let i = lemma_insert_in_order_is_insert(in_order(rest), xs.last());
        vstd::seq_lib::to_multiset_insert(in_order(rest), i, xs.last());
        vstd::seq_lib::to_multiset_build(rest, xs.last());
        assert(rest.push(xs.last()) =~= xs);
    }
}

} // verus!
