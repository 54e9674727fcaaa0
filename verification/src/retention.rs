//! Retention: a repository may keep only its newest `n` versions (npm) or tags (docker). The
//! sweep that enforces it never deletes what a dist-tag points at, nor the `latest` tag.

use vstd::prelude::*;

use crate::text::str_eq;

verus! {

/// The actor the sweep's deletions are recorded under: the nil id, never a real user's.
pub const RETENTION_SWEEP_ACTOR: u128 = 0;

/// Never deleted whatever its rank: `docker pull image` without a tag resolves to it.
pub const PROTECTED_DOCKER_TAG: &'static str = "latest";

/// What a sweep deleted.
#[derive(Debug, Clone, Copy, PartialEq, Eq, Structural)]
pub struct RetentionSweepReport {
    pub npm_versions_deleted: usize,
    pub docker_tags_deleted: usize,
}

impl Default for RetentionSweepReport {
    fn default() -> (r: Self)
        ensures
            r.npm_versions_deleted == 0,
            r.docker_tags_deleted == 0,
    {
        RetentionSweepReport { npm_versions_deleted: 0, docker_tags_deleted: 0 }
    }
}

/// How many of `outcomes` are successes.
pub open spec fn successes(outcomes: Seq<bool>) -> nat
    decreases outcomes.len(),
{
    if outcomes.len() == 0 {
        0
    } else {
        successes(outcomes.drop_last()) + if outcomes.last() {
            1nat
        } else {
            0nat
        }
    }
}

impl RetentionSweepReport {
    /// Counts an npm version the sweep tried to unpublish: once if it was removed; a failed
    /// removal is skipped, not counted.
    pub fn record_npm_deletion(&mut self, deleted: bool)
        requires
            deleted ==> old(self).npm_versions_deleted < usize::MAX,
        ensures
            final(self).npm_versions_deleted == old(self).npm_versions_deleted + if deleted {
                1int
            } else {
                0int
            },
            final(self).docker_tags_deleted == old(self).docker_tags_deleted,
    {
        if deleted {
            self.npm_versions_deleted = self.npm_versions_deleted + 1;
        }
    }

    /// Counts a manifest the sweep tried to delete: once if it was deleted, and then its digest
    /// joins `deleted` so no other tag sharing it is tried again.
    pub fn record_docker_deletion(&mut self, deleted_digests: &mut Vec<String>, digest: String, deleted: bool)
        requires
            deleted ==> old(self).docker_tags_deleted < usize::MAX,
        ensures
            final(self).docker_tags_deleted == old(self).docker_tags_deleted + if deleted {
                1int
            } else {
                0int
            },
            final(self).npm_versions_deleted == old(self).npm_versions_deleted,
            final(deleted_digests)@ == if deleted {
                old(deleted_digests)@.push(digest)
            } else {
                old(deleted_digests)@
            },
    {
        if deleted {
            self.docker_tags_deleted = self.docker_tags_deleted + 1;
            deleted_digests.push(digest);
        }
    }
}

/// Over a sweep, a deletion count grows by exactly the deletions that succeeded.
pub proof fn lemma_sweep_counts_successes(outcomes: Seq<bool>, counts: Seq<int>)
    requires
        counts.len() == outcomes.len() + 1,
        forall|i: int|
            0 <= i < outcomes.len() ==> #[trigger] counts[i + 1] == counts[i] + if outcomes[i] {
                1int
            } else {
                0int
            },
    ensures
        counts.last() == counts[0] + successes(outcomes),
    decreases outcomes.len(),
{
    if outcomes.len() > 0 {
        let n = outcomes.len() - 1;
        let prefix = counts.subrange(0, n + 1);
        assert forall|i: int| 0 <= i < outcomes.drop_last().len() implies #[trigger] prefix[i + 1] == prefix[i] + if outcomes.drop_last()[i] {
            1int
        } else {
            0int
        } by {
            assert(counts[i + 1] == counts[i] + if outcomes[i] {
                1int
            } else {
                0int
            });
        }
        lemma_sweep_counts_successes(outcomes.drop_last(), prefix);
        assert(counts[n + 1] == counts[n] + if outcomes[n] {
            1int
        } else {
            0int
        });
    }
}

/// A retention setting as a count: a negative one keeps nothing.
pub fn keep_count(keep_last_n: i32) -> (r: usize)
    ensures
        r == (if keep_last_n < 0 {
            0
        } else {
            keep_last_n as int
        }),
{
    if keep_last_n < 0 {
        0
    } else {
        keep_last_n as usize
    }
}

/// Inserting into a list kept newest first, after everything at the same instant or later (so
/// equal instants keep their order).
pub open spec fn insert_dated(sorted: Seq<(Seq<char>, Seq<char>, i64)>, x: (Seq<char>, Seq<char>, i64)) -> Seq<
    (Seq<char>, Seq<char>, i64),
>
    decreases sorted.len(),
{
    if sorted.len() == 0 {
        seq![x]
    } else if sorted[0].2 >= x.2 {
        seq![sorted[0]] + insert_dated(sorted.drop_first(), x)
    } else {
        seq![x] + sorted
    }
}

/// Newest first, equal instants in the order given (a stable sort by time, descending).
pub open spec fn dated_newest_first(xs: Seq<(Seq<char>, Seq<char>, i64)>) -> Seq<(Seq<char>, Seq<char>, i64)>
    decreases xs.len(),
{
    if xs.len() == 0 {
        Seq::empty()
    } else {
        insert_dated(dated_newest_first(xs.drop_last()), xs.last())
    }
}

/// An npm version ranked by when it was published.
pub open spec fn npm_dated(versions: Seq<(String, i64)>) -> Seq<(Seq<char>, Seq<char>, i64)> {
    versions.map_values(|v: (String, i64)| (v.0@, v.0@, v.1))
}

pub open spec fn dated_view(xs: Seq<(String, String, i64)>) -> Seq<(Seq<char>, Seq<char>, i64)> {
    xs.map_values(|x: (String, String, i64)| (x.0@, x.1@, x.2))
}

proof fn lemma_insert_dated_at(s: Seq<(Seq<char>, Seq<char>, i64)>, x: (Seq<char>, Seq<char>, i64), i: int)
    requires
        0 <= i <= s.len(),
        forall|k: int| 0 <= k < i ==> (#[trigger] s[k]).2 >= x.2,
        i < s.len() ==> s[i].2 < x.2,
    ensures
        insert_dated(s, x) == s.insert(i, x),
    decreases s.len(),
{
    if s.len() == 0 {
        assert(s.insert(i, x) =~= seq![x]);
    } else if i == 0 {
        assert(s.insert(0, x) =~= seq![x] + s);
    } else {
        assert forall|k: int| 0 <= k < i - 1 implies (#[trigger] s.drop_first()[k]).2 >= x.2 by {
            assert(s.drop_first()[k] == s[k + 1]);
        }
        lemma_insert_dated_at(s.drop_first(), x, i - 1);
        assert(s.insert(i, x) =~= seq![s[0]] + s.drop_first().insert(i - 1, x));
    }
}

/// Where `insert_dated` puts the new entry: after every leading entry at the same instant or later.
pub open spec fn insert_dated_index(sorted: Seq<(Seq<char>, Seq<char>, i64)>, x: (Seq<char>, Seq<char>, i64)) -> int
    decreases sorted.len(),
{
    if sorted.len() == 0 {
        0
    } else if sorted[0].2 >= x.2 {
        1 + insert_dated_index(sorted.drop_first(), x)
    } else {
        0
    }
}

proof fn lemma_insert_dated_index(s: Seq<(Seq<char>, Seq<char>, i64)>, x: (Seq<char>, Seq<char>, i64))
    ensures
        0 <= insert_dated_index(s, x) <= s.len(),
        forall|k: int| 0 <= k < insert_dated_index(s, x) ==> (#[trigger] s[k]).2 >= x.2,
        insert_dated_index(s, x) < s.len() ==> s[insert_dated_index(s, x)].2 < x.2,
        insert_dated(s, x) == s.insert(insert_dated_index(s, x), x),
    decreases s.len(),
{
    let idx = insert_dated_index(s, x);
    if s.len() > 0 && s[0].2 >= x.2 {
        lemma_insert_dated_index(s.drop_first(), x);
        assert forall|k: int| 0 <= k < idx implies (#[trigger] s[k]).2 >= x.2 by {
            if k > 0 {
                assert(s[k] == s.drop_first()[k - 1]);
            }
        }
        if idx < s.len() {
            assert(s[idx] == s.drop_first()[idx - 1]);
        }
    }
    lemma_insert_dated_at(s, x, idx);
}

/// The newest-first ranking holds exactly the entries given, as often as given, each published
/// no earlier than the one after it.
pub proof fn lemma_newest_first_is_sorted_permutation(xs: Seq<(Seq<char>, Seq<char>, i64)>)
    ensures
        dated_newest_first(xs).to_multiset() == xs.to_multiset(),
        dated_newest_first(xs).len() == xs.len(),
        forall|i: int, j: int|
            0 <= i < j < dated_newest_first(xs).len() ==> (#[trigger] dated_newest_first(xs)[i]).2
                >= (#[trigger] dated_newest_first(xs)[j]).2,
    decreases xs.len(),
{
    if xs.len() == 0 {
        assert(dated_newest_first(xs) =~= xs);
    } else {
        let s = dated_newest_first(xs.drop_last());
        let x = xs.last();
        lemma_newest_first_is_sorted_permutation(xs.drop_last());
        lemma_insert_dated_index(s, x);
        let idx = insert_dated_index(s, x);
        let r = s.insert(idx, x);
        assert(dated_newest_first(xs) == r);
        vstd::seq_lib::to_multiset_insert(s, idx, x);
        assert(xs.drop_last().push(x) =~= xs);
        vstd::seq_lib::to_multiset_build(xs.drop_last(), x);
        vstd::seq_lib::to_multiset_len(xs);
        vstd::seq_lib::to_multiset_len(r);
        assert forall|i: int, j: int| 0 <= i < j < r.len() implies (#[trigger] r[i]).2 >= (#[trigger] r[j]).2 by {
            if j < idx {
                assert(r[i] == s[i] && r[j] == s[j]);
            } else if j == idx {
                assert(r[i] == s[i] && r[j] == x);
            } else {
                assert(r[j] == s[j - 1]);
                if i < idx {
                    assert(r[i] == s[i]);
                    if i < j - 1 {
                        assert(s[i].2 >= s[j - 1].2);
                    }
                } else if i == idx {
                    assert(r[i] == x);
                    if idx < j - 1 {
                        assert(s[idx].2 >= s[j - 1].2);
                    }
                } else {
                    assert(r[i] == s[i - 1]);
                }
            }
        }
    }
}

fn newest_first(items: &Vec<(String, String, i64)>) -> (r: Vec<(String, String, i64)>)
    ensures
        dated_view(r@) == dated_newest_first(dated_view(items@)),
{
    let mut sorted: Vec<(String, String, i64)> = Vec::new();
    let mut k: usize = 0;
    while k < items.len()
        invariant
            k <= items@.len(),
            dated_view(sorted@) == dated_newest_first(dated_view(items@.subrange(0, k as int))),
        decreases items@.len() - k,
    {
        let ghost prefix = dated_view(items@.subrange(0, k + 1));
        assert(prefix.drop_last() =~= dated_view(items@.subrange(0, k as int)));
        let x = (items[k].0.clone(), items[k].1.clone(), items[k].2);
        let ghost s0 = dated_view(sorted@);
        let ghost xv = (x.0@, x.1@, x.2);
        assert(prefix.last() == xv);
        let mut i: usize = 0;
        while i < sorted.len() && sorted[i].2 >= x.2
            invariant
                i <= sorted@.len(),
                s0 == dated_view(sorted@),
                xv == (x.0@, x.1@, x.2),
                forall|j: int| 0 <= j < i ==> (#[trigger] s0[j]).2 >= x.2,
            decreases sorted@.len() - i,
        {
            i = i + 1;
        }
        proof {
            lemma_insert_dated_at(s0, xv, i as int);
        }
        sorted.insert(i, x);
        assert(dated_view(sorted@) =~= s0.insert(i as int, xv));
        k = k + 1;
    }
    assert(items@.subrange(0, items@.len() as int) =~= items@);
    sorted
}

fn contains_string(v: &Vec<String>, s: &str) -> (r: bool)
    ensures
        r == (exists|i: int| 0 <= i < v@.len() && (#[trigger] v@[i])@ == s@),
{
    let mut i: usize = 0;
    while i < v.len()
        invariant
            i <= v@.len(),
            forall|j: int| 0 <= j < i ==> (#[trigger] v@[j])@ != s@,
        decreases v@.len() - i,
    {
        if str_eq(v[i].as_str(), s) {
            return true;
        }
        i = i + 1;
    }
    false
}

/// The npm versions a sweep removes from one package, in the order it removes them: none while
/// the package holds no more than `keep_n` versions; otherwise, ranked newest first, each past
/// the first `keep_n` that no dist-tag points at (ranked as `(version, version, published_at)`).
pub open spec fn npm_versions_to_delete(
    sorted: Seq<(Seq<char>, Seq<char>, i64)>,
    protected: Seq<Seq<char>>,
    keep_n: int,
) -> Seq<Seq<char>>
    decreases sorted.len(),
{
    if sorted.len() == 0 {
        Seq::empty()
    } else {
        let rest = npm_versions_to_delete(sorted.drop_last(), protected, keep_n);
        let rank = sorted.len() - 1;
        if rank < keep_n || protected.contains(sorted.last().0) {
            rest
        } else {
            rest.push(sorted.last().0)
        }
    }
}

/// Which docker digests are protected: those of the first `keep_n` tags by rank, and any
/// digest the `latest` tag points at (a digest is protected if any of its tags is).
pub open spec fn digest_protected(sorted: Seq<(Seq<char>, Seq<char>, i64)>, keep_n: int, digest: Seq<char>) -> bool {
    exists|k: int|
        0 <= k < sorted.len() && (k < keep_n || sorted[k].0 == PROTECTED_DOCKER_TAG@) && (#[trigger] sorted[k]).1 == digest
}

/// The digests the sweep tries to delete from an image, in rank order: every unprotected
/// digest (a digest shared by several tags appears once per tag).
pub open spec fn docker_candidates(sorted: Seq<(Seq<char>, Seq<char>, i64)>, all: Seq<(Seq<char>, Seq<char>, i64)>, keep_n: int) -> Seq<
    Seq<char>,
>
    decreases sorted.len(),
{
    if sorted.len() == 0 {
        Seq::empty()
    } else {
        let rest = docker_candidates(sorted.drop_last(), all, keep_n);
        if digest_protected(all, keep_n, sorted.last().1) {
            rest
        } else {
            rest.push(sorted.last().1)
        }
    }
}

proof fn lemma_docker_candidates_unprotected(
    sorted: Seq<(Seq<char>, Seq<char>, i64)>,
    all: Seq<(Seq<char>, Seq<char>, i64)>,
    keep_n: int,
)
    ensures
        forall|i: int|
            0 <= i < docker_candidates(sorted, all, keep_n).len() ==> !digest_protected(
                all,
                keep_n,
                #[trigger] docker_candidates(sorted, all, keep_n)[i],
            ),
    decreases sorted.len(),
{
    if sorted.len() > 0 {
        lemma_docker_candidates_unprotected(sorted.drop_last(), all, keep_n);
        let rest = docker_candidates(sorted.drop_last(), all, keep_n);
        let full = docker_candidates(sorted, all, keep_n);
        assert forall|i: int| 0 <= i < full.len() implies !digest_protected(all, keep_n, #[trigger] full[i]) by {
            if i < rest.len() {
                assert(full[i] == rest[i]);
            }
        }
    }
}

proof fn lemma_npm_deletions_unprotected(sorted: Seq<(Seq<char>, Seq<char>, i64)>, protected: Seq<Seq<char>>, keep_n: int)
    ensures
        forall|i: int|
            0 <= i < npm_versions_to_delete(sorted, protected, keep_n).len() ==> !protected.contains(
                #[trigger] npm_versions_to_delete(sorted, protected, keep_n)[i],
            ),
        forall|i: int|
            0 <= i < npm_versions_to_delete(sorted, protected, keep_n).len() ==> exists|k: int|
                0 <= k < sorted.len() && keep_n <= k && (#[trigger] npm_versions_to_delete(sorted, protected, keep_n)[i])
                    == sorted[k].0,
    decreases sorted.len(),
{
    if sorted.len() > 0 {
        lemma_npm_deletions_unprotected(sorted.drop_last(), protected, keep_n);
        let rest = npm_versions_to_delete(sorted.drop_last(), protected, keep_n);
        let full = npm_versions_to_delete(sorted, protected, keep_n);
        assert forall|i: int| 0 <= i < full.len() implies !protected.contains(#[trigger] full[i]) && exists|k: int|
            0 <= k < sorted.len() && keep_n <= k && full[i] == #[trigger] sorted[k].0 by {
            if i < rest.len() {
                assert(full[i] == rest[i]);
                let k = choose|k: int|
                    0 <= k < sorted.drop_last().len() && keep_n <= k && rest[i] == (#[trigger] sorted.drop_last()[k]).0;
                assert(sorted.drop_last()[k] == sorted[k]);
            } else {
                assert(full[i] == sorted[sorted.len() - 1].0);
            }
        }
    }
}

/// Every version ranked at `keep_n` or later that no dist-tag points at is deleted.
proof fn lemma_npm_deletes_late_unprotected(
    sorted: Seq<(Seq<char>, Seq<char>, i64)>,
    protected: Seq<Seq<char>>,
    keep_n: int,
)
    ensures
        forall|k: int|
            0 <= k < sorted.len() && keep_n <= k && !protected.contains(#[trigger] sorted[k].0)
                ==> npm_versions_to_delete(sorted, protected, keep_n).contains(sorted[k].0),
    decreases sorted.len(),
{
    if sorted.len() > 0 {
        lemma_npm_deletes_late_unprotected(sorted.drop_last(), protected, keep_n);
        let rest = npm_versions_to_delete(sorted.drop_last(), protected, keep_n);
        let full = npm_versions_to_delete(sorted, protected, keep_n);
        assert forall|k: int|
            0 <= k < sorted.len() && keep_n <= k && !protected.contains(#[trigger] sorted[k].0) implies full.contains(
            sorted[k].0,
        ) by {
            if k == sorted.len() - 1 {
                assert(full[full.len() - 1] == sorted[k].0);
            } else {
                assert(sorted.drop_last()[k] == sorted[k]);
                assert(rest.contains(sorted[k].0));
                let w = choose|w: int| 0 <= w < rest.len() && rest[w] == sorted[k].0;
                assert(full[w] == rest[w]);
            }
        }
    }
}

/// Every digest that no kept tag and no `latest` tag points at is a candidate.
proof fn lemma_docker_candidates_complete(
    sorted: Seq<(Seq<char>, Seq<char>, i64)>,
    all: Seq<(Seq<char>, Seq<char>, i64)>,
    keep_n: int,
)
    ensures
        forall|k: int|
            0 <= k < sorted.len() && !digest_protected(all, keep_n, #[trigger] sorted[k].1)
                ==> docker_candidates(sorted, all, keep_n).contains(sorted[k].1),
    decreases sorted.len(),
{
    if sorted.len() > 0 {
        lemma_docker_candidates_complete(sorted.drop_last(), all, keep_n);
        let rest = docker_candidates(sorted.drop_last(), all, keep_n);
        let full = docker_candidates(sorted, all, keep_n);
        assert forall|k: int|
            0 <= k < sorted.len() && !digest_protected(all, keep_n, #[trigger] sorted[k].1) implies full.contains(
            sorted[k].1,
        ) by {
            if k == sorted.len() - 1 {
                assert(full[full.len() - 1] == sorted[k].1);
            } else {
                assert(sorted.drop_last()[k] == sorted[k]);
                assert(rest.contains(sorted[k].1));
                let w = choose|w: int| 0 <= w < rest.len() && rest[w] == sorted[k].1;
                assert(full[w] == rest[w]);
            }
        }
    }
}

/// Whether some string of the list reads `d`.
pub open spec fn listed(v: Seq<String>, d: Seq<char>) -> bool {
    exists|i: int| 0 <= i < v.len() && (#[trigger] v[i])@ == d
}

/// Whether one of the first `n` ranked tags protects the digest.
pub open spec fn protected_within(sorted: Seq<(Seq<char>, Seq<char>, i64)>, keep_n: int, n: int, digest: Seq<char>) -> bool {
    exists|k: int| 0 <= k < n && (k < keep_n || sorted[k].0 == PROTECTED_DOCKER_TAG@) && (#[trigger] sorted[k]).1 == digest
}

pub struct SweepRetentionUseCase {}

impl SweepRetentionUseCase {
    /// The versions of one package to unpublish, in order. `versions` lists `(version,
    /// published_at)`; `dist_tagged` the versions a dist-tag points at.
    pub fn npm_deletions(versions: &Vec<(String, i64)>, dist_tagged: &Vec<String>, keep_n: usize) -> (r: Vec<String>)
        ensures
            versions@.len() <= keep_n ==> r@.len() == 0,
            versions@.len() > keep_n ==> r@.map_values(|s: String| s@) == npm_versions_to_delete(
                dated_newest_first(npm_dated(versions@)),
                dist_tagged@.map_values(|s: String| s@),
                keep_n as int,
            ),
            forall|i: int|
                0 <= i < r@.len() ==> !dist_tagged@.map_values(|s: String| s@).contains(#[trigger] r@[i]@),
            versions@.len() > keep_n ==> forall|k: int|
                keep_n <= k < versions@.len() && !dist_tagged@.map_values(|s: String| s@).contains(
                    #[trigger] dated_newest_first(npm_dated(versions@))[k].0,
                ) ==> r@.map_values(|s: String| s@).contains(dated_newest_first(npm_dated(versions@))[k].0),
            forall|i: int|
                0 <= i < r@.len() ==> exists|k: int|
                    keep_n <= k < versions@.len() && (#[trigger] r@[i])@ == dated_newest_first(npm_dated(versions@))[k].0,
    {
        let ghost pv = dist_tagged@.map_values(|s: String| s@);
        if versions.len() <= keep_n {
            return Vec::new();
        }
        let mut dated: Vec<(String, String, i64)> = Vec::new();
        let mut k: usize = 0;
        while k < versions.len()
            invariant
                k <= versions@.len(),
                dated_view(dated@) == npm_dated(versions@.subrange(0, k as int)),
            decreases versions@.len() - k,
        {
            let ghost before = dated_view(dated@);
            dated.push((versions[k].0.clone(), versions[k].0.clone(), versions[k].1));
            assert(dated_view(dated@) =~= before.push((versions@[k as int].0@, versions@[k as int].0@, versions@[k as int].1)));
            assert(npm_dated(versions@.subrange(0, k + 1)) =~= npm_dated(versions@.subrange(0, k as int)).push(
                (versions@[k as int].0@, versions@[k as int].0@, versions@[k as int].1),
            ));
            k = k + 1;
        }
        assert(versions@.subrange(0, versions@.len() as int) =~= versions@);
        let sorted = newest_first(&dated);
        let ghost sv = dated_view(sorted@);
        let mut out: Vec<String> = Vec::new();
        let mut rank: usize = 0;
        while rank < sorted.len()
            invariant
                rank <= sorted@.len(),
                sv == dated_view(sorted@),
                pv == dist_tagged@.map_values(|s: String| s@),
                out@.map_values(|s: String| s@) == npm_versions_to_delete(sv.subrange(0, rank as int), pv, keep_n as int),
            decreases sorted@.len() - rank,
        {
            let ghost prefix = sv.subrange(0, rank + 1);
            assert(prefix.drop_last() =~= sv.subrange(0, rank as int));
            let version = &sorted[rank].0;
            let tagged = contains_string(dist_tagged, version.as_str());
            assert(tagged == pv.contains(version@)) by {
                if tagged {
                    let i = choose|i: int| 0 <= i < dist_tagged@.len() && (#[trigger] dist_tagged@[i])@ == version@;
                    assert(pv[i] == version@);
                }
                if pv.contains(version@) {
                    let i = choose|i: int| 0 <= i < pv.len() && pv[i] == version@;
                    assert(dist_tagged@[i]@ == version@);
                }
            }
            if !(rank < keep_n || tagged) {
                let ghost before = out@.map_values(|s: String| s@);
                out.push(version.clone());
                assert(out@.map_values(|s: String| s@) =~= before.push(version@));
            }
            rank = rank + 1;
        }
        assert(sv.subrange(0, sv.len() as int) =~= sv);
        proof {
            lemma_npm_deletions_unprotected(sv, pv, keep_n as int);
            lemma_npm_deletes_late_unprotected(sv, pv, keep_n as int);
            lemma_newest_first_is_sorted_permutation(npm_dated(versions@));
            let ov = out@.map_values(|s: String| s@);
            assert forall|i: int| 0 <= i < out@.len() implies !pv.contains(#[trigger] out@[i]@) by {
                assert(ov[i] == out@[i]@);
            }
            assert forall|i: int| 0 <= i < out@.len() implies exists|k: int|
                keep_n <= k < versions@.len() && (#[trigger] out@[i])@ == sv[k].0 by {
                assert(ov[i] == out@[i]@);
                let k = choose|k: int| 0 <= k < sv.len() && keep_n <= k && ov[i] == #[trigger] sv[k].0;
            }
        }
        out
    }

    /// The digests to try deleting from one image, in rank order. `tags` lists `(tag, digest,
    /// created_at)`: a tag ranks by when its digest was first pushed, newest first. Nothing is
    /// deleted while the image has no more than `keep_n` tags; no digest of the `keep_n` newest
    /// tags, nor of `latest`, is ever a candidate.
    pub fn docker_candidates(tags: &Vec<(String, String, i64)>, keep_n: usize) -> (r: Vec<String>)
        ensures
            tags@.len() <= keep_n ==> r@.len() == 0,
            tags@.len() > keep_n ==> r@.map_values(|s: String| s@) == docker_candidates(
                dated_newest_first(dated_view(tags@)),
                dated_newest_first(dated_view(tags@)),
                keep_n as int,
            ),
            forall|i: int|
                0 <= i < r@.len() ==> !digest_protected(
                    dated_newest_first(dated_view(tags@)),
                    keep_n as int,
                    #[trigger] r@[i]@,
                ),
            tags@.len() > keep_n ==> forall|k: int|
                0 <= k < tags@.len() && !digest_protected(
                    dated_newest_first(dated_view(tags@)),
                    keep_n as int,
                    #[trigger] dated_newest_first(dated_view(tags@))[k].1,
                ) ==> r@.map_values(|s: String| s@).contains(dated_newest_first(dated_view(tags@))[k].1),
    {
        if tags.len() <= keep_n {
            return Vec::new();
        }
        let sorted = newest_first(tags);
        let ghost sv = dated_view(sorted@);
        let mut protected: Vec<String> = Vec::new();
        let mut rank: usize = 0;
        proof {
            reveal_strlit("latest");
        }
        while rank < sorted.len()
            invariant
                rank <= sorted@.len(),
                sv == dated_view(sorted@),
                forall|d: Seq<char>| #[trigger] listed(protected@, d) <==> protected_within(sv, keep_n as int, rank as int, d),
            decreases sorted@.len() - rank,
        {
            let ghost before = protected@;
            if rank < keep_n || str_eq(sorted[rank].0.as_str(), PROTECTED_DOCKER_TAG) {
                protected.push(sorted[rank].1.clone());
                proof {
                    assert forall|d: Seq<char>| #[trigger] listed(protected@, d) <==> protected_within(
                        sv,
                        keep_n as int,
                        rank + 1,
                        d,
                    ) by {
                        if listed(protected@, d) {
                            let i = choose|i: int| 0 <= i < protected@.len() && (#[trigger] protected@[i])@ == d;
                            if i < before.len() {
                                assert(before[i] == protected@[i]);
                                assert(listed(before, d));
                            } else {
                                assert(sv[rank as int].1 == d);
                            }
                        }
                        if protected_within(sv, keep_n as int, rank + 1, d) {
                            let k = choose|k: int|
                                0 <= k < rank + 1 && (k < keep_n || sv[k].0 == PROTECTED_DOCKER_TAG@) && (#[trigger] sv[k]).1
                                    == d;
                            if k < rank {
                                assert(protected_within(sv, keep_n as int, rank as int, d));
                                assert(listed(before, d));
                                let i = choose|i: int| 0 <= i < before.len() && (#[trigger] before[i])@ == d;
                                assert(protected@[i] == before[i]);
                            } else {
                                assert(protected@[before.len() as int]@ == d);
                            }
                        }
                    }
                }
            } else {
                proof {
                    assert forall|d: Seq<char>| #[trigger] listed(protected@, d) <==> protected_within(
                        sv,
                        keep_n as int,
                        rank + 1,
                        d,
                    ) by {
                        if protected_within(sv, keep_n as int, rank + 1, d) {
                            let k = choose|k: int|
                                0 <= k < rank + 1 && (k < keep_n || sv[k].0 == PROTECTED_DOCKER_TAG@) && (#[trigger] sv[k]).1
                                    == d;
                            assert(k != rank);
                            assert(protected_within(sv, keep_n as int, rank as int, d));
                        }
                        if listed(protected@, d) {
                            assert(protected_within(sv, keep_n as int, rank as int, d));
                        }
                    }
                }
            }
            rank = rank + 1;
        }
        proof {
            assert forall|d: Seq<char>| #[trigger] listed(protected@, d) <==> digest_protected(sv, keep_n as int, d) by {
                assert(protected_within(sv, keep_n as int, sv.len() as int, d) == digest_protected(sv, keep_n as int, d));
            }
        }
        let mut out: Vec<String> = Vec::new();
        let mut j: usize = 0;
        while j < sorted.len()
            invariant
                j <= sorted@.len(),
                sv == dated_view(sorted@),
                forall|d: Seq<char>| #[trigger] listed(protected@, d) <==> digest_protected(sv, keep_n as int, d),
                out@.map_values(|s: String| s@) == docker_candidates(sv.subrange(0, j as int), sv, keep_n as int),
            decreases sorted@.len() - j,
        {
            let ghost prefix = sv.subrange(0, j + 1);
            assert(prefix.drop_last() =~= sv.subrange(0, j as int));
            let digest = &sorted[j].1;
            let is_protected = contains_string(&protected, digest.as_str());
            assert(is_protected == listed(protected@, digest@));
            if !is_protected {
                let ghost before = out@.map_values(|s: String| s@);
                out.push(digest.clone());
                assert(out@.map_values(|s: String| s@) =~= before.push(digest@));
            }
            j = j + 1;
        }
        assert(sv.subrange(0, sv.len() as int) =~= sv);
        proof {
            lemma_docker_candidates_unprotected(sv, sv, keep_n as int);
            lemma_docker_candidates_complete(sv, sv, keep_n as int);
            lemma_newest_first_is_sorted_permutation(dated_view(tags@));
            assert forall|i: int| 0 <= i < out@.len() implies !digest_protected(sv, keep_n as int, #[trigger] out@[i]@) by {
                assert(out@.map_values(|s: String| s@)[i] == out@[i]@);
            }
        }
        out
    }

    /// A candidate shared with a tag already deleted in this sweep is not tried again.
    pub fn already_deleted(deleted: &Vec<String>, digest: &str) -> (r: bool)
        ensures
            r == (exists|i: int| 0 <= i < deleted@.len() && (#[trigger] deleted@[i])@ == digest@),
    {
        contains_string(deleted, digest)
    }
}

} // verus!
