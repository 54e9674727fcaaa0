//! Walking a published version's dependency tree against the public registry, breadth first,
//! with caps on depth and on the number of packages; then collecting the advisories that apply
//! to what was found. The fetching is done by the caller; the walk decides what to fetch next
//! and what each answer adds.

use vstd::prelude::*;

use std::collections::VecDeque;

use crate::json::{get, get_spec, member_keys, Json};
use crate::semver_req::{lemma_strings_view_push, resolve_range, resolve_range_spec, strings_view};
use crate::text::{lemma_lex_lt_irreflexive, lemma_lex_lt_transitive, lex_lt, str_eq, str_lt};

verus! {

pub const PUBLIC_REGISTRY_BASE_URL: &'static str = "https://registry.npmjs.org";

/// Dependencies deeper than this are not walked; the result is then marked truncated.
pub const MAX_DEPTH: usize = 10;

/// Once this many packages were found the walk stops and the result is marked truncated,
/// rather than silently partial.
pub const MAX_PACKAGES: usize = 500;

/// The `(name, range)` pairs among an object's members whose value is a string.
pub open spec fn string_members(members: Seq<(String, Json)>) -> Seq<(Seq<char>, Seq<char>)>
    decreases members.len(),
{
    if members.len() == 0 {
        Seq::empty()
    } else {
        let rest = string_members(members.drop_last());
        match members.last().1 {
            Json::Str(range) => rest.push((members.last().0@, range@)),
            _ => rest,
        }
    }
}

/// A manifest's `dependencies`: each member whose range is a string; nothing when the field is
/// missing or not an object.
pub open spec fn dependencies_spec(manifest: Json) -> Seq<(Seq<char>, Seq<char>)> {
    match get_spec(manifest, "dependencies"@) {
        Some(Json::Object(members)) => string_members(members@),
        _ => Seq::empty(),
    }
}

pub open spec fn pairs_view(v: Seq<(String, String)>) -> Seq<(Seq<char>, Seq<char>)> {
    v.map_values(|p: (String, String)| (p.0@, p.1@))
}

pub fn extract_dependencies(manifest: &Json) -> (r: Vec<(String, String)>)
    ensures
        pairs_view(r@) == dependencies_spec(*manifest),
{
    let mut out: Vec<(String, String)> = Vec::new();
    match get(manifest, "dependencies") {
        Some(Json::Object(members)) => {
            let mut i: usize = 0;
            while i < members.len()
                invariant
                    i <= members@.len(),
                    pairs_view(out@) == string_members(members@.subrange(0, i as int)),
                decreases members@.len() - i,
            {
                assert(members@.subrange(0, i + 1).drop_last() =~= members@.subrange(0, i as int));
                match &members[i].1 {
                    Json::Str(range) => {
                        out.push((members[i].0.clone(), range.clone()));
                        assert(pairs_view(out@) =~= string_members(members@.subrange(0, i as int)).push(
                            (members@[i as int].0@, range@),
                        ));
                    },
                    _ => {},
                }
                i = i + 1;
            }
            assert(members@.subrange(0, members@.len() as int) =~= members@);
        },
        _ => {},
    }
    out
}

/// What one fetched packument contributes for a `(name, range)`: the version the range resolves
/// to among the packument's `versions`, with its manifest.
pub open spec fn resolution_spec(range: Seq<char>, packument: Option<Json>) -> Option<(Seq<char>, Json)> {
    match packument {
        Some(p) => match get_spec(p, "versions"@) {
            Some(Json::Object(members)) => match resolve_range_spec(
                range,
                member_keys(members@),
            ) {
                Some(i) => Some((members@[i].0@, members@[i].1)),
                None => None,
            },
            _ => None,
        },
        None => None,
    }
}

/// Each dependency as a queue entry one level deeper.
pub open spec fn queued_at(deps: Seq<(Seq<char>, Seq<char>)>, depth: usize) -> Seq<(Seq<char>, Seq<char>, usize)> {
    deps.map_values(|d: (Seq<char>, Seq<char>)| (d.0, d.1, depth))
}

pub open spec fn queue_entries_view(q: Seq<(String, String, usize)>) -> Seq<(Seq<char>, Seq<char>, usize)> {
    q.map_values(|e: (String, String, usize)| (e.0@, e.1@, e.2))
}

proof fn lemma_member_keys_step(members: Seq<(String, Json)>, i: int)
    requires
        0 <= i < members.len(),
    ensures
        member_keys(members.subrange(0, i + 1)) == member_keys(members.subrange(0, i)).push(members[i].0@),
{
    assert(member_keys(members.subrange(0, i + 1)) =~= member_keys(members.subrange(0, i)).push(members[i].0@));
}

proof fn lemma_queue_entries_push(q: Seq<(String, String, usize)>, e: (String, String, usize))
    ensures
        queue_entries_view(q.push(e)) == queue_entries_view(q).push((e.0@, e.1@, e.2)),
{
    assert(queue_entries_view(q.push(e)) =~= queue_entries_view(q).push((e.0@, e.1@, e.2)));
}

proof fn lemma_queued_at_step(deps: Seq<(Seq<char>, Seq<char>)>, k: int, depth: usize)
    requires
        0 <= k < deps.len(),
    ensures
        queued_at(deps.subrange(0, k + 1), depth) == queued_at(deps.subrange(0, k), depth).push((deps[k].0, deps[k].1, depth)),
{
    assert(queued_at(deps.subrange(0, k + 1), depth) =~= queued_at(deps.subrange(0, k), depth).push(
        (deps[k].0, deps[k].1, depth),
    ));
}

proof fn lemma_pairs_view_index(v: Seq<(String, String)>, k: int)
    requires
        0 <= k < v.len(),
    ensures
        pairs_view(v)[k] == (v[k].0@, v[k].1@),
        pairs_view(v).len() == v.len(),
{
}

/// Whether the first `n` entries of a queue all lie past the depth cap.
pub open spec fn all_too_deep(q: Seq<(Seq<char>, Seq<char>, usize)>, n: int) -> bool {
    forall|k: int| 0 <= k < n ==> (#[trigger] q[k]).2 > MAX_DEPTH
}

/// What taking the next entry did, once the first `n` entries of the queue `q` were dropped
/// as too deep: the `n`-th is handed out while under the package cap (`found` pairs so far),
/// the walk stops on it at the cap, or the queue ran out. The rest of the queue stays, and
/// dropping anything marks the walk truncated.
pub open spec fn next_outcome(
    q: Seq<(Seq<char>, Seq<char>, usize)>,
    n: int,
    found: int,
    truncated_before: bool,
    r: Option<(String, String, usize)>,
    q_after: Seq<(Seq<char>, Seq<char>, usize)>,
    truncated_after: bool,
    stopped_after: bool,
) -> bool {
    match r {
        Some(e) => {
            &&& n < q.len()
            &&& (e.0@, e.1@, e.2) == q[n]
            &&& 1 <= e.2 <= MAX_DEPTH
            &&& found < MAX_PACKAGES
            &&& q_after == q.subrange(n + 1, q.len() as int)
            &&& truncated_after == (truncated_before || n > 0)
            &&& !stopped_after
        },
        None => {
            ||| (n == q.len() && q_after.len() == 0 && truncated_after == (truncated_before || n > 0) && !stopped_after)
            ||| (n < q.len() && q[n].2 <= MAX_DEPTH && found >= MAX_PACKAGES && q_after == q.subrange(n + 1, q.len() as int)
                && truncated_after && stopped_after)
        },
    }
}

/// The state of a walk: the queue of `(name, range, depth)` still to look at, the
/// `(name, version)` pairs found so far, and whether a cap was hit.
pub struct DependencyWalk {
    pub queue: VecDeque<(String, String, usize)>,
    pub visited: Vec<(String, String)>,
    pub truncated: bool,
    pub stopped: bool,
}

impl DependencyWalk {
    pub open spec fn queue_view(&self) -> Seq<(Seq<char>, Seq<char>, usize)> {
        queue_entries_view(self.queue@)
    }

    pub open spec fn visited_view(&self) -> Seq<(Seq<char>, Seq<char>)> {
        pairs_view(self.visited@)
    }

    /// Every pair is found at most once, the package cap holds, and queued depths stay within
    /// one past the depth cap.
    pub open spec fn wf(&self) -> bool {
        &&& self.visited_view().no_duplicates()
        &&& self.visited@.len() <= MAX_PACKAGES
        &&& forall|k: int| 0 <= k < self.queue@.len() ==> 1 <= #[trigger] self.queue@[k].2 <= MAX_DEPTH + 1
    }

    /// A walk starting from the root version's own dependencies, at depth 1.
    pub fn new(root_manifest: &Json) -> (r: Self)
        ensures
            r.wf(),
            r.queue_view() == queued_at(dependencies_spec(*root_manifest), 1),
            r.visited@.len() == 0,
            !r.truncated,
            !r.stopped,
    {
        let deps = extract_dependencies(root_manifest);
        let mut queue: VecDeque<(String, String, usize)> = VecDeque::new();
        let mut i: usize = 0;
        while i < deps.len()
            invariant
                i <= deps@.len(),
                queue_entries_view(queue@) == queued_at(
                    pairs_view(deps@).subrange(0, i as int),
                    1,
                ),
                forall|k: int| 0 <= k < queue@.len() ==> #[trigger] queue@[k].2 == 1,
                queue@.len() == i,
            decreases deps@.len() - i,
        {
            let entry = (deps[i].0.clone(), deps[i].1.clone(), 1usize);
            proof {
                lemma_queue_entries_push(queue@, entry);
                lemma_queued_at_step(pairs_view(deps@), i as int, 1);
                lemma_pairs_view_index(deps@, i as int);
            }
            queue.push_back(entry);
            i = i + 1;
            assert(queue_entries_view(queue@) =~= queued_at(
                pairs_view(deps@).subrange(0, i as int),
                1,
            ));
        }
        assert(pairs_view(deps@).subrange(0, deps@.len() as int) =~= pairs_view(deps@));
        let r = DependencyWalk { queue, visited: Vec::new(), truncated: false, stopped: false };
        assert(r.visited_view() =~= Seq::<(Seq<char>, Seq<char>)>::empty());
        r
    }

    /// The next `(name, range, depth)` to fetch and resolve, taken from the front of the queue.
    /// Entries deeper than the depth cap are dropped (marking the walk truncated); once the
    /// package cap is reached the walk stops (marking it truncated too). `None` when nothing
    /// is left to do.
    pub fn next(&mut self) -> (r: Option<(String, String, usize)>)
        requires
            old(self).wf(),
        ensures
            final(self).wf(),
            final(self).visited@ == old(self).visited@,
            old(self).stopped ==> r is None && final(self).stopped && final(self).truncated == old(self).truncated
                && final(self).queue_view() == old(self).queue_view(),
            !old(self).stopped ==> exists|n: int|
                0 <= n <= old(self).queue_view().len() && #[trigger] all_too_deep(old(self).queue_view(), n) && next_outcome(
                    old(self).queue_view(),
                    n,
                    old(self).visited@.len() as int,
                    old(self).truncated,
                    r,
                    final(self).queue_view(),
                    final(self).truncated,
                    final(self).stopped,
                ),
    {
        if self.stopped {
            return None;
        }
        let ghost q0 = self.queue_view();
        let ghost t0 = self.truncated;
        let ghost mut n: int = 0;
        loop
            invariant
                self.wf(),
                !self.stopped,
                0 <= n <= q0.len(),
                all_too_deep(q0, n),
                self.queue_view() == q0.subrange(n, q0.len() as int),
                self.truncated == (t0 || n > 0),
                self.visited@ == old(self).visited@,
                q0 == old(self).queue_view(),
                t0 == old(self).truncated,
                !old(self).stopped,
            decreases self.queue@.len(),
        {
            let ghost before = self.queue@;
            assert(queue_entries_view(before) == q0.subrange(n, q0.len() as int));
            assert(queue_entries_view(before).len() == before.len());
            match self.queue.pop_front() {
                None => {
                    assert(n == q0.len()) by {
                        assert(self.queue_view().len() == 0);
                    }
                    assert(next_outcome(q0, n, self.visited@.len() as int, t0, None, self.queue_view(), self.truncated, self.stopped));
                    return None;
                },
                Some(entry) => {
                    assert(self.queue@ =~= before.subrange(1, before.len() as int));
                    assert(n < q0.len());
                    assert(queue_entries_view(before)[0] == q0.subrange(n, q0.len() as int)[0]);
                    assert(queue_entries_view(before)[0] == q0[n]);
                    assert(self.queue_view() =~= q0.subrange(n + 1, q0.len() as int)) by {
                        assert forall|k: int| 0 <= k < self.queue_view().len() implies self.queue_view()[k]
                            == q0.subrange(n + 1, q0.len() as int)[k] by {
                            assert(self.queue@[k] == before[k + 1]);
                            assert(queue_entries_view(before)[k + 1] == q0.subrange(n, q0.len() as int)[k + 1]);
                        }
                    }
                    proof {
                        assert forall|k: int| 0 <= k < self.queue@.len() implies 1 <= #[trigger] self.queue@[k].2
                            <= MAX_DEPTH + 1 by {
                            assert(self.queue@[k] == before[k + 1]);
                        }
                    }
                    if entry.2 > MAX_DEPTH {
                        self.truncated = true;
                        proof {
                            n = n + 1;
                        }
                        continue;
                    }
                    if self.visited.len() >= MAX_PACKAGES {
                        self.truncated = true;
                        self.stopped = true;
                        assert(next_outcome(q0, n, self.visited@.len() as int, t0, None, self.queue_view(), self.truncated, self.stopped));
                        return None;
                    }
                    let r = Some(entry);
                    assert(next_outcome(q0, n, self.visited@.len() as int, t0, r, self.queue_view(), self.truncated, self.stopped));
                    return r;
                },
            }
        }
    }

    /// Whether `(name, version)` was already found.
    pub fn has_visited(&self, name: &str, version: &str) -> (r: bool)
        ensures
            r == self.visited_view().contains((name@, version@)),
    {
        let mut i: usize = 0;
        while i < self.visited.len()
            invariant
                i <= self.visited@.len(),
                forall|j: int| 0 <= j < i ==> self.visited_view()[j] != (name@, version@),
            decreases self.visited@.len() - i,
        {
            if str_eq(self.visited[i].0.as_str(), name) && str_eq(self.visited[i].1.as_str(), version) {
                assert(self.visited_view()[i as int] == (name@, version@));
                return true;
            }
            i = i + 1;
        }
        false
    }

    /// Records what the packument fetched for `(name, range)` gives (`None` when the name is
    /// not a valid package name or the registry did not answer). A resolved version not found
    /// before is added, and its own dependencies are queued one level deeper.
    pub fn record(&mut self, name: &str, range: &str, depth: usize, packument: Option<&Json>)
        requires
            old(self).wf(),
            1 <= depth <= MAX_DEPTH,
            old(self).visited@.len() < MAX_PACKAGES,
        ensures
            final(self).wf(),
            final(self).truncated == old(self).truncated,
            final(self).stopped == old(self).stopped,
            match resolution_spec(range@, match packument {
                Some(p) => Some(*p),
                None => None,
            }) {
                Some((version, manifest)) if !old(self).visited_view().contains((name@, version)) => {
                    &&& final(self).visited_view() == old(self).visited_view().push((name@, version))
                    &&& final(self).queue_view() == old(self).queue_view() + queued_at(
                        dependencies_spec(manifest),
                        (depth + 1) as usize,
                    )
                },
                _ => final(self).visited_view() == old(self).visited_view() && final(self).queue_view()
                    == old(self).queue_view(),
            },
    {
        let p = match packument {
            Some(p) => p,
            None => return,
        };
        let members = match get(p, "versions") {
            Some(Json::Object(members)) => members,
            _ => return,
        };
        let mut keys: Vec<String> = Vec::new();
        let mut i: usize = 0;
        while i < members.len()
            invariant
                i <= members@.len(),
                strings_view(keys@) == member_keys(members@.subrange(0, i as int)),
                keys@.len() == i,
            decreases members@.len() - i,
        {
            let key = members[i].0.clone();
            proof {
                lemma_strings_view_push(keys@, key);
                lemma_member_keys_step(members@, i as int);
            }
            keys.push(key);
            i = i + 1;
            assert(strings_view(keys@) =~= member_keys(members@.subrange(0, i as int)));
        }
        assert(members@.subrange(0, members@.len() as int) =~= members@);
        let idx = match resolve_range(range, &keys) {
            Some(idx) => idx,
            None => return,
        };
        assert(strings_view(keys@)[idx as int] == keys@[idx as int]@);
        let version = &members[idx].0;
        let manifest = &members[idx].1;
        if self.has_visited(name, version.as_str()) {
            return;
        }
        let ghost old_visited = self.visited_view();
        let ghost old_queue = self.queue_view();
        self.visited.push((String::from_str(name), version.clone()));
        assert(self.visited_view() =~= old_visited.push((name@, version@)));
        proof {
            assert forall|a: int, b: int|
                0 <= a < b < self.visited_view().len() implies self.visited_view()[a] != self.visited_view()[b] by {
                if b == old_visited.len() {
                    assert(old_visited[a] == self.visited_view()[a]);
                }
            }
        }
        let ghost v1 = self.visited@;
        let deps = extract_dependencies(manifest);
        let mut k: usize = 0;
        while k < deps.len()
            invariant
                k <= deps@.len(),
                1 <= depth <= MAX_DEPTH,
                self.queue_view() == old_queue + queued_at(pairs_view(deps@).subrange(0, k as int), (depth + 1) as usize),
                forall|j: int| 0 <= j < self.queue@.len() ==> 1 <= #[trigger] self.queue@[j].2 <= MAX_DEPTH + 1,
                self.visited@ == v1,
                self.visited_view().no_duplicates(),
                self.visited@.len() <= MAX_PACKAGES,
                self.truncated == old(self).truncated,
                self.stopped == old(self).stopped,
            decreases deps@.len() - k,
        {
            let entry = (deps[k].0.clone(), deps[k].1.clone(), depth + 1);
            proof {
                lemma_queue_entries_push(self.queue@, entry);
                lemma_queued_at_step(pairs_view(deps@), k as int, (depth + 1) as usize);
                lemma_pairs_view_index(deps@, k as int);
                assert(old_queue + queued_at(pairs_view(deps@).subrange(0, k + 1), (depth + 1) as usize) =~= (old_queue
                    + queued_at(pairs_view(deps@).subrange(0, k as int), (depth + 1) as usize)).push(
                    (deps@[k as int].0@, deps@[k as int].1@, (depth + 1) as usize),
                ));
            }
            self.queue.push_back(entry);
            k = k + 1;
            assert(self.queue_view() =~= old_queue + queued_at(
                pairs_view(deps@).subrange(0, k as int),
                (depth + 1) as usize,
            ));
        }
        assert(pairs_view(deps@).subrange(0, deps@.len() as int) =~= pairs_view(deps@));
    }

    /// How many distinct packages were found.
    pub fn packages_scanned(&self) -> (r: usize)
        ensures
            r == self.visited@.len(),
    {
        self.visited.len()
    }
}

/// An advisory as far as the walk reads it: its id and the range of versions it affects.
pub struct AdvisoryRef {
    pub id: i64,
    pub vulnerable_versions: String,
}

/// One advisory applying to one found `(name, version)`; `advisory_index` is the advisory's
/// position in the list given for that name.
pub struct AuditFinding {
    pub dependency_name: String,
    pub dependency_version: String,
    pub advisory_id: i64,
    pub advisory_index: usize,
}

pub type FindingView = (Seq<char>, Seq<char>, i64, usize);

pub open spec fn finding_view(f: AuditFinding) -> FindingView {
    (f.dependency_name@, f.dependency_version@, f.advisory_id, f.advisory_index)
}

pub open spec fn findings_view(s: Seq<AuditFinding>) -> Seq<FindingView> {
    s.map_values(|f: AuditFinding| finding_view(f))
}

/// The advisories listed for a name (the first entry with that name), if any.
pub open spec fn advisories_for(advisories: Seq<(String, Vec<AdvisoryRef>)>, name: Seq<char>) -> Option<Seq<AdvisoryRef>>
    decreases advisories.len(),
{
    if advisories.len() == 0 {
        None
    } else if advisories[0].0@ == name {
        Some(advisories[0].1@)
    } else {
        advisories_for(advisories.drop_first(), name)
    }
}

/// The findings for one found pair, from the first `n` advisories of its name, in order.
pub open spec fn pair_findings(name: Seq<char>, version: Seq<char>, advs: Seq<AdvisoryRef>, n: int) -> Seq<FindingView>
    decreases n,
{
    if n <= 0 {
        Seq::empty()
    } else {
        let rest = pair_findings(name, version, advs, n - 1);
        let a = advs[n - 1];
        if crate::semver_req::version_in_range(version, a.vulnerable_versions@) {
            rest.push((name, version, a.id, (n - 1) as usize))
        } else {
            rest
        }
    }
}

/// The findings for the first `n` found pairs, in the order they were found.
pub open spec fn all_findings(visited: Seq<(Seq<char>, Seq<char>)>, advisories: Seq<(String, Vec<AdvisoryRef>)>, n: int) -> Seq<FindingView>
    decreases n,
{
    if n <= 0 {
        Seq::empty()
    } else {
        let (name, version) = visited[n - 1];
        all_findings(visited, advisories, n - 1) + match advisories_for(advisories, name) {
            Some(advs) => pair_findings(name, version, advs, advs.len() as int),
            None => Seq::empty(),
        }
    }
}

/// Findings are reported by dependency name, then version, then advisory id.
pub open spec fn finding_lt(a: FindingView, b: FindingView) -> bool {
    lex_lt(a.0, b.0) || (a.0 == b.0 && (lex_lt(a.1, b.1) || (a.1 == b.1 && a.2 < b.2)))
}

pub open spec fn findings_sorted(s: Seq<FindingView>) -> bool {
    forall|i: int, j: int| 0 <= i < j < s.len() ==> !finding_lt(#[trigger] s[j], #[trigger] s[i])
}

proof fn lemma_finding_lt_transitive(a: FindingView, b: FindingView, c: FindingView)
    requires
        finding_lt(a, b),
        finding_lt(b, c),
    ensures
        finding_lt(a, c),
{
    if lex_lt(a.0, b.0) && lex_lt(b.0, c.0) {
        lemma_lex_lt_transitive(a.0, b.0, c.0);
    } else if a.0 == b.0 && b.0 == c.0 && lex_lt(a.1, b.1) && lex_lt(b.1, c.1) {
        lemma_lex_lt_transitive(a.1, b.1, c.1);
    }
}

proof fn lemma_findings_view_insert(s: Seq<AuditFinding>, i: int, f: AuditFinding)
    requires
        0 <= i <= s.len(),
    ensures
        findings_view(s.insert(i, f)) == findings_view(s).insert(i, finding_view(f)),
{
    assert(findings_view(s.insert(i, f)) =~= findings_view(s).insert(i, finding_view(f)));
}

/// Inserts a finding after every finding not after it, keeping the order.
fn insert_sorted(out: &mut Vec<AuditFinding>, f: AuditFinding)
    requires
        findings_sorted(findings_view(old(out)@)),
    ensures
        findings_sorted(findings_view(final(out)@)),
        findings_view(final(out)@).to_multiset() == findings_view(old(out)@).to_multiset().insert(finding_view(f)),
{
    let ghost fv = finding_view(f);
    let ghost v = findings_view(out@);
    let mut p: usize = 0;
    while p < out.len()
        invariant
            v == findings_view(out@),
            v.len() == out@.len(),
            fv == finding_view(f),
            p <= out@.len(),
            forall|k: int| 0 <= k < p ==> !finding_lt(fv, #[trigger] v[k]),
        ensures
            p <= out@.len(),
            forall|k: int| 0 <= k < p ==> !finding_lt(fv, #[trigger] v[k]),
            p < out@.len() ==> finding_lt(fv, v[p as int]),
        decreases out@.len() - p,
    {
        assert(v[p as int] == finding_view(out@[p as int]));
        let before = str_lt(f.dependency_name.as_str(), out[p].dependency_name.as_str()) || (str_eq(
            f.dependency_name.as_str(),
            out[p].dependency_name.as_str(),
        ) && (str_lt(f.dependency_version.as_str(), out[p].dependency_version.as_str()) || (str_eq(
            f.dependency_version.as_str(),
            out[p].dependency_version.as_str(),
        ) && f.advisory_id < out[p].advisory_id)));
        assert(v[p as int] == finding_view(out@[p as int]));
        if before {
            break;
        }
        p = p + 1;
    }
    proof {
        assert(p < out@.len() ==> finding_lt(fv, v[p as int]));
        let w = v.insert(p as int, fv);
        assert forall|i: int, j: int| 0 <= i < j < w.len() implies !finding_lt(#[trigger] w[j], #[trigger] w[i]) by {
            if j < p {
                assert(w[i] == v[i] && w[j] == v[j]);
            } else if j == p {
                assert(w[i] == v[i]);
            } else if i == p {
                assert(w[j] == v[j - 1]);
                if finding_lt(v[j - 1], fv) {
                    assert(finding_lt(fv, v[p as int]));
                    lemma_finding_lt_transitive(v[j - 1], fv, v[p as int]);
                    if j - 1 > p {
                        assert(!finding_lt(v[j - 1], v[p as int]));
                    } else {
                        lemma_lex_lt_irreflexive(v[p as int].0);
                        lemma_lex_lt_irreflexive(v[p as int].1);
                    }
                }
            } else if i < p {
                assert(w[i] == v[i] && w[j] == v[j - 1]);
            } else {
                assert(w[i] == v[i - 1] && w[j] == v[j - 1]);
            }
        }
        lemma_findings_view_insert(out@, p as int, f);
        vstd::seq_lib::to_multiset_insert(v, p as int, fv);
    }
    out.insert(p, f);
}

impl DependencyWalk {
    /// Every advisory of a found package whose vulnerable range holds the found version,
    /// ordered by name, then version, then advisory id. `advisories` lists each name's
    /// advisories, as the bulk audit answered.
    pub fn findings(&self, advisories: &Vec<(String, Vec<AdvisoryRef>)>) -> (r: Vec<AuditFinding>)
        ensures
            findings_sorted(findings_view(r@)),
            findings_view(r@).to_multiset() == all_findings(self.visited_view(), advisories@, self.visited@.len() as int).to_multiset(),
    {
        let mut out: Vec<AuditFinding> = Vec::new();
        let mut i: usize = 0;
        let ghost empty: Seq<FindingView> = Seq::empty();
        assert(findings_view(out@) =~= empty);
        while i < self.visited.len()
            invariant
                i <= self.visited@.len(),
                findings_sorted(findings_view(out@)),
                findings_view(out@).to_multiset() == all_findings(self.visited_view(), advisories@, i as int).to_multiset(),
            decreases self.visited@.len() - i,
        {
            let name = &self.visited[i].0;
            let version = &self.visited[i].1;
            proof {
                lemma_pairs_view_index(self.visited@, i as int);
            }
            let ghost before = all_findings(self.visited_view(), advisories@, i as int);
            match lookup_advisories(advisories, name.as_str()) {
                Some(advs) => {
                    let mut j: usize = 0;
                    proof {
                        broadcast use vstd::multiset::group_multiset_axioms;
                        assert(pair_findings(name@, version@, advs@, 0) =~= Seq::<FindingView>::empty());
                        assert(before + Seq::<FindingView>::empty() =~= before);
                        vstd::seq_lib::lemma_multiset_commutative(before, Seq::<FindingView>::empty());
                    }
                    while j < advs.len()
                        invariant
                            j <= advs@.len(),
                            advisories_for(advisories@, name@) == Some(advs@),
                            findings_sorted(findings_view(out@)),
                            findings_view(out@).to_multiset() == before.to_multiset().add(
                                pair_findings(name@, version@, advs@, j as int).to_multiset(),
                            ),
                        decreases advs@.len() - j,
                    {
                        let a = &advs[j];
                        if crate::semver_req::version_satisfies_range(version.as_str(), a.vulnerable_versions.as_str()) {
                            let f = AuditFinding {
                                dependency_name: name.clone(),
                                dependency_version: version.clone(),
                                advisory_id: a.id,
                                advisory_index: j,
                            };
                            insert_sorted(&mut out, f);
                            proof {
                                vstd::seq_lib::to_multiset_build(pair_findings(name@, version@, advs@, j as int), (name@, version@, a.id, j));
                                broadcast use vstd::multiset::group_multiset_axioms;
                                let pf = pair_findings(name@, version@, advs@, j as int).to_multiset();
                                assert(before.to_multiset().add(pf.insert((name@, version@, a.id, j))) =~= before.to_multiset().add(pf).insert((name@, version@, a.id, j)));
                            }
                        }
                        j = j + 1;
                    }
                    proof {
                        vstd::seq_lib::lemma_multiset_commutative(before, pair_findings(name@, version@, advs@, advs@.len() as int));
                    }
                },
                None => {
                    assert(before + Seq::<FindingView>::empty() =~= before);
                },
            }
            i = i + 1;
        }
        out
    }
}

/// The advisories listed for `name`.
fn lookup_advisories<'a>(advisories: &'a Vec<(String, Vec<AdvisoryRef>)>, name: &str) -> (r: Option<&'a Vec<AdvisoryRef>>)
    ensures
        match r {
            Some(a) => advisories_for(advisories@, name@) == Some(a@),
            None => advisories_for(advisories@, name@) is None,
        },
{
    let mut i: usize = 0;
    assert(advisories@.subrange(0, advisories@.len() as int) =~= advisories@);
    while i < advisories.len()
        invariant
            i <= advisories@.len(),
            advisories_for(advisories@, name@) == advisories_for(advisories@.subrange(i as int, advisories@.len() as int), name@),
        decreases advisories@.len() - i,
    {
        let ghost rest = advisories@.subrange(i as int, advisories@.len() as int);
        assert(rest[0] == advisories@[i as int]);
        if str_eq(advisories[i].0.as_str(), name) {
            return Some(&advisories[i].1);
        }
        assert(rest.drop_first() =~= advisories@.subrange(i + 1, advisories@.len() as int));
        i = i + 1;
    }
    None
}

/// The distinct names among found pairs, in the order first found.
pub open spec fn names_of(visited: Seq<(Seq<char>, Seq<char>)>) -> Seq<Seq<char>>
    decreases visited.len(),
{
    if visited.len() == 0 {
        Seq::empty()
    } else {
        let rest = names_of(visited.drop_last());
        if rest.contains(visited.last().0) {
            rest
        } else {
            rest.push(visited.last().0)
        }
    }
}

/// The versions found for a name, in the order found.
pub open spec fn versions_of(visited: Seq<(Seq<char>, Seq<char>)>, name: Seq<char>) -> Seq<Seq<char>>
    decreases visited.len(),
{
    if visited.len() == 0 {
        Seq::empty()
    } else {
        let rest = versions_of(visited.drop_last(), name);
        if visited.last().0 == name {
            rest.push(visited.last().1)
        } else {
            rest
        }
    }
}

fn contains_name(names: &Vec<String>, name: &str) -> (r: bool)
    ensures
        r == strings_view(names@).contains(name@),
{
    let mut i: usize = 0;
    while i < names.len()
        invariant
            i <= names@.len(),
            forall|j: int| 0 <= j < i ==> names@[j]@ != name@,
        decreases names@.len() - i,
    {
        if str_eq(names[i].as_str(), name) {
            assert(strings_view(names@)[i as int] == name@);
            return true;
        }
        i = i + 1;
    }
    proof {
        if strings_view(names@).contains(name@) {
            let j = choose|j: int| 0 <= j < strings_view(names@).len() && strings_view(names@)[j] == name@;
            assert(names@[j]@ == name@);
        }
    }
    false
}

impl DependencyWalk {
    /// What the bulk audit is asked about: each found name with the versions found for it.
    pub fn audit_request(&self) -> (r: Vec<(String, Vec<String>)>)
        ensures
            r@.len() == names_of(self.visited_view()).len(),
            forall|a: int|
                0 <= a < r@.len() ==> (#[trigger] r@[a]).0@ == names_of(self.visited_view())[a] && strings_view(r@[a].1@)
                    == versions_of(self.visited_view(), r@[a].0@),
    {
        let ghost vv = self.visited_view();
        let mut names: Vec<String> = Vec::new();
        let mut i: usize = 0;
        while i < self.visited.len()
            invariant
                vv == self.visited_view(),
                i <= self.visited@.len(),
                strings_view(names@) == names_of(vv.subrange(0, i as int)),
            decreases self.visited@.len() - i,
        {
            proof {
                lemma_pairs_view_index(self.visited@, i as int);
                assert(vv.subrange(0, i + 1).drop_last() =~= vv.subrange(0, i as int));
            }
            let name = &self.visited[i].0;
            if !contains_name(&names, name.as_str()) {
                let owned = name.clone();
                proof {
                    lemma_strings_view_push(names@, owned);
                }
                names.push(owned);
            }
            i = i + 1;
        }
        assert(vv.subrange(0, vv.len() as int) =~= vv);
        let mut out: Vec<(String, Vec<String>)> = Vec::new();
        let mut a: usize = 0;
        while a < names.len()
            invariant
                vv == self.visited_view(),
                strings_view(names@) == names_of(vv),
                a <= names@.len(),
                out@.len() == a,
                forall|b: int|
                    0 <= b < a ==> (#[trigger] out@[b]).0@ == names_of(vv)[b] && strings_view(out@[b].1@) == versions_of(
                        vv,
                        out@[b].0@,
                    ),
            decreases names@.len() - a,
        {
            let name = &names[a];
            assert(strings_view(names@)[a as int] == name@);
            let mut versions: Vec<String> = Vec::new();
            let mut k: usize = 0;
            while k < self.visited.len()
                invariant
                    vv == self.visited_view(),
                    k <= self.visited@.len(),
                    strings_view(versions@) == versions_of(vv.subrange(0, k as int), name@),
                decreases self.visited@.len() - k,
            {
                proof {
                    lemma_pairs_view_index(self.visited@, k as int);
                    assert(vv.subrange(0, k + 1).drop_last() =~= vv.subrange(0, k as int));
                }
                if str_eq(self.visited[k].0.as_str(), name.as_str()) {
                    let owned = self.visited[k].1.clone();
                    proof {
                        lemma_strings_view_push(versions@, owned);
                    }
                    versions.push(owned);
                }
                k = k + 1;
            }
            assert(vv.subrange(0, vv.len() as int) =~= vv);
            out.push((name.clone(), versions));
            a = a + 1;
        }
        out
    }
}

} // verus!
