//! Reading through a repository group: try the repository itself when it is hosted or a proxy,
//! else its members, hosted members first, depth first, never entering a repository twice on
//! one path. The walk is laid out as the ordered list of attempts a reader makes; the first
//! attempt that finds something ends it.

use vstd::prelude::*;

use crate::model::{PackageRepositorySummary, RepositoryType};

use std::collections::HashSet;

verus! {

/// One attempt of a read through a group, by the position of a repository in the table.
#[derive(Debug, Clone, Copy, PartialEq, Eq, Structural)]
pub enum ResolveStep {
    /// Look in this hosted repository.
    Hosted(usize),
    /// Ask this proxy repository's remote.
    Proxy(usize),
    /// A repository on the way does not exist: the read fails here.
    NotFound,
}

/// Where the repository with this id stands in the table (the first place, should it stand twice).
pub open spec fn find_index(table: Seq<PackageRepositorySummary>, id: u128) -> Option<int>
    decreases table.len(),
{
    if table.len() == 0 {
        None
    } else if table[0].id == id {
        Some(0)
    } else {
        match find_index(table.drop_first(), id) {
            Some(i) => Some(i + 1),
            None => None,
        }
    }
}

pub proof fn lemma_find_index(table: Seq<PackageRepositorySummary>, id: u128)
    ensures
        find_index(table, id) matches Some(i) ==> 0 <= i < table.len() && table[i].id == id,
        find_index(table, id) is None ==> forall|j: int| 0 <= j < table.len() ==> table[j].id != id,
    decreases table.len(),
{
    if table.len() > 0 {
        lemma_find_index(table.drop_first(), id);
        if table[0].id != id {
            assert forall|j: int| 0 <= j < table.len() && find_index(table, id) is None implies table[j].id != id by {
                if j > 0 {
                    assert(table[j] == table.drop_first()[j - 1]);
                }
            }
        }
    }
}

/// How many table entries are not yet on the path: what bounds the depth of the walk.
pub open spec fn count_unvisited(table: Seq<PackageRepositorySummary>, visited: Set<u128>) -> nat
    decreases table.len(),
{
    if table.len() == 0 {
        0
    } else {
        count_unvisited(table.drop_last(), visited) + (if visited.contains(table.last().id) {
            0nat
        } else {
            1nat
        })
    }
}

pub proof fn lemma_count_push(table: Seq<PackageRepositorySummary>, visited: Set<u128>, x: u128)
    ensures
        count_unvisited(table, visited.insert(x)) <= count_unvisited(table, visited),
        (exists|i: int| 0 <= i < table.len() && table[i].id == x) && !visited.contains(x) ==> count_unvisited(
            table,
            visited.insert(x),
        ) < count_unvisited(table, visited),
    decreases table.len(),
{
    if table.len() > 0 {
        lemma_count_push(table.drop_last(), visited, x);
        if (exists|i: int| 0 <= i < table.len() && table[i].id == x) && !visited.contains(x) {
            let i = choose|i: int| 0 <= i < table.len() && table[i].id == x;
            if i != table.len() - 1 {
                assert(table.drop_last()[i] == table[i]);
            }
        }
    }
}

/// A group's member ids that are not on the path yet, in order.
pub open spec fn unvisited_ids(ids: Seq<u128>, visited: Set<u128>) -> Seq<u128>
    decreases ids.len(),
{
    if ids.len() == 0 {
        Seq::empty()
    } else {
        let rest = unvisited_ids(ids.drop_last(), visited);
        if visited.contains(ids.last()) {
            rest
        } else {
            rest.push(ids.last())
        }
    }
}

/// Whether every id names a repository of the table.
pub open spec fn all_found(table: Seq<PackageRepositorySummary>, ids: Seq<u128>) -> bool {
    forall|i: int| 0 <= i < ids.len() ==> find_index(table, #[trigger] ids[i]) is Some
}

/// The table positions of the ids, in order.
pub open spec fn positions(table: Seq<PackageRepositorySummary>, ids: Seq<u128>) -> Seq<int> {
    ids.map_values(|id: u128| find_index(table, id).unwrap())
}

/// The positions of hosted repositories, in order.
pub open spec fn hosted_positions(table: Seq<PackageRepositorySummary>, ps: Seq<int>) -> Seq<int>
    decreases ps.len(),
{
    if ps.len() == 0 {
        Seq::empty()
    } else {
        let rest = hosted_positions(table, ps.drop_last());
        if table[ps.last()].repo_type == RepositoryType::Hosted {
            rest.push(ps.last())
        } else {
            rest
        }
    }
}

/// The positions of the other repositories, in order.
pub open spec fn other_positions(table: Seq<PackageRepositorySummary>, ps: Seq<int>) -> Seq<int>
    decreases ps.len(),
{
    if ps.len() == 0 {
        Seq::empty()
    } else {
        let rest = other_positions(table, ps.drop_last());
        if table[ps.last()].repo_type == RepositoryType::Hosted {
            rest
        } else {
            rest.push(ps.last())
        }
    }
}

/// Members in the order they are tried: hosted ones first, each part in stored order, so that
/// a proxy member can never shadow a private package.
pub open spec fn hosted_first(table: Seq<PackageRepositorySummary>, ps: Seq<int>) -> Seq<int> {
    hosted_positions(table, ps) + other_positions(table, ps)
}

/// The attempts for a repository already found (at position `p`, on a path that includes it).
pub open spec fn plan_fetched(table: Seq<PackageRepositorySummary>, p: int, visited: Set<u128>) -> Seq<ResolveStep>
    decreases count_unvisited(table, visited), 1nat, 0nat,
{
    if !(0 <= p < table.len()) {
        Seq::empty()
    } else {
        match table[p].repo_type {
            RepositoryType::Hosted => seq![ResolveStep::Hosted(p as usize)],
            RepositoryType::Proxy => seq![ResolveStep::Proxy(p as usize)],
            RepositoryType::Group => {
                let ids = unvisited_ids(table[p].group_members@, visited);
                if !all_found(table, ids) {
                    seq![ResolveStep::NotFound]
                } else {
                    plan_members(table, hosted_first(table, positions(table, ids)), visited)
                }
            },
        }
    }
}

/// The attempts for a group's members, one after the other, each on the group's path plus
/// itself.
pub open spec fn plan_members(table: Seq<PackageRepositorySummary>, ps: Seq<int>, visited: Set<u128>) -> Seq<
    ResolveStep,
>
    decreases count_unvisited(table, visited), 0nat, ps.len(),
{
    if ps.len() == 0 {
        Seq::empty()
    } else {
        let p = ps[0];
        let head = if 0 <= p < table.len() && !visited.contains(table[p].id) {
            proof {
                lemma_count_push(table, visited, table[p].id);
            }
            plan_fetched(table, p, visited.insert(table[p].id))
        } else {
            Seq::empty()
        };
        head + plan_members(table, ps.drop_first(), visited)
    }
}

/// The attempts for a read of repository `id`, on a path that already holds `visited`.
pub open spec fn resolution_plan(table: Seq<PackageRepositorySummary>, id: u128, visited: Set<u128>) -> Seq<
    ResolveStep,
> {
    if visited.contains(id) {
        Seq::empty()
    } else {
        match find_index(table, id) {
            None => seq![ResolveStep::NotFound],
            Some(p) => plan_fetched(table, p, visited.insert(id)),
        }
    }
}

fn find_position(table: &Vec<PackageRepositorySummary>, id: u128) -> (r: Option<usize>)
    ensures
        match r {
            Some(i) => find_index(table@, id) == Some(i as int),
            None => find_index(table@, id) is None,
        },
{
    let mut i: usize = 0;
    assert(table@.subrange(0, table@.len() as int) =~= table@);
    while i < table.len()
        invariant
            i <= table@.len(),
            find_index(table@, id) == (match find_index(table@.subrange(i as int, table@.len() as int), id) {
                Some(k) => Some(k + i),
                None => None,
            }),
        decreases table@.len() - i,
    {
        let ghost rest = table@.subrange(i as int, table@.len() as int);
        assert(rest[0] == table@[i as int]);
        if table[i].id == id {
            return Some(i);
        }
        assert(rest.drop_first() =~= table@.subrange(i + 1, table@.len() as int));
        i = i + 1;
    }
    proof {
        assert(table@.subrange(i as int, table@.len() as int).len() == 0);
    }
    None
}

fn contains_id(visited: &HashSet<u128>, id: u128) -> (r: bool)
    ensures
        r == visited@.contains(id),
{
    broadcast use vstd::std_specs::hash::group_hash_axioms;

    visited.contains(&id)
}

/// The table positions of a group's unvisited members, or `None` if one of them is missing.
fn member_positions(table: &Vec<PackageRepositorySummary>, ids: &Vec<u128>, visited: &HashSet<u128>) -> (r: Option<Vec<usize>>)
    ensures
        match r {
            Some(v) => all_found(table@, unvisited_ids(ids@, visited@)) && v@.map_values(|x: usize| x as int) == positions(
                table@,
                unvisited_ids(ids@, visited@),
            ),
            None => !all_found(table@, unvisited_ids(ids@, visited@)),
        },
{
    let mut out: Vec<usize> = Vec::new();
    let mut missing = false;
    let mut i: usize = 0;
    while i < ids.len()
        invariant
            i <= ids@.len(),
            !missing ==> all_found(table@, unvisited_ids(ids@.subrange(0, i as int), visited@)),
            !missing ==> out@.map_values(|x: usize| x as int) == positions(table@, unvisited_ids(ids@.subrange(0, i as int), visited@)),
            missing ==> !all_found(table@, unvisited_ids(ids@.subrange(0, i as int), visited@)),
        decreases ids@.len() - i,
    {
        let ghost prev = unvisited_ids(ids@.subrange(0, i as int), visited@);
        assert(ids@.subrange(0, i + 1).drop_last() =~= ids@.subrange(0, i as int));
        let id = ids[i];
        if !contains_id(visited, id) {
            let ghost next = prev.push(id);
            assert(unvisited_ids(ids@.subrange(0, i + 1), visited@) == next);
            match find_position(table, id) {
                Some(p) => {
                    if !missing {
                        let ghost before = out@.map_values(|x: usize| x as int);
                        out.push(p);
                        assert(out@.map_values(|x: usize| x as int) =~= before.push(p as int));
                        assert(positions(table@, next) =~= positions(table@, prev).push(find_index(table@, id).unwrap()));
                        assert forall|k: int| 0 <= k < next.len() implies find_index(table@, #[trigger] next[k]) is Some by {
                            if k < prev.len() {
                                assert(next[k] == prev[k]);
                            }
                        }
                    } else {
                        assert(!all_found(table@, next)) by {
                            let k = choose|k: int| 0 <= k < prev.len() && find_index(table@, #[trigger] prev[k]) is None;
                            assert(next[k] == prev[k]);
                        }
                    }
                },
                None => {
                    missing = true;
                    assert(next[prev.len() as int] == id);
                },
            }
        } else {
            assert(unvisited_ids(ids@.subrange(0, i + 1), visited@) == prev);
        }
        i = i + 1;
    }
    assert(ids@.subrange(0, ids@.len() as int) =~= ids@);
    if missing {
        None
    } else {
        Some(out)
    }
}

/// Hosted members first, each part in stored order.
fn order_hosted_first(table: &Vec<PackageRepositorySummary>, ps: &Vec<usize>) -> (r: Vec<usize>)
    requires
        forall|k: int| 0 <= k < ps@.len() ==> (#[trigger] ps@[k]) < table@.len(),
    ensures
        r@.map_values(|x: usize| x as int) == hosted_first(table@, ps@.map_values(|x: usize| x as int)),
        r@.map_values(|x: usize| x as int) == ps@.map_values(|x: usize| x as int).filter(
            |p: int| is_hosted_at(table@, p),
        ) + ps@.map_values(|x: usize| x as int).filter(|p: int| !is_hosted_at(table@, p)),
        forall|k: int| 0 <= k < r@.len() ==> (#[trigger] r@[k]) < table@.len(),
{
    let ghost pv = ps@.map_values(|x: usize| x as int);
    let mut hosted: Vec<usize> = Vec::new();
    let mut others: Vec<usize> = Vec::new();
    let mut i: usize = 0;
    while i < ps.len()
        invariant
            i <= ps@.len(),
            pv == ps@.map_values(|x: usize| x as int),
            forall|k: int| 0 <= k < ps@.len() ==> (#[trigger] ps@[k]) < table@.len(),
            hosted@.map_values(|x: usize| x as int) == hosted_positions(table@, pv.subrange(0, i as int)),
            others@.map_values(|x: usize| x as int) == other_positions(table@, pv.subrange(0, i as int)),
            forall|k: int| 0 <= k < hosted@.len() ==> (#[trigger] hosted@[k]) < table@.len(),
            forall|k: int| 0 <= k < others@.len() ==> (#[trigger] others@[k]) < table@.len(),
        decreases ps@.len() - i,
    {
        assert(pv.subrange(0, i + 1).drop_last() =~= pv.subrange(0, i as int));
        assert(pv.subrange(0, i + 1).last() == ps@[i as int] as int);
        let p = ps[i];
        if table[p].repo_type == RepositoryType::Hosted {
            let ghost before = hosted@.map_values(|x: usize| x as int);
            hosted.push(p);
            assert(hosted@.map_values(|x: usize| x as int) =~= before.push(p as int));
        } else {
            let ghost before = others@.map_values(|x: usize| x as int);
            others.push(p);
            assert(others@.map_values(|x: usize| x as int) =~= before.push(p as int));
        }
        i = i + 1;
    }
    assert(pv.subrange(0, ps@.len() as int) =~= pv);
    let ghost hv = hosted@.map_values(|x: usize| x as int);
    let mut j: usize = 0;
    while j < others.len()
        invariant
            j <= others@.len(),
            forall|k: int| 0 <= k < hosted@.len() ==> (#[trigger] hosted@[k]) < table@.len(),
            forall|k: int| 0 <= k < others@.len() ==> (#[trigger] others@[k]) < table@.len(),
            hosted@.map_values(|x: usize| x as int) == hv + others@.subrange(0, j as int).map_values(|x: usize| x as int),
        decreases others@.len() - j,
    {
        let ghost before = hosted@.map_values(|x: usize| x as int);
        hosted.push(others[j]);
        assert(hosted@.map_values(|x: usize| x as int) =~= before.push(others@[j as int] as int));
        assert(others@.subrange(0, j + 1).map_values(|x: usize| x as int) =~= others@.subrange(0, j as int).map_values(
            |x: usize| x as int,
        ).push(others@[j as int] as int));
        j = j + 1;
    }
    assert(others@.subrange(0, others@.len() as int) =~= others@);
    proof {
        lemma_hosted_first_is_stable_partition(table@, pv);
    }
    hosted
}

/// The attempts for the repository at position `p`, found on a path holding `visited`.
fn plan_fetched_exec(table: &Vec<PackageRepositorySummary>, p: usize, visited: &mut HashSet<u128>) -> (r: Vec<ResolveStep>)
    requires
        p < table@.len(),
    ensures
        r@ == plan_fetched(table@, p as int, old(visited)@),
        final(visited)@ == old(visited)@,
    decreases count_unvisited(table@, old(visited)@), 1nat, 0nat,
{
    match table[p].repo_type {
        RepositoryType::Hosted => vec![ResolveStep::Hosted(p)],
        RepositoryType::Proxy => vec![ResolveStep::Proxy(p)],
        RepositoryType::Group => {
            match member_positions(table, &table[p].group_members, visited) {
                None => vec![ResolveStep::NotFound],
                Some(ps) => {
                    proof {
                        let ids = unvisited_ids(table@[p as int].group_members@, old(visited)@);
                        assert forall|k: int| 0 <= k < ps@.len() implies (#[trigger] ps@[k]) < table@.len() by {
                            assert(ps@.map_values(|x: usize| x as int)[k] == ps@[k] as int);
                            assert(ps@.map_values(|x: usize| x as int).len() == ps@.len());
                            assert(positions(table@, ids).len() == ids.len());
                            assert(positions(table@, ids)[k] == find_index(table@, ids[k]).unwrap());
                            assert(find_index(table@, ids[k]) is Some);
                            lemma_find_index(table@, ids[k]);
                        }
                    }
                    let ordered = order_hosted_first(table, &ps);
                    let r = plan_members_exec(table, &ordered, 0, visited);
                    proof {
                        let ov = ordered@.map_values(|x: usize| x as int);
                        assert(ov.subrange(0, ordered@.len() as int) =~= ov);
                    }
                    r
                },
            }
        },
    }
}

/// The attempts for members `ps[from..]`, each on the group's path plus itself.
fn plan_members_exec(table: &Vec<PackageRepositorySummary>, ps: &Vec<usize>, from: usize, visited: &mut HashSet<u128>) -> (r: Vec<
    ResolveStep,
>)
    requires
        from <= ps@.len(),
        forall|k: int| 0 <= k < ps@.len() ==> (#[trigger] ps@[k]) < table@.len(),
    ensures
        r@ == plan_members(table@, ps@.map_values(|x: usize| x as int).subrange(from as int, ps@.len() as int), old(visited)@),
        final(visited)@ == old(visited)@,
    decreases count_unvisited(table@, old(visited)@), 0nat, ps@.len() - from,
{
    let ghost rest = ps@.map_values(|x: usize| x as int).subrange(from as int, ps@.len() as int);
    if from == ps.len() {
        return Vec::new();
    }
    assert(rest[0] == ps@[from as int] as int);
    assert(rest.drop_first() =~= ps@.map_values(|x: usize| x as int).subrange(from + 1, ps@.len() as int));
    let p = ps[from];
    let id = table[p].id;
    let mut head: Vec<ResolveStep> = if !contains_id(visited, id) {
        broadcast use vstd::std_specs::hash::group_hash_axioms;

        let ghost before = visited@;
        visited.insert(id);
        proof {
            lemma_count_push(table@, before, id);
        }
        let steps = plan_fetched_exec(table, p, visited);
        visited.remove(&id);
        assert(visited@ =~= before);
        steps
    } else {
        Vec::new()
    };
    let mut tail = plan_members_exec(table, ps, from + 1, visited);
    head.append(&mut tail);
    head
}

/// The attempts a read of repository `repository_id` makes, in order: the caller makes them one
/// after the other and stops at the first that finds something, or fails at `NotFound`.
pub fn resolution_steps(table: &Vec<PackageRepositorySummary>, repository_id: u128) -> (r: Vec<ResolveStep>)
    ensures
        r@ == resolution_plan(table@, repository_id, Set::empty()),
{
    broadcast use vstd::std_specs::hash::group_hash_axioms;

    let mut visited: HashSet<u128> = HashSet::new();
    assert(!visited@.contains(repository_id));
    match find_position(table, repository_id) {
        None => vec![ResolveStep::NotFound],
        Some(p) => {
            proof {
                lemma_find_index(table@, repository_id);
            }
            visited.insert(repository_id);
            assert(visited@ =~= Set::<u128>::empty().insert(repository_id));
            plan_fetched_exec(table, p, &mut visited)
        },
    }
}

/// Within a group, every hosted member is tried before any proxy or nested group member.
pub proof fn lemma_hosted_members_first(table: Seq<PackageRepositorySummary>, ps: Seq<int>, i: int, j: int)
    requires
        forall|k: int| 0 <= k < ps.len() ==> 0 <= #[trigger] ps[k] < table.len(),
        0 <= i < j < hosted_first(table, ps).len(),
        table[hosted_first(table, ps)[j]].repo_type == RepositoryType::Hosted,
    ensures
        table[hosted_first(table, ps)[i]].repo_type == RepositoryType::Hosted,
{
    lemma_partition_types(table, ps);
}

/// Whether the repository at position `p` of the table is a hosted one.
pub open spec fn is_hosted_at(table: Seq<PackageRepositorySummary>, p: int) -> bool {
    table[p].repo_type == RepositoryType::Hosted
}

/// The order a group's members are tried in is a stable partition of the stored order: the
/// stored list kept to its hosted members, then the stored list kept to the rest, so two
/// members of the same part are tried in the order they are stored.
pub proof fn lemma_hosted_first_is_stable_partition(table: Seq<PackageRepositorySummary>, ps: Seq<int>)
    ensures
        hosted_first(table, ps) == ps.filter(|p: int| is_hosted_at(table, p)) + ps.filter(
            |p: int| !is_hosted_at(table, p),
        ),
{
    let h = |p: int| is_hosted_at(table, p);
    let o = |p: int| !is_hosted_at(table, p);
    lemma_parts_are_filters(table, ps);
    assert(hosted_positions(table, ps) == ps.filter(h));
    assert(other_positions(table, ps) == ps.filter(o));
}

proof fn lemma_parts_are_filters(table: Seq<PackageRepositorySummary>, ps: Seq<int>)
    ensures
        hosted_positions(table, ps) == ps.filter(|p: int| is_hosted_at(table, p)),
        other_positions(table, ps) == ps.filter(|p: int| !is_hosted_at(table, p)),
    decreases ps.len(),
{
    let h = |p: int| is_hosted_at(table, p);
    let o = |p: int| !is_hosted_at(table, p);
    if ps.len() == 0 {
        reveal(Seq::filter);
        assert(ps.filter(h) =~= Seq::<int>::empty());
        assert(ps.filter(o) =~= Seq::<int>::empty());
    } else {
        lemma_parts_are_filters(table, ps.drop_last());
        assert(ps.drop_last().push(ps.last()) =~= ps);
        ps.drop_last().lemma_filter_push(ps.last(), h);
        ps.drop_last().lemma_filter_push(ps.last(), o);
    }
}

proof fn lemma_partition_types(table: Seq<PackageRepositorySummary>, ps: Seq<int>)
    ensures
        forall|k: int|
            0 <= k < hosted_positions(table, ps).len() ==> table[#[trigger] hosted_positions(table, ps)[k]].repo_type
                == RepositoryType::Hosted,
        forall|k: int|
            0 <= k < other_positions(table, ps).len() ==> table[#[trigger] other_positions(table, ps)[k]].repo_type
                != RepositoryType::Hosted,
    decreases ps.len(),
{
    if ps.len() > 0 {
        lemma_partition_types(table, ps.drop_last());
    }
}

/// Whether each attempt names a repository of the table of the matching kind: a hosted one is
/// only ever looked into, a proxy's remote only ever asked.
pub open spec fn steps_typed(table: Seq<PackageRepositorySummary>, steps: Seq<ResolveStep>) -> bool {
    forall|k: int|
        0 <= k < steps.len() ==> match #[trigger] steps[k] {
            ResolveStep::Hosted(i) => i < table.len() && table[i as int].repo_type == RepositoryType::Hosted,
            ResolveStep::Proxy(i) => i < table.len() && table[i as int].repo_type == RepositoryType::Proxy,
            ResolveStep::NotFound => true,
        }
}

proof fn lemma_steps_typed_concat(table: Seq<PackageRepositorySummary>, a: Seq<ResolveStep>, b: Seq<ResolveStep>)
    requires
        steps_typed(table, a),
        steps_typed(table, b),
    ensures
        steps_typed(table, a + b),
{
    assert forall|k: int| 0 <= k < (a + b).len() implies match #[trigger] (a + b)[k] {
        ResolveStep::Hosted(i) => i < table.len() && table[i as int].repo_type == RepositoryType::Hosted,
        ResolveStep::Proxy(i) => i < table.len() && table[i as int].repo_type == RepositoryType::Proxy,
        ResolveStep::NotFound => true,
    } by {
        if k < a.len() {
            assert((a + b)[k] == a[k]);
        } else {
            assert((a + b)[k] == b[k - a.len()]);
        }
    }
}

proof fn lemma_plan_fetched_typed(table: Seq<PackageRepositorySummary>, p: int, visited: Set<u128>)
    requires
        table.len() <= usize::MAX,
    ensures
        steps_typed(table, plan_fetched(table, p, visited)),
    decreases count_unvisited(table, visited), 1nat, 0nat,
{
    if 0 <= p < table.len() {
        match table[p].repo_type {
            RepositoryType::Group => {
                let ids = unvisited_ids(table[p].group_members@, visited);
                if all_found(table, ids) {
                    lemma_plan_members_typed(table, hosted_first(table, positions(table, ids)), visited);
                }
            },
            _ => {},
        }
    }
}

proof fn lemma_plan_members_typed(table: Seq<PackageRepositorySummary>, ps: Seq<int>, visited: Set<u128>)
    requires
        table.len() <= usize::MAX,
    ensures
        steps_typed(table, plan_members(table, ps, visited)),
    decreases count_unvisited(table, visited), 0nat, ps.len(),
{
    if ps.len() > 0 {
        let p = ps[0];
        if 0 <= p < table.len() && !visited.contains(table[p].id) {
            lemma_count_push(table, visited, table[p].id);
            lemma_plan_fetched_typed(table, p, visited.insert(table[p].id));
        }
        lemma_plan_members_typed(table, ps.drop_first(), visited);
        let head = if 0 <= p < table.len() && !visited.contains(table[p].id) {
            plan_fetched(table, p, visited.insert(table[p].id))
        } else {
            Seq::empty()
        };
        lemma_steps_typed_concat(table, head, plan_members(table, ps.drop_first(), visited));
    }
}

/// A read through a group only ever looks into hosted repositories and asks proxies' remotes,
/// each the kind the attempt says.
pub proof fn lemma_resolution_steps_typed(table: Seq<PackageRepositorySummary>, id: u128)
    requires
        table.len() <= usize::MAX,
    ensures
        steps_typed(table, resolution_plan(table, id, Set::empty())),
{
    if !Set::<u128>::empty().contains(id) {
        match find_index(table, id) {
            None => {},
            Some(p) => {
                lemma_plan_fetched_typed(table, p, Set::<u128>::empty().insert(id));
            },
        }
    }
}

} // verus!
