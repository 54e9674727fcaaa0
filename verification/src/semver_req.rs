//! npm version ranges checked with the `semver` crate: how an npm range is rewritten into the
//! crate's requirement syntax, which published version a range resolves to, and whether a
//! version falls in a range of vulnerable versions.

use vstd::prelude::*;

use crate::text::{chars_of, is_whitespace, is_whitespace_spec, string_of, string_push};

verus! {

/// Whether `semver::Version::parse` accepts the text.
pub uninterp spec fn version_valid_spec(text: Seq<char>) -> bool;

/// Whether `semver::VersionReq::parse` accepts the text.
pub uninterp spec fn requirement_valid_spec(text: Seq<char>) -> bool;

/// Whether `semver::VersionReq::matches` holds of a requirement and a version.
pub uninterp spec fn requirement_matches_spec(requirement: Seq<char>, version: Seq<char>) -> bool;

/// Whether the first version is greater than the second in `semver::Version`'s order.
pub uninterp spec fn version_greater_spec(a: Seq<char>, b: Seq<char>) -> bool;

/// `semver::Version::parse`: trusted to report whether the text is a version, and that a
/// version is never greater than itself (the order `semver::Version` derives is strict).
#[verifier::external_body]
pub(crate) fn version_parses(text: &str) -> (r: bool)
    ensures
        r == version_valid_spec(text@),
        r ==> !version_greater_spec(text@, text@),
{
    semver::Version::parse(text).is_ok()
}

/// `semver::VersionReq::parse`: trusted to report whether the text is a requirement.
#[verifier::external_body]
pub(crate) fn requirement_parses(text: &str) -> (r: bool)
    ensures
        r == requirement_valid_spec(text@),
{
    semver::VersionReq::parse(text).is_ok()
}

/// `semver::VersionReq::matches`, on a requirement and a version given as text that parses.
#[verifier::external_body]
pub(crate) fn requirement_matches(requirement: &str, version: &str) -> (r: bool)
    requires
        requirement_valid_spec(requirement@),
        version_valid_spec(version@),
    ensures
        r == requirement_matches_spec(requirement@, version@),
{
    semver::VersionReq::parse(requirement).unwrap().matches(&semver::Version::parse(version).unwrap())
}

/// `semver::Version`'s `>`, on two versions given as text that parses: a strict order (its
/// `Ord` is derived field by field), so no version is greater than itself, of two versions
/// at most one is greater than the other, and a version greater than `a` is greater than
/// every `b` that `a` is greater than.
#[verifier::external_body]
pub(crate) fn version_greater(a: &str, b: &str) -> (r: bool)
    requires
        version_valid_spec(a@),
        version_valid_spec(b@),
    ensures
        r == version_greater_spec(a@, b@),
        a@ == b@ ==> !r,
        r ==> !version_greater_spec(b@, a@),
        r ==> forall|c: Seq<char>|
            version_valid_spec(c) && #[trigger] version_greater_spec(c, a@) ==> version_greater_spec(c, b@),
{
    semver::Version::parse(a).unwrap() > semver::Version::parse(b).unwrap()
}

/// `x` and `X` wildcards become `*`.
pub open spec fn wildcard_char(c: char) -> char {
    if c == 'x' || c == 'X' {
        '*'
    } else {
        c
    }
}

pub open spec fn is_operator_char(c: char) -> bool {
    c == '^' || c == '~' || c == '>' || c == '<' || c == '='
}

/// One comparator of an npm range in `semver` syntax. npm reads a bare `1.2.3` as an exact
/// version where `semver` would read a caret range, so an `=` is put in front of anything that
/// does not start with an operator.
pub open spec fn normalize_comparator_spec(part: Seq<char>) -> Seq<char> {
    let p = part.map_values(|c: char| wildcard_char(c));
    if p.len() > 0 && is_operator_char(p[0]) {
        p
    } else {
        seq!['='] + p
    }
}

pub fn normalize_comparator(part: &str) -> (r: String)
    ensures
        r@ == normalize_comparator_spec(part@),
{
    let cs = chars_of(part);
    let mut mapped: Vec<char> = Vec::new();
    let mut i: usize = 0;
    while i < cs.len()
        invariant
            i <= cs@.len(),
            mapped@ == cs@.subrange(0, i as int).map_values(|c: char| wildcard_char(c)),
        decreases cs@.len() - i,
    {
        let c = cs[i];
        mapped.push(if c == 'x' || c == 'X' { '*' } else { c });
        i = i + 1;
        assert(mapped@ =~= cs@.subrange(0, i as int).map_values(|c: char| wildcard_char(c)));
    }
    assert(cs@.subrange(0, cs@.len() as int) =~= cs@);
    let ghost p = cs@.map_values(|c: char| wildcard_char(c));
    if mapped.len() > 0 && (mapped[0] == '^' || mapped[0] == '~' || mapped[0] == '>' || mapped[0] == '<' || mapped[0] == '=') {
        string_of(&mapped)
    } else {
        let mut out: Vec<char> = Vec::new();
        out.push('=');
        let mut k: usize = 0;
        while k < mapped.len()
            invariant
                k <= mapped@.len(),
                out@ == seq!['='] + mapped@.subrange(0, k as int),
            decreases mapped@.len() - k,
        {
            out.push(mapped[k]);
            k = k + 1;
            assert(out@ =~= seq!['='] + mapped@.subrange(0, k as int));
        }
        assert(mapped@.subrange(0, mapped@.len() as int) =~= mapped@);
        string_of(&out)
    }
}

/// Scanning state of `split_whitespace`: the words finished so far and the one being read.
pub open spec fn words_state(s: Seq<char>) -> (Seq<Seq<char>>, Seq<char>)
    decreases s.len(),
{
    if s.len() == 0 {
        (Seq::empty(), Seq::empty())
    } else {
        let (done, cur) = words_state(s.drop_last());
        let c = s.last();
        if is_whitespace_spec(c) {
            if cur.len() > 0 {
                (done.push(cur), Seq::empty())
            } else {
                (done, cur)
            }
        } else {
            (done, cur.push(c))
        }
    }
}

/// The maximal runs of non-whitespace characters, in order: what `split_whitespace` yields.
pub open spec fn words(s: Seq<char>) -> Seq<Seq<char>> {
    let (done, cur) = words_state(s);
    if cur.len() > 0 {
        done.push(cur)
    } else {
        done
    }
}

/// The words of a string.
pub fn split_whitespace(s: &str) -> (r: Vec<String>)
    ensures
        r@.len() == words(s@).len(),
        forall|i: int| 0 <= i < r@.len() ==> #[trigger] r@[i]@ == words(s@)[i],
{
    let cs = chars_of(s);
    let mut done: Vec<String> = Vec::new();
    let mut cur: Vec<char> = Vec::new();
    let mut i: usize = 0;
    while i < cs.len()
        invariant
            cs@ == s@,
            i <= cs@.len(),
            done@.len() == words_state(cs@.subrange(0, i as int)).0.len(),
            forall|j: int| 0 <= j < done@.len() ==> #[trigger] done@[j]@ == words_state(cs@.subrange(0, i as int)).0[j],
            cur@ == words_state(cs@.subrange(0, i as int)).1,
        decreases cs@.len() - i,
    {
        let c = cs[i];
        assert(cs@.subrange(0, i + 1).drop_last() =~= cs@.subrange(0, i as int));
        if is_whitespace(c) {
            if cur.len() > 0 {
                let w = string_of(&cur);
                done.push(w);
                cur = Vec::new();
            }
        } else {
            cur.push(c);
        }
        i = i + 1;
    }
    assert(cs@.subrange(0, cs@.len() as int) =~= cs@);
    if cur.len() > 0 {
        let w = string_of(&cur);
        done.push(w);
    }
    done
}

/// Scanning state of `split("||")`: the pieces finished so far, the one being read, and whether
/// a single `|` is waiting to be seen as half a separator.
pub open spec fn pipes_state(s: Seq<char>) -> (Seq<Seq<char>>, Seq<char>, bool)
    decreases s.len(),
{
    if s.len() == 0 {
        (Seq::empty(), Seq::empty(), false)
    } else {
        let (done, cur, pending) = pipes_state(s.drop_last());
        let c = s.last();
        if c == '|' {
            if pending {
                (done.push(cur), Seq::empty(), false)
            } else {
                (done, cur, true)
            }
        } else if pending {
            (done, cur.push('|').push(c), false)
        } else {
            (done, cur.push(c), false)
        }
    }
}

/// The pieces between non-overlapping `||` separators, left to right: what `split("||")` yields.
pub open spec fn split_pipes(s: Seq<char>) -> Seq<Seq<char>> {
    let (done, cur, pending) = pipes_state(s);
    done.push(
        if pending {
            cur.push('|')
        } else {
            cur
        },
    )
}

pub fn split_on_double_pipe(s: &str) -> (r: Vec<String>)
    ensures
        r@.len() == split_pipes(s@).len(),
        forall|i: int| 0 <= i < r@.len() ==> #[trigger] r@[i]@ == split_pipes(s@)[i],
{
    let cs = chars_of(s);
    let mut done: Vec<String> = Vec::new();
    let mut cur: Vec<char> = Vec::new();
    let mut pending = false;
    let mut i: usize = 0;
    while i < cs.len()
        invariant
            cs@ == s@,
            i <= cs@.len(),
            done@.len() == pipes_state(cs@.subrange(0, i as int)).0.len(),
            forall|j: int| 0 <= j < done@.len() ==> #[trigger] done@[j]@ == pipes_state(cs@.subrange(0, i as int)).0[j],
            cur@ == pipes_state(cs@.subrange(0, i as int)).1,
            pending == pipes_state(cs@.subrange(0, i as int)).2,
        decreases cs@.len() - i,
    {
        let c = cs[i];
        assert(cs@.subrange(0, i + 1).drop_last() =~= cs@.subrange(0, i as int));
        if c == '|' {
            if pending {
                let w = string_of(&cur);
                done.push(w);
                cur = Vec::new();
                pending = false;
            } else {
                pending = true;
            }
        } else {
            if pending {
                cur.push('|');
                pending = false;
            }
            cur.push(c);
        }
        i = i + 1;
    }
    assert(cs@.subrange(0, cs@.len() as int) =~= cs@);
    if pending {
        cur.push('|');
    }
    let w = string_of(&cur);
    done.push(w);
    done
}

/// The pieces joined with `", "` between them.
pub open spec fn join_comma(parts: Seq<Seq<char>>) -> Seq<char>
    decreases parts.len(),
{
    if parts.len() == 0 {
        Seq::empty()
    } else if parts.len() == 1 {
        parts[0]
    } else {
        join_comma(parts.drop_last()) + ", "@ + parts.last()
    }
}

/// The `semver` requirement text for one `||`-separated clause of an npm range: `*` for a
/// blank clause, `*` or `latest`; otherwise its normalized comparators joined by `, `.
pub open spec fn clause_requirement_text(clause: Seq<char>) -> Seq<char> {
    let ws = words(clause);
    if ws.len() == 0 || ws =~= seq!["*"@] || ws =~= seq!["latest"@] {
        "*"@
    } else {
        join_comma(ws.map_values(|w: Seq<char>| normalize_comparator_spec(w)))
    }
}

/// The requirement a clause stands for, when `semver` accepts it; hyphen ranges, git, file
/// and tag references are not accepted and give `None`.
pub open spec fn clause_requirement(clause: Seq<char>) -> Option<Seq<char>> {
    if requirement_valid_spec(clause_requirement_text(clause)) {
        Some(clause_requirement_text(clause))
    } else {
        None
    }
}

fn is_word(s: &String, w: &str) -> (r: bool)
    ensures
        r == (s@ == w@),
{
    let other = String::from_str(w);
    *s == other
}

pub fn parse_range_clause(clause: &str) -> (r: Option<String>)
    ensures
        match r {
            Some(t) => clause_requirement(clause@) == Some(t@),
            None => clause_requirement(clause@) is None,
        },
{
    let ws = split_whitespace(clause);
    let ghost spec_ws = words(clause@);
    proof {
        assert(ws@.len() == spec_ws.len());
    }
    let special = ws.len() == 0 || (ws.len() == 1 && (is_word(&ws[0], "*") || is_word(&ws[0], "latest")));
    proof {
        if ws@.len() == 1 {
            assert(ws@[0]@ == spec_ws[0]);
            if ws@[0]@ == "*"@ {
                assert(spec_ws =~= seq!["*"@]);
            }
            if ws@[0]@ == "latest"@ {
                assert(spec_ws =~= seq!["latest"@]);
            }
        }
        if spec_ws =~= seq!["*"@] || spec_ws =~= seq!["latest"@] {
            assert(ws@[0]@ == spec_ws[0]);
        }
    }
    let text = if special {
        String::from_str("*")
    } else {
        let ghost normalized = spec_ws.map_values(|w: Seq<char>| normalize_comparator_spec(w));
        let mut out = String::new();
        let mut i: usize = 0;
        while i < ws.len()
            invariant
                ws@.len() == spec_ws.len(),
                forall|j: int| 0 <= j < ws@.len() ==> #[trigger] ws@[j]@ == spec_ws[j],
                normalized == spec_ws.map_values(|w: Seq<char>| normalize_comparator_spec(w)),
                i <= ws@.len(),
                out@ == join_comma(normalized.subrange(0, i as int)),
            decreases ws@.len() - i,
        {
            let n = normalize_comparator(ws[i].as_str());
            assert(ws@[i as int]@ == spec_ws[i as int]);
            assert(normalized.subrange(0, i + 1).drop_last() =~= normalized.subrange(0, i as int));
            if i > 0 {
                out.append(", ");
            } else {
                assert(normalized.subrange(0, 1) =~= seq![normalized[0]]);
            }
            out.append(n.as_str());
            i = i + 1;
        }
        assert(normalized.subrange(0, ws@.len() as int) =~= normalized);
        out
    };
    if requirement_parses(text.as_str()) {
        Some(text)
    } else {
        None
    }
}

/// The requirements of a whole npm range, one per `||` clause (`None` where unsupported).
pub open spec fn range_requirements(range: Seq<char>) -> Seq<Option<Seq<char>>> {
    split_pipes(range).map_values(|c: Seq<char>| clause_requirement(c))
}

/// A supported clause whose requirement matches the version.
pub open spec fn clause_matches(req: Option<Seq<char>>, version: Seq<char>) -> bool {
    req matches Some(r) && requirement_matches_spec(r, version)
}

/// Whether `version` is a version that some supported clause of `range` matches.
pub open spec fn version_in_range(version: Seq<char>, range: Seq<char>) -> bool {
    &&& version_valid_spec(version)
    &&& exists|k: int|
        0 <= k < range_requirements(range).len() && clause_matches(#[trigger] range_requirements(range)[k], version)
}

pub fn version_satisfies_range(version: &str, range: &str) -> (r: bool)
    ensures
        r == version_in_range(version@, range@),
{
    if !version_parses(version) {
        return false;
    }
    let clauses = split_on_double_pipe(range);
    let ghost reqs = range_requirements(range@);
    let mut k: usize = 0;
    while k < clauses.len()
        invariant
            version_valid_spec(version@),
            clauses@.len() == split_pipes(range@).len(),
            forall|i: int| 0 <= i < clauses@.len() ==> #[trigger] clauses@[i]@ == split_pipes(range@)[i],
            reqs == range_requirements(range@),
            k <= clauses@.len(),
            forall|j: int| 0 <= j < k ==> !clause_matches(#[trigger] reqs[j], version@),
        decreases clauses@.len() - k,
    {
        assert(clauses@[k as int]@ == split_pipes(range@)[k as int]);
        match parse_range_clause(clauses[k].as_str()) {
            Some(req) => {
                if requirement_matches(req.as_str(), version) {
                    assert(reqs[k as int] == Some(req@));
                    return true;
                }
            },
            None => {},
        }
        k = k + 1;
    }
    false
}

/// Folding `versions[..n]` into the running best for one requirement: a version that parses,
/// matches and is greater than the best so far (or is the first) replaces it.
pub open spec fn best_in(req: Seq<char>, versions: Seq<Seq<char>>, n: int, best: Option<int>) -> Option<int>
    decreases n,
{
    if n <= 0 {
        best
    } else {
        let b = best_in(req, versions, n - 1, best);
        let v = versions[n - 1];
        if version_valid_spec(v) && requirement_matches_spec(req, v) && (b is None || version_greater_spec(
            v,
            versions[b->0],
        )) {
            Some(n - 1)
        } else {
            b
        }
    }
}

/// Folding the clauses `reqs[..k]` in order, each over every version.
pub open spec fn best_over(reqs: Seq<Option<Seq<char>>>, versions: Seq<Seq<char>>, k: int) -> Option<int>
    decreases k,
{
    if k <= 0 {
        None
    } else {
        let b = best_over(reqs, versions, k - 1);
        match reqs[k - 1] {
            Some(req) => best_in(req, versions, versions.len() as int, b),
            None => b,
        }
    }
}

/// The text of each string, in order.
pub open spec fn strings_view(s: Seq<String>) -> Seq<Seq<char>> {
    s.map_values(|v: String| v@)
}

pub proof fn lemma_strings_view_push(s: Seq<String>, x: String)
    ensures
        strings_view(s.push(x)) == strings_view(s).push(x@),
{
    assert(strings_view(s.push(x)) =~= strings_view(s).push(x@));
}

/// The published version a range resolves to (by position in `versions`): the greatest one a
/// supported clause matches, ties going to the first seen.
pub open spec fn resolve_range_spec(range: Seq<char>, versions: Seq<Seq<char>>) -> Option<int> {
    best_over(range_requirements(range), versions, range_requirements(range).len() as int)
}

/// Whether one of the first `k` requirements is supported and matches the version.
pub open spec fn matched_by_first(reqs: Seq<Option<Seq<char>>>, version: Seq<char>, k: int) -> bool {
    exists|j: int| 0 <= j < k && clause_matches(#[trigger] reqs[j], version)
}

/// Resolves `range` against the published `versions`. Beside the position, the result is the
/// highest over all clauses together: no listed version that some supported clause matches is
/// greater than it, and there is none only when no listed version is in the range.
pub fn resolve_range(range: &str, versions: &Vec<String>) -> (r: Option<usize>)
    ensures
        match r {
            Some(i) => resolve_range_spec(range@, strings_view(versions@)) == Some(i as int) && i < versions@.len(),
            None => resolve_range_spec(range@, strings_view(versions@)) is None,
        },
        r matches Some(i) ==> forall|t: int|
            0 <= t < versions@.len() && #[trigger] version_in_range(strings_view(versions@)[t], range@)
                ==> !version_greater_spec(strings_view(versions@)[t], strings_view(versions@)[i as int]),
        r is None ==> forall|t: int|
            0 <= t < versions@.len() ==> !#[trigger] version_in_range(strings_view(versions@)[t], range@),
{
    let ghost vs = strings_view(versions@);
    let clauses = split_on_double_pipe(range);
    let ghost reqs = range_requirements(range@);
    let mut best: Option<usize> = None;
    let mut k: usize = 0;
    while k < clauses.len()
        invariant
            vs == strings_view(versions@),
            clauses@.len() == split_pipes(range@).len(),
            forall|i: int| 0 <= i < clauses@.len() ==> #[trigger] clauses@[i]@ == split_pipes(range@)[i],
            reqs == range_requirements(range@),
            reqs.len() == clauses@.len(),
            k <= clauses@.len(),
            match best {
                Some(b) => best_over(reqs, vs, k as int) == Some(b as int) && b < versions@.len(),
                None => best_over(reqs, vs, k as int) is None,
            },
            best matches Some(b) ==> version_valid_spec(vs[b as int]),
            forall|t: int|
                0 <= t < vs.len() && version_valid_spec(vs[t]) && #[trigger] matched_by_first(reqs, vs[t], k as int)
                    ==> (best matches Some(b) && !version_greater_spec(vs[t], vs[b as int])),
        decreases clauses@.len() - k,
    {
        assert(clauses@[k as int]@ == split_pipes(range@)[k as int]);
        match parse_range_clause(clauses[k].as_str()) {
            Some(req) => {
                assert(reqs[k as int] == Some(req@));
                let ghost start = best_over(reqs, vs, k as int);
                let mut j: usize = 0;
                while j < versions.len()
                    invariant
                        vs == strings_view(versions@),
                        j <= versions@.len(),
                        match best {
                            Some(b) => best_in(req@, vs, j as int, start) == Some(b as int) && b < versions@.len(),
                            None => best_in(req@, vs, j as int, start) is None,
                        },
                        best matches Some(b) ==> version_valid_spec(vs[b as int]),
                        requirement_valid_spec(req@),
                        forall|t: int|
                            0 <= t < vs.len() && version_valid_spec(vs[t]) && (matched_by_first(reqs, vs[t], k as int)
                                || (t < j && requirement_matches_spec(req@, vs[t]))) ==> (best matches Some(b)
                                && !version_greater_spec(#[trigger] vs[t], vs[b as int])),
                    decreases versions@.len() - j,
                {
                    let v = versions[j].as_str();
                    assert(vs[j as int] == v@);
                    if version_parses(v) && requirement_matches(req.as_str(), v) {
                        let replace = match best {
                            None => true,
                            Some(b) => {
                                assert(vs[b as int] == versions@[b as int]@);
                                version_greater(v, versions[b].as_str())
                            },
                        };
                        if replace {
                            best = Some(j);
                        }
                    }
                    j = j + 1;
                }
                proof {
                    assert forall|t: int|
                        0 <= t < vs.len() && version_valid_spec(vs[t]) && #[trigger] matched_by_first(
                            reqs,
                            vs[t],
                            k + 1,
                        ) implies (best matches Some(b) && !version_greater_spec(vs[t], vs[b as int])) by {
                        if !matched_by_first(reqs, vs[t], k as int) {
                            let jj = choose|jj: int| 0 <= jj < k + 1 && clause_matches(#[trigger] reqs[jj], vs[t]);
                            assert(jj == k);
                        }
                    }
                }
            },
            None => {
                proof {
                    assert forall|t: int|
                        0 <= t < vs.len() && version_valid_spec(vs[t]) && #[trigger] matched_by_first(
                            reqs,
                            vs[t],
                            k + 1,
                        ) implies (best matches Some(b) && !version_greater_spec(vs[t], vs[b as int])) by {
                        let jj = choose|jj: int| 0 <= jj < k + 1 && clause_matches(#[trigger] reqs[jj], vs[t]);
                        assert(jj != k);
                        assert(matched_by_first(reqs, vs[t], k as int));
                    }
                }
            },
        }
        k = k + 1;
    }
    proof {
        assert forall|t: int| 0 <= t < versions@.len() && #[trigger] version_in_range(vs[t], range@) implies
            (best matches Some(b) && !version_greater_spec(vs[t], vs[b as int])) by {
            let jj = choose|jj: int| 0 <= jj < reqs.len() && clause_matches(#[trigger] reqs[jj], vs[t]);
            assert(matched_by_first(reqs, vs[t], k as int));
        }
    }
    best
}

/// Whatever a range resolves to is a version that a supported clause of the range matches.
pub proof fn lemma_resolved_version_is_in_range(range: Seq<char>, versions: Seq<Seq<char>>)
    requires
        resolve_range_spec(range, versions) is Some,
    ensures
        0 <= resolve_range_spec(range, versions)->0 < versions.len(),
        version_in_range(versions[resolve_range_spec(range, versions)->0], range),
{
    let reqs = range_requirements(range);
    lemma_best_over_in_range(reqs, versions, reqs.len() as int);
    let i = resolve_range_spec(range, versions)->0;
    let k = choose|k: int| 0 <= k < reqs.len() && clause_matches(#[trigger] reqs[k], versions[i]);
    assert(clause_matches(range_requirements(range)[k], versions[i]));
}

proof fn lemma_best_in_matches(req: Seq<char>, versions: Seq<Seq<char>>, n: int, best: Option<int>)
    requires
        n <= versions.len(),
    ensures
        best_in(req, versions, n, best) == best || (best_in(req, versions, n, best) matches Some(i) && 0 <= i < n
            && version_valid_spec(versions[i]) && requirement_matches_spec(req, versions[i])),
    decreases n,
{
    if n > 0 {
        lemma_best_in_matches(req, versions, n - 1, best);
    }
}

proof fn lemma_best_over_in_range(reqs: Seq<Option<Seq<char>>>, versions: Seq<Seq<char>>, k: int)
    requires
        k <= reqs.len(),
    ensures
        best_over(reqs, versions, k) matches Some(i) ==> 0 <= i < versions.len() && version_valid_spec(versions[i])
            && exists|j: int|
            0 <= j < k && clause_matches(#[trigger] reqs[j], versions[i]),
    decreases k,
{
    if k > 0 {
        lemma_best_over_in_range(reqs, versions, k - 1);
        let b = best_over(reqs, versions, k - 1);
        match reqs[k - 1] {
            Some(req) => {
                lemma_best_in_matches(req, versions, versions.len() as int, b);
                if best_over(reqs, versions, k) != b {
                    assert(clause_matches(reqs[k - 1], versions[best_over(reqs, versions, k)->0]));
                }
            },
            None => {},
        }
    }
}

} // verus!
