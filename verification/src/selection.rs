//! The paths that an operation works on.

use vstd::prelude::*;

use crate::collections::{lemma_one_more, path_views};
use crate::path::{path_lt, path_lt_ancestor, path_lt_connected, path_lt_irreflexive, path_lt_transitive, strictly_under, under, under_transitive, Part, TreePath};

verus! {

/// The paths come in increasing order.
pub open spec fn in_order(paths: Seq<Seq<Part>>) -> bool {
    forall|i: int, j: int| 0 <= i < j < paths.len() ==> !path_lt(#[trigger] paths[j], #[trigger] paths[i])
}

/// The paths come in strictly increasing order.
pub open spec fn strictly_in_order(paths: Seq<Seq<Part>>) -> bool {
    forall|i: int, j: int| 0 <= i < j < paths.len() ==> path_lt(#[trigger] paths[i], #[trigger] paths[j])
}

/// `path` is one of the paths, and none of the others is above it.
pub open spec fn is_outermost(paths: Seq<Seq<Part>>, path: Seq<Part>) -> bool {
    paths.contains(path) && forall|q: Seq<Part>| #[trigger]
        paths.contains(q) ==> !strictly_under(path, q)
}

/// `kept` holds the outermost of the paths, each once and in order.
pub open spec fn outermost(paths: Seq<Seq<Part>>, kept: Seq<Seq<Part>>) -> bool {
    &&& strictly_in_order(kept)
    &&& forall|p: Seq<Part>| #[trigger] kept.contains(p) <==> is_outermost(paths, p)
}

/// The outermost of some paths are determined by which paths they are: neither their order nor
/// repetitions matter.
pub proof fn outermost_unique(
    a: Seq<Seq<Part>>,
    b: Seq<Seq<Part>>,
    kept_a: Seq<Seq<Part>>,
    kept_b: Seq<Seq<Part>>,
)
    requires
        forall|p: Seq<Part>| #[trigger] a.contains(p) <==> b.contains(p),
        outermost(a, kept_a),
        outermost(b, kept_b),
    ensures
        kept_a == kept_b,
{
    assert forall|p: Seq<Part>| #[trigger] kept_a.contains(p) <==> kept_b.contains(p) by {
        if is_outermost(a, p) {
            assert forall|q: Seq<Part>| #[trigger] b.contains(q) implies !strictly_under(p, q) by {
                assert(a.contains(q));
            }
            assert(is_outermost(b, p));
        }
        if is_outermost(b, p) {
            assert forall|q: Seq<Part>| #[trigger] a.contains(q) implies !strictly_under(p, q) by {
                assert(b.contains(q));
            }
            assert(is_outermost(a, p));
        }
    }
    lemma_same_members(kept_a, kept_b);
}

proof fn lemma_same_members(a: Seq<Seq<Part>>, b: Seq<Seq<Part>>)
    requires
        strictly_in_order(a),
        strictly_in_order(b),
        forall|p: Seq<Part>| #[trigger] a.contains(p) <==> b.contains(p),
    ensures
        a == b,
    decreases a.len(),
{
    if a.len() == 0 {
        if b.len() > 0 {
            assert(b.contains(b[0]));
            assert(a.contains(b[0]));
        }
        assert(a =~= b);
    } else {
        assert(a.contains(a[0]));
        assert(b.contains(a[0]));
        assert(b.len() > 0);
        let (x, y) = (a.last(), b.last());
        assert(a[a.len() - 1] == x && b[b.len() - 1] == y);
        assert(b.contains(x)) by {
            assert(a.contains(x));
        }
        assert(a.contains(y)) by {
            assert(b.contains(y));
        }
        let i = choose|i: int| 0 <= i < b.len() && b[i] == x;
        let j = choose|j: int| 0 <= j < a.len() && a[j] == y;
        if x != y {
            assert(path_lt(b[i], b[b.len() - 1]));
            assert(path_lt(a[j], a[a.len() - 1]));
            path_lt_transitive(x, y, x);
            path_lt_irreflexive(x);
        }
        let (a2, b2) = (a.drop_last(), b.drop_last());
        assert forall|p: Seq<Part>| #[trigger] a2.contains(p) <==> b2.contains(p) by {
            lemma_without_last(a, p);
            lemma_without_last(b, p);
        }
        lemma_same_members(a2, b2);
        assert(a =~= a2.push(x));
        assert(b =~= b2.push(y));
    }
}

proof fn lemma_without_last(a: Seq<Seq<Part>>, p: Seq<Part>)
    requires
        strictly_in_order(a),
        a.len() > 0,
    ensures
        a.drop_last().contains(p) <==> a.contains(p) && p != a.last(),
{
    let b = a.drop_last();
    if b.contains(p) {
        let i = choose|i: int| 0 <= i < b.len() && b[i] == p;
        assert(a[i] == p);
        assert(path_lt(a[i], a[a.len() - 1]));
        path_lt_irreflexive(p);
    }
    if a.contains(p) && p != a.last() {
        let i = choose|i: int| 0 <= i < a.len() && a[i] == p;
        assert(b[i] == p);
    }
}

/// No path that is kept lies under another, and each of the paths lies under one that is kept.
pub proof fn outermost_covers(paths: Seq<Seq<Part>>, kept: Seq<Seq<Part>>)
    requires
        outermost(paths, kept),
    ensures
        forall|p: Seq<Part>, q: Seq<Part>|
            kept.contains(p) && kept.contains(q) ==> !#[trigger] strictly_under(p, q),
        forall|p: Seq<Part>| #[trigger]
            paths.contains(p) ==> exists|q: Seq<Part>| kept.contains(q) && #[trigger] under(p, q),
{
    assert forall|p: Seq<Part>, q: Seq<Part>|
        kept.contains(p) && kept.contains(q) implies !#[trigger] strictly_under(p, q) by {
        assert(is_outermost(paths, p) && is_outermost(paths, q));
    }
    assert forall|p: Seq<Part>| #[trigger] paths.contains(p) implies exists|q: Seq<Part>|
        kept.contains(q) && #[trigger] under(p, q) by {
        lemma_outermost_above(paths, p);
        let q = choose|q: Seq<Part>| is_outermost(paths, q) && #[trigger] under(p, q);
        assert(kept.contains(q));
    }
}

proof fn lemma_outermost_above(paths: Seq<Seq<Part>>, p: Seq<Part>)
    requires
        paths.contains(p),
    ensures
        exists|q: Seq<Part>| is_outermost(paths, q) && #[trigger] under(p, q),
    decreases p.len(),
{
    if is_outermost(paths, p) {
        assert(p.subrange(0, p.len() as int) =~= p);
        assert(under(p, p));
    } else {
        let q = choose|q: Seq<Part>| #[trigger] paths.contains(q) && strictly_under(p, q);
        if q.len() == p.len() {
            assert(q =~= p);
        }
        lemma_outermost_above(paths, q);
        let r = choose|r: Seq<Part>| is_outermost(paths, r) && #[trigger] under(q, r);
        under_transitive(p, q, r);
    }
}

/// The paths in increasing order.
fn sort_paths(paths: Vec<TreePath>) -> (r: Vec<TreePath>)
    ensures
        in_order(path_views(r@)),
        forall|p: Seq<Part>| #[trigger]
            path_views(r@).contains(p) <==> path_views(paths@).contains(p),
{
    let mut sorted: Vec<TreePath> = Vec::new();
    let ghost all = path_views(paths@);
    let mut n: usize = 0;
    while n < paths.len()
        invariant
            n <= paths.len(),
            all == path_views(paths@),
            in_order(path_views(sorted@)),
            forall|p: Seq<Part>| #[trigger]
                path_views(sorted@).contains(p) <==> all.take(n as int).contains(p),
        decreases paths.len() - n,
    {
        let ghost before = path_views(sorted@);
        let ghost e = all[n as int];
        let mut at: usize = sorted.len();
        while at > 0 && paths[n].before(&sorted[at - 1])
            invariant
                n < paths.len(),
                all == path_views(paths@),
                e == all[n as int],
                at <= sorted.len(),
                before == path_views(sorted@),
                in_order(before),
                forall|j: int| at <= j < before.len() ==> path_lt(e, #[trigger] before[j]),
            decreases at,
        {
            at = at - 1;
        }
        sorted.insert(at, paths[n].clone());
        proof {
            let after = path_views(sorted@);
            assert(after =~= before.insert(at as int, e));
            assert forall|i: int, j: int| 0 <= i < j < after.len() implies !path_lt(
                #[trigger] after[j],
                #[trigger] after[i],
            ) by {
                if j < at {
                    assert(!path_lt(before[j], before[i]));
                } else if i > at {
                    assert(!path_lt(before[j - 1], before[i - 1]));
                } else if i < at && j > at {
                    assert(!path_lt(before[j - 1], before[i]));
                } else if j == at {
                    if path_lt(e, before[i]) {
                        if i < at - 1 {
                            assert(!path_lt(before[at - 1], before[i]));
                            path_lt_connected(before[at - 1], before[i]);
                            if path_lt(before[i], before[at - 1]) {
                                path_lt_transitive(e, before[i], before[at - 1]);
                            }
                        }
                    }
                } else {
                    if path_lt(before[j - 1], e) {
                        path_lt_transitive(e, before[j - 1], e);
                        path_lt_irreflexive(e);
                    }
                }
            }
            lemma_inserted(before, at as int, e);
            lemma_one_more(all, n as int);
            assert forall|p: Seq<Part>| #[trigger] after.contains(p) <==> all.take(n + 1).contains(
                p,
            ) by {
                assert(before.contains(p) <==> all.take(n as int).contains(p));
            }
        }
        n = n + 1;
    }
    assert(all.take(n as int) =~= all);
    sorted
}

proof fn lemma_inserted(s: Seq<Seq<Part>>, at: int, e: Seq<Part>)
    requires
        0 <= at <= s.len(),
    ensures
        forall|p: Seq<Part>| #[trigger] s.insert(at, e).contains(p) <==> s.contains(p) || p == e,
{
    let t = s.insert(at, e);
    assert forall|p: Seq<Part>| #[trigger] t.contains(p) <==> s.contains(p) || p == e by {
        if s.contains(p) {
            let i = choose|i: int| 0 <= i < s.len() && s[i] == p;
            if i < at {
                assert(t[i] == p);
            } else {
                assert(t[i + 1] == p);
            }
        }
        if t.contains(p) {
            let i = choose|i: int| 0 <= i < t.len() && t[i] == p;
            if i < at {
                assert(s[i] == p);
            } else if i > at {
                assert(s[i - 1] == p);
            }
        }
        if p == e {
            assert(t[at] == p);
        }
    }
}

/// The path lies under one of the others.
pub fn under_any(path: &TreePath, others: &Vec<TreePath>) -> (r: bool)
    ensures
        r == exists|i: int| 0 <= i < others.len() && under(path@, #[trigger] others@[i]@),
{
    let mut i: usize = 0;
    while i < others.len()
        invariant
            i <= others.len(),
            forall|j: int| 0 <= j < i ==> !under(path@, #[trigger] others@[j]@),
        decreases others.len() - i,
    {
        if path.starts_with(&others[i]) {
            return true;
        }
        i = i + 1;
    }
    false
}

spec fn covered_by(p: Seq<Part>, kept: Seq<Seq<Part>>) -> bool {
    exists|i: int| 0 <= i < kept.len() && under(p, #[trigger] kept[i])
}

/// The outermost of the paths, in order: those that lie under another are dropped.
pub fn normalize(paths: Vec<TreePath>) -> (r: Vec<TreePath>)
    ensures
        outermost(path_views(paths@), path_views(r@)),
{
    let ghost all = path_views(paths@);
    let sorted = sort_paths(paths);
    let ghost s = path_views(sorted@);
    let mut kept: Vec<TreePath> = Vec::new();
    let mut n: usize = 0;
    while n < sorted.len()
        invariant
            n <= sorted.len(),
            s == path_views(sorted@),
            in_order(s),
            forall|p: Seq<Part>| #[trigger] s.contains(p) <==> all.contains(p),
            strictly_in_order(path_views(kept@)),
            forall|p: Seq<Part>| #[trigger]
                path_views(kept@).contains(p) <==> s.take(n as int).contains(p) && is_outermost(
                    all,
                    p,
                ),
            forall|j: int| 0 <= j < n ==> covered_by(#[trigger] s[j], path_views(kept@)),
        decreases sorted.len() - n,
    {
        let ghost before = path_views(kept@);
        let ghost p = s[n as int];
        let covered = under_any(&sorted[n], &kept);
        proof {
            assert(s.contains(p));
            if covered {
                let i = choose|i: int| 0 <= i < kept.len() && under(p, #[trigger] kept@[i]@);
                let q = kept@[i]@;
                assert(before[i] == q);
                assert(before.contains(q));
                assert(is_outermost(all, q));
                if q != p {
                    assert(strictly_under(p, q));
                    assert(!is_outermost(all, p));
                }
            } else {
                assert forall|q: Seq<Part>| #[trigger] all.contains(q) implies !strictly_under(p, q) by {
                    if strictly_under(p, q) {
                        path_lt_ancestor(q, p);
                        assert(s.contains(q));
                        let j = choose|j: int| 0 <= j < s.len() && s[j] == q;
                        if j > n {
                            assert(!path_lt(s[j], s[n as int]));
                        }
                        assert(covered_by(s[j], before));
                        let i = choose|i: int|
                            0 <= i < before.len() && under(q, #[trigger] before[i]);
                        under_transitive(p, q, before[i]);
                        assert(under(p, kept@[i]@));
                    }
                }
                assert(is_outermost(all, p));
            }
        }
        let ghost (was, now) = (s.take(n as int), s.take(n + 1));
        proof {
            lemma_one_more(s, n as int);
        }
        if !covered {
            kept.push(sorted[n].clone());
            proof {
                let after = path_views(kept@);
                assert(after =~= before.push(p));
                assert forall|i: int, j: int| 0 <= i < j < after.len() implies path_lt(
                    #[trigger] after[i],
                    #[trigger] after[j],
                ) by {
                    if j < before.len() {
                        assert(path_lt(before[i], before[j]));
                    } else {
                        let q = before[i];
                        assert(before.contains(q));
                        assert(was.contains(q));
                        let k = choose|k: int| 0 <= k < was.len() && was[k] == q;
                        assert(s[k] == q);
                        assert(!path_lt(s[n as int], s[k]));
                        path_lt_connected(q, p);
                        if q == p {
                            assert(kept@[i]@ == q);
                            assert(p.subrange(0, p.len() as int) =~= p);
                            assert(under(p, kept@[i]@));
                        }
                    }
                }
                assert forall|q: Seq<Part>| #[trigger] after.contains(q) <==> now.contains(q)
                    && is_outermost(all, q) by {
                    assert(before.contains(q) <==> was.contains(q) && is_outermost(all, q));
                    if before.contains(q) {
                        let i = choose|i: int| 0 <= i < before.len() && before[i] == q;
                        assert(after[i] == q);
                    }
                    if after.contains(q) {
                        let i = choose|i: int| 0 <= i < after.len() && after[i] == q;
                        if i < before.len() {
                            assert(before[i] == q);
                        }
                    }
                    if q == p {
                        assert(after[before.len() as int] == q);
                    }
                }
                assert forall|j: int| 0 <= j < n + 1 implies covered_by(#[trigger] s[j], after) by {
                    if j == n {
                        assert(after[before.len() as int] == p);
                        assert(p.subrange(0, p.len() as int) =~= p);
                        assert(under(p, after[before.len() as int]));
                    } else {
                        assert(covered_by(s[j], before));
                        let i = choose|i: int|
                            0 <= i < before.len() && under(s[j], #[trigger] before[i]);
                        assert(after[i] == before[i]);
                    }
                }
            }
        } else {
            proof {
                assert forall|q: Seq<Part>| #[trigger] before.contains(q) <==> now.contains(q)
                    && is_outermost(all, q) by {
                    assert(before.contains(q) <==> was.contains(q) && is_outermost(all, q));
                    if q == p && is_outermost(all, p) {
                        let i = choose|i: int| 0 <= i < kept.len() && under(p, #[trigger] kept@[i]@);
                        assert(before[i] == kept@[i]@);
                        assert(before.contains(kept@[i]@));
                    }
                }
            }
        }
        n = n + 1;
    }
    proof {
        assert(s.take(n as int) =~= s);
        assert forall|p: Seq<Part>| #[trigger] path_views(kept@).contains(p) <==> is_outermost(
            all,
            p,
        ) by {
            assert(s.contains(p) <==> all.contains(p));
        }
    }
    kept
}

} // verus!
