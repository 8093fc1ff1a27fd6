//! What a row of the tree tells about its path: the state of its files under version control, and
//! the diagnostics in them. A directory sums up what lies below it.

use vstd::prelude::*;
use vstd::string::*;

use crate::collections::{has_key, map_of_keys, map_of_values, PathMap};
use crate::path::{
    ancestor_transitive, ancestors_by_parent, is_ancestor, still_above, under, under_transitive, Part,
    TreePath,
};
use crate::text::{decimal, decimal_text};

verus! {

/// How version control sees a changed file.
#[derive(Debug, Clone, Copy, PartialEq, Eq, Structural)]
pub enum GitState {
    Untracked,
    Modified,
    Renamed,
    Deleted,
    Conflict,
}

/// How much a state matters when a directory can show only one of several.
pub open spec fn priority(state: GitState) -> u8 {
    match state {
        GitState::Untracked => 0,
        GitState::Modified => 1,
        GitState::Renamed => 1,
        GitState::Deleted => 2,
        GitState::Conflict => 3,
    }
}

/// How much a state matters when a directory can show only one of several.
pub fn git_priority(state: GitState) -> (r: u8)
    ensures
        r == priority(state),
{
    match state {
        GitState::Untracked => 0,
        GitState::Modified | GitState::Renamed => 1,
        GitState::Deleted => 2,
        GitState::Conflict => 3,
    }
}

/// The state of `path` counts for the directory `dir`: `dir` is one of its ancestors, and lies in
/// the tree that starts at `root`.
pub open spec fn counts_for(
    direct: Map<Seq<Part>, GitState>,
    root: Seq<Part>,
    path: Seq<Part>,
    dir: Seq<Part>,
) -> bool {
    direct.contains_key(path) && is_ancestor(dir, path) && under(dir, root)
}

/// `summary` is `direct` with the states named by `raised`, pairs of a path and a directory for
/// which it counts, carried up. Where several states meet, one that matters most is shown, and a
/// path's own state gives way only to one that matters more.
pub open spec fn carries(
    direct: Map<Seq<Part>, GitState>,
    raised: Set<(Seq<Part>, Seq<Part>)>,
    summary: Map<Seq<Part>, GitState>,
) -> bool {
    &&& forall|k: Seq<Part>| #[trigger]
        summary.contains_key(k) <==> direct.contains_key(k) || exists|p: Seq<Part>| #[trigger]
            raised.contains((p, k))
    &&& forall|k: Seq<Part>| #[trigger]
        summary.contains_key(k) ==> (direct.contains_key(k) && summary[k] == direct[k]) || exists|
            p: Seq<Part>,
        | #[trigger]
            raised.contains((p, k)) && direct[p] == summary[k]
    &&& forall|p: Seq<Part>, k: Seq<Part>| #[trigger]
        raised.contains((p, k)) ==> priority(direct[p]) <= priority(summary[k])
    &&& forall|k: Seq<Part>| #[trigger]
        direct.contains_key(k) ==> priority(direct[k]) <= priority(summary[k]) && (priority(
            direct[k],
        ) == priority(summary[k]) ==> summary[k] == direct[k])
}

/// All the pairs of a path and a directory for which it counts.
pub open spec fn all_counting(direct: Map<Seq<Part>, GitState>, root: Seq<Part>) -> Set<
    (Seq<Part>, Seq<Part>),
> {
    Set::new(|e: (Seq<Part>, Seq<Part>)| counts_for(direct, root, e.0, e.1))
}

proof fn lemma_carry_one(
    direct: Map<Seq<Part>, GitState>,
    raised: Set<(Seq<Part>, Seq<Part>)>,
    before: Map<Seq<Part>, GitState>,
    after: Map<Seq<Part>, GitState>,
    p: Seq<Part>,
    k: Seq<Part>,
)
    requires
        carries(direct, raised, before),
        after == if before.contains_key(k) && priority(direct[p]) <= priority(before[k]) {
            before
        } else {
            before.insert(k, direct[p])
        },
    ensures
        carries(direct, raised.insert((p, k)), after),
{
    let more = raised.insert((p, k));
    assert forall|q: Seq<Part>| #[trigger] after.contains_key(q) <==> direct.contains_key(q)
        || exists|r: Seq<Part>| #[trigger] more.contains((r, q)) by {
        assert(before.contains_key(q) <==> direct.contains_key(q) || exists|r: Seq<Part>| #[trigger]
            raised.contains((r, q)));
        if exists|r: Seq<Part>| #[trigger] raised.contains((r, q)) {
            let r = choose|r: Seq<Part>| #[trigger] raised.contains((r, q));
            assert(more.contains((r, q)));
        }
        if exists|r: Seq<Part>| #[trigger] more.contains((r, q)) {
            let r = choose|r: Seq<Part>| #[trigger] more.contains((r, q));
            if (r, q) != (p, k) {
                assert(raised.contains((r, q)));
            }
        }
        if q == k {
            assert(more.contains((p, k)));
        }
    }
    assert forall|q: Seq<Part>| #[trigger] after.contains_key(q) implies (direct.contains_key(q)
        && after[q] == direct[q]) || exists|r: Seq<Part>| #[trigger]
        more.contains((r, q)) && direct[r] == after[q] by {
        if q == k && after[k] == direct[p] {
            assert(more.contains((p, k)));
        } else {
            assert(before.contains_key(q) && before[q] == after[q]);
            if !(direct.contains_key(q) && after[q] == direct[q]) {
                let r = choose|r: Seq<Part>| #[trigger]
                    raised.contains((r, q)) && direct[r] == before[q];
                assert(more.contains((r, q)));
            }
        }
    }
    assert forall|r: Seq<Part>, q: Seq<Part>| #[trigger] more.contains((r, q)) implies priority(
        direct[r],
    ) <= priority(after[q]) by {
        if (r, q) != (p, k) {
            assert(raised.contains((r, q)));
            assert(before.contains_key(q));
        }
    }
    assert forall|q: Seq<Part>| #[trigger] direct.contains_key(q) implies priority(direct[q])
        <= priority(after[q]) && (priority(direct[q]) == priority(after[q]) ==> after[q]
        == direct[q]) by {
        assert(before.contains_key(q));
    }
}

/// Carries the states of changed files up to their directories, as far as `root`.
pub fn aggregate_git_status(direct: &PathMap<GitState>, root: &TreePath) -> (result: PathMap<
    GitState,
>)
    requires
        direct.wf(),
    ensures
        result.wf(),
        carries(direct@, all_counting(direct@, root@), result@),
{
    let mut result = direct.clone();
    let ghost mut raised: Set<(Seq<Part>, Seq<Part>)> = Set::empty();
    let ghost pairs = direct.pairs();
    proof {
        map_of_keys(pairs);
        map_of_values(pairs);
    }
    let mut i: usize = 0;
    while i < direct.len()
        invariant
            i <= pairs.len(),
            pairs == direct.pairs(),
            direct.wf(),
            result.wf(),
            carries(direct@, raised, result@),
            forall|p: Seq<Part>, k: Seq<Part>| #[trigger]
                raised.contains((p, k)) <==> counts_for(direct@, root@, p, k) && has_key(
                    pairs.take(i as int),
                    p,
                ),
            forall|j: int|
                0 <= j < pairs.len() ==> direct@.contains_key(#[trigger] pairs[j].0)
                    && direct@[pairs[j].0] == pairs[j].1,
        decreases pairs.len() - i,
    {
        let state = direct.value_at(i);
        let ghost p = pairs[i as int].0;
        let ghost done = raised;
        assert(!has_key(pairs.take(i as int), p)) by {
            if has_key(pairs.take(i as int), p) {
                let j = choose|j: int|
                    0 <= j < pairs.take(i as int).len() && #[trigger] pairs.take(i as int)[j].0
                        == p;
                assert(pairs[j].0 == p);
            }
        }
        let mut parent = direct.key_at(i).parent();
        proof {
            assert forall|q: Seq<Part>, k: Seq<Part>| #[trigger] raised.contains((q, k)) <==> (
            done.contains((q, k)) || (q == p && counts_for(direct@, root@, p, k) && !still_above(parent, k))) by {
                ancestors_by_parent(k, p);
            }
        }
        loop
            invariant_except_break
                direct.wf(),
                result.wf(),
                carries(direct@, raised, result@),
                direct@.contains_key(p),
                direct@[p] == state,
                parent matches Some(d) ==> is_ancestor(d@, p),
                forall|q: Seq<Part>, k: Seq<Part>| #[trigger]
                    raised.contains((q, k)) <==> (done.contains((q, k)) || (q == p && counts_for(
                        direct@,
                        root@,
                        p,
                        k,
                    ) && !still_above(parent, k))),
            ensures
                carries(direct@, raised, result@),
                result.wf(),
                forall|q: Seq<Part>, k: Seq<Part>| #[trigger]
                    raised.contains((q, k)) <==> (done.contains((q, k)) || (q == p && counts_for(
                        direct@,
                        root@,
                        p,
                        k,
                    ))),
            decreases
                    (if parent is Some {
                        parent->0@.len() + 1
                    } else {
                        0
                    }),
        {
            let dir = match parent {
                Some(dir) => dir,
                None => {
                    break;
                },
            };
            if !dir.starts_with(root) {
                proof {
                    assert forall|k: Seq<Part>| counts_for(direct@, root@, p, k) implies !still_above(
                        Some(dir),
                        k,
                    ) by {
                        if still_above(Some(dir), k) {
                            if k != dir@ {
                                under_transitive(dir@, k, root@);
                            }
                        }
                    }
                }
                break;
            }
            let ghost before = result@;
            let ghost had = raised;
            let next = dir.parent();
            let replace = match result.get(&dir) {
                Some(current) => git_priority(state) > git_priority(current),
                None => true,
            };
            let ghost d = dir@;
            if replace {
                result.insert(dir, state);
            }
            proof {
                lemma_carry_one(direct@, had, before, result@, p, d);
                raised = had.insert((p, d));
                assert forall|q: Seq<Part>, k: Seq<Part>| #[trigger] raised.contains((q, k)) <==> (
                done.contains((q, k)) || (q == p && counts_for(direct@, root@, p, k) && !still_above(
                    next,
                    k,
                ))) by {
                    ancestors_by_parent(k, d);
                    if q == p && k == d {
                        assert(!still_above(next, d)) by {
                            if next is Some {
                                assert(next->0@.len() < d.len());
                                if is_ancestor(d, next->0@) {
                                    assert(d.len() <= next->0@.len());
                                }
                            }
                        }
                    } else {
                        assert(raised.contains((q, k)) == had.contains((q, k)));
                    }
                }
                if next is Some {
                    ancestors_by_parent(next->0@, d);
                    crate::path::under_transitive(p, d, next->0@);
                }
            }
            parent = next;
        }
        proof {
            let now = pairs.take(i + 1);
            let was = pairs.take(i as int);
            assert forall|q: Seq<Part>, k: Seq<Part>| #[trigger] raised.contains((q, k))
                <==> counts_for(direct@, root@, q, k) && has_key(now, q) by {
                assert(done.contains((q, k)) <==> counts_for(direct@, root@, q, k) && has_key(
                    was,
                    q,
                ));
                if has_key(was, q) {
                    let j = choose|j: int| 0 <= j < was.len() && #[trigger] was[j].0 == q;
                    assert(now[j].0 == q);
                }
                if has_key(now, q) {
                    let j = choose|j: int| 0 <= j < now.len() && #[trigger] now[j].0 == q;
                    if j < i {
                        assert(was[j].0 == q);
                    }
                }
                if q == p {
                    assert(now[i as int].0 == q);
                }
            }
        }
        i = i + 1;
    }
    proof {
        assert(pairs.take(i as int) =~= pairs);
        assert(raised =~= all_counting(direct@, root@)) by {
            assert forall|e: (Seq<Part>, Seq<Part>)| raised.contains(e) == all_counting(
                direct@,
                root@,
            ).contains(e) by {
                assert(e == (e.0, e.1));
            }
        }
    }
    result
}

/// The diagnostics of `path` count for `k`: for the path itself and for each of its ancestors.
pub open spec fn covers(k: Seq<Part>, path: Seq<Part>) -> bool {
    k == path || is_ancestor(k, path)
}

/// The errors of all the paths that count for `k`.
pub open spec fn sum_errors(pairs: Seq<(Seq<Part>, (usize, usize))>, k: Seq<Part>) -> nat
    decreases pairs.len(),
{
    if pairs.len() == 0 {
        0
    } else {
        sum_errors(pairs.drop_last(), k) + (if covers(k, pairs.last().0) {
            pairs.last().1.0 as nat
        } else {
            0
        })
    }
}

/// The warnings of all the paths that count for `k`.
pub open spec fn sum_warnings(pairs: Seq<(Seq<Part>, (usize, usize))>, k: Seq<Part>) -> nat
    decreases pairs.len(),
{
    if pairs.len() == 0 {
        0
    } else {
        sum_warnings(pairs.drop_last(), k) + (if covers(k, pairs.last().0) {
            pairs.last().1.1 as nat
        } else {
            0
        })
    }
}

/// One of the paths counts for `k`.
pub open spec fn covers_any(pairs: Seq<(Seq<Part>, (usize, usize))>, k: Seq<Part>) -> bool {
    exists|i: int| 0 <= i < pairs.len() && covers(k, #[trigger] pairs[i].0)
}

/// The sums over all paths that count for a directory of the tree can be represented.
pub open spec fn sums_fit(pairs: Seq<(Seq<Part>, (usize, usize))>, root: Seq<Part>) -> bool {
    forall|k: Seq<Part>|
        under(k, root) ==> #[trigger] sum_errors(pairs, k) <= usize::MAX && sum_warnings(pairs, k)
            <= usize::MAX
}

/// `sums` holds, for each path of the tree at `root` for which something counts, the sums over all
/// that counts for it.
pub open spec fn totals(
    pairs: Seq<(Seq<Part>, (usize, usize))>,
    root: Seq<Part>,
    sums: Map<Seq<Part>, (usize, usize)>,
) -> bool {
    forall|k: Seq<Part>|
        {
            &&& #[trigger] sums.contains_key(k) <==> under(k, root) && covers_any(pairs, k)
            &&& sums.contains_key(k) ==> sums[k].0 == sum_errors(pairs, k) && sums[k].1
                == sum_warnings(pairs, k)
        }
}

proof fn lemma_sums_grow(pairs: Seq<(Seq<Part>, (usize, usize))>, n: int, k: Seq<Part>)
    requires
        0 <= n <= pairs.len(),
    ensures
        sum_errors(pairs.take(n), k) <= sum_errors(pairs, k),
        sum_warnings(pairs.take(n), k) <= sum_warnings(pairs, k),
    decreases pairs.len(),
{
    if n < pairs.len() {
        lemma_sums_grow(pairs.drop_last(), n, k);
        assert(pairs.drop_last().take(n) =~= pairs.take(n));
    } else {
        assert(pairs.take(n) =~= pairs);
    }
}

proof fn lemma_no_cover_no_sum(pairs: Seq<(Seq<Part>, (usize, usize))>, k: Seq<Part>)
    requires
        !covers_any(pairs, k),
    ensures
        sum_errors(pairs, k) == 0,
        sum_warnings(pairs, k) == 0,
    decreases pairs.len(),
{
    if pairs.len() > 0 {
        let rest = pairs.drop_last();
        assert(!covers_any(rest, k)) by {
            if covers_any(rest, k) {
                let i = choose|i: int| 0 <= i < rest.len() && covers(k, #[trigger] rest[i].0);
                assert(covers(k, pairs[i].0));
            }
        }
        lemma_no_cover_no_sum(rest, k);
        assert(!covers(k, pairs[pairs.len() - 1].0));
    }
}

/// The sums so far: those over `pairs`, and for the keys for which `also` holds, `counts` more.
spec fn totals_with(
    pairs: Seq<(Seq<Part>, (usize, usize))>,
    root: Seq<Part>,
    sums: Map<Seq<Part>, (usize, usize)>,
    path: Seq<Part>,
    counts: (usize, usize),
    left: Option<TreePath>,
) -> bool {
    forall|k: Seq<Part>|
        {
            let also = covers(k, path) && !still_above(left, k);
            &&& #[trigger] sums.contains_key(k) <==> under(k, root) && (covers_any(pairs, k)
                || also)
            &&& sums.contains_key(k) ==> sums[k].0 == sum_errors(pairs, k) + (if also {
                counts.0 as int
            } else {
                0
            }) && sums[k].1 == sum_warnings(pairs, k) + (if also {
                counts.1 as int
            } else {
                0
            })
        }
}

/// Adds the diagnostics of each path up over its directories, as far as `root`.
pub fn aggregate_diagnostics(direct: PathMap<(usize, usize)>, root: &TreePath) -> (result: PathMap<
    (usize, usize),
>)
    requires
        direct.wf(),
        sums_fit(direct.pairs(), root@),
    ensures
        result.wf(),
        totals(direct.pairs(), root@, result@),
{
    let mut result: PathMap<(usize, usize)> = PathMap::new();
    let ghost pairs = direct.pairs();
    let mut i: usize = 0;
    while i < direct.len()
        invariant
            i <= pairs.len(),
            pairs == direct.pairs(),
            sums_fit(pairs, root@),
            result.wf(),
            totals(pairs.take(i as int), root@, result@),
        decreases pairs.len() - i,
    {
        let counts = direct.value_at(i);
        let ghost p = pairs[i as int].0;
        let ghost was = pairs.take(i as int);
        let ghost now = pairs.take(i + 1);
        assert(now.drop_last() =~= was);
        assert(now.last() == pairs[i as int]);
        let mut current: Option<TreePath> = Some(direct.key_at(i).clone());
        assert(totals_with(was, root@, result@, p, counts, current));
        loop
            invariant_except_break
                current matches Some(d) ==> covers(d@, p),
                totals_with(was, root@, result@, p, counts, current),
            invariant
                result.wf(),
                0 <= i < pairs.len(),
                sums_fit(pairs, root@),
                was == pairs.take(i as int),
                now == pairs.take(i + 1),
                now.drop_last() == was,
                now.last() == (p, counts),
            ensures
                totals_with(was, root@, result@, p, counts, None),
            decreases
                    (if current is Some {
                        current->0@.len() + 1
                    } else {
                        0
                    }),
        {
            let dir = match current {
                Some(dir) => dir,
                None => {
                    break;
                },
            };
            if !dir.starts_with(root) {
                proof {
                    assert forall|k: Seq<Part>| under(k, root@) implies !still_above(Some(dir), k) by {
                        if still_above(Some(dir), k) && k != dir@ {
                            under_transitive(dir@, k, root@);
                        }
                    }
                    assert(totals_with(was, root@, result@, p, counts, None)) by {
                        assert forall|k: Seq<Part>| #[trigger] result@.contains_key(k) implies under(
                            k,
                            root@,
                        ) by {}
                    }
                }
                break;
            }
            let ghost d = dir@;
            let ghost before = result@;
            let next = dir.parent();
            proof {
                lemma_sums_grow(pairs, i + 1, d);
                assert(!(covers(d, p) && !still_above(Some(dir), d)));
                if !covers_any(was, d) {
                    lemma_no_cover_no_sum(was, d);
                }
                assert(before.contains_key(d) <==> covers_any(was, d));
                assert(sum_errors(pairs, d) <= usize::MAX);
            }
            let (errors, warnings) = match result.get(&dir) {
                Some(sums) => sums,
                None => (0, 0),
            };
            result.insert(dir, (errors + counts.0, warnings + counts.1));
            proof {
                assert forall|k: Seq<Part>|
                    {
                        let also = covers(k, p) && !still_above(next, k);
                        &&& #[trigger] result@.contains_key(k) <==> under(k, root@) && (covers_any(
                            was,
                            k,
                        ) || also)
                        &&& result@.contains_key(k) ==> result@[k].0 == sum_errors(was, k) + (
                        if also {
                            counts.0 as int
                        } else {
                            0
                        }) && result@[k].1 == sum_warnings(was, k) + (if also {
                            counts.1 as int
                        } else {
                            0
                        })
                    } by {
                    ancestors_by_parent(k, d);
                    assert(before.contains_key(k) <==> under(k, root@) && (covers_any(was, k) || (
                    covers(k, p) && !still_above(Some(dir), k))));
                    if k == d {
                        assert(!still_above(next, d)) by {
                            if next is Some {
                                assert(next->0@.len() < d.len());
                                if is_ancestor(d, next->0@) {
                                    assert(d.len() <= next->0@.len());
                                }
                            }
                        }
                    } else {
                        assert(still_above(Some(dir), k) == still_above(next, k));
                    }
                }
                if next is Some {
                    ancestors_by_parent(next->0@, d);
                    if d != p {
                        under_transitive(p, d, next->0@);
                    }
                }
            }
            current = next;
        }
        proof {
            assert forall|k: Seq<Part>|
                {
                    &&& #[trigger] result@.contains_key(k) <==> under(k, root@) && covers_any(
                        now,
                        k,
                    )
                    &&& result@.contains_key(k) ==> result@[k].0 == sum_errors(now, k)
                        && result@[k].1 == sum_warnings(now, k)
                } by {
                assert(result@.contains_key(k) <==> under(k, root@) && (covers_any(was, k)
                    || covers(k, p)));
                if covers_any(was, k) {
                    let j = choose|j: int| 0 <= j < was.len() && covers(k, #[trigger] was[j].0);
                    assert(covers(k, now[j].0));
                }
                if covers_any(now, k) {
                    let j = choose|j: int| 0 <= j < now.len() && covers(k, #[trigger] now[j].0);
                    if j < i {
                        assert(covers(k, was[j].0));
                    }
                }
                if covers(k, p) {
                    assert(covers(k, now[i as int].0));
                }
            }
        }
        i = i + 1;
    }
    assert(pairs.take(i as int) =~= pairs);
    result
}

/// The letter that stands for a state.
pub open spec fn git_mark(state: GitState) -> char {
    match state {
        GitState::Untracked => '?',
        GitState::Modified => 'M',
        GitState::Renamed => 'R',
        GitState::Deleted => 'D',
        GitState::Conflict => '!',
    }
}

/// A count behind its letter, or nothing where there is nothing to count.
pub open spec fn counted(letter: char, n: nat) -> Seq<char> {
    if n > 0 {
        seq![' ', letter] + decimal(n)
    } else {
        Seq::empty()
    }
}

/// What stands at the end of a row: the letter of its state, its errors and its warnings.
pub open spec fn badge_of(git: Option<GitState>, diagnostics: Option<(usize, usize)>) -> Seq<char> {
    (match git {
        Some(state) => seq![' ', git_mark(state)],
        None => Seq::empty(),
    }) + (match diagnostics {
        Some((errors, warnings)) => counted('E', errors as nat) + counted('W', warnings as nat),
        None => Seq::empty(),
    })
}

/// What stands at the end of a row.
pub fn metadata_badge(git: Option<GitState>, diagnostics: Option<(usize, usize)>) -> (r: String)
    ensures
        r@ == badge_of(git, diagnostics),
{
    proof {
        reveal_strlit(" ?");
        reveal_strlit(" M");
        reveal_strlit(" R");
        reveal_strlit(" D");
        reveal_strlit(" !");
        reveal_strlit(" E");
        reveal_strlit(" W");
    }
    let mut badge = String::new();
    if let Some(state) = git {
        let mark = match state {
            GitState::Untracked => " ?",
            GitState::Modified => " M",
            GitState::Renamed => " R",
            GitState::Deleted => " D",
            GitState::Conflict => " !",
        };
        badge.append(mark);
        assert(badge@ =~= seq![' ', git_mark(state)]);
    }
    let ghost head = badge@;
    if let Some((errors, warnings)) = diagnostics {
        if errors > 0 {
            badge.append(" E");
            badge.append(decimal_text(errors).as_str());
        }
        assert(badge@ =~= head + counted('E', errors as nat));
        if warnings > 0 {
            badge.append(" W");
            badge.append(decimal_text(warnings).as_str());
        }
        assert(badge@ =~= head + (counted('E', errors as nat) + counted('W', warnings as nat)));
    }
    assert(badge@ =~= badge_of(git, diagnostics));
    badge
}

/// No directory of the tree shows a state that matters less than what is shown anywhere below it.
pub proof fn git_summary_is_monotone(
    direct: Map<Seq<Part>, GitState>,
    root: Seq<Part>,
    summary: Map<Seq<Part>, GitState>,
    dir: Seq<Part>,
    path: Seq<Part>,
)
    requires
        carries(direct, all_counting(direct, root), summary),
        under(dir, root),
        is_ancestor(dir, path),
        summary.contains_key(path),
    ensures
        summary.contains_key(dir),
        priority(summary[path]) <= priority(summary[dir]),
{
    let raised = all_counting(direct, root);
    let source = if direct.contains_key(path) && summary[path] == direct[path] {
        path
    } else {
        choose|p: Seq<Part>| #[trigger] raised.contains((p, path)) && direct[p] == summary[path]
    };
    if source != path {
        assert(raised.contains((source, path)));
        assert(counts_for(direct, root, source, path));
        ancestor_transitive(dir, path, source);
    }
    assert(counts_for(direct, root, source, dir));
    assert(raised.contains((source, dir)));
}

/// No directory counts fewer diagnostics than anything below it.
pub proof fn sums_are_monotone(
    pairs: Seq<(Seq<Part>, (usize, usize))>,
    dir: Seq<Part>,
    path: Seq<Part>,
)
    requires
        is_ancestor(dir, path),
    ensures
        sum_errors(pairs, path) <= sum_errors(pairs, dir),
        sum_warnings(pairs, path) <= sum_warnings(pairs, dir),
        covers_any(pairs, path) ==> covers_any(pairs, dir),
    decreases pairs.len(),
{
    if pairs.len() > 0 {
        sums_are_monotone(pairs.drop_last(), dir, path);
        let last = pairs.last().0;
        if covers(path, last) && path != last {
            ancestor_transitive(dir, path, last);
        }
    }
    if covers_any(pairs, path) {
        let i = choose|i: int| 0 <= i < pairs.len() && covers(path, #[trigger] pairs[i].0);
        if path != pairs[i].0 {
            ancestor_transitive(dir, path, pairs[i].0);
        }
        assert(covers(dir, pairs[i].0));
    }
}

} // verus!
