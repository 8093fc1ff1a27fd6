//! What a directory shows of the states and the diagnostics of what lies below it.

use crate::collections::PathMap;
use crate::metadata::{
    all_counting, carries, counts_for, covers, priority, sum_errors, sum_warnings, totals, GitState,
};
use crate::path::Part;
use crate::render::summaries;
use crate::tree::TreeView;
use vstd::prelude::*;

verus! {

/// Whether a path lies below a directory: it begins with the directory's components, goes on, and
/// goes on with names and dots alone.
pub open spec fn lies_below(path: Seq<Part>, dir: Seq<Part>) -> bool {
    &&& dir.len() < path.len()
    &&& forall|k: int| 0 <= k < dir.len() ==> #[trigger] path[k] == dir[k]
    &&& forall|k: int|
        dir.len() <= k < path.len() ==> !((#[trigger] path[k]) is Prefix) && !(path[k] is RootDir)
}

/// Whether a directory is the root of the tree or lies in it.
pub open spec fn lies_in(dir: Seq<Part>, root: Seq<Part>) -> bool {
    &&& root.len() <= dir.len()
    &&& forall|k: int| 0 <= k < root.len() ==> #[trigger] dir[k] == root[k]
}

pub(crate) proof fn lemma_below(path: Seq<Part>, dir: Seq<Part>, root: Seq<Part>)
    ensures
        crate::path::is_ancestor(dir, path) <==> lies_below(path, dir),
        crate::path::under(dir, root) <==> lies_in(dir, root),
{
    if lies_below(path, dir) {
        assert(dir =~= path.subrange(0, dir.len() as int));
        assert(dir.is_prefix_of(path));
    }
    if crate::path::is_ancestor(dir, path) {
        assert(dir.len() != path.len()) by {
            if dir.len() == path.len() {
                assert(dir =~= path);
            }
        }
        assert forall|k: int| 0 <= k < dir.len() implies #[trigger] path[k] == dir[k] by {
            assert(path.subrange(0, dir.len() as int)[k] == path[k]);
        }
    }
    if lies_in(dir, root) {
        assert(root =~= dir.subrange(0, root.len() as int));
    }
    if crate::path::under(dir, root) {
        assert forall|k: int| 0 <= k < root.len() implies #[trigger] dir[k] == root[k] by {
            assert(dir.subrange(0, root.len() as int)[k] == dir[k]);
        }
    }
}

/// A directory of the tree shows a state as soon as something below it has one: a conflict if there
/// is one below, a deletion or a conflict if there is a deletion, and more than untracked files if
/// something was modified or renamed.
pub proof fn states_show_above(
    direct: Map<Seq<Part>, GitState>,
    root: Seq<Part>,
    summary: Map<Seq<Part>, GitState>,
    path: Seq<Part>,
    dir: Seq<Part>,
)
    requires
        carries(direct, all_counting(direct, root), summary),
        direct.contains_key(path),
        lies_below(path, dir),
        lies_in(dir, root),
    ensures
        summary.contains_key(dir),
        direct[path] == GitState::Conflict ==> summary[dir] == GitState::Conflict,
        direct[path] == GitState::Deleted ==> summary[dir] == GitState::Deleted || summary[dir]
            == GitState::Conflict,
        direct[path] == GitState::Modified || direct[path] == GitState::Renamed ==> summary[dir]
            != GitState::Untracked,
{
    lemma_below(path, dir, root);
    assert(all_counting(direct, root).contains((path, dir)));
}

/// A path keeps its own state unless something below it weighs more, and no path shows a state that
/// neither it nor anything below it has.
pub proof fn states_come_from_below(
    direct: Map<Seq<Part>, GitState>,
    root: Seq<Part>,
    summary: Map<Seq<Part>, GitState>,
    path: Seq<Part>,
)
    requires
        carries(direct, all_counting(direct, root), summary),
    ensures
        direct.contains_key(path) ==> summary.contains_key(path),
        summary.contains_key(path) ==> (direct.contains_key(path) && summary[path] == direct[path])
            || exists|p: Seq<Part>|
            #![trigger direct.contains_key(p)]
            direct.contains_key(p) && lies_below(p, path) && lies_in(path, root) && direct[p]
                == summary[path],
        direct.contains_key(path) && direct[path] == GitState::Conflict ==> summary[path]
            == GitState::Conflict,
        direct.contains_key(path) && direct[path] == GitState::Deleted ==> summary[path]
            == GitState::Deleted || summary[path] == GitState::Conflict,
        direct.contains_key(path) && direct[path] == GitState::Modified ==> summary[path]
            != GitState::Untracked && summary[path] != GitState::Renamed,
        direct.contains_key(path) && direct[path] == GitState::Renamed ==> summary[path]
            != GitState::Untracked && summary[path] != GitState::Modified,
{
    if summary.contains_key(path) && !(direct.contains_key(path) && summary[path] == direct[path]) {
        let p = choose|p: Seq<Part>| #[trigger]
            all_counting(direct, root).contains((p, path)) && direct[p] == summary[path];
        assert(counts_for(direct, root, p, path));
        lemma_below(p, path, root);
        assert(direct.contains_key(p));
    }
}

/// What is counted for a path is counted pair by pair, and the counts of a pair are counted in full
/// for its own path and for everything above it, and for nothing else.
pub proof fn counts_add_up(
    pairs: Seq<(Seq<Part>, (usize, usize))>,
    more: Seq<(Seq<Part>, (usize, usize))>,
    pair: (Seq<Part>, (usize, usize)),
    k: Seq<Part>,
)
    ensures
        sum_errors(pairs + more, k) == sum_errors(pairs, k) + sum_errors(more, k),
        sum_warnings(pairs + more, k) == sum_warnings(pairs, k) + sum_warnings(more, k),
        k == pair.0 || lies_below(pair.0, k) ==> sum_errors(seq![pair], k) == pair.1.0
            && sum_warnings(seq![pair], k) == pair.1.1,
        k != pair.0 && !lies_below(pair.0, k) ==> sum_errors(seq![pair], k) == 0 && sum_warnings(
            seq![pair],
            k,
        ) == 0,
    decreases more.len(),
{
    lemma_below(pair.0, k, k);
    assert(seq![pair].drop_last() =~= Seq::<(Seq<Part>, (usize, usize))>::empty());
    reveal_with_fuel(sum_errors, 2);
    reveal_with_fuel(sum_warnings, 2);
    if more.len() == 0 {
        assert(pairs + more =~= pairs);
    } else {
        counts_add_up(pairs, more.drop_last(), pair, k);
        assert((pairs + more).drop_last() =~= pairs + more.drop_last());
        assert((pairs + more).last() == more.last());
    }
}

/// Counts are shown for each path of the tree that has diagnostics itself or below it, and for no
/// other path. They are the sums of what is there.
pub proof fn counts_are_shown_in_the_tree(
    pairs: Seq<(Seq<Part>, (usize, usize))>,
    root: Seq<Part>,
    sums: Map<Seq<Part>, (usize, usize)>,
    k: Seq<Part>,
)
    requires
        totals(pairs, root, sums),
    ensures
        sums.contains_key(k) <==> lies_in(k, root) && exists|i: int|
            0 <= i < pairs.len() && ((#[trigger] pairs[i]).0 == k || lies_below(pairs[i].0, k)),
        sums.contains_key(k) ==> sums[k].0 == sum_errors(pairs, k) && sums[k].1 == sum_warnings(
            pairs,
            k,
        ),
{
    lemma_below(k, k, root);
    if sums.contains_key(k) {
        let i = choose|i: int| 0 <= i < pairs.len() && covers(k, #[trigger] pairs[i].0);
        lemma_below(pairs[i].0, k, root);
        assert(pairs[i].0 == k || lies_below(pairs[i].0, k));
    }
    if lies_in(k, root) && exists|i: int|
        0 <= i < pairs.len() && ((#[trigger] pairs[i]).0 == k || lies_below(pairs[i].0, k)) {
        let i = choose|i: int|
            0 <= i < pairs.len() && ((#[trigger] pairs[i]).0 == k || lies_below(pairs[i].0, k));
        lemma_below(pairs[i].0, k, root);
        assert(covers(k, pairs[i].0));
    }
}

/// A conflict weighs most, then a deletion, then a modification or a rename, which weigh the same,
/// and an untracked file weighs least.
pub proof fn states_have_their_weights()
    ensures
        priority(GitState::Conflict) > priority(GitState::Deleted),
        priority(GitState::Deleted) > priority(GitState::Modified),
        priority(GitState::Modified) == priority(GitState::Renamed),
        priority(GitState::Modified) > priority(GitState::Untracked),
        priority(GitState::Untracked) == 0,
        priority(GitState::Conflict) == 3,
{
}

/// What is drawn beside the rows comes from the states of the tree and from the diagnostics that
/// were handed over: a conflict below a directory of the tree shows at that directory, and counts
/// are the sums of what lies at or below a path. Without diagnostics there are no counts.
pub proof fn badges_show_states_and_diagnostics(
    tree: TreeView,
    direct: Option<PathMap<(usize, usize)>>,
    git: Map<Seq<Part>, GitState>,
    diagnostics: Map<Seq<Part>, (usize, usize)>,
    path: Seq<Part>,
    dir: Seq<Part>,
)
    requires
        summaries(tree, direct, git, diagnostics),
    ensures
        tree.git_status.contains_key(path) ==> git.contains_key(path),
        tree.git_status.contains_key(path) && tree.git_status[path] == GitState::Conflict
            && lies_below(path, dir) && lies_in(dir, tree.root) ==> git.contains_key(dir) && git[dir]
            == GitState::Conflict,
        git.contains_key(dir) ==> exists|p: Seq<Part>|
            #![trigger tree.git_status.contains_key(p)]
            tree.git_status.contains_key(p) && (p == dir || (lies_below(p, dir) && lies_in(
                dir,
                tree.root,
            ))) && tree.git_status[p] == git[dir],
        direct is None ==> !diagnostics.contains_key(dir),
        direct is Some ==> (diagnostics.contains_key(dir) <==> lies_in(dir, tree.root) && exists|
            i: int,
        |
            0 <= i < direct->0.pairs().len() && ((#[trigger] direct->0.pairs()[i]).0 == dir
                || lies_below(direct->0.pairs()[i].0, dir))),
        direct is Some && diagnostics.contains_key(dir) ==> diagnostics[dir].0 == sum_errors(
            direct->0.pairs(),
            dir,
        ) && diagnostics[dir].1 == sum_warnings(direct->0.pairs(), dir),
{
    states_come_from_below(tree.git_status, tree.root, git, path);
    states_come_from_below(tree.git_status, tree.root, git, dir);
    if tree.git_status.contains_key(path) && lies_below(path, dir) && lies_in(dir, tree.root) {
        states_show_above(tree.git_status, tree.root, git, path, dir);
    }
    if let Some(direct) = direct {
        counts_are_shown_in_the_tree(direct.pairs(), tree.root, diagnostics, dir);
    }
}

} // verus!
