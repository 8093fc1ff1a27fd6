//! The rows of a walk, taken together.

use vstd::prelude::*;

use crate::listing::{
    deepest_bounds, entry_views, place, room, row_lies_under, row_of, sorted_entries,
    sorted_entries_law, walk_dir, walk_entries, walk_is_coherent, Entry, EntryView, RowView,
    WalkOptions,
};
use crate::path::{is_ancestor, strictly_under, under, under_transitive, Part};

verus! {

/// One of the entries has the name.
pub open spec fn has_name(entries: Seq<EntryView>, name: Seq<u8>) -> bool {
    exists|i: int| 0 <= i < entries.len() && (#[trigger] entries[i]).name == name
}

/// No two of the entries have the same name.
pub open spec fn names_distinct(entries: Seq<EntryView>) -> bool {
    forall|i: int, j: int|
        0 <= i < j < entries.len() ==> (#[trigger] entries[i]).name != (#[trigger] entries[j]).name
}

/// No two of the rows have the same path.
pub open spec fn paths_distinct(rows: Seq<RowView>) -> bool {
    forall|i: int, j: int|
        0 <= i < j < rows.len() ==> (#[trigger] rows[i]).path != (#[trigger] rows[j]).path
}

/// In no directory that was read do two entries have the same name.
pub open spec fn read_distinct(read: Map<Seq<Part>, Vec<Entry>>) -> bool {
    forall|d: Seq<Part>| #[trigger]
        read.contains_key(d) ==> names_distinct(entry_views(read[d]@))
}

proof fn lemma_place_names(sorted: Seq<EntryView>, e: EntryView)
    requires
        names_distinct(sorted),
        !has_name(sorted, e.name),
    ensures
        names_distinct(place(sorted, e)),
        forall|n: Seq<u8>| #[trigger]
            has_name(place(sorted, e), n) <==> has_name(sorted, n) || n == e.name,
    decreases sorted.len(),
{
    let put = place(sorted, e);
    if sorted.len() > 0 && crate::listing::entry_lt(e, sorted.last()) {
        let rest = sorted.drop_last();
        let last = sorted.last();
        assert forall|n: Seq<u8>| #[trigger] has_name(rest, n) implies has_name(sorted, n) && n
            != last.name by {
            let i = choose|i: int| 0 <= i < rest.len() && (#[trigger] rest[i]).name == n;
            assert(sorted[i] == rest[i]);
        }
        lemma_place_names(rest, e);
        let below = place(rest, e);
        assert(put == below.push(last));
        assert(sorted[sorted.len() - 1] == last);
        assert forall|i: int, j: int| 0 <= i < j < put.len() implies (#[trigger] put[i]).name != (
        #[trigger] put[j]).name by {
            if j == below.len() {
                assert(below[i] == put[i]);
                assert(has_name(below, below[i].name));
            } else {
                assert(below[i] == put[i] && below[j] == put[j]);
            }
        }
        assert forall|n: Seq<u8>| #[trigger] has_name(put, n) <==> has_name(sorted, n) || n
            == e.name by {
            if has_name(put, n) {
                let i = choose|i: int| 0 <= i < put.len() && (#[trigger] put[i]).name == n;
                if i < below.len() {
                    assert(below[i] == put[i]);
                    assert(has_name(below, n));
                }
            }
            if has_name(sorted, n) || n == e.name {
                if n == last.name {
                    assert(put[put.len() - 1] == last);
                } else {
                    if has_name(sorted, n) {
                        let i = choose|i: int|
                            0 <= i < sorted.len() && (#[trigger] sorted[i]).name == n;
                        assert(rest[i] == sorted[i]);
                        assert(has_name(rest, n));
                    }
                    assert(has_name(below, n));
                    let i = choose|i: int| 0 <= i < below.len() && (#[trigger] below[i]).name == n;
                    assert(put[i] == below[i]);
                }
            }
        }
    } else {
        assert(put == sorted.push(e));
        assert forall|i: int, j: int| 0 <= i < j < put.len() implies (#[trigger] put[i]).name != (
        #[trigger] put[j]).name by {
            assert(put[i] == sorted[i]);
            if j < sorted.len() {
                assert(put[j] == sorted[j]);
            }
        }
        assert forall|n: Seq<u8>| #[trigger] has_name(put, n) <==> has_name(sorted, n) || n
            == e.name by {
            if has_name(put, n) {
                let i = choose|i: int| 0 <= i < put.len() && (#[trigger] put[i]).name == n;
                if i < sorted.len() {
                    assert(sorted[i] == put[i]);
                }
            }
            if has_name(sorted, n) {
                let i = choose|i: int| 0 <= i < sorted.len() && (#[trigger] sorted[i]).name == n;
                assert(put[i] == sorted[i]);
            }
            assert(put[sorted.len() as int] == e);
        }
    }
}

proof fn lemma_sorted_names(entries: Seq<EntryView>)
    requires
        names_distinct(entries),
    ensures
        names_distinct(sorted_entries(entries)),
        forall|n: Seq<u8>| #[trigger]
            has_name(sorted_entries(entries), n) <==> has_name(entries, n),
    decreases entries.len(),
{
    if entries.len() > 0 {
        let rest = entries.drop_last();
        let e = entries.last();
        lemma_sorted_names(rest);
        assert(entries[entries.len() - 1] == e);
        assert(!has_name(rest, e.name)) by {
            if has_name(rest, e.name) {
                let i = choose|i: int| 0 <= i < rest.len() && (#[trigger] rest[i]).name == e.name;
                assert(entries[i] == rest[i]);
            }
        }
        lemma_place_names(sorted_entries(rest), e);
        assert forall|n: Seq<u8>| #[trigger] has_name(sorted_entries(entries), n) <==> has_name(
            entries,
            n,
        ) by {
            if has_name(entries, n) {
                let i = choose|i: int| 0 <= i < entries.len() && (#[trigger] entries[i]).name == n;
                if i < rest.len() {
                    assert(rest[i] == entries[i]);
                    assert(has_name(rest, n));
                }
            }
            if has_name(rest, n) {
                let i = choose|i: int| 0 <= i < rest.len() && (#[trigger] rest[i]).name == n;
                assert(entries[i] == rest[i]);
            }
        }
    }
}

/// Where the entries of each directory have different names, no path is shown in two rows.
pub proof fn walk_shows_each_path_once(
    read: Map<Seq<Part>, Vec<Entry>>,
    expanded: Seq<Seq<Part>>,
    options: WalkOptions,
    dir: Seq<Part>,
    depth: nat,
)
    requires
        read_distinct(read),
    ensures
        paths_distinct(walk_dir(read, expanded, options, dir, depth).rows),
    decreases room(expanded, dir), 1int, 0nat,
{
    if read.contains_key(dir) {
        lemma_sorted_names(entry_views(read[dir]@));
        lemma_entries_once(
            read,
            expanded,
            options,
            dir,
            depth,
            sorted_entries(entry_views(read[dir]@)),
        );
    }
}

/// The path goes through the entry of `dir` with the name.
spec fn goes_through(path: Seq<Part>, dir: Seq<Part>, entries: Seq<EntryView>) -> bool {
    path.len() > dir.len() && path[dir.len() as int] is Normal && has_name(
        entries,
        path[dir.len() as int]->Normal_0,
    )
}

proof fn lemma_entries_once(
    read: Map<Seq<Part>, Vec<Entry>>,
    expanded: Seq<Seq<Part>>,
    options: WalkOptions,
    dir: Seq<Part>,
    depth: nat,
    entries: Seq<EntryView>,
)
    requires
        read_distinct(read),
        names_distinct(entries),
    ensures
        paths_distinct(walk_entries(read, expanded, options, dir, depth, entries).rows),
        forall|i: int|
            0 <= i < walk_entries(read, expanded, options, dir, depth, entries).rows.len()
                ==> goes_through(
                (#[trigger] walk_entries(read, expanded, options, dir, depth, entries).rows[i]).path,
                dir,
                entries,
            ),
    decreases room(expanded, dir), 0int, entries.len(),
{
    if entries.len() > 0 {
        let rest = entries.drop_last();
        let e = entries.last();
        let row = row_of(dir, depth, e, options);
        let before = walk_entries(read, expanded, options, dir, depth, rest).rows;
        let all = walk_entries(read, expanded, options, dir, depth, entries).rows;
        lemma_entries_once(read, expanded, options, dir, depth, rest);
        row_lies_under(dir, depth, e, options);
        let n = dir.len() as int;
        let base = dir.push(Part::Normal(e.name));
        assert(base[n] == Part::Normal(e.name));
        assert(row.path.subrange(0, base.len() as int)[n] == row.path[n]);
        assert(entries[entries.len() - 1] == e);
        assert(has_name(entries, e.name));
        assert forall|p: Seq<Part>| goes_through(p, dir, rest) implies #[trigger] goes_through(
            p,
            dir,
            entries,
        ) && p[n] != Part::Normal(e.name) by {
            let name = p[n]->Normal_0;
            let i = choose|i: int| 0 <= i < rest.len() && (#[trigger] rest[i]).name == name;
            assert(entries[i] == rest[i]);
        }
        let below = if e.kind is Some && row.is_dir && expanded.contains(row.path) {
            walk_dir(read, expanded, options, row.path, depth + 1).rows
        } else {
            Seq::empty()
        };
        if e.kind is Some && row.is_dir && expanded.contains(row.path) {
            deepest_bounds(expanded, row.path);
            walk_shows_each_path_once(read, expanded, options, row.path, depth + 1);
            walk_is_coherent(read, expanded, options, row.path, depth + 1);
        }
        assert forall|i: int| 0 <= i < below.len() implies (#[trigger] below[i]).path[n]
            == Part::Normal(e.name) && below[i].path.len() > row.path.len() by {
            assert(strictly_under(below[i].path, row.path));
            assert(below[i].path.subrange(0, row.path.len() as int)[n] == below[i].path[n]);
            if below[i].path.len() == row.path.len() {
                assert(below[i].path =~= row.path);
            }
        }
        if e.kind is Some {
            assert(all =~= before.push(row) + below);
        } else {
            assert(all == before);
        }
        let m = before.len() as int;
        assert forall|i: int| 0 <= i < all.len() implies goes_through(
            (#[trigger] all[i]).path,
            dir,
            entries,
        ) && (i >= m ==> all[i].path[n] == Part::Normal(e.name)) by {
            if i < m {
                assert(all[i] == before[i]);
                assert(goes_through(before[i].path, dir, rest));
            } else if i == m {
                assert(all[i] == row);
            } else {
                assert(all[i] == below[i - m - 1]);
            }
        }
        assert forall|i: int, j: int| 0 <= i < j < all.len() implies (#[trigger] all[i]).path != (
        #[trigger] all[j]).path by {
            if j < m {
                assert(all[i] == before[i] && all[j] == before[j]);
            } else if i < m {
                assert(all[i] == before[i]);
                assert(goes_through(before[i].path, dir, rest));
                assert(goes_through(before[i].path, dir, entries));
            } else if i == m {
                assert(all[i] == row && all[j] == below[j - m - 1]);
            } else {
                assert(all[i] == below[i - m - 1] && all[j] == below[j - m - 1]);
            }
        }
    }
}

proof fn lemma_entry_is_shown(
    read: Map<Seq<Part>, Vec<Entry>>,
    expanded: Seq<Seq<Part>>,
    options: WalkOptions,
    dir: Seq<Part>,
    depth: nat,
    entries: Seq<EntryView>,
    k: int,
)
    requires
        0 <= k < entries.len(),
        entries[k].kind is Some,
    ensures
        ({
            let walk = walk_entries(read, expanded, options, dir, depth, entries);
            let row = row_of(dir, depth, entries[k], options);
            let below = walk_dir(read, expanded, options, row.path, depth + 1);
            &&& walk.rows.contains(row)
            &&& row.is_dir && expanded.contains(row.path) ==> {
                &&& forall|r: RowView| #[trigger] below.rows.contains(r) ==> walk.rows.contains(r)
                &&& walk.missing.len() >= below.missing.len()
            }
        }),
    decreases entries.len(),
{
    let rest = entries.drop_last();
    let before = walk_entries(read, expanded, options, dir, depth, rest);
    let walk = walk_entries(read, expanded, options, dir, depth, entries);
    let row = row_of(dir, depth, entries[k], options);
    let below = walk_dir(read, expanded, options, row.path, depth + 1);
    if k < rest.len() {
        assert(rest[k] == entries[k]);
        lemma_entry_is_shown(read, expanded, options, dir, depth, rest, k);
        assert(walk.missing.len() >= before.missing.len());
        assert forall|r: RowView| #[trigger] before.rows.contains(r) implies walk.rows.contains(
            r,
        ) by {
            let i = choose|i: int| 0 <= i < before.rows.len() && before.rows[i] == r;
            assert(walk.rows[i] == r);
        }
    } else {
        let n = before.rows.len() as int;
        assert(walk.rows[n] == row);
        if row.is_dir && expanded.contains(row.path) {
            assert(walk.rows == before.rows.push(row) + below.rows);
            assert forall|r: RowView| #[trigger] below.rows.contains(r) implies walk.rows.contains(
                r,
            ) by {
                let i = choose|i: int| 0 <= i < below.rows.len() && below.rows[i] == r;
                assert(walk.rows[n + 1 + i] == r);
            }
        }
    }
}

/// One of the entries of `dir` leads to the path: its row is that of the path itself, or of a
/// directory in which it lies.
pub open spec fn shows_the_way(
    entries: Seq<EntryView>,
    options: WalkOptions,
    dir: Seq<Part>,
    path: Seq<Part>,
) -> bool {
    exists|k: int|
        0 <= k < entries.len() && (#[trigger] entries[k]).kind is Some && {
            let row = row_of(dir, 0, entries[k], options);
            under(path, row.path) && (row.path == path || row.is_dir)
        }
}

/// Every directory that was read and in which the path lies has an entry that leads to it: the path
/// exists, and nothing on the way to it is hidden.
pub open spec fn reachable(
    read: Map<Seq<Part>, Vec<Entry>>,
    options: WalkOptions,
    path: Seq<Part>,
) -> bool {
    forall|d: Seq<Part>| #[trigger]
        read.contains_key(d) && strictly_under(path, d) ==> shows_the_way(
            entry_views(read[d]@),
            options,
            d,
            path,
        )
}

/// Where all the directories in which a path lies are expanded, the path has a row.
pub proof fn expanded_path_has_a_row(
    read: Map<Seq<Part>, Vec<Entry>>,
    expanded: Seq<Seq<Part>>,
    options: WalkOptions,
    dir: Seq<Part>,
    depth: nat,
    path: Seq<Part>,
)
    requires
        is_ancestor(dir, path),
        reachable(read, options, path),
        forall|d: Seq<Part>|
            is_ancestor(d, path) && strictly_under(d, dir) ==> #[trigger] expanded.contains(d),
        walk_dir(read, expanded, options, dir, depth).missing.len() == 0,
    ensures
        exists|i: int|
            0 <= i < walk_dir(read, expanded, options, dir, depth).rows.len() && (
            #[trigger] walk_dir(read, expanded, options, dir, depth).rows[i]).path == path,
    decreases room(expanded, dir),
{
    broadcast use vstd::seq_lib::group_to_multiset_ensures;

    let rows = walk_dir(read, expanded, options, dir, depth).rows;
    assert(read.contains_key(dir));
    let entries = entry_views(read[dir]@);
    let sorted = sorted_entries(entries);
    let k = choose|k: int|
        0 <= k < entries.len() && (#[trigger] entries[k]).kind is Some && {
            let row = row_of(dir, 0, entries[k], options);
            under(path, row.path) && (row.path == path || row.is_dir)
        };
    let e = entries[k];
    sorted_entries_law(entries);
    assert(entries.contains(e));
    assert(entries.to_multiset().count(e) > 0);
    assert(sorted.to_multiset().count(e) > 0);
    assert(sorted.contains(e));
    let m = choose|m: int| 0 <= m < sorted.len() && sorted[m] == e;
    lemma_entry_is_shown(read, expanded, options, dir, depth, sorted, m);
    let row = row_of(dir, depth, e, options);
    row_lies_under(dir, depth, e, options);
    if row.path == path {
        let i = choose|i: int| 0 <= i < rows.len() && rows[i] == row;
        assert(rows[i].path == path);
    } else {
        assert(is_ancestor(row.path, path));
        assert(expanded.contains(row.path));
        deepest_bounds(expanded, row.path);
        let below = walk_dir(read, expanded, options, row.path, depth + 1);
        assert forall|d: Seq<Part>| is_ancestor(d, path) && strictly_under(
            d,
            row.path,
        ) implies #[trigger] expanded.contains(d) by {
            under_transitive(d, row.path, dir);
            if d == dir {
                assert(dir.len() >= row.path.len());
            }
        }
        expanded_path_has_a_row(read, expanded, options, row.path, depth + 1, path);
        let i = choose|i: int| 0 <= i < below.rows.len() && (#[trigger] below.rows[i]).path == path;
        assert(below.rows.contains(below.rows[i]));
        let j = choose|j: int| 0 <= j < rows.len() && rows[j] == below.rows[i];
        assert(rows[j].path == path);
    }
}

/// The directory was read, and has an entry at the position.
pub open spec fn is_entry(read: Map<Seq<Part>, Vec<Entry>>, dir: Seq<Part>, k: int) -> bool {
    read.contains_key(dir) && 0 <= k < read[dir]@.len()
}

/// The row is that of an entry of the directory at which the walk starts, or of an expanded one
/// below it.
pub open spec fn shows_an_entry(
    read: Map<Seq<Part>, Vec<Entry>>,
    expanded: Seq<Seq<Part>>,
    options: WalkOptions,
    dir: Seq<Part>,
    row: RowView,
) -> bool {
    exists|d: Seq<Part>, k: int| #[trigger]
        is_entry(read, d, k) && (d == dir || (expanded.contains(d) && strictly_under(d, dir)))
            && read[d]@[k].kind is Some && row == row_of(d, row.depth, read[d]@[k]@, options)
}

/// Every row is that of an entry of a directory that was read.
pub proof fn rows_show_entries(
    read: Map<Seq<Part>, Vec<Entry>>,
    expanded: Seq<Seq<Part>>,
    options: WalkOptions,
    dir: Seq<Part>,
    depth: nat,
)
    ensures
        forall|i: int|
            0 <= i < walk_dir(read, expanded, options, dir, depth).rows.len() ==> shows_an_entry(
                read,
                expanded,
                options,
                dir,
                #[trigger] walk_dir(read, expanded, options, dir, depth).rows[i],
            ),
    decreases room(expanded, dir), 1int, 0nat,
{
    broadcast use vstd::seq_lib::group_to_multiset_ensures;

    if read.contains_key(dir) {
        let entries = entry_views(read[dir]@);
        let sorted = sorted_entries(entries);
        sorted_entries_law(entries);
        assert forall|j: int| 0 <= j < sorted.len() implies entries.contains(#[trigger] sorted[j]) by {
            assert(sorted.contains(sorted[j]));
            assert(sorted.to_multiset().count(sorted[j]) > 0);
            assert(entries.to_multiset().count(sorted[j]) > 0);
        }
        lemma_rows_show_entries(read, expanded, options, dir, depth, sorted);
        assert(walk_dir(read, expanded, options, dir, depth) == walk_entries(
            read,
            expanded,
            options,
            dir,
            depth,
            sorted,
        ));
    }
}

proof fn lemma_rows_show_entries(
    read: Map<Seq<Part>, Vec<Entry>>,
    expanded: Seq<Seq<Part>>,
    options: WalkOptions,
    dir: Seq<Part>,
    depth: nat,
    entries: Seq<EntryView>,
)
    requires
        read.contains_key(dir),
        forall|j: int|
            0 <= j < entries.len() ==> entry_views(read[dir]@).contains(#[trigger] entries[j]),
    ensures
        forall|i: int|
            0 <= i < walk_entries(read, expanded, options, dir, depth, entries).rows.len()
                ==> shows_an_entry(
                read,
                expanded,
                options,
                dir,
                #[trigger] walk_entries(read, expanded, options, dir, depth, entries).rows[i],
            ),
    decreases room(expanded, dir), 0int, entries.len(),
{
    if entries.len() > 0 {
        let rest = entries.drop_last();
        let e = entries.last();
        let row = row_of(dir, depth, e, options);
        let before = walk_entries(read, expanded, options, dir, depth, rest).rows;
        let all = walk_entries(read, expanded, options, dir, depth, entries).rows;
        assert forall|j: int| 0 <= j < rest.len() implies entry_views(read[dir]@).contains(
            #[trigger] rest[j],
        ) by {
            assert(entries[j] == rest[j]);
        }
        lemma_rows_show_entries(read, expanded, options, dir, depth, rest);
        assert(entries[entries.len() - 1] == e);
        let views = entry_views(read[dir]@);
        let k = choose|k: int| 0 <= k < views.len() && views[k] == e;
        assert(is_entry(read, dir, k) && read[dir]@[k]@ == e);
        row_lies_under(dir, depth, e, options);
        let opens = e.kind is Some && row.is_dir && expanded.contains(row.path);
        let below = walk_dir(read, expanded, options, row.path, depth + 1).rows;
        if opens {
            deepest_bounds(expanded, row.path);
            rows_show_entries(read, expanded, options, row.path, depth + 1);
            assert(all == before.push(row) + below);
        }
        let m = before.len() as int;
        assert forall|i: int| 0 <= i < all.len() implies shows_an_entry(
            read,
            expanded,
            options,
            dir,
            #[trigger] all[i],
        ) by {
            if i < m {
                assert(all[i] == before[i]);
            } else if i == m {
                assert(all[i] == row);
            } else {
                assert(all[i] == below[i - m - 1]);
                let r = below[i - m - 1];
                assert(shows_an_entry(read, expanded, options, row.path, r));
                let (d, n) = choose|d: Seq<Part>, n: int| #[trigger]
                    is_entry(read, d, n) && (d == row.path || (expanded.contains(d)
                        && strictly_under(d, row.path))) && read[d]@[n].kind is Some && r == row_of(
                        d,
                        r.depth,
                        read[d]@[n]@,
                        options,
                    );
                under_transitive(d, row.path, dir);
                if d == dir {
                    assert(d.len() >= row.path.len());
                }
                assert(is_entry(read, d, n));
            }
        }
    }
}

/// Opening further directories up takes no row away.
pub proof fn walk_grows_with_expansion(
    read: Map<Seq<Part>, Vec<Entry>>,
    fewer: Seq<Seq<Part>>,
    more: Seq<Seq<Part>>,
    options: WalkOptions,
    dir: Seq<Part>,
    depth: nat,
)
    requires
        forall|p: Seq<Part>| #[trigger] fewer.contains(p) ==> more.contains(p),
    ensures
        forall|r: RowView| #[trigger]
            walk_dir(read, fewer, options, dir, depth).rows.contains(r) ==> walk_dir(
                read,
                more,
                options,
                dir,
                depth,
            ).rows.contains(r),
    decreases room(more, dir), 1int, 0nat,
{
    let small = walk_dir(read, fewer, options, dir, depth).rows;
    let large = walk_dir(read, more, options, dir, depth).rows;
    if read.contains_key(dir) {
        let entries = sorted_entries(entry_views(read[dir]@));
        lemma_entries_grow(read, fewer, more, options, dir, depth, entries);
        assert(small == walk_entries(read, fewer, options, dir, depth, entries).rows);
        assert(large == walk_entries(read, more, options, dir, depth, entries).rows);
    } else {
        assert(small.len() == 0);
    }
}

proof fn lemma_entries_grow(
    read: Map<Seq<Part>, Vec<Entry>>,
    fewer: Seq<Seq<Part>>,
    more: Seq<Seq<Part>>,
    options: WalkOptions,
    dir: Seq<Part>,
    depth: nat,
    entries: Seq<EntryView>,
)
    requires
        forall|p: Seq<Part>| #[trigger] fewer.contains(p) ==> more.contains(p),
    ensures
        forall|r: RowView| #[trigger]
            walk_entries(read, fewer, options, dir, depth, entries).rows.contains(r)
                ==> walk_entries(read, more, options, dir, depth, entries).rows.contains(r),
    decreases room(more, dir), 0int, entries.len(),
{
    let small = walk_entries(read, fewer, options, dir, depth, entries).rows;
    let large = walk_entries(read, more, options, dir, depth, entries).rows;
    if entries.len() > 0 {
        let rest = entries.drop_last();
        let e = entries.last();
        let row = row_of(dir, depth, e, options);
        lemma_entries_grow(read, fewer, more, options, dir, depth, rest);
        let small_before = walk_entries(read, fewer, options, dir, depth, rest).rows;
        let large_before = walk_entries(read, more, options, dir, depth, rest).rows;
        let small_below = walk_dir(read, fewer, options, row.path, depth + 1).rows;
        let large_below = walk_dir(read, more, options, row.path, depth + 1).rows;
        let n = small_before.len() as int;
        let m = large_before.len() as int;
        row_lies_under(dir, depth, e, options);
        if e.kind is Some && row.is_dir && fewer.contains(row.path) {
            deepest_bounds(more, row.path);
            walk_grows_with_expansion(read, fewer, more, options, row.path, depth + 1);
            assert(small == small_before.push(row) + small_below);
            assert(large == large_before.push(row) + large_below);
        }
        assert forall|r: RowView| #[trigger] small.contains(r) implies large.contains(r) by {
            let i = choose|i: int| 0 <= i < small.len() && small[i] == r;
            if i < n {
                assert(small_before[i] == r);
                assert(small_before.contains(r));
                assert(large_before.contains(r));
                let j = choose|j: int| 0 <= j < m && large_before[j] == r;
                assert(large[j] == r);
            } else if i == n {
                assert(r == row);
                assert(large[m] == row);
            } else {
                assert(small_below[i - n - 1] == r);
                assert(small_below.contains(r));
                assert(large_below.contains(r));
                let j = choose|j: int| 0 <= j < large_below.len() && large_below[j] == r;
                assert(large[m + 1 + j] == r);
            }
        }
    }
}

} // verus!
