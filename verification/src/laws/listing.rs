//! Which rows the entries of a directory give, in which order, and which directories are followed.

use crate::listing::{
    chain_path, chain_text, entry_lt, entry_views, only_directory, row_of, sorted_entries,
    visible_children, walk_dir, walk_entries, Child, Entry, EntryKind, EntryView,
    WalkOptions,
};
use crate::path::Part;
use crate::text::{lossy, lowercase};
use vstd::prelude::*;

verus! {

/// Whether an entry is left out of what is counted: its name begins with a dot (byte 46), and such
/// names are not shown.
spec fn dotted(child: Child, show_hidden: bool) -> bool {
    !show_hidden && child.name@.len() > 0 && child.name@[0] == 46
}

/// Whether the child at a position is shown and every other one has a hidden name.
spec fn only_shown(children: Seq<Child>, show_hidden: bool, i: int) -> bool {
    0 <= i < children.len() && !dotted(children[i], show_hidden) && forall|j: int|
        0 <= j < children.len() && j != i ==> dotted(#[trigger] children[j], show_hidden)
}

proof fn lemma_visible(children: Seq<Child>, show_hidden: bool)
    ensures
        visible_children(children, show_hidden).len() <= children.len(),
        forall|k: int|
            0 <= k < visible_children(children, show_hidden).len() ==> exists|i: int|
                0 <= i < children.len() && !dotted(#[trigger] children[i], show_hidden)
                    && children[i] == #[trigger] visible_children(children, show_hidden)[k],
        (visible_children(children, show_hidden).len() == 0) <==> (forall|i: int|
            0 <= i < children.len() ==> dotted(#[trigger] children[i], show_hidden)),
        (visible_children(children, show_hidden).len() == 1) <==> exists|i: int|
            only_shown(children, show_hidden, i),
        forall|i: int| #[trigger]
            only_shown(children, show_hidden, i) ==> visible_children(children, show_hidden)
                == seq![children[i]],
    decreases children.len(),
{
    if children.len() > 0 {
        let rest = children.drop_last();
        let last = children.len() - 1;
        lemma_visible(rest, show_hidden);
        let visible = visible_children(children, show_hidden);
        let before = visible_children(rest, show_hidden);
        assert(children.last() == children[last]);
        assert forall|k: int| 0 <= k < visible.len() implies exists|i: int|
            0 <= i < children.len() && !dotted(#[trigger] children[i], show_hidden) && children[i]
                == #[trigger] visible[k] by {
            if k < before.len() {
                assert(before[k] == visible[k]);
                let i = choose|i: int|
                    0 <= i < rest.len() && !dotted(#[trigger] rest[i], show_hidden) && rest[i]
                        == before[k];
                assert(children[i] == visible[k]);
            } else {
                assert(children[last] == visible[k]);
            }
        }
        assert((visible.len() == 0) <==> (forall|i: int|
            0 <= i < children.len() ==> dotted(#[trigger] children[i], show_hidden))) by {
            if visible.len() == 0 {
                assert forall|i: int| 0 <= i < children.len() implies dotted(
                    #[trigger] children[i],
                    show_hidden,
                ) by {
                    if i < last {
                        assert(dotted(rest[i], show_hidden));
                    }
                }
            } else if dotted(children[last], show_hidden) {
                let i = choose|i: int| 0 <= i < rest.len() && !dotted(#[trigger] rest[i], show_hidden);
                assert(!dotted(children[i], show_hidden));
            }
        }
        assert forall|i: int| #[trigger] only_shown(children, show_hidden, i) implies visible
            == seq![children[i]] by {
            if i < last {
                assert(dotted(children[last], show_hidden));
                assert(only_shown(rest, show_hidden, i)) by {
                    assert forall|j: int| 0 <= j < rest.len() && j != i implies dotted(
                        #[trigger] rest[j],
                        show_hidden,
                    ) by {
                        assert(dotted(children[j], show_hidden));
                    }
                }
            } else {
                assert forall|j: int| 0 <= j < rest.len() implies dotted(
                    #[trigger] rest[j],
                    show_hidden,
                ) by {
                    assert(dotted(children[j], show_hidden));
                }
                assert(before.len() == 0);
                assert(visible =~= seq![children[i]]);
            }
        }
        if visible.len() == 1 {
            if dotted(children[last], show_hidden) {
                let i = choose|i: int| only_shown(rest, show_hidden, i);
                assert(only_shown(children, show_hidden, i)) by {
                    assert forall|j: int| 0 <= j < children.len() && j != i implies dotted(
                        #[trigger] children[j],
                        show_hidden,
                    ) by {
                        if j < last {
                            assert(dotted(rest[j], show_hidden));
                        }
                    }
                }
            } else {
                assert forall|j: int| 0 <= j < children.len() && j != last implies dotted(
                    #[trigger] children[j],
                    show_hidden,
                ) by {
                    assert(dotted(rest[j], show_hidden));
                }
                assert(only_shown(children, show_hidden, last));
            }
        }
    }
}

/// A directory is followed into a name exactly if one of its entries is a directory of that name,
/// which is shown, and every other entry has a name that begins with a dot (byte 46) while such
/// names are not shown.
pub proof fn only_a_lone_directory_is_followed(
    children: Seq<Child>,
    show_hidden: bool,
    name: Seq<u8>,
)
    ensures
        only_directory(Some(children), show_hidden) == Some(name) <==> exists|i: int|
            {
                &&& 0 <= i < children.len()
                &&& (#[trigger] children[i]).is_dir == Some(true)
                &&& children[i].name@ == name
                &&& show_hidden || name.len() == 0 || name[0] != 46
                &&& forall|j: int|
                    0 <= j < children.len() && j != i ==> !show_hidden && (
                    #[trigger] children[j]).name@.len() > 0 && children[j].name@[0] == 46
            },
        only_directory(None, show_hidden) is None,
{
    lemma_visible(children, show_hidden);
    let visible = visible_children(children, show_hidden);
    if only_directory(Some(children), show_hidden) == Some(name) {
        let i = choose|i: int| only_shown(children, show_hidden, i);
        assert(visible == seq![children[i]]);
        assert forall|j: int| 0 <= j < children.len() && j != i implies !show_hidden && (
        #[trigger] children[j]).name@.len() > 0 && children[j].name@[0] == 46 by {
            assert(dotted(children[j], show_hidden));
        }
        assert(children[i].is_dir == Some(true));
    }
    assert forall|i: int|
        {
            &&& 0 <= i < children.len()
            &&& (#[trigger] children[i]).is_dir == Some(true)
            &&& children[i].name@ == name
            &&& show_hidden || name.len() == 0 || name[0] != 46
            &&& forall|j: int|
                0 <= j < children.len() && j != i ==> !show_hidden && (
                #[trigger] children[j]).name@.len() > 0 && children[j].name@[0] == 46
        } implies only_directory(Some(children), show_hidden) == Some(name) by {
        assert(only_shown(children, show_hidden, i)) by {
            assert forall|j: int| 0 <= j < children.len() && j != i implies dotted(
                #[trigger] children[j],
                show_hidden,
            ) by {
                assert(children[j].name@.len() > 0);
            }
        }
        assert(visible == seq![children[i]]);
    }
}

/// Two entries whose names do not begin with a dot (byte 46) keep a directory from being followed,
/// whatever the entries are: directories, files, or unknown. Where hidden names are shown, any two
/// entries do.
pub proof fn two_shown_entries_are_not_followed(
    children: Seq<Child>,
    show_hidden: bool,
    i: int,
    j: int,
)
    requires
        0 <= i < j < children.len(),
        show_hidden || children[i].name@.len() == 0 || children[i].name@[0] != 46,
        show_hidden || children[j].name@.len() == 0 || children[j].name@[0] != 46,
    ensures
        only_directory(Some(children), show_hidden) is None,
{
    lemma_visible(children, show_hidden);
    if visible_children(children, show_hidden).len() == 1 {
        let k = choose|k: int| only_shown(children, show_hidden, k);
        assert(!dotted(children[i], show_hidden));
        assert(!dotted(children[j], show_hidden));
        assert(false);
    }
}

/// Among the entries of a directory, directories come before everything else.
pub proof fn directories_come_first(a: EntryView, b: EntryView)
    requires
        a.kind == Some(EntryKind::Directory),
        b.kind != Some(EntryKind::Directory),
    ensures
        entry_lt(a, b),
        !entry_lt(b, a),
{
}

proof fn lemma_splits<T>(s: Seq<T>, t: Seq<T>, lt: spec_fn(T, T) -> bool, i: int)
    requires
        crate::order::strict_total(lt),
        0 <= i <= s.len(),
        i < t.len(),
        s.take(i) == t.take(i),
        i < s.len() ==> lt(s[i], t[i]),
    ensures
        crate::order::lex_lt(s, t, lt),
        !crate::order::lex_lt(t, s, lt),
        s != t,
{
    assert forall|j: int| 0 <= j < i implies #[trigger] s[j] == t[j] by {
        assert(s.take(i)[j] == s[j]);
        assert(t.take(i)[j] == t[j]);
    }
    assert(crate::order::splits_at(s, t, lt, i));
    crate::order::lex_irreflexive(s, lt);
    if crate::order::lex_lt(t, s, lt) {
        crate::order::lex_transitive(s, t, s, lt);
    }
}

/// Two directories, and two entries that are none, are ordered by their names in small letters: by
/// the first character in which these differ, a name that ends earlier first. Where they are the
/// same, the bytes of the names decide in the same way. Nothing else about the entries counts.
pub proof fn names_decide_among_alike(a: EntryView, b: EntryView)
    requires
        (a.kind == Some(EntryKind::Directory)) == (b.kind == Some(EntryKind::Directory)),
    ensures
        ({
            let s = lowercase(lossy(a.name));
            let t = lowercase(lossy(b.name));
            &&& forall|i: int|
                #![trigger s[i], t[i]]
                0 <= i < s.len() && i < t.len() && s.take(i) == t.take(i) && s[i] < t[i]
                    ==> entry_lt(a, b) && !entry_lt(b, a)
            &&& s.len() < t.len() && s == t.take(s.len() as int) ==> entry_lt(a, b) && !entry_lt(
                b,
                a,
            )
            &&& forall|i: int|
                #![trigger a.name[i], b.name[i]]
                s == t && 0 <= i < a.name.len() && i < b.name.len() && a.name.take(i)
                    == b.name.take(i) && a.name[i] < b.name[i] ==> entry_lt(a, b) && !entry_lt(b, a)
            &&& s == t && a.name.len() < b.name.len() && a.name == b.name.take(a.name.len() as int)
                ==> entry_lt(a, b) && !entry_lt(b, a)
            &&& a.name == b.name ==> !entry_lt(a, b)
        }),
{
    let s = lowercase(lossy(a.name));
    let t = lowercase(lossy(b.name));
    let chars = crate::order::char_lt();
    let bytes = crate::order::byte_lt();
    assert forall|i: int|
        #![trigger s[i], t[i]]
        0 <= i < s.len() && i < t.len() && s.take(i) == t.take(i) && s[i] < t[i] implies entry_lt(
        a,
        b,
    ) && !entry_lt(b, a) by {
        lemma_splits(s, t, chars, i);
    }
    if s.len() < t.len() && s == t.take(s.len() as int) {
        assert(s.take(s.len() as int) =~= s);
        lemma_splits(s, t, chars, s.len() as int);
    }
    assert forall|i: int|
        #![trigger a.name[i], b.name[i]]
        s == t && 0 <= i < a.name.len() && i < b.name.len() && a.name.take(i) == b.name.take(i)
            && a.name[i] < b.name[i] implies entry_lt(a, b) && !entry_lt(b, a) by {
        lemma_splits(a.name, b.name, bytes, i);
    }
    if s == t && a.name.len() < b.name.len() && a.name == b.name.take(a.name.len() as int) {
        assert(a.name.take(a.name.len() as int) =~= a.name);
        lemma_splits(a.name, b.name, bytes, a.name.len() as int);
    }
    if a.name == b.name {
        crate::order::lex_irreflexive(a.name, bytes);
    }
}

/// In the order in which entries are shown, no directory stands behind an entry that is none.
pub proof fn shown_order_puts_directories_first(entries: Seq<EntryView>, i: int, j: int)
    requires
        0 <= i < j < sorted_entries(entries).len(),
        sorted_entries(entries)[j].kind == Some(EntryKind::Directory),
    ensures
        sorted_entries(entries)[i].kind == Some(EntryKind::Directory),
{
    crate::listing::sorted_entries_law(entries);
    let sorted = sorted_entries(entries);
    if sorted[i].kind != Some(EntryKind::Directory) {
        directories_come_first(sorted[j], sorted[i]);
    }
}

/// In the order in which entries are shown no entry stands behind one that it comes before, and each
/// entry stands there as often as it was read.
pub proof fn shown_order_is_the_order_of_entries(entries: Seq<EntryView>, i: int, j: int)
    requires
        0 <= i < j < sorted_entries(entries).len(),
    ensures
        !entry_lt(sorted_entries(entries)[j], sorted_entries(entries)[i]),
        sorted_entries(entries).to_multiset() == entries.to_multiset(),
{
    crate::listing::sorted_entries_law(entries);
    let sorted = sorted_entries(entries);
    assert(!entry_lt(sorted[j], sorted[i]));
}

/// A chain of names adds one component each to a path, in order.
pub proof fn chains_add_their_names(base: Seq<Part>, chain: Seq<Seq<u8>>)
    ensures
        chain_path(base, chain).len() == base.len() + chain.len(),
        forall|i: int| 0 <= i < base.len() ==> #[trigger] chain_path(base, chain)[i] == base[i],
        forall|i: int|
            0 <= i < chain.len() ==> chain_path(base, chain)[base.len() + i] == Part::Normal(
                #[trigger] chain[i],
            ),
    decreases chain.len(),
{
    if chain.len() > 0 {
        chains_add_their_names(base, chain.drop_last());
        assert forall|i: int| 0 <= i < chain.len() implies chain_path(base, chain)[base.len() + i]
            == Part::Normal(#[trigger] chain[i]) by {
            if i < chain.len() - 1 {
                assert(chain.drop_last()[i] == chain[i]);
            }
        }
    }
}

/// In the text of a row the names of a chain stand behind one another, with one slash before each.
pub proof fn chain_names_are_joined_by_slashes(
    base: Seq<char>,
    name: Seq<u8>,
    chain: Seq<Seq<u8>>,
    more: Seq<Seq<u8>>,
)
    ensures
        chain_text(base, Seq::empty()) == base,
        chain_text(base, seq![name]) == base.push('/') + lossy(name),
        chain_text(base, chain + more) == chain_text(chain_text(base, chain), more),
    decreases more.len(),
{
    reveal_strlit("/");
    assert(seq![name].drop_last() =~= Seq::<Seq<u8>>::empty());
    assert(chain_text(base, seq![name]) =~= base.push('/') + lossy(name)) by {
        reveal_with_fuel(chain_text, 2);
    }
    if more.len() == 0 {
        assert(chain + more =~= chain);
    } else {
        chain_names_are_joined_by_slashes(base, name, chain, more.drop_last());
        assert((chain + more).drop_last() =~= chain + more.drop_last());
        assert((chain + more).last() == more.last());
    }
}

/// A row is shown as a directory exactly if its entry is one, or is a link to one while links are
/// followed. It stands at the depth it is given. A row that is no directory, and every row while
/// chains are not flattened, has the path and the name of its entry alone; a flattened directory
/// has those of its whole chain.
pub proof fn rows_tell_their_entries(
    dir: Seq<Part>,
    depth: nat,
    e: EntryView,
    options: WalkOptions,
)
    ensures
        row_of(dir, depth, e, options).depth == depth,
        e.kind == Some(EntryKind::Directory) ==> row_of(dir, depth, e, options).is_dir,
        e.kind == Some(EntryKind::Symlink) ==> (row_of(dir, depth, e, options).is_dir
            <==> e.leads_to_dir
            && options.follow_symlinks),
        e.kind == Some(EntryKind::Other) || e.kind is None ==> !row_of(dir, depth, e, options).is_dir,
        row_of(dir, depth, e, options).path.take((dir.len() + 1) as int) == dir.push(
            Part::Normal(e.name),
        ),
        !(row_of(dir, depth, e, options).is_dir && options.flatten_dirs) ==> row_of(
            dir,
            depth,
            e,
            options,
        ).path == dir.push(Part::Normal(e.name)) && row_of(dir, depth, e, options).name == lossy(
            e.name,
        ),
        row_of(dir, depth, e, options).is_dir && options.flatten_dirs ==> {
            &&& row_of(dir, depth, e, options).path.len() == dir.len() + 1 + e.chain.len()
            &&& forall|i: int|
                0 <= i < e.chain.len() ==> row_of(dir, depth, e, options).path[dir.len() + 1 + i]
                    == Part::Normal(#[trigger] e.chain[i])
            &&& row_of(dir, depth, e, options).name == chain_text(lossy(e.name), e.chain)
        },
{
    let start = dir.push(Part::Normal(e.name));
    let row = row_of(dir, depth, e, options);
    let chain = if row.is_dir && options.flatten_dirs {
        e.chain
    } else {
        Seq::empty()
    };
    chains_add_their_names(start, chain);
    assert(row.path.take((dir.len() + 1) as int) =~= start);
}

/// What the entries of a directory give is what each of them gives, one behind the other.
pub proof fn entries_are_walked_in_turn(
    read: Map<Seq<Part>, Vec<Entry>>,
    expanded: Seq<Seq<Part>>,
    options: WalkOptions,
    dir: Seq<Part>,
    depth: nat,
    first: Seq<EntryView>,
    then: Seq<EntryView>,
)
    ensures
        walk_entries(read, expanded, options, dir, depth, first + then).rows == walk_entries(
            read,
            expanded,
            options,
            dir,
            depth,
            first,
        ).rows + walk_entries(read, expanded, options, dir, depth, then).rows,
        walk_entries(read, expanded, options, dir, depth, first + then).missing == walk_entries(
            read,
            expanded,
            options,
            dir,
            depth,
            first,
        ).missing + walk_entries(read, expanded, options, dir, depth, then).missing,
    decreases then.len(),
{
    if then.len() == 0 {
        assert(first + then =~= first);
    } else {
        entries_are_walked_in_turn(read, expanded, options, dir, depth, first, then.drop_last());
        assert((first + then).drop_last() =~= first + then.drop_last());
        assert((first + then).last() == then.last());
    }
}

/// An entry of unknown kind has no row. Any other entry has one; below the row of an expanded
/// directory stand the rows of that directory, one level deeper, and below any other row nothing.
pub proof fn entry_gives_its_row_and_what_is_below(
    read: Map<Seq<Part>, Vec<Entry>>,
    expanded: Seq<Seq<Part>>,
    options: WalkOptions,
    dir: Seq<Part>,
    depth: nat,
    e: EntryView,
)
    ensures
        ({
            let walk = walk_entries(read, expanded, options, dir, depth, seq![e]);
            let row = row_of(dir, depth, e, options);
            let below = walk_dir(read, expanded, options, row.path, depth + 1);
            &&& e.kind is None ==> walk.rows.len() == 0 && walk.missing.len() == 0
            &&& e.kind is Some ==> walk.rows.len() > 0 && walk.rows[0] == row
            &&& e.kind is Some && row.is_dir && expanded.contains(row.path) ==> walk.rows.skip(1)
                == below.rows && walk.missing == below.missing
            &&& e.kind is Some && !(row.is_dir && expanded.contains(row.path)) ==> walk.rows.len()
                == 1 && walk.missing.len() == 0
        }),
{
    reveal_with_fuel(walk_entries, 2);
    assert(seq![e].drop_last() =~= Seq::<EntryView>::empty());
    assert(seq![e].last() == e);
    let walk = walk_entries(read, expanded, options, dir, depth, seq![e]);
    let row = row_of(dir, depth, e, options);
    let below = walk_dir(read, expanded, options, row.path, depth + 1);
    if e.kind is Some && row.is_dir && expanded.contains(row.path) {
        assert(walk.rows =~= seq![row] + below.rows);
        assert(walk.rows.skip(1) =~= below.rows);
        assert(walk.missing =~= below.missing);
    }
}

/// A directory that has not been read gives no rows and is missing. One that has been read gives
/// what its entries give, in the order in which they are shown.
pub proof fn directories_give_what_was_read(
    read: Map<Seq<Part>, Vec<Entry>>,
    expanded: Seq<Seq<Part>>,
    options: WalkOptions,
    dir: Seq<Part>,
    depth: nat,
)
    ensures
        !read.contains_key(dir) ==> walk_dir(read, expanded, options, dir, depth).rows.len() == 0
            && walk_dir(read, expanded, options, dir, depth).missing == seq![dir],
        read.contains_key(dir) ==> walk_dir(read, expanded, options, dir, depth) == walk_entries(
            read,
            expanded,
            options,
            dir,
            depth,
            sorted_entries(entry_views(read[dir]@)),
        ),
{
}

/// Each entry of known kind in a directory that was read has a row, whatever its kind and its name.
pub proof fn every_entry_has_a_row(
    read: Map<Seq<Part>, Vec<Entry>>,
    expanded: Seq<Seq<Part>>,
    options: WalkOptions,
    dir: Seq<Part>,
    depth: nat,
    k: int,
)
    requires
        read.contains_key(dir),
        0 <= k < read[dir].len(),
        read[dir]@[k].kind is Some,
    ensures
        walk_dir(read, expanded, options, dir, depth).rows.contains(
            row_of(dir, depth, read[dir]@[k]@, options),
        ),
{
    let entries = entry_views(read[dir]@);
    let sorted = sorted_entries(entries);
    let e = entries[k];
    crate::listing::sorted_entries_law(entries);
    broadcast use vstd::seq_lib::group_to_multiset_ensures;

    assert(entries.contains(e));
    assert(entries.to_multiset().count(e) > 0);
    assert(sorted.contains(e));
    let i = choose|i: int| 0 <= i < sorted.len() && sorted[i] == e;
    let first = sorted.take(i);
    let then = sorted.skip(i + 1);
    assert(sorted =~= first + (seq![e] + then));
    entries_are_walked_in_turn(read, expanded, options, dir, depth, first, seq![e] + then);
    entries_are_walked_in_turn(read, expanded, options, dir, depth, seq![e], then);
    entry_gives_its_row_and_what_is_below(read, expanded, options, dir, depth, e);
    let before = walk_entries(read, expanded, options, dir, depth, first).rows;
    let rows = walk_dir(read, expanded, options, dir, depth).rows;
    assert(rows[before.len() as int] == row_of(dir, depth, e, options));
}

} // verus!
