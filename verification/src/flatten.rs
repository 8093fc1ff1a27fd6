//! Directories that show nothing but one directory, and stand in one row with it.

use vstd::prelude::*;

use crate::listing::{
    chain_path, children_view, hidden_name, name_views, only_directory, shown_as_dir,
    single_visible_directory, visible_children, walk_dir, Child, Entry, WalkOptions,
};
use crate::path::{file_name_of, Part, TreePath};
use crate::rows::{is_entry, rows_show_entries, shows_an_entry};

verus! {

/// The way down from a directory through those that show nothing but one directory.
#[derive(Debug)]
pub struct Flattening {
    /// The directory that has been reached, whose entries are to be read next.
    pub path: TreePath,
    /// The names that led to it.
    pub names: Vec<Vec<u8>>,
}

impl Flattening {
    /// Starts at a directory.
    pub fn new(path: TreePath) -> (r: Flattening)
        ensures
            r.path@ == path@,
            name_views(r.names@) == Seq::<Seq<u8>>::empty(),
            r.leads_from(path@),
    {
        let r = Flattening { path, names: Vec::new() };
        assert(name_views(r.names@) =~= Seq::<Seq<u8>>::empty());
        r
    }

    /// The names lead from `start` to the directory that has been reached.
    pub open spec fn leads_from(&self, start: Seq<Part>) -> bool {
        self.path@ == chain_path(start, name_views(self.names@))
    }

    /// Goes down one step further, where the directory that has been reached shows nothing but one
    /// directory, and tells whether it did. `children` are the entries of the directory that has
    /// been reached, where they could be read.
    pub fn follow(&mut self, children: &Option<Vec<Child>>, show_hidden: bool) -> (more: bool)
        ensures
            more == (only_directory(children_view(*children), show_hidden) is Some),
            match only_directory(children_view(*children), show_hidden) {
                Some(name) => final(self).path@ == old(self).path@.push(Part::Normal(name))
                    && name_views(final(self).names@) == name_views(old(self).names@).push(name),
                None => *final(self) == *old(self),
            },
            forall|start: Seq<Part>| #[trigger]
                old(self).leads_from(start) ==> final(self).leads_from(start),
    {
        match single_visible_directory(&self.path, children, show_hidden) {
            Some(child) => {
                let ghost before = name_views(self.names@);
                let ghost only = only_directory(children_view(*children), show_hidden)->0;
                assert(child@.last() == Part::Normal(only));
                let name = match child.file_name() {
                    Some(name) => name,
                    None => Vec::new(),
                };
                self.names.push(name);
                self.path = child;
                assert(name_views(self.names@) =~= before.push(only));
                assert(name_views(self.names@).drop_last() =~= before);
                true
            },
            None => false,
        }
    }
}

/// Each of the names is that of the one directory that is shown in the directory reached before.
pub open spec fn chained(
    children: Map<Seq<Part>, Option<Seq<Child>>>,
    show_hidden: bool,
    start: Seq<Part>,
    names: Seq<Seq<u8>>,
) -> bool {
    forall|i: int|
        0 <= i < names.len() ==> only_directory(
            children[chain_path(start, names.take(i))],
            show_hidden,
        ) == Some(#[trigger] names[i])
}

/// The names lead as far down from `start` as there is nothing but one directory to show.
pub open spec fn chain_ends(
    children: Map<Seq<Part>, Option<Seq<Child>>>,
    show_hidden: bool,
    start: Seq<Part>,
    names: Seq<Seq<u8>>,
) -> bool {
    chained(children, show_hidden, start, names) && only_directory(
        children[chain_path(start, names)],
        show_hidden,
    ) is None
}

/// Following the one directory that is shown, step by step, gives the chain: a step that finds one
/// makes it longer, and the step that finds none is its end.
pub proof fn following_gives_the_chain(
    children: Map<Seq<Part>, Option<Seq<Child>>>,
    show_hidden: bool,
    start: Seq<Part>,
    names: Seq<Seq<u8>>,
)
    requires
        chained(children, show_hidden, start, names),
    ensures
        match only_directory(children[chain_path(start, names)], show_hidden) {
            Some(name) => chained(children, show_hidden, start, names.push(name)) && chain_path(
                start,
                names.push(name),
            ) == chain_path(start, names).push(Part::Normal(name)),
            None => chain_ends(children, show_hidden, start, names),
        },
{
    if let Some(name) = only_directory(children[chain_path(start, names)], show_hidden) {
        let longer = names.push(name);
        assert(longer.drop_last() =~= names);
        assert forall|i: int| 0 <= i < longer.len() implies only_directory(
            children[chain_path(start, longer.take(i))],
            show_hidden,
        ) == Some(#[trigger] longer[i]) by {
            if i < names.len() {
                assert(longer.take(i) =~= names.take(i));
                assert(longer[i] == names[i]);
            } else {
                assert(longer.take(i) =~= names);
            }
        }
    }
}

/// The chain of every directory that was read has been followed to its end.
pub open spec fn chains_end(
    read: Map<Seq<Part>, Vec<Entry>>,
    options: WalkOptions,
    children: Map<Seq<Part>, Option<Seq<Child>>>,
    show_hidden: bool,
) -> bool {
    forall|d: Seq<Part>, k: int| #[trigger]
        is_entry(read, d, k) && shown_as_dir(read[d]@[k]@, options) ==> chain_ends(
            children,
            show_hidden,
            d.push(Part::Normal(read[d]@[k].name@)),
            read[d]@[k]@.chain,
        )
}

/// Where directories are flattened, the row of a directory never shows nothing but one directory:
/// its row would be one with that one's.
pub proof fn flattened_rows_end_their_chains(
    read: Map<Seq<Part>, Vec<Entry>>,
    expanded: Seq<Seq<Part>>,
    options: WalkOptions,
    dir: Seq<Part>,
    depth: nat,
    children: Map<Seq<Part>, Option<Seq<Child>>>,
    show_hidden: bool,
)
    requires
        options.flatten_dirs,
        chains_end(read, options, children, show_hidden),
    ensures
        forall|i: int|
            0 <= i < walk_dir(read, expanded, options, dir, depth).rows.len() && (
            #[trigger] walk_dir(read, expanded, options, dir, depth).rows[i]).is_dir
                ==> only_directory(
                children[walk_dir(read, expanded, options, dir, depth).rows[i].path],
                show_hidden,
            ) is None,
{
    let rows = walk_dir(read, expanded, options, dir, depth).rows;
    rows_show_entries(read, expanded, options, dir, depth);
    assert forall|i: int| 0 <= i < rows.len() && (
    #[trigger] rows[i]).is_dir implies only_directory(children[rows[i].path], show_hidden) is None by {
        assert(shows_an_entry(read, expanded, options, dir, rows[i]));
        let (d, k) = choose|d: Seq<Part>, k: int| #[trigger]
            is_entry(read, d, k) && (d == dir || (expanded.contains(d)
                && crate::path::strictly_under(d, dir))) && read[d]@[k].kind is Some && rows[i]
                == crate::listing::row_of(d, rows[i].depth, read[d]@[k]@, options);
        assert(is_entry(read, d, k));
    }
}

/// No entry that was read has a hidden name, and no chain leads through one.
pub open spec fn lists_nothing_hidden(read: Map<Seq<Part>, Vec<Entry>>) -> bool {
    forall|d: Seq<Part>, k: int| #[trigger]
        is_entry(read, d, k) ==> !hidden_name(read[d]@[k].name@) && (forall|n: int|
            0 <= n < read[d]@[k]@.chain.len() ==> !hidden_name(#[trigger] read[d]@[k]@.chain[n]))
}

/// A chain that is followed without hidden names leads through none.
pub proof fn chains_lead_through_nothing_hidden(
    children: Map<Seq<Part>, Option<Seq<Child>>>,
    start: Seq<Part>,
    names: Seq<Seq<u8>>,
)
    requires
        chained(children, false, start, names),
    ensures
        forall|i: int| 0 <= i < names.len() ==> !hidden_name(#[trigger] names[i]),
{
    assert forall|i: int| 0 <= i < names.len() implies !hidden_name(#[trigger] names[i]) by {
        let held = children[chain_path(start, names.take(i))];
        assert(only_directory(held, false) == Some(names[i]));
        lemma_visible_is_not_hidden(held->0);
        assert(visible_children(held->0, false)[0].name@ == names[i]);
    }
}

proof fn lemma_visible_is_not_hidden(children: Seq<Child>)
    ensures
        forall|i: int|
            0 <= i < visible_children(children, false).len() ==> !hidden_name(
                (#[trigger] visible_children(children, false)[i]).name@,
            ),
    decreases children.len(),
{
    if children.len() > 0 {
        lemma_visible_is_not_hidden(children.drop_last());
    }
}

/// Where nothing hidden was read, no row is that of a hidden name.
pub proof fn hidden_names_have_no_row(
    read: Map<Seq<Part>, Vec<Entry>>,
    expanded: Seq<Seq<Part>>,
    options: WalkOptions,
    dir: Seq<Part>,
    depth: nat,
)
    requires
        lists_nothing_hidden(read),
    ensures
        forall|i: int|
            0 <= i < walk_dir(read, expanded, options, dir, depth).rows.len() ==> file_name_of(
                (#[trigger] walk_dir(read, expanded, options, dir, depth).rows[i]).path,
            ) is Some && !hidden_name(
                file_name_of(walk_dir(read, expanded, options, dir, depth).rows[i].path)->0,
            ),
{
    let rows = walk_dir(read, expanded, options, dir, depth).rows;
    rows_show_entries(read, expanded, options, dir, depth);
    assert forall|i: int| 0 <= i < rows.len() implies file_name_of((#[trigger] rows[i]).path) is Some
        && !hidden_name(file_name_of(rows[i].path)->0) by {
        assert(shows_an_entry(read, expanded, options, dir, rows[i]));
        let (d, k) = choose|d: Seq<Part>, k: int| #[trigger]
            is_entry(read, d, k) && (d == dir || (expanded.contains(d)
                && crate::path::strictly_under(d, dir))) && read[d]@[k].kind is Some && rows[i]
                == crate::listing::row_of(d, rows[i].depth, read[d]@[k]@, options);
        let e = read[d]@[k]@;
        let base = d.push(Part::Normal(e.name));
        if rows[i].path != base {
            let n = e.chain.len() - 1;
            assert(rows[i].path == chain_path(base, e.chain));
            assert(e.chain.len() > 0);
            assert(!hidden_name(e.chain[n]));
            assert(rows[i].path.last() == Part::Normal(e.chain[n]));
        } else {
            assert(base.last() == Part::Normal(e.name));
        }
    }
}

} // verus!
