//! The rows of the tree: what is shown of a directory, in which order, and which directories below
//! it are opened up.

use vstd::prelude::*;
use vstd::string::*;

use crate::collections::{path_views, PathMap, PathSet};
use crate::order::{byte_lt, bytes_before, char_lt, chars_before, lex_lt};
use crate::path::{Part, TreePath};
use crate::text::{chars_of, lossy, lossy_text, lowercase};

verus! {

/// What an entry of a directory is.
#[derive(Debug, Clone, Copy, PartialEq, Eq, Structural)]
pub enum EntryKind {
    Directory,
    Symlink,
    Other,
}

/// An entry of a directory, as it was read from the disk.
#[derive(Debug)]
pub struct Entry {
    /// Its name.
    pub name: Vec<u8>,
    /// What it is, where that is known.
    pub kind: Option<EntryKind>,
    /// Whether its path, links followed, leads to a directory.
    pub leads_to_dir: bool,
    /// The names of the directories below it that can be shown in one row with it: each is the only
    /// thing shown in the one above it.
    pub chain: Vec<Vec<u8>>,
}

/// The mathematical value of an [`Entry`].
pub struct EntryView {
    pub name: Seq<u8>,
    pub kind: Option<EntryKind>,
    pub leads_to_dir: bool,
    pub chain: Seq<Seq<u8>>,
}

impl View for Entry {
    type V = EntryView;

    open spec fn view(&self) -> EntryView {
        EntryView {
            name: self.name@,
            kind: self.kind,
            leads_to_dir: self.leads_to_dir,
            chain: name_views(self.chain@),
        }
    }
}

/// The names of a list, by value.
pub open spec fn name_views(names: Seq<Vec<u8>>) -> Seq<Seq<u8>> {
    names.map_values(|n: Vec<u8>| n@)
}

/// The entries of a list, by value.
pub open spec fn entry_views(entries: Seq<Entry>) -> Seq<EntryView> {
    entries.map_values(|e: Entry| e@)
}

/// The text by which a name is ordered: as it is shown, and without regard to case.
pub open spec fn sort_text(name: Seq<u8>) -> Seq<char> {
    lowercase(lossy(name))
}

/// The order in which entries are shown: directories first, then by name without regard to case,
/// then by name.
pub open spec fn entry_lt(a: EntryView, b: EntryView) -> bool {
    let a_dir = a.kind == Some(EntryKind::Directory);
    let b_dir = b.kind == Some(EntryKind::Directory);
    if a_dir != b_dir {
        a_dir
    } else if sort_text(a.name) != sort_text(b.name) {
        lex_lt(sort_text(a.name), sort_text(b.name), char_lt())
    } else {
        lex_lt(a.name, b.name, byte_lt())
    }
}

/// `e` put into a sorted list, behind everything that does not come after it.
pub open spec fn place(sorted: Seq<EntryView>, e: EntryView) -> Seq<EntryView>
    decreases sorted.len(),
{
    if sorted.len() > 0 && entry_lt(e, sorted.last()) {
        place(sorted.drop_last(), e).push(sorted.last())
    } else {
        sorted.push(e)
    }
}

/// The entries in the order in which they are shown; of two that the order does not tell apart, the
/// one read first comes first.
pub open spec fn sorted_entries(entries: Seq<EntryView>) -> Seq<EntryView>
    decreases entries.len(),
{
    if entries.len() == 0 {
        Seq::empty()
    } else {
        place(sorted_entries(entries.drop_last()), entries.last())
    }
}

/// No entry comes strictly before one that stands in front of it.
pub open spec fn is_sorted(entries: Seq<EntryView>) -> bool {
    forall|i: int, j: int|
        0 <= i < j < entries.len() ==> !entry_lt(#[trigger] entries[j], #[trigger] entries[i])
}

/// The order of entries is transitive.
pub proof fn entry_lt_transitive(a: EntryView, b: EntryView, c: EntryView)
    requires
        entry_lt(a, b),
        entry_lt(b, c),
    ensures
        entry_lt(a, c),
{
    let (x, y, z) = (sort_text(a.name), sort_text(b.name), sort_text(c.name));
    if x != y && y != z {
        if lex_lt(x, y, char_lt()) && lex_lt(y, z, char_lt()) {
            crate::order::lex_transitive(x, y, z, char_lt());
        }
        crate::order::lex_irreflexive(x, char_lt());
    }
    if lex_lt(a.name, b.name, byte_lt()) && lex_lt(b.name, c.name, byte_lt()) {
        crate::order::lex_transitive(a.name, b.name, c.name, byte_lt());
    }
}

/// Of two entries of which neither comes before the other, the same entries come before both.
pub proof fn entry_lt_connected(a: EntryView, b: EntryView, c: EntryView)
    requires
        entry_lt(a, b),
    ensures
        entry_lt(a, c) || entry_lt(c, b),
{
    let (x, y, z) = (sort_text(a.name), sort_text(b.name), sort_text(c.name));
    crate::order::lex_connected(x, z, char_lt());
    crate::order::lex_connected(z, y, char_lt());
    crate::order::lex_connected(a.name, c.name, byte_lt());
    if lex_lt(z, x, char_lt()) && lex_lt(x, y, char_lt()) {
        crate::order::lex_transitive(z, x, y, char_lt());
    }
    if lex_lt(c.name, a.name, byte_lt()) && lex_lt(a.name, b.name, byte_lt()) {
        crate::order::lex_transitive(c.name, a.name, b.name, byte_lt());
    }
    if lex_lt(y, z, char_lt()) && lex_lt(z, x, char_lt()) {
        crate::order::lex_transitive(y, z, x, char_lt());
        if lex_lt(x, y, char_lt()) {
            crate::order::lex_transitive(x, y, x, char_lt());
            crate::order::lex_irreflexive(x, char_lt());
        }
    }
}

proof fn lemma_place(sorted: Seq<EntryView>, e: EntryView)
    requires
        is_sorted(sorted),
    ensures
        is_sorted(place(sorted, e)),
        place(sorted, e).to_multiset() == sorted.to_multiset().insert(e),
        place(sorted, e).len() == sorted.len() + 1,
        forall|i: int|
            0 <= i < place(sorted, e).len() ==> (#[trigger] place(sorted, e)[i] == e
                || sorted.contains(place(sorted, e)[i])),
    decreases sorted.len(),
{
    broadcast use vstd::seq_lib::group_to_multiset_ensures;

    if sorted.len() > 0 && entry_lt(e, sorted.last()) {
        let rest = sorted.drop_last();
        let last = sorted.last();
        lemma_place(rest, e);
        let put = place(rest, e);
        assert(sorted =~= rest.push(last));
        assert forall|i: int, j: int| 0 <= i < j < put.push(last).len() implies !entry_lt(
            #[trigger] put.push(last)[j],
            #[trigger] put.push(last)[i],
        ) by {
            if j == put.len() {
                if put[i] == e {
                    if entry_lt(last, e) {
                        entry_lt_transitive(e, last, e);
                        lemma_entry_irreflexive(e);
                    }
                } else {
                    let k = choose|k: int| 0 <= k < rest.len() && rest[k] == put[i];
                    assert(!entry_lt(sorted[sorted.len() - 1], sorted[k]));
                }
            }
        }
        assert(put.push(last).to_multiset() =~= sorted.to_multiset().insert(e));
        assert forall|i: int| 0 <= i < place(sorted, e).len() implies (#[trigger] place(sorted, e)[i]
            == e || sorted.contains(place(sorted, e)[i])) by {
            if i < put.len() {
                assert(place(sorted, e)[i] == put[i]);
                if put[i] != e {
                    let k = choose|k: int| 0 <= k < rest.len() && rest[k] == put[i];
                    assert(sorted[k] == put[i]);
                }
            } else {
                assert(sorted[sorted.len() - 1] == last);
            }
        }
    } else {
        let put = sorted.push(e);
        assert forall|i: int, j: int| 0 <= i < j < put.len() implies !entry_lt(
            #[trigger] put[j],
            #[trigger] put[i],
        ) by {
            if j == sorted.len() {
                if entry_lt(e, sorted[i]) {
                    let last = sorted[sorted.len() - 1];
                    entry_lt_connected(e, sorted[i], last);
                    if i < sorted.len() - 1 {
                        assert(!entry_lt(last, sorted[i]));
                    }
                }
            }
        }
        assert forall|i: int| 0 <= i < put.len() implies (#[trigger] put[i] == e
            || sorted.contains(put[i])) by {
            if i < sorted.len() {
                assert(sorted[i] == put[i]);
            }
        }
    }
}

proof fn lemma_entry_irreflexive(e: EntryView)
    ensures
        !entry_lt(e, e),
{
    crate::order::lex_irreflexive(e.name, byte_lt());
}

/// The shown order is sorted, and shows exactly the entries that were read.
pub proof fn sorted_entries_law(entries: Seq<EntryView>)
    ensures
        is_sorted(sorted_entries(entries)),
        sorted_entries(entries).to_multiset() == entries.to_multiset(),
        sorted_entries(entries).len() == entries.len(),
    decreases entries.len(),
{
    broadcast use vstd::seq_lib::group_to_multiset_ensures;

    if entries.len() > 0 {
        sorted_entries_law(entries.drop_last());
        lemma_place(sorted_entries(entries.drop_last()), entries.last());
        assert(entries =~= entries.drop_last().push(entries.last()));
    }
}

/// The entries at the given positions.
pub open spec fn picked(entries: Seq<Entry>, order: Seq<usize>) -> Seq<EntryView> {
    order.map_values(|n: usize| entries[n as int]@)
}

fn is_directory(entry: &Entry) -> (r: bool)
    ensures
        r == (entry.kind == Some(EntryKind::Directory)),
{
    match entry.kind {
        Some(EntryKind::Directory) => true,
        _ => false,
    }
}

fn entry_before(a: &Entry, a_key: &Vec<char>, b: &Entry, b_key: &Vec<char>) -> (r: bool)
    requires
        a_key@ == sort_text(a.name@),
        b_key@ == sort_text(b.name@),
    ensures
        r == entry_lt(a@, b@),
{
    let a_dir = is_directory(a);
    let b_dir = is_directory(b);
    if a_dir != b_dir {
        return a_dir;
    }
    proof {
        crate::order::lex_connected(a_key@, b_key@, char_lt());
        crate::order::lex_irreflexive(a_key@, char_lt());
        if lex_lt(a_key@, b_key@, char_lt()) && lex_lt(b_key@, a_key@, char_lt()) {
            crate::order::lex_transitive(a_key@, b_key@, a_key@, char_lt());
        }
    }
    if chars_before(a_key, b_key) {
        true
    } else if chars_before(b_key, a_key) {
        false
    } else {
        bytes_before(&a.name, &b.name)
    }
}

/// The positions of the entries in the order in which they are shown.
pub fn sort_entries(entries: &Vec<Entry>) -> (order: Vec<usize>)
    ensures
        forall|i: int| 0 <= i < order.len() ==> (#[trigger] order@[i]) < entries.len(),
        picked(entries@, order@) == sorted_entries(entry_views(entries@)),
{
    let mut keys: Vec<Vec<char>> = Vec::new();
    let mut k: usize = 0;
    while k < entries.len()
        invariant
            k <= entries.len(),
            keys.len() == k,
            forall|j: int| 0 <= j < k ==> (#[trigger] keys@[j])@ == sort_text(entries@[j].name@),
        decreases entries.len() - k,
    {
        let shown = lossy_text(&entries[k].name);
        keys.push(chars_of(shown.as_str().to_lowercase().as_str()));
        k = k + 1;
    }
    let ghost views = entry_views(entries@);
    let mut order: Vec<usize> = Vec::new();
    let mut n: usize = 0;
    assert(views.take(0) =~= Seq::empty());
    assert(picked(entries@, order@) =~= Seq::empty());
    while n < entries.len()
        invariant
            n <= entries.len(),
            views == entry_views(entries@),
            keys.len() == entries.len(),
            forall|j: int|
                0 <= j < keys.len() ==> (#[trigger] keys@[j])@ == sort_text(entries@[j].name@),
            order.len() == n,
            forall|i: int| 0 <= i < order.len() ==> (#[trigger] order@[i]) < n,
            picked(entries@, order@) == sorted_entries(views.take(n as int)),
        decreases entries.len() - n,
    {
        let ghost sorted = picked(entries@, order@);
        let ghost e = entries@[n as int]@;
        let mut at: usize = order.len();
        assert(sorted.take(at as int) =~= sorted);
        assert(place(sorted, e) =~= place(sorted.take(at as int), e) + sorted.skip(at as int));
        while at > 0 && entry_before(
            &entries[n],
            &keys[n],
            &entries[order[at - 1]],
            &keys[order[at - 1]],
        )
            invariant
                at <= order.len(),
                n < entries.len(),
                order.len() == n,
                keys.len() == entries.len(),
                forall|j: int|
                    0 <= j < keys.len() ==> (#[trigger] keys@[j])@ == sort_text(entries@[j].name@),
                forall|i: int| 0 <= i < order.len() ==> (#[trigger] order@[i]) < n,
                sorted == picked(entries@, order@),
                e == entries@[n as int]@,
                place(sorted, e) == place(sorted.take(at as int), e) + sorted.skip(at as int),
            decreases at,
        {
            proof {
                let head = sorted.take(at as int);
                assert(head.last() == sorted[at - 1]);
                assert(head.drop_last() =~= sorted.take(at - 1));
                assert(place(sorted.take(at - 1), e) + sorted.skip(at - 1) =~= place(
                    sorted.take(at - 1),
                    e,
                ).push(sorted[at - 1]) + sorted.skip(at as int));
            }
            at = at - 1;
        }
        proof {
            let head = sorted.take(at as int);
            if at > 0 {
                assert(head.last() == sorted[at - 1]);
            }
            assert(place(sorted, e) == head.push(e) + sorted.skip(at as int));
            assert(views.take(n + 1).drop_last() =~= views.take(n as int));
            assert(views.take(n + 1).last() == e);
        }
        order.insert(at, n);
        assert(picked(entries@, order@) =~= sorted.take(at as int).push(e) + sorted.skip(at as int));
        n = n + 1;
    }
    assert(views.take(n as int) =~= views);
    order
}

/// How directories are opened up and followed.
#[derive(Debug, Clone, Copy)]
pub struct WalkOptions {
    /// A link to a directory counts as a directory.
    pub follow_symlinks: bool,
    /// A directory that shows nothing but one directory stands in one row with it.
    pub flatten_dirs: bool,
}

/// One row of the tree.
#[derive(Debug)]
pub struct Row {
    pub path: TreePath,
    pub name: String,
    pub depth: usize,
    pub is_dir: bool,
}

/// The mathematical value of a [`Row`].
pub struct RowView {
    pub path: Seq<Part>,
    pub name: Seq<char>,
    pub depth: nat,
    pub is_dir: bool,
}

impl View for Row {
    type V = RowView;

    open spec fn view(&self) -> RowView {
        RowView {
            path: self.path@,
            name: self.name@,
            depth: self.depth as nat,
            is_dir: self.is_dir,
        }
    }
}

impl Clone for Row {
    fn clone(&self) -> (r: Self)
        ensures
            r@ == self@,
    {
        Row {
            path: self.path.clone(),
            name: self.name.clone(),
            depth: self.depth,
            is_dir: self.is_dir,
        }
    }
}

/// The rows of a list, by value.
pub open spec fn row_views(rows: Seq<Row>) -> Seq<RowView> {
    rows.map_values(|r: Row| r@)
}

/// The entry is shown as a directory.
pub open spec fn shown_as_dir(e: EntryView, options: WalkOptions) -> bool {
    e.kind == Some(EntryKind::Directory) || (options.follow_symlinks && e.kind == Some(
        EntryKind::Symlink,
    ) && e.leads_to_dir)
}

/// The names of a chain, one below the other.
pub open spec fn chain_path(base: Seq<Part>, chain: Seq<Seq<u8>>) -> Seq<Part>
    decreases chain.len(),
{
    if chain.len() == 0 {
        base
    } else {
        chain_path(base, chain.drop_last()).push(Part::Normal(chain.last()))
    }
}

/// The names of a chain, with a slash before each.
pub open spec fn chain_text(base: Seq<char>, chain: Seq<Seq<u8>>) -> Seq<char>
    decreases chain.len(),
{
    if chain.len() == 0 {
        base
    } else {
        chain_text(base, chain.drop_last()) + "/"@ + lossy(chain.last())
    }
}

/// The row of an entry of the directory `dir`.
pub open spec fn row_of(dir: Seq<Part>, depth: nat, e: EntryView, options: WalkOptions) -> RowView {
    let is_dir = shown_as_dir(e, options);
    let chain = if is_dir && options.flatten_dirs {
        e.chain
    } else {
        Seq::empty()
    };
    RowView {
        path: chain_path(dir.push(Part::Normal(e.name)), chain),
        name: chain_text(lossy(e.name), chain),
        depth,
        is_dir,
    }
}

/// The length of the longest of the paths.
pub open spec fn deepest(paths: Seq<Seq<Part>>) -> nat
    decreases paths.len(),
{
    if paths.len() == 0 {
        0
    } else {
        let rest = deepest(paths.drop_last());
        if paths.last().len() > rest {
            paths.last().len()
        } else {
            rest
        }
    }
}

/// How much further down than `dir` the expanded directories reach.
pub open spec fn room(expanded: Seq<Seq<Part>>, dir: Seq<Part>) -> nat {
    if deepest(expanded) >= dir.len() {
        (deepest(expanded) - dir.len() + 1) as nat
    } else {
        0
    }
}

/// No path of the list is longer than the longest.
pub proof fn deepest_bounds(paths: Seq<Seq<Part>>, p: Seq<Part>)
    requires
        paths.contains(p),
    ensures
        p.len() <= deepest(paths),
    decreases paths.len(),
{
    let i = choose|i: int| 0 <= i < paths.len() && paths[i] == p;
    if i < paths.len() - 1 {
        assert(paths.drop_last()[i] == p);
        deepest_bounds(paths.drop_last(), p);
    }
}

proof fn lemma_chain_path(base: Seq<Part>, chain: Seq<Seq<u8>>)
    ensures
        chain_path(base, chain).len() == base.len() + chain.len(),
        crate::path::under(chain_path(base, chain), base),
    decreases chain.len(),
{
    if chain.len() > 0 {
        lemma_chain_path(base, chain.drop_last());
        crate::path::join_name_extends(chain_path(base, chain.drop_last()), chain.last());
        crate::path::under_transitive(
            chain_path(base, chain),
            chain_path(base, chain.drop_last()),
            base,
        );
    } else {
        assert(base.subrange(0, base.len() as int) =~= base);
    }
}

/// The path of a row lies strictly under the directory whose entry it shows.
pub proof fn row_lies_under(dir: Seq<Part>, depth: nat, e: EntryView, options: WalkOptions)
    ensures
        crate::path::strictly_under(row_of(dir, depth, e, options).path, dir),
        row_of(dir, depth, e, options).path.len() > dir.len(),
        crate::path::under(row_of(dir, depth, e, options).path, dir.push(Part::Normal(e.name))),
{
    let base = dir.push(Part::Normal(e.name));
    crate::path::join_name_extends(dir, e.name);
    let is_dir = shown_as_dir(e, options);
    let chain = if is_dir && options.flatten_dirs {
        e.chain
    } else {
        Seq::empty()
    };
    lemma_chain_path(base, chain);
    crate::path::under_transitive(chain_path(base, chain), base, dir);
}

/// What a walk finds: the rows, and the directories it should have opened up but could not because
/// they have not been read.
pub struct Walk {
    pub rows: Seq<RowView>,
    pub missing: Seq<Seq<Part>>,
}

/// One walk after the other.
pub open spec fn then_walk(a: Walk, b: Walk) -> Walk {
    Walk { rows: a.rows + b.rows, missing: a.missing + b.missing }
}

/// The walk over the directory `dir`.
pub open spec fn walk_dir(
    read: Map<Seq<Part>, Vec<Entry>>,
    expanded: Seq<Seq<Part>>,
    options: WalkOptions,
    dir: Seq<Part>,
    depth: nat,
) -> Walk
    decreases room(expanded, dir), 1int, 0nat,
{
    if read.contains_key(dir) {
        walk_entries(
            read,
            expanded,
            options,
            dir,
            depth,
            sorted_entries(entry_views(read[dir]@)),
        )
    } else {
        Walk { rows: Seq::empty(), missing: seq![dir] }
    }
}

/// The walk over some entries of the directory `dir`: a row for each whose kind is known, and
/// behind the row of an expanded directory the walk over it, one level deeper.
pub open spec fn walk_entries(
    read: Map<Seq<Part>, Vec<Entry>>,
    expanded: Seq<Seq<Part>>,
    options: WalkOptions,
    dir: Seq<Part>,
    depth: nat,
    entries: Seq<EntryView>,
) -> Walk
    decreases room(expanded, dir), 0int, entries.len(),
{
    if entries.len() == 0 {
        Walk { rows: Seq::empty(), missing: Seq::empty() }
    } else {
        let before = walk_entries(read, expanded, options, dir, depth, entries.drop_last());
        let e = entries.last();
        let row = row_of(dir, depth, e, options);
        if e.kind is None {
            before
        } else {
            let with_row = Walk { rows: before.rows.push(row), missing: before.missing };
            if row.is_dir && expanded.contains(row.path) {
                proof {
                    deepest_bounds(expanded, row.path);
                    row_lies_under(dir, depth, e, options);
                }
                then_walk(with_row, walk_dir(read, expanded, options, row.path, depth + 1))
            } else {
                with_row
            }
        }
    }
}

fn shows_as_dir(entry: &Entry, options: WalkOptions) -> (r: bool)
    ensures
        r == shown_as_dir(entry@, options),
{
    match entry.kind {
        Some(EntryKind::Directory) => true,
        Some(EntryKind::Symlink) => options.follow_symlinks && entry.leads_to_dir,
        _ => false,
    }
}

fn make_row(dir: &TreePath, depth: usize, entry: &Entry, options: WalkOptions) -> (r: Row)
    ensures
        r@ == row_of(dir@, depth as nat, entry@, options),
{
    let is_dir = shows_as_dir(entry, options);
    let mut path = dir.join_name(&entry.name);
    let mut name = lossy_text(&entry.name);
    if is_dir && options.flatten_dirs {
        let ghost base = path@;
        let ghost text = name@;
        let ghost chain = entry@.chain;
        assert(chain.take(0) =~= Seq::empty());
        let mut k: usize = 0;
        while k < entry.chain.len()
            invariant
                k <= entry.chain.len(),
                chain == entry@.chain,
                path@ == chain_path(base, chain.take(k as int)),
                name@ == chain_text(text, chain.take(k as int)),
            decreases entry.chain.len() - k,
        {
            assert(chain.take(k + 1).drop_last() =~= chain.take(k as int));
            assert(chain.take(k + 1).last() == entry.chain@[k as int]@);
            path = path.join_name(&entry.chain[k]);
            name.append("/");
            name.append(lossy_text(&entry.chain[k]).as_str());
            k = k + 1;
        }
        assert(chain.take(k as int) =~= chain);
    }
    Row { path, name, depth, is_dir }
}

/// Appends the rows of the directory `dir` and of the expanded directories below it, as far as
/// their entries have been read. Those that have not been read are appended to `missing`.
pub fn collect_rows(
    read: &PathMap<Vec<Entry>>,
    expanded: &PathSet,
    options: WalkOptions,
    dir: &TreePath,
    depth: usize,
    rows: &mut Vec<Row>,
    missing: &mut Vec<TreePath>,
)
    requires
        read.wf(),
        depth <= dir@.len(),
    ensures
        row_views(final(rows)@) == row_views(old(rows)@) + walk_dir(
            read@,
            expanded.listed(),
            options,
            dir@,
            depth as nat,
        ).rows,
        path_views(final(missing)@) == path_views(old(missing)@) + walk_dir(
            read@,
            expanded.listed(),
            options,
            dir@,
            depth as nat,
        ).missing,
    decreases room(expanded.listed(), dir@),
{
    let entries = match read.get_ref(dir) {
        Some(entries) => entries,
        None => {
            let ghost had = path_views(missing@);
            missing.push(dir.clone());
            assert(path_views(missing@) =~= had + seq![dir@]);
            assert(row_views(rows@) =~= row_views(old(rows)@) + Seq::<RowView>::empty());
            return ;
        },
    };
    let order = sort_entries(entries);
    let ghost all = sorted_entries(entry_views(entries@));
    let ghost rows0 = row_views(rows@);
    let ghost missing0 = path_views(missing@);
    assert(all.take(0) =~= Seq::empty());
    assert(rows0 + Seq::<RowView>::empty() =~= rows0);
    assert(missing0 + Seq::<Seq<Part>>::empty() =~= missing0);
    let mut n: usize = 0;
    while n < order.len()
        invariant
            n <= order.len(),
            read.wf(),
            depth <= dir@.len(),
            all == picked(entries@, order@),
            forall|i: int| 0 <= i < order.len() ==> (#[trigger] order@[i]) < entries.len(),
            row_views(rows@) == rows0 + walk_entries(
                read@,
                expanded.listed(),
                options,
                dir@,
                depth as nat,
                all.take(n as int),
            ).rows,
            path_views(missing@) == missing0 + walk_entries(
                read@,
                expanded.listed(),
                options,
                dir@,
                depth as nat,
                all.take(n as int),
            ).missing,
        decreases order.len() - n,
    {
        let entry = &entries[order[n]];
        let ghost before = walk_entries(
            read@,
            expanded.listed(),
            options,
            dir@,
            depth as nat,
            all.take(n as int),
        );
        assert(all.take(n + 1).drop_last() =~= all.take(n as int));
        assert(all.take(n + 1).last() == entry@);
        if entry.kind.is_some() {
            let row = make_row(dir, depth, entry, options);
            let path = row.path.clone();
            let is_dir = row.is_dir;
            let ghost view = row@;
            let ghost had = row_views(rows@);
            rows.push(row);
            assert(row_views(rows@) =~= had.push(view));
            assert(had.push(view) =~= rows0 + before.rows.push(view));
            if is_dir && expanded.contains(&path) {
                proof {
                    deepest_bounds(expanded.listed(), path@);
                    row_lies_under(dir@, depth as nat, entry@, options);
                }
                let ghost below = walk_dir(
                    read@,
                    expanded.listed(),
                    options,
                    path@,
                    (depth + 1) as nat,
                );
                assert(path@.len() == path.parts.len());
                collect_rows(read, expanded, options, &path, depth + 1, rows, missing);
                assert(row_views(rows@) =~= rows0 + (before.rows.push(view) + below.rows));
                assert(path_views(missing@) =~= missing0 + (before.missing + below.missing));
            }
        }
        n = n + 1;
    }
    assert(all.take(n as int) =~= all);
}

/// The row stands under an earlier row that shows an expanded directory, one level up.
pub open spec fn hangs(rows: Seq<RowView>, expanded: Seq<Seq<Part>>, i: int) -> bool {
    exists|j: int|
        0 <= j < i && {
            &&& (#[trigger] rows[j]).is_dir
            &&& expanded.contains(rows[j].path)
            &&& rows[j].depth + 1 == rows[i].depth
            &&& crate::path::strictly_under(rows[i].path, rows[j].path)
        }
}

/// What holds of the rows of a walk that starts at `dir`: they lie under it, and each that is
/// deeper than the first level hangs under an expanded directory.
pub open spec fn coherent(
    rows: Seq<RowView>,
    expanded: Seq<Seq<Part>>,
    dir: Seq<Part>,
    depth: nat,
) -> bool {
    forall|i: int|
        #![trigger rows[i]]
        0 <= i < rows.len() ==> {
            &&& crate::path::strictly_under(rows[i].path, dir)
            &&& rows[i].depth >= depth
            &&& rows[i].depth > depth ==> hangs(rows, expanded, i)
        }
}

/// Every row lies under the directory at which the walk starts, and a row below the first level
/// stands behind the row of an expanded directory of which it is a descendant, one level deeper.
pub proof fn walk_is_coherent(
    read: Map<Seq<Part>, Vec<Entry>>,
    expanded: Seq<Seq<Part>>,
    options: WalkOptions,
    dir: Seq<Part>,
    depth: nat,
)
    ensures
        coherent(walk_dir(read, expanded, options, dir, depth).rows, expanded, dir, depth),
    decreases room(expanded, dir), 1int, 0nat,
{
    if read.contains_key(dir) {
        lemma_entries_coherent(
            read,
            expanded,
            options,
            dir,
            depth,
            sorted_entries(entry_views(read[dir]@)),
        );
    }
}

proof fn lemma_entries_coherent(
    read: Map<Seq<Part>, Vec<Entry>>,
    expanded: Seq<Seq<Part>>,
    options: WalkOptions,
    dir: Seq<Part>,
    depth: nat,
    entries: Seq<EntryView>,
)
    ensures
        coherent(
            walk_entries(read, expanded, options, dir, depth, entries).rows,
            expanded,
            dir,
            depth,
        ),
    decreases room(expanded, dir), 0int, entries.len(),
{
    if entries.len() > 0 {
        let rest = entries.drop_last();
        lemma_entries_coherent(read, expanded, options, dir, depth, rest);
        let before = walk_entries(read, expanded, options, dir, depth, rest).rows;
        let e = entries.last();
        let row = row_of(dir, depth, e, options);
        row_lies_under(dir, depth, e, options);
        if e.kind is Some {
            let with_row = before.push(row);
            assert(coherent(with_row, expanded, dir, depth)) by {
                assert forall|i: int| #![trigger with_row[i]] 0 <= i < before.len() && with_row[i].depth
                    > depth implies hangs(with_row, expanded, i) by {
                    assert(before[i] == with_row[i]);
                    let j = choose|j: int|
                        0 <= j < i && {
                            &&& (#[trigger] before[j]).is_dir
                            &&& expanded.contains(before[j].path)
                            &&& before[j].depth + 1 == before[i].depth
                            &&& crate::path::strictly_under(before[i].path, before[j].path)
                        };
                    assert(with_row[j] == before[j]);
                }
                assert forall|i: int| #![trigger with_row[i]] 0 <= i < with_row.len() implies {
                    &&& crate::path::strictly_under(with_row[i].path, dir)
                    &&& with_row[i].depth >= depth
                } by {
                    if i < before.len() {
                        assert(before[i] == with_row[i]);
                    }
                }
            }
            if row.is_dir && expanded.contains(row.path) {
                deepest_bounds(expanded, row.path);
                walk_is_coherent(read, expanded, options, row.path, depth + 1);
                let below = walk_dir(read, expanded, options, row.path, depth + 1).rows;
                let all = with_row + below;
                let n = before.len() as int;
                assert(all[n] == row);
                assert forall|i: int| #![trigger all[i]] 0 <= i < all.len() implies {
                    &&& crate::path::strictly_under(all[i].path, dir)
                    &&& all[i].depth >= depth
                    &&& all[i].depth > depth ==> hangs(all, expanded, i)
                } by {
                    if i <= n {
                        assert(all[i] == with_row[i]);
                        if all[i].depth > depth {
                            assert(hangs(with_row, expanded, i));
                            let j = choose|j: int|
                                0 <= j < i && {
                                    &&& (#[trigger] with_row[j]).is_dir
                                    &&& expanded.contains(with_row[j].path)
                                    &&& with_row[j].depth + 1 == with_row[i].depth
                                    &&& crate::path::strictly_under(
                                        with_row[i].path,
                                        with_row[j].path,
                                    )
                                };
                            assert(all[j] == with_row[j]);
                        }
                    } else {
                        let m = i - n - 1;
                        assert(all[i] == below[m]);
                        crate::path::under_transitive(below[m].path, row.path, dir);
                        assert(below[m].path.len() > dir.len()) by {
                            assert(crate::path::under(below[m].path, row.path));
                        }
                        if below[m].depth > depth + 1 {
                            let j = choose|j: int|
                                0 <= j < m && {
                                    &&& (#[trigger] below[j]).is_dir
                                    &&& expanded.contains(below[j].path)
                                    &&& below[j].depth + 1 == below[m].depth
                                    &&& crate::path::strictly_under(below[m].path, below[j].path)
                                };
                            assert(all[j + n + 1] == below[j]);
                        }
                    }
                }
            }
        }
    }
}

/// What a walk misses has not been read, and is the directory at which the walk starts or one that
/// is expanded: reading what is missing never starts over.
pub proof fn missing_is_unread(
    read: Map<Seq<Part>, Vec<Entry>>,
    expanded: Seq<Seq<Part>>,
    options: WalkOptions,
    dir: Seq<Part>,
    depth: nat,
)
    ensures
        forall|p: Seq<Part>| #[trigger]
            walk_dir(read, expanded, options, dir, depth).missing.contains(p)
                ==> !read.contains_key(p) && (p == dir || expanded.contains(p)),
    decreases room(expanded, dir), 1int, 0nat,
{
    let missing = walk_dir(read, expanded, options, dir, depth).missing;
    if read.contains_key(dir) {
        let entries = sorted_entries(entry_views(read[dir]@));
        lemma_entries_missing(read, expanded, options, dir, depth, entries);
        assert(missing == walk_entries(read, expanded, options, dir, depth, entries).missing);
    } else {
        assert(missing == seq![dir]);
        assert forall|p: Seq<Part>| #[trigger] missing.contains(p) implies p == dir by {}
    }
}

proof fn lemma_entries_missing(
    read: Map<Seq<Part>, Vec<Entry>>,
    expanded: Seq<Seq<Part>>,
    options: WalkOptions,
    dir: Seq<Part>,
    depth: nat,
    entries: Seq<EntryView>,
)
    ensures
        forall|p: Seq<Part>| #[trigger]
            walk_entries(read, expanded, options, dir, depth, entries).missing.contains(p)
                ==> !read.contains_key(p) && expanded.contains(p),
    decreases room(expanded, dir), 0int, entries.len(),
{
    if entries.len() > 0 {
        let rest = entries.drop_last();
        lemma_entries_missing(read, expanded, options, dir, depth, rest);
        let before = walk_entries(read, expanded, options, dir, depth, rest).missing;
        let e = entries.last();
        let row = row_of(dir, depth, e, options);
        if e.kind is Some && row.is_dir && expanded.contains(row.path) {
            deepest_bounds(expanded, row.path);
            row_lies_under(dir, depth, e, options);
            missing_is_unread(read, expanded, options, row.path, depth + 1);
            let below = walk_dir(read, expanded, options, row.path, depth + 1).missing;
            let all = walk_entries(read, expanded, options, dir, depth, entries).missing;
            assert(all == before + below);
            assert forall|p: Seq<Part>| #[trigger] all.contains(p) implies !read.contains_key(p)
                && expanded.contains(p) by {
                let i = choose|i: int| 0 <= i < all.len() && all[i] == p;
                if i < before.len() {
                    assert(before[i] == p);
                    assert(before.contains(p));
                } else {
                    assert(below[i - before.len()] == p);
                    assert(below.contains(p));
                }
            }
        }
    }
}

/// Which rows there are depends on which directories are expanded, not on the order in which they
/// are held.
pub proof fn walk_depends_on_members(
    read: Map<Seq<Part>, Vec<Entry>>,
    a: Seq<Seq<Part>>,
    b: Seq<Seq<Part>>,
    options: WalkOptions,
    dir: Seq<Part>,
    depth: nat,
)
    requires
        forall|p: Seq<Part>| #[trigger] a.contains(p) <==> b.contains(p),
    ensures
        walk_dir(read, a, options, dir, depth) == walk_dir(read, b, options, dir, depth),
    decreases room(a, dir), 1int, 0nat,
{
    if read.contains_key(dir) {
        lemma_entries_depend_on_members(
            read,
            a,
            b,
            options,
            dir,
            depth,
            sorted_entries(entry_views(read[dir]@)),
        );
    }
}

proof fn lemma_entries_depend_on_members(
    read: Map<Seq<Part>, Vec<Entry>>,
    a: Seq<Seq<Part>>,
    b: Seq<Seq<Part>>,
    options: WalkOptions,
    dir: Seq<Part>,
    depth: nat,
    entries: Seq<EntryView>,
)
    requires
        forall|p: Seq<Part>| #[trigger] a.contains(p) <==> b.contains(p),
    ensures
        walk_entries(read, a, options, dir, depth, entries) == walk_entries(
            read,
            b,
            options,
            dir,
            depth,
            entries,
        ),
    decreases room(a, dir), 0int, entries.len(),
{
    if entries.len() > 0 {
        let e = entries.last();
        let row = row_of(dir, depth, e, options);
        lemma_entries_depend_on_members(read, a, b, options, dir, depth, entries.drop_last());
        assert(a.contains(row.path) <==> b.contains(row.path));
        if e.kind is Some && row.is_dir && a.contains(row.path) {
            deepest_bounds(a, row.path);
            row_lies_under(dir, depth, e, options);
            walk_depends_on_members(read, a, b, options, row.path, depth + 1);
        }
    }
}

/// An entry met while looking for a directory's only child.
#[derive(Debug)]
pub struct Child {
    pub name: Vec<u8>,
    /// Whether it is a directory, where that could be found out.
    pub is_dir: Option<bool>,
}

/// The name is hidden: it starts with a dot.
pub open spec fn hidden_name(name: Seq<u8>) -> bool {
    name.len() > 0 && name[0] == 46
}

/// The entries that are shown.
pub open spec fn visible_children(children: Seq<Child>, show_hidden: bool) -> Seq<Child>
    decreases children.len(),
{
    if children.len() == 0 {
        Seq::empty()
    } else {
        let before = visible_children(children.drop_last(), show_hidden);
        if show_hidden || !hidden_name(children.last().name@) {
            before.push(children.last())
        } else {
            before
        }
    }
}

/// The entries of a directory, by value, where they could be read.
pub open spec fn children_view(children: Option<Vec<Child>>) -> Option<Seq<Child>> {
    match children {
        Some(children) => Some(children@),
        None => None,
    }
}

/// The name of the one directory among the entries of a directory, where nothing else is shown of
/// them.
pub open spec fn only_directory(children: Option<Seq<Child>>, show_hidden: bool) -> Option<
    Seq<u8>,
> {
    match children {
        Some(children) => {
            let visible = visible_children(children, show_hidden);
            if visible.len() == 1 && visible[0].is_dir == Some(true) {
                Some(visible[0].name@)
            } else {
                None
            }
        },
        None => None,
    }
}

/// The one directory that `path` shows, where it shows nothing else. `children` are the entries of
/// `path`, where they could be read.
pub fn single_visible_directory(
    path: &TreePath,
    children: &Option<Vec<Child>>,
    show_hidden: bool,
) -> (r: Option<TreePath>)
    ensures
        match only_directory(children_view(*children), show_hidden) {
            Some(name) => r is Some && r->0@ == path@.push(Part::Normal(name)),
            None => r is None,
        },
{
    let children = match children {
        Some(children) => children,
        None => {
            return None;
        },
    };
    let mut seen: usize = 0;
    let mut only: usize = 0;
    let mut i: usize = 0;
    assert(children@.take(0) =~= Seq::empty());
    while i < children.len()
        invariant
            i <= children.len(),
            seen <= i,
            seen == visible_children(children@.take(i as int), show_hidden).len(),
            seen > 0 ==> only < i && visible_children(children@.take(i as int), show_hidden)[0]
                == children@[only as int],
        decreases children.len() - i,
    {
        assert(children@.take(i + 1).drop_last() =~= children@.take(i as int));
        let child = &children[i];
        let hidden = child.name.len() > 0 && child.name[0] == 46;
        if show_hidden || !hidden {
            if seen == 0 {
                only = i;
            }
            seen = seen + 1;
        }
        i = i + 1;
    }
    assert(children@.take(i as int) =~= children@);
    if seen != 1 {
        return None;
    }
    match children[only].is_dir {
        Some(true) => Some(path.join_name(&children[only].name)),
        _ => None,
    }
}

} // verus!
