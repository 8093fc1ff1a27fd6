//! Paths as sequences of components.
//!
//! A path is what the platform's parser makes of its text: an optional prefix such as a drive, an
//! optional root or leading `.`, followed by names and `..`. All operations are lexical; none of
//! them looks at the disk.

use vstd::prelude::*;

use crate::order::{agree, byte_lt, bytes_before, lex_before, lex_lt, strict_total, values, Ordered};

verus! {

/// The forms of a prefix, which only Windows has.
#[derive(Debug, Clone, Copy, PartialEq, Eq, Structural)]
pub enum PrefixKind {
    /// `\\?\name`
    Verbatim,
    /// `\\?\UNC\name\share`
    VerbatimUnc,
    /// `\\?\C:`
    VerbatimDisk,
    /// `\\.\name`
    DeviceNs,
    /// `\\name\share`
    Unc,
    /// `C:`
    Disk,
}

/// What stands before the root of a path on Windows.
#[derive(Debug, PartialEq, Eq)]
pub struct Prefix {
    pub kind: PrefixKind,
    /// The name, the server or the letter of the drive in upper case.
    pub name: Vec<u8>,
    /// The share, where the kind has one.
    pub share: Vec<u8>,
}

/// One component of a path. A name is held in the platform's own encoding, which need not be UTF-8.
#[derive(Debug, PartialEq, Eq)]
pub enum Component {
    Prefix(Prefix),
    RootDir,
    CurDir,
    ParentDir,
    Normal(Vec<u8>),
}

/// The mathematical value of a [`Prefix`].
pub struct PrefixView {
    pub kind: PrefixKind,
    pub name: Seq<u8>,
    pub share: Seq<u8>,
}

/// The mathematical value of a [`Component`].
pub enum Part {
    Prefix(PrefixView),
    RootDir,
    CurDir,
    ParentDir,
    Normal(Seq<u8>),
}

impl View for Prefix {
    type V = PrefixView;

    open spec fn view(&self) -> PrefixView {
        PrefixView { kind: self.kind, name: self.name@, share: self.share@ }
    }
}

impl View for Component {
    type V = Part;

    open spec fn view(&self) -> Part {
        match self {
            Component::Prefix(prefix) => Part::Prefix(prefix@),
            Component::RootDir => Part::RootDir,
            Component::CurDir => Part::CurDir,
            Component::ParentDir => Part::ParentDir,
            Component::Normal(name) => Part::Normal(name@),
        }
    }
}

/// The place of a kind in the order of prefixes.
pub open spec fn prefix_rank(kind: PrefixKind) -> int {
    match kind {
        PrefixKind::Verbatim => 0,
        PrefixKind::VerbatimUnc => 1,
        PrefixKind::VerbatimDisk => 2,
        PrefixKind::DeviceNs => 3,
        PrefixKind::Unc => 4,
        PrefixKind::Disk => 5,
    }
}

/// The order of prefixes: by kind, then by name, then by share.
pub open spec fn prefix_lt(p: PrefixView, q: PrefixView) -> bool {
    if p.kind != q.kind {
        prefix_rank(p.kind) < prefix_rank(q.kind)
    } else if p.name != q.name {
        lex_lt(p.name, q.name, byte_lt())
    } else {
        lex_lt(p.share, q.share, byte_lt())
    }
}

/// The place of a component's kind in the order of components.
pub open spec fn part_rank(p: Part) -> int {
    match p {
        Part::Prefix(_) => 0,
        Part::RootDir => 1,
        Part::CurDir => 2,
        Part::ParentDir => 3,
        Part::Normal(_) => 4,
    }
}

/// The order of components: by kind, and among themselves prefixes by their order and names by
/// their bytes.
pub open spec fn part_lt() -> spec_fn(Part, Part) -> bool {
    |p: Part, q: Part|
        match (p, q) {
            (Part::Prefix(a), Part::Prefix(b)) => prefix_lt(a, b),
            (Part::Normal(a), Part::Normal(b)) => lex_lt(a, b, byte_lt()),
            _ => part_rank(p) < part_rank(q),
        }
}

proof fn lemma_prefix_irreflexive(p: PrefixView)
    ensures
        !prefix_lt(p, p),
{
    crate::order::lex_irreflexive(p.share, byte_lt());
}

proof fn lemma_prefix_transitive(p: PrefixView, q: PrefixView, r: PrefixView)
    requires
        prefix_lt(p, q),
        prefix_lt(q, r),
    ensures
        prefix_lt(p, r),
{
    if p.kind == q.kind && q.kind == r.kind {
        if p.name != q.name && q.name != r.name {
            crate::order::lex_transitive(p.name, q.name, r.name, byte_lt());
            crate::order::lex_irreflexive(p.name, byte_lt());
        }
        if p.name == q.name && q.name == r.name {
            crate::order::lex_transitive(p.share, q.share, r.share, byte_lt());
        }
    }
}

proof fn lemma_prefix_connected(p: PrefixView, q: PrefixView)
    ensures
        p == q || prefix_lt(p, q) || prefix_lt(q, p),
{
    crate::order::lex_connected(p.name, q.name, byte_lt());
    crate::order::lex_connected(p.share, q.share, byte_lt());
}

/// The order of components is a strict total order.
pub proof fn part_order_total()
    ensures
        strict_total(part_lt()),
{
    let lt = part_lt();
    assert forall|x: Part| !#[trigger] lt(x, x) by {
        if let Part::Normal(a) = x {
            crate::order::lex_irreflexive(a, byte_lt());
        }
        if let Part::Prefix(a) = x {
            lemma_prefix_irreflexive(a);
        }
    }
    assert forall|x: Part, y: Part, z: Part| #[trigger] lt(x, y) && #[trigger] lt(y, z) implies lt(
        x,
        z,
    ) by {
        if let (Part::Normal(a), Part::Normal(b), Part::Normal(c)) = (x, y, z) {
            crate::order::lex_transitive(a, b, c, byte_lt());
        }
        if let (Part::Prefix(a), Part::Prefix(b), Part::Prefix(c)) = (x, y, z) {
            lemma_prefix_transitive(a, b, c);
        }
    }
    assert forall|x: Part, y: Part| x == y || #[trigger] lt(x, y) || lt(y, x) by {
        if let (Part::Normal(a), Part::Normal(b)) = (x, y) {
            crate::order::lex_connected(a, b, byte_lt());
        }
        if let (Part::Prefix(a), Part::Prefix(b)) = (x, y) {
            lemma_prefix_connected(a, b);
        }
    }
}

impl Prefix {
    fn rank(&self) -> (r: u8)
        ensures
            r == prefix_rank(self.kind),
    {
        match self.kind {
            PrefixKind::Verbatim => 0,
            PrefixKind::VerbatimUnc => 1,
            PrefixKind::VerbatimDisk => 2,
            PrefixKind::DeviceNs => 3,
            PrefixKind::Unc => 4,
            PrefixKind::Disk => 5,
        }
    }

    /// The two prefixes are equal.
    pub fn same(&self, other: &Prefix) -> (r: bool)
        ensures
            r == (self@ == other@),
    {
        self.kind == other.kind && bytes_same(&self.name, &other.name) && bytes_same(
            &self.share,
            &other.share,
        )
    }

    /// This prefix comes strictly before the other.
    pub fn before(&self, other: &Prefix) -> (r: bool)
        ensures
            r == prefix_lt(self@, other@),
    {
        if self.kind != other.kind {
            self.rank() < other.rank()
        } else if !bytes_same(&self.name, &other.name) {
            bytes_before(&self.name, &other.name)
        } else {
            bytes_before(&self.share, &other.share)
        }
    }

    /// The prefix keeps what follows it from being understood as `.` and `..`.
    pub fn is_verbatim(&self) -> (r: bool)
        ensures
            r == verbatim_kind(self.kind),
    {
        match self.kind {
            PrefixKind::Verbatim | PrefixKind::VerbatimUnc | PrefixKind::VerbatimDisk => true,
            _ => false,
        }
    }
}

impl Clone for Prefix {
    fn clone(&self) -> (r: Self)
        ensures
            r@ == self@,
    {
        Prefix { kind: self.kind, name: copy_bytes(&self.name), share: copy_bytes(&self.share) }
    }
}

impl Component {
    fn rank(&self) -> (r: u8)
        ensures
            r == part_rank(self@),
    {
        match self {
            Component::Prefix(_) => 0,
            Component::RootDir => 1,
            Component::CurDir => 2,
            Component::ParentDir => 3,
            Component::Normal(_) => 4,
        }
    }
}

impl Ordered for Component {
    type Value = Part;

    open spec fn value(&self) -> Part {
        self@
    }

    open spec fn lt() -> spec_fn(Part, Part) -> bool {
        part_lt()
    }

    proof fn irreflexive(x: Part) {
        part_order_total();
    }

    fn same(&self, other: &Component) -> (r: bool) {
        match (self, other) {
            (Component::Prefix(a), Component::Prefix(b)) => a.same(b),
            (Component::RootDir, Component::RootDir) => true,
            (Component::CurDir, Component::CurDir) => true,
            (Component::ParentDir, Component::ParentDir) => true,
            (Component::Normal(a), Component::Normal(b)) => bytes_same(a, b),
            _ => false,
        }
    }

    fn before(&self, other: &Component) -> (r: bool) {
        match (self, other) {
            (Component::Prefix(a), Component::Prefix(b)) => a.before(b),
            (Component::Normal(a), Component::Normal(b)) => bytes_before(a, b),
            _ => self.rank() < other.rank(),
        }
    }
}

impl Clone for Component {
    fn clone(&self) -> (r: Self)
        ensures
            r@ == self@,
    {
        match self {
            Component::Prefix(prefix) => Component::Prefix(prefix.clone()),
            Component::RootDir => Component::RootDir,
            Component::CurDir => Component::CurDir,
            Component::ParentDir => Component::ParentDir,
            Component::Normal(name) => Component::Normal(copy_bytes(name)),
        }
    }
}

/// The two byte strings are equal.
pub fn bytes_same(a: &Vec<u8>, b: &Vec<u8>) -> (r: bool)
    ensures
        r == (a@ == b@),
{
    if a.len() != b.len() {
        return false;
    }
    let mut i: usize = 0;
    while i < a.len()
        invariant
            i <= a.len(),
            a.len() == b.len(),
            forall|j: int| 0 <= j < i ==> a@[j] == b@[j],
        decreases a.len() - i,
    {
        if a[i] != b[i] {
            return false;
        }
        i = i + 1;
    }
    assert(a@ =~= b@);
    true
}

/// A copy of a byte string.
pub fn copy_bytes(bytes: &Vec<u8>) -> (r: Vec<u8>)
    ensures
        r@ == bytes@,
{
    let mut out: Vec<u8> = Vec::new();
    let mut i: usize = 0;
    while i < bytes.len()
        invariant
            i <= bytes.len(),
            out@ == bytes@.take(i as int),
        decreases bytes.len() - i,
    {
        out.push(bytes[i]);
        i = i + 1;
        assert(out@ =~= bytes@.take(i as int));
    }
    assert(out@ =~= bytes@);
    out
}

/// A path, as the sequence of its components.
#[derive(Debug, PartialEq, Eq)]
pub struct TreePath {
    pub parts: Vec<Component>,
}

impl View for TreePath {
    type V = Seq<Part>;

    open spec fn view(&self) -> Seq<Part> {
        self.parts@.map_values(|c: Component| c@)
    }
}

/// A path by value, where there is one.
pub open spec fn path_of(path: Option<TreePath>) -> Option<Seq<Part>> {
    match path {
        Some(path) => Some(path@),
        None => None,
    }
}

/// `base` is `path` itself or one of its ancestors: its components begin those of `path`.
pub open spec fn under(path: Seq<Part>, base: Seq<Part>) -> bool {
    base.is_prefix_of(path)
}

/// `base` is a proper ancestor of `path`.
pub open spec fn strictly_under(path: Seq<Part>, base: Seq<Part>) -> bool {
    under(path, base) && path != base
}

/// The component belongs to where a path starts: it is a prefix or a root.
pub open spec fn is_anchor(part: Part) -> bool {
    part is Prefix || part is RootDir
}

/// The path without its last component. A path that ends with its root or its prefix has no parent,
/// and neither has the empty path.
pub open spec fn parent_of(path: Seq<Part>) -> Option<Seq<Part>> {
    if path.len() == 0 || is_anchor(path.last()) {
        None
    } else {
        Some(path.drop_last())
    }
}

/// The last component, where that is a name.
pub open spec fn file_name_of(path: Seq<Part>) -> Option<Seq<u8>> {
    if path.len() == 0 {
        None
    } else {
        match path.last() {
            Part::Normal(name) => Some(name),
            _ => None,
        }
    }
}

/// The path starts at a root.
pub open spec fn is_rooted(path: Seq<Part>) -> bool {
    path.len() > 0 && path[0] is RootDir
}

/// The path starts with a prefix.
pub open spec fn has_prefix(path: Seq<Part>) -> bool {
    path.len() > 0 && path[0] is Prefix
}

/// Prefixes of this kind keep what follows them from being understood as `.` and `..`.
pub open spec fn verbatim_kind(kind: PrefixKind) -> bool {
    kind is Verbatim || kind is VerbatimUnc || kind is VerbatimDisk
}

/// The path starts with a verbatim prefix.
pub open spec fn is_verbatim(path: Seq<Part>) -> bool {
    &&& path.len() > 0
    &&& path[0] matches Part::Prefix(prefix)
    &&& verbatim_kind(prefix.kind)
}

/// `a` is met when the parents of `path` are followed one after the other.
pub open spec fn is_ancestor(a: Seq<Part>, path: Seq<Part>) -> bool {
    strictly_under(path, a) && forall|k: int|
        a.len() <= k < path.len() ==> !is_anchor(#[trigger] path[k])
}

/// `k` is the directory reached, or one still to be reached above it.
pub open spec fn still_above(reached: Option<TreePath>, k: Seq<Part>) -> bool {
    reached matches Some(d) && (k == d@ || is_ancestor(k, d@))
}

/// `base` with one more component behind it, where nothing may be left to be understood: a root
/// leads back to the prefix, `.` means nothing, and `..` takes a name away.
pub open spec fn settled_part(base: Seq<Part>, part: Part) -> Seq<Part> {
    match part {
        Part::RootDir => base.take(1).push(part),
        Part::CurDir => base,
        Part::ParentDir => if base.len() > 0 && base.last() is Normal {
            base.drop_last()
        } else {
            base
        },
        _ => base.push(part),
    }
}

/// `base` with the components of `rest` behind it, one after the other, where nothing may be left to
/// be understood.
pub open spec fn settled(base: Seq<Part>, rest: Seq<Part>) -> Seq<Part>
    decreases rest.len(),
{
    if rest.len() == 0 {
        base
    } else {
        settled_part(settled(base, rest.drop_last()), rest.last())
    }
}

/// `rest` taken relative to `base`. A `rest` with a prefix stands for itself, and a rooted one keeps
/// nothing of `base` but its prefix. Behind a verbatim prefix `.` and `..` are resolved; elsewhere a
/// leading `.` means nothing behind a component other than the prefix.
pub open spec fn joined(base: Seq<Part>, rest: Seq<Part>) -> Seq<Part> {
    if has_prefix(rest) {
        rest
    } else if is_verbatim(base) {
        settled(base, rest)
    } else if is_rooted(rest) {
        if has_prefix(base) {
            base.take(1) + rest
        } else {
            rest
        }
    } else if rest.len() > 0 && rest[0] is CurDir && base.len() > (if has_prefix(base) {
        1int
    } else {
        0
    }) {
        base + rest.skip(1)
    } else {
        base + rest
    }
}

/// The order of paths: component by component, an ancestor before its descendants.
pub open spec fn path_lt(a: Seq<Part>, b: Seq<Part>) -> bool {
    lex_lt(a, b, part_lt())
}

/// No path comes strictly before itself.
pub proof fn path_lt_irreflexive(a: Seq<Part>)
    ensures
        !path_lt(a, a),
{
    part_order_total();
    crate::order::lex_irreflexive(a, part_lt());
}

/// The order of paths is transitive.
pub proof fn path_lt_transitive(a: Seq<Part>, b: Seq<Part>, c: Seq<Part>)
    requires
        path_lt(a, b),
        path_lt(b, c),
    ensures
        path_lt(a, c),
{
    part_order_total();
    crate::order::lex_transitive(a, b, c, part_lt());
}

/// Of two different paths one comes strictly before the other.
pub proof fn path_lt_connected(a: Seq<Part>, b: Seq<Part>)
    ensures
        a == b || path_lt(a, b) || path_lt(b, a),
{
    part_order_total();
    crate::order::lex_connected(a, b, part_lt());
}

/// An ancestor comes strictly before its descendants.
pub proof fn path_lt_ancestor(a: Seq<Part>, b: Seq<Part>)
    requires
        strictly_under(b, a),
    ensures
        path_lt(a, b),
{
    crate::order::lex_prefix(a, b, part_lt());
}

/// Being under a path is transitive.
pub proof fn under_transitive(a: Seq<Part>, b: Seq<Part>, c: Seq<Part>)
    requires
        under(a, b),
        under(b, c),
    ensures
        under(a, c),
{
    assert(a.subrange(0, c.len() as int) =~= b.subrange(0, c.len() as int));
}

/// A name joined to a path lies strictly under it, has it as its parent, and is its file name.
pub proof fn join_name_extends(base: Seq<Part>, name: Seq<u8>)
    ensures
        joined(base, seq![Part::Normal(name)]) == base.push(Part::Normal(name)),
        strictly_under(base.push(Part::Normal(name)), base),
        parent_of(base.push(Part::Normal(name))) == Some(base),
        file_name_of(base.push(Part::Normal(name))) == Some(name),
{
    let p = base.push(Part::Normal(name));
    let rest = seq![Part::Normal(name)];
    assert(rest.drop_last() =~= Seq::empty());
    assert(settled(base, rest.drop_last()) == base);
    assert(settled(base, rest) == p);
    assert(base + rest =~= p);
    assert(p.subrange(0, base.len() as int) =~= base);
    assert(p.drop_last() =~= base);
    assert(p.len() == base.len() + 1);
    assert(p.last() == Part::Normal(name));
}

/// What is joined to a path lies under it, where it is neither rooted nor has a prefix, and nothing
/// has to be resolved.
pub proof fn join_stays_under(base: Seq<Part>, rest: Seq<Part>)
    requires
        !is_rooted(rest),
        !has_prefix(rest),
        !is_verbatim(base),
    ensures
        under(joined(base, rest), base),
{
    assert(joined(base, rest).subrange(0, base.len() as int) =~= base);
}

/// What is joined to a path with a prefix and has none itself keeps that prefix.
pub proof fn join_keeps_the_prefix(base: Seq<Part>, rest: Seq<Part>)
    requires
        has_prefix(base),
        !has_prefix(rest),
    ensures
        joined(base, rest).len() > 0,
        joined(base, rest)[0] == base[0],
{
    lemma_settled_prefix(base, rest);
}

proof fn lemma_settled_prefix(base: Seq<Part>, rest: Seq<Part>)
    requires
        has_prefix(base),
    ensures
        settled(base, rest).len() > 0,
        settled(base, rest)[0] == base[0],
    decreases rest.len(),
{
    if rest.len() > 0 {
        lemma_settled_prefix(base, rest.drop_last());
    }
}

/// The ancestors of a path are its parent and the ancestors of its parent.
pub proof fn ancestors_by_parent(a: Seq<Part>, path: Seq<Part>)
    ensures
        is_ancestor(a, path) <==> (parent_of(path) matches Some(q) && (a == q || is_ancestor(
            a,
            q,
        ))),
{
    let q = path.drop_last();
    if parent_of(path) is Some {
        assert(path.subrange(0, q.len() as int) =~= q);
        if is_ancestor(a, path) {
            parent_stays_under(path, a);
            assert forall|k: int| a.len() <= k < q.len() implies !is_anchor(#[trigger] q[k]) by {
                assert(q[k] == path[k]);
            }
        }
        if a == q || is_ancestor(a, q) {
            under_transitive(path, q, a);
            assert(path.len() > a.len());
            assert forall|k: int| a.len() <= k < path.len() implies !is_anchor(
                #[trigger] path[k],
            ) by {
                if k < q.len() {
                    assert(q[k] == path[k]);
                }
            }
        }
    } else if is_ancestor(a, path) {
        if a.len() == path.len() {
            assert(path.subrange(0, a.len() as int) =~= path);
        }
        assert(is_anchor(path[path.len() - 1]));
    }
}

/// An ancestor of an ancestor is an ancestor.
pub proof fn ancestor_transitive(a: Seq<Part>, b: Seq<Part>, c: Seq<Part>)
    requires
        is_ancestor(a, b),
        is_ancestor(b, c),
    ensures
        is_ancestor(a, c),
{
    under_transitive(c, b, a);
    if a == c {
        assert(b.len() <= c.len() && a.len() <= b.len());
        assert(c.subrange(0, b.len() as int) =~= c);
    }
    assert forall|k: int| a.len() <= k < c.len() implies !is_anchor(#[trigger] c[k]) by {
        if k < b.len() {
            assert(c.subrange(0, b.len() as int)[k] == c[k]);
            assert(b[k] == c[k]);
        }
    }
}

/// What lies strictly under `base` has, with its last component taken away, still `base` above it.
pub proof fn parent_stays_under(path: Seq<Part>, base: Seq<Part>)
    requires
        strictly_under(path, base),
    ensures
        under(path.drop_last(), base),
{
    if base.len() == path.len() {
        assert(base =~= path);
    }
    assert(path.drop_last().subrange(0, base.len() as int) =~= path.subrange(0, base.len() as int));
}

impl TreePath {
    /// The path with these components.
    pub fn new(parts: Vec<Component>) -> (r: TreePath)
        ensures
            r.parts == parts,
    {
        TreePath { parts }
    }

    /// The two paths are equal, component by component.
    pub fn same(&self, other: &TreePath) -> (r: bool)
        ensures
            r == (self@ == other@),
    {
        let r = self.parts.len() == other.parts.len() && self.starts_with(other);
        proof {
            if r {
                assert(self@.subrange(0, other@.len() as int) =~= self@);
            } else if self@ == other@ {
                assert(self@.len() == other@.len());
                assert(self@.subrange(0, other@.len() as int) =~= self@);
            }
        }
        r
    }

    /// `base` is this path or one of its ancestors.
    pub fn starts_with(&self, base: &TreePath) -> (r: bool)
        ensures
            r == under(self@, base@),
    {
        if base.parts.len() > self.parts.len() {
            return false;
        }
        let mut i: usize = 0;
        while i < base.parts.len()
            invariant
                i <= base.parts.len() <= self.parts.len(),
                agree(self@, base@, i as int),
            decreases base.parts.len() - i,
        {
            if !self.parts[i].same(&base.parts[i]) {
                proof {
                    assert(self@[i as int] != base@[i as int]);
                    assert(self@.subrange(0, base@.len() as int)[i as int] == self@[i as int]);
                }
                return false;
            }
            i = i + 1;
        }
        assert(self@.subrange(0, base@.len() as int) =~= base@);
        true
    }

    /// The path without its last component.
    pub fn parent(&self) -> (r: Option<TreePath>)
        ensures
            match r {
                Some(p) => parent_of(self@) == Some(p@),
                None => parent_of(self@) is None,
            },
    {
        let n = self.parts.len();
        if n == 0 {
            return None;
        }
        assert(self@.last() == self.parts@[n - 1]@);
        match self.parts[n - 1] {
            Component::Prefix(_) | Component::RootDir => {
                return None;
            },
            _ => {},
        }
        let p = self.first(n - 1);
        assert(p@ =~= self@.drop_last());
        Some(p)
    }

    fn first(&self, n: usize) -> (r: TreePath)
        requires
            n <= self@.len(),
        ensures
            r@ == self@.take(n as int),
    {
        let mut parts: Vec<Component> = Vec::new();
        let mut i: usize = 0;
        while i < n
            invariant
                i <= n <= self.parts.len(),
                parts.len() == i,
                forall|j: int| 0 <= j < i ==> parts@[j]@ == self@[j],
            decreases n - i,
        {
            parts.push(self.parts[i].clone());
            i = i + 1;
        }
        let r = TreePath { parts };
        assert(r@ =~= self@.take(n as int));
        r
    }

    /// The last component, where that is a name.
    pub fn file_name(&self) -> (r: Option<Vec<u8>>)
        ensures
            match r {
                Some(name) => file_name_of(self@) == Some(name@),
                None => file_name_of(self@) is None,
            },
    {
        let n = self.parts.len();
        if n == 0 {
            return None;
        }
        assert(self@.last() == self.parts@[n - 1]@);
        match &self.parts[n - 1] {
            Component::Normal(name) => Some(copy_bytes(name)),
            _ => None,
        }
    }

    fn prefixed(&self) -> (r: bool)
        ensures
            r == has_prefix(self@),
    {
        if self.parts.len() == 0 {
            return false;
        }
        match self.parts[0] {
            Component::Prefix(_) => true,
            _ => false,
        }
    }

    fn verbatim(&self) -> (r: bool)
        ensures
            r == is_verbatim(self@),
    {
        if self.parts.len() == 0 {
            return false;
        }
        match &self.parts[0] {
            Component::Prefix(prefix) => prefix.is_verbatim(),
            _ => false,
        }
    }

    /// Puts the components of `rest` from a position on behind this path.
    fn extend(&mut self, rest: &TreePath, from: usize)
        requires
            from <= rest@.len(),
        ensures
            final(self)@ == old(self)@ + rest@.skip(from as int),
    {
        let ghost start = self@;
        let ghost tail = rest@.skip(from as int);
        assert(self@ =~= start + tail.take(0));
        let mut i: usize = from;
        while i < rest.parts.len()
            invariant
                from <= i <= rest.parts.len(),
                tail == rest@.skip(from as int),
                self@ == start + tail.take(i - from),
            decreases rest.parts.len() - i,
        {
            let ghost before = self@;
            self.parts.push(rest.parts[i].clone());
            assert(self@ =~= before.push(rest@[i as int]));
            i = i + 1;
            assert(tail.take(i - from) =~= tail.take(i - 1 - from).push(rest@[i - 1]));
            assert(self@ =~= start + tail.take(i - from));
        }
        assert(tail.take(i - from) =~= tail);
    }

    /// Puts the components of `rest` behind this path, one after the other, and resolves them.
    fn settle(&mut self, rest: &TreePath)
        requires
            old(self)@.len() > 0,
            has_prefix(old(self)@),
        ensures
            final(self)@ == settled(old(self)@, rest@),
    {
        let ghost start = self@;
        let mut i: usize = 0;
        assert(rest@.take(0) =~= Seq::empty());
        while i < rest.parts.len()
            invariant
                i <= rest.parts.len(),
                has_prefix(start),
                self@ == settled(start, rest@.take(i as int)),
            decreases rest.parts.len() - i,
        {
            let ghost before = self@;
            proof {
                assert(rest@.take(i + 1).drop_last() =~= rest@.take(i as int));
                assert(rest@.take(i + 1).last() == rest.parts@[i as int]@);
                lemma_settled_prefix(start, rest@.take(i as int));
            }
            let n = self.parts.len();
            match &rest.parts[i] {
                Component::RootDir => {
                    *self = self.first(1);
                    self.parts.push(Component::RootDir);
                    assert(self@ =~= before.take(1).push(Part::RootDir));
                },
                Component::CurDir => {},
                Component::ParentDir => {
                    assert(before.last() == self.parts@[n - 1]@);
                    let named = match self.parts[n - 1] {
                        Component::Normal(_) => true,
                        _ => false,
                    };
                    if named {
                        *self = self.first(n - 1);
                        assert(self@ =~= before.drop_last());
                    }
                },
                other => {
                    self.parts.push(other.clone());
                    assert(self@ =~= before.push(other@));
                },
            }
            i = i + 1;
        }
        assert(rest@.take(i as int) =~= rest@);
    }

    /// `rest` taken relative to this path.
    pub fn join(&self, rest: &TreePath) -> (r: TreePath)
        ensures
            r@ == joined(self@, rest@),
    {
        if rest.prefixed() {
            return rest.clone();
        }
        if self.verbatim() {
            let mut r = self.clone();
            r.settle(rest);
            return r;
        }
        let prefixed = self.prefixed();
        let mut from: usize = 0;
        let mut r = self.clone();
        if rest.parts.len() > 0 {
            match rest.parts[0] {
                Component::RootDir => {
                    if !prefixed {
                        return rest.clone();
                    }
                    r = self.first(1);
                },
                Component::CurDir => {
                    if self.parts.len() > 1 || (self.parts.len() == 1 && !prefixed) {
                        from = 1;
                    }
                },
                _ => {},
            }
        }
        r.extend(rest, from);
        assert(rest@.skip(0) =~= rest@);
        r
    }

    /// This path with a name behind it.
    pub fn join_name(&self, name: &Vec<u8>) -> (r: TreePath)
        ensures
            r@ == self@.push(Part::Normal(name@)),
    {
        let mut r = self.clone();
        r.parts.push(Component::Normal(copy_bytes(name)));
        assert(r@ =~= self@.push(Part::Normal(name@)));
        r
    }

    /// What is left of this path behind `base`, where it lies under it.
    pub fn strip_prefix(&self, base: &TreePath) -> (r: Option<TreePath>)
        ensures
            match r {
                Some(rest) => under(self@, base@) && rest@ == self@.skip(base@.len() as int),
                None => !under(self@, base@),
            },
    {
        if !self.starts_with(base) {
            return None;
        }
        let mut parts: Vec<Component> = Vec::new();
        let mut i: usize = base.parts.len();
        while i < self.parts.len()
            invariant
                base.parts.len() <= i <= self.parts.len(),
                parts.len() == i - base.parts.len(),
                forall|j: int| 0 <= j < parts.len() ==> parts@[j]@ == self@[j + base.parts.len()],
            decreases self.parts.len() - i,
        {
            parts.push(self.parts[i].clone());
            i = i + 1;
        }
        let rest = TreePath { parts };
        assert(rest@ =~= self@.skip(base@.len() as int));
        Some(rest)
    }

    /// This path comes strictly before the other.
    pub fn before(&self, other: &TreePath) -> (r: bool)
        ensures
            r == path_lt(self@, other@),
    {
        assert(values(self.parts@) =~= self@ && values(other.parts@) =~= other@);
        lex_before(&self.parts, &other.parts)
    }
}

impl Clone for TreePath {
    fn clone(&self) -> (r: Self)
        ensures
            r@ == self@,
    {
        let r = self.first(self.parts.len());
        assert(self@.take(self@.len() as int) =~= self@);
        r
    }
}

} // verus!
