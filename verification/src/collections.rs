//! Sets of paths, and maps keyed by paths.

use vstd::prelude::*;

use crate::path::{Part, TreePath};

verus! {

/// The paths of a list, by value.
pub open spec fn path_views(paths: Seq<TreePath>) -> Seq<Seq<Part>> {
    paths.map_values(|p: TreePath| p@)
}

/// The position of a path in a list.
pub fn position(paths: &Vec<TreePath>, path: &TreePath) -> (r: Option<usize>)
    ensures
        match r {
            Some(i) => i < paths.len() && paths@[i as int]@ == path@ && (forall|j: int|
                0 <= j < i ==> paths@[j]@ != path@),
            None => !path_views(paths@).contains(path@),
        },
{
    let mut i: usize = 0;
    while i < paths.len()
        invariant
            i <= paths.len(),
            forall|j: int| 0 <= j < i ==> paths@[j]@ != path@,
        decreases paths.len() - i,
    {
        if paths[i].same(path) {
            return Some(i);
        }
        i = i + 1;
    }
    None
}

/// A copy of a list of paths.
pub fn copy_paths(paths: &Vec<TreePath>) -> (r: Vec<TreePath>)
    ensures
        path_views(r@) == path_views(paths@),
{
    let mut out: Vec<TreePath> = Vec::new();
    let mut i: usize = 0;
    while i < paths.len()
        invariant
            i <= paths.len(),
            out.len() == i,
            forall|j: int| 0 <= j < i ==> out@[j]@ == paths@[j]@,
        decreases paths.len() - i,
    {
        out.push(paths[i].clone());
        i = i + 1;
    }
    assert(path_views(out@) =~= path_views(paths@));
    out
}

/// What a list holds after something has been put behind it.
pub proof fn lemma_push<T>(s: Seq<T>, x: T)
    ensures
        forall|y: T| #[trigger] s.push(x).contains(y) <==> s.contains(y) || y == x,
        s.no_duplicates() && !s.contains(x) ==> s.push(x).no_duplicates(),
{
    let t = s.push(x);
    assert forall|y: T| #[trigger] t.contains(y) <==> s.contains(y) || y == x by {
        if s.contains(y) {
            let k = choose|k: int| 0 <= k < s.len() && s[k] == y;
            assert(t[k] == y);
        }
        if t.contains(y) {
            let k = choose|k: int| 0 <= k < t.len() && t[k] == y;
            if k < s.len() {
                assert(s[k] == y);
            }
        }
        if y == x {
            assert(t[s.len() as int] == y);
        }
    }
}

/// What the first elements of a list hold, and one element more.
pub proof fn lemma_one_more<T>(s: Seq<T>, n: int)
    requires
        0 <= n < s.len(),
    ensures
        forall|y: T| #[trigger] s.take(n + 1).contains(y) <==> s.take(n).contains(y) || y == s[n],
{
    assert(s.take(n + 1) =~= s.take(n).push(s[n]));
    lemma_push(s.take(n), s[n]);
}

/// A set of paths. Each member is held once, in the order in which it came.
#[derive(Debug)]
pub struct PathSet {
    items: Vec<TreePath>,
}

impl PathSet {
    /// The members in the order in which they are held.
    pub closed spec fn listed(&self) -> Seq<Seq<Part>> {
        path_views(self.items@)
    }

    /// No member is held twice.
    pub open spec fn wf(&self) -> bool {
        self.listed().no_duplicates()
    }

    /// The empty set.
    pub fn new() -> (r: PathSet)
        ensures
            r.wf(),
            r@ == Set::<Seq<Part>>::empty(),
            r.listed().len() == 0,
    {
        let r = PathSet { items: Vec::new() };
        assert(r@ =~= Set::<Seq<Part>>::empty());
        r
    }

    /// The number of members.
    pub fn len(&self) -> (r: usize)
        ensures
            r == self.listed().len(),
    {
        self.items.len()
    }

    /// The set has no member.
    pub fn is_empty(&self) -> (r: bool)
        ensures
            r == (self.listed().len() == 0),
            r == (self@ == Set::<Seq<Part>>::empty()),
    {
        let r = self.items.len() == 0;
        proof {
            if r {
                assert(self@ =~= Set::<Seq<Part>>::empty());
            } else {
                assert(self.listed()[0] == self.items@[0]@);
                assert(self@.contains(self.items@[0]@));
            }
        }
        r
    }

    /// The member held at a position.
    pub fn get(&self, i: usize) -> (r: &TreePath)
        requires
            i < self.listed().len(),
        ensures
            r@ == self.listed()[i as int],
            self@.contains(r@),
    {
        assert(self.listed()[i as int] == self.items@[i as int]@);
        &self.items[i]
    }

    /// The path is a member.
    pub fn contains(&self, path: &TreePath) -> (r: bool)
        ensures
            r == self@.contains(path@),
            r == self.listed().contains(path@),
    {
        let at = position(&self.items, path);
        proof {
            if let Some(i) = at {
                assert(self.listed()[i as int] == path@);
            }
        }
        at.is_some()
    }

    /// Makes the path a member, and tells whether it was none before.
    pub fn insert(&mut self, path: TreePath) -> (r: bool)
        requires
            old(self).wf(),
        ensures
            final(self).wf(),
            r == !old(self)@.contains(path@),
            final(self)@ == old(self)@.insert(path@),
            final(self).listed() == if r {
                old(self).listed().push(path@)
            } else {
                old(self).listed()
            },
    {
        if self.contains(&path) {
            assert(self@ =~= self@.insert(path@));
            return false;
        }
        let ghost p = path@;
        let ghost before = self.listed();
        self.items.push(path);
        proof {
            assert(self.listed() =~= before.push(p));
            assert(self@ =~= old(self)@.insert(p)) by {
                assert forall|q: Seq<Part>| self@.contains(q) == old(self)@.insert(p).contains(q) by {
                    if before.contains(q) {
                        let i = choose|i: int| 0 <= i < before.len() && before[i] == q;
                        assert(self.listed()[i] == q);
                    }
                    if q == p {
                        assert(self.listed()[before.len() as int] == q);
                    }
                }
            }
        }
        true
    }

    /// Makes the path no member, and tells whether it was one before.
    pub fn remove(&mut self, path: &TreePath) -> (r: bool)
        requires
            old(self).wf(),
        ensures
            final(self).wf(),
            r == old(self)@.contains(path@),
            final(self)@ == old(self)@.remove(path@),
            !r ==> *final(self) == *old(self),
    {
        match position(&self.items, path) {
            Some(i) => {
                let ghost before = self.listed();
                let _ = self.items.remove(i);
                proof {
                    assert(before[i as int] == path@);
                    assert(self.listed() =~= before.remove(i as int));
                    lemma_remove(before, i as int);
                    assert(self@ =~= old(self)@.remove(path@));
                }
                true
            },
            None => {
                assert(self@ =~= self@.remove(path@));
                false
            },
        }
    }

    /// Takes all members out.
    pub fn clear(&mut self)
        ensures
            final(self).wf(),
            final(self)@ == Set::<Seq<Part>>::empty(),
            final(self).listed().len() == 0,
    {
        self.items.clear();
        assert(self@ =~= Set::<Seq<Part>>::empty());
    }

    /// Keeps the members that `kept` has too.
    pub fn retain(&mut self, kept: &PathSet)
        requires
            old(self).wf(),
        ensures
            final(self).wf(),
            final(self)@ == old(self)@.intersect(kept@),
    {
        let mut out = PathSet::new();
        let mut i: usize = 0;
        while i < self.items.len()
            invariant
                i <= self.items.len(),
                *self == *old(self),
                out.wf(),
                forall|q: Seq<Part>| #[trigger] out@.contains(q) <==> kept@.contains(q)
                    && self.listed().take(i as int).contains(q),
            decreases self.items.len() - i,
        {
            let ghost was = out@;
            let ghost p = self.items@[i as int]@;
            let ghost done = self.listed().take(i as int);
            let ghost next = self.listed().take(i + 1);
            assert(self.listed()[i as int] == p);
            assert(next =~= done.push(p));
            assert forall|q: Seq<Part>| #[trigger] next.contains(q) <==> (done.contains(q) || q == p) by {
                if done.contains(q) {
                    let k = choose|k: int| 0 <= k < done.len() && done[k] == q;
                    assert(next[k] == q);
                }
                if q == p {
                    assert(next[i as int] == q);
                }
            }
            if kept.contains(&self.items[i]) {
                out.insert(self.items[i].clone());
            }
            i = i + 1;
        }
        proof {
            assert(self.listed().take(i as int) =~= self.listed());
            assert(out@ =~= old(self)@.intersect(kept@)) by {
                assert forall|q: Seq<Part>| out@.contains(q) == old(self)@.intersect(kept@).contains(q) by {}
            }
        }
        *self = out;
    }

    /// A copy of the members, in the order in which they are held.
    pub fn to_vec(&self) -> (r: Vec<TreePath>)
        ensures
            path_views(r@) == self.listed(),
    {
        copy_paths(&self.items)
    }
}

impl View for PathSet {
    type V = Set<Seq<Part>>;

    open spec fn view(&self) -> Set<Seq<Part>> {
        self.listed().to_set()
    }
}

/// Taking one element out of a list without duplicates takes exactly that value out.
proof fn lemma_remove<T>(s: Seq<T>, i: int)
    requires
        s.no_duplicates(),
        0 <= i < s.len(),
    ensures
        s.remove(i).no_duplicates(),
        forall|x: T| #[trigger] s.remove(i).contains(x) <==> s.contains(x) && x != s[i],
{
    let t = s.remove(i);
    assert forall|x: T| #[trigger] t.contains(x) <==> s.contains(x) && x != s[i] by {
        if t.contains(x) {
            let k = choose|k: int| 0 <= k < t.len() && t[k] == x;
            if k < i {
                assert(s[k] == x);
            } else {
                assert(s[k + 1] == x);
            }
        }
        if s.contains(x) && x != s[i] {
            let k = choose|k: int| 0 <= k < s.len() && s[k] == x;
            if k < i {
                assert(t[k] == x);
            } else {
                assert(t[k - 1] == x);
            }
        }
    }
}

/// The map that a list of pairs stands for; where a key occurs twice, its last value counts.
pub open spec fn map_of<V>(pairs: Seq<(Seq<Part>, V)>) -> Map<Seq<Part>, V>
    decreases pairs.len(),
{
    if pairs.len() == 0 {
        Map::empty()
    } else {
        map_of(pairs.drop_last()).insert(pairs.last().0, pairs.last().1)
    }
}

/// No two pairs have the same key.
pub open spec fn distinct_keys<V>(pairs: Seq<(Seq<Part>, V)>) -> bool {
    forall|i: int, j: int|
        0 <= i < pairs.len() && 0 <= j < pairs.len() && i != j ==> #[trigger] pairs[i].0
            != #[trigger] pairs[j].0
}

/// The key of one of the pairs.
pub open spec fn has_key<V>(pairs: Seq<(Seq<Part>, V)>, key: Seq<Part>) -> bool {
    exists|i: int| 0 <= i < pairs.len() && #[trigger] pairs[i].0 == key
}

/// The keys of the map are those of the pairs.
pub proof fn map_of_keys<V>(pairs: Seq<(Seq<Part>, V)>)
    ensures
        forall|k: Seq<Part>| #[trigger] map_of(pairs).contains_key(k) <==> has_key(pairs, k),
    decreases pairs.len(),
{
    if pairs.len() > 0 {
        let rest = pairs.drop_last();
        map_of_keys(rest);
        assert forall|k: Seq<Part>| #[trigger] map_of(pairs).contains_key(k) <==> has_key(
            pairs,
            k,
        ) by {
            assert(map_of(rest).contains_key(k) <==> has_key(rest, k));
            if has_key(rest, k) {
                let i = choose|i: int| 0 <= i < rest.len() && #[trigger] rest[i].0 == k;
                assert(pairs[i].0 == k);
            }
            if has_key(pairs, k) {
                let i = choose|i: int| 0 <= i < pairs.len() && #[trigger] pairs[i].0 == k;
                if i < rest.len() {
                    assert(rest[i].0 == k);
                }
            }
            if pairs.last().0 == k {
                assert(pairs[pairs.len() - 1].0 == k);
            }
        }
    }
}

/// With distinct keys, each pair gives the value of its key.
pub proof fn map_of_values<V>(pairs: Seq<(Seq<Part>, V)>)
    requires
        distinct_keys(pairs),
    ensures
        forall|i: int|
            0 <= i < pairs.len() ==> map_of(pairs).contains_key(#[trigger] pairs[i].0) && map_of(
                pairs,
            )[pairs[i].0] == pairs[i].1,
    decreases pairs.len(),
{
    if pairs.len() > 0 {
        let rest = pairs.drop_last();
        assert forall|i: int, j: int|
            0 <= i < rest.len() && 0 <= j < rest.len() && i != j implies #[trigger] rest[i].0
            != #[trigger] rest[j].0 by {
            assert(pairs[i].0 != pairs[j].0);
        }
        map_of_values(rest);
        assert forall|i: int| 0 <= i < pairs.len() implies map_of(pairs).contains_key(
            #[trigger] pairs[i].0,
        ) && map_of(pairs)[pairs[i].0] == pairs[i].1 by {
            if i < rest.len() {
                assert(rest[i] == pairs[i]);
                assert(pairs[i].0 != pairs[pairs.len() - 1].0);
            }
        }
    }
}

/// A map keyed by paths. Each key is held once, in the order in which it came.
#[derive(Debug)]
pub struct PathMap<V> {
    entries: Vec<(TreePath, V)>,
}

impl<V> PathMap<V> {
    /// The keys and their values in the order in which they are held.
    pub closed spec fn pairs(&self) -> Seq<(Seq<Part>, V)> {
        self.entries@.map_values(|e: (TreePath, V)| (e.0@, e.1))
    }

    /// No key is held twice.
    pub open spec fn wf(&self) -> bool {
        distinct_keys(self.pairs())
    }

    /// The empty map.
    pub fn new() -> (r: PathMap<V>)
        ensures
            r.wf(),
            r@ == Map::<Seq<Part>, V>::empty(),
            r.pairs().len() == 0,
    {
        PathMap { entries: Vec::new() }
    }

    /// The number of keys.
    pub fn len(&self) -> (r: usize)
        ensures
            r == self.pairs().len(),
    {
        self.entries.len()
    }

    /// The key held at a position.
    pub fn key_at(&self, i: usize) -> (r: &TreePath)
        requires
            i < self.pairs().len(),
        ensures
            r@ == self.pairs()[i as int].0,
    {
        &self.entries[i].0
    }

    fn find(&self, path: &TreePath) -> (r: Option<usize>)
        ensures
            match r {
                Some(i) => i < self.entries.len() && self.pairs()[i as int].0 == path@,
                None => !has_key(self.pairs(), path@),
            },
    {
        let mut i: usize = 0;
        while i < self.entries.len()
            invariant
                i <= self.entries.len(),
                forall|j: int| 0 <= j < i ==> (#[trigger] self.pairs()[j]).0 != path@,
            decreases self.entries.len() - i,
        {
            if self.entries[i].0.same(path) {
                return Some(i);
            }
            i = i + 1;
        }
        None
    }

    /// The value of a key, in place.
    pub fn get_ref(&self, path: &TreePath) -> (r: Option<&V>)
        requires
            self.wf(),
        ensures
            match r {
                Some(v) => self@.contains_key(path@) && self@[path@] == *v,
                None => !self@.contains_key(path@),
            },
    {
        proof {
            map_of_keys(self.pairs());
            map_of_values(self.pairs());
        }
        match self.find(path) {
            Some(i) => {
                assert(self.pairs()[i as int].1 == self.entries@[i as int].1);
                Some(&self.entries[i].1)
            },
            None => None,
        }
    }

    /// The path is a key.
    pub fn contains_key(&self, path: &TreePath) -> (r: bool)
        requires
            self.wf(),
        ensures
            r == self@.contains_key(path@),
    {
        self.get_ref(path).is_some()
    }

    /// Gives a key its value.
    pub fn insert(&mut self, path: TreePath, value: V)
        requires
            old(self).wf(),
        ensures
            final(self).wf(),
            final(self)@ == old(self)@.insert(path@, value),
    {
        let ghost before = self.pairs();
        let ghost key = path@;
        proof {
            map_of_keys(before);
            map_of_values(before);
        }
        match self.find(&path) {
            Some(i) => {
                self.entries.set(i, (path, value));
                proof {
                    let now = self.pairs();
                    assert(now =~= before.update(i as int, (key, value)));
                    assert forall|a: int, b: int|
                        0 <= a < now.len() && 0 <= b < now.len() && a != b implies #[trigger] now[a].0
                        != #[trigger] now[b].0 by {
                        assert(before[a].0 != before[b].0);
                    }
                    map_of_keys(now);
                    map_of_values(now);
                    assert(self@ =~= old(self)@.insert(key, value)) by {
                        assert forall|k: Seq<Part>| self@.contains_key(k) == old(self)@.insert(
                            key,
                            value,
                        ).contains_key(k) by {
                            if has_key(before, k) {
                                let j = choose|j: int|
                                    0 <= j < before.len() && #[trigger] before[j].0 == k;
                                assert(now[j].0 == k);
                            }
                            if has_key(now, k) {
                                let j = choose|j: int|
                                    0 <= j < now.len() && #[trigger] now[j].0 == k;
                                assert(before[j].0 == k);
                            }
                        }
                        assert forall|k: Seq<Part>| self@.contains_key(k) implies self@[k]
                            == old(self)@.insert(key, value)[k] by {
                            let j = choose|j: int| 0 <= j < now.len() && #[trigger] now[j].0 == k;
                            assert(before[j].0 == k);
                            if j != i {
                                assert(before[j].0 != before[i as int].0);
                            }
                        }
                    }
                }
            },
            None => {
                self.entries.push((path, value));
                proof {
                    let now = self.pairs();
                    assert(now =~= before.push((key, value)));
                    assert(now.drop_last() =~= before);
                    assert forall|a: int, b: int|
                        0 <= a < now.len() && 0 <= b < now.len() && a != b implies #[trigger] now[a].0
                        != #[trigger] now[b].0 by {
                        if a < before.len() && b < before.len() {
                            assert(before[a].0 != before[b].0);
                        } else if a < before.len() {
                            assert(before[a].0 != key);
                        } else {
                            assert(before[b].0 != key);
                        }
                    }
                }
            },
        }
    }

    /// Makes the path no key, and tells whether it was one before.
    pub fn remove(&mut self, path: &TreePath) -> (r: bool)
        requires
            old(self).wf(),
        ensures
            final(self).wf(),
            r == old(self)@.contains_key(path@),
            final(self)@ == old(self)@.remove(path@),
    {
        let ghost before = self.pairs();
        proof {
            map_of_keys(before);
            map_of_values(before);
        }
        match self.find(path) {
            Some(i) => {
                let _ = self.entries.remove(i);
                proof {
                    let now = self.pairs();
                    assert(now =~= before.remove(i as int));
                    assert forall|a: int, b: int|
                        0 <= a < now.len() && 0 <= b < now.len() && a != b implies #[trigger] now[a].0
                        != #[trigger] now[b].0 by {
                        let a2 = if a < i { a } else { a + 1 };
                        let b2 = if b < i { b } else { b + 1 };
                        assert(before[a2].0 != before[b2].0);
                    }
                    map_of_keys(now);
                    map_of_values(now);
                    assert(self@ =~= old(self)@.remove(path@)) by {
                        assert forall|k: Seq<Part>| self@.contains_key(k) == old(self)@.remove(
                            path@,
                        ).contains_key(k) by {
                            if has_key(before, k) && k != path@ {
                                let j = choose|j: int|
                                    0 <= j < before.len() && #[trigger] before[j].0 == k;
                                let j2 = if j < i { j } else { j - 1 };
                                assert(now[j2].0 == k);
                            }
                            if has_key(now, k) {
                                let j = choose|j: int|
                                    0 <= j < now.len() && #[trigger] now[j].0 == k;
                                let j2 = if j < i { j } else { j + 1 };
                                assert(before[j2].0 == k);
                                assert(before[j2].0 != before[i as int].0);
                            }
                        }
                        assert forall|k: Seq<Part>| self@.contains_key(k) implies self@[k]
                            == old(self)@.remove(path@)[k] by {
                            let j = choose|j: int| 0 <= j < now.len() && #[trigger] now[j].0 == k;
                            let j2 = if j < i { j } else { j + 1 };
                            assert(before[j2] == now[j]);
                        }
                    }
                }
                true
            },
            None => {
                assert(self@ =~= self@.remove(path@));
                false
            },
        }
    }

    /// Takes all keys out.
    pub fn clear(&mut self)
        ensures
            final(self).wf(),
            final(self)@ == Map::<Seq<Part>, V>::empty(),
            final(self).pairs().len() == 0,
    {
        self.entries.clear();
    }
}

impl<V: Copy> PathMap<V> {
    /// The value held at a position.
    pub fn value_at(&self, i: usize) -> (r: V)
        requires
            i < self.pairs().len(),
        ensures
            r == self.pairs()[i as int].1,
    {
        self.entries[i].1
    }

    /// The value of a key.
    pub fn get(&self, path: &TreePath) -> (r: Option<V>)
        requires
            self.wf(),
        ensures
            match r {
                Some(v) => self@.contains_key(path@) && self@[path@] == v,
                None => !self@.contains_key(path@),
            },
    {
        match self.get_ref(path) {
            Some(v) => Some(*v),
            None => None,
        }
    }
}

impl<V> View for PathMap<V> {
    type V = Map<Seq<Part>, V>;

    open spec fn view(&self) -> Map<Seq<Part>, V> {
        map_of(self.pairs())
    }
}

impl<V: Copy> Clone for PathMap<V> {
    fn clone(&self) -> (r: Self)
        ensures
            r.pairs() == self.pairs(),
    {
        let mut entries: Vec<(TreePath, V)> = Vec::new();
        let mut i: usize = 0;
        while i < self.entries.len()
            invariant
                i <= self.entries.len(),
                entries.len() == i,
                forall|j: int|
                    0 <= j < i ==> (#[trigger] entries@[j]).0@ == self.entries@[j].0@
                        && entries@[j].1 == self.entries@[j].1,
            decreases self.entries.len() - i,
        {
            entries.push((self.entries[i].0.clone(), self.entries[i].1));
            i = i + 1;
        }
        let r = PathMap { entries };
        assert(r.pairs() =~= self.pairs());
        r
    }
}

} // verus!
