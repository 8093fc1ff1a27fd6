//! Lexicographic order on sequences, over a strict order on their elements.

use vstd::prelude::*;

verus! {

/// The two sequences agree on their first `n` elements.
pub open spec fn agree<T>(a: Seq<T>, b: Seq<T>, n: int) -> bool {
    forall|j: int| 0 <= j < n ==> #[trigger] a[j] == b[j]
}

/// `a` sorts before `b` by what stands at position `i`: both agree before it, and there `a` either
/// ends or holds the smaller element.
pub open spec fn splits_at<T>(a: Seq<T>, b: Seq<T>, lt: spec_fn(T, T) -> bool, i: int) -> bool {
    &&& 0 <= i <= a.len()
    &&& i < b.len()
    &&& agree(a, b, i)
    &&& i < a.len() ==> lt(a[i], b[i])
}

/// Lexicographic order: `a` comes strictly before `b`.
pub open spec fn lex_lt<T>(a: Seq<T>, b: Seq<T>, lt: spec_fn(T, T) -> bool) -> bool {
    exists|i: int| splits_at(a, b, lt, i)
}

/// `lt` is a strict total order.
pub open spec fn strict_total<T>(lt: spec_fn(T, T) -> bool) -> bool {
    &&& forall|x: T| !#[trigger] lt(x, x)
    &&& forall|x: T, y: T, z: T| #[trigger] lt(x, y) && #[trigger] lt(y, z) ==> lt(x, z)
    &&& forall|x: T, y: T| x == y || #[trigger] lt(x, y) || lt(y, x)
}

/// No sequence comes strictly before itself.
pub proof fn lex_irreflexive<T>(a: Seq<T>, lt: spec_fn(T, T) -> bool)
    requires
        strict_total(lt),
    ensures
        !lex_lt(a, a, lt),
{
}

/// Lexicographic order is transitive.
pub proof fn lex_transitive<T>(a: Seq<T>, b: Seq<T>, c: Seq<T>, lt: spec_fn(T, T) -> bool)
    requires
        strict_total(lt),
        lex_lt(a, b, lt),
        lex_lt(b, c, lt),
    ensures
        lex_lt(a, c, lt),
{
    let i = choose|i: int| splits_at(a, b, lt, i);
    let j = choose|j: int| splits_at(b, c, lt, j);
    let m = if i < j { i } else { j };
    assert forall|k: int| 0 <= k < m implies #[trigger] a[k] == c[k] by {
        assert(a[k] == b[k] && b[k] == c[k]);
    }
    if i < j {
        assert(b[i] == c[i]);
    } else if j < i {
        assert(a[j] == b[j]);
    }
    assert(splits_at(a, c, lt, m));
}

/// Of two different sequences one comes strictly before the other.
pub proof fn lex_connected<T>(a: Seq<T>, b: Seq<T>, lt: spec_fn(T, T) -> bool)
    requires
        strict_total(lt),
    ensures
        a == b || lex_lt(a, b, lt) || lex_lt(b, a, lt),
{
    if a != b {
        let i = first_difference(a, b, 0);
        if i == a.len() {
            if i == b.len() {
                assert(a =~= b);
            } else {
                assert(splits_at(a, b, lt, i));
            }
        } else if i == b.len() {
            assert(splits_at(b, a, lt, i));
        } else if lt(a[i], b[i]) {
            assert(splits_at(a, b, lt, i));
        } else {
            assert(lt(b[i], a[i]));
            assert(splits_at(b, a, lt, i));
        }
    }
}

proof fn first_difference<T>(a: Seq<T>, b: Seq<T>, from: int) -> (i: int)
    requires
        0 <= from <= a.len(),
        from <= b.len(),
        agree(a, b, from),
    ensures
        from <= i <= a.len(),
        i <= b.len(),
        agree(a, b, i),
        i == a.len() || i == b.len() || a[i] != b[i],
    decreases a.len() - from,
{
    if from == a.len() || from == b.len() || a[from] != b[from] {
        from
    } else {
        first_difference(a, b, from + 1)
    }
}

/// A sequence comes strictly before each of its proper extensions.
pub proof fn lex_prefix<T>(a: Seq<T>, b: Seq<T>, lt: spec_fn(T, T) -> bool)
    requires
        a.is_prefix_of(b),
        a != b,
    ensures
        lex_lt(a, b, lt),
{
    assert forall|k: int| 0 <= k < a.len() implies #[trigger] a[k] == b[k] by {
        assert(b.subrange(0, a.len() as int)[k] == b[k]);
    }
    if a.len() == b.len() {
        assert(a =~= b);
    }
    assert(splits_at(a, b, lt, a.len() as int));
}

/// Elements that can be told apart and ordered by their values.
pub trait Ordered: Sized {
    type Value;

    spec fn value(&self) -> Self::Value;

    /// The order of the values.
    spec fn lt() -> spec_fn(Self::Value, Self::Value) -> bool;

    proof fn irreflexive(x: Self::Value)
        ensures
            !Self::lt()(x, x),
    ;

    /// The two elements have the same value.
    fn same(&self, other: &Self) -> (r: bool)
        ensures
            r == (self.value() == other.value()),
    ;

    /// This element comes strictly before the other.
    fn before(&self, other: &Self) -> (r: bool)
        ensures
            r == Self::lt()(self.value(), other.value()),
    ;
}

/// The values of the elements of a list.
pub open spec fn values<T: Ordered>(list: Seq<T>) -> Seq<T::Value> {
    list.map_values(|x: T| x.value())
}

/// The lists come in strictly increasing order.
pub fn lex_before<T: Ordered>(a: &Vec<T>, b: &Vec<T>) -> (r: bool)
    ensures
        r == lex_lt(values(a@), values(b@), T::lt()),
{
    let ghost (x, y) = (values(a@), values(b@));
    let mut i: usize = 0;
    while i < a.len() && i < b.len() && a[i].same(&b[i])
        invariant
            i <= a.len(),
            i <= b.len(),
            x == values(a@),
            y == values(b@),
            agree(x, y, i as int),
        decreases a.len() - i,
    {
        assert(x[i as int] == y[i as int]);
        i = i + 1;
    }
    let r = i < b.len() && (i == a.len() || a[i].before(&b[i]));
    proof {
        if r {
            assert(splits_at(x, y, T::lt(), i as int));
        } else if lex_lt(x, y, T::lt()) {
            let k = choose|k: int| splits_at(x, y, T::lt(), k);
            if k < i {
                assert(x[k] == y[k]);
                T::irreflexive(x[k]);
            } else if i < k {
                assert(x[i as int] == y[i as int]);
            }
        }
    }
    r
}

/// The order of the bytes.
pub open spec fn byte_lt() -> spec_fn(u8, u8) -> bool {
    |x: u8, y: u8| x < y
}

/// The order of the characters, by scalar value.
pub open spec fn char_lt() -> spec_fn(char, char) -> bool {
    |x: char, y: char| x < y
}

impl Ordered for u8 {
    type Value = u8;

    open spec fn value(&self) -> u8 {
        *self
    }

    open spec fn lt() -> spec_fn(u8, u8) -> bool {
        byte_lt()
    }

    proof fn irreflexive(x: u8) {
    }

    fn same(&self, other: &u8) -> (r: bool) {
        *self == *other
    }

    fn before(&self, other: &u8) -> (r: bool) {
        *self < *other
    }
}

impl Ordered for char {
    type Value = char;

    open spec fn value(&self) -> char {
        *self
    }

    open spec fn lt() -> spec_fn(char, char) -> bool {
        char_lt()
    }

    proof fn irreflexive(x: char) {
    }

    fn same(&self, other: &char) -> (r: bool) {
        *self == *other
    }

    fn before(&self, other: &char) -> (r: bool) {
        *self < *other
    }
}

/// The byte strings come in strictly increasing order.
pub fn bytes_before(a: &Vec<u8>, b: &Vec<u8>) -> (r: bool)
    ensures
        r == lex_lt(a@, b@, byte_lt()),
{
    assert(values(a@) =~= a@ && values(b@) =~= b@);
    lex_before(a, b)
}

/// The texts come in strictly increasing order.
pub fn chars_before(a: &Vec<char>, b: &Vec<char>) -> (r: bool)
    ensures
        r == lex_lt(a@, b@, char_lt()),
{
    assert(values(a@) =~= a@ && values(b@) =~= b@);
    lex_before(a, b)
}

} // verus!
