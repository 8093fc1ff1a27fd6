//! What the parts of a path are, how paths are put together, and how they are ordered.

use crate::path::{
    file_name_of, is_ancestor, joined, parent_of, path_lt, prefix_lt, settled, strictly_under,
    under, Part, PrefixKind, PrefixView,
};
use vstd::prelude::*;

verus! {

/// A path lies under another exactly if it begins with all of its components.
pub proof fn paths_lie_under_what_they_begin_with(path: Seq<Part>, base: Seq<Part>)
    ensures
        under(path, base) <==> base.len() <= path.len() && forall|k: int|
            0 <= k < base.len() ==> #[trigger] path[k] == base[k],
        strictly_under(path, base) <==> under(path, base) && base.len() < path.len(),
{
    if base.len() <= path.len() && forall|k: int|
        0 <= k < base.len() ==> #[trigger] path[k] == base[k] {
        assert(base =~= path.subrange(0, base.len() as int));
    }
    if under(path, base) {
        assert forall|k: int| 0 <= k < base.len() implies #[trigger] path[k] == base[k] by {
            assert(path.subrange(0, base.len() as int)[k] == path[k]);
        }
        if base.len() == path.len() {
            assert(base =~= path);
        }
    }
}

/// The directory of a path is the path without its last component, and a name put into it leads
/// back. A path that is empty, and one that ends at its root or its prefix, has none.
pub proof fn the_parent_lacks_the_last_component(path: Seq<Part>, part: Part)
    ensures
        parent_of(path) is None <==> path.len() == 0 || path.last() is RootDir
            || path.last() is Prefix,
        parent_of(path) is Some ==> parent_of(path)->0 == path.take(path.len() - 1),
        part is Normal || part is CurDir || part is ParentDir ==> parent_of(path.push(part))
            == Some(path),
{
    if path.len() > 0 {
        assert(path.drop_last() =~= path.take(path.len() - 1));
    }
    assert(path.push(part).drop_last() =~= path);
}

/// The name of a path is its last component, if that is a name.
pub proof fn the_name_is_the_last_component(path: Seq<Part>, name: Seq<u8>)
    ensures
        file_name_of(path) == Some(name) <==> path.len() > 0 && path.last() == Part::Normal(name),
        file_name_of(path) is None <==> path.len() == 0 || !(path.last() is Normal),
        file_name_of(path.push(Part::Normal(name))) == Some(name),
{
}

/// A path is an ancestor of another exactly if going to the directory again and again leads from
/// the other to it: it is the other's directory, or an ancestor of that.
pub proof fn ancestors_are_reached_through_directories(a: Seq<Part>, path: Seq<Part>)
    ensures
        is_ancestor(a, path) <==> parent_of(path) is Some && (a == parent_of(path)->0 || is_ancestor(
            a,
            parent_of(path)->0,
        )),
        !is_ancestor(path, path),
{
    if path.len() > 0 {
        let parent = path.drop_last();
        if is_ancestor(a, path) {
            assert(a.len() < path.len()) by {
                paths_lie_under_what_they_begin_with(path, a);
            }
            assert(!crate::path::is_anchor(path[path.len() - 1]));
            if a != parent {
                paths_lie_under_what_they_begin_with(path, a);
                paths_lie_under_what_they_begin_with(parent, a);
                assert forall|k: int| 0 <= k < a.len() implies #[trigger] parent[k] == a[k] by {
                    assert(path[k] == a[k]);
                }
                assert forall|k: int| a.len() <= k < parent.len() implies !crate::path::is_anchor(
                    #[trigger] parent[k],
                ) by {
                    assert(!crate::path::is_anchor(path[k]));
                }
            }
        }
        if parent_of(path) is Some && (a == parent || is_ancestor(a, parent)) {
            paths_lie_under_what_they_begin_with(path, a);
            paths_lie_under_what_they_begin_with(parent, a);
            assert forall|k: int| 0 <= k < a.len() implies #[trigger] path[k] == a[k] by {
                assert(parent[k] == a[k]);
            }
            assert forall|k: int| a.len() <= k < path.len() implies !crate::path::is_anchor(
                #[trigger] path[k],
            ) by {
                if k < parent.len() {
                    assert(!crate::path::is_anchor(parent[k]));
                }
            }
        }
    } else if is_ancestor(a, path) {
        paths_lie_under_what_they_begin_with(path, a);
    }
}

/// A path put behind another: with a prefix of its own it stands alone, with a root it keeps the
/// other's prefix and nothing else of it, and names stand behind the other's components. A dot at
/// its beginning is dropped there. Behind a verbatim prefix it is settled instead.
pub proof fn joining_puts_paths_behind_one_another(base: Seq<Part>, rest: Seq<Part>)
    ensures
        rest.len() > 0 && rest[0] is Prefix ==> joined(base, rest) == rest,
        rest.len() == 0 ==> joined(base, rest) == base,
        base.len() == 0 && (rest.len() == 0 || !(rest[0] is Prefix)) ==> joined(base, rest) == rest,
        base.len() > 0 && !(base[0] is Prefix) && rest.len() > 0 && rest[0] is RootDir ==> joined(
            base,
            rest,
        ) == rest,
        base.len() > 0 && !(base[0] is Prefix) && rest.len() > 0 && (rest[0] is Normal
            || rest[0] is ParentDir) ==> joined(base, rest) == base + rest,
        base.len() > 0 && !(base[0] is Prefix) && rest.len() > 0 && rest[0] is CurDir ==> joined(
            base,
            rest,
        ) == base + rest.skip(1),
        base.len() > 0 && base[0] is Prefix && !verbatim(base[0]->Prefix_0.kind) && rest.len() > 0
            && rest[0] is RootDir ==> joined(base, rest) == seq![base[0]] + rest,
        base.len() > 0 && base[0] is Prefix && !verbatim(base[0]->Prefix_0.kind) && rest.len() > 0
            && (rest[0] is Normal || rest[0] is ParentDir) ==> joined(base, rest) == base + rest,
        base.len() > 1 && base[0] is Prefix && !verbatim(base[0]->Prefix_0.kind) && rest.len() > 0
            && rest[0] is CurDir ==> joined(base, rest) == base + rest.skip(1),
        base.len() > 0 && base[0] is Prefix && verbatim(base[0]->Prefix_0.kind) && rest.len() > 0
            && !(rest[0] is Prefix) ==> joined(base, rest) == settled(base, rest),
{
    if rest.len() == 0 {
        assert(base + rest =~= base);
    }
    if base.len() == 0 {
        assert(base + rest =~= rest);
    } else {
        assert(base.take(1) =~= seq![base[0]]);
    }
}

/// Whether a prefix has one of the three verbatim forms.
pub open spec fn verbatim(kind: PrefixKind) -> bool {
    kind == PrefixKind::Verbatim || kind == PrefixKind::VerbatimUnc || kind
        == PrefixKind::VerbatimDisk
}

/// Settling goes component by component: a name is put behind, a dot is dropped, two dots take the
/// name before them away, and a root leads back to behind the prefix.
pub proof fn settling_goes_part_by_part(base: Seq<Part>, rest: Seq<Part>, part: Part)
    ensures
        settled(base, Seq::empty()) == base,
        part is Normal || part is Prefix ==> settled(base, rest.push(part)) == settled(
            base,
            rest,
        ).push(part),
        part is CurDir ==> settled(base, rest.push(part)) == settled(base, rest),
        part is ParentDir && settled(base, rest).len() > 0 && settled(base, rest).last() is Normal
            ==> settled(base, rest.push(part)) == settled(base, rest).take(
            settled(base, rest).len() - 1,
        ),
        part is ParentDir && (settled(base, rest).len() == 0 || !(settled(
            base,
            rest,
        ).last() is Normal)) ==> settled(base, rest.push(part)) == settled(base, rest),
        part is RootDir && settled(base, rest).len() > 0 ==> settled(base, rest.push(part)) == seq![
            settled(base, rest)[0],
            Part::RootDir,
        ],
{
    let before = settled(base, rest);
    assert(rest.push(part).drop_last() =~= rest);
    assert(rest.push(part).last() == part);
    if before.len() > 0 {
        assert(before.drop_last() =~= before.take(before.len() - 1));
        assert(before.take(1).push(Part::RootDir) =~= seq![before[0], Part::RootDir]);
    }
}

/// The place of a component among the five forms that one can have.
pub open spec fn form(part: Part) -> int {
    if part is Prefix {
        0
    } else if part is RootDir {
        1
    } else if part is CurDir {
        2
    } else if part is ParentDir {
        3
    } else {
        4
    }
}

/// Paths are ordered by the first component in which they differ, and one that ends there comes
/// first. Components are ordered by their form: prefix, root, dot, two dots, name; and two names by
/// their bytes in the same way.
pub proof fn paths_are_ordered_by_their_components(a: Seq<Part>, b: Seq<Part>, n: int)
    requires
        0 <= n <= a.len(),
        n <= b.len(),
        a.take(n) == b.take(n),
    ensures
        n == a.len() && n < b.len() ==> path_lt(a, b) && !path_lt(b, a),
        n < a.len() && n < b.len() && form(a[n]) < form(b[n]) ==> path_lt(a, b) && !path_lt(b, a),
        n < a.len() && n < b.len() && a[n] is Normal && b[n] is Normal ==> forall|i: int|
            0 <= i <= a[n]->Normal_0.len() && i < b[n]->Normal_0.len()
                && #[trigger] a[n]->Normal_0.take(i) == b[n]->Normal_0.take(i) && (i
                == a[n]->Normal_0.len() || a[n]->Normal_0[i] < b[n]->Normal_0[i]) ==> path_lt(a, b)
                && !path_lt(b, a),
        n < a.len() && n < b.len() && a[n] is Prefix && b[n] is Prefix && prefix_lt(
            a[n]->Prefix_0,
            b[n]->Prefix_0,
        ) ==> path_lt(a, b) && !path_lt(b, a),
        a == b ==> !path_lt(a, b),
{
    crate::path::part_order_total();
    let lt = crate::path::part_lt();
    crate::path::path_lt_irreflexive(a);
    assert forall|j: int| 0 <= j < n implies #[trigger] a[j] == b[j] by {
        assert(a.take(n)[j] == a[j]);
        assert(b.take(n)[j] == b[j]);
    }
    if n < b.len() && (n == a.len() || lt(a[n], b[n])) {
        assert(crate::order::splits_at(a, b, lt, n));
        if path_lt(b, a) {
            crate::path::path_lt_transitive(a, b, a);
        }
    }
    if n < a.len() && n < b.len() && a[n] is Normal && b[n] is Normal {
        let s = a[n]->Normal_0;
        let t = b[n]->Normal_0;
        assert forall|i: int|
            0 <= i <= s.len() && i < t.len() && #[trigger] s.take(i) == t.take(i) && (i == s.len()
                || s[i] < t[i]) implies path_lt(a, b) && !path_lt(b, a) by {
            assert forall|j: int| 0 <= j < i implies #[trigger] s[j] == t[j] by {
                assert(s.take(i)[j] == s[j]);
                assert(t.take(i)[j] == t[j]);
            }
            assert(crate::order::splits_at(s, t, crate::order::byte_lt(), i));
            assert(lt(a[n], b[n]));
        }
    }
}

/// Prefixes are ordered by their form: verbatim, verbatim share, verbatim disk, device, share, disk.
/// Those of one form are ordered by the bytes of their names, and then by those of their shares.
pub proof fn prefixes_are_ordered_by_their_form(p: PrefixView, q: PrefixView, i: int)
    ensures
        p.kind == PrefixKind::Verbatim && q.kind != PrefixKind::Verbatim ==> prefix_lt(p, q)
            && !prefix_lt(q, p),
        p.kind == PrefixKind::VerbatimUnc && (q.kind == PrefixKind::VerbatimDisk || q.kind
            == PrefixKind::DeviceNs || q.kind == PrefixKind::Unc || q.kind == PrefixKind::Disk)
            ==> prefix_lt(p, q) && !prefix_lt(q, p),
        p.kind == PrefixKind::VerbatimDisk && (q.kind == PrefixKind::DeviceNs || q.kind
            == PrefixKind::Unc || q.kind == PrefixKind::Disk) ==> prefix_lt(p, q) && !prefix_lt(
            q,
            p,
        ),
        p.kind == PrefixKind::DeviceNs && (q.kind == PrefixKind::Unc || q.kind == PrefixKind::Disk)
            ==> prefix_lt(p, q) && !prefix_lt(q, p),
        p.kind == PrefixKind::Unc && q.kind == PrefixKind::Disk ==> prefix_lt(p, q) && !prefix_lt(
            q,
            p,
        ),
        p.kind == q.kind && 0 <= i <= p.name.len() && i < q.name.len() && p.name.take(i)
            == q.name.take(i) && (i == p.name.len() || p.name[i] < q.name[i]) ==> prefix_lt(p, q)
            && !prefix_lt(q, p),
        p.kind == q.kind && p.name == q.name && 0 <= i <= p.share.len() && i < q.share.len()
            && p.share.take(i) == q.share.take(i) && (i == p.share.len() || p.share[i]
            < q.share[i]) ==> prefix_lt(p, q) && !prefix_lt(q, p),
        p == q ==> !prefix_lt(p, q),
{
    if 0 <= i <= p.name.len() && i < q.name.len() && p.name.take(i) =~= q.name.take(i) && (i
        == p.name.len() || p.name[i] < q.name[i]) {
        lemma_bytes(p.name, q.name, i);
    }
    if 0 <= i <= p.share.len() && i < q.share.len() && p.share.take(i) =~= q.share.take(i) && (i
        == p.share.len() || p.share[i] < q.share[i]) {
        lemma_bytes(p.share, q.share, i);
    }
    crate::order::lex_irreflexive(p.share, crate::order::byte_lt());
}

proof fn lemma_bytes(s: Seq<u8>, t: Seq<u8>, i: int)
    requires
        0 <= i <= s.len(),
        i < t.len(),
        s.take(i) == t.take(i),
        i == s.len() || s[i] < t[i],
    ensures
        crate::order::lex_lt(s, t, crate::order::byte_lt()),
        !crate::order::lex_lt(t, s, crate::order::byte_lt()),
        s != t,
{
    let lt = crate::order::byte_lt();
    assert forall|j: int| 0 <= j < i implies #[trigger] s[j] == t[j] by {
        assert(s.take(i)[j] == s[j]);
        assert(t.take(i)[j] == t[j]);
    }
    assert(crate::order::splits_at(s, t, lt, i));
    crate::order::lex_irreflexive(s, lt);
    if crate::order::lex_lt(t, s, lt) {
        crate::order::lex_transitive(s, t, s, lt);
    }
}

} // verus!
