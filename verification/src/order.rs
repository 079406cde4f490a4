//! Lists in a strict order.

use vstd::prelude::*;

verus! {

/// Whether each item of a list is less than all that follow it.
pub open spec fn sorted_by<T>(l: Seq<T>, less: spec_fn(T, T) -> bool) -> bool {
    forall|i: int, j: int| 0 <= i < j < l.len() ==> less(#[trigger] l[i], #[trigger] l[j])
}

/// Whether of two items at most one is less than the other.
pub open spec fn asymmetric<T>(less: spec_fn(T, T) -> bool) -> bool {
    forall|x: T, y: T| #[trigger] less(x, y) ==> !less(y, x)
}

/// There is one way only to list given items in a strict order.
pub proof fn sorted_list_is_unique<T>(a: Seq<T>, b: Seq<T>, less: spec_fn(T, T) -> bool)
    requires
        asymmetric(less),
        sorted_by(a, less),
        sorted_by(b, less),
        a.to_set() == b.to_set(),
    ensures
        a == b,
    decreases a.len(),
{
    if a.len() == 0 {
        if b.len() > 0 {
            assert(b.to_set().contains(b[0]));
            assert(a.to_set().contains(b[0]));
        }
        assert(a =~= b);
    } else {
        let x = a.last();
        assert(a.to_set().contains(x));
        assert(b.to_set().contains(x));
        let k = b.index_of(x);
        let y = b.last();
        assert(b.to_set().contains(y));
        assert(a.to_set().contains(y));
        let m = a.index_of(y);
        if x != y {
            assert(less(b[k], b[b.len() - 1]));
            assert(less(a[m], a[a.len() - 1]));
        }
        let a1 = a.drop_last();
        let b1 = b.drop_last();
        assert forall|t: T| a1.to_set().contains(t) == b1.to_set().contains(t) by {
            if a1.contains(t) {
                let i = a1.index_of(t);
                assert(a[i] == t);
                assert(less(a[i], a[a.len() - 1]));
                assert(a.to_set().contains(t));
                assert(b.to_set().contains(t));
                let j = b.index_of(t);
                assert(b1[j] == t);
            }
            if b1.contains(t) {
                let i = b1.index_of(t);
                assert(b[i] == t);
                assert(less(b[i], b[b.len() - 1]));
                assert(b.to_set().contains(t));
                assert(a.to_set().contains(t));
                let j = a.index_of(t);
                assert(a1[j] == t);
            }
        }
        assert(a1.to_set() =~= b1.to_set());
        sorted_list_is_unique(a1, b1, less);
        assert(a =~= a1.push(x));
        assert(b =~= b1.push(y));
    }
}

/// Whether what is less than an item is less than all that the item is less than.
pub open spec fn transitive<T>(less: spec_fn(T, T) -> bool) -> bool {
    forall|x: T, y: T, z: T| #[trigger] less(x, y) && #[trigger] less(y, z) ==> less(x, z)
}

/// Whether of two different items one is less than the other.
pub open spec fn total<T>(less: spec_fn(T, T) -> bool) -> bool {
    forall|x: T, y: T| x != y ==> #[trigger] less(x, y) || less(y, x)
}

/// Whether a relation puts all items into one strict order.
pub open spec fn strict_order<T>(less: spec_fn(T, T) -> bool) -> bool {
    asymmetric(less) && transitive(less) && total(less)
}

proof fn insert_sorted<T>(l: Seq<T>, x: T, less: spec_fn(T, T) -> bool) -> (m: Seq<T>)
    requires
        strict_order(less),
        sorted_by(l, less),
        !l.contains(x),
    ensures
        sorted_by(m, less),
        forall|t: T| #[trigger] m.contains(t) <==> l.contains(t) || t == x,
        m.len() == l.len() + 1,
    decreases l.len(),
{
    if l.len() == 0 || less(l.last(), x) {
        let m = l.push(x);
        assert forall|i: int, j: int| 0 <= i < j < m.len() implies less(
            #[trigger] m[i],
            #[trigger] m[j],
        ) by {
            if j == l.len() && i < l.len() - 1 {
                assert(less(l[i], l[l.len() - 1]));
            }
        }
        assert forall|t: T| #[trigger] m.contains(t) <==> l.contains(t) || t == x by {
            if l.contains(t) {
                let k = l.index_of(t);
                assert(m[k] == t);
            }
            assert(m[l.len() as int] == x);
        }
        m
    } else {
        let last = l.last();
        let rest = l.drop_last();
        assert(l.contains(last));
        assert(less(x, last));
        assert(!rest.contains(x)) by {
            if rest.contains(x) {
                let k = rest.index_of(x);
                assert(l[k] == x);
            }
        }
        let n = insert_sorted(rest, x, less);
        let m = n.push(last);
        assert forall|i: int, j: int| 0 <= i < j < m.len() implies less(
            #[trigger] m[i],
            #[trigger] m[j],
        ) by {
            if j == n.len() {
                assert(n.contains(n[i]));
                if n[i] != x {
                    let k = rest.index_of(n[i]);
                    assert(less(l[k], l[l.len() - 1]));
                }
            }
        }
        assert forall|t: T| #[trigger] m.contains(t) <==> l.contains(t) || t == x by {
            assert(n.contains(t) <==> rest.contains(t) || t == x);
            if l.contains(t) && t != last {
                let k = l.index_of(t);
                assert(rest[k] == t);
            }
            if rest.contains(t) {
                let k = rest.index_of(t);
                assert(l[k] == t);
            }
            if n.contains(t) {
                let k = n.index_of(t);
                assert(m[k] == t);
            }
            assert(m[n.len() as int] == last);
        }
        m
    }
}

/// The items of a finite set can be listed in a strict order.
pub proof fn sorted_list_exists<T>(s: Set<T>, less: spec_fn(T, T) -> bool) -> (l: Seq<T>)
    requires
        strict_order(less),
        s.finite(),
    ensures
        sorted_by(l, less),
        l.to_set() == s,
        l.len() == s.len(),
    decreases s.len(),
{
    if s.len() == 0 {
        let l = Seq::<T>::empty();
        assert(l.to_set() =~= s);
        l
    } else {
        let x = s.choose();
        let rest = sorted_list_exists(s.remove(x), less);
        assert(!rest.contains(x)) by {
            assert(rest.to_set().contains(x) == rest.contains(x));
        }
        let l = insert_sorted(rest, x, less);
        assert forall|t: T| l.to_set().contains(t) == s.contains(t) by {
            assert(l.contains(t) <==> rest.contains(t) || t == x);
            assert(rest.to_set().contains(t) == rest.contains(t));
        }
        assert(l.to_set() =~= s);
        l
    }
}

} // verus!
