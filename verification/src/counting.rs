//! Counting positions.

use vstd::prelude::*;

verus! {

/// How many of the first `n` positions have a property.
pub open spec fn count_where(n: nat, p: spec_fn(int) -> bool) -> nat
    decreases n,
{
    if n == 0 {
        0
    } else {
        count_where((n - 1) as nat, p) + if p(n - 1) {
            1nat
        } else {
            0nat
        }
    }
}

/// Two properties that hold of the same positions are counted alike.
pub proof fn count_of_equals(n: nat, p: spec_fn(int) -> bool, q: spec_fn(int) -> bool)
    requires
        forall|i: int| 0 <= i < n ==> #[trigger] p(i) == q(i),
    ensures
        count_where(n, p) == count_where(n, q),
    decreases n,
{
    if n > 0 {
        assert(p(n - 1) == q(n - 1));
        count_of_equals((n - 1) as nat, p, q);
    }
}

/// A property that implies another is counted at most as often.
pub proof fn count_is_monotone(n: nat, p: spec_fn(int) -> bool, q: spec_fn(int) -> bool)
    requires
        forall|i: int| 0 <= i < n && #[trigger] p(i) ==> q(i),
    ensures
        count_where(n, p) <= count_where(n, q),
    decreases n,
{
    if n > 0 {
        count_is_monotone((n - 1) as nat, p, q);
    }
}

/// The positions among the first `n` that have a property.
pub open spec fn positions(n: nat, p: spec_fn(int) -> bool) -> Set<int> {
    Set::new(|i: int| 0 <= i < n && p(i))
}

/// Counting gives the size of the set of positions.
pub proof fn count_is_size(n: nat, p: spec_fn(int) -> bool)
    ensures
        positions(n, p).finite(),
        positions(n, p).len() == count_where(n, p),
    decreases n,
{
    if n == 0 {
        assert(positions(n, p) =~= Set::<int>::empty());
    } else {
        count_is_size((n - 1) as nat, p);
        let before = positions((n - 1) as nat, p);
        if p(n - 1) {
            assert(positions(n, p) =~= before.insert(n - 1));
        } else {
            assert(positions(n, p) =~= before);
        }
    }
}

/// What has a property and what has not are all positions.
pub proof fn count_of_rest(n: nat, p: spec_fn(int) -> bool, q: spec_fn(int) -> bool)
    requires
        forall|i: int| 0 <= i < n ==> #[trigger] p(i) == !q(i),
    ensures
        count_where(n, p) + count_where(n, q) == n,
    decreases n,
{
    if n > 0 {
        assert(p(n - 1) == !q(n - 1));
        count_of_rest((n - 1) as nat, p, q);
    }
}

} // verus!
