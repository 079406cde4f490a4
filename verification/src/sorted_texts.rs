//! A set of texts that is kept, and listed, in the order of code points.

use vstd::prelude::*;

use crate::order::{sorted_list_exists, sorted_list_is_unique};
use crate::text::{
    comes_before, lex_lt, lex_lt_asymmetric, lex_lt_irreflexive, lex_lt_total, lex_lt_transitive,
    same, texts,
};

verus! {

/// Whether each text of a list comes before all that follow it.
pub open spec fn strictly_sorted(l: Seq<Seq<char>>) -> bool {
    forall|i: int, j: int| 0 <= i < j < l.len() ==> lex_lt(#[trigger] l[i], #[trigger] l[j])
}

/// The texts of a set, in order.
pub open spec fn in_order(s: Set<Seq<char>>) -> Seq<Seq<char>> {
    choose|l: Seq<Seq<char>>| #[trigger] strictly_sorted(l) && l.to_set() == s
}

/// There is one way only to list the texts of a set in order.
pub proof fn order_is_unique(a: Seq<Seq<char>>, b: Seq<Seq<char>>)
    requires
        strictly_sorted(a),
        strictly_sorted(b),
        a.to_set() == b.to_set(),
    ensures
        a == b,
{
    let less = |x: Seq<char>, y: Seq<char>| lex_lt(x, y);
    assert forall|x: Seq<char>, y: Seq<char>| #[trigger] less(x, y) implies !less(y, x) by {
        lex_lt_asymmetric(x, y);
    }
    sorted_list_is_unique(a, b, less);
}

/// The texts of a finite set can be listed in order.
pub proof fn order_exists(s: Set<Seq<char>>)
    requires
        s.finite(),
    ensures
        strictly_sorted(in_order(s)),
        in_order(s).to_set() == s,
        in_order(s).len() == s.len(),
{
    let less = |x: Seq<char>, y: Seq<char>| lex_lt(x, y);
    assert forall|x: Seq<char>, y: Seq<char>| #[trigger] less(x, y) implies !less(y, x) by {
        lex_lt_asymmetric(x, y);
    }
    assert forall|x: Seq<char>, y: Seq<char>, z: Seq<char>| #[trigger]
        less(x, y) && #[trigger] less(y, z) implies less(x, z) by {
        lex_lt_transitive(x, y, z);
    }
    assert forall|x: Seq<char>, y: Seq<char>| x != y implies #[trigger] less(x, y) || less(
        y,
        x,
    ) by {
        lex_lt_total(x, y);
    }
    let l = sorted_list_exists(s, less);
    assert forall|i: int, j: int| 0 <= i < j < l.len() implies lex_lt(
        #[trigger] l[i],
        #[trigger] l[j],
    ) by {
        assert(less(l[i], l[j]));
    }
    assert(strictly_sorted(l) && l.to_set() == s);
    order_is_unique(l, in_order(s));
}

/// One more text taken from a list is one more in the set of those taken.
pub proof fn one_more_taken(l: Seq<Seq<char>>, i: int)
    requires
        0 <= i < l.len(),
    ensures
        l.take(i + 1).to_set() == l.take(i).to_set().insert(l[i]),
{
    let was = l.take(i);
    let now = l.take(i + 1);
    assert forall|t: Seq<char>| now.to_set().contains(t) == was.to_set().insert(l[i]).contains(
        t,
    ) by {
        if was.contains(t) {
            assert(now[was.index_of(t)] == t);
        }
        if now.contains(t) {
            let j = now.index_of(t);
            if j < i {
                assert(was[j] == t);
            }
        }
        assert(now[i] == l[i]);
    }
    assert(now.to_set() =~= was.to_set().insert(l[i]));
}

/// Texts, each held once.
pub struct SortedTexts {
    items: Vec<String>,
}

impl View for SortedTexts {
    type V = Set<Seq<char>>;

    closed spec fn view(&self) -> Set<Seq<char>> {
        texts(self.items@).to_set()
    }
}

impl SortedTexts {
    #[verifier::type_invariant]
    spec fn sorted(self) -> bool {
        strictly_sorted(texts(self.items@))
    }

    /// The set without texts.
    pub fn new() -> (r: SortedTexts)
        ensures
            r@ == Set::<Seq<char>>::empty(),
    {
        let r = SortedTexts { items: Vec::new() };
        assert(texts(r.items@).to_set() =~= Set::<Seq<char>>::empty());
        r
    }

    /// The texts, in order.
    pub fn list(&self) -> (r: &Vec<String>)
        ensures
            texts(r@) == in_order(self@),
            strictly_sorted(texts(r@)),
            texts(r@).to_set() == self@,
    {
        proof {
            use_type_invariant(self);
            let l = texts(self.items@);
            assert(strictly_sorted(l) && l.to_set() == self@);
            order_is_unique(l, in_order(self@));
        }
        &self.items
    }

    /// How many texts come before `x`.
    fn place(&self, x: &str) -> (r: usize)
        ensures
            r <= self.items@.len(),
            forall|i: int| 0 <= i < r ==> lex_lt(#[trigger] texts(self.items@)[i], x@),
            r < self.items@.len() ==> !lex_lt(texts(self.items@)[r as int], x@),
    {
        let mut i: usize = 0;
        while i < self.items.len() && comes_before(self.items[i].as_str(), x)
            invariant
                i <= self.items@.len(),
                forall|j: int| 0 <= j < i ==> lex_lt(#[trigger] texts(self.items@)[j], x@),
            decreases self.items@.len() - i,
        {
            i = i + 1;
        }
        i
    }

    /// Whether `x` is in the set, given its place.
    fn holds_at(&self, x: &str, k: usize) -> (r: bool)
        requires
            k <= self.items@.len(),
            forall|i: int| 0 <= i < k ==> lex_lt(#[trigger] texts(self.items@)[i], x@),
            k < self.items@.len() ==> !lex_lt(texts(self.items@)[k as int], x@),
        ensures
            r == self@.contains(x@),
            r ==> k < self.items@.len() && texts(self.items@)[k as int] == x@,
            !r ==> forall|i: int|
                k <= i < self.items@.len() ==> lex_lt(x@, #[trigger] texts(self.items@)[i]),
    {
        proof {
            use_type_invariant(self);
        }
        let ghost l = texts(self.items@);
        let r = k < self.items.len() && same(self.items[k].as_str(), x);
        proof {
            if r {
                assert(l[k as int] == x@);
                assert(l.contains(x@));
            } else {
                assert forall|i: int| k <= i < l.len() implies lex_lt(x@, #[trigger] l[i]) by {
                    lex_lt_total(l[k as int], x@);
                    if k < i {
                        assert(lex_lt(l[k as int], l[i]));
                        lex_lt_transitive(x@, l[k as int], l[i]);
                    }
                }
                if l.contains(x@) {
                    let i = l.index_of(x@);
                    lex_lt_irreflexive(x@);
                    if i < k {
                        assert(lex_lt(l[i], x@));
                    } else {
                        assert(lex_lt(x@, l[i]));
                    }
                }
            }
        }
        r
    }

    /// Whether `x` is in the set.
    pub fn contains(&self, x: &str) -> (r: bool)
        ensures
            r == self@.contains(x@),
    {
        let k = self.place(x);
        self.holds_at(x, k)
    }

    /// Puts `x` in the set, where it is not there yet.
    pub fn insert(&mut self, x: &str)
        ensures
            final(self)@ == old(self)@.insert(x@),
    {
        proof {
            use_type_invariant(&*self);
        }
        let ghost l = texts(self.items@);
        let k = self.place(x);
        if self.holds_at(x, k) {
            assert(self@.insert(x@) =~= self@);
            return;
        }
        let mut items: Vec<String> = Vec::new();
        std::mem::swap(&mut items, &mut self.items);
        items.insert(k, x.to_owned());
        proof {
            let m = texts(items@);
            assert(m =~= l.insert(k as int, x@));
            assert forall|i: int, j: int| 0 <= i < j < m.len() implies lex_lt(
                #[trigger] m[i],
                #[trigger] m[j],
            ) by {
                if i < k {
                    assert(m[i] == l[i]);
                    assert(lex_lt(l[i], x@));
                } else if i > k {
                    assert(m[i] == l[i - 1]);
                }
                if j < k {
                    assert(m[j] == l[j]);
                } else if j > k {
                    assert(m[j] == l[j - 1]);
                    assert(lex_lt(x@, l[j - 1]));
                }
                if i < k && j > k {
                    assert(lex_lt(l[i], l[j - 1]));
                }
            }
            assert forall|t: Seq<char>| m.to_set().contains(t) == (l.contains(t) || t == x@) by {
                if m.contains(t) {
                    let i = m.index_of(t);
                    if i < k {
                        assert(l[i] == t);
                    } else if i > k {
                        assert(l[i - 1] == t);
                    }
                }
                if l.contains(t) {
                    let i = l.index_of(t);
                    if i < k {
                        assert(m[i] == t);
                    } else {
                        assert(m[i + 1] == t);
                    }
                }
                assert(m[k as int] == x@);
            }
            assert(m.to_set() =~= l.to_set().insert(x@));
        }
        self.items = items;
    }

    /// Takes `x` out of the set, where it is there.
    pub fn remove(&mut self, x: &str)
        ensures
            final(self)@ == old(self)@.remove(x@),
    {
        proof {
            use_type_invariant(&*self);
        }
        let ghost l = texts(self.items@);
        let k = self.place(x);
        if !self.holds_at(x, k) {
            assert(self@.remove(x@) =~= self@);
            return;
        }
        let mut items: Vec<String> = Vec::new();
        std::mem::swap(&mut items, &mut self.items);
        items.remove(k);
        proof {
            let m = texts(items@);
            assert(m =~= l.remove(k as int));
            assert forall|i: int, j: int| 0 <= i < j < m.len() implies lex_lt(
                #[trigger] m[i],
                #[trigger] m[j],
            ) by {
                let a = if i < k {
                    i
                } else {
                    i + 1
                };
                let b = if j < k {
                    j
                } else {
                    j + 1
                };
                assert(m[i] == l[a] && m[j] == l[b]);
            }
            assert forall|t: Seq<char>| m.to_set().contains(t) == (l.contains(t) && t != x@) by {
                if m.contains(t) {
                    let i = m.index_of(t);
                    let a = if i < k {
                        i
                    } else {
                        i + 1
                    };
                    assert(l[a] == t);
                    lex_lt_irreflexive(t);
                    if a < k {
                        assert(lex_lt(l[a], l[k as int]));
                    } else {
                        assert(lex_lt(l[k as int], l[a]));
                    }
                }
                if l.contains(t) && t != x@ {
                    let i = l.index_of(t);
                    if i < k {
                        assert(m[i] == t);
                    } else {
                        assert(m[i - 1] == t);
                    }
                }
            }
            assert(m.to_set() =~= l.to_set().remove(x@));
        }
        self.items = items;
    }
}

} // verus!
