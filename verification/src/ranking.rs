//! Counting how often each text occurs in a list, the most frequent first.

use vstd::prelude::*;

use crate::counting::count_where;
use crate::order::{asymmetric, sorted_by, sorted_list_exists, sorted_list_is_unique};
use crate::sorted_texts::{one_more_taken, SortedTexts};
use crate::text::{lex_lt, lex_lt_asymmetric, lex_lt_total, lex_lt_transitive, same, texts};

verus! {

/// The positions of `key`.
pub open spec fn is_key(keys: Seq<Seq<char>>, key: Seq<char>) -> spec_fn(int) -> bool {
    |i: int| keys[i] == key
}

/// How often `key` occurs.
pub open spec fn occurrences(keys: Seq<Seq<char>>, key: Seq<char>) -> nat {
    count_where(keys.len(), is_key(keys, key))
}

/// A text and how often it occurs.
pub type Ranked = (Seq<char>, nat);

/// The more frequent text first, and of two that are equally frequent the one that comes first in
/// the order of code points.
pub open spec fn by_frequency() -> spec_fn(Ranked, Ranked) -> bool {
    |a: Ranked, b: Ranked| a.1 > b.1 || (a.1 == b.1 && lex_lt(a.0, b.0))
}

/// Whether `l` holds each text of `keys` once, with the number of times that it occurs, the most
/// frequent first.
pub open spec fn is_ranking(l: Seq<Ranked>, keys: Seq<Seq<char>>) -> bool {
    &&& sorted_by(l, by_frequency())
    &&& forall|e: Ranked| #[trigger]
        l.contains(e) <==> keys.contains(e.0) && e.1 == occurrences(keys, e.0)
}

/// The texts of `keys` with the number of times that each occurs, the most frequent first.
pub open spec fn ranking(keys: Seq<Seq<char>>) -> Seq<Ranked> {
    choose|l: Seq<Ranked>| is_ranking(l, keys)
}

proof fn frequency_is_strict()
    ensures
        asymmetric(by_frequency()),
{
    let less = by_frequency();
    assert forall|a: Ranked, b: Ranked| #[trigger] less(a, b) implies !less(b, a) by {
        if a.1 == b.1 {
            lex_lt_asymmetric(a.0, b.0);
        }
    }
}

/// There is one ranking only.
pub proof fn ranking_is_unique(l: Seq<Ranked>, keys: Seq<Seq<char>>)
    requires
        is_ranking(l, keys),
    ensures
        l == ranking(keys),
{
    let r = ranking(keys);
    assert(is_ranking(r, keys));
    frequency_is_strict();
    assert forall|e: Ranked| l.to_set().contains(e) == r.to_set().contains(e) by {
        assert(l.contains(e) == r.contains(e));
    }
    assert(l.to_set() =~= r.to_set());
    sorted_list_is_unique(l, r, by_frequency());
}

/// There is a ranking.
pub proof fn ranking_exists(keys: Seq<Seq<char>>)
    ensures
        is_ranking(ranking(keys), keys),
{
    frequency_is_strict();
    let less = by_frequency();
    assert forall|a: Ranked, b: Ranked, c: Ranked| #[trigger] less(a, b) && #[trigger] less(
        b,
        c,
    ) implies less(a, c) by {
        if lex_lt(a.0, b.0) && lex_lt(b.0, c.0) {
            lex_lt_transitive(a.0, b.0, c.0);
        }
    }
    assert forall|a: Ranked, b: Ranked| a != b implies #[trigger] less(a, b) || less(b, a) by {
        lex_lt_total(a.0, b.0);
    }
    let entries = keys.map_values(|k: Seq<char>| (k, occurrences(keys, k)));
    vstd::seq_lib::seq_to_set_is_finite(entries);
    let l = sorted_list_exists(entries.to_set(), less);
    assert forall|e: Ranked| #[trigger] l.contains(e) <==> keys.contains(e.0) && e.1 == occurrences(
        keys,
        e.0,
    ) by {
        assert(l.to_set().contains(e) == l.contains(e));
        if entries.contains(e) {
            let i = entries.index_of(e);
            assert(keys[i] == e.0);
        }
        if keys.contains(e.0) && e.1 == occurrences(keys, e.0) {
            let i = keys.index_of(e.0);
            assert(entries[i] == e);
        }
    }
    assert(is_ranking(l, keys));
}

/// The texts and numbers of a list.
pub open spec fn ranked_view(v: Seq<(String, u64)>) -> Seq<Ranked> {
    v.map_values(|e: (String, u64)| (e.0@, e.1 as nat))
}

/// How often `key` occurs.
fn count_key(keys: &Vec<String>, key: &str) -> (r: u64)
    ensures
        r == occurrences(texts(keys@), key@),
{
    let ghost p = is_key(texts(keys@), key@);
    let mut n: u64 = 0;
    let mut i: usize = 0;
    let total: usize = keys.len();
    while i < total
        invariant
            i <= total,
            total == keys@.len(),
            p == is_key(texts(keys@), key@),
            n == count_where(i as nat, p),
            n <= i,
        decreases keys@.len() - i,
    {
        if same(keys[i].as_str(), key) {
            n = n + 1;
        }
        i = i + 1;
    }
    n
}

/// Counts how often each text occurs, the most frequent first.
pub fn rank(keys: &Vec<String>) -> (r: Vec<(String, u64)>)
    ensures
        ranked_view(r@) == ranking(texts(keys@)),
        is_ranking(ranked_view(r@), texts(keys@)),
{
    let ghost all = texts(keys@);
    let mut distinct = SortedTexts::new();
    let mut i: usize = 0;
    assert(all.take(0).to_set() =~= Set::<Seq<char>>::empty());
    while i < keys.len()
        invariant
            i <= keys@.len(),
            all == texts(keys@),
            distinct@ == all.take(i as int).to_set(),
        decreases keys@.len() - i,
    {
        distinct.insert(keys[i].as_str());
        proof {
            one_more_taken(all, i as int);
        }
        i = i + 1;
    }
    assert(all.take(i as int) =~= all);
    let list = distinct.list();
    let ghost names = texts(list@);
    let mut out: Vec<(String, u64)> = Vec::new();
    let mut n: usize = 0;
    while n < list.len()
        invariant
            n <= list@.len(),
            all == texts(keys@),
            names == texts(list@),
            crate::sorted_texts::strictly_sorted(names),
            names.to_set() == distinct@,
            distinct@ == all.to_set(),
            sorted_by(ranked_view(out@), by_frequency()),
            forall|j: int|
                0 <= j < ranked_view(out@).len() ==> {
                    &&& names.take(n as int).contains((#[trigger] ranked_view(out@)[j]).0)
                    &&& ranked_view(out@)[j].1 == occurrences(all, ranked_view(out@)[j].0)
                },
            forall|j: int|
                0 <= j < n ==> ranked_view(out@).contains(
                    (#[trigger] names[j], occurrences(all, names[j])),
                ),
        decreases list@.len() - n,
    {
        let c = count_key(keys, list[n].as_str());
        let ghost v = ranked_view(out@);
        let ghost e = (names[n as int], c as nat);
        let mut p: usize = 0;
        while p < out.len() && out[p].1 >= c
            invariant
                p <= out@.len(),
                v == ranked_view(out@),
                forall|j: int| 0 <= j < p ==> (#[trigger] v[j]).1 >= c,
            decreases out@.len() - p,
        {
            assert(v[p as int].1 == out@[p as int].1);
            p = p + 1;
        }
        assert(p < out@.len() ==> v[p as int].1 == out@[p as int].1);
        out.insert(p, (list[n].clone(), c));
        proof {
            let w = ranked_view(out@);
            assert(w =~= v.insert(p as int, e));
            let less = by_frequency();
            assert forall|j: int| 0 <= j < p implies less(#[trigger] v[j], e) by {
                assert(names.take(n as int).contains(v[j].0));
                let m = names.take(n as int).index_of(v[j].0);
                assert(lex_lt(names[m], names[n as int]));
            }
            assert forall|j: int| p <= j < v.len() implies less(e, #[trigger] v[j]) by {
                if p < j {
                    assert(less(v[p as int], v[j]));
                }
            }
            assert forall|x: int, y: int| 0 <= x < y < w.len() implies less(
                #[trigger] w[x],
                #[trigger] w[y],
            ) by {
                if x < p {
                    assert(w[x] == v[x]);
                } else if x > p {
                    assert(w[x] == v[x - 1]);
                }
                if y < p {
                    assert(w[y] == v[y]);
                } else if y > p {
                    assert(w[y] == v[y - 1]);
                }
            }
            assert forall|j: int| 0 <= j < w.len() implies names.take(n + 1).contains(
                (#[trigger] w[j]).0,
            ) && w[j].1 == occurrences(all, w[j].0) by {
                if j != p {
                    let o = if j < p {
                        j
                    } else {
                        j - 1
                    };
                    assert(w[j] == v[o]);
                    let m = names.take(n as int).index_of(v[o].0);
                    assert(names.take(n + 1)[m] == v[o].0);
                } else {
                    assert(names.take(n + 1)[n as int] == e.0);
                }
            }
            assert forall|j: int| 0 <= j < n + 1 implies w.contains(
                (#[trigger] names[j], occurrences(all, names[j])),
            ) by {
                if j < n {
                    let m = v.index_of((names[j], occurrences(all, names[j])));
                    if m < p {
                        assert(w[m] == v[m]);
                    } else {
                        assert(w[m + 1] == v[m]);
                    }
                } else {
                    assert(w[p as int] == e);
                }
            }
        }
        n = n + 1;
    }
    proof {
        let w = ranked_view(out@);
        assert(names.take(n as int) =~= names);
        assert forall|e: Ranked| #[trigger] w.contains(e) <==> all.contains(e.0) && e.1
            == occurrences(all, e.0) by {
            if w.contains(e) {
                let j = w.index_of(e);
                assert(names.contains(w[j].0));
                assert(names.to_set().contains(e.0));
                assert(distinct@.contains(e.0));
            }
            if all.contains(e.0) && e.1 == occurrences(all, e.0) {
                assert(distinct@.contains(e.0));
                assert(names.to_set().contains(e.0));
                let j = names.index_of(e.0);
                assert(w.contains((names[j], occurrences(all, names[j]))));
            }
        }
        ranking_is_unique(w, all);
    }
    out
}

} // verus!
