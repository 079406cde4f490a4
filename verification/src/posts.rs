//! The stored posts of links, and their order in time.

use vstd::prelude::*;

use crate::links::text_of;
use crate::order::{
    asymmetric, sorted_by, sorted_list_exists, sorted_list_is_unique, strict_order,
};
use crate::text::{
    comes_before, lex_lt, lex_lt_asymmetric, lex_lt_irreflexive, lex_lt_total, lex_lt_transitive,
    same,
};

verus! {

/// One post of a link.
pub struct RepostView {
    pub url: Seq<char>,
    pub user_id: Seq<char>,
    pub posted_at: Seq<char>,
    pub posted_on: Option<Seq<char>>,
}

/// A row of the table of posts: the link, who posted it and when. `posted_on` is the day that the
/// store reads in `posted_at`, if it reads one.
pub struct Repost {
    pub url: String,
    pub user_id: String,
    pub posted_at: String,
    pub posted_on: Option<String>,
}

impl View for Repost {
    type V = RepostView;

    open spec fn view(&self) -> RepostView {
        RepostView {
            url: self.url@,
            user_id: self.user_id@,
            posted_at: self.posted_at@,
            posted_on: text_of(self.posted_on),
        }
    }
}

impl Repost {
    /// A copy of the row.
    pub fn copy(&self) -> (r: Repost)
        ensures
            r@ == self@,
    {
        Repost {
            url: self.url.clone(),
            user_id: self.user_id.clone(),
            posted_at: self.posted_at.clone(),
            posted_on: match &self.posted_on {
                Some(day) => Some(day.clone()),
                None => None,
            },
        }
    }
}

/// The views of a list of rows.
pub open spec fn row_views(rows: Seq<Repost>) -> Seq<RepostView> {
    rows.map_values(|r: Repost| r@)
}

// ---------------------------------------------------------------------------------------------
// The order of posts
// ---------------------------------------------------------------------------------------------

/// Whether the post in row `i` was made before the one in row `j`: by the written time, and of two
/// posts of one time by the order in which they came in.
pub open spec fn posted_before(rows: Seq<RepostView>, i: int, j: int) -> bool {
    ||| lex_lt(rows[i].posted_at, rows[j].posted_at)
    ||| rows[i].posted_at == rows[j].posted_at && i < j
}

/// Row numbers by link, and the posts of one link by time.
pub open spec fn by_link_and_time(rows: Seq<RepostView>) -> spec_fn(int, int) -> bool {
    |i: int, j: int|
        {
            ||| lex_lt(rows[i].url, rows[j].url)
            ||| rows[i].url == rows[j].url && posted_before(rows, i, j)
        }
}

/// Row numbers by time.
pub open spec fn by_time(rows: Seq<RepostView>) -> spec_fn(int, int) -> bool {
    |i: int, j: int| posted_before(rows, i, j)
}

/// Of two rows at most one comes before the other.
pub proof fn order_of_posts_is_strict(rows: Seq<RepostView>)
    ensures
        asymmetric(by_link_and_time(rows)),
        asymmetric(by_time(rows)),
{
    let time = by_time(rows);
    assert forall|i: int, j: int| #[trigger] time(i, j) implies !time(j, i) by {
        if lex_lt(rows[i].posted_at, rows[j].posted_at) {
            lex_lt_asymmetric(rows[i].posted_at, rows[j].posted_at);
        } else {
            lex_lt_irreflexive(rows[i].posted_at);
        }
        if rows[i].posted_at == rows[j].posted_at {
            lex_lt_irreflexive(rows[i].posted_at);
        }
    }
    let less = by_link_and_time(rows);
    assert forall|i: int, j: int| #[trigger] less(i, j) implies !less(j, i) by {
        if rows[i].url == rows[j].url {
            lex_lt_irreflexive(rows[i].url);
            assert(time(i, j));
        } else {
            lex_lt_asymmetric(rows[i].url, rows[j].url);
        }
    }
}

proof fn order_of_posts_is_transitive(rows: Seq<RepostView>, i: int, j: int, k: int)
    requires
        by_link_and_time(rows)(i, j),
        by_link_and_time(rows)(j, k),
    ensures
        by_link_and_time(rows)(i, k),
{
    if lex_lt(rows[i].url, rows[j].url) && lex_lt(rows[j].url, rows[k].url) {
        lex_lt_transitive(rows[i].url, rows[j].url, rows[k].url);
    }
    if lex_lt(rows[i].posted_at, rows[j].posted_at) && lex_lt(
        rows[j].posted_at,
        rows[k].posted_at,
    ) {
        lex_lt_transitive(rows[i].posted_at, rows[j].posted_at, rows[k].posted_at);
    }
}

proof fn order_of_posts_is_total(rows: Seq<RepostView>, i: int, j: int)
    requires
        i != j,
    ensures
        by_link_and_time(rows)(i, j) || by_link_and_time(rows)(j, i),
{
    lex_lt_total(rows[i].url, rows[j].url);
    lex_lt_total(rows[i].posted_at, rows[j].posted_at);
}

/// Whether row `i` comes before row `j`.
fn row_before(rows: &Vec<Repost>, i: usize, j: usize) -> (r: bool)
    requires
        i < rows@.len(),
        j < rows@.len(),
    ensures
        r == by_link_and_time(row_views(rows@))(i as int, j as int),
{
    let a = &rows[i];
    let b = &rows[j];
    comes_before(a.url.as_str(), b.url.as_str()) || (same(a.url.as_str(), b.url.as_str()) && (
    comes_before(a.posted_at.as_str(), b.posted_at.as_str()) || (same(
        a.posted_at.as_str(),
        b.posted_at.as_str(),
    ) && i < j)))
}

/// Row numbers as integers.
pub open spec fn numbers(v: Seq<usize>) -> Seq<int> {
    v.map_values(|i: usize| i as int)
}

/// Whether a list of row numbers names rows of the table, each at most once.
spec fn distinct_rows(v: Seq<usize>, n: nat) -> bool {
    &&& forall|i: int| 0 <= i < v.len() ==> (#[trigger] v[i]) < n
    &&& v.no_duplicates()
}

/// Puts two sorted lists of row numbers together.
fn merge(rows: &Vec<Repost>, a: &Vec<usize>, b: &Vec<usize>) -> (r: Vec<usize>)
    requires
        distinct_rows(a@, rows@.len()),
        distinct_rows(b@, rows@.len()),
        forall|i: int, j: int| 0 <= i < a@.len() && 0 <= j < b@.len() ==> a@[i] != b@[j],
        sorted_by(numbers(a@), by_link_and_time(row_views(rows@))),
        sorted_by(numbers(b@), by_link_and_time(row_views(rows@))),
        a@.len() + b@.len() <= usize::MAX,
    ensures
        sorted_by(numbers(r@), by_link_and_time(row_views(rows@))),
        r@.to_set() == a@.to_set() + b@.to_set(),
        r@.len() == a@.len() + b@.len(),
        distinct_rows(r@, rows@.len()),
{
    let ghost less = by_link_and_time(row_views(rows@));
    let mut out: Vec<usize> = Vec::new();
    let mut i: usize = 0;
    let mut j: usize = 0;
    while i < a.len() || j < b.len()
        invariant
            i <= a@.len(),
            j <= b@.len(),
            out@.len() == i + j,
            less == by_link_and_time(row_views(rows@)),
            distinct_rows(a@, rows@.len()),
            distinct_rows(b@, rows@.len()),
            forall|x: int, y: int| 0 <= x < a@.len() && 0 <= y < b@.len() ==> a@[x] != b@[y],
            sorted_by(numbers(a@), less),
            sorted_by(numbers(b@), less),
            forall|x: int, y: int|
                0 <= x < y < out@.len() ==> less(#[trigger] out@[x] as int, #[trigger] out@[y] as int),
            forall|x: int, y: int|
                0 <= x < out@.len() && i <= y < a@.len() ==> less(
                    #[trigger] out@[x] as int,
                    #[trigger] a@[y] as int,
                ),
            forall|x: int, y: int|
                0 <= x < out@.len() && j <= y < b@.len() ==> less(
                    #[trigger] out@[x] as int,
                    #[trigger] b@[y] as int,
                ),
            forall|x: int|
                0 <= x < out@.len() ==> (a@.take(i as int).contains(#[trigger] out@[x])
                    || b@.take(j as int).contains(out@[x])),
            forall|x: int| 0 <= x < i ==> out@.contains(#[trigger] a@[x]),
            forall|x: int| 0 <= x < j ==> out@.contains(#[trigger] b@[x]),
        decreases a@.len() - i + b@.len() - j,
    {
        let from_a = if i == a.len() {
            false
        } else if j == b.len() {
            true
        } else {
            row_before(rows, a[i], b[j])
        };
        let ghost before = out@;
        let next = if from_a {
            a[i]
        } else {
            b[j]
        };
        proof {
            if i < a@.len() && j < b@.len() {
                order_of_posts_is_total(row_views(rows@), a@[i as int] as int, b@[j as int] as int);
            }
            assert forall|y: int| i <= y < a@.len() && a@[y] != next implies less(
                next as int,
                #[trigger] a@[y] as int,
            ) by {
                if i < y {
                    assert(less(numbers(a@)[i as int], numbers(a@)[y]));
                    if !from_a {
                        order_of_posts_is_transitive(
                            row_views(rows@),
                            next as int,
                            a@[i as int] as int,
                            a@[y] as int,
                        );
                    }
                }
            }
            assert forall|y: int| j <= y < b@.len() && b@[y] != next implies less(
                next as int,
                #[trigger] b@[y] as int,
            ) by {
                if j < y {
                    assert(less(numbers(b@)[j as int], numbers(b@)[y]));
                    if from_a {
                        order_of_posts_is_transitive(
                            row_views(rows@),
                            next as int,
                            b@[j as int] as int,
                            b@[y] as int,
                        );
                    }
                }
            }
        }
        out.push(next);
        let ghost i0 = i as int;
        let ghost j0 = j as int;
        if from_a {
            i = i + 1;
        } else {
            j = j + 1;
        }
        proof {
            assert(out@ =~= before.push(next));
            assert forall|x: int| 0 <= x < out@.len() implies (a@.take(i as int).contains(
                #[trigger] out@[x],
            ) || b@.take(j as int).contains(out@[x])) by {
                if x < before.len() {
                    assert(before[x] == out@[x]);
                    if a@.take(i0).contains(out@[x]) {
                        let k = a@.take(i0).index_of(out@[x]);
                        assert(a@.take(i as int)[k] == out@[x]);
                    } else {
                        let k = b@.take(j0).index_of(out@[x]);
                        assert(b@.take(j as int)[k] == out@[x]);
                    }
                } else if from_a {
                    assert(a@.take(i as int)[i0] == next);
                } else {
                    assert(b@.take(j as int)[j0] == next);
                }
            }
            assert forall|x: int| 0 <= x < i implies out@.contains(#[trigger] a@[x]) by {
                if x < i0 {
                    let k = before.index_of(a@[x]);
                    assert(out@[k] == a@[x]);
                } else {
                    assert(out@[before.len() as int] == a@[x]);
                }
            }
            assert forall|x: int| 0 <= x < j implies out@.contains(#[trigger] b@[x]) by {
                if x < j0 {
                    let k = before.index_of(b@[x]);
                    assert(out@[k] == b@[x]);
                } else {
                    assert(out@[before.len() as int] == b@[x]);
                }
            }
        }
    }
    proof {
        order_of_posts_is_strict(row_views(rows@));
        assert(a@.take(i as int) =~= a@);
        assert(b@.take(j as int) =~= b@);
        assert forall|t: usize| out@.to_set().contains(t) == (a@.to_set() + b@.to_set()).contains(
            t,
        ) by {
            if out@.contains(t) {
                let k = out@.index_of(t);
                assert(a@.contains(out@[k]) || b@.contains(out@[k]));
            }
            if a@.contains(t) {
                let k = a@.index_of(t);
                assert(out@.contains(a@[k]));
            }
            if b@.contains(t) {
                let k = b@.index_of(t);
                assert(out@.contains(b@[k]));
            }
        }
        assert(out@.to_set() =~= a@.to_set() + b@.to_set());
        assert forall|x: int, y: int| 0 <= x < out@.len() && 0 <= y < out@.len() && x
            != y implies out@[x] != out@[y] by {
            if x < y {
                assert(less(out@[x] as int, out@[y] as int));
            } else {
                assert(less(out@[y] as int, out@[x] as int));
            }
        }
    }
    out
}

/// Sorts row numbers by link, and the posts of one link by time.
fn sort_rows(rows: &Vec<Repost>, ids: &Vec<usize>, from: usize, to: usize) -> (r: Vec<usize>)
    requires
        from <= to <= ids@.len(),
        distinct_rows(ids@, rows@.len()),
    ensures
        sorted_by(numbers(r@), by_link_and_time(row_views(rows@))),
        r@.to_set() == ids@.subrange(from as int, to as int).to_set(),
        r@.len() == to - from,
        distinct_rows(r@, rows@.len()),
    decreases to - from,
{
    if to - from <= 1 {
        let mut r: Vec<usize> = Vec::new();
        if from < to {
            r.push(ids[from]);
        }
        assert(r@ =~= ids@.subrange(from as int, to as int));
        return r;
    }
    let mid: usize = from + (to - from) / 2;
    let a = sort_rows(rows, ids, from, mid);
    let b = sort_rows(rows, ids, mid, to);
    let ghost left = ids@.subrange(from as int, mid as int);
    let ghost right = ids@.subrange(mid as int, to as int);
    proof {
        assert forall|i: int, j: int| 0 <= i < a@.len() && 0 <= j < b@.len() implies a@[i]
            != b@[j] by {
            assert(a@.to_set().contains(a@[i]));
            assert(b@.to_set().contains(b@[j]));
            let x = left.index_of(a@[i]);
            let y = right.index_of(b@[j]);
            assert(ids@[from + x] == a@[i]);
            assert(ids@[mid + y] == b@[j]);
        }
    }
    let r = merge(rows, &a, &b);
    proof {
        let whole = ids@.subrange(from as int, to as int);
        assert(whole =~= left + right);
        assert forall|t: usize| whole.contains(t) == (left.contains(t) || right.contains(t)) by {
            if left.contains(t) {
                let k = left.index_of(t);
                assert(whole[k] == t);
            }
            if right.contains(t) {
                let k = right.index_of(t);
                assert(whole[left.len() + k] == t);
            }
            if whole.contains(t) {
                let k = whole.index_of(t);
                if k < left.len() {
                    assert(left[k] == t);
                } else {
                    assert(right[k - left.len()] == t);
                }
            }
        }
        assert(r@.to_set() =~= whole.to_set());
    }
    r
}

// ---------------------------------------------------------------------------------------------
// The posts of one link
// ---------------------------------------------------------------------------------------------

/// Whether `l` names the posts of a link, all of them, in the order of time.
pub open spec fn is_history(l: Seq<int>, rows: Seq<RepostView>, url: Seq<char>) -> bool {
    &&& sorted_by(l, by_time(rows))
    &&& forall|i: int| #[trigger] l.contains(i) <==> 0 <= i < rows.len() && rows[i].url == url
}

/// The rows of the posts of a link, in the order of time.
pub open spec fn history(rows: Seq<RepostView>, url: Seq<char>) -> Seq<int> {
    choose|l: Seq<int>| is_history(l, rows, url)
}

/// The posts of a link have one order only.
pub proof fn history_is_unique(l: Seq<int>, rows: Seq<RepostView>, url: Seq<char>)
    requires
        is_history(l, rows, url),
    ensures
        l == history(rows, url),
{
    let h = history(rows, url);
    assert(is_history(h, rows, url));
    order_of_posts_is_strict(rows);
    assert forall|i: int| l.to_set().contains(i) == h.to_set().contains(i) by {
        assert(l.contains(i) == h.contains(i));
    }
    assert(l.to_set() =~= h.to_set());
    sorted_list_is_unique(l, h, by_time(rows));
}

/// The order of time is one strict order of all rows.
pub proof fn order_of_time_is_strict(rows: Seq<RepostView>)
    ensures
        strict_order(by_time(rows)),
{
    order_of_posts_is_strict(rows);
    let less = by_time(rows);
    assert forall|i: int, j: int, k: int| #[trigger] less(i, j) && #[trigger] less(j, k) implies less(
        i,
        k,
    ) by {
        if lex_lt(rows[i].posted_at, rows[j].posted_at) && lex_lt(
            rows[j].posted_at,
            rows[k].posted_at,
        ) {
            lex_lt_transitive(rows[i].posted_at, rows[j].posted_at, rows[k].posted_at);
        }
    }
    assert forall|i: int, j: int| i != j implies #[trigger] less(i, j) || less(j, i) by {
        lex_lt_total(rows[i].posted_at, rows[j].posted_at);
    }
}

/// The posts of a link can be listed in the order of time.
pub proof fn history_exists(rows: Seq<RepostView>, url: Seq<char>)
    ensures
        is_history(history(rows, url), rows, url),
{
    order_of_time_is_strict(rows);
    let s = Set::new(|i: int| 0 <= i < rows.len() && rows[i].url == url);
    vstd::set_lib::lemma_int_range(0, rows.len() as int);
    vstd::set_lib::lemma_len_subset(s, vstd::set_lib::set_int_range(0, rows.len() as int));
    let l = sorted_list_exists(s, by_time(rows));
    assert forall|i: int| #[trigger] l.contains(i) <==> 0 <= i < rows.len() && rows[i].url
        == url by {
        assert(l.to_set().contains(i) == l.contains(i));
    }
    assert(is_history(l, rows, url));
}

/// The rows of the posts of a link, in the order of time.
pub fn posts_of(rows: &Vec<Repost>, url: &str) -> (r: Vec<usize>)
    ensures
        numbers(r@) == history(row_views(rows@), url@),
        is_history(numbers(r@), row_views(rows@), url@),
        forall|k: int| 0 <= k < r@.len() ==> (#[trigger] r@[k]) < rows@.len(),
{
    let ghost views = row_views(rows@);
    let mut ids: Vec<usize> = Vec::new();
    let mut i: usize = 0;
    while i < rows.len()
        invariant
            i <= rows@.len(),
            views == row_views(rows@),
            forall|k: int|
                0 <= k < ids@.len() ==> (#[trigger] ids@[k]) < i && views[ids@[k] as int].url == url@,
            ids@.no_duplicates(),
            forall|j: usize| j < i && views[j as int].url == url@ ==> ids@.contains(j),
        decreases rows@.len() - i,
    {
        let ghost before = ids@;
        if same(rows[i].url.as_str(), url) {
            ids.push(i);
            assert forall|j: usize| j < i + 1 && views[j as int].url == url@ implies ids@.contains(
                j,
            ) by {
                if j < i {
                    assert(before.contains(j));
                    let k = before.index_of(j);
                    assert(ids@[k] == j);
                } else {
                    assert(ids@[before.len() as int] == j);
                }
            }
        }
        i = i + 1;
    }
    let r = sort_rows(rows, &ids, 0, ids.len());
    proof {
        let l = numbers(r@);
        assert(ids@.subrange(0, ids@.len() as int) =~= ids@);
        assert forall|n: int| #[trigger] l.contains(n) <==> 0 <= n < views.len() && views[n].url
            == url@ by {
            if l.contains(n) {
                let k = l.index_of(n);
                assert(r@.to_set().contains(r@[k]));
                assert(ids@.contains(r@[k]));
            }
            if 0 <= n < views.len() && views[n].url == url@ {
                assert(ids@.contains(n as usize));
                assert(r@.to_set().contains(n as usize));
                let k = r@.index_of(n as usize);
                assert(l[k] == n);
            }
        }
        assert forall|x: int, y: int| 0 <= x < y < l.len() implies by_time(views)(
            #[trigger] l[x],
            #[trigger] l[y],
        ) by {
            assert(by_link_and_time(views)(l[x], l[y]));
            assert(l.contains(l[x]) && l.contains(l[y]));
            lex_lt_irreflexive(url@);
        }
        history_is_unique(l, views, url@);
    }
    r
}

/// Whether a post is a repost: the link has been posted before.
pub open spec fn is_repost(rows: Seq<RepostView>, i: int) -> bool {
    exists|j: int|
        0 <= j < rows.len() && rows[j].url == rows[i].url && #[trigger] posted_before(rows, j, i)
}

proof fn neighbour_decides(rows: Seq<RepostView>, l: Seq<int>, k: int)
    requires
        sorted_by(l, by_link_and_time(rows)),
        forall|i: int| #[trigger] l.contains(i) <==> 0 <= i < rows.len(),
        0 <= k < l.len(),
    ensures
        is_repost(rows, l[k]) <==> k > 0 && rows[l[k - 1]].url == rows[l[k]].url,
{
    let less = by_link_and_time(rows);
    order_of_posts_is_strict(rows);
    let i = l[k];
    if k > 0 && rows[l[k - 1]].url == rows[i].url {
        assert(less(l[k - 1], l[k]));
        lex_lt_irreflexive(rows[i].url);
        assert(l.contains(l[k - 1]));
        assert(posted_before(rows, l[k - 1], i));
    }
    if is_repost(rows, i) {
        let j = choose|j: int|
            0 <= j < rows.len() && rows[j].url == rows[i].url && #[trigger] posted_before(
                rows,
                j,
                i,
            );
        assert(l.contains(j));
        let m = l.index_of(j);
        assert(less(j, i));
        if m > k {
            assert(less(l[k], l[m]));
        }
        if m == k {
            assert(!less(j, i));
        }
        assert(m < k);
        let p = l[k - 1];
        assert(less(l[k - 1], l[k]));
        if rows[p].url != rows[i].url {
            assert(lex_lt(rows[p].url, rows[i].url));
            assert(m < k - 1);
            assert(less(l[m], l[k - 1]));
            lex_lt_asymmetric(rows[p].url, rows[i].url);
        }
    }
}

/// Which posts are reposts.
pub fn repost_flags(rows: &Vec<Repost>) -> (r: Vec<bool>)
    ensures
        r@.len() == rows@.len(),
        forall|i: int| 0 <= i < r@.len() ==> #[trigger] r@[i] == is_repost(row_views(rows@), i),
{
    let ghost views = row_views(rows@);
    let mut ids: Vec<usize> = Vec::new();
    let mut flags: Vec<bool> = Vec::new();
    let mut i: usize = 0;
    while i < rows.len()
        invariant
            i <= rows@.len(),
            ids@.len() == i,
            flags@.len() == i,
            forall|k: int| 0 <= k < i ==> #[trigger] ids@[k] == k,
        decreases rows@.len() - i,
    {
        ids.push(i);
        flags.push(false);
        i = i + 1;
    }
    let sorted = sort_rows(rows, &ids, 0, ids.len());
    let ghost l = numbers(sorted@);
    proof {
        assert(ids@.subrange(0, ids@.len() as int) =~= ids@);
        assert forall|n: int| #[trigger] l.contains(n) <==> 0 <= n < views.len() by {
            if l.contains(n) {
                let k = l.index_of(n);
                assert(sorted@[k] < rows@.len());
            }
            if 0 <= n < views.len() {
                assert(ids@[n] == n);
                assert(ids@.to_set().contains(n as usize));
                assert(sorted@.to_set().contains(n as usize));
                let k = sorted@.index_of(n as usize);
                assert(l[k] == n);
            }
        }
    }
    let mut k: usize = 0;
    while k < sorted.len()
        invariant
            k <= sorted@.len(),
            sorted@.len() == rows@.len(),
            views == row_views(rows@),
            l == numbers(sorted@),
            flags@.len() == rows@.len(),
            distinct_rows(sorted@, rows@.len()),
            sorted_by(l, by_link_and_time(views)),
            forall|n: int| #[trigger] l.contains(n) <==> 0 <= n < views.len(),
            forall|m: int|
                0 <= m < k ==> flags@[#[trigger] sorted@[m] as int] == is_repost(
                    views,
                    sorted@[m] as int,
                ),
        decreases sorted@.len() - k,
    {
        let row = sorted[k];
        let seen = k > 0 && same(rows[sorted[k - 1]].url.as_str(), rows[row].url.as_str());
        proof {
            neighbour_decides(views, l, k as int);
            assert(l[k as int] == row);
            if k > 0 {
                assert(l[k - 1] == sorted@[k - 1]);
            }
        }
        flags.set(row, seen);
        k = k + 1;
    }
    assert forall|n: int| 0 <= n < flags@.len() implies #[trigger] flags@[n] == is_repost(
        views,
        n,
    ) by {
        assert(l.contains(n));
        let m = l.index_of(n);
        assert(sorted@[m] == n);
    }
    flags
}

} // verus!
