//! What holds of the bot as a whole.

use vstd::prelude::*;

use crate::counting::{
    count_is_monotone, count_is_size, count_of_equals, count_of_rest, count_where, positions,
};
use crate::discord_handler::{
    admin_action, after_links, request_of, responded, AdminActionView, ChatMessage, NOT_ADMIN,
    UNKNOWN_COMMAND, USAGE,
};
use crate::links::{
    is_link, link_at, link_end, link_texts, links_from, no_white, present_was_there, url_of,
    urls_in, UrlView,
};
use crate::moment::MomentView;
use crate::posts::{
    by_time, history, history_exists, history_is_unique, is_repost, order_of_posts_is_strict,
    posted_before, RepostView,
};
use crate::ranking::{
    by_frequency, is_key, is_ranking, occurrences, ranking, ranking_exists, Ranked,
};
use crate::reports::{
    best, is_of_day, is_repost_by, link_set, percent, posts_on, report_line, report_lines,
    report_text, reposts_by, times_word, user_keys,
};
use crate::repost_checker::{
    host_key, location_of, new_post, site_of, LocationView, SiteDecisionView, StoreView,
};
use crate::text::{
    begins_with, decimal, is_white, join, lex_lt, lex_lt_asymmetric, lex_lt_irreflexive,
    parse_gives_back_what_was_written, stands_at, word_end, word_end_bounds, words, words_from,
};
use crate::users::{mention_of, mention_text};

verus! {

// ---------------------------------------------------------------------------------------------
// Reports
// ---------------------------------------------------------------------------------------------

/// The rows with a link.
pub open spec fn is_post_of(rows: Seq<RepostView>, url: Seq<char>) -> spec_fn(int) -> bool {
    |i: int| rows[i].url == url
}

/// A URL is reported if and only if its host is not ignored and it has been posted.
pub proof fn reported_if_and_only_if_posted(store: StoreView, u: UrlView)
    ensures
        store.report(u) is Some <==> !store.ignores(u) && exists|i: int|
            0 <= i < store.reposts.len() && (#[trigger] store.reposts[i]).url == u.text,
{
    let h = history(store.reposts, u.text);
    history_exists(store.reposts, u.text);
    if h.len() > 0 {
        assert(h.contains(h[0]));
        assert(store.reposts[h[0]].url == u.text);
    }
    if exists|i: int| 0 <= i < store.reposts.len() && (#[trigger] store.reposts[i]).url == u.text {
        let i = choose|i: int|
            0 <= i < store.reposts.len() && (#[trigger] store.reposts[i]).url == u.text;
        assert(h.contains(i));
    }
}

/// No row is listed twice among the posts of a link.
proof fn history_names_each_row_once(rows: Seq<RepostView>, url: Seq<char>)
    ensures
        history(rows, url).no_duplicates(),
{
    history_exists(rows, url);
    order_of_posts_is_strict(rows);
    let h = history(rows, url);
    let less = by_time(rows);
    assert forall|i: int, j: int| 0 <= i < h.len() && 0 <= j < h.len() && i != j implies h[i]
        != h[j] by {
        if i < j {
            assert(less(h[i], h[j]));
        } else {
            assert(less(h[j], h[i]));
        }
    }
}

/// A report says how often the link has been posted.
pub proof fn report_counts_the_posts(rows: Seq<RepostView>, url: Seq<char>)
    ensures
        history(rows, url).len() == count_where(rows.len(), is_post_of(rows, url)),
{
    let h = history(rows, url);
    let p = is_post_of(rows, url);
    history_exists(rows, url);
    history_names_each_row_once(rows, url);
    h.unique_seq_to_set();
    count_is_size(rows.len(), p);
    assert forall|i: int| h.to_set().contains(i) == positions(rows.len(), p).contains(i) by {
        assert(h.contains(i) <==> 0 <= i < rows.len() && rows[i].url == url);
    }
    assert(h.to_set() =~= positions(rows.len(), p));
}

/// What has been posted is remembered: once a URL has been added, it is reported with one post
/// more than before, and the report names the new post.
pub proof fn posting_is_remembered(store: StoreView, u: UrlView, user_id: u64, now: MomentView)
    requires
        !store.ignores(u),
    ensures
        ({
            let row = new_post(u, user_id, now);
            let later = store.with_post(row);
            let posts = history(later.reposts, u.text);
            &&& later.report(u) == Some(report_text(later.reposts, u.text, posts))
            &&& posts.len() == history(store.reposts, u.text).len() + 1
            &&& posts.contains(store.reposts.len() as int)
            &&& report_lines(later.reposts, posts).contains(report_line(row))
        }),
{
    let row = new_post(u, user_id, now);
    let later = store.with_post(row);
    let posts = history(later.reposts, u.text);
    let n = store.reposts.len();
    history_exists(later.reposts, u.text);
    assert(later.reposts[n as int] == row);
    assert(posts.contains(n as int));
    let k = posts.index_of(n as int);
    assert(report_lines(later.reposts, posts)[k] == report_line(row));
    report_counts_the_posts(store.reposts, u.text);
    report_counts_the_posts(later.reposts, u.text);
    let p = is_post_of(store.reposts, u.text);
    let q = is_post_of(later.reposts, u.text);
    assert forall|i: int| 0 <= i < n implies #[trigger] p(i) == q(i) by {
        assert(later.reposts[i] == store.reposts[i]);
    }
    count_of_equals(n, p, q);
    assert(q(n as int));
}

/// A post changes no report but that about its own link.
pub proof fn posting_leaves_other_links_alone(store: StoreView, row: RepostView, u: UrlView)
    requires
        row.url != u.text,
    ensures
        store.with_post(row).report(u) == store.report(u),
{
    let later = store.with_post(row);
    let h = history(store.reposts, u.text);
    history_exists(store.reposts, u.text);
    assert forall|i: int| #[trigger] h.contains(i) <==> 0 <= i < later.reposts.len()
        && later.reposts[i].url == u.text by {
        if 0 <= i < store.reposts.len() {
            assert(later.reposts[i] == store.reposts[i]);
        }
    }
    assert forall|i: int, j: int| 0 <= i < j < h.len() implies by_time(later.reposts)(
        #[trigger] h[i],
        #[trigger] h[j],
    ) by {
        assert(by_time(store.reposts)(h[i], h[j]));
        assert(h.contains(h[i]) && h.contains(h[j]));
        assert(later.reposts[h[i]] == store.reposts[h[i]]);
        assert(later.reposts[h[j]] == store.reposts[h[j]]);
    }
    history_is_unique(h, later.reposts, u.text);
    assert forall|k: int| 0 <= k < h.len() implies report_lines(later.reposts, h)[k]
        == report_lines(store.reposts, h)[k] by {
        assert(h.contains(h[k]));
        assert(later.reposts[h[k]] == store.reposts[h[k]]);
    }
    assert(report_lines(later.reposts, h) =~= report_lines(store.reposts, h));
}

/// The credit goes to who posted a link first: in the order of a report the first post is the one
/// that is no repost, and all others are reposts.
pub proof fn first_post_gets_the_credit(rows: Seq<RepostView>, url: Seq<char>, k: int)
    requires
        0 <= k < history(rows, url).len(),
    ensures
        is_repost(rows, history(rows, url)[k]) <==> k > 0,
{
    let h = history(rows, url);
    history_exists(rows, url);
    order_of_posts_is_strict(rows);
    let less = by_time(rows);
    assert(h.contains(h[k]));
    if k > 0 {
        assert(h.contains(h[0]));
        assert(less(h[0], h[k]));
        assert(posted_before(rows, h[0], h[k]));
    } else if is_repost(rows, h[0]) {
        let j = choose|j: int|
            0 <= j < rows.len() && rows[j].url == rows[h[0]].url && #[trigger] posted_before(
                rows,
                j,
                h[0],
            );
        assert(h.contains(j));
        let m = h.index_of(j);
        assert(less(j, h[0]));
        if m > 0 {
            assert(less(h[0], h[m]));
        }
    }
}

/// A report lists the posts in the order of their times.
pub proof fn report_is_in_order_of_time(rows: Seq<RepostView>, url: Seq<char>, j: int, k: int)
    requires
        0 <= j < k < history(rows, url).len(),
    ensures
        !lex_lt(rows[history(rows, url)[k]].posted_at, rows[history(rows, url)[j]].posted_at),
{
    let h = history(rows, url);
    history_exists(rows, url);
    let less = by_time(rows);
    assert(less(h[j], h[k]));
    lex_lt_irreflexive(rows[h[j]].posted_at);
    if lex_lt(rows[h[j]].posted_at, rows[h[k]].posted_at) {
        lex_lt_asymmetric(rows[h[j]].posted_at, rows[h[k]].posted_at);
    }
}

/// The user that a report mentions is the user that posted.
pub proof fn poster_is_mentioned(u: UrlView, user_id: u64, now: MomentView)
    ensures
        mention_text(new_post(u, user_id, now).user_id) == mention_of(user_id),
{
    parse_gives_back_what_was_written(user_id);
}

// ---------------------------------------------------------------------------------------------
// Statistics
// ---------------------------------------------------------------------------------------------

/// The sum of a number for each entry of a ranking.
pub open spec fn sum_over(l: Seq<Ranked>, f: spec_fn(Ranked) -> nat) -> nat
    decreases l.len(),
{
    if l.len() == 0 {
        0
    } else {
        sum_over(l.drop_last(), f) + f(l.last())
    }
}

/// The number of posts of an entry.
pub open spec fn posts_in() -> spec_fn(Ranked) -> nat {
    |e: Ranked| e.1
}

/// The number of reposts of the user of an entry.
pub open spec fn reposts_in(rows: Seq<RepostView>) -> spec_fn(Ranked) -> nat {
    |e: Ranked| reposts_by(rows, e.0)
}

/// The rows that are reposts.
pub open spec fn is_repost_row(rows: Seq<RepostView>) -> spec_fn(int) -> bool {
    |i: int| is_repost(rows, i)
}

/// The positions among `keys` that hold `key` and have a property.
spec fn key_and(keys: Seq<Seq<char>>, key: Seq<char>, p: spec_fn(int) -> bool) -> spec_fn(
    int,
) -> bool {
    |i: int| keys[i] == key && p(i)
}

/// How many of the first `n` positions hold the text of an entry and have a property.
spec fn counted(keys: Seq<Seq<char>>, p: spec_fn(int) -> bool, n: nat) -> spec_fn(Ranked) -> nat {
    |e: Ranked| count_where(n, key_and(keys, e.0, p))
}

/// An entry of a ranking is about a text.
spec fn has_entry(l: Seq<Ranked>, key: Seq<char>) -> bool {
    exists|i: int| 0 <= i < l.len() && (#[trigger] l[i]).0 == key
}

proof fn sum_of_equals(l: Seq<Ranked>, f: spec_fn(Ranked) -> nat, g: spec_fn(Ranked) -> nat)
    requires
        forall|i: int| 0 <= i < l.len() ==> f(#[trigger] l[i]) == g(l[i]),
    ensures
        sum_over(l, f) == sum_over(l, g),
    decreases l.len(),
{
    if l.len() > 0 {
        assert(f(l[l.len() - 1]) == g(l[l.len() - 1]));
        assert forall|i: int| 0 <= i < l.drop_last().len() implies f(#[trigger] l.drop_last()[i])
            == g(l.drop_last()[i]) by {
            assert(l.drop_last()[i] == l[i]);
        }
        sum_of_equals(l.drop_last(), f, g);
    }
}

proof fn one_more_position(
    l: Seq<Ranked>,
    keys: Seq<Seq<char>>,
    p: spec_fn(int) -> bool,
    n: nat,
)
    requires
        n > 0,
        forall|i: int, j: int| 0 <= i < j < l.len() ==> (#[trigger] l[i]).0 != (#[trigger] l[j]).0,
    ensures
        sum_over(l, counted(keys, p, n)) == sum_over(l, counted(keys, p, (n - 1) as nat)) + (if p(
            n - 1,
        ) && has_entry(l, keys[n - 1]) {
            1nat
        } else {
            0nat
        }),
    decreases l.len(),
{
    if l.len() > 0 {
        let rest = l.drop_last();
        let last = l.last();
        assert forall|i: int, j: int| 0 <= i < j < rest.len() implies (#[trigger] rest[i]).0 != (
        #[trigger] rest[j]).0 by {
            assert(rest[i] == l[i] && rest[j] == l[j]);
        }
        one_more_position(rest, keys, p, n);
        let key = keys[n - 1];
        if last.0 == key {
            assert(l[l.len() - 1].0 == key);
            if has_entry(rest, key) {
                let i = choose|i: int| 0 <= i < rest.len() && (#[trigger] rest[i]).0 == key;
                assert(l[i].0 == l[l.len() - 1].0);
            }
        } else {
            if has_entry(l, key) {
                let i = choose|i: int| 0 <= i < l.len() && (#[trigger] l[i]).0 == key;
                assert(rest[i].0 == key);
            }
            if has_entry(rest, key) {
                let i = choose|i: int| 0 <= i < rest.len() && (#[trigger] rest[i]).0 == key;
                assert(l[i].0 == key);
            }
        }
        assert(key_and(keys, last.0, p)(n - 1) == (last.0 == key && p(n - 1)));
    }
}

proof fn entries_share_the_positions(
    l: Seq<Ranked>,
    keys: Seq<Seq<char>>,
    p: spec_fn(int) -> bool,
    n: nat,
)
    requires
        n <= keys.len(),
        forall|i: int, j: int| 0 <= i < j < l.len() ==> (#[trigger] l[i]).0 != (#[trigger] l[j]).0,
        forall|i: int| 0 <= i < keys.len() ==> has_entry(l, #[trigger] keys[i]),
    ensures
        sum_over(l, counted(keys, p, n)) == count_where(n, p),
    decreases n,
{
    if n == 0 {
        let zero = |e: Ranked| 0nat;
        sum_of_equals(l, counted(keys, p, 0), zero);
        sum_of_zeros(l);
    } else {
        entries_share_the_positions(l, keys, p, (n - 1) as nat);
        one_more_position(l, keys, p, n);
        assert(has_entry(l, keys[n - 1]));
    }
}

proof fn sum_of_zeros(l: Seq<Ranked>)
    ensures
        sum_over(l, |e: Ranked| 0nat) == 0,
    decreases l.len(),
{
    if l.len() > 0 {
        sum_of_zeros(l.drop_last());
    }
}

proof fn ranking_partitions(keys: Seq<Seq<char>>)
    ensures
        is_ranking(ranking(keys), keys),
        forall|i: int, j: int|
            0 <= i < j < ranking(keys).len() ==> (#[trigger] ranking(keys)[i]).0 != (
            #[trigger] ranking(keys)[j]).0,
        forall|i: int| 0 <= i < keys.len() ==> has_entry(ranking(keys), #[trigger] keys[i]),
{
    ranking_exists(keys);
    let l = ranking(keys);
    let less = by_frequency();
    assert forall|i: int, j: int| 0 <= i < j < l.len() implies (#[trigger] l[i]).0 != (
    #[trigger] l[j]).0 by {
        assert(less(l[i], l[j]));
        assert(l.contains(l[i]) && l.contains(l[j]));
        lex_lt_irreflexive(l[i].0);
    }
    assert forall|i: int| 0 <= i < keys.len() implies has_entry(l, #[trigger] keys[i]) by {
        let e = (keys[i], occurrences(keys, keys[i]));
        assert(keys.contains(keys[i]));
        assert(l.contains(e));
        assert(l[l.index_of(e)].0 == keys[i]);
    }
}

/// The posts of all users in the statistics are all posts.
pub proof fn statistics_count_every_post(rows: Seq<RepostView>)
    ensures
        sum_over(ranking(user_keys(rows)), posts_in()) == rows.len(),
{
    let keys = user_keys(rows);
    let l = ranking(keys);
    ranking_partitions(keys);
    let all = |i: int| true;
    entries_share_the_positions(l, keys, all, keys.len());
    assert forall|i: int| 0 <= i < l.len() implies posts_in()(#[trigger] l[i]) == counted(
        keys,
        all,
        keys.len(),
    )(l[i]) by {
        assert(l.contains(l[i]));
        let p = is_key(keys, l[i].0);
        let q = key_and(keys, l[i].0, all);
        assert forall|j: int| 0 <= j < keys.len() implies #[trigger] p(j) == q(j) by {}
        count_of_equals(keys.len(), p, q);
    }
    sum_of_equals(l, posts_in(), counted(keys, all, keys.len()));
    let none = |i: int| false;
    count_of_rest(keys.len(), all, none);
    count_of_none(keys.len());
}

proof fn count_of_none(n: nat)
    ensures
        count_where(n, |i: int| false) == 0,
    decreases n,
{
    if n > 0 {
        count_of_none((n - 1) as nat);
    }
}

/// Every link has exactly one first post.
proof fn first_posts_are_links(rows: Seq<RepostView>)
    ensures
        count_where(rows.len(), |i: int| !is_repost(rows, i)) == link_set(rows).len(),
{
    let first = |i: int| !is_repost(rows, i);
    let n = rows.len();
    let firsts = positions(n, first);
    count_is_size(n, first);
    let url = |i: int| rows[i].url;
    let urls = rows.map_values(|r: RepostView| r.url);
    assert forall|i: int| 0 <= i < n && first(i) implies history(rows, #[trigger] rows[i].url).len()
        > 0 && history(rows, rows[i].url)[0] == i by {
        let h = history(rows, rows[i].url);
        history_exists(rows, rows[i].url);
        assert(h.contains(i));
        let k = h.index_of(i);
        first_post_gets_the_credit(rows, rows[i].url, k);
    }
    assert(vstd::relations::injective_on(url, firsts)) by {
        assert forall|a: int, b: int| #[trigger]
            firsts.contains(a) && #[trigger] firsts.contains(b) && url(a) == url(b) implies a
            == b by {
            assert(history(rows, rows[a].url)[0] == a);
            assert(history(rows, rows[b].url)[0] == b);
        }
    }
    assert(firsts.map(url) =~= link_set(rows)) by {
        assert forall|t: Seq<char>| firsts.map(url).contains(t) == link_set(rows).contains(t) by {
            if firsts.map(url).contains(t) {
                let i = choose|i: int| #[trigger] firsts.contains(i) && url(i) == t;
                assert(urls[i] == t);
            }
            if urls.contains(t) {
                let j = urls.index_of(t);
                let h = history(rows, t);
                history_exists(rows, t);
                assert(rows[j].url == t);
                assert(h.contains(j));
                assert(h.contains(h[0]));
                first_post_gets_the_credit(rows, t, 0);
                assert(firsts.contains(h[0]));
                assert(url(h[0]) == t);
            }
        }
    }
    vstd::set_lib::lemma_map_size(firsts, link_set(rows), url);
}

/// The reposts of all users in the statistics are all posts but the first of each link.
pub proof fn statistics_count_every_repost(rows: Seq<RepostView>)
    ensures
        sum_over(ranking(user_keys(rows)), reposts_in(rows)) + link_set(rows).len() == rows.len(),
{
    let keys = user_keys(rows);
    let l = ranking(keys);
    let again = is_repost_row(rows);
    ranking_partitions(keys);
    entries_share_the_positions(l, keys, again, keys.len());
    assert forall|i: int| 0 <= i < l.len() implies reposts_in(rows)(#[trigger] l[i]) == counted(
        keys,
        again,
        keys.len(),
    )(l[i]) by {
        let p = is_repost_by(rows, l[i].0);
        let q = key_and(keys, l[i].0, again);
        assert forall|j: int| 0 <= j < keys.len() implies #[trigger] p(j) == q(j) by {}
        count_of_equals(keys.len(), p, q);
    }
    sum_of_equals(l, reposts_in(rows), counted(keys, again, keys.len()));
    let first = |i: int| !is_repost(rows, i);
    count_of_rest(rows.len(), again, first);
    first_posts_are_links(rows);
}

/// A user has at most as many reposts as posts, so at most a hundred percent.
pub proof fn share_of_reposts_is_a_percentage(rows: Seq<RepostView>, k: int)
    requires
        0 <= k < ranking(user_keys(rows)).len(),
    ensures
        ({
            let e = ranking(user_keys(rows))[k];
            &&& 0 < e.1
            &&& reposts_by(rows, e.0) <= e.1
            &&& percent(reposts_by(rows, e.0), e.1) <= 100
        }),
{
    let keys = user_keys(rows);
    let l = ranking(keys);
    let e = l[k];
    ranking_exists(keys);
    assert(l.contains(e));
    let posts = is_key(keys, e.0);
    let again = is_repost_by(rows, e.0);
    assert forall|j: int| 0 <= j < rows.len() && #[trigger] again(j) implies posts(j) by {}
    count_is_monotone(rows.len(), again, posts);
    let i = keys.index_of(e.0);
    count_is_size(keys.len(), posts);
    assert(positions(keys.len(), posts).contains(i));
    let r = reposts_by(rows, e.0);
    assert((200 * r + e.1) / (2 * e.1) <= 100) by (nonlinear_arith)
        requires
            0 < e.1,
            r <= e.1,
    ;
}

/// A list of the most frequent holds five entries at most, and all where there are no more; each
/// is a text with the number of times that it occurs, and the more frequent come first.
pub proof fn top_list_is_ranked(keys: Seq<Seq<char>>)
    ensures
        best(ranking(keys)).len() <= 5,
        ranking(keys).len() <= 5 ==> best(ranking(keys)) == ranking(keys),
        forall|i: int|
            0 <= i < best(ranking(keys)).len() ==> keys.contains(
                (#[trigger] best(ranking(keys))[i]).0,
            ) && best(ranking(keys))[i].1 == occurrences(keys, best(ranking(keys))[i].0),
        forall|i: int, j: int|
            0 <= i < j < best(ranking(keys)).len() ==> (#[trigger] best(ranking(keys))[i]).1 >= (
            #[trigger] best(ranking(keys))[j]).1,
{
    let l = ranking(keys);
    let top = best(l);
    let less = by_frequency();
    ranking_exists(keys);
    assert forall|i: int| 0 <= i < top.len() implies keys.contains((#[trigger] top[i]).0)
        && top[i].1 == occurrences(keys, top[i].0) by {
        assert(top[i] == l[i]);
        assert(l.contains(l[i]));
    }
    assert forall|i: int, j: int| 0 <= i < j < top.len() implies (#[trigger] top[i]).1 >= (
    #[trigger] top[j]).1 by {
        assert(less(l[i], l[j]));
    }
}

/// No text that is left out of a list of the most frequent is more frequent than one that is
/// shown, and then the list is full.
pub proof fn top_list_leaves_out_the_less_frequent(
    keys: Seq<Seq<char>>,
    shown: int,
    other: Seq<char>,
)
    requires
        0 <= shown < best(ranking(keys)).len(),
        keys.contains(other),
        forall|k: int| 0 <= k < best(ranking(keys)).len() ==> (#[trigger] best(ranking(keys))[k]).0
            != other,
    ensures
        occurrences(keys, other) <= best(ranking(keys))[shown].1,
        best(ranking(keys)).len() == 5,
{
    let l = ranking(keys);
    let top = best(l);
    let less = by_frequency();
    ranking_exists(keys);
    let e = (other, occurrences(keys, other));
    assert(l.contains(e));
    let m = l.index_of(e);
    assert(top[shown] == l[shown]);
    if m < top.len() {
        assert(top[m].0 == other);
    }
    assert(less(l[shown], l[m]));
}

/// A post made today is counted today.
pub proof fn todays_post_is_counted(store: StoreView, u: UrlView, user_id: u64, now: MomentView)
    requires
        now.stored_day() is Some,
    ensures
        posts_on(store.with_post(new_post(u, user_id, now)).reposts, now.date_text()) == posts_on(
            store.reposts,
            now.date_text(),
        ) + 1,
{
    let later = store.with_post(new_post(u, user_id, now)).reposts;
    let n = store.reposts.len();
    let p = is_of_day(store.reposts, now.date_text());
    let q = is_of_day(later, now.date_text());
    assert forall|i: int| 0 <= i < n implies #[trigger] p(i) == q(i) by {
        assert(later[i] == store.reposts[i]);
    }
    count_of_equals(n, p, q);
    assert(later[n as int] == new_post(u, user_id, now));
    assert(q(n as int));
}

// ---------------------------------------------------------------------------------------------
// Hosts
// ---------------------------------------------------------------------------------------------

/// Nothing from an ignored host is reported, and everything from other hosts is reported as
/// before.
pub proof fn ignoring_silences_one_host(store: StoreView, host: Seq<char>, u: UrlView)
    ensures
        host_key(u) == host ==> store.with_ignored(host).report(u) is None,
        host_key(u) != host ==> store.with_ignored(host).report(u) == store.report(u),
{
}

/// What is ignored, or always enabled, and then no longer so, is as it was, whichever comes first.
pub proof fn adding_and_removing_undo_each_other(store: StoreView, host: Seq<char>)
    ensures
        !store.ignored.contains(host) ==> store.with_ignored(host).without_ignored(host) == store,
        store.ignored.contains(host) ==> store.without_ignored(host).with_ignored(host) == store,
        !store.always_enabled.contains(host) ==> store.with_always_enabled(
            host,
        ).without_always_enabled(host) == store,
        store.always_enabled.contains(host) ==> store.without_always_enabled(
            host,
        ).with_always_enabled(host) == store,
{
    if store.ignored.contains(host) {
        assert(store.ignored.remove(host).insert(host) =~= store.ignored);
    } else {
        assert(store.ignored.insert(host).remove(host) =~= store.ignored);
    }
    if store.always_enabled.contains(host) {
        assert(store.always_enabled.remove(host).insert(host) =~= store.always_enabled);
    } else {
        assert(store.always_enabled.insert(host).remove(host) =~= store.always_enabled);
    }
}

/// A wish never silences a host that is always enabled, and then nothing changes.
pub proof fn always_enabled_host_is_never_silenced(store: StoreView, host: Seq<char>)
    requires
        store.always_enabled.contains(host),
    ensures
        !(store.decide_site(Some(host)) is Ignore),
        store.after_decision(store.decide_site(Some(host))) == store,
        !store.ignored.contains(host) ==> store.decide_site(Some(host)).reply(true) == Some(
            "Sorry, det går inte att stänga av "@ + host,
        ),
{
}

/// A wish to silence a host that is carried out silences it, and once is enough: the same wish
/// again is met with silence.
pub proof fn silenced_host_stays_silent(store: StoreView, host: Seq<char>, u: UrlView)
    requires
        !store.ignored.contains(host),
        !store.always_enabled.contains(host),
    ensures
        ({
            let later = store.after_decision(store.decide_site(Some(host)));
            &&& store.decide_site(Some(host)).reply(true) == Some(
                "Ok, ska sluta rapportera från "@ + host,
            )
            &&& u.host == Some(host) ==> later.report(u) is None
            &&& later.decide_site(Some(host)) is Nothing
            &&& later.decide_site(Some(host)).reply(true) is None
        }),
{
}

/// Whether a host is always enabled changes no report.
pub proof fn always_enabled_hosts_change_no_report(store: StoreView, host: Seq<char>, u: UrlView)
    ensures
        store.with_always_enabled(host).report(u) == store.report(u),
        store.without_always_enabled(host).report(u) == store.report(u),
{
}

/// A link at the beginning of a text, with a space behind it, is the first that is found.
proof fn leading_link_is_found(link: Seq<char>, rest: Seq<char>)
    requires
        link_at(link, 0),
        no_white(link),
        rest.len() > 0,
        is_white(rest[0]),
    ensures
        link_texts(link + rest).len() > 0,
        link_texts(link + rest)[0] == link,
{
    let s = link + rest;
    reveal_strlit("http://");
    reveal_strlit("https://");
    if stands_at(link, "http://"@, 0) && 7 < link.len() && !is_white(link[7]) {
        assert(s.subrange(0, 7) =~= link.subrange(0, 7));
        assert(s[7] == link[7]);
    } else {
        assert(s.subrange(0, 8) =~= link.subrange(0, 8));
        assert(s[8] == link[8]);
    }
    assert(link_at(s, 0));
    link_end(s, 0);
    let e = word_end(s, 0);
    if e < link.len() {
        assert(s[e] == link[e]);
    }
    if e > link.len() {
        assert(s[link.len() as int] == rest[0]);
    }
    assert(s.subrange(0, e) =~= link);
    assert(links_from(s, 0) =~= seq![link] + links_from(s, e));
}

/// A thumbs down on a report silences the host of the link that it reports, unless that host is
/// always enabled. It holds of every link whose text parses to a URL with
/// the same host, so of every one that stands for itself.
pub proof fn thumbs_down_on_a_report_silences_its_host(store: StoreView, u: UrlView)
    requires
        is_link(u),
        url_of(u.text) is Some,
        url_of(u.text)->0.host == u.host,
        store.report(u) is Some,
        !store.always_enabled.contains(host_key(u)),
    ensures
        site_of(urls_in(store.report(u)->0)) == u.host,
        store.decide_site(site_of(urls_in(store.report(u)->0))) == SiteDecisionView::Ignore(
            host_key(u),
        ),
{
    let message = store.report(u)->0;
    let posts = history(store.reposts, u.text);
    let rest = " har postats "@ + decimal(posts.len()) + " "@ + times_word(posts.len()) + "!\n"@
        + join(report_lines(store.reposts, posts), "\n"@);
    reveal_strlit(" har postats ");
    assert(message =~= u.text + rest);
    assert(is_white(rest[0]));
    leading_link_is_found(u.text, rest);
    let parsed = link_texts(message).map_values(|t: Seq<char>| url_of(t));
    assert(parsed[0] == url_of(u.text));
    present_was_there(parsed);
}

// ---------------------------------------------------------------------------------------------
// The database
// ---------------------------------------------------------------------------------------------

/// A file is named by its path with `sqlite:` before it or not, but for a path that itself begins
/// so, and for the word that names memory.
pub proof fn database_has_two_names(path: Seq<char>)
    requires
        !begins_with(path, "sqlite:"@),
        path != ":memory:"@,
    ensures
        location_of("sqlite:"@ + path) == LocationView::File(path),
        location_of(path) == LocationView::File(path),
{
    let url = "sqlite:"@ + path;
    reveal_strlit("sqlite:");
    reveal_strlit(":memory:");
    reveal_strlit("sqlite::memory:");
    assert(url.subrange(0, 7) =~= "sqlite:"@);
    assert(url.skip(7) =~= path);
    assert("sqlite::memory:"@.subrange(0, 7) =~= "sqlite:"@);
    if url == "sqlite::memory:"@ {
        assert("sqlite::memory:"@.skip(7) =~= ":memory:"@);
    }
}

/// A database that is opened again, under any name that it has, is the same store: reading what
/// was stored gives the posts and the hosts that there were. A new one has none.
pub proof fn store_opened_again_is_the_same(store: StoreView, database_url: Seq<char>)
    requires
        location_of(database_url) == store.location,
    ensures
        StoreView::empty(location_of(database_url)).loaded(
            store.reposts,
            store.ignored,
            store.always_enabled,
        ) == store,
        StoreView::empty(location_of(database_url)).reposts.len() == 0,
        StoreView::empty(location_of(database_url)).ignored.is_empty(),
        StoreView::empty(location_of(database_url)).always_enabled.is_empty(),
{
}

// ---------------------------------------------------------------------------------------------
// Messages
// ---------------------------------------------------------------------------------------------

/// Whether link `k` of a message is reported.
pub open spec fn is_reported(
    store: StoreView,
    urls: Seq<UrlView>,
    user_id: u64,
    now: MomentView,
) -> spec_fn(int) -> bool {
    |k: int| after_links(store, urls, user_id, now, k as nat).0.report(urls[k]) is Some
}

/// Every link of a message becomes one post of its author, in order, and nothing else changes in
/// the store.
pub proof fn every_link_is_stored(
    store: StoreView,
    urls: Seq<UrlView>,
    user_id: u64,
    now: MomentView,
    k: nat,
)
    requires
        k <= urls.len(),
    ensures
        after_links(store, urls, user_id, now, k).0 == (StoreView {
            reposts: store.reposts + urls.take(k as int).map_values(
                |u: UrlView| new_post(u, user_id, now),
            ),
            ..store
        }),
    decreases k,
{
    let post = |u: UrlView| new_post(u, user_id, now);
    let later = after_links(store, urls, user_id, now, k).0;
    if k == 0 {
        assert(later.reposts =~= store.reposts + urls.take(0).map_values(post));
    } else {
        every_link_is_stored(store, urls, user_id, now, (k - 1) as nat);
        assert(later.reposts =~= store.reposts + urls.take(k as int).map_values(post));
    }
}

/// There is one message for each link that is reported, and none for the others.
pub proof fn one_message_for_each_report(
    store: StoreView,
    urls: Seq<UrlView>,
    user_id: u64,
    now: MomentView,
    k: nat,
)
    ensures
        after_links(store, urls, user_id, now, k).1.len() == count_where(
            k,
            is_reported(store, urls, user_id, now),
        ),
    decreases k,
{
    if k > 0 {
        one_message_for_each_report(store, urls, user_id, now, (k - 1) as nat);
    }
}

proof fn messages_are_kept(
    store: StoreView,
    urls: Seq<UrlView>,
    user_id: u64,
    now: MomentView,
    k: nat,
    n: nat,
    message: Seq<char>,
)
    requires
        k <= n,
        after_links(store, urls, user_id, now, k).1.contains(message),
    ensures
        after_links(store, urls, user_id, now, n).1.contains(message),
    decreases n,
{
    if k < n {
        messages_are_kept(store, urls, user_id, now, k, (n - 1) as nat, message);
        let before = after_links(store, urls, user_id, now, (n - 1) as nat).1;
        let i = before.index_of(message);
        assert(after_links(store, urls, user_id, now, n).1[i] == message);
    }
}

/// A link that was posted before, or that stands earlier in the same message, is reported, unless
/// its host is ignored; the report counts every earlier post.
pub proof fn repost_is_reported(
    store: StoreView,
    urls: Seq<UrlView>,
    user_id: u64,
    now: MomentView,
    k: int,
)
    requires
        0 <= k < urls.len(),
        !store.ignores(urls[k]),
        (exists|i: int|
            0 <= i < store.reposts.len() && (#[trigger] store.reposts[i]).url == urls[k].text) || (
        exists|j: int| 0 <= j < k && (#[trigger] urls[j]).text == urls[k].text),
    ensures
        is_reported(store, urls, user_id, now)(k),
        after_links(store, urls, user_id, now, urls.len()).1.contains(
            after_links(store, urls, user_id, now, k as nat).0.report(urls[k])->0,
        ),
{
    let before = after_links(store, urls, user_id, now, k as nat).0;
    let post = |u: UrlView| new_post(u, user_id, now);
    every_link_is_stored(store, urls, user_id, now, k as nat);
    assert(before.reposts == store.reposts + urls.take(k).map_values(post));
    if exists|j: int| 0 <= j < k && (#[trigger] urls[j]).text == urls[k].text {
        let j = choose|j: int| 0 <= j < k && (#[trigger] urls[j]).text == urls[k].text;
        assert(before.reposts[store.reposts.len() + j] == post(urls[j]));
    } else {
        let i = choose|i: int|
            0 <= i < store.reposts.len() && (#[trigger] store.reposts[i]).url == urls[k].text;
        assert(before.reposts[i] == store.reposts[i]);
    }
    reported_if_and_only_if_posted(before, urls[k]);
    let text = before.report(urls[k])->0;
    let messages = after_links(store, urls, user_id, now, (k + 1) as nat).1;
    assert(messages.last() == text);
    messages_are_kept(store, urls, user_id, now, (k + 1) as nat, urls.len(), text);
}

/// Who posts a link that an earlier message held is told so, unless its host is ignored, and the
/// credit is given to who posted the earlier message: the report has a line with the mention of
/// that user and the time.
pub proof fn earlier_poster_gets_credit(
    store: StoreView,
    earlier: Seq<UrlView>,
    earlier_user: u64,
    earlier_time: MomentView,
    urls: Seq<UrlView>,
    user_id: u64,
    now: MomentView,
    j: int,
    k: int,
)
    requires
        0 <= j < earlier.len(),
        0 <= k < urls.len(),
        earlier[j].text == urls[k].text,
        !store.ignores(urls[k]),
    ensures
        ({
            let first = after_links(
                store,
                earlier,
                earlier_user,
                earlier_time,
                earlier.len(),
            ).0;
            let before = after_links(first, urls, user_id, now, k as nat).0;
            let posts = history(before.reposts, urls[k].text);
            &&& before.report(urls[k]) == Some(
                report_text(before.reposts, urls[k].text, posts),
            )
            &&& report_lines(before.reposts, posts).contains(
                "- "@ + mention_of(earlier_user) + " - "@ + earlier_time.timestamp_text(),
            )
            &&& after_links(first, urls, user_id, now, urls.len()).1.contains(
                report_text(before.reposts, urls[k].text, posts),
            )
        }),
{
    let first = after_links(store, earlier, earlier_user, earlier_time, earlier.len()).0;
    let before = after_links(first, urls, user_id, now, k as nat).0;
    let posts = history(before.reposts, urls[k].text);
    let post = |u: UrlView| new_post(u, earlier_user, earlier_time);
    let row = post(earlier[j]);
    every_link_is_stored(store, earlier, earlier_user, earlier_time, earlier.len());
    let i = store.reposts.len() + j;
    assert(earlier.take(earlier.len() as int) =~= earlier);
    assert(first.reposts[i] == row);
    every_link_is_stored(first, urls, user_id, now, k as nat);
    assert(before.reposts[i] == row);
    repost_is_reported(first, urls, user_id, now, k);
    history_exists(before.reposts, urls[k].text);
    assert(posts.contains(i));
    let n = posts.index_of(i);
    poster_is_mentioned(earlier[j], earlier_user, earlier_time);
    assert(report_lines(before.reposts, posts)[n] == report_line(row));
}

/// A link that is new to the bot, and that stands nowhere earlier in the message, is not reported.
pub proof fn new_link_is_not_reported(
    store: StoreView,
    urls: Seq<UrlView>,
    user_id: u64,
    now: MomentView,
    k: int,
)
    requires
        0 <= k < urls.len(),
        forall|i: int|
            0 <= i < store.reposts.len() ==> (#[trigger] store.reposts[i]).url != urls[k].text,
        forall|j: int| 0 <= j < k ==> (#[trigger] urls[j]).text != urls[k].text,
    ensures
        !is_reported(store, urls, user_id, now)(k),
{
    let before = after_links(store, urls, user_id, now, k as nat).0;
    let post = |u: UrlView| new_post(u, user_id, now);
    every_link_is_stored(store, urls, user_id, now, k as nat);
    assert forall|i: int| 0 <= i < before.reposts.len() implies (#[trigger] before.reposts[i]).url
        != urls[k].text by {
        if i < store.reposts.len() {
            assert(before.reposts[i] == store.reposts[i]);
        } else {
            assert(before.reposts[i] == post(urls[i - store.reposts.len()]));
        }
    }
    reported_if_and_only_if_posted(before, urls[k]);
}

/// The answer to a request is the only message, and leaves the store as it was.
pub proof fn requests_change_nothing(
    store: StoreView,
    m: ChatMessage,
    now: MomentView,
    later: StoreView,
    messages: Seq<Seq<char>>,
)
    requires
        responded(store, m, now, later, messages),
        !(request_of(m) is Links),
    ensures
        later == store,
        messages.len() == 1,
{
}

/// Who is no administrator changes nothing and is told so.
pub proof fn outsiders_change_nothing(store: StoreView, content: Seq<char>)
    ensures
        admin_action(false, content).store_after(store) == store,
        admin_action(false, content).answer(store) == NOT_ADMIN@,
{
}

/// A command and the host that it is about, as they are sent.
pub open spec fn command_line(command: Seq<char>, host: Seq<char>) -> Seq<char> {
    command + " "@ + host
}

/// A word with one space and another word behind it are two words.
proof fn two_words(a: Seq<char>, b: Seq<char>)
    requires
        a.len() > 0,
        b.len() > 0,
        no_white(a),
        no_white(b),
    ensures
        words(command_line(a, b)) == seq![a, b],
{
    let s = command_line(a, b);
    let n = a.len() as int;
    reveal_strlit(" ");
    assert forall|i: int| 0 <= i < n implies s[i] == a[i] by {}
    assert(s[n] == ' ');
    assert forall|i: int| 0 <= i < b.len() implies s[n + 1 + i] == b[i] by {}
    word_end_bounds(s, 0);
    let e = word_end(s, 0);
    if e < n {
        assert(s[e] == a[e]);
    }
    assert(e == n);
    assert(s.subrange(0, n) =~= a);
    word_end_bounds(s, n + 1);
    let f = word_end(s, n + 1);
    assert(!is_white(s[n + 1])) by {
        assert(s[n + 1] == b[0]);
    }
    if f < s.len() {
        assert(s[f] == b[f - n - 1]);
    }
    assert(f == s.len());
    assert(s.subrange(n + 1, f) =~= b);
    assert(words_from(s, f) =~= seq![]);
    assert(words_from(s, n + 1) =~= seq![b]);
    assert(words_from(s, n) == words_from(s, n + 1));
    assert(words_from(s, 0) =~= seq![a, b]);
}

/// The line about a command in the help.
pub open spec fn usage_line(command: Seq<char>, meaning: Seq<char>) -> Seq<char> {
    "- `"@ + command + "` - "@ + meaning + "\n"@
}

/// The help names five commands, and the text about unknown commands four.
pub proof fn texts_name_the_commands()
    ensures
        USAGE@ == "\nAvailable commands:\n"@ + usage_line(
            command_line("always-enable"@, "<host>"@),
            "Always check reposts for host"@,
        ) + usage_line(
            command_line("always-disable"@, "<host>"@),
            "Remove host from always enabled"@,
        ) + usage_line(
            command_line("ignore-add"@, "<host>"@),
            "Ignore reposts from host"@,
        ) + usage_line(
            command_line("ignore-remove"@, "<host>"@),
            "Remove host from ignore list"@,
        ) + usage_line("list-urls"@, "List all always-enabled and ignored hosts"@),
        UNKNOWN_COMMAND@ == "Unknown command. Available: "@ + "always-enable-add"@ + ", "@
            + "always-enable-remove"@ + ", "@ + "ignore-add"@ + ", "@ + "ignore-remove"@,
{
    reveal_strlit("\nAvailable commands:\n");
    reveal_strlit("- `");
    reveal_strlit("` - ");
    reveal_strlit("\n");
    reveal_strlit(" ");
    reveal_strlit("<host>");
    reveal_strlit("always-enable");
    reveal_strlit("always-disable");
    reveal_strlit("ignore-add");
    reveal_strlit("ignore-remove");
    reveal_strlit("list-urls");
    reveal_strlit("Always check reposts for host");
    reveal_strlit("Remove host from always enabled");
    reveal_strlit("Ignore reposts from host");
    reveal_strlit("Remove host from ignore list");
    reveal_strlit("List all always-enabled and ignored hosts");
    reveal_strlit("always-enable-add");
    reveal_strlit("always-enable-remove");
    reveal_strlit(", ");
    reveal_strlit("Unknown command. Available: ");
    reveal_strlit(
        "Unknown command. Available: always-enable-add, always-enable-remove, ignore-add, ignore-remove",
    );
    reveal_strlit(
        r#"
Available commands:
- `always-enable <host>` - Always check reposts for host
- `always-disable <host>` - Remove host from always enabled
- `ignore-add <host>` - Ignore reposts from host
- `ignore-remove <host>` - Remove host from ignore list
- `list-urls` - List all always-enabled and ignored hosts
"#,
    );
}

/// Every command that the two texts name is carried out when an administrator sends it with a
/// host.
pub proof fn commands_that_are_named_are_carried_out(host: Seq<char>)
    requires
        host.len() > 0,
        no_white(host),
    ensures
        admin_action(true, command_line("always-enable"@, host))
            == AdminActionView::AddAlwaysEnabled(host),
        admin_action(true, command_line("always-enable-add"@, host))
            == AdminActionView::AddAlwaysEnabled(host),
        admin_action(true, command_line("always-disable"@, host))
            == AdminActionView::RemoveAlwaysEnabled(host),
        admin_action(true, command_line("always-enable-remove"@, host))
            == AdminActionView::RemoveAlwaysEnabled(host),
        admin_action(true, command_line("ignore-add"@, host)) == AdminActionView::AddIgnore(host),
        admin_action(true, command_line("ignore-remove"@, host)) == AdminActionView::RemoveIgnore(
            host,
        ),
        admin_action(true, "list-urls"@) == AdminActionView::ListUrls,
{
    reveal_strlit("list-urls");
    reveal_strlit("always-enable");
    reveal_strlit("always-enable-add");
    reveal_strlit("always-disable");
    reveal_strlit("always-enable-remove");
    reveal_strlit("always-disable-remove");
    reveal_strlit("ignore-add");
    reveal_strlit("ignore-remove");
    two_words("always-enable"@, host);
    two_words("always-enable-add"@, host);
    two_words("always-disable"@, host);
    two_words("always-enable-remove"@, host);
    two_words("ignore-add"@, host);
    two_words("ignore-remove"@, host);
    assert("ignore-add"@[0] != "always-enable"@[0]);
    let list = "list-urls"@;
    word_end_bounds(list, 0);
    assert(list.subrange(0, list.len() as int) =~= list);
    assert(words_from(list, list.len() as int) =~= seq![]);
    assert(words_from(list, 0) =~= seq![list]);
}

/// A message of an administrator that is no command changes nothing and is answered with one of
/// the two texts: the help where it has not two words, and the other where it begins with a word
/// that is no command.
pub proof fn what_is_no_command_changes_nothing(store: StoreView, content: Seq<char>)
    requires
        words(content).len() > 0,
        words(content)[0] != "list-urls"@,
    ensures
        words(content).len() != 2 ==> {
            &&& admin_action(true, content).store_after(store) == store
            &&& admin_action(true, content).answer(store) == USAGE@
        },
        words(content).len() == 2 && !is_host_command(words(content)[0]) ==> {
            &&& admin_action(true, content).store_after(store) == store
            &&& admin_action(true, content).answer(store) == UNKNOWN_COMMAND@
        },
{
}

/// The words that are a command with a host behind them.
pub open spec fn is_host_command(word: Seq<char>) -> bool {
    ||| word == "always-enable"@
    ||| word == "always-enable-add"@
    ||| word == "always-disable"@
    ||| word == "always-enable-remove"@
    ||| word == "always-disable-remove"@
    ||| word == "ignore-add"@
    ||| word == "ignore-remove"@
}

/// No direct message changes the posts.
pub proof fn administration_leaves_the_posts_alone(
    store: StoreView,
    is_admin: bool,
    content: Seq<char>,
)
    ensures
        admin_action(is_admin, content).store_after(store).reposts == store.reposts,
        admin_action(is_admin, content).store_after(store).location == store.location,
{
}

} // verus!
