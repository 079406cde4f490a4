//! What the answers of the bot say, word for word.

use vstd::prelude::*;

use crate::counting::{count_is_size, count_of_equals, count_where, positions};
use crate::discord_handler::{answer_text, request_of, responded, ChatMessage, Request};
use crate::domains::domain_of;
use crate::links::UrlView;
use crate::moment::MomentView;
use crate::posts::{
    by_time, history, history_exists, is_repost, order_of_posts_is_strict, posted_before,
    RepostView,
};
use crate::ranking::{
    by_frequency, is_key, is_ranking, occurrences, ranking, ranking_exists, Ranked,
};
use crate::reports::{
    best, domain_keys, hosts_text, is_of_day, is_repost_by, report_lines, reposts_by, stat_line,
    stat_lines, stats_text, today_text, top_domain_lines, top_domains_text, top_line,
    top_user_lines, top_users_text, user_keys,
};
use crate::repost_checker::StoreView;
use crate::sorted_texts::{in_order, order_exists};
use crate::text::{
    all_digits, concat, decimal, decimal_digits, ends_with, is_digit, join, lex_lt,
    lex_lt_irreflexive, parsed_number,
};

verus! {

// ---------------------------------------------------------------------------------------------
// Lines
// ---------------------------------------------------------------------------------------------

/// Whether a text goes on without a line break.
pub open spec fn one_line(s: Seq<char>) -> bool {
    forall|i: int| 0 <= i < s.len() ==> #[trigger] s[i] != '\n'
}

/// The lines of a text: what stands between its line breaks.
pub open spec fn lines(s: Seq<char>) -> Seq<Seq<char>>
    decreases s.len(),
{
    if s.len() == 0 {
        seq![seq![]]
    } else {
        let front = lines(s.drop_last());
        if s.last() == '\n' {
            front.push(seq![])
        } else {
            front.drop_last().push(front.last().push(s.last()))
        }
    }
}

/// Some texts, a line break before each.
pub open spec fn under(l: Seq<Seq<char>>) -> Seq<char>
    decreases l.len(),
{
    if l.len() == 0 {
        seq![]
    } else {
        under(l.drop_last()) + seq!['\n'] + l.last()
    }
}

/// Some texts, a line break behind each.
pub open spec fn ended(l: Seq<Seq<char>>) -> Seq<char>
    decreases l.len(),
{
    if l.len() == 0 {
        seq![]
    } else {
        ended(l.drop_last()) + l.last() + seq!['\n']
    }
}

proof fn lines_are_some(s: Seq<char>)
    ensures
        lines(s).len() > 0,
    decreases s.len(),
{
    if s.len() > 0 {
        lines_are_some(s.drop_last());
    }
}

/// A text without line breaks is its only line.
pub proof fn line_is_its_only_line(s: Seq<char>)
    requires
        one_line(s),
    ensures
        lines(s) == seq![s],
    decreases s.len(),
{
    if s.len() == 0 {
        assert(s =~= seq![]);
    } else {
        let front = s.drop_last();
        assert(s.last() == s[s.len() - 1]);
        assert forall|i: int| 0 <= i < front.len() implies #[trigger] front[i] != '\n' by {
            assert(front[i] == s[i]);
        }
        line_is_its_only_line(front);
        assert(front.push(s.last()) =~= s);
        assert(lines(s) =~= seq![s]);
    }
}

/// The lines before a line break and those behind it are all lines.
pub proof fn lines_split_at_a_break(a: Seq<char>, b: Seq<char>)
    ensures
        lines(a + seq!['\n'] + b) == lines(a) + lines(b),
    decreases b.len(),
{
    let s = a + seq!['\n'] + b;
    lines_are_some(a);
    lines_are_some(b);
    if b.len() == 0 {
        assert(s.drop_last() =~= a);
        assert(lines(s) =~= lines(a) + lines(b));
    } else {
        lines_are_some(b.drop_last());
        lines_split_at_a_break(a, b.drop_last());
        assert(s.drop_last() =~= a + seq!['\n'] + b.drop_last());
        assert(lines(s) =~= lines(a) + lines(b));
    }
}

/// A line and others below it are these lines.
pub proof fn lines_below_a_line(head: Seq<char>, l: Seq<Seq<char>>)
    requires
        one_line(head),
        forall|i: int| 0 <= i < l.len() ==> one_line(#[trigger] l[i]),
    ensures
        lines(head + under(l)) == seq![head] + l,
    decreases l.len(),
{
    if l.len() == 0 {
        line_is_its_only_line(head);
        assert(head + under(l) =~= head);
        assert(seq![head] + l =~= seq![head]);
    } else {
        let rest = l.drop_last();
        assert forall|i: int| 0 <= i < rest.len() implies one_line(#[trigger] rest[i]) by {
            assert(rest[i] == l[i]);
        }
        lines_below_a_line(head, rest);
        assert(one_line(l[l.len() - 1]));
        line_is_its_only_line(l.last());
        lines_split_at_a_break(head + under(rest), l.last());
        assert(head + under(l) =~= head + under(rest) + seq!['\n'] + l.last());
        assert(seq![head] + rest + seq![l.last()] =~= seq![head] + l);
    }
}

/// Lines that are all ended are these lines, and an empty one.
pub proof fn lines_that_are_ended(l: Seq<Seq<char>>)
    requires
        forall|i: int| 0 <= i < l.len() ==> one_line(#[trigger] l[i]),
    ensures
        lines(ended(l)) == l.push(seq![]),
    decreases l.len(),
{
    if l.len() == 0 {
        assert(lines(ended(l)) =~= l.push(seq![]));
    } else {
        let rest = l.drop_last();
        assert forall|i: int| 0 <= i < rest.len() implies one_line(#[trigger] rest[i]) by {
            assert(rest[i] == l[i]);
        }
        lines_that_are_ended(rest);
        assert(one_line(l[l.len() - 1]));
        ended_text_in_lines(rest, l.last());
        assert(ended(l) =~= ended(rest) + l.last() + seq!['\n']);
        assert(rest.push(l.last()) =~= l);
    }
}

proof fn ended_text_in_lines(l: Seq<Seq<char>>, x: Seq<char>)
    requires
        lines(ended(l)) == l.push(seq![]),
        one_line(x),
    ensures
        lines(ended(l) + x + seq!['\n']) == l.push(x).push(seq![]),
{
    let s = ended(l) + x;
    line_is_its_only_line(seq![]);
    lines_split_at_a_break(s, seq![]);
    assert(s + seq!['\n'] + seq![] =~= s + seq!['\n']);
    line_extended(ended(l), x);
    assert(lines(s) =~= l.push(x));
    assert(lines(s) + seq![Seq::<char>::empty()] =~= l.push(x).push(seq![]));
}

proof fn line_extended(s: Seq<char>, x: Seq<char>)
    requires
        one_line(x),
    ensures
        lines(s + x) == lines(s).drop_last().push(lines(s).last() + x),
    decreases x.len(),
{
    lines_are_some(s);
    if x.len() == 0 {
        assert(s + x =~= s);
        assert(lines(s).last() + x =~= lines(s).last());
        assert(lines(s) =~= lines(s).drop_last().push(lines(s).last() + x));
    } else {
        let y = x.drop_last();
        assert(x.last() == x[x.len() - 1]);
        assert forall|i: int| 0 <= i < y.len() implies #[trigger] y[i] != '\n' by {
            assert(y[i] == x[i]);
        }
        line_extended(s, y);
        assert((s + x).drop_last() =~= s + y);
        assert((lines(s).last() + y).push(x.last()) =~= lines(s).last() + x);
        assert(lines(s + x) =~= lines(s).drop_last().push(lines(s).last() + x));
    }
}

proof fn joined_is_under(l: Seq<Seq<char>>)
    requires
        l.len() > 0,
    ensures
        seq!['\n'] + join(l, "\n"@) == under(l),
    decreases l.len(),
{
    reveal_strlit("\n");
    assert("\n"@ =~= seq!['\n']);
    if l.len() == 1 {
        assert(l.drop_last() =~= seq![]);
        assert(under(l.drop_last()) =~= seq![]);
        assert(under(l) =~= seq!['\n'] + l[0]);
    } else {
        joined_is_under(l.drop_last());
        assert(seq!['\n'] + join(l, "\n"@) =~= under(l));
    }
}

proof fn concat_is_ended(full: Seq<Seq<char>>, l: Seq<Seq<char>>)
    requires
        full.len() == l.len(),
        forall|i: int| 0 <= i < l.len() ==> #[trigger] full[i] == l[i] + seq!['\n'],
    ensures
        concat(full) == ended(l),
    decreases l.len(),
{
    if l.len() > 0 {
        assert forall|i: int| 0 <= i < l.drop_last().len() implies #[trigger] full.drop_last()[i]
            == l.drop_last()[i] + seq!['\n'] by {
            assert(full.drop_last()[i] == full[i]);
        }
        concat_is_ended(full.drop_last(), l.drop_last());
        assert(full[l.len() - 1] == l[l.len() - 1] + seq!['\n']);
        assert(concat(full) =~= ended(l));
    }
}

proof fn digits_are_one_line(s: Seq<char>)
    requires
        all_digits(s),
    ensures
        one_line(s),
{
    assert forall|i: int| 0 <= i < s.len() implies #[trigger] s[i] != '\n' by {
        assert(is_digit(s[i]));
    }
}

proof fn number_is_one_line(n: nat)
    ensures
        one_line(decimal(n)),
{
    decimal_digits(n);
    digits_are_one_line(decimal(n));
}

// ---------------------------------------------------------------------------------------------
// Counting rows
// ---------------------------------------------------------------------------------------------

proof fn count_is_filtered(rows: Seq<RepostView>, p: spec_fn(int) -> bool, q: spec_fn(RepostView) -> bool)
    requires
        forall|i: int| 0 <= i < rows.len() ==> #[trigger] p(i) == q(rows[i]),
    ensures
        count_where(rows.len(), p) == rows.filter(q).len(),
    decreases rows.len(),
{
    reveal(Seq::filter);
    if rows.len() > 0 {
        let rest = rows.drop_last();
        assert forall|i: int| 0 <= i < rest.len() implies #[trigger] p(i) == q(rest[i]) by {
            assert(rest[i] == rows[i]);
        }
        count_is_filtered(rest, p, q);
        assert(p(rows.len() - 1) == q(rows[rows.len() - 1]));
    }
}

/// The mention of a stored user: the number between `<@` and `>`.
pub open spec fn mentioned(user_id: Seq<char>) -> Seq<char> {
    "<@"@ + decimal(
        match parsed_number(user_id) {
            Some(n) => n as nat,
            None => 0,
        },
    ) + ">"@
}

/// The line of a report about a row.
pub open spec fn posted_line(row: RepostView) -> Seq<char> {
    "- "@ + mentioned(row.user_id) + " - "@ + row.posted_at
}

/// Whether row `i` stands before row `j` in time: by the written time, then by the row.
pub open spec fn earlier_row(rows: Seq<RepostView>, i: int, j: int) -> bool {
    lex_lt(rows[i].posted_at, rows[j].posted_at) || (rows[i].posted_at == rows[j].posted_at && i
        < j)
}

// ---------------------------------------------------------------------------------------------
// Reports
// ---------------------------------------------------------------------------------------------

/// A report is a first line with the link and the number of its posts, and below it one line for
/// each row that holds the link, with who posted it and when, in the order of time.
pub proof fn report_lists_every_post(store: StoreView, u: UrlView) -> (ids: Seq<int>)
    requires
        store.report(u) is Some,
    ensures
        ids.no_duplicates(),
        forall|i: int| #[trigger]
            ids.contains(i) <==> 0 <= i < store.reposts.len() && store.reposts[i].url == u.text,
        forall|j: int, k: int|
            0 <= j < k < ids.len() ==> earlier_row(
                store.reposts,
                #[trigger] ids[j],
                #[trigger] ids[k],
            ),
        ids.len() == store.reposts.filter(|r: RepostView| r.url == u.text).len(),
        ids.len() > 0,
        store.report(u)->0 == u.text + " har postats "@ + decimal(ids.len()) + (if ids.len() == 1 {
            " gång!"@
        } else {
            " gånger!"@
        }) + under(ids.map_values(|i: int| posted_line(store.reposts[i]))),
{
    let rows = store.reposts;
    let ids = history(rows, u.text);
    history_exists(rows, u.text);
    order_of_posts_is_strict(rows);
    let less = by_time(rows);
    assert forall|j: int, k: int| 0 <= j < k < ids.len() implies earlier_row(
        rows,
        #[trigger] ids[j],
        #[trigger] ids[k],
    ) by {
        assert(less(ids[j], ids[k]));
    }
    assert forall|i: int, j: int| 0 <= i < ids.len() && 0 <= j < ids.len() && i != j implies ids[i]
        != ids[j] by {
        if i < j {
            assert(less(ids[i], ids[j]));
        } else {
            assert(less(ids[j], ids[i]));
        }
    }
    let p = crate::laws::is_post_of(rows, u.text);
    crate::laws::report_counts_the_posts(rows, u.text);
    count_is_filtered(rows, p, |r: RepostView| r.url == u.text);
    let list = ids.map_values(|i: int| posted_line(rows[i]));
    assert(report_lines(rows, ids) =~= list);
    joined_is_under(list);
    reveal_strlit("gång");
    reveal_strlit("gånger");
    reveal_strlit(" gång!");
    reveal_strlit(" gånger!");
    reveal_strlit(" ");
    reveal_strlit("!\n");
    let word = if ids.len() == 1 {
        "gång"@
    } else {
        "gånger"@
    };
    assert(" "@ + "gång"@ + "!\n"@ =~= " gång!"@ + seq!['\n']);
    assert(" "@ + "gånger"@ + "!\n"@ =~= " gånger!"@ + seq!['\n']);
    let front = u.text + " har postats "@ + decimal(ids.len());
    let text = store.report(u)->0;
    assert(text == front + " "@ + word + "!\n"@ + join(list, "\n"@));
    assert(text =~= front + (" "@ + word + "!\n"@) + join(list, "\n"@));
    let tail = if ids.len() == 1 {
        " gång!"@
    } else {
        " gånger!"@
    };
    assert(text =~= front + tail + (seq!['\n'] + join(list, "\n"@)));
    ids
}

/// Split into lines, a report has one line more than there are rows with the link, and for every
/// such row it holds the line about it.
pub proof fn report_has_a_line_for_every_post(store: StoreView, u: UrlView, i: int)
    requires
        0 <= i < store.reposts.len(),
        store.reposts[i].url == u.text,
        store.report(u) is Some,
        one_line(u.text),
        forall|k: int|
            0 <= k < store.reposts.len() && (#[trigger] store.reposts[k]).url == u.text
                ==> one_line(store.reposts[k].posted_at),
    ensures
        lines(store.report(u)->0).len() == 1 + store.reposts.filter(
            |r: RepostView| r.url == u.text,
        ).len(),
        lines(store.report(u)->0).skip(1).contains(posted_line(store.reposts[i])),
{
    let rows = store.reposts;
    let ids = report_lists_every_post(store, u);
    let list = ids.map_values(|k: int| posted_line(rows[k]));
    let head = u.text + " har postats "@ + decimal(ids.len()) + (if ids.len() == 1 {
        " gång!"@
    } else {
        " gånger!"@
    });
    reveal_strlit(" har postats ");
    reveal_strlit(" gång!");
    reveal_strlit(" gånger!");
    number_is_one_line(ids.len());
    assert(one_line(head));
    assert forall|k: int| 0 <= k < list.len() implies one_line(#[trigger] list[k]) by {
        assert(ids.contains(ids[k]));
        posted_line_is_one_line(rows[ids[k]]);
    }
    lines_below_a_line(head, list);
    assert((seq![head] + list).skip(1) =~= list);
    assert(ids.contains(i));
    assert(list[ids.index_of(i)] == posted_line(rows[i]));
}

proof fn mention_is_one_line(user_id: Seq<char>)
    ensures
        one_line(mentioned(user_id)),
{
    reveal_strlit("<@");
    reveal_strlit(">");
    let n: nat = match parsed_number(user_id) {
        Some(n) => n as nat,
        None => 0,
    };
    number_is_one_line(n);
}

proof fn posted_line_is_one_line(row: RepostView)
    requires
        one_line(row.posted_at),
    ensures
        one_line(posted_line(row)),
{
    reveal_strlit("- ");
    reveal_strlit(" - ");
    mention_is_one_line(row.user_id);
}

// ---------------------------------------------------------------------------------------------
// Statistics
// ---------------------------------------------------------------------------------------------

/// How many rows a user has.
pub open spec fn posts_of_user(rows: Seq<RepostView>, user_id: Seq<char>) -> nat {
    rows.filter(|r: RepostView| r.user_id == user_id).len()
}

/// Whether another row with the same link stands before row `i` in time.
pub open spec fn posted_again(rows: Seq<RepostView>, i: int) -> bool {
    exists|j: int|
        0 <= j < rows.len() && rows[j].url == rows[i].url && #[trigger] earlier_row(rows, j, i)
}

/// How many rows of a user have a row with the same link before them.
pub open spec fn reposts_of_user(rows: Seq<RepostView>, user_id: Seq<char>) -> nat {
    Set::new(
        |i: int| 0 <= i < rows.len() && rows[i].user_id == user_id && posted_again(rows, i),
    ).len()
}

/// The line of the statistics about a user: posts, reposts, and the share of these in percent,
/// rounded, half a percent upwards.
pub open spec fn user_line(rows: Seq<RepostView>, user_id: Seq<char>) -> Seq<char> {
    let posts = posts_of_user(rows, user_id);
    let reposts = reposts_of_user(rows, user_id);
    "- "@ + mentioned(user_id) + ": "@ + decimal(posts) + " ("@ + decimal(reposts) + " reposts, "@
        + decimal((200 * reposts + posts) / (2 * posts)) + "%)"@
}

proof fn rows_of_a_key(rows: Seq<RepostView>, key: Seq<char>)
    ensures
        occurrences(user_keys(rows), key) == posts_of_user(rows, key),
{
    let p = is_key(user_keys(rows), key);
    let q = |r: RepostView| r.user_id == key;
    assert forall|i: int| 0 <= i < rows.len() implies #[trigger] p(i) == q(rows[i]) by {}
    count_is_filtered(rows, p, q);
}

proof fn reposts_of_a_key(rows: Seq<RepostView>, key: Seq<char>)
    ensures
        reposts_by(rows, key) == reposts_of_user(rows, key),
{
    let p = is_repost_by(rows, key);
    count_is_size(rows.len(), p);
    let s = Set::new(
        |i: int| 0 <= i < rows.len() && rows[i].user_id == key && posted_again(rows, i),
    );
    assert forall|i: int| positions(rows.len(), p).contains(i) == s.contains(i) by {
        if 0 <= i < rows.len() {
            assert(is_repost(rows, i) == posted_again(rows, i)) by {
                if is_repost(rows, i) {
                    let j = choose|j: int|
                        0 <= j < rows.len() && rows[j].url == rows[i].url
                            && #[trigger] posted_before(rows, j, i);
                    assert(earlier_row(rows, j, i));
                }
                if posted_again(rows, i) {
                    let j = choose|j: int|
                        0 <= j < rows.len() && rows[j].url == rows[i].url && #[trigger] earlier_row(
                            rows,
                            j,
                            i,
                        );
                    assert(posted_before(rows, j, i));
                }
            }
        }
    }
    assert(positions(rows.len(), p) =~= s);
}

/// The texts of a ranking, each once, the most frequent first.
proof fn names_of_ranking(keys: Seq<Seq<char>>) -> (names: Seq<Seq<char>>)
    ensures
        is_ranking(ranking(keys), keys),
        names == ranking(keys).map_values(|e: Ranked| e.0),
        names.no_duplicates(),
        names.to_set() == keys.to_set(),
        forall|k: int|
            0 <= k < names.len() ==> (#[trigger] ranking(keys)[k]).1 == occurrences(keys, names[k]),
        forall|j: int, k: int|
            0 <= j < k < names.len() ==> more_frequent(
                keys,
                #[trigger] names[j],
                #[trigger] names[k],
            ),
{
    ranking_exists(keys);
    let l = ranking(keys);
    let less = by_frequency();
    let names = l.map_values(|e: Ranked| e.0);
    assert forall|k: int| 0 <= k < names.len() implies (#[trigger] l[k]).1 == occurrences(
        keys,
        names[k],
    ) && keys.contains(names[k]) by {
        assert(l.contains(l[k]));
    }
    assert forall|j: int, k: int| 0 <= j < k < names.len() implies more_frequent(
        keys,
        #[trigger] names[j],
        #[trigger] names[k],
    ) by {
        assert(less(l[j], l[k]));
        occurrences_are_filtered(keys, names[j]);
        occurrences_are_filtered(keys, names[k]);
        assert(l[j].1 == occurrences(keys, names[j]));
        assert(l[k].1 == occurrences(keys, names[k]));
    }
    assert forall|j: int, k: int|
        0 <= j < names.len() && 0 <= k < names.len() && j != k implies names[j] != names[k] by {
        lex_lt_irreflexive(names[j]);
        if j < k {
            assert(more_frequent(keys, names[j], names[k]));
        } else {
            assert(more_frequent(keys, names[k], names[j]));
        }
    }
    assert forall|t: Seq<char>| names.to_set().contains(t) == keys.to_set().contains(t) by {
        if names.contains(t) {
            let k = names.index_of(t);
            assert(l.contains(l[k]));
        }
        if keys.contains(t) {
            let e = (t, occurrences(keys, t));
            assert(l.contains(e));
            assert(names[l.index_of(e)] == t);
        }
    }
    assert(names.to_set() =~= keys.to_set());
    names
}

/// How often a text occurs in a list.
pub open spec fn times(keys: Seq<Seq<char>>, key: Seq<char>) -> nat {
    keys.filter(|k: Seq<char>| k == key).len()
}

/// Whether a text occurs more often than another, or as often and comes first in order.
pub open spec fn more_frequent(keys: Seq<Seq<char>>, a: Seq<char>, b: Seq<char>) -> bool {
    times(keys, a) > times(keys, b) || (times(keys, a) == times(keys, b) && lex_lt(a, b))
}

proof fn occurrences_are_filtered(keys: Seq<Seq<char>>, key: Seq<char>)
    ensures
        occurrences(keys, key) == times(keys, key),
    decreases keys.len(),
{
    reveal(Seq::filter);
    if keys.len() > 0 {
        let rest = keys.drop_last();
        occurrences_are_filtered(rest, key);
        let p = is_key(keys, key);
        let q = is_key(rest, key);
        assert forall|i: int| 0 <= i < rest.len() implies #[trigger] q(i) == p(i) by {
            assert(rest[i] == keys[i]);
        }
        count_of_equals(rest.len(), q, p);
    }
}

/// The statistics are a first line with the number of different links, and below it one line for
/// every user who has posted, the one with the most posts first.
pub proof fn stats_list_every_user(rows: Seq<RepostView>) -> (users: Seq<Seq<char>>)
    ensures
        users.no_duplicates(),
        users.to_set() == rows.map_values(|r: RepostView| r.user_id).to_set(),
        users.len() == rows.map_values(|r: RepostView| r.user_id).to_set().len(),
        forall|j: int, k: int|
            0 <= j < k < users.len() ==> more_frequent(
                rows.map_values(|r: RepostView| r.user_id),
                #[trigger] users[j],
                #[trigger] users[k],
            ),
        stats_text(rows) == "Totalt har det postats "@ + decimal(
            rows.map_values(|r: RepostView| r.url).to_set().len(),
        ) + " unika länkar\n"@ + ended(users.map_values(|t: Seq<char>| user_line(rows, t))),
{
    let keys = rows.map_values(|r: RepostView| r.user_id);
    assert(user_keys(rows) =~= keys);
    let users = names_of_ranking(keys);
    users.unique_seq_to_set();
    let l = ranking(keys);
    let full = stat_lines(rows);
    let list = users.map_values(|t: Seq<char>| user_line(rows, t));
    reveal_strlit("%)\n");
    reveal_strlit("%)");
    assert("%)\n"@ =~= "%)"@ + seq!['\n']);
    assert forall|k: int| 0 <= k < list.len() implies #[trigger] full[k] == list[k] + seq![
        '\n',
    ] by {
        let t = users[k];
        assert(l[k].0 == t);
        assert(l[k].1 == occurrences(keys, t));
        rows_of_a_key(rows, t);
        reposts_of_a_key(rows, t);
        assert(0 < l[k].1) by {
            crate::laws::share_of_reposts_is_a_percentage(rows, k);
        }
        assert(full[k] == stat_line(rows, l[k]));
        assert(full[k] =~= list[k] + seq!['\n']);
    }
    concat_is_ended(full, list);
    users
}

/// Split into lines, the statistics have a first line, one line for each user who has posted, among
/// them the one about the user of any row, and an empty line.
pub proof fn stats_have_a_line_for_every_user(rows: Seq<RepostView>, i: int)
    requires
        0 <= i < rows.len(),
    ensures
        lines(stats_text(rows)).len() == 2 + rows.map_values(
            |r: RepostView| r.user_id,
        ).to_set().len(),
        lines(stats_text(rows))[0] == "Totalt har det postats "@ + decimal(
            rows.map_values(|r: RepostView| r.url).to_set().len(),
        ) + " unika länkar"@,
        lines(stats_text(rows)).skip(1).contains(user_line(rows, rows[i].user_id)),
        lines(stats_text(rows)).last().len() == 0,
{
    let users = stats_list_every_user(rows);
    let list = users.map_values(|t: Seq<char>| user_line(rows, t));
    let n = rows.map_values(|r: RepostView| r.url).to_set().len();
    let head = "Totalt har det postats "@ + decimal(n) + " unika länkar"@;
    reveal_strlit("Totalt har det postats ");
    reveal_strlit(" unika länkar");
    reveal_strlit(" unika länkar\n");
    assert(" unika länkar\n"@ =~= " unika länkar"@ + seq!['\n']);
    number_is_one_line(n);
    assert(one_line(head));
    assert forall|k: int| 0 <= k < list.len() implies one_line(#[trigger] list[k]) by {
        user_line_is_one_line(rows, users[k]);
    }
    lines_that_are_ended(list);
    line_is_its_only_line(head);
    lines_split_at_a_break(head, ended(list));
    assert(stats_text(rows) =~= head + seq!['\n'] + ended(list));
    let all = lines(stats_text(rows));
    assert(all =~= seq![head] + list.push(seq![]));
    let keys = rows.map_values(|r: RepostView| r.user_id);
    assert(keys[i] == rows[i].user_id);
    assert(users.to_set().contains(rows[i].user_id));
    let k = users.index_of(rows[i].user_id);
    assert(list[k] == user_line(rows, rows[i].user_id));
    assert(all.skip(1)[k] == list[k]);
}

proof fn user_line_is_one_line(rows: Seq<RepostView>, user_id: Seq<char>)
    ensures
        one_line(user_line(rows, user_id)),
{
    let posts = posts_of_user(rows, user_id);
    let reposts = reposts_of_user(rows, user_id);
    reveal_strlit("- ");
    reveal_strlit(": ");
    reveal_strlit(" (");
    reveal_strlit(" reposts, ");
    reveal_strlit("%)");
    mention_is_one_line(user_id);
    number_is_one_line(posts);
    number_is_one_line(reposts);
    number_is_one_line((200 * reposts + posts) / (2 * posts));
}

// ---------------------------------------------------------------------------------------------
// The most frequent
// ---------------------------------------------------------------------------------------------

/// The names that a list of the most frequent shows: five, or all where there are fewer, the most
/// frequent first, and none more frequent left out.
pub open spec fn are_top(names: Seq<Seq<char>>, keys: Seq<Seq<char>>) -> bool {
    &&& names.no_duplicates()
    &&& names.len() == if keys.to_set().len() <= 5 {
        keys.to_set().len()
    } else {
        5
    }
    &&& forall|k: int| 0 <= k < names.len() ==> keys.contains(#[trigger] names[k])
    &&& forall|j: int, k: int|
        0 <= j < k < names.len() ==> more_frequent(keys, #[trigger] names[j], #[trigger] names[k])
    &&& forall|k: int, t: Seq<char>|
        0 <= k < names.len() && #[trigger] keys.contains(t) && !names.contains(t)
            ==> more_frequent(keys, #[trigger] names[k], t)
}

proof fn top_names(keys: Seq<Seq<char>>) -> (names: Seq<Seq<char>>)
    ensures
        are_top(names, keys),
        names == best(ranking(keys)).map_values(|e: Ranked| e.0),
        forall|k: int|
            0 <= k < names.len() ==> (#[trigger] best(ranking(keys))[k]) == (
                names[k],
                times(keys, names[k]),
            ),
        keys.len() > 0 ==> names.len() > 0,
{
    let all = names_of_ranking(keys);
    all.unique_seq_to_set();
    let l = ranking(keys);
    let top = best(l);
    let names = top.map_values(|e: Ranked| e.0);
    assert forall|k: int| 0 <= k < names.len() implies names[k] == #[trigger] all[k] && top[k]
        == l[k] by {}
    assert forall|k: int| 0 <= k < names.len() implies (#[trigger] top[k]) == (
        names[k],
        times(keys, names[k]),
    ) by {
        assert(top[k] == l[k]);
        assert(names[k] == all[k]);
        assert(l[k].1 == occurrences(keys, all[k]));
        occurrences_are_filtered(keys, names[k]);
    }
    assert forall|k: int| 0 <= k < names.len() implies keys.contains(#[trigger] names[k]) by {
        assert(all.to_set().contains(all[k]));
        assert(names[k] == all[k]);
    }
    assert forall|j: int, k: int| 0 <= j < k < names.len() implies more_frequent(
        keys,
        #[trigger] names[j],
        #[trigger] names[k],
    ) by {
        assert(more_frequent(keys, all[j], all[k]));
    }
    assert forall|j: int, k: int|
        0 <= j < names.len() && 0 <= k < names.len() && j != k implies names[j] != names[k] by {
        assert(names[j] == all[j] && names[k] == all[k]);
    }
    assert forall|k: int, t: Seq<char>|
        0 <= k < names.len() && #[trigger] keys.contains(t) && !names.contains(
            t,
        ) implies more_frequent(keys, #[trigger] names[k], t) by {
        assert(all.to_set().contains(t));
        let m = all.index_of(t);
        if m < names.len() {
            assert(names[m] == t);
        }
        assert(more_frequent(keys, all[k], all[m]));
    }
    if keys.len() > 0 {
        assert(keys.contains(keys[0]));
        assert(all.to_set().contains(keys[0]));
        assert(all.len() > 0);
    }
    names
}

/// The line about entry `k` of a list of the most frequent.
pub open spec fn numbered_line(k: int, name: Seq<char>, n: nat) -> Seq<char> {
    decimal((k + 1) as nat) + ". "@ + name + " ("@ + decimal(n) + " länkar)"@
}

proof fn top_line_is_ended(k: int, name: Seq<char>, n: nat)
    ensures
        top_line(k, name, n) == numbered_line(k, name, n) + seq!['\n'],
{
    reveal_strlit(" länkar)\n");
    reveal_strlit(" länkar)");
    assert(" länkar)\n"@ =~= " länkar)"@ + seq!['\n']);
    assert(top_line(k, name, n) =~= numbered_line(k, name, n) + seq!['\n']);
}

/// How many rows have a link of a domain.
pub open spec fn posts_of_domain(rows: Seq<RepostView>, domain: Seq<char>) -> nat {
    rows.filter(|r: RepostView| domain_of(r.url) == domain).len()
}

/// The list of domains shows those with the most posts, numbered, each with its posts.
pub proof fn top_domains_list_the_most_frequent(rows: Seq<RepostView>) -> (names: Seq<Seq<char>>)
    ensures
        are_top(names, rows.map_values(|r: RepostView| domain_of(r.url))),
        rows.len() == 0 ==> top_domains_text(rows) == "Top 5 domäner:\n"@
            + "Inga domäner hittades\n"@,
        rows.len() > 0 ==> names.len() > 0 && top_domains_text(rows) == "Top 5 domäner:\n"@ + ended(
            Seq::new(
                names.len(),
                |k: int|
                    numbered_line(k, names[k], posts_of_domain(rows, names[k])),
            ),
        ),
{
    let keys = rows.map_values(|r: RepostView| domain_of(r.url));
    assert(domain_keys(rows) =~= keys);
    let names = top_names(keys);
    if rows.len() > 0 {
        let full = top_domain_lines(rows);
        let list = Seq::new(
            names.len(),
            |k: int|
                numbered_line(k, names[k], posts_of_domain(rows, names[k])),
        );
        assert forall|k: int| 0 <= k < list.len() implies #[trigger] full[k] == list[k] + seq![
            '\n',
        ] by {
            let q = |r: RepostView| domain_of(r.url) == names[k];
            let p = is_key(keys, names[k]);
            assert forall|i: int| 0 <= i < rows.len() implies #[trigger] p(i) == q(rows[i]) by {}
            count_is_filtered(rows, p, q);
            occurrences_are_filtered(keys, names[k]);
            let e = best(ranking(keys))[k];
            assert(full[k] == top_line(k, e.0, e.1));
            top_line_is_ended(k, e.0, e.1);
        }
        concat_is_ended(full, list);
    }
    names
}

/// The list of users shows those with the most posts, numbered, each with its posts.
pub proof fn top_users_list_the_most_frequent(rows: Seq<RepostView>) -> (names: Seq<Seq<char>>)
    ensures
        are_top(names, rows.map_values(|r: RepostView| r.user_id)),
        rows.len() == 0 ==> top_users_text(rows) == "Top 5 användare:\n"@
            + "Inga användare hittades\n"@,
        rows.len() > 0 ==> names.len() > 0 && top_users_text(rows) == "Top 5 användare:\n"@ + ended(
            Seq::new(
                names.len(),
                |k: int|
                    numbered_line(k, mentioned(names[k]), posts_of_user(rows, names[k])),
            ),
        ),
{
    let keys = rows.map_values(|r: RepostView| r.user_id);
    assert(user_keys(rows) =~= keys);
    let names = top_names(keys);
    if rows.len() > 0 {
        let full = top_user_lines(rows);
        let list = Seq::new(
            names.len(),
            |k: int| numbered_line(k, mentioned(names[k]), posts_of_user(rows, names[k])),
        );
        assert forall|k: int| 0 <= k < list.len() implies #[trigger] full[k] == list[k] + seq![
            '\n',
        ] by {
            rows_of_a_key(rows, names[k]);
            occurrences_are_filtered(keys, names[k]);
            let e = best(ranking(keys))[k];
            assert(full[k] == top_line(k, mentioned(e.0), e.1));
            top_line_is_ended(k, mentioned(e.0), e.1);
        }
        concat_is_ended(full, list);
    }
    names
}

// ---------------------------------------------------------------------------------------------
// One day
// ---------------------------------------------------------------------------------------------

/// The answer about a day gives the number of the rows of that day, reposts among them.
pub proof fn today_counts_every_post(rows: Seq<RepostView>, day: Seq<char>)
    ensures
        today_text(rows, day) == "Idag har det postats "@ + decimal(
            rows.filter(|r: RepostView| r.posted_on == Some(day)).len(),
        ) + " länkar"@,
{
    count_is_filtered(rows, is_of_day(rows, day), |r: RepostView| r.posted_on == Some(day));
}

/// One more post of a day, of whatever link, raises the number in the answer about that day by
/// one; a post of another day leaves the answer as it is.
pub proof fn one_more_post_counts_once(
    rows: Seq<RepostView>,
    row: RepostView,
    day: Seq<char>,
) -> (n: nat)
    ensures
        today_text(rows, day) == "Idag har det postats "@ + decimal(n) + " länkar"@,
        row.posted_on == Some(day) ==> today_text(rows.push(row), day) == "Idag har det postats "@
            + decimal(n + 1) + " länkar"@,
        row.posted_on != Some(day) ==> today_text(rows.push(row), day) == today_text(rows, day),
        rows.len() == 0 ==> n == 0,
{
    let q = |r: RepostView| r.posted_on == Some(day);
    today_counts_every_post(rows, day);
    today_counts_every_post(rows.push(row), day);
    reveal(Seq::filter);
    assert(rows.push(row).drop_last() =~= rows);
    rows.filter(q).len()
}

// ---------------------------------------------------------------------------------------------
// Hosts
// ---------------------------------------------------------------------------------------------

/// The lines about some hosts: one for each, or one that says that there are none.
pub open spec fn listed(hosts: Seq<Seq<char>>) -> Seq<Seq<char>> {
    if hosts.len() == 0 {
        seq!["(none)"@]
    } else {
        hosts.map_values(|h: Seq<char>| "- "@ + h)
    }
}

/// Whether a list holds each text of a set once, in order.
pub open spec fn lists_in_order(l: Seq<Seq<char>>, s: Set<Seq<char>>) -> bool {
    &&& l.no_duplicates()
    &&& l.to_set() == s
    &&& forall|j: int, k: int| 0 <= j < k < l.len() ==> lex_lt(#[trigger] l[j], #[trigger] l[k])
}

proof fn host_lines_are_listed(hosts: Set<Seq<char>>) -> (l: Seq<Seq<char>>)
    requires
        hosts.finite(),
    ensures
        lists_in_order(l, hosts),
        crate::reports::host_lines(hosts) == ended(listed(l)),
{
    order_exists(hosts);
    let l = in_order(hosts);
    assert forall|j: int, k: int| 0 <= j < l.len() && 0 <= k < l.len() && j != k implies l[j]
        != l[k] by {
        lex_lt_irreflexive(l[j]);
        if j < k {
            assert(lex_lt(l[j], l[k]));
        } else {
            assert(lex_lt(l[k], l[j]));
        }
    }
    if l.len() == 0 {
        reveal_strlit("(none)");
        reveal_strlit("(none)\n");
        let x = listed(l);
        assert(x.drop_last() =~= seq![]);
        assert(ended(x.drop_last()) =~= seq![]);
        assert(ended(x) =~= "(none)\n"@);
    } else {
        let full = l.map_values(|h: Seq<char>| crate::reports::host_line(h));
        reveal_strlit("\n");
        assert("\n"@ =~= seq!['\n']);
        concat_is_ended(full, listed(l));
    }
    l
}

/// The list of hosts names every host that is always enabled and every host that is ignored, each
/// kind under its heading and in order.
pub proof fn hosts_are_all_listed(
    always_enabled: Set<Seq<char>>,
    ignored: Set<Seq<char>>,
) -> (r: (Seq<Seq<char>>, Seq<Seq<char>>))
    requires
        always_enabled.finite(),
        ignored.finite(),
    ensures
        lists_in_order(r.0, always_enabled),
        lists_in_order(r.1, ignored),
        hosts_text(always_enabled, ignored) == "**Always Enabled Hosts:**\n"@ + ended(listed(r.0))
            + "\n**Ignored Hosts:**\n"@ + ended(listed(r.1)),
{
    (host_lines_are_listed(always_enabled), host_lines_are_listed(ignored))
}

// ---------------------------------------------------------------------------------------------
// Requests
// ---------------------------------------------------------------------------------------------

/// A message that mentions the bot, at whatever place, and ends with what the bot knows is the
/// request for it.
pub proof fn mention_with_a_known_ending_is_a_request(m: ChatMessage, i: int, front: Seq<char>)
    requires
        0 <= i < m.mentions@.len(),
        m.mentions@[i] == m.bot_id,
    ensures
        m.content@ == front + "stats"@ ==> request_of(m) is Stats,
        m.content@ == front + "top domains"@ ==> request_of(m) is TopDomains,
        m.content@ == front + "top users"@ ==> request_of(m) is TopUsers,
        m.content@ == front + "today"@ ==> request_of(m) is Today,
{
    let s = m.content@;
    reveal_strlit("stats");
    reveal_strlit("top domains");
    reveal_strlit("top users");
    reveal_strlit("today");
    assert(m.mentions@.contains(m.bot_id));
    ending_stands(front, "stats"@);
    ending_stands(front, "top domains"@);
    ending_stands(front, "top users"@);
    ending_stands(front, "today"@);
    last_letters(s, "stats"@);
    last_letters(s, "top domains"@);
    last_letters(s, "top users"@);
    last_letters(s, "today"@);
}

proof fn ending_stands(front: Seq<char>, end: Seq<char>)
    ensures
        ends_with(front + end, end),
{
    assert((front + end).subrange(front.len() as int, (front + end).len() as int) =~= end);
}

proof fn last_letters(s: Seq<char>, end: Seq<char>)
    requires
        end.len() >= 2,
    ensures
        ends_with(s, end) ==> s.len() >= end.len() && s == s.take(s.len() - end.len()) + end
            && s[s.len() - 1] == end[end.len() - 1] && s[s.len() - 2] == end[end.len() - 2],
{
    if ends_with(s, end) {
        let sub = s.subrange(s.len() - end.len(), s.len() as int);
        assert(sub[end.len() - 1] == s[s.len() - 1]);
        assert(sub[end.len() - 2] == s[s.len() - 2]);
        assert(s =~= s.take(s.len() - end.len()) + sub);
    }
}

/// Only a message that mentions the bot, and ends with what the bot knows, is a request.
pub proof fn request_mentions_the_bot_and_ends_so(m: ChatMessage) -> (i: int)
    ensures
        !(request_of(m) is Links) ==> 0 <= i < m.mentions@.len() && m.mentions@[i] == m.bot_id,
        request_of(m) is Stats ==> m.content@.len() >= 5 && m.content@ == m.content@.take(
            m.content@.len() - 5,
        ) + "stats"@,
        request_of(m) is TopDomains ==> m.content@.len() >= 11 && m.content@ == m.content@.take(
            m.content@.len() - 11,
        ) + "top domains"@,
        request_of(m) is TopUsers ==> m.content@.len() >= 9 && m.content@ == m.content@.take(
            m.content@.len() - 9,
        ) + "top users"@,
        request_of(m) is Today ==> m.content@.len() >= 5 && m.content@ == m.content@.take(
            m.content@.len() - 5,
        ) + "today"@,
{
    let s = m.content@;
    reveal_strlit("stats");
    reveal_strlit("top domains");
    reveal_strlit("top users");
    reveal_strlit("today");
    last_letters(s, "stats"@);
    last_letters(s, "top domains"@);
    last_letters(s, "top users"@);
    last_letters(s, "today"@);
    m.mentions@.index_of(m.bot_id)
}

/// Each request is answered with what it asks for, in one message, and changes nothing.
pub proof fn requests_get_their_answer(
    store: StoreView,
    m: ChatMessage,
    now: MomentView,
    later: StoreView,
    messages: Seq<Seq<char>>,
)
    requires
        responded(store, m, now, later, messages),
    ensures
        request_of(m) is Stats ==> later == store && messages == seq![stats_text(store.reposts)],
        request_of(m) is TopDomains ==> later == store && messages == seq![
            top_domains_text(store.reposts),
        ],
        request_of(m) is TopUsers ==> later == store && messages == seq![
            top_users_text(store.reposts),
        ],
        request_of(m) is Today ==> later == store && messages == seq![
            today_text(store.reposts, now.date_text()),
        ],
{
}

/// Each kind of request has its own answer, and a message that is no request has none.
pub proof fn every_request_has_its_answer(store: StoreView, now: MomentView)
    ensures
        answer_text(store, Request::Stats, now) == Some(stats_text(store.reposts)),
        answer_text(store, Request::TopDomains, now) == Some(top_domains_text(store.reposts)),
        answer_text(store, Request::TopUsers, now) == Some(top_users_text(store.reposts)),
        answer_text(store, Request::Today, now) == Some(
            today_text(store.reposts, now.date_text()),
        ),
        answer_text(store, Request::Links, now) is None,
{
}

} // verus!
