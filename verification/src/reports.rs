//! The texts that the bot writes about the stored posts.

use vstd::prelude::*;
use vstd::string::*;

use crate::counting::{count_is_monotone, count_where};
use crate::domains::{domain, domain_of};
use crate::posts::{
    history, is_history, is_repost, numbers, posts_of, repost_flags, row_views, Repost, RepostView,
};
use crate::ranking::{is_ranking, rank, ranked_view, ranking, Ranked};
use crate::sorted_texts::{in_order, one_more_taken, SortedTexts};
use crate::text::{concat, decimal, join, number_text, same, texts};
use crate::users::{can_mention, mention, mention_text, mentionable};

verus! {

// ---------------------------------------------------------------------------------------------
// One link
// ---------------------------------------------------------------------------------------------

/// The line of a report about one post.
pub open spec fn report_line(row: RepostView) -> Seq<char> {
    "- "@ + mention_text(row.user_id) + " - "@ + row.posted_at
}

/// The lines of a report about the posts in the rows `ids`.
pub open spec fn report_lines(rows: Seq<RepostView>, ids: Seq<int>) -> Seq<Seq<char>> {
    ids.map_values(|i: int| report_line(rows[i]))
}

/// The Swedish word for `n` times.
pub open spec fn times_word(n: nat) -> Seq<char> {
    if n == 1 {
        "gång"@
    } else {
        "gånger"@
    }
}

/// The report about the posts of a link in the rows `ids`.
pub open spec fn report_text(rows: Seq<RepostView>, url: Seq<char>, ids: Seq<int>) -> Seq<char> {
    url + " har postats "@ + decimal(ids.len()) + " "@ + times_word(ids.len()) + "!\n"@ + join(
        report_lines(rows, ids),
        "\n"@,
    )
}

/// Whether all who posted a link can be mentioned.
pub open spec fn posters_known(rows: Seq<RepostView>, url: Seq<char>) -> bool {
    forall|i: int|
        0 <= i < rows.len() && (#[trigger] rows[i]).url == url ==> can_mention(rows[i].user_id)
}

/// Whether all who posted a link can be mentioned.
pub fn knows_posters(rows: &Vec<Repost>, url: &str) -> (r: bool)
    ensures
        r == posters_known(row_views(rows@), url@),
{
    let ghost views = row_views(rows@);
    let mut i: usize = 0;
    while i < rows.len()
        invariant
            i <= rows@.len(),
            views == row_views(rows@),
            forall|j: int|
                0 <= j < i && (#[trigger] views[j]).url == url@ ==> can_mention(views[j].user_id),
        decreases rows@.len() - i,
    {
        assert(views[i as int] == rows@[i as int]@);
        if same(rows[i].url.as_str(), url) && !mentionable(rows[i].user_id.as_str()) {
            return false;
        }
        i = i + 1;
    }
    true
}

/// Writes the report about the posts of a link, if there are any.
pub fn report(rows: &Vec<Repost>, url: &str) -> (r: Option<String>)
    requires
        posters_known(row_views(rows@), url@),
    ensures
        match r {
            Some(text) => history(row_views(rows@), url@).len() > 0 && text@ == report_text(
                row_views(rows@),
                url@,
                history(row_views(rows@), url@),
            ),
            None => history(row_views(rows@), url@).len() == 0,
        },
{
    let ids = posts_of(rows, url);
    let ghost views = row_views(rows@);
    let ghost h = history(views, url@);
    assert(h.len() == ids@.len());
    if ids.len() == 0 {
        return None;
    }
    let mut s = url.to_owned();
    s.append(" har postats ");
    s.append(number_text(ids.len() as u64).as_str());
    s.append(" ");
    s.append(
        if ids.len() == 1 {
            "gång"
        } else {
            "gånger"
        },
    );
    s.append("!\n");
    let ghost head = s@;
    let ghost lines = report_lines(views, h);
    let mut k: usize = 0;
    while k < ids.len()
        invariant
            k <= ids@.len(),
            views == row_views(rows@),
            h == history(views, url@),
            is_history(h, views, url@),
            h == numbers(ids@),
            posters_known(views, url@),
            lines == report_lines(views, h),
            s@ == head + join(lines.take(k as int), "\n"@),
        decreases ids@.len() - k,
    {
        let ghost now = lines.take(k + 1);
        assert(h[k as int] == ids@[k as int]);
        assert(h.contains(h[k as int]));
        let row = &rows[ids[k]];
        assert(row@ == views[h[k as int]]);
        assert(now.drop_last() =~= lines.take(k as int));
        assert(now.last() == report_line(row@));
        let ghost before = s@;
        if k > 0 {
            s.append("\n");
        }
        let ghost start = s@;
        s.append("- ");
        s.append(mention(row.user_id.as_str()).as_str());
        s.append(" - ");
        s.append(row.posted_at.as_str());
        assert(s@ =~= start + report_line(row@));
        assert(s@ =~= head + join(now, "\n"@));
        k = k + 1;
    }
    assert(lines.take(k as int) =~= lines);
    Some(s)
}

// ---------------------------------------------------------------------------------------------
// All links and users
// ---------------------------------------------------------------------------------------------

/// The users of the rows, one for each row.
pub open spec fn user_keys(rows: Seq<RepostView>) -> Seq<Seq<char>> {
    rows.map_values(|r: RepostView| r.user_id)
}

/// The domains of the rows, one for each row.
pub open spec fn domain_keys(rows: Seq<RepostView>) -> Seq<Seq<char>> {
    rows.map_values(|r: RepostView| domain_of(r.url))
}

/// The links of the rows.
pub open spec fn link_set(rows: Seq<RepostView>) -> Set<Seq<char>> {
    rows.map_values(|r: RepostView| r.url).to_set()
}

/// The rows in which a user posted a link again.
pub open spec fn is_repost_by(rows: Seq<RepostView>, user_id: Seq<char>) -> spec_fn(int) -> bool {
    |i: int| rows[i].user_id == user_id && is_repost(rows, i)
}

/// How many reposts a user made.
pub open spec fn reposts_by(rows: Seq<RepostView>, user_id: Seq<char>) -> nat {
    count_where(rows.len(), is_repost_by(rows, user_id))
}

/// `part` in percent of `total`, rounded to the nearest number, half a percent upwards.
pub open spec fn percent(part: nat, total: nat) -> nat {
    if total == 0 {
        0
    } else {
        (200 * part + total) / (2 * total)
    }
}

/// The line about one user and the number of posts.
pub open spec fn stat_line(rows: Seq<RepostView>, e: Ranked) -> Seq<char> {
    "- "@ + mention_text(e.0) + ": "@ + decimal(e.1) + " ("@ + decimal(reposts_by(rows, e.0))
        + " reposts, "@ + decimal(percent(reposts_by(rows, e.0), e.1)) + "%)\n"@
}

/// The lines about the users, the most active first.
pub open spec fn stat_lines(rows: Seq<RepostView>) -> Seq<Seq<char>> {
    ranking(user_keys(rows)).map_values(|e: Ranked| stat_line(rows, e))
}

/// How many links there are, and what each user posted.
pub open spec fn stats_text(rows: Seq<RepostView>) -> Seq<char> {
    "Totalt har det postats "@ + decimal(link_set(rows).len()) + " unika länkar\n"@ + concat(
        stat_lines(rows),
    )
}

/// Whether all users of the rows can be mentioned.
pub open spec fn users_known(rows: Seq<RepostView>) -> bool {
    forall|i: int| 0 <= i < rows.len() ==> can_mention((#[trigger] rows[i]).user_id)
}

/// Whether all users of the rows can be mentioned.
pub fn knows_users(rows: &Vec<Repost>) -> (r: bool)
    ensures
        r == users_known(row_views(rows@)),
{
    let ghost views = row_views(rows@);
    let mut i: usize = 0;
    while i < rows.len()
        invariant
            i <= rows@.len(),
            views == row_views(rows@),
            forall|j: int| 0 <= j < i ==> can_mention((#[trigger] views[j]).user_id),
        decreases rows@.len() - i,
    {
        assert(views[i as int] == rows@[i as int]@);
        if !mentionable(rows[i].user_id.as_str()) {
            return false;
        }
        i = i + 1;
    }
    true
}

/// `part` in percent of `total`.
pub fn rounded_percent(part: u64, total: u64) -> (r: u64)
    requires
        part <= total,
    ensures
        r == percent(part as nat, total as nat),
        r <= 100,
{
    if total == 0 {
        return 0;
    }
    let top: u128 = 200 * (part as u128) + total as u128;
    let bottom: u128 = 2 * (total as u128);
    let q: u128 = top / bottom;
    assert(top <= 201 * (total as int));
    assert(q <= 100) by (nonlinear_arith)
        requires
            q == top / bottom,
            bottom == 2 * total,
            total > 0,
            top <= 201 * total,
    ;
    q as u64
}

/// The users of the rows.
fn users_of(rows: &Vec<Repost>) -> (r: Vec<String>)
    ensures
        texts(r@) == user_keys(row_views(rows@)),
{
    let mut keys: Vec<String> = Vec::new();
    let mut i: usize = 0;
    while i < rows.len()
        invariant
            i <= rows@.len(),
            keys@.len() == i,
            forall|j: int| 0 <= j < i ==> (#[trigger] keys@[j])@ == rows@[j].user_id@,
        decreases rows@.len() - i,
    {
        keys.push(rows[i].user_id.clone());
        i = i + 1;
    }
    assert(texts(keys@) =~= user_keys(row_views(rows@)));
    keys
}

/// The domains of the rows.
fn domains_of(rows: &Vec<Repost>) -> (r: Vec<String>)
    ensures
        texts(r@) == domain_keys(row_views(rows@)),
{
    let mut keys: Vec<String> = Vec::new();
    let mut i: usize = 0;
    while i < rows.len()
        invariant
            i <= rows@.len(),
            keys@.len() == i,
            forall|j: int| 0 <= j < i ==> (#[trigger] keys@[j])@ == domain_of(rows@[j].url@),
        decreases rows@.len() - i,
    {
        keys.push(domain(rows[i].url.as_str()));
        i = i + 1;
    }
    assert(texts(keys@) =~= domain_keys(row_views(rows@)));
    keys
}

/// How many reposts a user made.
fn count_reposts(rows: &Vec<Repost>, flags: &Vec<bool>, user_id: &str) -> (r: u64)
    requires
        flags@.len() == rows@.len(),
        forall|i: int|
            0 <= i < flags@.len() ==> #[trigger] flags@[i] == is_repost(row_views(rows@), i),
    ensures
        r == reposts_by(row_views(rows@), user_id@),
{
    let ghost views = row_views(rows@);
    let ghost p = is_repost_by(views, user_id@);
    let mut n: u64 = 0;
    let mut i: usize = 0;
    let total: usize = rows.len();
    while i < total
        invariant
            i <= total,
            total == rows@.len(),
            views == row_views(rows@),
            p == is_repost_by(views, user_id@),
            flags@.len() == rows@.len(),
            forall|j: int| 0 <= j < flags@.len() ==> #[trigger] flags@[j] == is_repost(views, j),
            n == count_where(i as nat, p),
            n <= i,
        decreases total - i,
    {
        assert(views[i as int] == rows@[i as int]@);
        if flags[i] && same(rows[i].user_id.as_str(), user_id) {
            n = n + 1;
        }
        i = i + 1;
    }
    n
}

/// How many different links there are.
fn count_links(rows: &Vec<Repost>) -> (r: usize)
    ensures
        r == link_set(row_views(rows@)).len(),
{
    let ghost urls = row_views(rows@).map_values(|r: RepostView| r.url);
    let mut distinct = SortedTexts::new();
    let mut i: usize = 0;
    while i < rows.len()
        invariant
            i <= rows@.len(),
            urls == row_views(rows@).map_values(|r: RepostView| r.url),
            distinct@ == urls.take(i as int).to_set(),
        decreases rows@.len() - i,
    {
        distinct.insert(rows[i].url.as_str());
        proof {
            assert(urls[i as int] == rows@[i as int].url@);
            one_more_taken(urls, i as int);
        }
        i = i + 1;
    }
    assert(urls.take(i as int) =~= urls);
    let list = distinct.list();
    proof {
        let l = texts(list@);
        assert forall|x: int, y: int| 0 <= x < l.len() && 0 <= y < l.len() && x != y implies l[x]
            != l[y] by {
            crate::text::lex_lt_irreflexive(l[x]);
            if x < y {
                assert(crate::text::lex_lt(l[x], l[y]));
            } else {
                assert(crate::text::lex_lt(l[y], l[x]));
            }
        }
        l.unique_seq_to_set();
    }
    list.len()
}

/// Writes how many links there are, and what each user posted.
pub fn stats(rows: &Vec<Repost>) -> (r: String)
    requires
        users_known(row_views(rows@)),
    ensures
        r@ == stats_text(row_views(rows@)),
{
    let ghost views = row_views(rows@);
    let mut s = "Totalt har det postats ".to_owned();
    s.append(number_text(count_links(rows) as u64).as_str());
    s.append(" unika länkar\n");
    let ghost head = s@;
    let flags = repost_flags(rows);
    let keys = users_of(rows);
    let ranked = rank(&keys);
    let ghost all = ranking(user_keys(views));
    let ghost lines = stat_lines(views);
    let mut k: usize = 0;
    while k < ranked.len()
        invariant
            k <= ranked@.len(),
            views == row_views(rows@),
            users_known(views),
            all == ranking(user_keys(views)),
            all == ranked_view(ranked@),
            is_ranking(all, user_keys(views)),
            lines == stat_lines(views),
            flags@.len() == rows@.len(),
            forall|j: int| 0 <= j < flags@.len() ==> #[trigger] flags@[j] == is_repost(views, j),
            s@ == head + concat(lines.take(k as int)),
        decreases ranked@.len() - k,
    {
        let user = ranked[k].0.as_str();
        let total = ranked[k].1;
        let ghost e = all[k as int];
        let ghost now = lines.take(k + 1);
        proof {
            assert(e == (user@, total as nat));
            assert(all.contains(e));
            let i = user_keys(views).index_of(e.0);
            assert(can_mention(views[i].user_id));
            let posts = crate::ranking::is_key(user_keys(views), user@);
            let again = is_repost_by(views, user@);
            assert forall|j: int| 0 <= j < views.len() && #[trigger] again(j) implies posts(j) by {}
            count_is_monotone(views.len(), again, posts);
            assert(now.drop_last() =~= lines.take(k as int));
            assert(now.last() == stat_line(views, e));
        }
        let reposts = count_reposts(rows, &flags, user);
        let ghost start = s@;
        s.append("- ");
        s.append(mention(user).as_str());
        s.append(": ");
        s.append(number_text(total).as_str());
        s.append(" (");
        s.append(number_text(reposts).as_str());
        s.append(" reposts, ");
        s.append(number_text(rounded_percent(reposts, total)).as_str());
        s.append("%)\n");
        assert(s@ =~= start + stat_line(views, e));
        assert(s@ =~= head + concat(now));
        k = k + 1;
    }
    assert(lines.take(k as int) =~= lines);
    s
}

// ---------------------------------------------------------------------------------------------
// The most frequent
// ---------------------------------------------------------------------------------------------

/// How many entries the lists of the most frequent hold at most.
pub const TOP: usize = 5;

/// The first entries of a ranking.
pub open spec fn best(l: Seq<Ranked>) -> Seq<Ranked> {
    if l.len() <= TOP {
        l
    } else {
        l.take(TOP as int)
    }
}

/// The line about entry `i` of a list of the most frequent.
pub open spec fn top_line(i: int, name: Seq<char>, count: nat) -> Seq<char> {
    decimal((i + 1) as nat) + ". "@ + name + " ("@ + decimal(count) + " länkar)\n"@
}

/// The lines about the most frequent domains.
pub open spec fn top_domain_lines(rows: Seq<RepostView>) -> Seq<Seq<char>> {
    best(ranking(domain_keys(rows))).map(|i: int, e: Ranked| top_line(i, e.0, e.1))
}

/// The most frequent domains.
pub open spec fn top_domains_text(rows: Seq<RepostView>) -> Seq<char> {
    "Top 5 domäner:\n"@ + if rows.len() == 0 {
        "Inga domäner hittades\n"@
    } else {
        concat(top_domain_lines(rows))
    }
}

/// The lines about the most active users.
pub open spec fn top_user_lines(rows: Seq<RepostView>) -> Seq<Seq<char>> {
    best(ranking(user_keys(rows))).map(|i: int, e: Ranked| top_line(i, mention_text(e.0), e.1))
}

/// The most active users.
pub open spec fn top_users_text(rows: Seq<RepostView>) -> Seq<char> {
    "Top 5 användare:\n"@ + if rows.len() == 0 {
        "Inga användare hittades\n"@
    } else {
        concat(top_user_lines(rows))
    }
}

/// Whether the most active users can be mentioned.
pub open spec fn top_users_known(rows: Seq<RepostView>) -> bool {
    forall|k: int|
        0 <= k < best(ranking(user_keys(rows))).len() ==> can_mention(
            (#[trigger] best(ranking(user_keys(rows)))[k]).0,
        )
}

/// A ranking is empty where there is nothing to rank.
proof fn empty_ranking(l: Seq<Ranked>, keys: Seq<Seq<char>>)
    requires
        is_ranking(l, keys),
    ensures
        l.len() == 0 <==> keys.len() == 0,
{
    if l.len() > 0 {
        assert(l.contains(l[0]));
        assert(keys.contains(l[0].0));
    }
    if keys.len() > 0 {
        let e = (keys[0], crate::ranking::occurrences(keys, keys[0]));
        assert(keys.contains(e.0));
        assert(l.contains(e));
    }
}

/// How many entries of a list of `n` are shown.
fn shown(n: usize) -> (r: usize)
    ensures
        r == if n <= TOP {
            n
        } else {
            TOP
        },
{
    if n <= TOP {
        n
    } else {
        TOP
    }
}

/// Whether the most active users can be mentioned.
pub fn knows_top_users(rows: &Vec<Repost>) -> (r: bool)
    ensures
        r == top_users_known(row_views(rows@)),
{
    let ghost views = row_views(rows@);
    let keys = users_of(rows);
    let ranked = rank(&keys);
    let n = shown(ranked.len());
    let ghost top = best(ranking(user_keys(views)));
    let mut k: usize = 0;
    while k < n
        invariant
            k <= n <= ranked@.len(),
            n == top.len(),
            views == row_views(rows@),
            top == best(ranking(user_keys(views))),
            forall|j: int| 0 <= j < n ==> #[trigger] top[j] == ranked_view(ranked@)[j],
            forall|j: int| 0 <= j < k ==> can_mention((#[trigger] top[j]).0),
        decreases n - k,
    {
        assert(top[k as int].0 == ranked@[k as int].0@);
        if !mentionable(ranked[k].0.as_str()) {
            return false;
        }
        k = k + 1;
    }
    true
}

/// Puts a line about entry `i` behind a text.
fn push_top_line(s: &mut String, i: usize, name: &str, count: u64)
    requires
        i < TOP,
    ensures
        final(s)@ == old(s)@ + top_line(i as int, name@, count as nat),
{
    let ghost start = s@;
    s.append(number_text((i + 1) as u64).as_str());
    s.append(". ");
    s.append(name);
    s.append(" (");
    s.append(number_text(count).as_str());
    s.append(" länkar)\n");
    assert(s@ =~= start + top_line(i as int, name@, count as nat));
}

/// Writes the most frequent domains.
pub fn top_domains(rows: &Vec<Repost>) -> (r: String)
    ensures
        r@ == top_domains_text(row_views(rows@)),
{
    let ghost views = row_views(rows@);
    let mut s = "Top 5 domäner:\n".to_owned();
    let ghost head = s@;
    let keys = domains_of(rows);
    let ranked = rank(&keys);
    proof {
        empty_ranking(ranked_view(ranked@), domain_keys(views));
    }
    if ranked.len() == 0 {
        s.append("Inga domäner hittades\n");
        return s;
    }
    let n = shown(ranked.len());
    let ghost lines = top_domain_lines(views);
    let mut k: usize = 0;
    while k < n
        invariant
            k <= n <= ranked@.len(),
            n <= TOP,
            n == lines.len(),
            ranked_view(ranked@) == ranking(domain_keys(views)),
            n == best(ranking(domain_keys(views))).len(),
            lines == top_domain_lines(views),
            s@ == head + concat(lines.take(k as int)),
        decreases n - k,
    {
        let ghost now = lines.take(k + 1);
        let ghost start = s@;
        push_top_line(&mut s, k, ranked[k].0.as_str(), ranked[k].1);
        assert(now.drop_last() =~= lines.take(k as int));
        assert(now.last() == top_line(k as int, ranked@[k as int].0@, ranked@[k as int].1 as nat)) by {
            assert(best(ranking(domain_keys(views)))[k as int] == ranked_view(ranked@)[k as int]);
        }
        assert(s@ =~= head + concat(now));
        k = k + 1;
    }
    assert(lines.take(k as int) =~= lines);
    s
}

/// Writes the most active users.
pub fn top_users(rows: &Vec<Repost>) -> (r: String)
    requires
        top_users_known(row_views(rows@)),
    ensures
        r@ == top_users_text(row_views(rows@)),
{
    let ghost views = row_views(rows@);
    let mut s = "Top 5 användare:\n".to_owned();
    let ghost head = s@;
    let keys = users_of(rows);
    let ranked = rank(&keys);
    proof {
        empty_ranking(ranked_view(ranked@), user_keys(views));
    }
    if ranked.len() == 0 {
        s.append("Inga användare hittades\n");
        return s;
    }
    let n = shown(ranked.len());
    let ghost top = best(ranking(user_keys(views)));
    let ghost lines = top_user_lines(views);
    let mut k: usize = 0;
    while k < n
        invariant
            k <= n <= ranked@.len(),
            n <= TOP,
            n == lines.len(),
            top_users_known(views),
            ranked_view(ranked@) == ranking(user_keys(views)),
            top == best(ranking(user_keys(views))),
            n == top.len(),
            lines == top_user_lines(views),
            s@ == head + concat(lines.take(k as int)),
        decreases n - k,
    {
        let ghost now = lines.take(k + 1);
        let ghost start = s@;
        assert(top[k as int] == ranked_view(ranked@)[k as int]);
        assert(can_mention(top[k as int].0));
        push_top_line(&mut s, k, mention(ranked[k].0.as_str()).as_str(), ranked[k].1);
        assert(now.drop_last() =~= lines.take(k as int));
        assert(now.last() == top_line(k as int, mention_text(top[k as int].0), top[k as int].1));
        assert(s@ =~= head + concat(now));
        k = k + 1;
    }
    assert(lines.take(k as int) =~= lines);
    s
}

// ---------------------------------------------------------------------------------------------
// One day
// ---------------------------------------------------------------------------------------------

/// The rows of a day.
pub open spec fn is_of_day(rows: Seq<RepostView>, day: Seq<char>) -> spec_fn(int) -> bool {
    |i: int| rows[i].posted_on == Some(day)
}

/// How many posts there were on a day.
pub open spec fn posts_on(rows: Seq<RepostView>, day: Seq<char>) -> nat {
    count_where(rows.len(), is_of_day(rows, day))
}

/// How many posts there were today.
pub open spec fn today_text(rows: Seq<RepostView>, today: Seq<char>) -> Seq<char> {
    "Idag har det postats "@ + decimal(posts_on(rows, today)) + " länkar"@
}

/// Writes how many posts there were today.
pub fn today_stats(rows: &Vec<Repost>, today: &str) -> (r: String)
    ensures
        r@ == today_text(row_views(rows@), today@),
{
    let ghost views = row_views(rows@);
    let ghost p = is_of_day(views, today@);
    let mut n: u64 = 0;
    let mut i: usize = 0;
    let total: usize = rows.len();
    while i < total
        invariant
            i <= total,
            total == rows@.len(),
            views == row_views(rows@),
            p == is_of_day(views, today@),
            n == count_where(i as nat, p),
            n <= i,
        decreases total - i,
    {
        assert(views[i as int] == rows@[i as int]@);
        let of_today = match &rows[i].posted_on {
            Some(day) => same(day.as_str(), today),
            None => false,
        };
        if of_today {
            n = n + 1;
        }
        i = i + 1;
    }
    let mut s = "Idag har det postats ".to_owned();
    s.append(number_text(n).as_str());
    s.append(" länkar");
    s
}

// ---------------------------------------------------------------------------------------------
// Hosts
// ---------------------------------------------------------------------------------------------

/// The line about one host.
pub open spec fn host_line(host: Seq<char>) -> Seq<char> {
    "- "@ + host + "\n"@
}

/// The lines about a set of hosts, in order.
pub open spec fn host_lines(hosts: Set<Seq<char>>) -> Seq<char> {
    if in_order(hosts).len() == 0 {
        "(none)\n"@
    } else {
        concat(in_order(hosts).map_values(|h: Seq<char>| host_line(h)))
    }
}

/// The hosts that are always enabled and those that are ignored.
pub open spec fn hosts_text(
    always_enabled: Set<Seq<char>>,
    ignored: Set<Seq<char>>,
) -> Seq<char> {
    "**Always Enabled Hosts:**\n"@ + host_lines(always_enabled) + "\n**Ignored Hosts:**\n"@
        + host_lines(ignored)
}

/// Puts the lines about a set of hosts behind a text.
fn push_hosts(s: &mut String, hosts: &SortedTexts)
    ensures
        final(s)@ == old(s)@ + host_lines(hosts@),
{
    let list = hosts.list();
    let ghost start = s@;
    if list.len() == 0 {
        assert(in_order(hosts@).len() == 0);
        s.append("(none)\n");
        return;
    }
    let ghost lines = in_order(hosts@).map_values(|h: Seq<char>| host_line(h));
    let mut k: usize = 0;
    while k < list.len()
        invariant
            k <= list@.len(),
            texts(list@) == in_order(hosts@),
            lines == in_order(hosts@).map_values(|h: Seq<char>| host_line(h)),
            s@ == start + concat(lines.take(k as int)),
        decreases list@.len() - k,
    {
        let ghost now = lines.take(k + 1);
        let ghost before = s@;
        let host = list[k].as_str();
        assert(host@ == texts(list@)[k as int]);
        s.append("- ");
        s.append(host);
        s.append("\n");
        assert(s@ =~= before + host_line(host@));
        assert(now.drop_last() =~= lines.take(k as int));
        assert(now.last() == host_line(host@));
        assert(s@ =~= start + concat(now));
        k = k + 1;
    }
    assert(lines.take(k as int) =~= lines);
}

/// Writes the hosts that are always enabled and those that are ignored.
pub fn list_hosts(always_enabled: &SortedTexts, ignored: &SortedTexts) -> (r: String)
    ensures
        r@ == hosts_text(always_enabled@, ignored@),
{
    let mut s = "**Always Enabled Hosts:**\n".to_owned();
    push_hosts(&mut s, always_enabled);
    s.append("\n**Ignored Hosts:**\n");
    push_hosts(&mut s, ignored);
    s
}

} // verus!
