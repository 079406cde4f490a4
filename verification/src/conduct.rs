//! What the bot does with messages, reactions and what it has read.

use vstd::prelude::*;

use crate::discord_handler::{
    admin_action, after_links, answerable, is_admin_there, is_thumbs_down, request_of, responded,
    responsive, route_of, AdminAction, AdminActionView, ChatMessage, GuildStanding, Request,
    UNKNOWN_COMMAND, USAGE,
};
use crate::laws::reported_if_and_only_if_posted;
use crate::links::{urls_in, UrlView};
use crate::moment::MomentView;
use crate::posts::{Repost, RepostView};
use crate::ranking::{ranking, ranking_exists};
use crate::reports::{best, hosts_text, top_users_known, user_keys, users_known};
use crate::repost_checker::{
    hosts_read, location_of, new_post, rows_read, site_of, Location, SiteDecision, StoreView,
    DATABASE_URL,
};
use crate::text::{
    begins_with, decimal, is_white, parse_gives_back_what_was_written, parsed_number, texts,
    white_space_is_no_word, word_comes_first, words,
};

verus! {

// ---------------------------------------------------------------------------------------------
// The links of a message
// ---------------------------------------------------------------------------------------------

/// The reports about the first `k` links of a message, in order, each made while the rows hold the
/// first `n` and one for every link before.
pub open spec fn told(
    store: StoreView,
    rows: Seq<RepostView>,
    n: nat,
    urls: Seq<UrlView>,
    k: nat,
) -> Seq<Seq<char>>
    decreases k,
{
    if k == 0 {
        seq![]
    } else {
        let before = told(store, rows, n, urls, (k - 1) as nat);
        match (StoreView { reposts: rows.take(n + k - 1), ..store }).report(urls[k - 1]) {
            Some(text) => before.push(text),
            None => before,
        }
    }
}

/// A message that is no request is answered with a report about each of its links that has been
/// posted before, in the order in which they stand there; and every link becomes a row with its
/// text, the author and the time, behind the rows that there were, which stay as they are.
pub proof fn links_of_a_message_are_told_and_stored(
    store: StoreView,
    m: ChatMessage,
    now: MomentView,
    later: StoreView,
    messages: Seq<Seq<char>>,
)
    requires
        responded(store, m, now, later, messages),
        request_of(m) is Links,
    ensures
        later.location == store.location,
        later.ignored == store.ignored,
        later.always_enabled == store.always_enabled,
        later.reposts.len() == store.reposts.len() + urls_in(m.content@).len(),
        later.reposts.take(store.reposts.len() as int) == store.reposts,
        forall|k: int|
            0 <= k < urls_in(m.content@).len() ==> {
                let row = later.reposts[store.reposts.len() + k];
                &&& row.url == (#[trigger] urls_in(m.content@)[k]).text
                &&& row.user_id == decimal(m.author_id as nat)
                &&& row.posted_at == now.timestamp_text()
                &&& row.posted_on == now.stored_day()
            },
        messages == told(
            store,
            later.reposts,
            store.reposts.len(),
            urls_in(m.content@),
            urls_in(m.content@).len(),
        ),
{
    let urls = urls_in(m.content@);
    let n = urls.len();
    crate::laws::every_link_is_stored(store, urls, m.author_id, now, n);
    assert(urls.take(n as int) =~= urls);
    assert(later.reposts.take(store.reposts.len() as int) =~= store.reposts);
    told_so_far(store, urls, m.author_id, now, n, n);
}

proof fn told_so_far(
    store: StoreView,
    urls: Seq<UrlView>,
    user_id: u64,
    now: MomentView,
    k: nat,
    n: nat,
)
    requires
        k <= n == urls.len(),
    ensures
        after_links(store, urls, user_id, now, k).1 == told(
            store,
            after_links(store, urls, user_id, now, n).0.reposts,
            store.reposts.len(),
            urls,
            k,
        ),
    decreases k,
{
    if k > 0 {
        told_so_far(store, urls, user_id, now, (k - 1) as nat, n);
        crate::laws::every_link_is_stored(store, urls, user_id, now, (k - 1) as nat);
        crate::laws::every_link_is_stored(store, urls, user_id, now, n);
        let before = after_links(store, urls, user_id, now, (k - 1) as nat).0;
        let rows = after_links(store, urls, user_id, now, n).0.reposts;
        assert(rows.take(store.reposts.len() + k - 1) =~= before.reposts);
        assert(before == (StoreView { reposts: rows.take(store.reposts.len() + k - 1), ..store }));
    }
}

/// The row of a post has the text of its URL, the number of its user and the time.
pub proof fn row_holds_what_was_posted(r: Repost, u: UrlView, user_id: u64, now: MomentView)
    requires
        r@ == new_post(u, user_id, now),
    ensures
        r.url@ == u.text,
        r.user_id@ == decimal(user_id as nat),
        parsed_number(r.user_id@) == Some(user_id),
        r.posted_at@ == now.timestamp_text(),
        r.posted_on matches Some(day) ==> now.stored_day() == Some(day@),
        r.posted_on is None ==> now.stored_day() is None,
{
    parse_gives_back_what_was_written(user_id);
}

/// Whether all rows are of users that have a number.
pub open spec fn of_real_users(rows: Seq<RepostView>) -> bool {
    forall|i: int|
        0 <= i < rows.len() ==> (parsed_number((#[trigger] rows[i]).user_id) matches Some(n) && n
            != 0)
}

/// A store whose rows are all of users that have a number can be asked everything, and every
/// message can be dealt with; and so it stays with every post.
pub proof fn real_users_can_all_be_named(
    store: StoreView,
    u: UrlView,
    request: Request,
    m: ChatMessage,
    user_id: u64,
    now: MomentView,
)
    requires
        of_real_users(store.reposts),
    ensures
        store.can_report(u),
        users_known(store.reposts),
        top_users_known(store.reposts),
        answerable(store, request),
        responsive(store, m),
        user_id != 0 ==> of_real_users(store.with_post(new_post(u, user_id, now)).reposts),
{
    let keys = user_keys(store.reposts);
    ranking_exists(keys);
    let l = ranking(keys);
    assert forall|k: int| 0 <= k < best(l).len() implies crate::users::can_mention(
        (#[trigger] best(l)[k]).0,
    ) by {
        assert(best(l)[k] == l[k]);
        assert(l.contains(l[k]));
        let i = keys.index_of(l[k].0);
        assert(store.reposts[i].user_id == l[k].0);
    }
    if user_id != 0 {
        let later = store.with_post(new_post(u, user_id, now)).reposts;
        parse_gives_back_what_was_written(user_id);
        assert forall|i: int| 0 <= i < later.len() implies (parsed_number(
            (#[trigger] later[i]).user_id,
        ) matches Some(n) && n != 0) by {
            if i < store.reposts.len() {
                assert(later[i] == store.reposts[i]);
            }
        }
    }
}

/// A link can be reported if its host is ignored, or if all its rows are of users that have a
/// number, and not otherwise; and the statistics can be written only if all rows are.
pub proof fn unreal_users_cannot_be_named(store: StoreView, h: Seq<char>, u: UrlView)
    requires
        u.host == Some(h),
    ensures
        store.can_report(u) <==> store.ignored.contains(h) || forall|i: int|
            0 <= i < store.reposts.len() && (#[trigger] store.reposts[i]).url == u.text ==> (
            parsed_number(store.reposts[i].user_id) matches Some(n) && n != 0),
        users_known(store.reposts) <==> of_real_users(store.reposts),
{
    let rows = store.reposts;
    if users_known(rows) {
        assert forall|i: int| 0 <= i < rows.len() implies (parsed_number(
            (#[trigger] rows[i]).user_id,
        ) matches Some(n) && n != 0) by {
            assert(crate::users::can_mention(rows[i].user_id));
        }
    }
    if store.can_report(u) && !store.ignored.contains(h) {
        assert forall|i: int| 0 <= i < rows.len() && (#[trigger] rows[i]).url == u.text implies (
        parsed_number(rows[i].user_id) matches Some(n) && n != 0) by {
            assert(crate::users::can_mention(rows[i].user_id));
        }
    }
}

// ---------------------------------------------------------------------------------------------
// Hosts
// ---------------------------------------------------------------------------------------------

/// A link is reported if it stands in a row and its host is not ignored, and only then. A URL
/// without a host goes by the empty text.
pub proof fn host_and_rows_decide_about_a_report(store: StoreView, u: UrlView, h: Seq<char>)
    requires
        u.host == Some(h) || (u.host is None && h == ""@),
    ensures
        store.report(u) is Some <==> !store.ignored.contains(h) && exists|i: int|
            0 <= i < store.reposts.len() && (#[trigger] store.reposts[i]).url == u.text,
{
    reported_if_and_only_if_posted(store, u);
}

/// A wish to silence a site goes by the host of the first URL of the message. It comes to nothing
/// where there is none or it is ignored already, is refused where the host is always enabled, and
/// else puts this host, and nothing else, among those that are ignored.
pub proof fn wish_goes_by_the_first_host(
    store: StoreView,
    content: Seq<char>,
    h: Seq<char>,
    d: SiteDecision,
)
    requires
        d@ == store.decide_site(site_of(urls_in(content))),
    ensures
        urls_in(content).len() == 0 || urls_in(content)[0].host is None ==> {
            &&& d is Nothing
            &&& d@.reply(true) is None
            &&& store.after_decision(d@) == store
        },
        urls_in(content).len() > 0 && urls_in(content)[0].host == Some(h) ==> {
            &&& store.ignored.contains(h) ==> d is Nothing && d@.reply(true) is None
                && store.after_decision(d@) == store
            &&& !store.ignored.contains(h) && store.always_enabled.contains(h) ==> {
                &&& d matches SiteDecision::Refuse(x) && x@ == h
                &&& d@.reply(true) == Some("Sorry, det går inte att stänga av "@ + h)
                &&& store.after_decision(d@) == store
            }
            &&& !store.ignored.contains(h) && !store.always_enabled.contains(h) ==> {
                &&& d matches SiteDecision::Ignore(x) && x@ == h
                &&& d@.reply(true) == Some("Ok, ska sluta rapportera från "@ + h)
                &&& d@.reply(false) is None
                &&& store.after_decision(d@).ignored == store.ignored.insert(h)
                &&& store.after_decision(d@).always_enabled == store.always_enabled
                &&& store.after_decision(d@).reposts == store.reposts
                &&& store.after_decision(d@).location == store.location
            }
        },
{
}

/// A thumbs down is the emoji alone, or with one of four skin tones behind it.
pub proof fn thumbs_down_in_five_forms(emoji: Seq<char>)
    ensures
        is_thumbs_down(emoji) <==> {
            &&& 1 <= emoji.len() <= 2
            &&& emoji[0] as int == 0x1f44e
            &&& emoji.len() == 2 ==> {
                ||| emoji[1] as int == 0x1f3fb
                ||| emoji[1] as int == 0x1f3fc
                ||| emoji[1] as int == 0x1f3fd
                ||| emoji[1] as int == 0x1f3ff
            }
        },
{
    reveal_strlit("👎");
    reveal_strlit("👎🏻");
    reveal_strlit("👎🏼");
    reveal_strlit("👎🏽");
    reveal_strlit("👎🏿");
    if emoji.len() == 1 && emoji[0] as int == 0x1f44e {
        assert(emoji[0] == '👎');
        assert(emoji =~= "👎"@);
    }
    if emoji.len() == 2 && emoji[0] as int == 0x1f44e {
        if emoji[1] as int == 0x1f3fb {
            assert(emoji =~= "👎🏻"@);
        }
        if emoji[1] as int == 0x1f3fc {
            assert(emoji =~= "👎🏼"@);
        }
        if emoji[1] as int == 0x1f3fd {
            assert(emoji =~= "👎🏽"@);
        }
        if emoji[1] as int == 0x1f3ff {
            assert(emoji =~= "👎🏿"@);
        }
    }
}

// ---------------------------------------------------------------------------------------------
// Messages
// ---------------------------------------------------------------------------------------------

/// What the bot wrote is skipped; of the rest, what was written in no guild goes to the
/// administration, and what was written in one to the channel.
pub proof fn messages_go_where_they_belong(m: ChatMessage)
    ensures
        route_of(m) is Skip <==> m.author_id == m.bot_id,
        route_of(m) is Admin <==> m.author_id != m.bot_id && !m.in_guild,
        route_of(m) is Channel <==> m.author_id != m.bot_id && m.in_guild,
{
}

/// The fourth bit of the permissions makes an administrator, and nothing else does.
pub proof fn fourth_bit_makes_an_administrator(bits: u64)
    ensures
        is_admin_there(GuildStanding::Permissions(bits)) <==> (bits / 8) % 2 == 1,
        !is_admin_there(GuildStanding::NoMember),
        !is_admin_there(GuildStanding::NoGuild),
{
    assert((bits & 8 == 8) <==> (bits / 8) % 2 == 1) by (bit_vector);
}

/// Whether a text holds white space alone.
pub open spec fn blank(s: Seq<char>) -> bool {
    forall|i: int| 0 <= i < s.len() ==> is_white(#[trigger] s[i])
}

/// Whether a text is one word.
pub open spec fn one_word(s: Seq<char>) -> bool {
    s.len() > 0 && forall|i: int| 0 <= i < s.len() ==> !is_white(#[trigger] s[i])
}

/// Whether a text is empty or goes on with white space.
pub open spec fn goes_on(s: Seq<char>) -> bool {
    s.len() == 0 || is_white(s[0])
}

proof fn first_two_words(
    p: Seq<char>,
    a: Seq<char>,
    q: Seq<char>,
    b: Seq<char>,
    rest: Seq<char>,
)
    requires
        blank(p),
        one_word(a),
        blank(q),
        q.len() > 0,
        one_word(b),
        goes_on(rest),
    ensures
        words(p + a + q + b + rest) == seq![a, b] + words(rest),
{
    let s = q + (b + rest);
    assert(p + a + q + b + rest =~= p + (a + s));
    white_space_is_no_word(p, a + s);
    assert(s[0] == q[0]);
    word_comes_first(a, s);
    white_space_is_no_word(q, b + rest);
    word_comes_first(b, rest);
    assert(seq![a] + (seq![b] + words(rest)) =~= seq![a, b] + words(rest));
}

/// A command and a host, with any white space before, between and behind them, are carried out:
/// the host comes into its list or leaves it, nothing else changes, and the answer says so.
pub proof fn commands_do_what_they_say(
    store: StoreView,
    p: Seq<char>,
    command: Seq<char>,
    q: Seq<char>,
    host: Seq<char>,
    r: Seq<char>,
    action: AdminAction,
)
    requires
        blank(p),
        one_word(command),
        blank(q),
        q.len() > 0,
        one_word(host),
        blank(r),
        action@ == admin_action(true, p + command + q + host + r),
        command != "list-urls"@,
    ensures
        action@.store_after(store).reposts == store.reposts,
        action@.store_after(store).location == store.location,
        command == "always-enable"@ || command == "always-enable-add"@ ==> {
            &&& action matches AdminAction::AddAlwaysEnabled(h) && h@ == host
            &&& action@.store_after(store).always_enabled == store.always_enabled.insert(host)
            &&& action@.store_after(store).ignored == store.ignored
            &&& action@.answer(store) == "Added "@ + host + " to always enabled hosts"@
        },
        command == "always-disable"@ || command == "always-enable-remove"@ || command
            == "always-disable-remove"@ ==> {
            &&& action matches AdminAction::RemoveAlwaysEnabled(h) && h@ == host
            &&& action@.store_after(store).always_enabled == store.always_enabled.remove(host)
            &&& action@.store_after(store).ignored == store.ignored
            &&& action@.answer(store) == "Removed "@ + host + " from always enabled hosts"@
        },
        command == "ignore-add"@ ==> {
            &&& action matches AdminAction::AddIgnore(h) && h@ == host
            &&& action@.store_after(store).ignored == store.ignored.insert(host)
            &&& action@.store_after(store).always_enabled == store.always_enabled
            &&& action@.answer(store) == "Added "@ + host + " to ignored hosts"@
        },
        command == "ignore-remove"@ ==> {
            &&& action matches AdminAction::RemoveIgnore(h) && h@ == host
            &&& action@.store_after(store).ignored == store.ignored.remove(host)
            &&& action@.store_after(store).always_enabled == store.always_enabled
            &&& action@.answer(store) == "Removed "@ + host + " from ignored hosts"@
        },
        command != "always-enable"@ && command != "always-enable-add"@ && command
            != "always-disable"@ && command != "always-enable-remove"@ && command
            != "always-disable-remove"@ && command != "ignore-add"@ && command
            != "ignore-remove"@ ==> {
            &&& action matches AdminAction::Reply(t) && t@ == UNKNOWN_COMMAND@
            &&& action@.store_after(store) == store
            &&& action@.answer(store) == UNKNOWN_COMMAND@
        },
{
    first_two_words(p, command, q, host, r);
    white_space_is_no_word(r, seq![]);
    assert(words(p + command + q + host + r) =~= seq![command, host]);
    reveal_strlit("always-enable");
    reveal_strlit("always-enable-add");
    reveal_strlit("always-disable");
    reveal_strlit("always-enable-remove");
    reveal_strlit("always-disable-remove");
    reveal_strlit("ignore-add");
    reveal_strlit("ignore-remove");
    assert("ignore-add"@[0] != "always-enable"@[0]);
}

/// The command for the lists, with whatever behind it, is answered with the lists.
pub proof fn lists_are_given_when_asked_for(
    store: StoreView,
    p: Seq<char>,
    rest: Seq<char>,
    action: AdminAction,
)
    requires
        blank(p),
        goes_on(rest),
        action@ == admin_action(true, p + "list-urls"@ + rest),
    ensures
        action is ListUrls,
        action@.store_after(store) == store,
        action@.answer(store) == hosts_text(store.always_enabled, store.ignored),
{
    reveal_strlit("list-urls");
    assert(p + "list-urls"@ + rest =~= p + ("list-urls"@ + rest));
    white_space_is_no_word(p, "list-urls"@ + rest);
    word_comes_first("list-urls"@, rest);
}

/// Any other message of one word, or of three and more, is answered with the help, and changes
/// nothing.
pub proof fn what_has_not_two_words_gets_help(
    store: StoreView,
    p: Seq<char>,
    a: Seq<char>,
    q: Seq<char>,
    b: Seq<char>,
    r: Seq<char>,
    c: Seq<char>,
    rest: Seq<char>,
)
    requires
        blank(p),
        one_word(a),
        a != "list-urls"@,
        blank(q),
        q.len() > 0,
        one_word(b),
        blank(r),
        r.len() > 0,
        one_word(c),
        goes_on(rest),
    ensures
        admin_action(true, p + a + q) == AdminActionView::Reply(USAGE@),
        admin_action(true, p + a) == AdminActionView::Reply(USAGE@),
        admin_action(true, p + a + q + b + (r + c + rest)) == AdminActionView::Reply(USAGE@),
        AdminActionView::Reply(USAGE@).store_after(store) == store,
        AdminActionView::Reply(USAGE@).answer(store) == USAGE@,
{
    assert(p + a + q =~= p + (a + q));
    white_space_is_no_word(p, a + q);
    word_comes_first(a, q);
    white_space_is_no_word(q, seq![]);
    white_space_is_no_word(p, a);
    word_comes_first(a, seq![]);
    assert(a + seq![] =~= a);
    white_space_is_no_word(seq![], seq![]);
    let tail = r + c + rest;
    assert(tail[0] == r[0]);
    first_two_words(p, a, q, b, tail);
    assert(tail =~= r + (c + rest));
    white_space_is_no_word(r, c + rest);
    word_comes_first(c, rest);
}

// ---------------------------------------------------------------------------------------------
// The database
// ---------------------------------------------------------------------------------------------

/// What is read from the database is taken over whole: every row, with all that stands in it, in
/// order, and every host; nothing of what was there before stays.
pub proof fn what_is_read_is_taken_over(
    store: StoreView,
    reposts: Vec<Repost>,
    ignored: Vec<String>,
    always_enabled: Vec<String>,
)
    ensures
        ({
            let later = store.loaded(
                rows_read(Some(reposts)),
                hosts_read(Some(ignored)),
                hosts_read(Some(always_enabled)),
            );
            &&& later.location == store.location
            &&& later.reposts.len() == reposts@.len()
            &&& forall|i: int|
                0 <= i < reposts@.len() ==> {
                    &&& (#[trigger] later.reposts[i]).url == reposts@[i].url@
                    &&& later.reposts[i].user_id == reposts@[i].user_id@
                    &&& later.reposts[i].posted_at == reposts@[i].posted_at@
                    &&& (reposts@[i].posted_on matches Some(day) ==> later.reposts[i].posted_on
                        == Some(day@))
                    &&& reposts@[i].posted_on is None ==> later.reposts[i].posted_on is None
                }
            &&& forall|h: Seq<char>| #[trigger]
                later.ignored.contains(h) <==> exists|i: int|
                    0 <= i < ignored@.len() && (#[trigger] ignored@[i])@ == h
            &&& forall|h: Seq<char>| #[trigger]
                later.always_enabled.contains(h) <==> exists|i: int|
                    0 <= i < always_enabled@.len() && (#[trigger] always_enabled@[i])@ == h
            &&& later.ignored.finite()
            &&& later.always_enabled.finite()
        }),
        ({
            let later = store.loaded(rows_read(None), hosts_read(None), hosts_read(None));
            later == StoreView::empty(store.location)
        }),
{
    host_texts(ignored@);
    host_texts(always_enabled@);
    let later = store.loaded(rows_read(None), hosts_read(None), hosts_read(None));
    assert(later.reposts =~= seq![]);
}

proof fn host_texts(v: Seq<String>)
    ensures
        texts(v).to_set().finite(),
        forall|h: Seq<char>| #[trigger]
            texts(v).to_set().contains(h) <==> exists|i: int|
                0 <= i < v.len() && (#[trigger] v[i])@ == h,
{
    vstd::seq_lib::seq_to_set_is_finite(texts(v));
    assert forall|h: Seq<char>| #[trigger] texts(v).to_set().contains(h) <==> exists|i: int|
        0 <= i < v.len() && (#[trigger] v[i])@ == h by {
        if texts(v).contains(h) {
            let i = texts(v).index_of(h);
            assert(v[i]@ == h);
        }
        if exists|i: int| 0 <= i < v.len() && (#[trigger] v[i])@ == h {
            let i = choose|i: int| 0 <= i < v.len() && (#[trigger] v[i])@ == h;
            assert(texts(v)[i] == h);
        }
    }
}

/// One URL names memory; any other names a file, by the path behind `sqlite:` or by itself. The bot
/// uses the file `reposts.db`.
pub proof fn database_urls_name_files(url: Seq<char>, path: Seq<char>, l: Location)
    requires
        l@ == location_of(url),
    ensures
        l is Memory <==> url == "sqlite::memory:"@,
        url == "sqlite:"@ + path && path != ":memory:"@ ==> (l matches Location::File(p) && p@
            == path),
        !begins_with(url, "sqlite:"@) ==> (l matches Location::File(p) && p@ == url),
        location_of(DATABASE_URL@) == crate::repost_checker::LocationView::File("reposts.db"@),
{
    reveal_strlit("sqlite:");
    reveal_strlit(":memory:");
    reveal_strlit("sqlite::memory:");
    reveal_strlit("sqlite:reposts.db");
    reveal_strlit("reposts.db");
    assert("sqlite::memory:"@.subrange(0, 7) =~= "sqlite:"@);
    assert("sqlite::memory:"@.skip(7) =~= ":memory:"@);
    assert("sqlite:reposts.db"@.subrange(0, 7) =~= "sqlite:"@);
    assert("sqlite:reposts.db"@.skip(7) =~= "reposts.db"@);
    assert("sqlite:reposts.db"@.len() != "sqlite::memory:"@.len());
    if url == "sqlite:"@ + path {
        assert(url.subrange(0, 7) =~= "sqlite:"@);
        assert(url.skip(7) =~= path);
    }
}

} // verus!
