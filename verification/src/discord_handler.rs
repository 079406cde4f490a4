//! What the bot does about the messages and reactions that Discord reports.

use vstd::prelude::*;
use vstd::string::*;

use crate::links::{find_urls, text_of, url_views, urls_in, Url, UrlView};
use crate::moment::{Moment, MomentView};
use crate::posts::Repost;
use crate::reports::{
    hosts_text, stats_text, today_text, top_domains_text, top_users_known, top_users_text,
    users_known,
};
use crate::repost_checker::{new_post, RepostChecker, StoreView};
use crate::text::{
    ending_with, ends_with, parse_gives_back_what_was_written, same, split_words, texts, words,
};
use crate::users::can_mention;

verus! {

/// A message as Discord reports it, and the user that the bot is.
pub struct ChatMessage {
    pub author_id: u64,
    pub bot_id: u64,
    pub in_guild: bool,
    pub channel_id: u64,
    pub mentions: Vec<u64>,
    pub content: String,
}

/// The [`Handler`] decides about messages and reactions.
pub struct Handler {
    pub repost_checker: RepostChecker,
}

// ---------------------------------------------------------------------------------------------
// Messages
// ---------------------------------------------------------------------------------------------

/// Who deals with a message.
pub enum Route {
    /// Nobody: the bot wrote it itself.
    Skip,
    /// The administration: it is a direct message.
    Admin,
    /// The channel that it was written in.
    Channel,
}

/// Who deals with a message.
pub open spec fn route_of(m: ChatMessage) -> Route {
    if m.author_id == m.bot_id {
        Route::Skip
    } else if !m.in_guild {
        Route::Admin
    } else {
        Route::Channel
    }
}

/// What a message in a channel asks of the bot.
pub enum Request {
    Stats,
    TopDomains,
    TopUsers,
    Today,
    /// Nothing but to look at its links.
    Links,
}

/// What a message asks: something only where it mentions the bot, and then by its last words.
pub open spec fn request_of(m: ChatMessage) -> Request {
    if !m.mentions@.contains(m.bot_id) {
        Request::Links
    } else if ends_with(m.content@, "stats"@) {
        Request::Stats
    } else if ends_with(m.content@, "top domains"@) {
        Request::TopDomains
    } else if ends_with(m.content@, "top users"@) {
        Request::TopUsers
    } else if ends_with(m.content@, "today"@) {
        Request::Today
    } else {
        Request::Links
    }
}

/// Whether all users can be mentioned that the answer to a request mentions.
pub open spec fn answerable(store: StoreView, request: Request) -> bool {
    match request {
        Request::Stats => users_known(store.reposts),
        Request::TopUsers => top_users_known(store.reposts),
        _ => true,
    }
}

/// The answer to a request, where it has one.
pub open spec fn answer_text(store: StoreView, request: Request, now: MomentView) -> Option<
    Seq<char>,
> {
    match request {
        Request::Stats => Some(stats_text(store.reposts)),
        Request::TopDomains => Some(top_domains_text(store.reposts)),
        Request::TopUsers => Some(top_users_text(store.reposts)),
        Request::Today => Some(today_text(store.reposts, now.date_text())),
        Request::Links => None,
    }
}

// ---------------------------------------------------------------------------------------------
// The links of a message
// ---------------------------------------------------------------------------------------------

/// The messages with the report about a URL behind them, if there is one.
pub open spec fn with_report(
    messages: Seq<Seq<char>>,
    store: StoreView,
    u: UrlView,
) -> Seq<Seq<char>> {
    match store.report(u) {
        Some(text) => messages.push(text),
        None => messages,
    }
}

/// How far the bot has come with the links of a message.
pub struct SessionView {
    pub urls: Seq<UrlView>,
    pub done: nat,
    pub user_id: u64,
    pub channel_id: u64,
    pub messages: Seq<Seq<char>>,
}

/// The work on the links of one message: each is looked up in the store and then put into it.
pub struct Session {
    urls: Vec<Url>,
    done: usize,
    user_id: u64,
    channel_id: u64,
    messages: Vec<String>,
}

impl View for Session {
    type V = SessionView;

    closed spec fn view(&self) -> SessionView {
        SessionView {
            urls: url_views(self.urls@),
            done: self.done as nat,
            user_id: self.user_id,
            channel_id: self.channel_id,
            messages: texts(self.messages@),
        }
    }
}

impl Session {
    #[verifier::type_invariant]
    spec fn in_bounds(self) -> bool {
        self.done <= self.urls@.len() && self.user_id != 0
    }

    /// Starts on the links of a message.
    pub fn begin(m: &ChatMessage) -> (r: Session)
        requires
            m.author_id != 0,
        ensures
            r@.urls == urls_in(m.content@),
            r@.done == 0,
            r@.user_id == m.author_id,
            r@.channel_id == m.channel_id,
            r@.messages == Seq::<Seq<char>>::empty(),
    {
        let urls = find_urls(m.content.as_str());
        let messages: Vec<String> = Vec::new();
        assert(texts(messages@) =~= Seq::<Seq<char>>::empty());
        Session {
            urls,
            done: 0,
            user_id: m.author_id,
            channel_id: m.channel_id,
            messages,
        }
    }

    /// The URL whose posts are to be read next; none where the messages are to be sent.
    pub fn next_url(&self) -> (r: Option<&Url>)
        ensures
            match r {
                Some(u) => self@.done < self@.urls.len() && u@ == self@.urls[self@.done as int],
                None => self@.done == self@.urls.len(),
            },
    {
        proof {
            use_type_invariant(self);
        }
        if self.done < self.urls.len() {
            assert(url_views(self.urls@)[self.done as int] == self.urls@[self.done as int]@);
            Some(&self.urls[self.done])
        } else {
            None
        }
    }

    /// Deals with the next URL, given the store as it was read, and returns the row to be stored.
    /// Whether that row could be stored is of no matter to what follows.
    pub fn step(&mut self, store: &mut RepostChecker, now: &Moment) -> (r: Repost)
        requires
            old(self)@.done < old(self)@.urls.len(),
            old(store)@.can_report(old(self)@.urls[old(self)@.done as int]),
        ensures
            r@ == new_post(
                old(self)@.urls[old(self)@.done as int],
                old(self)@.user_id,
                now@,
            ),
            final(store)@ == old(store)@.with_post(r@),
            final(self)@ == (SessionView {
                done: old(self)@.done + 1,
                messages: with_report(
                    old(self)@.messages,
                    old(store)@,
                    old(self)@.urls[old(self)@.done as int],
                ),
                ..old(self)@
            }),
    {
        proof {
            use_type_invariant(&*self);
        }
        let ghost was = texts(self.messages@);
        let n: usize = self.urls.len();
        assert(self.done < n);
        let u = &self.urls[self.done];
        assert(url_views(self.urls@)[self.done as int] == u@);
        let report = store.check_repost(u, self.channel_id);
        let row = store.add_url(u, self.user_id, self.channel_id, now);
        match report {
            Some(text) => {
                let mut messages: Vec<String> = Vec::new();
                std::mem::swap(&mut messages, &mut self.messages);
                messages.push(text);
                assert(texts(messages@) =~= was.push(text@));
                self.messages = messages;
            },
            None => {},
        }
        self.done = self.done + 1;
        row
    }

    /// The messages to be sent.
    pub fn finish(self) -> (r: Vec<String>)
        ensures
            texts(r@) == self@.messages,
    {
        self.messages
    }
}

/// The store and the messages after the first `k` links of a message, each post being stored.
pub open spec fn after_links(
    store: StoreView,
    urls: Seq<UrlView>,
    user_id: u64,
    now: MomentView,
    k: nat,
) -> (StoreView, Seq<Seq<char>>)
    decreases k,
{
    if k == 0 {
        (store, seq![])
    } else {
        let before = after_links(store, urls, user_id, now, (k - 1) as nat);
        let u = urls[k - 1];
        (before.0.with_post(new_post(u, user_id, now)), with_report(before.1, before.0, u))
    }
}

/// Whether all that the reports about some URLs would mention can be mentioned.
pub open spec fn all_reportable(store: StoreView, urls: Seq<UrlView>) -> bool {
    forall|k: int| 0 <= k < urls.len() ==> store.can_report(#[trigger] urls[k])
}

/// A post of a user leaves what can be reported reportable.
pub proof fn posts_stay_reportable(
    store: StoreView,
    urls: Seq<UrlView>,
    u: UrlView,
    user_id: u64,
    now: MomentView,
)
    requires
        all_reportable(store, urls),
        user_id != 0,
    ensures
        all_reportable(store.with_post(new_post(u, user_id, now)), urls),
{
    let row = new_post(u, user_id, now);
    let later = store.with_post(row);
    parse_gives_back_what_was_written(user_id);
    assert(can_mention(row.user_id));
    assert forall|k: int| 0 <= k < urls.len() implies later.can_report(#[trigger] urls[k]) by {
        assert(store.can_report(urls[k]));
        if !later.ignores(urls[k]) {
            assert forall|i: int|
                0 <= i < later.reposts.len() && (#[trigger] later.reposts[i]).url
                    == urls[k].text implies can_mention(later.reposts[i].user_id) by {
                if i < store.reposts.len() {
                    assert(later.reposts[i] == store.reposts[i]);
                }
            }
        }
    }
}

/// Whether all users can be mentioned that the messages about a message in a channel mention.
pub open spec fn responsive(store: StoreView, m: ChatMessage) -> bool {
    &&& answerable(store, request_of(m))
    &&& request_of(m) is Links ==> all_reportable(store, urls_in(m.content@))
}

/// Whether the bot responded to a message in a channel as it does: with the answer to what it asks,
/// the store staying as it was, or else with the reports about its links, each of which is then
/// put into the store.
pub open spec fn responded(
    store: StoreView,
    m: ChatMessage,
    now: MomentView,
    later: StoreView,
    messages: Seq<Seq<char>>,
) -> bool {
    match answer_text(store, request_of(m), now) {
        Some(text) => later == store && messages == seq![text],
        None => {
            let urls = urls_in(m.content@);
            (later, messages) == after_links(store, urls, m.author_id, now, urls.len())
        },
    }
}

// ---------------------------------------------------------------------------------------------
// Administration
// ---------------------------------------------------------------------------------------------

/// What everyone but an administrator is told.
pub const NOT_ADMIN: &'static str = "You need administrator permissions to use admin commands.";

/// What is said about a command without the one host that it needs.
pub const USAGE: &'static str = r#"
Available commands:
- `always-enable <host>` - Always check reposts for host
- `always-disable <host>` - Remove host from always enabled
- `ignore-add <host>` - Ignore reposts from host
- `ignore-remove <host>` - Remove host from ignore list
- `list-urls` - List all always-enabled and ignored hosts
"#;

/// What is said about a command that is none.
pub const UNKNOWN_COMMAND: &'static str =
    "Unknown command. Available: always-enable-add, always-enable-remove, ignore-add, ignore-remove";

/// What a direct message asks for.
pub enum AdminActionView {
    Reply(Seq<char>),
    ListUrls,
    AddAlwaysEnabled(Seq<char>),
    RemoveAlwaysEnabled(Seq<char>),
    AddIgnore(Seq<char>),
    RemoveIgnore(Seq<char>),
}

/// What a direct message asks for: an answer at once, or something to be done with the store.
pub enum AdminAction {
    Reply(String),
    ListUrls,
    AddAlwaysEnabled(String),
    RemoveAlwaysEnabled(String),
    AddIgnore(String),
    RemoveIgnore(String),
}

impl View for AdminAction {
    type V = AdminActionView;

    open spec fn view(&self) -> AdminActionView {
        match self {
            AdminAction::Reply(s) => AdminActionView::Reply(s@),
            AdminAction::ListUrls => AdminActionView::ListUrls,
            AdminAction::AddAlwaysEnabled(h) => AdminActionView::AddAlwaysEnabled(h@),
            AdminAction::RemoveAlwaysEnabled(h) => AdminActionView::RemoveAlwaysEnabled(h@),
            AdminAction::AddIgnore(h) => AdminActionView::AddIgnore(h@),
            AdminAction::RemoveIgnore(h) => AdminActionView::RemoveIgnore(h@),
        }
    }
}

/// What a direct message asks for.
pub open spec fn admin_action(is_admin: bool, content: Seq<char>) -> AdminActionView {
    let parts = words(content);
    if !is_admin {
        AdminActionView::Reply(NOT_ADMIN@)
    } else if parts[0] == "list-urls"@ {
        AdminActionView::ListUrls
    } else if parts.len() != 2 {
        AdminActionView::Reply(USAGE@)
    } else if parts[0] == "always-enable"@ || parts[0] == "always-enable-add"@ {
        AdminActionView::AddAlwaysEnabled(parts[1])
    } else if parts[0] == "always-disable"@ || parts[0] == "always-enable-remove"@ || parts[0]
        == "always-disable-remove"@ {
        AdminActionView::RemoveAlwaysEnabled(parts[1])
    } else if parts[0] == "ignore-add"@ {
        AdminActionView::AddIgnore(parts[1])
    } else if parts[0] == "ignore-remove"@ {
        AdminActionView::RemoveIgnore(parts[1])
    } else {
        AdminActionView::Reply(UNKNOWN_COMMAND@)
    }
}

impl AdminActionView {
    /// The store after the action.
    pub open spec fn store_after(self, store: StoreView) -> StoreView {
        match self {
            AdminActionView::AddAlwaysEnabled(h) => store.with_always_enabled(h),
            AdminActionView::RemoveAlwaysEnabled(h) => store.without_always_enabled(h),
            AdminActionView::AddIgnore(h) => store.with_ignored(h),
            AdminActionView::RemoveIgnore(h) => store.without_ignored(h),
            _ => store,
        }
    }

    /// The answer where the action succeeds.
    pub open spec fn answer(self, store: StoreView) -> Seq<char> {
        match self {
            AdminActionView::Reply(s) => s,
            AdminActionView::ListUrls => hosts_text(store.always_enabled, store.ignored),
            AdminActionView::AddAlwaysEnabled(h) => "Added "@ + h + " to always enabled hosts"@,
            AdminActionView::RemoveAlwaysEnabled(h) => "Removed "@ + h
                + " from always enabled hosts"@,
            AdminActionView::AddIgnore(h) => "Added "@ + h + " to ignored hosts"@,
            AdminActionView::RemoveIgnore(h) => "Removed "@ + h + " from ignored hosts"@,
        }
    }
}

/// What is known of a user in one guild.
pub enum GuildStanding {
    /// The user could not be found there.
    NoMember,
    /// The guild could not be read.
    NoGuild,
    /// The permissions of the user, as the bits that Discord gives.
    Permissions(u64),
}

/// Whether a set of permissions makes an administrator.
pub open spec fn has_administrator(bits: u64) -> bool {
    bits & 8 == 8
}

/// `serenity::model::permissions::Permissions::administrator`: whether the fourth bit is set.
#[verifier::external_body]
fn administrator(bits: u64) -> (r: bool)
    ensures
        r == has_administrator(bits),
{
    serenity::model::permissions::Permissions::from_bits_truncate(bits).administrator()
}

/// Whether a user is an administrator in a guild.
pub open spec fn is_admin_there(s: GuildStanding) -> bool {
    match s {
        GuildStanding::Permissions(bits) => has_administrator(bits),
        _ => false,
    }
}

// ---------------------------------------------------------------------------------------------
// Reactions
// ---------------------------------------------------------------------------------------------

/// The emojis that ask to silence a site.
pub open spec fn is_thumbs_down(emoji: Seq<char>) -> bool {
    ||| emoji == "👎"@
    ||| emoji == "👎🏻"@
    ||| emoji == "👎🏼"@
    ||| emoji == "👎🏽"@
    ||| emoji == "👎🏿"@
}

impl Handler {
    /// The message hook is fired on every message in the channel.
    pub fn message(&self, m: &ChatMessage) -> (r: Route)
        ensures
            r == route_of(*m),
    {
        if m.author_id == m.bot_id {
            Route::Skip
        } else if !m.in_guild {
            Route::Admin
        } else {
            Route::Channel
        }
    }

    /// Check reactions to messages: whether this one asks to silence the site of the message. Only
    /// reactions to messages of a bot count. A custom emoji has no text.
    pub fn reaction_add(&self, author_is_bot: bool, emoji: Option<&str>) -> (r: bool)
        ensures
            r == (author_is_bot && emoji is Some && is_thumbs_down(emoji->0@)),
    {
        if !author_is_bot {
            return false;
        }
        match emoji {
            Some(e) => same(e, "👎") || same(e, "👎🏻") || same(e, "👎🏼") || same(
                e,
                "👎🏽",
            ) || same(e, "👎🏿"),
            None => false,
        }
    }

    /// What a message in a channel asks of the bot.
    pub fn request(&self, m: &ChatMessage) -> (r: Request)
        ensures
            r == request_of(*m),
    {
        let mut mentioned = false;
        let mut i: usize = 0;
        while i < m.mentions.len()
            invariant
                i <= m.mentions@.len(),
                mentioned <==> exists|j: int| 0 <= j < i && m.mentions@[j] == m.bot_id,
            decreases m.mentions@.len() - i,
        {
            if m.mentions[i] == m.bot_id {
                mentioned = true;
            }
            i = i + 1;
        }
        if !mentioned {
            Request::Links
        } else if ending_with(m.content.as_str(), "stats") {
            Request::Stats
        } else if ending_with(m.content.as_str(), "top domains") {
            Request::TopDomains
        } else if ending_with(m.content.as_str(), "top users") {
            Request::TopUsers
        } else if ending_with(m.content.as_str(), "today") {
            Request::Today
        } else {
            Request::Links
        }
    }

    /// Whether all users can be mentioned that the answer to a request mentions.
    pub fn can_answer(&self, request: &Request) -> (r: bool)
        ensures
            r == answerable(self.repost_checker@, *request),
    {
        match request {
            Request::Stats => self.repost_checker.knows_users(),
            Request::TopUsers => self.repost_checker.knows_top_users(),
            _ => true,
        }
    }

    /// The answer to a request, where it has one.
    pub fn answer(&self, request: &Request, now: &Moment) -> (r: Option<String>)
        requires
            answerable(self.repost_checker@, *request),
        ensures
            text_of(r) == answer_text(self.repost_checker@, *request, now@),
    {
        match request {
            Request::Stats => Some(self.repost_checker.stats()),
            Request::TopDomains => Some(self.repost_checker.top_domains()),
            Request::TopUsers => Some(self.repost_checker.top_users()),
            Request::Today => Some(self.repost_checker.today_stats(now)),
            Request::Links => None,
        }
    }

    /// The messages that the bot sends about a message in a channel: the answer to what it asks,
    /// or else the reports about its links, each of which is then put into the store.
    pub fn get_messages_to_send(&mut self, m: &ChatMessage, now: &Moment) -> (r: Vec<String>)
        requires
            m.author_id != 0,
            responsive(old(self).repost_checker@, *m),
        ensures
            responded(
                old(self).repost_checker@,
                *m,
                now@,
                final(self).repost_checker@,
                texts(r@),
            ),
    {
        let request = self.request(m);
        match self.answer(&request, now) {
            Some(text) => {
                let mut messages: Vec<String> = Vec::new();
                messages.push(text);
                assert(texts(messages@) =~= seq![text@]);
                return messages;
            },
            None => {},
        }
        let ghost store = self.repost_checker@;
        let ghost urls = urls_in(m.content@);
        let mut session = Session::begin(m);
        loop
            invariant
                session@.urls == urls,
                session@.user_id == m.author_id,
                session@.user_id != 0,
                session@.done <= urls.len(),
                (self.repost_checker@, session@.messages) == after_links(
                    store,
                    urls,
                    m.author_id,
                    now@,
                    session@.done,
                ),
                all_reportable(self.repost_checker@, urls),
            ensures
                session@.done == urls.len(),
            decreases urls.len() - session@.done,
        {
            if session.next_url().is_none() {
                break;
            }
            proof {
                posts_stay_reportable(
                    self.repost_checker@,
                    urls,
                    urls[session@.done as int],
                    m.author_id,
                    now@,
                );
            }
            let _row = session.step(&mut self.repost_checker, now);
        }
        session.finish()
    }

    /// Whether all users can be mentioned that the messages about a message in a channel mention.
    fn can_respond(&self, m: &ChatMessage) -> (r: bool)
        ensures
            r == responsive(self.repost_checker@, *m),
    {
        let request = self.request(m);
        match request {
            Request::Links => {
                let urls = find_urls(m.content.as_str());
                let ghost views = urls_in(m.content@);
                let mut i: usize = 0;
                while i < urls.len()
                    invariant
                        i <= urls@.len(),
                        views == url_views(urls@),
                        views == urls_in(m.content@),
                        request_of(*m) is Links,
                        forall|k: int|
                            0 <= k < i ==> self.repost_checker@.can_report(#[trigger] views[k]),
                    decreases urls@.len() - i,
                {
                    assert(views[i as int] == urls@[i as int]@);
                    if !self.repost_checker.can_report(&urls[i]) {
                        return false;
                    }
                    i = i + 1;
                }
                true
            },
            _ => self.can_answer(&request),
        }
    }

    /// As [`Self::get_messages_to_send`]; nothing is done and nothing returned where the store
    /// names a user who cannot be mentioned.
    pub fn try_get_messages_to_send(&mut self, m: &ChatMessage, now: &Moment) -> (r: Option<
        Vec<String>,
    >)
        requires
            m.author_id != 0,
        ensures
            r is Some <==> responsive(old(self).repost_checker@, *m),
            match r {
                Some(messages) => responded(
                    old(self).repost_checker@,
                    *m,
                    now@,
                    final(self).repost_checker@,
                    texts(messages@),
                ),
                None => final(self).repost_checker@ == old(self).repost_checker@,
            },
    {
        if self.can_respond(m) {
            Some(self.get_messages_to_send(m, now))
        } else {
            None
        }
    }

    /// What a direct message asks for.
    pub fn admin_action(&self, is_admin: bool, content: &str) -> (r: AdminAction)
        requires
            is_admin ==> words(content@).len() > 0,
        ensures
            r@ == admin_action(is_admin, content@),
    {
        if !is_admin {
            return AdminAction::Reply(NOT_ADMIN.to_owned());
        }
        let parts = split_words(content);
        assert(parts@[0]@ == texts(parts@)[0]);
        let command = parts[0].as_str();
        if same(command, "list-urls") {
            return AdminAction::ListUrls;
        }
        if parts.len() != 2 {
            return AdminAction::Reply(USAGE.to_owned());
        }
        assert(parts@[1]@ == texts(parts@)[1]);
        let host = parts[1].clone();
        if same(command, "always-enable") || same(command, "always-enable-add") {
            AdminAction::AddAlwaysEnabled(host)
        } else if same(command, "always-disable") || same(command, "always-enable-remove") || same(
            command,
            "always-disable-remove",
        ) {
            AdminAction::RemoveAlwaysEnabled(host)
        } else if same(command, "ignore-add") {
            AdminAction::AddIgnore(host)
        } else if same(command, "ignore-remove") {
            AdminAction::RemoveIgnore(host)
        } else {
            AdminAction::Reply(UNKNOWN_COMMAND.to_owned())
        }
    }

    /// Carries out what a direct message asks for, and returns the answer.
    pub fn perform(&mut self, action: &AdminAction) -> (r: String)
        ensures
            final(self).repost_checker@ == action@.store_after(old(self).repost_checker@),
            r@ == action@.answer(old(self).repost_checker@),
    {
        match action {
            AdminAction::Reply(s) => s.clone(),
            AdminAction::ListUrls => self.repost_checker.admin_list_urls(),
            AdminAction::AddAlwaysEnabled(h) => self.repost_checker.admin_add_always_enabled(
                h.as_str(),
            ),
            AdminAction::RemoveAlwaysEnabled(h) => self.repost_checker.admin_remove_always_enabled(
                h.as_str(),
            ),
            AdminAction::AddIgnore(h) => self.repost_checker.admin_add_ignore(h.as_str()),
            AdminAction::RemoveIgnore(h) => self.repost_checker.admin_remove_ignore(h.as_str()),
        }
    }

    /// What the administrator is told: the answer, or the error of the database.
    pub fn admin_reply(outcome: Result<String, String>) -> (r: String)
        ensures
            r@ == match outcome {
                Ok(s) => s@,
                Err(e) => "Error: "@ + e@,
            },
    {
        match outcome {
            Ok(s) => s,
            Err(e) => {
                let mut s = "Error: ".to_owned();
                s.append(e.as_str());
                s
            },
        }
    }

    /// Deals with a direct message, every change of the store succeeding.
    pub fn handle_admin_command(&mut self, is_admin: bool, content: &str) -> (r: Option<String>)
        requires
            is_admin ==> words(content@).len() > 0,
        ensures
            final(self).repost_checker@ == admin_action(is_admin, content@).store_after(
                old(self).repost_checker@,
            ),
            text_of(r) == Some(admin_action(is_admin, content@).answer(old(self).repost_checker@)),
    {
        let action = self.admin_action(is_admin, content);
        Some(Self::admin_reply(Ok(self.perform(&action))))
    }

    /// Whether a user is an administrator in any guild of which something is known.
    pub fn is_user_admin(standings: &Vec<GuildStanding>) -> (r: bool)
        ensures
            r == exists|i: int| 0 <= i < standings@.len() && is_admin_there(#[trigger] standings@[i]),
    {
        let mut i: usize = 0;
        while i < standings.len()
            invariant
                i <= standings@.len(),
                forall|j: int| 0 <= j < i ==> !is_admin_there(#[trigger] standings@[j]),
            decreases standings@.len() - i,
        {
            match &standings[i] {
                GuildStanding::Permissions(bits) => {
                    if administrator(*bits) {
                        assert(is_admin_there(standings@[i as int]));
                        return true;
                    }
                },
                _ => {},
            }
            i = i + 1;
        }
        false
    }
}

} // verus!
