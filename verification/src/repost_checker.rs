//! The store of posted links and the questions that the bot asks it.

use vstd::prelude::*;
use vstd::string::*;

use crate::links::{find_urls, is_link, url_views, urls_in, Url, UrlView};
use crate::moment::{Moment, MomentView};
use crate::posts::{history, row_views, Repost, RepostView};
use crate::reports;
use crate::reports::{
    hosts_text, posters_known, report_text, stats_text, today_text, top_domains_text,
    top_users_known, top_users_text, users_known,
};
use crate::sorted_texts::{one_more_taken, SortedTexts};
use crate::text::{
    begins_with, beginning_with, chars_of, decimal, number_text, same, text_between, texts,
};

verus! {

/// The database that the bot uses.
pub const DATABASE_URL: &'static str = "sqlite:reposts.db";

// ---------------------------------------------------------------------------------------------
// Where the rows are kept
// ---------------------------------------------------------------------------------------------

/// Where the rows are kept.
pub enum LocationView {
    Memory,
    File(Seq<char>),
}

/// Where the rows are kept: in memory for as long as the program runs, or in a file.
pub enum Location {
    Memory,
    File(String),
}

impl View for Location {
    type V = LocationView;

    open spec fn view(&self) -> LocationView {
        match self {
            Location::Memory => LocationView::Memory,
            Location::File(path) => LocationView::File(path@),
        }
    }
}

/// What a database URL names: memory, or a file, with `sqlite:` before its path or not.
pub open spec fn location_of(database_url: Seq<char>) -> LocationView {
    if database_url == "sqlite::memory:"@ {
        LocationView::Memory
    } else if begins_with(database_url, "sqlite:"@) {
        LocationView::File(database_url.skip("sqlite:"@.len() as int))
    } else {
        LocationView::File(database_url)
    }
}

/// What a database URL names.
pub fn locate(database_url: &str) -> (r: Location)
    ensures
        r@ == location_of(database_url@),
{
    if same(database_url, "sqlite::memory:") {
        Location::Memory
    } else if beginning_with(database_url, "sqlite:") {
        let v = chars_of(database_url);
        let n = chars_of("sqlite:").len();
        let path = text_between(&v, n, v.len());
        assert(path@ =~= database_url@.skip("sqlite:"@.len() as int));
        Location::File(path)
    } else {
        Location::File(database_url.to_owned())
    }
}

// ---------------------------------------------------------------------------------------------
// The store
// ---------------------------------------------------------------------------------------------

/// What the store holds: the posts in the order in which they came in, the hosts whose links are
/// not reported, and the hosts that cannot be silenced.
pub struct StoreView {
    pub location: LocationView,
    pub reposts: Seq<RepostView>,
    pub ignored: Set<Seq<char>>,
    pub always_enabled: Set<Seq<char>>,
}

/// [`RepostChecker`] is the storage of posted URLs, by whom and when it was posted. It's used to
/// check for already posted links.
pub struct RepostChecker {
    location: Location,
    reposts: Vec<Repost>,
    ignore_hosts: SortedTexts,
    always_enabled_hosts: SortedTexts,
}

impl View for RepostChecker {
    type V = StoreView;

    closed spec fn view(&self) -> StoreView {
        StoreView {
            location: self.location@,
            reposts: row_views(self.reposts@),
            ignored: self.ignore_hosts@,
            always_enabled: self.always_enabled_hosts@,
        }
    }
}

/// The host under which a URL is looked up among the ignored hosts.
pub open spec fn host_key(u: UrlView) -> Seq<char> {
    match u.host {
        Some(h) => h,
        None => ""@,
    }
}

/// The row for a post of a URL by a user.
pub open spec fn new_post(u: UrlView, user_id: u64, now: MomentView) -> RepostView {
    RepostView {
        url: u.text,
        user_id: decimal(user_id as nat),
        posted_at: now.timestamp_text(),
        posted_on: now.stored_day(),
    }
}

/// The host that a message asks to silence: the host of its first URL.
pub open spec fn site_of(urls: Seq<UrlView>) -> Option<Seq<char>> {
    if urls.len() > 0 {
        urls[0].host
    } else {
        None
    }
}

/// What is to be done about a wish to silence a host.
pub enum SiteDecisionView {
    /// Nothing: there is no host, or it is silent already.
    Nothing,
    /// The host cannot be silenced.
    Refuse(Seq<char>),
    /// The host is to be silenced.
    Ignore(Seq<char>),
}

/// What is to be done about a wish to silence a host.
pub enum SiteDecision {
    /// Nothing: there is no host, or it is silent already.
    Nothing,
    /// The host cannot be silenced.
    Refuse(String),
    /// The host is to be silenced.
    Ignore(String),
}

impl View for SiteDecision {
    type V = SiteDecisionView;

    open spec fn view(&self) -> SiteDecisionView {
        match self {
            SiteDecision::Nothing => SiteDecisionView::Nothing,
            SiteDecision::Refuse(h) => SiteDecisionView::Refuse(h@),
            SiteDecision::Ignore(h) => SiteDecisionView::Ignore(h@),
        }
    }
}

impl SiteDecisionView {
    /// The answer, given whether the wish could be stored.
    pub open spec fn reply(self, stored: bool) -> Option<Seq<char>> {
        match self {
            SiteDecisionView::Nothing => None,
            SiteDecisionView::Refuse(h) => Some("Sorry, det går inte att stänga av "@ + h),
            SiteDecisionView::Ignore(h) => if stored {
                Some("Ok, ska sluta rapportera från "@ + h)
            } else {
                None
            },
        }
    }
}

impl SiteDecision {
    /// The answer, given whether the wish could be stored.
    pub fn reply(&self, stored: bool) -> (r: Option<String>)
        ensures
            crate::links::text_of(r) == self@.reply(stored),
    {
        match self {
            SiteDecision::Nothing => None,
            SiteDecision::Refuse(h) => {
                let mut s = "Sorry, det går inte att stänga av ".to_owned();
                s.append(h.as_str());
                Some(s)
            },
            SiteDecision::Ignore(h) => if stored {
                let mut s = "Ok, ska sluta rapportera från ".to_owned();
                s.append(h.as_str());
                Some(s)
            } else {
                None
            },
        }
    }
}

impl StoreView {
    /// The store without rows.
    pub open spec fn empty(location: LocationView) -> StoreView {
        StoreView {
            location,
            reposts: seq![],
            ignored: Set::empty(),
            always_enabled: Set::empty(),
        }
    }

    /// Whether the host of a URL is ignored.
    pub open spec fn ignores(self, u: UrlView) -> bool {
        self.ignored.contains(host_key(u))
    }

    /// Whether all that a report about a URL would mention can be mentioned.
    pub open spec fn can_report(self, u: UrlView) -> bool {
        self.ignores(u) || posters_known(self.reposts, u.text)
    }

    /// The report about earlier posts of a URL: there is one unless its host is ignored or it has
    /// not been posted.
    pub open spec fn report(self, u: UrlView) -> Option<Seq<char>> {
        let posts = history(self.reposts, u.text);
        if self.ignores(u) || posts.len() == 0 {
            None
        } else {
            Some(report_text(self.reposts, u.text, posts))
        }
    }

    /// The store with what was read in place of what was there.
    pub open spec fn loaded(
        self,
        reposts: Seq<RepostView>,
        ignored: Set<Seq<char>>,
        always_enabled: Set<Seq<char>>,
    ) -> StoreView {
        StoreView { reposts, ignored, always_enabled, ..self }
    }

    /// The store with one more post.
    pub open spec fn with_post(self, row: RepostView) -> StoreView {
        StoreView { reposts: self.reposts.push(row), ..self }
    }

    /// The store with a host ignored.
    pub open spec fn with_ignored(self, host: Seq<char>) -> StoreView {
        StoreView { ignored: self.ignored.insert(host), ..self }
    }

    /// The store with a host no longer ignored.
    pub open spec fn without_ignored(self, host: Seq<char>) -> StoreView {
        StoreView { ignored: self.ignored.remove(host), ..self }
    }

    /// The store with a host that cannot be silenced.
    pub open spec fn with_always_enabled(self, host: Seq<char>) -> StoreView {
        StoreView { always_enabled: self.always_enabled.insert(host), ..self }
    }

    /// The store with a host that can be silenced again.
    pub open spec fn without_always_enabled(self, host: Seq<char>) -> StoreView {
        StoreView { always_enabled: self.always_enabled.remove(host), ..self }
    }

    /// What is to be done about a wish to silence a host.
    pub open spec fn decide_site(self, site: Option<Seq<char>>) -> SiteDecisionView {
        match site {
            None => SiteDecisionView::Nothing,
            Some(h) => if self.ignored.contains(h) {
                SiteDecisionView::Nothing
            } else if self.always_enabled.contains(h) {
                SiteDecisionView::Refuse(h)
            } else {
                SiteDecisionView::Ignore(h)
            },
        }
    }

    /// The store after a decision has been carried out.
    pub open spec fn after_decision(self, d: SiteDecisionView) -> StoreView {
        match d {
            SiteDecisionView::Ignore(h) => self.with_ignored(h),
            _ => self,
        }
    }
}

/// The rows that a read gave: none where it failed.
pub open spec fn rows_read(rows: Option<Vec<Repost>>) -> Seq<RepostView> {
    match rows {
        Some(v) => row_views(v@),
        None => seq![],
    }
}

/// The hosts that a read gave: none where it failed.
pub open spec fn hosts_read(hosts: Option<Vec<String>>) -> Set<Seq<char>> {
    match hosts {
        Some(v) => texts(v@).to_set(),
        None => Set::empty(),
    }
}

/// The set of the hosts that a read gave.
fn host_set(hosts: Option<Vec<String>>) -> (r: SortedTexts)
    ensures
        r@ == hosts_read(hosts),
{
    let mut set = SortedTexts::new();
    match hosts {
        Some(v) => {
            let ghost all = texts(v@);
            let mut i: usize = 0;
            assert(all.take(0).to_set() =~= Set::<Seq<char>>::empty());
            while i < v.len()
                invariant
                    i <= v@.len(),
                    all == texts(v@),
                    set@ == all.take(i as int).to_set(),
                decreases v@.len() - i,
            {
                set.insert(v[i].as_str());
                proof {
                    one_more_taken(all, i as int);
                }
                i = i + 1;
            }
            assert(all.take(i as int) =~= all);
        },
        None => {},
    }
    set
}

impl RepostChecker {
    /// Create a new [`RepostChecker`] for the database that the bot uses, with nothing read yet.
    pub fn new() -> (r: RepostChecker)
        ensures
            r@ == StoreView::empty(location_of(DATABASE_URL@)),
    {
        Self::new_with_url(DATABASE_URL)
    }

    /// Create a new [`RepostChecker`] with custom database URL, with nothing read yet.
    pub fn new_with_url(database_url: &str) -> (r: RepostChecker)
        ensures
            r@ == StoreView::empty(location_of(database_url@)),
    {
        let r = RepostChecker {
            location: locate(database_url),
            reposts: Vec::new(),
            ignore_hosts: SortedTexts::new(),
            always_enabled_hosts: SortedTexts::new(),
        };
        assert(row_views(r.reposts@) =~= seq![]);
        r
    }

    /// Where the rows are kept.
    pub fn location(&self) -> (r: &Location)
        ensures
            r@ == self@.location,
    {
        &self.location
    }

    /// Takes over what was read from the database, in place of what was there. A table that could
    /// not be read counts as empty.
    pub fn load(
        &mut self,
        reposts: Option<Vec<Repost>>,
        ignored: Option<Vec<String>>,
        always_enabled: Option<Vec<String>>,
    )
        ensures
            final(self)@ == old(self)@.loaded(
                rows_read(reposts),
                hosts_read(ignored),
                hosts_read(always_enabled),
            ),
    {
        self.reposts = match reposts {
            Some(rows) => rows,
            None => {
                let rows: Vec<Repost> = Vec::new();
                assert(row_views(rows@) =~= seq![]);
                rows
            },
        };
        self.ignore_hosts = host_set(ignored);
        self.always_enabled_hosts = host_set(always_enabled);
    }

    /// Extract all URLs from a text. Used to check if a Discord message contains any URLs that we
    /// need to check for repost.
    ///
    /// Every URL has a host, and its text is again a link.
    pub fn extract_urls(&self, source: &str) -> (r: Vec<Url>)
        ensures
            url_views(r@) == urls_in(source@),
            forall|k: int| 0 <= k < r@.len() ==> is_link((#[trigger] r@[k])@),
    {
        find_urls(source)
    }

    /// Whether the host of a URL is ignored.
    fn is_ignored(&self, u: &Url) -> (r: bool)
        ensures
            r == self@.ignores(u@),
    {
        match u.host_str() {
            Some(h) => self.ignore_hosts.contains(h),
            None => self.ignore_hosts.contains(""),
        }
    }

    /// Whether all that [`Self::check_repost`] would mention can be mentioned.
    pub fn can_report(&self, u: &Url) -> (r: bool)
        ensures
            r == self@.can_report(u@),
    {
        self.is_ignored(u) || reports::knows_posters(&self.reposts, u.as_str())
    }

    /// Check if the passed URL has been posted before. If so, return a message saying how many
    /// times and by which user it's been posted.
    pub fn check_repost(&self, u: &Url, _channel_id: u64) -> (r: Option<String>)
        requires
            self@.can_report(u@),
        ensures
            crate::links::text_of(r) == self@.report(u@),
    {
        if self.is_ignored(u) {
            return None;
        }
        reports::report(&self.reposts, u.as_str())
    }

    /// Add a URL as seen by the passed user. Returns the row to be stored.
    pub fn add_url(&mut self, u: &Url, user_id: u64, _channel_id: u64, now: &Moment) -> (r: Repost)
        requires
            user_id != 0,
        ensures
            r@ == new_post(u@, user_id, now@),
            final(self)@ == old(self)@.with_post(r@),
    {
        let row = Repost {
            url: u.as_str().to_owned(),
            user_id: number_text(user_id),
            posted_at: now.timestamp().to_owned(),
            posted_on: now.stored_day(),
        };
        let ghost before = row_views(self.reposts@);
        self.reposts.push(row.copy());
        assert(row_views(self.reposts@) =~= before.push(row@));
        row
    }

    /// What is to be done about a message with these URLs whose site is to be silenced.
    pub fn decide_site(&self, urls: &Vec<Url>) -> (r: SiteDecision)
        ensures
            r@ == self@.decide_site(site_of(url_views(urls@))),
    {
        if urls.len() == 0 {
            return SiteDecision::Nothing;
        }
        assert(url_views(urls@)[0] == urls@[0]@);
        match urls[0].host_str() {
            None => SiteDecision::Nothing,
            Some(site) => if self.ignore_hosts.contains(site) {
                SiteDecision::Nothing
            } else if self.always_enabled_hosts.contains(site) {
                SiteDecision::Refuse(site.to_owned())
            } else {
                SiteDecision::Ignore(site.to_owned())
            },
        }
    }

    /// Silences the site of the first URL in a message, unless it cannot be silenced, and returns
    /// the answer.
    pub fn add_site_to_ignore(&mut self, content: &str) -> (r: Option<String>)
        ensures
            crate::links::text_of(r) == old(self)@.decide_site(site_of(urls_in(content@))).reply(
                true,
            ),
            final(self)@ == old(self)@.after_decision(
                old(self)@.decide_site(site_of(urls_in(content@))),
            ),
    {
        let urls = self.extract_urls(content);
        let decision = self.decide_site(&urls);
        match &decision {
            SiteDecision::Ignore(site) => {
                self.insert_ignore_host(site.as_str());
            },
            _ => {},
        }
        decision.reply(true)
    }

    /// Makes a host impossible to silence.
    pub fn admin_add_always_enabled(&mut self, host: &str) -> (r: String)
        ensures
            final(self)@ == old(self)@.with_always_enabled(host@),
            r@ == "Added "@ + host@ + " to always enabled hosts"@,
    {
        self.always_enabled_hosts.insert(host);
        let mut s = "Added ".to_owned();
        s.append(host);
        s.append(" to always enabled hosts");
        s
    }

    /// Makes a host possible to silence again.
    pub fn admin_remove_always_enabled(&mut self, host: &str) -> (r: String)
        ensures
            final(self)@ == old(self)@.without_always_enabled(host@),
            r@ == "Removed "@ + host@ + " from always enabled hosts"@,
    {
        self.always_enabled_hosts.remove(host);
        let mut s = "Removed ".to_owned();
        s.append(host);
        s.append(" from always enabled hosts");
        s
    }

    /// Puts a host among those that are ignored.
    fn insert_ignore_host(&mut self, host: &str)
        ensures
            final(self)@ == old(self)@.with_ignored(host@),
    {
        self.ignore_hosts.insert(host);
    }

    /// Ignores a host.
    pub fn admin_add_ignore(&mut self, host: &str) -> (r: String)
        ensures
            final(self)@ == old(self)@.with_ignored(host@),
            r@ == "Added "@ + host@ + " to ignored hosts"@,
    {
        self.insert_ignore_host(host);
        let mut s = "Added ".to_owned();
        s.append(host);
        s.append(" to ignored hosts");
        s
    }

    /// No longer ignores a host.
    pub fn admin_remove_ignore(&mut self, host: &str) -> (r: String)
        ensures
            final(self)@ == old(self)@.without_ignored(host@),
            r@ == "Removed "@ + host@ + " from ignored hosts"@,
    {
        self.ignore_hosts.remove(host);
        let mut s = "Removed ".to_owned();
        s.append(host);
        s.append(" from ignored hosts");
        s
    }

    /// Lists the hosts that are always enabled and those that are ignored.
    pub fn admin_list_urls(&self) -> (r: String)
        ensures
            r@ == hosts_text(self@.always_enabled, self@.ignored),
    {
        reports::list_hosts(&self.always_enabled_hosts, &self.ignore_hosts)
    }

    /// Whether all users that [`Self::stats`] mentions can be mentioned.
    pub fn knows_users(&self) -> (r: bool)
        ensures
            r == users_known(self@.reposts),
    {
        reports::knows_users(&self.reposts)
    }

    /// How many links there are, and how many posts and reposts each user made.
    pub fn stats(&self) -> (r: String)
        requires
            users_known(self@.reposts),
        ensures
            r@ == stats_text(self@.reposts),
    {
        reports::stats(&self.reposts)
    }

    /// The domains with the most posts.
    pub fn top_domains(&self) -> (r: String)
        ensures
            r@ == top_domains_text(self@.reposts),
    {
        reports::top_domains(&self.reposts)
    }

    /// Whether all users that [`Self::top_users`] mentions can be mentioned.
    pub fn knows_top_users(&self) -> (r: bool)
        ensures
            r == top_users_known(self@.reposts),
    {
        reports::knows_top_users(&self.reposts)
    }

    /// The users with the most posts.
    pub fn top_users(&self) -> (r: String)
        requires
            top_users_known(self@.reposts),
        ensures
            r@ == top_users_text(self@.reposts),
    {
        reports::top_users(&self.reposts)
    }

    /// How many posts there were on the day of `now`.
    pub fn today_stats(&self, now: &Moment) -> (r: String)
        ensures
            r@ == today_text(self@.reposts, now@.date_text()),
    {
        reports::today_stats(&self.reposts, now.date())
    }
}

} // verus!
