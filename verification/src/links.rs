//! Links: finding them in a message, and what the bot keeps of each.

use vstd::prelude::*;

use crate::text::{
    is_white, same, stands_at, texts, word_end, word_end_bounds, word_end_shifted, word_end_within,
};

verus! {

/// The pattern of a link. It only cares about anything that starts with the `http` or `https`
/// protocol.
pub const URL_PATTERN: &'static str = r"https?://\S+";

// ---------------------------------------------------------------------------------------------
// Finding links
// ---------------------------------------------------------------------------------------------

/// Whether a link begins at `i`: the protocol, and behind it at least one character other than
/// white space.
pub open spec fn link_at(s: Seq<char>, i: int) -> bool {
    ||| stands_at(s, "http://"@, i) && i + 7 < s.len() && !is_white(s[i + 7])
    ||| stands_at(s, "https://"@, i) && i + 8 < s.len() && !is_white(s[i + 8])
}

/// Whether a text holds no white space.
pub open spec fn no_white(s: Seq<char>) -> bool {
    forall|i: int| 0 <= i < s.len() ==> !is_white(#[trigger] s[i])
}

/// The links of `s` from `i` on, from the left, each up to the next white space.
pub open spec fn links_from(s: Seq<char>, i: int) -> Seq<Seq<char>>
    decreases s.len() - i,
    via links_from_decreases
{
    if i < 0 || i >= s.len() {
        seq![]
    } else if link_at(s, i) {
        seq![s.subrange(i, word_end(s, i))] + links_from(s, word_end(s, i))
    } else {
        links_from(s, i + 1)
    }
}

#[via_fn]
proof fn links_from_decreases(s: Seq<char>, i: int) {
    if 0 <= i < s.len() && link_at(s, i) {
        link_end(s, i);
    }
}

/// A link holds the protocol, one character at least behind it, and no white space.
pub proof fn link_end(s: Seq<char>, i: int)
    requires
        0 <= i < s.len(),
        link_at(s, i),
    ensures
        i + 7 < word_end(s, i) <= s.len(),
        forall|j: int| i <= j < word_end(s, i) ==> !is_white(s[j]),
        word_end(s, i) < s.len() ==> is_white(s[word_end(s, i)]),
{
    reveal_strlit("http://");
    reveal_strlit("https://");
    word_end_bounds(s, i);
    let n: int = if stands_at(s, "http://"@, i) && i + 7 < s.len() && !is_white(s[i + 7]) {
        8
    } else {
        9
    };
    assert forall|j: int| i <= j < i + n implies !is_white(#[trigger] s[j]) by {
        if n == 8 {
            assert(j < i + 7 ==> s[j] == s.subrange(i, i + 7)[j - i]);
        } else {
            assert(j < i + 8 ==> s[j] == s.subrange(i, i + 8)[j - i]);
        }
    }
}

/// The texts in `s` that look like links.
pub open spec fn link_texts(s: Seq<char>) -> Seq<Seq<char>> {
    links_from(s, 0)
}

/// `regex::Regex::find_iter` with the pattern of a link: the matches from left to right, none
/// overlapping another, each one beginning as far left as a match can and as long as the run of
/// characters other than white space goes.
#[verifier::external_body]
fn regex_matches(pattern: &str, source: &str) -> (r: Vec<String>)
    requires
        pattern@ == URL_PATTERN@,
    ensures
        texts(r@) == link_texts(source@),
{
    let regex = regex::Regex::new(pattern).expect("Invalid regex");
    regex.find_iter(source).map(|m| m.as_str().to_string()).collect()
}

// ---------------------------------------------------------------------------------------------
// URLs
// ---------------------------------------------------------------------------------------------

/// What the bot reads of a URL: its normalised text and its host.
pub struct UrlView {
    pub text: Seq<char>,
    pub host: Option<Seq<char>>,
}

/// A parsed URL.
pub struct Url {
    text: String,
    host: Option<String>,
}

/// The text that an optional string holds.
pub open spec fn text_of(s: Option<String>) -> Option<Seq<char>> {
    match s {
        Some(t) => Some(t@),
        None => None,
    }
}

impl View for Url {
    type V = UrlView;

    closed spec fn view(&self) -> UrlView {
        UrlView { text: self.text@, host: text_of(self.host) }
    }
}

/// What the URL Standard's parser makes of a text: the normalised text of the URL and its host, or
/// nothing if the text is no URL.
pub uninterp spec fn url_parse(text: Seq<char>) -> Option<(Seq<char>, Option<Seq<char>>)>;

/// `url::Url::parse`, with the serialisation and the host of the URL that it returns.
///
/// What a text parses to is not spelled out. Of a link it is said that its URL, if it is one, has
/// a host, and that the serialisation is again a link, of the `http` or `https` protocol and
/// without white space. Whether that link parses again is left open: the parser refuses some long
/// Punycode labels that it writes itself.
#[verifier::external_body]
fn parse_url(text: &str) -> (r: Option<(String, Option<String>)>)
    ensures
        url_parse(text@) == (match r {
            Some(p) => Some((p.0@, text_of(p.1))),
            None => None,
        }),
        link_at(text@, 0) ==> (r matches Some(p) ==> {
            &&& link_at(p.0@, 0)
            &&& no_white(p.0@)
            &&& p.1 is Some
        }),
{
    match url::Url::parse(text) {
        Ok(u) => Some((u.to_string(), u.host_str().map(|h| h.to_string()))),
        Err(_) => None,
    }
}

/// The URL that a text stands for.
pub open spec fn url_of(text: Seq<char>) -> Option<UrlView> {
    match url_parse(text) {
        Some(p) => Some(UrlView { text: p.0, host: p.1 }),
        None => None,
    }
}

/// Whether a URL has a host and its text is a link without white space.
pub open spec fn is_link(u: UrlView) -> bool {
    u.host is Some && link_at(u.text, 0) && no_white(u.text)
}

/// The view of an optional URL.
pub open spec fn url_view(u: Option<Url>) -> Option<UrlView> {
    match u {
        Some(u) => Some(u@),
        None => None,
    }
}

impl Url {
    /// Parses a text.
    pub fn parse(text: &str) -> (r: Option<Url>)
        ensures
            url_view(r) == url_of(text@),
            link_at(text@, 0) ==> (r matches Some(u) ==> is_link(u@)),
    {
        match parse_url(text) {
            Some((text, host)) => Some(Url { text, host }),
            None => None,
        }
    }

    /// The normalised text.
    pub fn as_str(&self) -> (r: &str)
        ensures
            r@ == self@.text,
    {
        self.text.as_str()
    }

    /// The host, if there is one.
    pub fn host_str(&self) -> (r: Option<&str>)
        ensures
            match r {
                Some(h) => self@.host == Some(h@),
                None => self@.host is None,
            },
    {
        match &self.host {
            Some(h) => Some(h.as_str()),
            None => None,
        }
    }

    /// Whether parsing the text of the URL gives the URL back.
    pub fn stands_for_itself(&self) -> (r: bool)
        ensures
            r == (url_of(self@.text) == Some(self@)),
    {
        match Url::parse(self.text.as_str()) {
            Some(again) => same(again.text.as_str(), self.text.as_str()) && match (
                &again.host,
                &self.host,
            ) {
                (Some(a), Some(b)) => same(a.as_str(), b.as_str()),
                (None, None) => true,
                _ => false,
            },
            None => false,
        }
    }
}

// ---------------------------------------------------------------------------------------------
// The links of a message
// ---------------------------------------------------------------------------------------------

/// What is there of a list of optional values, in order.
pub open spec fn present<T>(s: Seq<Option<T>>) -> Seq<T>
    decreases s.len(),
{
    if s.len() == 0 {
        seq![]
    } else {
        match s.last() {
            Some(x) => present(s.drop_last()).push(x),
            None => present(s.drop_last()),
        }
    }
}

/// The views of a list of URLs.
pub open spec fn url_views(v: Seq<Url>) -> Seq<UrlView> {
    v.map_values(|u: Url| u@)
}

/// The views of a list of optional URLs.
pub open spec fn optional_url_views(v: Seq<Option<Url>>) -> Seq<Option<UrlView>> {
    v.map_values(|u: Option<Url>| url_view(u))
}

/// The URLs of a text: its links, without those that are no URL.
pub open spec fn urls_in(s: Seq<char>) -> Seq<UrlView> {
    present(link_texts(s).map_values(|t: Seq<char>| url_of(t)))
}

/// Each link that is found in a text begins with the protocol and holds no white space.
pub proof fn found_links_are_links(s: Seq<char>, i: int)
    requires
        0 <= i <= s.len(),
    ensures
        forall|k: int|
            0 <= k < links_from(s, i).len() ==> link_at(#[trigger] links_from(s, i)[k], 0)
                && no_white(links_from(s, i)[k]),
    decreases s.len() - i,
{
    if i < s.len() {
        if link_at(s, i) {
            link_end(s, i);
            let e = word_end(s, i);
            let t = s.subrange(i, e);
            reveal_strlit("http://");
            reveal_strlit("https://");
            found_links_are_links(s, e);
            assert(no_white(t));
            if stands_at(s, "http://"@, i) && i + 7 < s.len() && !is_white(s[i + 7]) {
                assert(t.subrange(0, 7) =~= s.subrange(i, i + 7));
                assert(t[7] == s[i + 7]);
            } else {
                assert(s.subrange(i, i + 8) == "https://"@);
                if e == i + 8 {
                    assert(is_white(s[i + 8]));
                }
                assert(t.subrange(0, 8) =~= s.subrange(i, i + 8));
                assert(t[8] == s[i + 8]);
            }
            assert(link_at(t, 0));
            assert(links_from(s, i) =~= seq![t] + links_from(s, e));
            assert forall|k: int| 0 <= k < links_from(s, i).len() implies link_at(
                #[trigger] links_from(s, i)[k],
                0,
            ) && no_white(links_from(s, i)[k]) by {
                if k > 0 {
                    assert(links_from(s, i)[k] == links_from(s, e)[k - 1]);
                }
            }
        } else {
            found_links_are_links(s, i + 1);
            assert(links_from(s, i) == links_from(s, i + 1));
        }
    } else {
        assert(links_from(s, i).len() == 0);
    }
}

/// What is there of a list of optional values stood in the list.
pub proof fn present_was_there<T>(s: Seq<Option<T>>)
    ensures
        forall|x: T| #[trigger] present(s).contains(x) ==> s.contains(Some(x)),
        s.len() > 0 && s[0] is Some ==> present(s).len() > 0 && present(s)[0] == s[0]->0,
    decreases s.len(),
{
    if s.len() > 0 {
        let rest = s.drop_last();
        present_was_there(rest);
        assert forall|x: T| #[trigger] present(s).contains(x) implies s.contains(Some(x)) by {
            let k = present(s).index_of(x);
            if k < present(rest).len() {
                assert(present(rest)[k] == x);
                assert(present(rest).contains(x));
                let j = rest.index_of(Some(x));
                assert(s[j] == Some(x));
            } else {
                assert(s.last() == Some(x));
            }
        }
        if s[0] is Some && s.len() > 1 {
            assert(rest[0] == s[0]);
        }
    }
}

/// Keeps the texts that parsed.
pub fn keep_parsed(parsed: Vec<Option<Url>>) -> (r: Vec<Url>)
    ensures
        url_views(r@) == present(optional_url_views(parsed@)),
{
    let ghost all = parsed@;
    let mut out: Vec<Url> = Vec::new();
    assert(url_views(out@) =~= seq![]);
    for u in it: parsed
        invariant
            it.seq() == all,
            url_views(out@) == present(optional_url_views(all.take(it.index() as int))),
    {
        let ghost k = it.index() as int;
        let ghost next = optional_url_views(all.take(k + 1));
        assert(next.drop_last() =~= optional_url_views(all.take(k)));
        assert(next.last() == url_view(u));
        let ghost before = url_views(out@);
        match u {
            Some(url) => {
                out.push(url);
                assert(url_views(out@) =~= before.push(url@));
            },
            None => {},
        }
    }
    assert(all.take(all.len() as int) =~= all);
    out
}

/// Extracts all URLs from a text. Used to check if a message contains any URLs that we need to
/// check for repost.
///
/// Every URL that is found has a host, and its text is again a link.
pub fn find_urls(source: &str) -> (r: Vec<Url>)
    ensures
        url_views(r@) == urls_in(source@),
        forall|k: int| 0 <= k < r@.len() ==> is_link((#[trigger] r@[k])@),
{
    proof {
        found_links_are_links(source@, 0);
    }
    let found = regex_matches(URL_PATTERN, source);
    let mut parsed: Vec<Option<Url>> = Vec::new();
    let mut i: usize = 0;
    while i < found.len()
        invariant
            i <= found@.len(),
            texts(found@) == link_texts(source@),
            optional_url_views(parsed@) =~= link_texts(source@).take(i as int).map_values(
                |t: Seq<char>| url_of(t),
            ),
            forall|k: int|
                0 <= k < link_texts(source@).len() ==> link_at(#[trigger] link_texts(source@)[k], 0),
            forall|k: int|
                0 <= k < parsed@.len() ==> ((#[trigger] parsed@[k]) matches Some(u)
                    ==> is_link(u@)),
        decreases found@.len() - i,
    {
        let ghost t = link_texts(source@)[i as int];
        assert(found@[i as int]@ == texts(found@)[i as int]);
        let ghost before = optional_url_views(parsed@);
        parsed.push(Url::parse(found[i].as_str()));
        assert(optional_url_views(parsed@) =~= before.push(url_of(t)));
        assert(link_texts(source@).take(i + 1) =~= link_texts(source@).take(i as int).push(t));
        i = i + 1;
    }
    assert(link_texts(source@).take(i as int) =~= link_texts(source@));
    let ghost all = optional_url_views(parsed@);
    let r = keep_parsed(parsed);
    assert forall|k: int| 0 <= k < r@.len() implies is_link((#[trigger] r@[k])@) by {
        present_was_there(all);
        assert(url_views(r@)[k] == r@[k]@);
        assert(present(all).contains(r@[k]@));
        let j = all.index_of(Some(r@[k]@));
        assert(all[j] == url_view(parsed@[j]));
    }
    r
}

// ---------------------------------------------------------------------------------------------
// What the links of a text are
// ---------------------------------------------------------------------------------------------

proof fn link_at_within(a: Seq<char>, b: Seq<char>, i: int)
    requires
        0 <= i < a.len(),
        b.len() == 0 || is_white(b[0]),
    ensures
        link_at(a + b, i) == link_at(a, i),
{
    let s = a + b;
    let n = a.len() as int;
    reveal_strlit("http://");
    reveal_strlit("https://");
    if i + 7 <= n {
        assert(s.subrange(i, i + 7) =~= a.subrange(i, i + 7));
        assert(i + 7 < n ==> s[i + 7] == a[i + 7]);
    } else if i + 7 <= s.len() {
        assert(s.subrange(i, i + 7)[n - i] == b[0]);
    }
    if i + 8 <= n {
        assert(s.subrange(i, i + 8) =~= a.subrange(i, i + 8));
        assert(i + 8 < n ==> s[i + 8] == a[i + 8]);
    } else if i + 8 <= s.len() {
        assert(s.subrange(i, i + 8)[n - i] == b[0]);
    }
    if b.len() > 0 {
        assert(s[n] == b[0]);
    }
}

proof fn links_within(a: Seq<char>, b: Seq<char>, i: int)
    requires
        0 <= i <= a.len(),
        b.len() == 0 || is_white(b[0]),
    ensures
        links_from(a + b, i) == links_from(a, i) + links_from(a + b, a.len() as int),
    decreases a.len() - i,
{
    let s = a + b;
    if i < a.len() {
        link_at_within(a, b, i);
        if link_at(a, i) {
            link_end(a, i);
            word_end_within(a, b, i);
            let e = word_end(a, i);
            links_within(a, b, e);
            assert(s.subrange(i, e) =~= a.subrange(i, e));
            assert(links_from(s, i) =~= links_from(a, i) + links_from(s, a.len() as int));
        } else {
            links_within(a, b, i + 1);
            assert(links_from(s, i) == links_from(s, i + 1));
            assert(links_from(a, i) == links_from(a, i + 1));
        }
    } else {
        assert(links_from(a, i) =~= seq![]);
        assert(links_from(s, i) =~= links_from(a, i) + links_from(s, a.len() as int));
    }
}

proof fn links_shifted(p: Seq<char>, s: Seq<char>, i: int)
    requires
        0 <= i <= s.len(),
    ensures
        links_from(p + s, p.len() + i) == links_from(s, i),
    decreases s.len() - i,
{
    let t = p + s;
    let n = p.len() as int;
    reveal_strlit("http://");
    reveal_strlit("https://");
    if i < s.len() {
        assert(i + 7 <= s.len() ==> t.subrange(n + i, n + i + 7) =~= s.subrange(i, i + 7));
        assert(i + 8 <= s.len() ==> t.subrange(n + i, n + i + 8) =~= s.subrange(i, i + 8));
        assert(link_at(t, n + i) == link_at(s, i));
        if link_at(s, i) {
            link_end(s, i);
            word_end_shifted(p, s, i);
            let e = word_end(s, i);
            links_shifted(p, s, e);
            assert(t.subrange(n + i, n + e) =~= s.subrange(i, e));
            assert(links_from(t, n + i) =~= links_from(s, i));
        } else {
            links_shifted(p, s, i + 1);
            assert(links_from(t, n + i) == links_from(t, n + i + 1));
            assert(links_from(s, i) == links_from(s, i + 1));
        }
    } else {
        assert(links_from(t, n + i) =~= links_from(s, i));
    }
}

proof fn present_of_both<T>(a: Seq<Option<T>>, b: Seq<Option<T>>)
    ensures
        present(a + b) == present(a) + present(b),
    decreases b.len(),
{
    if b.len() == 0 {
        assert(a + b =~= a);
        assert(present(a) + present(b) =~= present(a));
    } else {
        present_of_both(a, b.drop_last());
        assert((a + b).drop_last() =~= a + b.drop_last());
        assert(present(a + b) =~= present(a) + present(b));
    }
}

/// Two texts with white space between them have the links and the URLs of the first, and then
/// those of the second: none gets lost, and none comes in between.
pub proof fn links_of_both_parts_are_found(a: Seq<char>, b: Seq<char>)
    requires
        b.len() == 0 || is_white(b[0]),
    ensures
        link_texts(a + b) == link_texts(a) + link_texts(b),
        urls_in(a + b) == urls_in(a) + urls_in(b),
{
    links_within(a, b, 0);
    links_shifted(a, b, 0);
    let f = |t: Seq<char>| url_of(t);
    present_of_both(link_texts(a).map_values(f), link_texts(b).map_values(f));
    assert(link_texts(a + b).map_values(f) =~= link_texts(a).map_values(f) + link_texts(
        b,
    ).map_values(f));
}

/// Whether a protocol stands at `i`, with something behind it.
pub open spec fn protocol_at(w: Seq<char>, i: int) -> bool {
    ||| i + 7 < w.len() && w.subrange(i, i + 7) == "http://"@
    ||| i + 8 < w.len() && w.subrange(i, i + 8) == "https://"@
}

proof fn links_from_the_protocol_on(w: Seq<char>, i: int, k: int)
    requires
        no_white(w),
        0 <= k <= i <= w.len(),
        forall|j: int| 0 <= j < i ==> !#[trigger] protocol_at(w, j),
        i < w.len() ==> protocol_at(w, i),
    ensures
        links_from(w, k) == if i < w.len() {
            seq![w.skip(i)]
        } else {
            seq![]
        },
    decreases i - k,
{
    reveal_strlit("http://");
    reveal_strlit("https://");
    if k < i {
        assert(!protocol_at(w, k));
        links_from_the_protocol_on(w, i, k + 1);
        assert(!link_at(w, k));
        assert(links_from(w, k) == links_from(w, k + 1));
    } else if i < w.len() {
        assert(link_at(w, i));
        link_end(w, i);
        let e = word_end(w, i);
        if e < w.len() {
            assert(is_white(w[e]));
        }
        assert(w.subrange(i, e) =~= w.skip(i));
        assert(links_from(w, e) =~= seq![]);
        assert(links_from(w, i) =~= seq![w.skip(i)]);
    } else {
        assert(links_from(w, k) =~= seq![]);
    }
}

/// A word has one link, from the first protocol on that it holds, or none where it holds no
/// protocol; and it has the URL that the link stands for.
pub proof fn link_of_a_word(w: Seq<char>, i: int)
    requires
        no_white(w),
        0 <= i <= w.len(),
        forall|j: int| 0 <= j < i ==> !#[trigger] protocol_at(w, j),
        i < w.len() ==> protocol_at(w, i),
    ensures
        i == w.len() ==> link_texts(w).len() == 0 && urls_in(w).len() == 0,
        i < w.len() ==> link_texts(w) == seq![w.skip(i)],
        i < w.len() && url_parse(w.skip(i)) is None ==> urls_in(w).len() == 0,
        i < w.len() ==> (url_parse(w.skip(i)) matches Some(p) ==> urls_in(w) == seq![
            UrlView { text: p.0, host: p.1 },
        ]),
{
    links_from_the_protocol_on(w, i, 0);
    let parsed = link_texts(w).map_values(|t: Seq<char>| url_of(t));
    if i < w.len() {
        assert(parsed =~= seq![url_of(w.skip(i))]);
        assert(parsed.drop_last() =~= seq![]);
        assert(present(parsed.drop_last()) =~= seq![]);
        assert(url_parse(w.skip(i)) is Some ==> urls_in(w) =~= seq![url_of(w.skip(i))->0]);
    }
}

/// A text stands for the URL that the parser makes of it, with its text and its host as they are.
pub proof fn url_is_what_the_parser_gives(text: Seq<char>, v: Seq<Url>)
    ensures
        url_of(text) is Some <==> url_parse(text) is Some,
        url_of(text) matches Some(u) ==> url_parse(text) == Some((u.text, u.host)),
        url_views(v).len() == v.len(),
        forall|i: int| 0 <= i < v.len() ==> #[trigger] url_views(v)[i] == v[i]@,
{
}

} // verus!
