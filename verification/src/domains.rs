//! The domain part of a stored link.

use vstd::prelude::*;

use crate::text::{chars_of, code_point, text_between};

verus! {

/// A letter `A` to `Z` as the letter `a` to `z`; any other character as it is.
pub open spec fn ascii_lower(c: char) -> char {
    if 'A' as int <= c as int <= 'Z' as int {
        (c as int + 32) as char
    } else {
        c
    }
}

/// Whether `s` begins with `start`, capital and small letters of ASCII being the same.
pub open spec fn begins_with_any_case(s: Seq<char>, start: Seq<char>) -> bool {
    &&& start.len() <= s.len()
    &&& forall|i: int| 0 <= i < start.len() ==> ascii_lower(#[trigger] s[i]) == ascii_lower(start[i])
}

/// A link without its protocol.
pub open spec fn without_protocol(url: Seq<char>) -> Seq<char> {
    if begins_with_any_case(url, "https://"@) {
        url.skip(8)
    } else if begins_with_any_case(url, "http://"@) {
        url.skip(7)
    } else {
        url
    }
}

/// Where the first slash stands from `i` on, or the end of the text.
pub open spec fn slash_from(s: Seq<char>, i: int) -> int
    decreases s.len() - i,
{
    if 0 <= i < s.len() && s[i] != '/' {
        slash_from(s, i + 1)
    } else {
        i
    }
}

/// The domain of a link: what stands behind the protocol, up to the first slash.
pub open spec fn domain_of(url: Seq<char>) -> Seq<char> {
    without_protocol(url).take(slash_from(without_protocol(url), 0))
}

/// The first slash of a text stands inside it, and none before it.
pub proof fn slash_bounds(s: Seq<char>, i: int)
    requires
        0 <= i <= s.len(),
    ensures
        i <= slash_from(s, i) <= s.len(),
        forall|j: int| i <= j < slash_from(s, i) ==> s[j] != '/',
        slash_from(s, i) < s.len() ==> s[slash_from(s, i)] == '/',
    decreases s.len() - i,
{
    if i < s.len() && s[i] != '/' {
        slash_bounds(s, i + 1);
    }
}

fn lower_code(c: char) -> (r: u32)
    ensures
        r == ascii_lower(c) as int,
{
    let n: u32 = code_point(c);
    if 65 <= n && n <= 90 {
        n + 32
    } else {
        n
    }
}

fn beginning_with_any_case(v: &Vec<char>, start: &Vec<char>) -> (r: bool)
    ensures
        r == begins_with_any_case(v@, start@),
{
    if v.len() < start.len() {
        return false;
    }
    let mut i: usize = 0;
    while i < start.len()
        invariant
            i <= start@.len() <= v@.len(),
            forall|j: int| 0 <= j < i ==> ascii_lower(#[trigger] v@[j]) == ascii_lower(start@[j]),
        decreases start@.len() - i,
    {
        if lower_code(v[i]) != lower_code(start[i]) {
            assert(ascii_lower(v@[i as int]) != ascii_lower(start@[i as int]));
            return false;
        }
        i = i + 1;
    }
    true
}

/// The domain of a link.
pub fn domain(url: &str) -> (r: String)
    ensures
        r@ == domain_of(url@),
{
    proof {
        reveal_strlit("https://");
        reveal_strlit("http://");
    }
    let v = chars_of(url);
    let https = chars_of("https://");
    let http = chars_of("http://");
    let start: usize = if beginning_with_any_case(&v, &https) {
        8
    } else if beginning_with_any_case(&v, &http) {
        7
    } else {
        0
    };
    let ghost rest = without_protocol(url@);
    assert(rest =~= v@.skip(start as int));
    let mut end: usize = start;
    while end < v.len() && v[end] != '/'
        invariant
            start <= end <= v@.len(),
            rest == v@.skip(start as int),
            slash_from(rest, 0) == slash_from(rest, end - start),
        decreases v@.len() - end,
    {
        end = end + 1;
    }
    let r = text_between(&v, start, end);
    assert(r@ =~= rest.take(end - start));
    r
}

/// Whether a text is a protocol, in small letters or with capitals among them.
pub open spec fn is_protocol(s: Seq<char>, protocol: Seq<char>) -> bool {
    &&& s.len() == protocol.len()
    &&& forall|i: int|
        0 <= i < s.len() ==> #[trigger] s[i] == protocol[i] || ('A' as int <= s[i] as int <= 'Z' as int
            && s[i] as int + 32 == protocol[i] as int)
}

proof fn slash_ends(d: Seq<char>, rest: Seq<char>, i: int)
    requires
        0 <= i <= d.len(),
        forall|j: int| 0 <= j < d.len() ==> #[trigger] d[j] != '/',
        rest.len() == 0 || rest[0] == '/',
    ensures
        slash_from(d + rest, i) == d.len(),
    decreases d.len() - i,
{
    if i < d.len() {
        assert((d + rest)[i] == d[i]);
        slash_ends(d, rest, i + 1);
    } else if rest.len() > 0 {
        assert((d + rest)[i] == rest[0]);
    }
}

/// The domain of a link is what stands between the protocol and the first slash behind it, or the
/// end; a text without a protocol is its own domain up to its first slash.
pub proof fn domain_stands_between_protocol_and_slash(
    protocol: Seq<char>,
    domain: Seq<char>,
    rest: Seq<char>,
)
    requires
        forall|j: int| 0 <= j < domain.len() ==> #[trigger] domain[j] != '/',
        rest.len() == 0 || rest[0] == '/',
    ensures
        is_protocol(protocol, "https://"@) ==> domain_of(protocol + domain + rest) == domain,
        is_protocol(protocol, "http://"@) ==> domain_of(protocol + domain + rest) == domain,
        (forall|p: Seq<char>, q: Seq<char>|
            domain + rest == #[trigger] (p + q) ==> !is_protocol(p, "https://"@) && !is_protocol(
                p,
                "http://"@,
            )) ==> domain_of(domain + rest) == domain,
{
    let tail = domain + rest;
    let url = protocol + domain + rest;
    reveal_strlit("https://");
    reveal_strlit("http://");
    slash_ends(domain, rest, 0);
    assert(tail.take(domain.len() as int) =~= domain);
    if is_protocol(protocol, "https://"@) {
        assert forall|i: int| 0 <= i < 8 implies ascii_lower(#[trigger] url[i]) == ascii_lower(
            "https://"@[i],
        ) by {
            assert(url[i] == protocol[i]);
        }
        assert(begins_with_any_case(url, "https://"@));
        assert(url.skip(8) =~= tail);
    }
    if is_protocol(protocol, "http://"@) {
        assert forall|i: int| 0 <= i < 7 implies ascii_lower(#[trigger] url[i]) == ascii_lower(
            "http://"@[i],
        ) by {
            assert(url[i] == protocol[i]);
        }
        assert(begins_with_any_case(url, "http://"@));
        assert(url[4] == protocol[4]);
        assert(ascii_lower(url[4]) != ascii_lower("https://"@[4]));
        assert(!begins_with_any_case(url, "https://"@));
        assert(url.skip(7) =~= tail);
    }
    if forall|p: Seq<char>, q: Seq<char>|
        domain + rest == #[trigger] (p + q) ==> !is_protocol(p, "https://"@) && !is_protocol(
            p,
            "http://"@,
        ) {
        if begins_with_any_case(tail, "https://"@) {
            let p = tail.take(8);
            assert(tail =~= p + tail.skip(8));
            any_case_is_protocol(tail, "https://"@);
        }
        if begins_with_any_case(tail, "http://"@) {
            let p = tail.take(7);
            assert(tail =~= p + tail.skip(7));
            any_case_is_protocol(tail, "http://"@);
        }
    }
}

proof fn any_case_is_protocol(s: Seq<char>, protocol: Seq<char>)
    requires
        begins_with_any_case(s, protocol),
        protocol == "https://"@ || protocol == "http://"@,
    ensures
        is_protocol(s.take(protocol.len() as int), protocol),
{
    reveal_strlit("https://");
    reveal_strlit("http://");
    let p = s.take(protocol.len() as int);
    assert forall|i: int| 0 <= i < p.len() implies #[trigger] p[i] == protocol[i] || ('A' as int
        <= p[i] as int <= 'Z' as int && p[i] as int + 32 == protocol[i] as int) by {
        assert(p[i] == s[i]);
        assert(ascii_lower(s[i]) == ascii_lower(protocol[i]));
        assert(ascii_lower(protocol[i]) == protocol[i]);
        if 'A' as int <= s[i] as int <= 'Z' as int {
            assert(ascii_lower(s[i]) as int == s[i] as int + 32);
        }
    }
}

} // verus!
