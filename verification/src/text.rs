//! Text as sequences of characters: order, white space, words and decimal numbers.

use vstd::prelude::*;

verus! {

// ---------------------------------------------------------------------------------------------
// Characters
// ---------------------------------------------------------------------------------------------

/// The characters with the Unicode property `White_Space`.
pub open spec fn is_white(c: char) -> bool {
    let n = c as int;
    ||| 0x9 <= n <= 0xd
    ||| n == 0x20
    ||| n == 0x85
    ||| n == 0xa0
    ||| n == 0x1680
    ||| 0x2000 <= n <= 0x200a
    ||| n == 0x2028
    ||| n == 0x2029
    ||| n == 0x202f
    ||| n == 0x205f
    ||| n == 0x3000
}

/// The code point of a character.
pub fn code_point(c: char) -> (r: u32)
    ensures
        r == c as int,
{
    c as u32
}

/// Whether `c` is white space.
pub fn white(c: char) -> (r: bool)
    ensures
        r == is_white(c),
{
    let n: u32 = c as u32;
    (0x9 <= n && n <= 0xd) || n == 0x20 || n == 0x85 || n == 0xa0 || n == 0x1680 || (0x2000 <= n
        && n <= 0x200a) || n == 0x2028 || n == 0x2029 || n == 0x202f || n == 0x205f || n == 0x3000
}

/// `String::push` puts one character behind the text.
pub assume_specification[ String::push ](s: &mut String, c: char)
    ensures
        final(s)@ == old(s)@.push(c),
;

/// The characters of a text.
pub fn chars_of(s: &str) -> (r: Vec<char>)
    ensures
        r@ == s@,
{
    let mut v: Vec<char> = Vec::new();
    for c in it: s.chars()
        invariant
            v@ == it.seq().take(it.index() as int),
            it.seq() == s@,
    {
        v.push(c);
    }
    v
}

/// The text made of the characters from `from` up to, but not with, `to`.
pub fn text_between(v: &Vec<char>, from: usize, to: usize) -> (r: String)
    requires
        from <= to <= v@.len(),
    ensures
        r@ == v@.subrange(from as int, to as int),
{
    let mut s = String::new();
    let mut i: usize = from;
    while i < to
        invariant
            from <= i <= to <= v@.len(),
            s@ == v@.subrange(from as int, i as int),
        decreases to - i,
    {
        s.push(v[i]);
        i = i + 1;
    }
    s
}

/// Whether two texts are equal.
pub fn same(a: &str, b: &str) -> (r: bool)
    ensures
        r == (a@ == b@),
{
    let mut ia = a.chars();
    let mut ib = b.chars();
    loop
        invariant
            (a@ == b@) == (vstd::std_specs::iter::IteratorSpec::remaining(&ia)
                == vstd::std_specs::iter::IteratorSpec::remaining(&ib)),
            vstd::std_specs::iter::IteratorSpec::decrease(&ia) is Some,
        decreases vstd::std_specs::iter::IteratorSpec::decrease(&ia)->0,
    {
        let ghost ra = vstd::std_specs::iter::IteratorSpec::remaining(&ia);
        let ghost rb = vstd::std_specs::iter::IteratorSpec::remaining(&ib);
        let x = ia.next();
        let y = ib.next();
        match (x, y) {
            (None, None) => {
                assert(ra =~= rb);
                return true;
            },
            (Some(c), Some(d)) => {
                if c != d {
                    return false;
                }
                assert(ra =~= seq![c] + ra.drop_first());
                assert(rb =~= seq![d] + rb.drop_first());
            },
            _ => {
                return false;
            },
        }
    }
}

// ---------------------------------------------------------------------------------------------
// Order
// ---------------------------------------------------------------------------------------------

/// Texts in the order of their code points, a prefix before what it begins.
pub open spec fn lex_lt(a: Seq<char>, b: Seq<char>) -> bool
    decreases a.len(),
{
    if b.len() == 0 {
        false
    } else if a.len() == 0 {
        true
    } else if a[0] != b[0] {
        (a[0] as int) < (b[0] as int)
    } else {
        lex_lt(a.drop_first(), b.drop_first())
    }
}

/// Whether `a` comes before `b` in the order of code points.
pub fn comes_before(a: &str, b: &str) -> (r: bool)
    ensures
        r == lex_lt(a@, b@),
{
    let mut ia = a.chars();
    let mut ib = b.chars();
    loop
        invariant
            lex_lt(a@, b@) == lex_lt(
                vstd::std_specs::iter::IteratorSpec::remaining(&ia),
                vstd::std_specs::iter::IteratorSpec::remaining(&ib),
            ),
            vstd::std_specs::iter::IteratorSpec::decrease(&ia) is Some,
        decreases vstd::std_specs::iter::IteratorSpec::decrease(&ia)->0,
    {
        let x = ia.next();
        let y = ib.next();
        match (x, y) {
            (_, None) => {
                return false;
            },
            (None, Some(_)) => {
                return true;
            },
            (Some(c), Some(d)) => {
                if c != d {
                    return code_point(c) < code_point(d);
                }
            },
        }
    }
}

/// Nothing comes before itself.
pub proof fn lex_lt_irreflexive(a: Seq<char>)
    ensures
        !lex_lt(a, a),
    decreases a.len(),
{
    if a.len() > 0 {
        lex_lt_irreflexive(a.drop_first());
    }
}

/// What comes before a text that comes before a third comes before the third.
pub proof fn lex_lt_transitive(a: Seq<char>, b: Seq<char>, c: Seq<char>)
    requires
        lex_lt(a, b),
        lex_lt(b, c),
    ensures
        lex_lt(a, c),
    decreases a.len(),
{
    if a.len() > 0 && a[0] == b[0] && b[0] == c[0] {
        lex_lt_transitive(a.drop_first(), b.drop_first(), c.drop_first());
    }
}

/// Of two different texts one comes before the other.
pub proof fn lex_lt_total(a: Seq<char>, b: Seq<char>)
    ensures
        lex_lt(a, b) || lex_lt(b, a) || a == b,
    decreases a.len(),
{
    if a.len() == 0 || b.len() == 0 {
        if a.len() == 0 && b.len() == 0 {
            assert(a =~= b);
        }
    } else if a[0] != b[0] {
        assert(a[0] as int != b[0] as int);
    } else {
        lex_lt_total(a.drop_first(), b.drop_first());
        if a.drop_first() == b.drop_first() {
            assert(a =~= seq![a[0]] + a.drop_first());
            assert(b =~= seq![b[0]] + b.drop_first());
        }
    }
}

/// Two texts never each come before the other.
pub proof fn lex_lt_asymmetric(a: Seq<char>, b: Seq<char>)
    requires
        lex_lt(a, b),
    ensures
        !lex_lt(b, a),
{
    if lex_lt(b, a) {
        lex_lt_transitive(a, b, a);
        lex_lt_irreflexive(a);
    }
}

/// Of two texts whose fronts are equally long, the fronts decide, and where they are equal, what
/// follows.
pub proof fn lex_lt_by_front(a: Seq<char>, b: Seq<char>, x: Seq<char>, y: Seq<char>)
    requires
        a.len() == b.len(),
    ensures
        lex_lt(a + x, b + y) == if a == b {
            lex_lt(x, y)
        } else {
            lex_lt(a, b)
        },
    decreases a.len(),
{
    if a.len() == 0 {
        assert(a =~= b);
        assert(a + x =~= x);
        assert(b + y =~= y);
    } else {
        assert((a + x).drop_first() =~= a.drop_first() + x);
        assert((b + y).drop_first() =~= b.drop_first() + y);
        lex_lt_by_front(a.drop_first(), b.drop_first(), x, y);
        assert(a =~= seq![a[0]] + a.drop_first());
        assert(b =~= seq![b[0]] + b.drop_first());
    }
}

// ---------------------------------------------------------------------------------------------
// Beginnings and ends
// ---------------------------------------------------------------------------------------------

/// Whether `part` stands in `s` at `i`.
pub open spec fn stands_at(s: Seq<char>, part: Seq<char>, i: int) -> bool {
    0 <= i && i + part.len() <= s.len() && s.subrange(i, i + part.len()) == part
}

/// Whether `s` begins with `start`.
pub open spec fn begins_with(s: Seq<char>, start: Seq<char>) -> bool {
    stands_at(s, start, 0)
}

/// Whether `s` ends with `end`.
pub open spec fn ends_with(s: Seq<char>, end: Seq<char>) -> bool {
    stands_at(s, end, s.len() - end.len())
}

/// Whether `part` stands in `v` at `i`.
fn standing_at(v: &Vec<char>, part: &Vec<char>, i: usize) -> (r: bool)
    requires
        i <= v@.len(),
    ensures
        r == stands_at(v@, part@, i as int),
{
    if part.len() > v.len() - i {
        return false;
    }
    let mut k: usize = 0;
    let n: usize = v.len();
    while k < part.len()
        invariant
            k <= part@.len(),
            n == v@.len(),
            i + part@.len() <= n,
            forall|j: int| 0 <= j < k ==> v@[i + j] == part@[j],
        decreases part@.len() - k,
    {
        if v[i + k] != part[k] {
            assert(v@.subrange(i as int, i + part@.len())[k as int] != part@[k as int]);
            return false;
        }
        k = k + 1;
    }
    assert(v@.subrange(i as int, i + part@.len()) =~= part@);
    true
}

/// Whether the text begins with `start`.
pub fn beginning_with(s: &str, start: &str) -> (r: bool)
    ensures
        r == begins_with(s@, start@),
{
    let v = chars_of(s);
    let p = chars_of(start);
    standing_at(&v, &p, 0)
}

/// Whether the text ends with `end`.
pub fn ending_with(s: &str, end: &str) -> (r: bool)
    ensures
        r == ends_with(s@, end@),
{
    let v = chars_of(s);
    let p = chars_of(end);
    if p.len() > v.len() {
        return false;
    }
    standing_at(&v, &p, v.len() - p.len())
}

// ---------------------------------------------------------------------------------------------
// Words
// ---------------------------------------------------------------------------------------------

/// Where the run of characters other than white space ends that stands at `i`.
pub open spec fn word_end(s: Seq<char>, i: int) -> int
    decreases s.len() - i,
{
    if 0 <= i < s.len() && !is_white(s[i]) {
        word_end(s, i + 1)
    } else {
        i
    }
}

/// The words of `s` from `i` on: the longest runs of characters other than white space.
pub open spec fn words_from(s: Seq<char>, i: int) -> Seq<Seq<char>>
    decreases s.len() - i,
    via words_from_decreases
{
    if i < 0 || i >= s.len() {
        seq![]
    } else if is_white(s[i]) {
        words_from(s, i + 1)
    } else {
        seq![s.subrange(i, word_end(s, i))] + words_from(s, word_end(s, i))
    }
}

#[via_fn]
proof fn words_from_decreases(s: Seq<char>, i: int) {
    if 0 <= i < s.len() {
        word_end_bounds(s, i);
    }
}

/// A word ends behind its last character, inside the text.
pub proof fn word_end_bounds(s: Seq<char>, i: int)
    requires
        0 <= i <= s.len(),
    ensures
        i <= word_end(s, i) <= s.len(),
        i < s.len() && !is_white(s[i]) ==> i < word_end(s, i),
        forall|j: int| i <= j < word_end(s, i) ==> !is_white(s[j]),
        word_end(s, i) < s.len() ==> is_white(s[word_end(s, i)]),
    decreases s.len() - i,
{
    if i < s.len() && !is_white(s[i]) {
        word_end_bounds(s, i + 1);
    }
}

/// The words of a text.
pub open spec fn words(s: Seq<char>) -> Seq<Seq<char>> {
    words_from(s, 0)
}

/// The texts that the strings of a list hold.
pub open spec fn texts(v: Seq<String>) -> Seq<Seq<char>> {
    v.map_values(|s: String| s@)
}

/// Splits a text at white space.
pub fn split_words(s: &str) -> (r: Vec<String>)
    ensures
        texts(r@) == words(s@),
{
    let v = chars_of(s);
    let mut out: Vec<String> = Vec::new();
    let mut i: usize = 0;
    assert(texts(out@) =~= seq![]);
    while i < v.len()
        invariant
            i <= v@.len(),
            v@ == s@,
            words(s@) == texts(out@) + words_from(s@, i as int),
        decreases v@.len() - i,
    {
        if white(v[i]) {
            i = i + 1;
        } else {
            let mut end: usize = i;
            while end < v.len() && !white(v[end])
                invariant
                    i <= end <= v@.len(),
                    v@ == s@,
                    word_end(s@, i as int) == word_end(s@, end as int),
                decreases v@.len() - end,
            {
                end = end + 1;
            }
            proof {
                word_end_bounds(s@, i as int);
            }
            let ghost before = texts(out@);
            out.push(text_between(&v, i, end));
            assert(texts(out@) =~= before + seq![s@.subrange(i as int, end as int)]);
            assert(words(s@) =~= texts(out@) + words_from(s@, end as int));
            i = end;
        }
    }
    assert(words_from(s@, i as int) =~= seq![]);
    assert(texts(out@) =~= words(s@));
    out
}

// ---------------------------------------------------------------------------------------------
// Decimal numbers
// ---------------------------------------------------------------------------------------------

/// The character for a number below ten.
pub open spec fn digit(n: nat) -> char
    recommends
        n < 10,
{
    ('0' as int + n) as char
}

/// A number in decimal digits, without leading zeros.
pub open spec fn decimal(n: nat) -> Seq<char>
    decreases n,
{
    if n < 10 {
        seq![digit(n)]
    } else {
        decimal(n / 10).push(digit(n % 10))
    }
}

/// The character for a number below ten.
fn digit_char(n: u64) -> (r: char)
    requires
        n < 10,
    ensures
        r == digit(n as nat),
{
    match n {
        0 => '0',
        1 => '1',
        2 => '2',
        3 => '3',
        4 => '4',
        5 => '5',
        6 => '6',
        7 => '7',
        8 => '8',
        _ => '9',
    }
}

/// Writes a number in decimal digits.
pub fn number_text(n: u64) -> (r: String)
    ensures
        r@ == decimal(n as nat),
    decreases n,
{
    if n < 10 {
        let mut s = String::new();
        s.push(digit_char(n));
        assert(s@ =~= seq![digit(n as nat)]);
        s
    } else {
        let mut s = number_text(n / 10);
        s.push(digit_char(n % 10));
        s
    }
}

/// Whether `c` is one of the characters `0` to `9`.
pub open spec fn is_digit(c: char) -> bool {
    '0' as int <= c as int <= '9' as int
}

/// Whether `s` holds digits alone.
pub open spec fn all_digits(s: Seq<char>) -> bool {
    forall|i: int| 0 <= i < s.len() ==> is_digit(#[trigger] s[i])
}

/// The number that a run of digits stands for.
pub open spec fn digits_value(s: Seq<char>) -> nat
    decreases s.len(),
{
    if s.len() == 0 {
        0
    } else {
        10 * digits_value(s.drop_last()) + (s.last() as int - '0' as int) as nat
    }
}

/// The digits of a number text: what follows a leading `+`, if there is one.
pub open spec fn unsigned_part(s: Seq<char>) -> Seq<char> {
    if s.len() > 0 && s[0] == '+' {
        s.drop_first()
    } else {
        s
    }
}

/// The unsigned number of 64 bits that a text stands for: digits, with a `+` before them or not.
pub open spec fn parsed_number(s: Seq<char>) -> Option<u64> {
    let d = unsigned_part(s);
    if d.len() > 0 && all_digits(d) && digits_value(d) <= u64::MAX {
        Some(digits_value(d) as u64)
    } else {
        None
    }
}

proof fn digits_value_prefix(d: Seq<char>, k: int)
    requires
        0 <= k <= d.len(),
    ensures
        digits_value(d.take(k)) <= digits_value(d),
    decreases d.len() - k,
{
    if k < d.len() {
        digits_value_prefix(d, k + 1);
        assert(d.take(k + 1).drop_last() =~= d.take(k));
    } else {
        assert(d.take(k) =~= d);
    }
}

/// Reads an unsigned number of 64 bits.
pub fn parse_number(s: &str) -> (r: Option<u64>)
    ensures
        r == parsed_number(s@),
{
    let v = chars_of(s);
    let start: usize = if v.len() > 0 && v[0] == '+' {
        1
    } else {
        0
    };
    let ghost d = unsigned_part(s@);
    assert(d =~= v@.skip(start as int));
    if v.len() == start {
        return None;
    }
    let mut n: u64 = 0;
    let mut i: usize = start;
    assert(d.take(0) =~= seq![]);
    while i < v.len()
        invariant
            start <= i <= v@.len(),
            d == v@.skip(start as int),
            d == unsigned_part(s@),
            d.len() > 0,
            all_digits(d.take(i - start)),
            n == digits_value(d.take(i - start)),
        decreases v@.len() - i,
    {
        let c = v[i];
        assert(d[i - start] == c);
        let code: u32 = code_point(c);
        if !('0' as u32 <= code && code <= '9' as u32) {
            assert(!is_digit(d[i - start]));
            return None;
        }
        let x: u64 = (code - '0' as u32) as u64;
        assert(d.take(i - start + 1).drop_last() =~= d.take(i - start));
        assert(digits_value(d.take(i - start + 1)) == 10 * n + x);
        proof {
            digits_value_prefix(d, i - start + 1);
        }
        if n > u64::MAX / 10 || 10 * n > u64::MAX - x {
            return None;
        }
        n = 10 * n + x;
        i = i + 1;
    }
    assert(d.take(i - start) =~= d);
    Some(n)
}

/// A written number holds digits alone, and stands for the number.
pub proof fn decimal_digits(n: nat)
    ensures
        decimal(n).len() > 0,
        all_digits(decimal(n)),
        digits_value(decimal(n)) == n,
    decreases n,
{
    if n < 10 {
        assert(decimal(n).drop_last() =~= seq![]);
        assert(digits_value(decimal(n).drop_last()) == 0);
        assert(decimal(n).last() == digit(n));
    } else {
        decimal_digits(n / 10);
        assert(decimal(n).drop_last() =~= decimal(n / 10));
        assert(decimal(n).last() == digit(n % 10));
    }
}

/// Reading a written number gives it back.
pub proof fn parse_gives_back_what_was_written(n: u64)
    ensures
        parsed_number(decimal(n as nat)) == Some(n),
{
    decimal_digits(n as nat);
    assert(is_digit(decimal(n as nat)[0]));
}

// ---------------------------------------------------------------------------------------------
// Putting texts together
// ---------------------------------------------------------------------------------------------

/// The texts of a list, one behind the other.
pub open spec fn concat(l: Seq<Seq<char>>) -> Seq<char>
    decreases l.len(),
{
    if l.len() == 0 {
        seq![]
    } else {
        concat(l.drop_last()) + l.last()
    }
}

/// The texts of a list, with `sep` between each and the next.
pub open spec fn join(l: Seq<Seq<char>>, sep: Seq<char>) -> Seq<char>
    decreases l.len(),
{
    if l.len() == 0 {
        seq![]
    } else if l.len() == 1 {
        l[0]
    } else {
        join(l.drop_last(), sep) + sep + l.last()
    }
}

// ---------------------------------------------------------------------------------------------
// What words, numbers and endings are
// ---------------------------------------------------------------------------------------------

/// A number below ten is written as one digit; any other as what is left without its last digit,
/// and that digit.
pub proof fn numbers_are_written_digit_by_digit(n: nat, d: nat)
    requires
        d < 10,
    ensures
        decimal(d).len() == 1,
        decimal(d)[0] as int == '0' as int + d,
        n > 0 ==> decimal(10 * n + d) == decimal(n) + decimal(d),
{
    if n > 0 {
        assert((10 * n + d) / 10 == n && (10 * n + d) % 10 == d);
        assert(decimal(10 * n + d) =~= decimal(n) + decimal(d));
    }
}

/// Digits are read from the left, and what is no digit, or too large a number, is refused.
pub proof fn numbers_are_read_digit_by_digit(s: Seq<char>, c: char)
    requires
        s.len() > 0,
        s[0] != '+',
    ensures
        parsed_number(s.push(c)) == (match parsed_number(s) {
            Some(n) => if '0' as int <= c as int <= '9' as int && 10 * n + (c as int - '0' as int)
                <= u64::MAX {
                Some((10 * n + (c as int - '0' as int)) as u64)
            } else {
                None
            },
            None => None,
        }),
        parsed_number(seq!['+'] + s) == parsed_number(s),
        s.len() == 1 ==> parsed_number(s) == if '0' as int <= s[0] as int <= '9' as int {
            Some((s[0] as int - '0' as int) as u64)
        } else {
            None
        },
{
    let t = s.push(c);
    assert(t.drop_last() =~= s);
    assert((seq!['+'] + s).drop_first() =~= s);
    if all_digits(s) && is_digit(c) {
        assert(all_digits(t)) by {
            assert forall|i: int| 0 <= i < t.len() implies is_digit(#[trigger] t[i]) by {
                if i < s.len() {
                    assert(t[i] == s[i]);
                }
            }
        }
    }
    if all_digits(t) {
        assert(is_digit(t[s.len() as int]));
        assert forall|i: int| 0 <= i < s.len() implies is_digit(#[trigger] s[i]) by {
            assert(is_digit(t[i]));
        }
    }
    assert(digits_value(t) == 10 * digits_value(s) + (c as int - '0' as int) as nat);
    if s.len() == 1 {
        assert(s.drop_last() =~= seq![]);
        assert(digits_value(s.drop_last()) == 0);
        assert(is_digit(s[0]) <==> all_digits(s));
    }
}

/// A run of characters other than white space ends alike with something before the text.
pub proof fn word_end_shifted(p: Seq<char>, s: Seq<char>, i: int)
    requires
        0 <= i <= s.len(),
    ensures
        word_end(p + s, p.len() + i) == p.len() + word_end(s, i),
    decreases s.len() - i,
{
    if i < s.len() && !is_white(s[i]) {
        word_end_shifted(p, s, i + 1);
    }
}

/// A run of characters other than white space ends alike with nothing or white space behind it.
pub proof fn word_end_within(a: Seq<char>, b: Seq<char>, i: int)
    requires
        0 <= i <= a.len(),
        b.len() == 0 || is_white(b[0]),
    ensures
        word_end(a + b, i) == word_end(a, i),
    decreases a.len() - i,
{
    if i < a.len() {
        if !is_white(a[i]) {
            word_end_within(a, b, i + 1);
        }
    } else if b.len() > 0 {
        assert((a + b)[i] == b[0]);
    }
}

proof fn words_shifted(p: Seq<char>, s: Seq<char>, i: int)
    requires
        0 <= i <= s.len(),
    ensures
        words_from(p + s, p.len() + i) == words_from(s, i),
    decreases s.len() - i,
{
    let t = p + s;
    if i < s.len() {
        assert(t[p.len() + i] == s[i]);
        if is_white(s[i]) {
            words_shifted(p, s, i + 1);
            assert(words_from(t, p.len() + i) == words_from(t, p.len() + i + 1));
            assert(words_from(s, i) == words_from(s, i + 1));
        } else {
            word_end_shifted(p, s, i);
            word_end_bounds(s, i);
            let e = word_end(s, i);
            words_shifted(p, s, e);
            assert(t.subrange(p.len() + i, p.len() + e) =~= s.subrange(i, e));
            assert(words_from(t, p.len() + i) =~= words_from(s, i));
        }
    } else {
        assert(words_from(t, p.len() + i) =~= words_from(s, i));
    }
}

proof fn white_is_skipped(p: Seq<char>, s: Seq<char>, i: int)
    requires
        forall|j: int| 0 <= j < p.len() ==> is_white(#[trigger] p[j]),
        0 <= i <= p.len(),
    ensures
        words_from(p + s, i) == words_from(p + s, p.len() as int),
    decreases p.len() - i,
{
    if i < p.len() {
        assert((p + s)[i] == p[i]);
        white_is_skipped(p, s, i + 1);
        assert(words_from(p + s, i) == words_from(p + s, i + 1));
    }
}

/// White space before a text adds no word to it.
pub proof fn white_space_is_no_word(p: Seq<char>, s: Seq<char>)
    requires
        forall|j: int| 0 <= j < p.len() ==> is_white(#[trigger] p[j]),
    ensures
        words(p + s) == words(s),
        words(p).len() == 0,
{
    white_is_skipped(p, s, 0);
    words_shifted(p, s, 0);
    white_is_skipped(p, seq![], 0);
    words_shifted(p, seq![], 0);
    assert(p + seq![] =~= p);
}

/// A word with nothing or white space behind it is the first word, and what is behind it gives the
/// others.
pub proof fn word_comes_first(w: Seq<char>, s: Seq<char>)
    requires
        w.len() > 0,
        forall|j: int| 0 <= j < w.len() ==> !is_white(#[trigger] w[j]),
        s.len() == 0 || is_white(s[0]),
    ensures
        words(w + s) == seq![w] + words(s),
{
    let t = w + s;
    word_end_within(w, s, 0);
    word_end_bounds(w, 0);
    let e = word_end(w, 0);
    if e < w.len() {
        assert(is_white(w[e]));
    }
    assert(t[0] == w[0]);
    assert(t.subrange(0, e) =~= w);
    words_shifted(w, s, 0);
    assert(words_from(t, 0) =~= seq![w] + words_from(t, e));
}

/// Without a digit there is no number, nor is there with a second sign.
pub proof fn numbers_need_a_digit(s: Seq<char>)
    ensures
        parsed_number(seq![]) is None,
        parsed_number(seq!['+']) is None,
        parsed_number(seq!['+', '+'] + s) is None,
{
    let t = seq!['+', '+'] + s;
    assert(unsigned_part(seq!['+']).len() == 0);
    assert(t.drop_first()[0] == '+');
    assert(!is_digit(unsigned_part(t)[0]));
}

/// The texts of a list of strings are those of the strings, one for one.
pub proof fn texts_are_one_for_one(v: Seq<String>)
    ensures
        texts(v).len() == v.len(),
        forall|i: int| 0 <= i < v.len() ==> #[trigger] texts(v)[i] == v[i]@,
{
}

} // verus!
