//! Points in local time, and how they are written in the store.

use vstd::prelude::*;

use crate::text::{decimal, digit, lex_lt, lex_lt_by_front};

verus! {

/// How the time of a post is written in the store.
pub const TIMESTAMP_FORMAT: &'static str = "%Y-%m-%d %H:%M:%S";

/// How a day is written.
pub const DATE_FORMAT: &'static str = "%Y-%m-%d";

/// A date of the Gregorian calendar and a time of day. A nanosecond of a thousand million or more
/// stands for a leap second.
pub struct MomentView {
    pub year: int,
    pub month: nat,
    pub day: nat,
    pub hour: nat,
    pub minute: nat,
    pub second: nat,
    pub nanosecond: nat,
}

/// Whether a year has a 29th of February.
pub open spec fn is_leap_year(year: int) -> bool {
    year % 4 == 0 && (year % 100 != 0 || year % 400 == 0)
}

/// The number of days of a month.
pub open spec fn days_in_month(year: int, month: nat) -> nat {
    if month == 2 {
        if is_leap_year(year) {
            29
        } else {
            28
        }
    } else if month == 4 || month == 6 || month == 9 || month == 11 {
        30
    } else {
        31
    }
}

/// A number below a hundred in two digits.
pub open spec fn two_digits(n: nat) -> Seq<char> {
    seq![digit(n / 10), digit(n % 10)]
}

/// A number below ten thousand in four digits.
pub open spec fn four_digits(n: nat) -> Seq<char> {
    two_digits(n / 100) + two_digits(n % 100)
}

/// A year: four digits, or a sign and at least four digits outside the years 0 to 9999.
pub open spec fn year_text(year: int) -> Seq<char> {
    if 0 <= year <= 9999 {
        four_digits(year as nat)
    } else if year > 9999 {
        seq!['+'] + decimal(year as nat)
    } else if year >= -9999 {
        seq!['-'] + four_digits((-year) as nat)
    } else {
        seq!['-'] + decimal((-year) as nat)
    }
}

impl MomentView {
    /// Whether there is such a date and such a time of day.
    pub open spec fn valid(self) -> bool {
        &&& -262143 <= self.year <= 262142
        &&& 1 <= self.month <= 12
        &&& 1 <= self.day <= days_in_month(self.year, self.month)
        &&& self.hour < 24
        &&& self.minute < 60
        &&& self.second < 60
        &&& self.nanosecond < 1_000_000_000 || (self.second == 59 && self.nanosecond
            < 2_000_000_000)
    }

    /// The second as it is written: a leap second is the sixtieth.
    pub open spec fn shown_second(self) -> nat {
        self.second + self.nanosecond / 1_000_000_000
    }

    /// The day, as in `2024-02-29`.
    pub open spec fn date_text(self) -> Seq<char> {
        year_text(self.year) + seq!['-'] + two_digits(self.month) + seq!['-'] + two_digits(self.day)
    }

    /// The day and the time, as in `2024-02-29 07:05:00`.
    pub open spec fn timestamp_text(self) -> Seq<char> {
        self.date_text() + seq![' '] + two_digits(self.hour) + seq![':'] + two_digits(self.minute)
            + seq![':'] + two_digits(self.shown_second())
    }

    /// The day that the store reads in the written time: it knows the years 0 to 9999 and no leap
    /// second.
    pub open spec fn stored_day(self) -> Option<Seq<char>> {
        if 0 <= self.year <= 9999 && self.shown_second() < 60 {
            Some(self.date_text())
        } else {
            None
        }
    }
}

/// `chrono::NaiveDateTime::format` on the date and time that the numbers give, if
/// `chrono::NaiveDate::from_ymd_opt` and `and_hms_nano_opt` find that there is one.
#[verifier::external_body]
fn chrono_format(
    year: i32,
    month: u32,
    day: u32,
    hour: u32,
    minute: u32,
    second: u32,
    nanosecond: u32,
    format: &str,
) -> (r: Option<String>)
    requires
        format@ == TIMESTAMP_FORMAT@ || format@ == DATE_FORMAT@,
    ensures
        r is Some <==> moment_of(year, month, day, hour, minute, second, nanosecond).valid(),
        r is Some && format@ == TIMESTAMP_FORMAT@ ==> r->0@ == moment_of(
            year,
            month,
            day,
            hour,
            minute,
            second,
            nanosecond,
        ).timestamp_text(),
        r is Some && format@ == DATE_FORMAT@ ==> r->0@ == moment_of(
            year,
            month,
            day,
            hour,
            minute,
            second,
            nanosecond,
        ).date_text(),
{
    let date = chrono::NaiveDate::from_ymd_opt(year, month, day)?;
    let time = date.and_hms_nano_opt(hour, minute, second, nanosecond)?;
    Some(time.format(format).to_string())
}

/// The moment that the numbers give.
pub open spec fn moment_of(
    year: i32,
    month: u32,
    day: u32,
    hour: u32,
    minute: u32,
    second: u32,
    nanosecond: u32,
) -> MomentView {
    MomentView {
        year: year as int,
        month: month as nat,
        day: day as nat,
        hour: hour as nat,
        minute: minute as nat,
        second: second as nat,
        nanosecond: nanosecond as nat,
    }
}

/// A point in local time, with its written forms.
pub struct Moment {
    year: i32,
    month: u32,
    day: u32,
    hour: u32,
    minute: u32,
    second: u32,
    nanosecond: u32,
    timestamp: String,
    date: String,
}

impl View for Moment {
    type V = MomentView;

    closed spec fn view(&self) -> MomentView {
        moment_of(
            self.year,
            self.month,
            self.day,
            self.hour,
            self.minute,
            self.second,
            self.nanosecond,
        )
    }
}

impl Moment {
    #[verifier::type_invariant]
    spec fn written_as_it_is(self) -> bool {
        &&& self@.valid()
        &&& self.timestamp@ == self@.timestamp_text()
        &&& self.date@ == self@.date_text()
    }

    /// The moment that the numbers give, if there is one.
    pub fn new(
        year: i32,
        month: u32,
        day: u32,
        hour: u32,
        minute: u32,
        second: u32,
        nanosecond: u32,
    ) -> (r: Option<Moment>)
        ensures
            r is Some <==> moment_of(year, month, day, hour, minute, second, nanosecond).valid(),
            r is Some ==> r->0@ == moment_of(year, month, day, hour, minute, second, nanosecond),
    {
        let timestamp = chrono_format(
            year,
            month,
            day,
            hour,
            minute,
            second,
            nanosecond,
            TIMESTAMP_FORMAT,
        );
        let date = chrono_format(
            year,
            month,
            day,
            hour,
            minute,
            second,
            nanosecond,
            DATE_FORMAT,
        );
        match (timestamp, date) {
            (Some(timestamp), Some(date)) => Some(
                Moment {
                    year,
                    month,
                    day,
                    hour,
                    minute,
                    second,
                    nanosecond,
                    timestamp,
                    date,
                },
            ),
            _ => None,
        }
    }

    /// The moment as the time of a post is written.
    pub fn timestamp(&self) -> (r: &str)
        ensures
            r@ == self@.timestamp_text(),
    {
        proof {
            use_type_invariant(self);
        }
        self.timestamp.as_str()
    }

    /// The day of the moment.
    pub fn date(&self) -> (r: &str)
        ensures
            r@ == self@.date_text(),
    {
        proof {
            use_type_invariant(self);
        }
        self.date.as_str()
    }

    /// The day that the store reads in the written moment.
    pub fn stored_day(&self) -> (r: Option<String>)
        ensures
            match r {
                Some(day) => self@.stored_day() == Some(day@),
                None => self@.stored_day() is None,
            },
    {
        proof {
            use_type_invariant(self);
        }
        if 0 <= self.year && self.year <= 9999 && self.second as u64 + self.nanosecond as u64
            / 1_000_000_000 < 60 {
            Some(self.date.clone())
        } else {
            None
        }
    }
}

// ---------------------------------------------------------------------------------------------
// The order of written times
// ---------------------------------------------------------------------------------------------

impl MomentView {
    /// Whether a moment comes before another, to the second.
    pub open spec fn earlier_than(self, other: MomentView) -> bool {
        if self.year != other.year {
            self.year < other.year
        } else if self.month != other.month {
            self.month < other.month
        } else if self.day != other.day {
            self.day < other.day
        } else if self.hour != other.hour {
            self.hour < other.hour
        } else if self.minute != other.minute {
            self.minute < other.minute
        } else {
            self.shown_second() < other.shown_second()
        }
    }
}

/// A separator and a number in two digits.
#[verifier::opaque]
spec fn field(sep: char, n: nat) -> Seq<char> {
    seq![sep, digit(n / 10), digit(n % 10)]
}

proof fn fields_in_order(sep: char, m: nat, n: nat)
    requires
        m < 100,
        n < 100,
    ensures
        lex_lt(field(sep, m), field(sep, n)) <==> m < n,
        field(sep, m) == field(sep, n) <==> m == n,
        field(sep, m).len() == field(sep, n).len(),
{
    reveal(field);
    let a = field(sep, m);
    let b = field(sep, n);
    assert(a.drop_first() =~= seq![digit(m / 10), digit(m % 10)]);
    assert(b.drop_first() =~= seq![digit(n / 10), digit(n % 10)]);
    assert(a.drop_first().drop_first() =~= seq![digit(m % 10)]);
    assert(b.drop_first().drop_first() =~= seq![digit(n % 10)]);
    reveal_with_fuel(lex_lt, 5);
    assert(a[1] == b[1] <==> m / 10 == n / 10);
    assert(a[2] == b[2] <==> m % 10 == n % 10);
}

proof fn years_in_order(m: nat, n: nat)
    requires
        m < 10000,
        n < 10000,
    ensures
        lex_lt(four_digits(m), four_digits(n)) <==> m < n,
        four_digits(m) == four_digits(n) <==> m == n,
{
    reveal(field);
    let a = field('0', m / 100);
    let b = field('0', n / 100);
    let x = two_digits(m % 100);
    let y = two_digits(n % 100);
    fields_in_order('0', m / 100, n / 100);
    fields_in_order('0', m % 100, n % 100);
    lex_lt_by_front(two_digits(m / 100), two_digits(n / 100), x, y);
    assert(seq!['0'] + two_digits(m / 100) =~= a);
    assert(seq!['0'] + two_digits(n / 100) =~= b);
    assert(seq!['0'] + x =~= field('0', m % 100));
    assert(seq!['0'] + y =~= field('0', n % 100));
    lex_lt_by_front(seq!['0'], seq!['0'], two_digits(m / 100), two_digits(n / 100));
    lex_lt_by_front(seq!['0'], seq!['0'], x, y);
    assert(a.drop_first() =~= two_digits(m / 100));
    assert(b.drop_first() =~= two_digits(n / 100));
    assert(field('0', m % 100).drop_first() =~= x);
    assert(field('0', n % 100).drop_first() =~= y);
    if four_digits(m) == four_digits(n) {
        assert(four_digits(m).take(2) =~= two_digits(m / 100));
        assert(four_digits(n).take(2) =~= two_digits(n / 100));
        assert(four_digits(m).skip(2) =~= x);
        assert(four_digits(n).skip(2) =~= y);
    }
}

proof fn timestamp_in_fields(a: MomentView)
    requires
        0 <= a.year <= 9999,
    ensures
        a.timestamp_text() == four_digits(a.year as nat) + (field('-', a.month) + (field('-', a.day)
            + (field(' ', a.hour) + (field(':', a.minute) + field(':', a.shown_second()))))),
{
    reveal(field);
    assert(seq!['-'] + two_digits(a.month) =~= field('-', a.month));
    assert(seq!['-'] + two_digits(a.day) =~= field('-', a.day));
    assert(seq![' '] + two_digits(a.hour) =~= field(' ', a.hour));
    assert(seq![':'] + two_digits(a.minute) =~= field(':', a.minute));
    assert(seq![':'] + two_digits(a.shown_second()) =~= field(':', a.shown_second()));
    assert(a.timestamp_text() =~= four_digits(a.year as nat) + field('-', a.month) + field(
        '-',
        a.day,
    ) + field(' ', a.hour) + field(':', a.minute) + field(':', a.shown_second()));
}

/// In the years 0 to 9999 the order of the written times is the order of the times.
pub proof fn written_times_are_in_order(a: MomentView, b: MomentView)
    requires
        a.valid(),
        b.valid(),
        0 <= a.year <= 9999,
        0 <= b.year <= 9999,
    ensures
        lex_lt(a.timestamp_text(), b.timestamp_text()) <==> a.earlier_than(b),
{
    let a5 = field(':', a.shown_second());
    let b5 = field(':', b.shown_second());
    let a4 = field(':', a.minute) + a5;
    let b4 = field(':', b.minute) + b5;
    let a3 = field(' ', a.hour) + a4;
    let b3 = field(' ', b.hour) + b4;
    let a2 = field('-', a.day) + a3;
    let b2 = field('-', b.day) + b3;
    let a1 = field('-', a.month) + a2;
    let b1 = field('-', b.month) + b2;
    let ya = four_digits(a.year as nat);
    let yb = four_digits(b.year as nat);
    fields_in_order(':', a.shown_second(), b.shown_second());
    fields_in_order(':', a.minute, b.minute);
    fields_in_order(' ', a.hour, b.hour);
    fields_in_order('-', a.day, b.day);
    fields_in_order('-', a.month, b.month);
    years_in_order(a.year as nat, b.year as nat);
    lex_lt_by_front(field(':', a.minute), field(':', b.minute), a5, b5);
    lex_lt_by_front(field(' ', a.hour), field(' ', b.hour), a4, b4);
    lex_lt_by_front(field('-', a.day), field('-', b.day), a3, b3);
    lex_lt_by_front(field('-', a.month), field('-', b.month), a2, b2);
    lex_lt_by_front(ya, yb, a1, b1);
    timestamp_in_fields(a);
    timestamp_in_fields(b);
}

// ---------------------------------------------------------------------------------------------
// What a written time looks like
// ---------------------------------------------------------------------------------------------

/// The number that two digits stand for.
pub open spec fn pair(s: Seq<char>, i: int) -> int {
    10 * (s[i] as int - '0' as int) + (s[i + 1] as int - '0' as int)
}

/// In the years 0 to 9999 a time is written with a year of four digits and every other part in two,
/// and the day is its first ten characters; a leap second is the sixtieth.
pub proof fn time_is_written_in_full(a: MomentView)
    requires
        a.valid(),
        0 <= a.year <= 9999,
    ensures
        a.timestamp_text().len() == 19,
        100 * pair(a.timestamp_text(), 0) + pair(a.timestamp_text(), 2) == a.year,
        a.timestamp_text()[4] == '-',
        pair(a.timestamp_text(), 5) == a.month,
        a.timestamp_text()[7] == '-',
        pair(a.timestamp_text(), 8) == a.day,
        a.timestamp_text()[10] == ' ',
        pair(a.timestamp_text(), 11) == a.hour,
        a.timestamp_text()[13] == ':',
        pair(a.timestamp_text(), 14) == a.minute,
        a.timestamp_text()[16] == ':',
        a.nanosecond < 1_000_000_000 ==> pair(a.timestamp_text(), 17) == a.second,
        a.nanosecond >= 1_000_000_000 ==> pair(a.timestamp_text(), 17) == 60,
        a.date_text() == a.timestamp_text().take(10),
{
    let t = a.timestamp_text();
    let y = a.year as nat;
    assert(a.date_text().len() == 10);
    assert(a.date_text() =~= t.take(10));
    assert(t[0] == digit((y / 100) / 10) && t[1] == digit((y / 100) % 10));
    assert(t[2] == digit((y % 100) / 10) && t[3] == digit((y % 100) % 10));
    assert(t[5] == digit(a.month / 10) && t[6] == digit(a.month % 10));
    assert(t[8] == digit(a.day / 10) && t[9] == digit(a.day % 10));
    assert(t[11] == digit(a.hour / 10) && t[12] == digit(a.hour % 10));
    assert(t[14] == digit(a.minute / 10) && t[15] == digit(a.minute % 10));
    let s = a.shown_second();
    assert(t[17] == digit(s / 10) && t[18] == digit(s % 10));
    assert(t[4] == '-' && t[7] == '-' && t[10] == ' ' && t[13] == ':' && t[16] == ':');
}

/// The store reads the day of every time in the years 0 to 9999, but for a leap second.
pub proof fn stored_day_is_the_day(a: MomentView)
    requires
        a.valid(),
    ensures
        0 <= a.year <= 9999 && a.nanosecond < 1_000_000_000 ==> a.stored_day() == Some(
            a.date_text(),
        ),
        a.year < 0 || a.year > 9999 || a.nanosecond >= 1_000_000_000 ==> a.stored_day() is None,
{
}

/// A date exists where its month has such a day, February the 29th in every fourth year but in a
/// hundredth that is no four hundredth, and a time of day where no part is too large.
pub proof fn times_that_there_are(a: MomentView)
    ensures
        a.valid() <==> {
            &&& -262143 <= a.year <= 262142
            &&& 1 <= a.month <= 12
            &&& 1 <= a.day <= 31
            &&& (a.month == 4 || a.month == 6 || a.month == 9 || a.month == 11) ==> a.day <= 30
            &&& a.month == 2 ==> a.day <= 29
            &&& a.month == 2 && a.day == 29 ==> a.year % 400 == 0 || (a.year % 4 == 0 && a.year
                % 100 != 0)
            &&& a.hour <= 23
            &&& a.minute <= 59
            &&& a.second <= 59
            &&& a.nanosecond <= 999_999_999 || (a.second == 59 && a.nanosecond <= 1_999_999_999)
        },
{
}

/// Outside the years 0 to 9999 the year is written with its sign and at least four digits, and the
/// rest as in other years.
pub proof fn far_years_are_written_with_a_sign(a: MomentView)
    requires
        a.valid(),
        a.year < 0 || a.year > 9999,
    ensures
        a.year > 9999 ==> a.date_text() == seq!['+'] + decimal(a.year as nat)
            + a.date_text().skip(a.date_text().len() - 6),
        a.year < -9999 ==> a.date_text() == seq!['-'] + decimal((-a.year) as nat)
            + a.date_text().skip(a.date_text().len() - 6),
        -9999 <= a.year < 0 ==> a.date_text().len() == 11 && a.date_text()[0] == '-' && 100 * pair(
            a.date_text(),
            1,
        ) + pair(a.date_text(), 3) == -a.year,
        a.date_text().len() >= 6,
        a.date_text()[a.date_text().len() - 6] == '-',
        pair(a.date_text(), a.date_text().len() - 5) == a.month,
        a.date_text()[a.date_text().len() - 3] == '-',
        pair(a.date_text(), a.date_text().len() - 2) == a.day,
        a.timestamp_text().len() == a.date_text().len() + 9,
        a.timestamp_text().take(a.date_text().len() as int) == a.date_text(),
        a.timestamp_text()[a.date_text().len() as int] == ' ',
        pair(a.timestamp_text(), a.date_text().len() as int + 1) == a.hour,
        a.timestamp_text()[a.date_text().len() as int + 3] == ':',
        pair(a.timestamp_text(), a.date_text().len() as int + 4) == a.minute,
        a.timestamp_text()[a.date_text().len() as int + 6] == ':',
        pair(a.timestamp_text(), a.date_text().len() as int + 7) == if a.nanosecond < 1_000_000_000 {
            a.second as int
        } else {
            60
        },
{
    let d = a.date_text();
    let y = year_text(a.year);
    let n = d.len() as int;
    assert(n == y.len() + 6);
    assert(d =~= y + d.skip(n - 6));
    assert(d[n - 6] == '-' && d[n - 3] == '-');
    assert(d[n - 5] == digit(a.month / 10) && d[n - 4] == digit(a.month % 10));
    assert(d[n - 2] == digit(a.day / 10) && d[n - 1] == digit(a.day % 10));
    let t = a.timestamp_text();
    assert(t.take(n as int) =~= d);
    assert(t[n as int] == ' ' && t[n + 3] == ':' && t[n + 6] == ':');
    assert(t[n + 1] == digit(a.hour / 10) && t[n + 2] == digit(a.hour % 10));
    assert(t[n + 4] == digit(a.minute / 10) && t[n + 5] == digit(a.minute % 10));
    let s = a.shown_second();
    assert(t[n + 7] == digit(s / 10) && t[n + 8] == digit(s % 10));
    if -9999 <= a.year < 0 {
        let m = (-a.year) as nat;
        assert(d[0] == '-');
        assert(d[1] == digit((m / 100) / 10) && d[2] == digit((m / 100) % 10));
        assert(d[3] == digit((m % 100) / 10) && d[4] == digit((m % 100) % 10));
    }
}

} // verus!
