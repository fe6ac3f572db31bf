//! Calendar dates as plain year/month/day values, with a day-number
//! mapping used for ordering, distance and bucket arithmetic.

use vstd::prelude::*;
use vstd::string::StrSliceExecFns;
use crate::text::{
    all_digits, check_all_digits, digits_val, parse_digits, append_dec_pad, dec_str_pad,
    push_char, pow10,
};

verus! {

/// A proleptic-Gregorian calendar date. `valid()` bounds the year to four
/// digits, which is all the `YYYY-MM-DD` text format can carry.
#[derive(Debug, Clone, Copy, PartialEq, Eq, Structural)]
pub struct Date {
    pub year: u32,
    pub month: u32,
    pub day: u32,
}

pub open spec fn is_leap_year(y: int) -> bool {
    (y % 4 == 0 && y % 100 != 0) || y % 400 == 0
}

pub open spec fn days_in_year(y: int) -> int {
    if is_leap_year(y) {
        366
    } else {
        365
    }
}

pub open spec fn days_in_month(y: int, m: int) -> int {
    if m == 2 {
        if is_leap_year(y) {
            29
        } else {
            28
        }
    } else if m == 4 || m == 6 || m == 9 || m == 11 {
        30
    } else {
        31
    }
}

/// Days in all years strictly before `y`, counting from year 1.
pub open spec fn days_before_year(y: int) -> int
    decreases y,
{
    if y <= 1 {
        0
    } else {
        days_before_year(y - 1) + days_in_year(y - 1)
    }
}

/// Days in all months of year `y` strictly before month `m`.
pub open spec fn days_before_month(y: int, m: int) -> int
    decreases m,
{
    if m <= 1 {
        0
    } else {
        days_before_month(y, m - 1) + days_in_month(y, m - 1)
    }
}

/// Zero-based position of a date in the calendar: 0001-01-01 is day 0.
pub open spec fn day_number(d: Date) -> int {
    days_before_year(d.year as int) + days_before_month(d.year as int, d.month as int) + d.day - 1
}

/// Chronological order on dates, the order every comparison in the
/// library goes by.
pub open spec fn date_le(a: Date, b: Date) -> bool {
    day_number(a) <= day_number(b)
}

pub proof fn lemma_days_before_year_bounds(y: int)
    requires
        1 <= y,
    ensures
        365 * (y - 1) <= days_before_year(y) <= 366 * (y - 1),
    decreases y,
{
    if y > 1 {
        lemma_days_before_year_bounds(y - 1);
    }
}

pub proof fn lemma_days_before_month_bounds(y: int, m: int)
    requires
        1 <= m <= 13,
    ensures
        28 * (m - 1) <= days_before_month(y, m) <= 31 * (m - 1),
    decreases m,
{
    if m > 1 {
        lemma_days_before_month_bounds(y, m - 1);
    }
}

impl Date {
    pub open spec fn valid(self) -> bool {
        &&& 1 <= self.year <= 9999
        &&& 1 <= self.month <= 12
        &&& 1 <= self.day <= days_in_month(self.year as int, self.month as int)
    }

    pub fn new(year: u32, month: u32, day: u32) -> (d: Date)
        ensures
            d.year == year && d.month == month && d.day == day,
    {
        Date { year, month, day }
    }
}

pub fn is_leap_year_exec(y: u32) -> (r: bool)
    ensures
        r == is_leap_year(y as int),
{
    (y % 4 == 0 && y % 100 != 0) || y % 400 == 0
}

pub fn days_in_month_exec(y: u32, m: u32) -> (r: u32)
    ensures
        r == days_in_month(y as int, m as int),
        28 <= r <= 31,
{
    if m == 2 {
        if is_leap_year_exec(y) {
            29
        } else {
            28
        }
    } else if m == 4 || m == 6 || m == 9 || m == 11 {
        30
    } else {
        31
    }
}

fn days_in_year_exec(y: u32) -> (r: u32)
    ensures
        r == days_in_year(y as int),
{
    if is_leap_year_exec(y) {
        366
    } else {
        365
    }
}

impl Date {
    /// The date's zero-based day number; the basis for all ordering and
    /// distance computations.
    pub fn day_number(&self) -> (n: u32)
        requires
            self.valid(),
        ensures
            n == day_number(*self),
    {
        let mut acc: u32 = 0;
        let mut y: u32 = 1;
        while y < self.year
            invariant
                1 <= y <= self.year,
                self.valid(),
                acc == days_before_year(y as int),
            decreases self.year - y,
        {
            proof {
                lemma_days_before_year_bounds(y as int + 1);
            }
            acc = acc + days_in_year_exec(y);
            y = y + 1;
        }
        let mut m: u32 = 1;
        while m < self.month
            invariant
                1 <= m <= self.month,
                self.valid(),
                acc == days_before_year(self.year as int) + days_before_month(self.year as int, m as int),
            decreases self.month - m,
        {
            proof {
                lemma_days_before_year_bounds(self.year as int);
                lemma_days_before_month_bounds(self.year as int, m as int + 1);
            }
            acc = acc + days_in_month_exec(self.year, m);
            m = m + 1;
        }
        proof {
            lemma_days_before_year_bounds(self.year as int);
            lemma_days_before_month_bounds(self.year as int, self.month as int);
        }
        acc + self.day - 1
    }

    /// Chronological `<=`.
    pub fn le(&self, other: &Date) -> (r: bool)
        requires
            self.valid(),
            other.valid(),
        ensures
            r == date_le(*self, *other),
    {
        self.day_number() <= other.day_number()
    }

    /// Chronological `<`.
    pub fn lt(&self, other: &Date) -> (r: bool)
        requires
            self.valid(),
            other.valid(),
        ensures
            r == (day_number(*self) < day_number(*other)),
    {
        self.day_number() < other.day_number()
    }
}

/// The last representable date; every valid date's number stays below its.
pub open spec fn max_day_number() -> int {
    day_number(Date { year: 9999, month: 12, day: 31 })
}

/// A valid date's days within its own year stay below the year's length.
proof fn lemma_date_within_year(d: Date)
    requires
        d.valid(),
    ensures
        0 <= days_before_month(d.year as int, d.month as int) + d.day - 1 < days_in_year(d.year as int),
{
    let y = d.year as int;
    let m = d.month as int;
    lemma_days_before_month_bounds(y, m);
    assert(days_before_month(y, m + 1) == days_before_month(y, m) + days_in_month(y, m));
    lemma_days_before_month_monotonic(y, m + 1, 13);
    lemma_days_before_month_full_year(y);
}

/// Day 0 of year 10000 lies strictly beyond the largest valid date.
proof fn lemma_max_day_number_value()
    ensures
        max_day_number() == days_before_year(10000) - 1,
        max_day_number() < 3_660_000,
{
    lemma_days_before_month_full_year(9999);
    assert(days_before_month(9999, 13) == days_before_month(9999, 12) + days_in_month(9999, 12));
    assert(days_before_year(10000) == days_before_year(9999) + days_in_year(9999));
    lemma_days_before_year_bounds(10000);
}

pub proof fn lemma_day_number_in_range(d: Date)
    requires
        d.valid(),
    ensures
        0 <= day_number(d) <= max_day_number(),
        max_day_number() < 3_660_000,
{
    let y = d.year as int;
    lemma_days_before_year_bounds(y);
    lemma_date_within_year(d);
    lemma_max_day_number_value();
    assert(days_before_year(y + 1) == days_before_year(y) + days_in_year(y));
    if y + 1 <= 10000 {
        lemma_days_before_year_monotonic(y + 1, 10000);
    }
}

pub proof fn lemma_days_before_year_monotonic(a: int, b: int)
    requires
        1 <= a <= b,
    ensures
        days_before_year(a) + 365 * (b - a) <= days_before_year(b),
    decreases b - a,
{
    if a < b {
        lemma_days_before_year_monotonic(a, b - 1);
    }
}

pub proof fn lemma_days_before_month_monotonic(y: int, a: int, b: int)
    requires
        1 <= a <= b,
    ensures
        days_before_month(y, a) + 28 * (b - a) <= days_before_month(y, b),
    decreases b - a,
{
    if a < b {
        lemma_days_before_month_monotonic(y, a, b - 1);
    }
}

/// Recovers the unique valid date with a given day number.
pub fn date_from_day_number(n: u32) -> (d: Date)
    requires
        n <= max_day_number(),
    ensures
        d.valid(),
        day_number(d) == n,
{
    let mut y: u32 = 1;
    let mut rest: u32 = n;
    while rest >= days_in_year_exec(y)
        invariant
            1 <= y <= 9999,
            rest == n - days_before_year(y as int),
            days_before_year(y as int) <= n <= max_day_number(),
        decreases rest,
    {
        proof {
            lemma_year_stays_in_range(y as int, n as int);
        }
        rest = rest - days_in_year_exec(y);
        y = y + 1;
    }
    let mut m: u32 = 1;
    while rest >= days_in_month_exec(y, m)
        invariant
            1 <= m <= 12,
            1 <= y <= 9999,
            rest == n - days_before_year(y as int) - days_before_month(y as int, m as int),
            days_before_month(y as int, m as int) + rest < days_in_year(y as int),
        decreases 12 - m,
    {
        proof {
            lemma_month_stays_in_range(y as int, m as int, rest as int);
        }
        rest = rest - days_in_month_exec(y, m);
        m = m + 1;
    }
    Date { year: y, month: m, day: rest + 1 }
}

proof fn lemma_year_stays_in_range(y: int, n: int)
    requires
        1 <= y <= 9999,
        days_before_year(y) + days_in_year(y) <= n,
        n <= max_day_number(),
    ensures
        days_before_year(y + 1) <= n,
        y + 1 <= 9999,
{
    assert(days_before_year(y + 1) == days_before_year(y) + days_in_year(y));
    lemma_max_day_number_value();
    if y + 1 > 9999 {
        assert(days_before_year(10000) <= n);
        assert(false);
    }
}

proof fn lemma_month_stays_in_range(y: int, m: int, rest: int)
    requires
        1 <= m <= 12,
        days_in_month(y, m) <= rest,
        days_before_month(y, m) + rest < days_in_year(y),
    ensures
        m + 1 <= 12,
{
    if m == 12 {
        lemma_days_before_month_full_year(y);
        assert(false);
    }
}

/// The months of a year account for all of its days.
proof fn lemma_days_before_month_full_year(y: int)
    ensures
        days_before_month(y, 13) == days_in_year(y),
{
    reveal_with_fuel(days_before_month, 14);
}

/// The date a `YYYY-MM-DD` text denotes, if it is well-formed and names a
/// real calendar day.
pub open spec fn iso_date_spec(s: Seq<char>) -> Option<Date> {
    if s.len() == 10 && s[4] == '-' && s[7] == '-' && all_digits(s.subrange(0, 4)) && all_digits(
        s.subrange(5, 7),
    ) && all_digits(s.subrange(8, 10)) {
        let d = Date {
            year: digits_val(s.subrange(0, 4)) as u32,
            month: digits_val(s.subrange(5, 7)) as u32,
            day: digits_val(s.subrange(8, 10)) as u32,
        };
        if d.valid() {
            Some(d)
        } else {
            Option::<Date>::None
        }
    } else {
        Option::<Date>::None
    }
}

/// Parses a strict `YYYY-MM-DD` date; `None` exactly on text that is not
/// one or names no real day.
pub fn parse_iso_date(s: &str) -> (r: Option<Date>)
    ensures
        r is Some <==> iso_date_spec(s@) is Some,
        r matches Some(d) ==> iso_date_spec(s@) == Some(d) && d.valid(),
{
    let len = s.unicode_len();
    if len != 10 {
        return None;
    }
    if s.get_char(4) != '-' || s.get_char(7) != '-' {
        return None;
    }
    if !check_all_digits(s, 0, 4) || !check_all_digits(s, 5, 7) || !check_all_digits(s, 8, 10) {
        return None;
    }
    let year = parse_digits(s, 0, 4) as u32;
    let month = parse_digits(s, 5, 7) as u32;
    let day = parse_digits(s, 8, 10) as u32;
    proof {
        crate::text::lemma_digits_val_bound(s@.subrange(0, 4));
        crate::text::lemma_digits_val_bound(s@.subrange(5, 7));
        crate::text::lemma_digits_val_bound(s@.subrange(8, 10));
        assert(pow10(4) == 10000) by {
            reveal_with_fuel(pow10, 5);
        }
    }
    let d = Date { year, month, day };
    if year < 1 || month < 1 || month > 12 || day < 1 || day > days_in_month_exec(year, month) {
        return None;
    }
    Some(d)
}

/// The `YYYY-MM-DD` text of a date.
pub open spec fn iso_str(d: Date) -> Seq<char> {
    dec_str_pad(d.year as int, 4) + seq!['-'] + dec_str_pad(d.month as int, 2) + seq!['-']
        + dec_str_pad(d.day as int, 2)
}

/// The `DD.MM.YYYY` text used in report titles.
pub open spec fn dot_str(d: Date) -> Seq<char> {
    dec_str_pad(d.day as int, 2) + seq!['.'] + dec_str_pad(d.month as int, 2) + seq!['.']
        + dec_str_pad(d.year as int, 4)
}

/// The `MM-DD` text used under bar-chart columns.
pub open spec fn month_day_str(d: Date) -> Seq<char> {
    dec_str_pad(d.month as int, 2) + seq!['-'] + dec_str_pad(d.day as int, 2)
}

impl Date {
    /// Renders the date as `YYYY-MM-DD`.
    pub fn to_iso_text(&self) -> (r: String)
        requires
            self.valid(),
        ensures
            r@ == iso_str(*self),
    {
        let mut out = String::new();
        append_dec_pad(&mut out, self.year as u64, 4);
        push_char(&mut out, '-');
        append_dec_pad(&mut out, self.month as u64, 2);
        push_char(&mut out, '-');
        append_dec_pad(&mut out, self.day as u64, 2);
        proof {
            assert(out@ =~= iso_str(*self));
        }
        out
    }

    /// Renders the date as `DD.MM.YYYY`.
    pub fn to_dotted_text(&self) -> (r: String)
        requires
            self.valid(),
        ensures
            r@ == dot_str(*self),
    {
        let mut out = String::new();
        append_dec_pad(&mut out, self.day as u64, 2);
        push_char(&mut out, '.');
        append_dec_pad(&mut out, self.month as u64, 2);
        push_char(&mut out, '.');
        append_dec_pad(&mut out, self.year as u64, 4);
        proof {
            assert(out@ =~= dot_str(*self));
        }
        out
    }

    /// Renders the date as `MM-DD`.
    pub fn to_month_day_text(&self) -> (r: String)
        requires
            self.valid(),
        ensures
            r@ == month_day_str(*self),
    {
        let mut out = String::new();
        append_dec_pad(&mut out, self.month as u64, 2);
        push_char(&mut out, '-');
        append_dec_pad(&mut out, self.day as u64, 2);
        proof {
            assert(out@ =~= month_day_str(*self));
        }
        out
    }
}

} // verus!
