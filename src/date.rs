//! Calendar dates as plain values: validity, chronological order, the
//! "January 2, 2006" display layout, and the calls into chrono that parse a
//! date field or read the local calendar.
use vstd::prelude::*;
use chrono::{Datelike, TimeZone};

verus! {

/// A day of the proleptic Gregorian calendar.
#[derive(Clone, Copy, Debug, PartialEq, Eq, Structural)]
pub struct Date {
    pub year: i32,
    pub month: u32,
    pub day: u32,
}

pub open spec fn is_leap_year(y: int) -> bool {
    (y % 4 == 0 && y % 100 != 0) || y % 400 == 0
}

pub open spec fn days_in_month(y: int, m: int) -> int {
    if m == 2 {
        if is_leap_year(y) {
            29
        } else {
            28
        }
    } else if m == 4 || m == 6 || m == 9 || m == 11 {
        30
    } else {
        31
    }
}

impl Date {
    /// A real day: month 1 to 12, day within that month.
    pub open spec fn valid(self) -> bool {
        1 <= self.month <= 12 && 1 <= self.day <= days_in_month(self.year as int, self.month as int)
    }
}

/// `a` is a strictly earlier day than `b`.
pub open spec fn earlier(a: Date, b: Date) -> bool {
    ||| a.year < b.year
    ||| (a.year == b.year && a.month < b.month)
    ||| (a.year == b.year && a.month == b.month && a.day < b.day)
}

pub fn is_earlier(a: Date, b: Date) -> (r: bool)
    ensures
        r == earlier(a, b),
{
    a.year < b.year || (a.year == b.year && a.month < b.month) || (a.year == b.year && a.month
        == b.month && a.day < b.day)
}

pub open spec fn month_name(m: int) -> Seq<char> {
    if m == 1 {
        seq!['J', 'a', 'n', 'u', 'a', 'r', 'y']
    } else if m == 2 {
        seq!['F', 'e', 'b', 'r', 'u', 'a', 'r', 'y']
    } else if m == 3 {
        seq!['M', 'a', 'r', 'c', 'h']
    } else if m == 4 {
        seq!['A', 'p', 'r', 'i', 'l']
    } else if m == 5 {
        seq!['M', 'a', 'y']
    } else if m == 6 {
        seq!['J', 'u', 'n', 'e']
    } else if m == 7 {
        seq!['J', 'u', 'l', 'y']
    } else if m == 8 {
        seq!['A', 'u', 'g', 'u', 's', 't']
    } else if m == 9 {
        seq!['S', 'e', 'p', 't', 'e', 'm', 'b', 'e', 'r']
    } else if m == 10 {
        seq!['O', 'c', 't', 'o', 'b', 'e', 'r']
    } else if m == 11 {
        seq!['N', 'o', 'v', 'e', 'm', 'b', 'e', 'r']
    } else {
        seq!['D', 'e', 'c', 'e', 'm', 'b', 'e', 'r']
    }
}

pub open spec fn digits() -> Seq<char> {
    seq!['0', '1', '2', '3', '4', '5', '6', '7', '8', '9']
}

/// Decimal digits of `n`, without leading zeros.
pub open spec fn decimal(n: nat) -> Seq<char>
    decreases n,
{
    if n < 10 {
        seq![digits()[n as int]]
    } else {
        decimal(n / 10).push(digits()[(n % 10) as int])
    }
}

pub open spec fn zeros(n: nat) -> Seq<char>
    decreases n,
{
    if n == 0 {
        Seq::empty()
    } else {
        zeros((n - 1) as nat).push('0')
    }
}

/// The year with at least four digits, and a minus sign before the years
/// before 1 BC.
pub open spec fn year_text(y: int) -> Seq<char> {
    let d = if y < 0 {
        decimal((-y) as nat)
    } else {
        decimal(y as nat)
    };
    let padded = if d.len() < 4 {
        zeros((4 - d.len()) as nat) + d
    } else {
        d
    };
    if y < 0 {
        seq!['-'] + padded
    } else {
        padded
    }
}

/// The display layout "January 2, 2006": month name, day without padding,
/// comma, year.
pub open spec fn display_date(d: Date) -> Seq<char> {
    month_name(d.month as int) + seq![' '] + decimal(d.day as nat) + seq![',', ' '] + year_text(
        d.year as int,
    )
}

fn push_all(v: &mut Vec<char>, w: &[char])
    ensures
        final(v)@ == old(v)@ + w@,
{
    let mut i: usize = 0;
    while i < w.len()
        invariant
            i <= w@.len(),
            v@ == old(v)@ + w@.subrange(0, i as int),
        decreases w@.len() - i,
    {
        v.push(w[i]);
        i = i + 1;
        assert(v@ =~= old(v)@ + w@.subrange(0, i as int));
    }
    assert(w@.subrange(0, i as int) =~= w@);
}

fn push_decimal(v: &mut Vec<char>, n: u64)
    ensures
        final(v)@ == old(v)@ + decimal(n as nat),
    decreases n,
{
    let table = ['0', '1', '2', '3', '4', '5', '6', '7', '8', '9'];
    assert(table@ == digits());
    if n >= 10 {
        push_decimal(v, n / 10);
    }
    v.push(table[(n % 10) as usize]);
    assert(v@ =~= old(v)@ + decimal(n as nat));
}

fn push_month(v: &mut Vec<char>, m: u32)
    requires
        1 <= m <= 12,
    ensures
        final(v)@ == old(v)@ + month_name(m as int),
{
    if m == 1 {
        push_all(v, &['J', 'a', 'n', 'u', 'a', 'r', 'y']);
    } else if m == 2 {
        push_all(v, &['F', 'e', 'b', 'r', 'u', 'a', 'r', 'y']);
    } else if m == 3 {
        push_all(v, &['M', 'a', 'r', 'c', 'h']);
    } else if m == 4 {
        push_all(v, &['A', 'p', 'r', 'i', 'l']);
    } else if m == 5 {
        push_all(v, &['M', 'a', 'y']);
    } else if m == 6 {
        push_all(v, &['J', 'u', 'n', 'e']);
    } else if m == 7 {
        push_all(v, &['J', 'u', 'l', 'y']);
    } else if m == 8 {
        push_all(v, &['A', 'u', 'g', 'u', 's', 't']);
    } else if m == 9 {
        push_all(v, &['S', 'e', 'p', 't', 'e', 'm', 'b', 'e', 'r']);
    } else if m == 10 {
        push_all(v, &['O', 'c', 't', 'o', 'b', 'e', 'r']);
    } else if m == 11 {
        push_all(v, &['N', 'o', 'v', 'e', 'm', 'b', 'e', 'r']);
    } else {
        push_all(v, &['D', 'e', 'c', 'e', 'm', 'b', 'e', 'r']);
    }
}


fn push_zeros(v: &mut Vec<char>, n: usize)
    ensures
        final(v)@ == old(v)@ + zeros(n as nat),
{
    let mut i: usize = 0;
    while i < n
        invariant
            i <= n,
            v@ == old(v)@ + zeros(i as nat),
        decreases n - i,
    {
        v.push('0');
        i = i + 1;
        assert(v@ =~= old(v)@ + zeros(i as nat));
    }
}

/// The date in the display layout, e.g. "March 7, 2024".
pub fn format_date(d: Date) -> (r: String)
    requires
        d.valid(),
    ensures
        r@ == display_date(d),
{
    let mut v: Vec<char> = Vec::new();
    push_month(&mut v, d.month);
    v.push(' ');
    push_decimal(&mut v, d.day as u64);
    v.push(',');
    v.push(' ');
    let ghost front = v@;
    let magnitude: u64 = if d.year < 0 {
        (0 - (d.year as i64)) as u64
    } else {
        d.year as u64
    };
    let mut digits_of_year: Vec<char> = Vec::new();
    push_decimal(&mut digits_of_year, magnitude);
    if d.year < 0 {
        v.push('-');
    }
    if digits_of_year.len() < 4 {
        push_zeros(&mut v, 4 - digits_of_year.len());
    }
    push_all(&mut v, digits_of_year.as_slice());
    assert(v@ =~= front + year_text(d.year as int));
    assert(v@ =~= display_date(d));
    crate::text::string_of(&v)
}

/// Relies on chrono's `NaiveDate::parse_from_str` with the format
/// `%Y-%m-%d`: whether and how a date field parses depends on its text
/// alone, and a parsed `NaiveDate` is always a real calendar day.
#[verifier::external_body]
pub(crate) fn parse_ymd(s: &str) -> (r: Option<Date>)
    ensures
        r == parsed_date(s@),
        r matches Some(d) ==> d.valid(),
{
    match chrono::NaiveDate::parse_from_str(s, "%Y-%m-%d") {
        Ok(d) => Some(Date { year: d.year(), month: d.month(), day: d.day() }),
        Err(_) => None,
    }
}

/// What chrono makes of a date field written `YYYY-MM-DD`.
pub uninterp spec fn parsed_date(s: Seq<char>) -> Option<Date>;

/// Seconds from the Unix epoch, either way, that are always within chrono's
/// range of instants (2^40 seconds, some 34,800 years).
pub open spec fn in_time_range(secs: i64) -> bool {
    -1_099_511_627_776 <= secs <= 1_099_511_627_776
}

/// Relies on chrono's `TimeZone::timestamp_opt` for `Local`: the local
/// calendar day of an instant given in seconds since the Unix epoch. Which
/// day comes back depends on the machine's time zone, so only its validity
/// is stated; whether one comes back does not: chrono answers `None` only
/// for a second count out of its range, and `Single` otherwise.
#[verifier::external_body]
fn local_day_of(secs: i64) -> (r: Option<Date>)
    ensures
        r matches Some(d) ==> d.valid(),
        in_time_range(secs) ==> r is Some,
{
    match chrono::Local.timestamp_opt(secs, 0).single() {
        Some(t) => Some(Date { year: t.year(), month: t.month(), day: t.day() }),
        None => None,
    }
}

/// Relies on chrono's `Local::now`: today's local calendar day.
#[verifier::external_body]
fn local_today() -> (r: Date)
    ensures
        r.valid(),
{
    let t = chrono::Local::now();
    Date { year: t.year(), month: t.month(), day: t.day() }
}

/// The local calendar day of a file time given in seconds since the Unix
/// epoch; `None` only where the instant is out of chrono's range.
pub fn date_of_timestamp(secs: i64) -> (r: Option<Date>)
    ensures
        r matches Some(d) ==> d.valid(),
        in_time_range(secs) ==> r is Some,
{
    local_day_of(secs)
}

/// Today in the local time zone.
pub fn today() -> (r: Date)
    ensures
        r.valid(),
{
    local_today()
}

} // verus!
