//! The lines of the error log: a UTC timestamp computed from seconds since
//! the Unix epoch, the context and the error's text.
use vstd::prelude::*;

use crate::remote::{SshError, ssh_error_text};
use crate::text::{chars_of, decimal, decimal_string, push_char, push_chars, push_str};

verus! {

broadcast use vstd::string::group_string_axioms;

/// Whether `y` is a leap year of the Gregorian calendar.
pub open spec fn leap_year(y: nat) -> bool {
    (y % 4 == 0 && y % 100 != 0) || y % 400 == 0
}

/// The number of days in year `y`.
pub open spec fn year_length(y: nat) -> nat {
    if leap_year(y) {
        366
    } else {
        365
    }
}

/// The number of days in month `m` (0 for January).
pub open spec fn month_length(m: nat, leap: bool) -> nat {
    if m == 1 {
        if leap {
            29
        } else {
            28
        }
    } else if m == 3 || m == 5 || m == 8 || m == 10 {
        30
    } else {
        31
    }
}

/// Counting `days` from the first day of `year`: the year reached and the
/// days left into it.
pub open spec fn year_and_rest(days: nat, year: nat) -> (nat, nat)
    decreases days,
{
    if days < year_length(year) {
        (year, days)
    } else {
        year_and_rest((days - year_length(year)) as nat, year + 1)
    }
}

/// Counting `days` from the first day of month `m`: the month reached (0
/// for January, 12 when past December) and the days left into it.
pub open spec fn month_and_rest(days: nat, m: nat, leap: bool) -> (nat, nat)
    decreases 12 - m,
{
    if m >= 12 || days < month_length(m, leap) {
        (m, days)
    } else {
        month_and_rest((days - month_length(m, leap)) as nat, m + 1, leap)
    }
}

/// The date `(year, month, day)` that lies `days` days after 1970-01-01,
/// months and days counted from 1.
pub open spec fn civil_date(days: nat) -> (nat, nat, nat) {
    let (y, r) = year_and_rest(days, 1970);
    let (m, d) = month_and_rest(r, 0, leap_year(y));
    (y, m + 1, d + 1)
}

/// Check if a year is a leap year.
pub fn is_leap_year(year: u64) -> (r: bool)
    ensures
        r == leap_year(year as nat),
{
    (year % 4 == 0 && year % 100 != 0) || (year % 400 == 0)
}

/// The number of days in year `year`.
fn year_days(year: u64) -> (r: u64)
    ensures
        r == year_length(year as nat),
{
    if is_leap_year(year) {
        366
    } else {
        365
    }
}

/// The number of days in month `m` (0 for January).
fn month_days(m: u64, leap: bool) -> (r: u64)
    ensures
        r == month_length(m as nat, leap),
{
    if m == 1 {
        if leap {
            29
        } else {
            28
        }
    } else if m == 3 || m == 5 || m == 8 || m == 10 {
        30
    } else {
        31
    }
}

/// Convert days since Unix epoch to (year, month, day).
pub fn days_to_date(days: u64) -> (r: (u64, u64, u64))
    ensures
        (r.0 as nat, r.1 as nat, r.2 as nat) == civil_date(days as nat),
{
    let mut rest = days;
    let mut year: u64 = 1970;
    while rest >= year_days(year)
        invariant
            1970 <= year,
            (year - 1970) * 365 + rest <= days,
            year_and_rest(days as nat, 1970) == year_and_rest(rest as nat, year as nat),
        decreases rest,
    {
        rest = rest - year_days(year);
        year = year + 1;
    }
    let leap = is_leap_year(year);
    proof {
        lemma_year_rest_bound(days as nat, 1970);
    }
    let mut month: u64 = 0;
    while month < 12 && rest >= month_days(month, leap)
        invariant
            month <= 12,
            rest < 366,
            month_and_rest(year_and_rest(days as nat, 1970).1, 0, leap) == month_and_rest(
                rest as nat,
                month as nat,
                leap,
            ),
            year_and_rest(days as nat, 1970).0 == year,
            leap == leap_year(year as nat),
        decreases 12 - month,
    {
        rest = rest - month_days(month, leap);
        month = month + 1;
    }
    (year, month + 1, rest + 1)
}

/// Every day count gives a true calendar date: the month lies between
/// January and December and the day within that month.
pub proof fn law_civil_date_valid(days: nat)
    ensures
        ({
            let (y, m, d) = civil_date(days);
            1 <= m <= 12 && 1 <= d <= month_length((m - 1) as nat, leap_year(y))
        }),
{
    lemma_year_rest_bound(days, 1970);
    let (y, r) = year_and_rest(days, 1970);
    assert(days_from_month(0, leap_year(y)) == year_length(y)) by {
        reveal_with_fuel(days_from_month, 13);
    }
    lemma_month_rest_bound(r, 0, leap_year(y));
}

/// The days left into the year reached are fewer than that year has.
proof fn lemma_year_rest_bound(days: nat, year: nat)
    ensures
        year_and_rest(days, year).1 < year_length(year_and_rest(days, year).0),
    decreases days,
{
    if days >= year_length(year) {
        lemma_year_rest_bound((days - year_length(year)) as nat, year + 1);
    }
}

/// The days in months `m` to December.
pub open spec fn days_from_month(m: nat, leap: bool) -> nat
    decreases 12 - m,
{
    if m >= 12 {
        0
    } else {
        month_length(m, leap) + days_from_month(m + 1, leap)
    }
}

/// Fewer days than remain in the year always end inside a month.
proof fn lemma_month_rest_bound(days: nat, m: nat, leap: bool)
    requires
        m <= 12,
        days < days_from_month(m, leap),
    ensures
        month_and_rest(days, m, leap).0 < 12,
        month_and_rest(days, m, leap).1 < month_length(month_and_rest(days, m, leap).0, leap),
    decreases 12 - m,
{
    if m < 12 && days >= month_length(m, leap) {
        lemma_month_rest_bound((days - month_length(m, leap)) as nat, m + 1, leap);
    }
}

/// `n` in decimal, padded with leading zeros to `w` digits.
pub open spec fn padded(n: nat, w: nat) -> Seq<char> {
    let d = decimal(n);
    if d.len() >= w {
        d
    } else {
        Seq::new((w - d.len()) as nat, |i: int| '0') + d
    }
}

/// Appends `n` in decimal, padded with leading zeros to `w` digits.
fn push_padded(s: &mut String, n: u64, w: usize)
    ensures
        final(s)@ == old(s)@ + padded(n as nat, w as nat),
{
    let d = decimal_string(n as u128);
    let dv = chars_of(d.as_str());
    if dv.len() < w {
        let k = w - dv.len();
        let mut i: usize = 0;
        while i < k
            invariant
                i <= k,
                s@ == old(s)@ + Seq::new(i as nat, |j: int| '0'),
            decreases k - i,
        {
            push_char(s, '0');
            assert(Seq::new((i + 1) as nat, |j: int| '0') == Seq::new(i as nat, |j: int| '0').push(
                '0',
            ));
            i = i + 1;
        }
    }
    push_chars(s, dv.as_slice());
}

/// The UTC timestamp `YYYY-MM-DDTHH:MM:SSZ` of `secs` seconds after the
/// Unix epoch.
pub open spec fn timestamp_text(secs: nat) -> Seq<char> {
    let (y, mo, d) = civil_date(secs / 86400);
    let t = secs % 86400;
    padded(y, 4) + seq!['-'] + padded(mo, 2) + seq!['-'] + padded(d, 2) + seq!['T'] + padded(
        t / 3600,
        2,
    ) + seq![':'] + padded((t % 3600) / 60, 2) + seq![':'] + padded(t % 60, 2) + seq!['Z']
}

/// The UTC timestamp `YYYY-MM-DDTHH:MM:SSZ` of `secs` seconds after the
/// Unix epoch.
pub fn utc_timestamp(secs: u64) -> (r: String)
    ensures
        r@ == timestamp_text(secs as nat),
{
    let days = secs / 86400;
    let time_of_day = secs % 86400;
    let hours = time_of_day / 3600;
    let minutes = (time_of_day % 3600) / 60;
    let seconds = time_of_day % 60;
    let (year, month, day) = days_to_date(days);
    let mut r = String::new();
    push_padded(&mut r, year, 4);
    push_char(&mut r, '-');
    push_padded(&mut r, month, 2);
    push_char(&mut r, '-');
    push_padded(&mut r, day, 2);
    push_char(&mut r, 'T');
    push_padded(&mut r, hours, 2);
    push_char(&mut r, ':');
    push_padded(&mut r, minutes, 2);
    push_char(&mut r, ':');
    push_padded(&mut r, seconds, 2);
    push_char(&mut r, 'Z');
    r
}

/// The log line for `error` met in `context`, `secs` seconds after the
/// Unix epoch.
pub open spec fn log_line_text(secs: nat, context: Seq<char>, error: SshError) -> Seq<char> {
    seq!['['] + timestamp_text(secs) + seq![']', ' '] + context + seq![':', ' '] + ssh_error_text(
        error,
    )
}

/// The line appended to the error log for `error` met in `context`.
pub fn log_line(secs: u64, context: &str, error: &SshError) -> (r: String)
    ensures
        r@ == log_line_text(secs as nat, context@, *error),
{
    let mut r = String::new();
    push_char(&mut r, '[');
    let ts = utc_timestamp(secs);
    push_str(&mut r, ts.as_str());
    push_char(&mut r, ']');
    push_char(&mut r, ' ');
    push_str(&mut r, context);
    push_char(&mut r, ':');
    push_char(&mut r, ' ');
    let m = error.message();
    push_str(&mut r, m.as_str());
    r
}

} // verus!
