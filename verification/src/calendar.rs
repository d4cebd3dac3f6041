//! Dates and UTC timestamps: seconds since the Unix epoch, written and read as
//! `2026-08-08T15:56:53Z`.

use vstd::prelude::*;

use crate::numbers;
use crate::numbers::{parse_signed, push_padded};
use crate::text;
use crate::text::to_chars;

verus! {

/// Seconds in a day.
pub const DAY: u64 = 86400;

/// Whether `y` is a leap year of the Gregorian calendar.
pub open spec fn leap(y: int) -> bool {
    y % 4 == 0 && (y % 100 != 0 || y % 400 == 0)
}

/// The days of the year `y`.
pub open spec fn year_len(y: int) -> int {
    if leap(y) {
        366
    } else {
        365
    }
}

/// The days of the month `m` of the year `y`; January is 1.
pub open spec fn month_len(y: int, m: int) -> int {
    if m == 2 {
        if leap(y) {
            29
        } else {
            28
        }
    } else if m == 4 || m == 6 || m == 9 || m == 11 {
        30
    } else {
        31
    }
}

/// The days from the start of 1970 to the start of `y`.
pub open spec fn days_before_year(y: int) -> int
    decreases y - 1970,
{
    if y <= 1970 {
        0
    } else {
        days_before_year(y - 1) + year_len(y - 1)
    }
}

/// The days from the start of `y` to the start of its month `m`.
pub open spec fn days_before_month(y: int, m: int) -> int
    decreases m,
{
    if m <= 1 {
        0
    } else {
        days_before_month(y, m - 1) + month_len(y, m - 1)
    }
}

/// Whether there is such a day, at or after the epoch.
pub open spec fn valid_date(y: int, m: int, d: int) -> bool {
    &&& 1970 <= y
    &&& 1 <= m <= 12
    &&& 1 <= d <= month_len(y, m)
}

/// The days from the epoch to a date.
pub open spec fn day_index(y: int, m: int, d: int) -> int {
    days_before_year(y) + days_before_month(y, m) + d - 1
}

/// The date, as year, month and day, that comes `days` days after the epoch.
pub open spec fn date_of(days: int) -> (int, int, int) {
    choose|date: (int, int, int)|
        valid_date(date.0, date.1, date.2) && #[trigger] day_index(date.0, date.1, date.2) == days
}

/// A date and a time of day as text.
pub open spec fn stamp(y: int, m: int, d: int, hour: int, minute: int, second: int) -> Seq<char> {
    numbers::padded(y as nat, 4).push('-') + numbers::padded(m as nat, 2).push('-') + numbers::padded(d as nat, 2).push('T')
        + numbers::padded(hour as nat, 2).push(':') + numbers::padded(minute as nat, 2).push(':') + numbers::padded(
        second as nat,
        2,
    ).push('Z')
}

/// The moment `secs` seconds after the epoch as text.
pub open spec fn humanized(secs: int) -> Seq<char> {
    let (y, m, d) = date_of(secs / 86400);
    stamp(y, m, d, secs % 86400 / 3600, secs % 86400 % 3600 / 60, secs % 86400 % 60)
}

/// Twelve months make a year.
proof fn lemma_year_is_twelve_months(y: int)
    ensures
        days_before_month(y, 12) + month_len(y, 12) == year_len(y),
{
    reveal_with_fuel(days_before_month, 13);
}

/// The start of a later year is no earlier than the start of the year after `y`.
proof fn lemma_later_year(y: int, later: int)
    requires
        1970 <= y < later,
    ensures
        days_before_year(y) + year_len(y) <= days_before_year(later),
    decreases later - y,
{
    if later > y + 1 {
        lemma_later_year(y, later - 1);
    }
}

/// The start of a later month is no earlier than the start of the month after `m`.
proof fn lemma_later_month(y: int, m: int, later: int)
    requires
        1 <= m < later,
    ensures
        days_before_month(y, m) + month_len(y, m) <= days_before_month(y, later),
    decreases later - m,
{
    if later > m + 1 {
        lemma_later_month(y, m, later - 1);
    }
}

/// A date's day falls inside its year.
proof fn lemma_date_inside_year(y: int, m: int, d: int)
    requires
        valid_date(y, m, d),
    ensures
        0 <= days_before_month(y, m) + d - 1 < year_len(y),
        0 <= days_before_month(y, m),
{
    lemma_year_is_twelve_months(y);
    if m < 12 {
        lemma_later_month(y, m, 12);
    }
    if m > 1 {
        lemma_later_month(y, 1, m);
    }
}

/// No two dates are equally many days after the epoch.
pub proof fn lemma_day_index_injective(y: int, m: int, d: int, y2: int, m2: int, d2: int)
    requires
        valid_date(y, m, d),
        valid_date(y2, m2, d2),
        day_index(y, m, d) == day_index(y2, m2, d2),
    ensures
        y == y2,
        m == m2,
        d == d2,
{
    lemma_date_inside_year(y, m, d);
    lemma_date_inside_year(y2, m2, d2);
    if y < y2 {
        lemma_later_year(y, y2);
    } else if y2 < y {
        lemma_later_year(y2, y);
    } else if m < m2 {
        lemma_later_month(y, m, m2);
    } else if m2 < m {
        lemma_later_month(y, m2, m);
    }
}

/// A date that comes `days` days after the epoch.
proof fn lemma_date_exists(days: int) -> (date: (int, int, int))
    requires
        0 <= days,
    ensures
        valid_date(date.0, date.1, date.2),
        day_index(date.0, date.1, date.2) == days,
    decreases days,
{
    if days == 0 {
        (1970, 1, 1)
    } else {
        let (y, m, d) = lemma_date_exists(days - 1);
        if d < month_len(y, m) {
            (y, m, d + 1)
        } else if m < 12 {
            (y, m + 1, 1)
        } else {
            lemma_year_is_twelve_months(y);
            (y + 1, 1, 1)
        }
    }
}

/// Every day from the epoch on has exactly one date.
pub proof fn lemma_date_of(days: int)
    requires
        0 <= days,
    ensures
        valid_date(date_of(days).0, date_of(days).1, date_of(days).2),
        day_index(date_of(days).0, date_of(days).1, date_of(days).2) == days,
{
    let date = lemma_date_exists(days);
    assert(valid_date(date.0, date.1, date.2) && day_index(date.0, date.1, date.2) == days);
}

/// The days of a month.
fn days_in_month(y: u64, m: u64) -> (len: u64)
    ensures
        len == month_len(y as int, m as int),
{
    if m == 2 {
        if y % 4 == 0 && (y % 100 != 0 || y % 400 == 0) {
            29
        } else {
            28
        }
    } else if m == 4 || m == 6 || m == 9 || m == 11 {
        30
    } else {
        31
    }
}

/// The moment `secs` seconds after the epoch, in UTC.
pub fn humanize_timestamp(secs: u64) -> (written: String)
    ensures
        written@ == humanized(secs as int),
{
    let days: u64 = secs / DAY;
    let time: u64 = secs % DAY;
    let mut y: u64 = 1970;
    let mut rest: u64 = days;
    loop
        invariant
            1970 <= y,
            days <= u64::MAX / 2,
            days_before_year(y as int) + rest == days,
            y - 1970 <= days - rest,
        ensures
            days_before_year(y as int) + rest == days,
            rest < year_len(y as int),
            1970 <= y,
        decreases rest,
    {
        let len: u64 = if y % 4 == 0 && (y % 100 != 0 || y % 400 == 0) {
            366
        } else {
            365
        };
        if rest < len {
            break;
        }
        rest = rest - len;
        y = y + 1;
    }
    let mut m: u64 = 1;
    let ghost day_of_year = rest;
    loop
        invariant
            1 <= m <= 12,
            days_before_month(y as int, m as int) + rest == day_of_year,
            day_of_year < year_len(y as int),
        ensures
            1 <= m <= 12,
            days_before_month(y as int, m as int) + rest == day_of_year,
            rest < month_len(y as int, m as int),
        decreases rest,
    {
        let len: u64 = days_in_month(y, m);
        if rest < len {
            break;
        }
        proof {
            lemma_year_is_twelve_months(y as int);
        }
        rest = rest - len;
        m = m + 1;
    }
    let d: u64 = rest + 1;
    proof {
        lemma_date_of(days as int);
        let date = date_of(days as int);
        lemma_day_index_injective(y as int, m as int, d as int, date.0, date.1, date.2);
    }
    let mut written = String::new();
    push_padded(&mut written, y, 4);
    written.push('-');
    push_padded(&mut written, m, 2);
    written.push('-');
    push_padded(&mut written, d, 2);
    written.push('T');
    push_padded(&mut written, time / 3600, 2);
    written.push(':');
    push_padded(&mut written, time % 3600 / 60, 2);
    written.push(':');
    push_padded(&mut written, time % 60, 2);
    written.push('Z');
    proof {
        assert(written@ =~= stamp(
            y as int,
            m as int,
            d as int,
            time as int / 3600,
            time as int % 3600 / 60,
            time as int % 60,
        ));
    }
    written
}

/// The days from the epoch to a date, by a formula that also takes months and days that no
/// calendar has: years run from March, in eras of 400.
pub open spec fn day_number(y: int, m: int, d: int) -> int {
    let from_march = if m <= 2 {
        y - 1
    } else {
        y
    };
    let era = from_march / 400;
    let year_of_era = from_march % 400;
    let day_of_year = (153 * ((m + 9) % 12) + 2) / 5 + d - 1;
    era * 146097 + year_of_era * 365 + year_of_era / 4 - year_of_era / 100 + day_of_year - 719468
}

/// The seconds from the epoch that a date and a time of day come to.
pub open spec fn epoch_seconds(
    y: int,
    m: int,
    d: int,
    hour: int,
    minute: int,
    second: int,
) -> int {
    day_number(y, m, d) * 86400 + hour * 3600 + minute * 60 + second
}

/// Whether `c` is an ASCII character.
pub open spec fn ascii(c: char) -> bool {
    c <= '\u{7f}'
}

/// The seconds from the epoch that a timestamp text stands for. The year, month, day, hour, minute
/// and second stand at fixed places; what comes after the seconds is not read.
pub open spec fn timestamp_of(s: Seq<char>) -> Option<int> {
    if s.len() < 19 || s[4] != '-' || s[7] != '-' || s[10] != 'T' || !ascii(s[13]) || !ascii(
        s[16],
    ) {
        None
    } else {
        match (
            numbers::signed_of(s.subrange(0, 4)),
            numbers::signed_of(s.subrange(5, 7)),
            numbers::signed_of(s.subrange(8, 10)),
            numbers::signed_of(s.subrange(11, 13)),
            numbers::signed_of(s.subrange(14, 16)),
            numbers::signed_of(s.subrange(17, 19)),
        ) {
            (Some(y), Some(m), Some(d), Some(hour), Some(minute), Some(second)) => {
                let total = epoch_seconds(y, m, d, hour, minute, second);
                if total < 0 {
                    None
                } else {
                    Some(total)
                }
            },
            _ => None,
        }
    }
}

/// Whether `c` is an ASCII character.
fn is_ascii_char(c: char) -> (plain: bool)
    ensures
        plain == ascii(c),
{
    c as u32 <= 0x7f
}

/// The seconds from the epoch that `text` stands for, if it is a timestamp at or after the epoch.
pub fn parse_timestamp(text: &str) -> (secs: Option<u64>)
    ensures
        match timestamp_of(text@) {
            Some(total) => secs matches Some(n) && n == total,
            None => secs is None,
        },
        secs matches Some(n) ==> n <= i64::MAX,
{
    let c = to_chars(text);
    if c.len() < 19 || c[4] != '-' || c[7] != '-' || c[10] != 'T' || !is_ascii_char(c[13])
        || !is_ascii_char(c[16]) {
        return None;
    }
    let (y, m, d, hour, minute, second) = match (
        parse_signed(&c, 0, 4),
        parse_signed(&c, 5, 7),
        parse_signed(&c, 8, 10),
        parse_signed(&c, 11, 13),
        parse_signed(&c, 14, 16),
        parse_signed(&c, 17, 19),
    ) {
        (Some(y), Some(m), Some(d), Some(hour), Some(minute), Some(second)) => (
            y,
            m,
            d,
            hour,
            minute,
            second,
        ),
        _ => return None,
    };
    let from_march: i64 = if m <= 2 {
        y - 1
    } else {
        y
    };
    let era: i64 = if from_march >= 0 {
        from_march / 400
    } else {
        -((399 - from_march) / 400)
    };
    let year_of_era: i64 = from_march - era * 400;
    let day_of_year: i64 = (153 * ((m + 9) % 12) + 2) / 5 + d - 1;
    let days: i64 = era * 146097 + year_of_era * 365 + year_of_era / 4 - year_of_era / 100
        + day_of_year - 719468;
    proof {
        assert(era == from_march as int / 400);
        assert(days == day_number(y as int, m as int, d as int));
    }
    let total: i64 = days * 86400 + hour * 3600 + minute * 60 + second;
    if total < 0 {
        None
    } else {
        Some(total as u64)
    }
}

/// Leap years from the year 1 up to and including `y`.
spec fn leap_years(y: int) -> int {
    y / 4 - y / 100 + y / 400
}

/// A year is 365 days and one more for each leap year.
proof fn lemma_year_start(y: int)
    requires
        1970 <= y,
    ensures
        days_before_year(y) == (y - 1970) * 365 + leap_years(y - 1) - leap_years(1969),
    decreases y,
{
    if y > 1970 {
        lemma_year_start(y - 1);
    }
}

/// On the days that the calendar has, the formula counts the days from the epoch.
pub proof fn lemma_day_number(y: int, m: int, d: int)
    requires
        valid_date(y, m, d),
    ensures
        day_number(y, m, d) == day_index(y, m, d),
{
    lemma_year_start(y);
    reveal_with_fuel(days_before_month, 13);
    let from_march = if m <= 2 {
        y - 1
    } else {
        y
    };
    let era = from_march / 400;
    let year_of_era = from_march % 400;
    assert(from_march / 4 == era * 100 + year_of_era / 4);
    assert(from_march / 100 == era * 4 + year_of_era / 100);
    assert(era * 146097 + year_of_era * 365 + year_of_era / 4 - year_of_era / 100 == from_march
        * 365 + leap_years(from_march));
}

/// A number written with leading zeros reads back as itself.
proof fn lemma_padded_field(n: int, width: nat)
    requires
        0 <= n,
        width == 2 && n < 100 || width == 4 && n < 10000,
    ensures
        numbers::padded(n as nat, width).len() == width,
        numbers::signed_of(numbers::padded(n as nat, width)) == Some(n),
{
    numbers::lemma_padded_reads_back(n as nat, width);
    numbers::lemma_decimal_len(n as nat);
    assert(numbers::is_digit(numbers::padded(n as nat, width)[0]));
}

/// Reading a written date and time gives the seconds from the epoch that they come to.
pub proof fn lemma_stamp_reads_back(
    y: int,
    m: int,
    d: int,
    hour: int,
    minute: int,
    second: int,
)
    requires
        valid_date(y, m, d),
        y <= 9999,
        0 <= hour < 24,
        0 <= minute < 60,
        0 <= second < 60,
    ensures
        timestamp_of(stamp(y, m, d, hour, minute, second)) == Some(
            day_index(y, m, d) * 86400 + hour * 3600 + minute * 60 + second,
        ),
{
    let s = stamp(y, m, d, hour, minute, second);
    lemma_padded_field(y, 4);
    lemma_padded_field(m, 2);
    lemma_padded_field(d, 2);
    lemma_padded_field(hour, 2);
    lemma_padded_field(minute, 2);
    lemma_padded_field(second, 2);
    assert(s.subrange(0, 4) =~= numbers::padded(y as nat, 4));
    assert(s.subrange(5, 7) =~= numbers::padded(m as nat, 2));
    assert(s.subrange(8, 10) =~= numbers::padded(d as nat, 2));
    assert(s.subrange(11, 13) =~= numbers::padded(hour as nat, 2));
    assert(s.subrange(14, 16) =~= numbers::padded(minute as nat, 2));
    assert(s.subrange(17, 19) =~= numbers::padded(second as nat, 2));
    lemma_day_number(y, m, d);
    lemma_date_inside_year(y, m, d);
    if y > 1970 {
        lemma_later_year(1970, y);
    }
}

/// The seconds of a day are its hours, minutes and seconds.
proof fn lemma_time_of_day(t: int)
    requires
        0 <= t < 86400,
    ensures
        t == t / 3600 * 3600 + t % 3600 / 60 * 60 + t % 60,
        0 <= t / 3600 < 24,
        0 <= t % 3600 / 60 < 60,
{
}

/// Writing a moment of a year up to 9999 and reading it back gives the same moment.
#[verifier::spinoff_prover]
pub proof fn lemma_timestamp_round_trip(secs: int)
    requires
        0 <= secs,
        date_of(secs / 86400).0 <= 9999,
    ensures
        timestamp_of(humanized(secs)) == Some(secs),
{
    let day = secs / 86400;
    let t = secs % 86400;
    let (y, m, d) = date_of(day);
    lemma_time_of_day(t);
    assert(valid_date(y, m, d) && day_index(y, m, d) == day) by {
        lemma_date_of(day);
    }
    let written = stamp(y, m, d, t / 3600, t % 3600 / 60, t % 60);
    assert(humanized(secs) == written);
    let total = day * 86400 + t / 3600 * 3600 + t % 3600 / 60 * 60 + t % 60;
    assert(timestamp_of(written) == Some(total)) by {
        lemma_stamp_reads_back(y, m, d, t / 3600, t % 3600 / 60, t % 60);
    }
    assert(total == secs);
}

/// Two moments that are written alike are the same moment, up to the year 9999.
pub proof fn lemma_humanized_injective(a: int, b: int)
    requires
        0 <= a,
        0 <= b,
        date_of(a / 86400).0 <= 9999,
        date_of(b / 86400).0 <= 9999,
        humanized(a) == humanized(b),
    ensures
        a == b,
{
    lemma_timestamp_round_trip(a);
    lemma_timestamp_round_trip(b);
}

/// The seconds after the epoch at which the year 10000 begins.
pub const YEAR_10000: u64 = 253_402_300_800;

/// Before the year 10000 begins, the year has four digits.
proof fn lemma_four_digit_year(days: int)
    requires
        0 <= days < 2_932_897,
    ensures
        1970 <= date_of(days).0 <= 9999,
{
    lemma_date_of(days);
    let (y, m, d) = date_of(days);
    lemma_date_inside_year(y, m, d);
    lemma_year_start(10000);
    if y > 10000 {
        lemma_later_year(10000, y);
    }
}

/// Where the fields of a written moment stand and what stands between them.
proof fn lemma_stamp_layout(y: int, m: int, d: int, hour: int, minute: int, second: int)
    requires
        valid_date(y, m, d),
        y <= 9999,
        0 <= hour < 24,
        0 <= minute < 60,
        0 <= second < 60,
    ensures
        ({
            let s = stamp(y, m, d, hour, minute, second);
            &&& s.len() == 20
            &&& s.subrange(0, 4) == numbers::padded(y as nat, 4)
            &&& s.subrange(5, 7) == numbers::padded(m as nat, 2)
            &&& s.subrange(8, 10) == numbers::padded(d as nat, 2)
            &&& s.subrange(11, 13) == numbers::padded(hour as nat, 2)
            &&& s.subrange(14, 16) == numbers::padded(minute as nat, 2)
            &&& s.subrange(17, 19) == numbers::padded(second as nat, 2)
            &&& s[4] == '-' && s[7] == '-' && s[10] == 'T' && s[13] == ':' && s[16] == ':'
                && s[19] == 'Z'
        }),
{
    let s = stamp(y, m, d, hour, minute, second);
    lemma_padded_field(y, 4);
    lemma_padded_field(m, 2);
    lemma_padded_field(d, 2);
    lemma_padded_field(hour, 2);
    lemma_padded_field(minute, 2);
    lemma_padded_field(second, 2);
    assert(s.subrange(0, 4) =~= numbers::padded(y as nat, 4));
    assert(s.subrange(5, 7) =~= numbers::padded(m as nat, 2));
    assert(s.subrange(8, 10) =~= numbers::padded(d as nat, 2));
    assert(s.subrange(11, 13) =~= numbers::padded(hour as nat, 2));
    assert(s.subrange(14, 16) =~= numbers::padded(minute as nat, 2));
    assert(s.subrange(17, 19) =~= numbers::padded(second as nat, 2));
}

/// Of two texts that agree up to a field, that with the smaller number in the field comes first.
proof fn lemma_field_order(s: Seq<char>, t: Seq<char>, from: int, width: nat, n: nat, m: nat)
    requires
        s.len() == t.len(),
        0 <= from,
        from + width <= s.len(),
        forall|j: int| 0 <= j < from ==> s[j] == t[j],
        s.subrange(from, from + width) == numbers::padded(n, width),
        t.subrange(from, from + width) == numbers::padded(m, width),
        n < m,
    ensures
        text::sorts_before(s, t),
{
    let a = numbers::padded(n, width);
    let b = numbers::padded(m, width);
    numbers::lemma_padded_reads_back(n, width);
    numbers::lemma_padded_reads_back(m, width);
    let at = numbers::lemma_value_order(a, b);
    assert(s[from + at] == a[at] && t[from + at] == b[at]);
    assert forall|j: int| 0 <= j < from + at implies s[j] == t[j] by {
        if j >= from {
            assert(s[j] == a[j - from] && t[j] == b[j - from]);
        }
    }
    assert(text::smaller_at(s, t, from + at));
}

/// Texts of the same length that have the same fields, and the same between them, up to `to` agree
/// up to there.
proof fn lemma_same_field(s: Seq<char>, t: Seq<char>, from: int, to: int)
    requires
        s.len() == t.len(),
        0 <= from < to < s.len(),
        forall|j: int| 0 <= j < from ==> s[j] == t[j],
        s.subrange(from, to) == t.subrange(from, to),
        s[to] == t[to],
    ensures
        forall|j: int| 0 <= j < to + 1 ==> s[j] == t[j],
{
    assert forall|j: int| 0 <= j < to + 1 implies s[j] == t[j] by {
        if from <= j < to {
            assert(s[j] == s.subrange(from, to)[j - from]);
            assert(t[j] == t.subrange(from, to)[j - from]);
        }
    }
}

/// A later day has a later date: by year, then by month, then by day.
proof fn lemma_later_date(y: int, m: int, d: int, y2: int, m2: int, d2: int)
    requires
        valid_date(y, m, d),
        valid_date(y2, m2, d2),
        day_index(y, m, d) < day_index(y2, m2, d2),
    ensures
        y < y2 || (y == y2 && m < m2) || (y == y2 && m == m2 && d < d2),
{
    lemma_date_inside_year(y, m, d);
    lemma_date_inside_year(y2, m2, d2);
    if y2 < y {
        lemma_later_year(y2, y);
    } else if y == y2 && m2 < m {
        lemma_later_month(y, m2, m);
    }
}

/// Of two written moments of which the first has the earlier date and time, field by field, the
/// first comes first in the order of texts.
proof fn lemma_stamp_order(
    a: (int, int, int, int, int, int),
    b: (int, int, int, int, int, int),
)
    requires
        valid_date(a.0, a.1, a.2),
        valid_date(b.0, b.1, b.2),
        a.0 <= 9999,
        b.0 <= 9999,
        0 <= a.3 < 24,
        0 <= b.3 < 24,
        0 <= a.4 < 60,
        0 <= b.4 < 60,
        0 <= a.5 < 60,
        0 <= b.5 < 60,
        a.0 <= b.0,
        a.0 == b.0 ==> a.1 <= b.1,
        a.0 == b.0 && a.1 == b.1 ==> a.2 <= b.2,
        a.0 == b.0 && a.1 == b.1 && a.2 == b.2 ==> a.3 <= b.3,
        a.0 == b.0 && a.1 == b.1 && a.2 == b.2 && a.3 == b.3 ==> a.4 <= b.4,
        a.0 == b.0 && a.1 == b.1 && a.2 == b.2 && a.3 == b.3 && a.4 == b.4 ==> a.5 < b.5,
    ensures
        text::sorts_before(
            stamp(a.0, a.1, a.2, a.3, a.4, a.5),
            stamp(b.0, b.1, b.2, b.3, b.4, b.5),
        ),
{
    let s = stamp(a.0, a.1, a.2, a.3, a.4, a.5);
    let t = stamp(b.0, b.1, b.2, b.3, b.4, b.5);
    lemma_stamp_layout(a.0, a.1, a.2, a.3, a.4, a.5);
    lemma_stamp_layout(b.0, b.1, b.2, b.3, b.4, b.5);
    if a.0 < b.0 {
        lemma_field_order(s, t, 0, 4, a.0 as nat, b.0 as nat);
    } else {
        lemma_same_field(s, t, 0, 4);
        if a.1 < b.1 {
            lemma_field_order(s, t, 5, 2, a.1 as nat, b.1 as nat);
        } else {
            lemma_same_field(s, t, 5, 7);
            if a.2 < b.2 {
                lemma_field_order(s, t, 8, 2, a.2 as nat, b.2 as nat);
            } else {
                lemma_same_field(s, t, 8, 10);
                if a.3 < b.3 {
                    lemma_field_order(s, t, 11, 2, a.3 as nat, b.3 as nat);
                } else {
                    lemma_same_field(s, t, 11, 13);
                    if a.4 < b.4 {
                        lemma_field_order(s, t, 14, 2, a.4 as nat, b.4 as nat);
                    } else {
                        lemma_same_field(s, t, 14, 16);
                        lemma_field_order(s, t, 17, 2, a.5 as nat, b.5 as nat);
                    }
                }
            }
        }
    }
}

/// A moment before the year 10000 is written in 20 characters, one byte each, as
/// `YYYY-MM-DDThh:mm:ssZ`, with a month that there is, a day that the month has, and an hour, a
/// minute and a second that there are.
pub proof fn lemma_humanized_form(secs: int)
    requires
        0 <= secs < YEAR_10000,
    ensures
        ({
            let s = humanized(secs);
            &&& s.len() == 20
            &&& text::size(s) == 20
            &&& s[4] == '-' && s[7] == '-' && s[10] == 'T' && s[13] == ':' && s[16] == ':'
                && s[19] == 'Z'
            &&& numbers::all_digits(s.subrange(0, 4)) && numbers::all_digits(s.subrange(5, 7))
            &&& numbers::all_digits(s.subrange(8, 10)) && numbers::all_digits(s.subrange(11, 13))
            &&& numbers::all_digits(s.subrange(14, 16)) && numbers::all_digits(s.subrange(17, 19))
            &&& 1970 <= numbers::value_of(s.subrange(0, 4)) <= 9999
            &&& 1 <= numbers::value_of(s.subrange(5, 7)) <= 12
            &&& 1 <= numbers::value_of(s.subrange(8, 10)) <= month_len(
                numbers::value_of(s.subrange(0, 4)) as int,
                numbers::value_of(s.subrange(5, 7)) as int,
            )
            &&& numbers::value_of(s.subrange(11, 13)) <= 23
            &&& numbers::value_of(s.subrange(14, 16)) <= 59
            &&& numbers::value_of(s.subrange(17, 19)) <= 59
        }),
{
    let t = secs % 86400;
    let (y, m, d) = date_of(secs / 86400);
    lemma_date_of(secs / 86400);
    lemma_four_digit_year(secs / 86400);
    lemma_time_of_day(t);
    let s = humanized(secs);
    lemma_stamp_layout(y, m, d, t / 3600, t % 3600 / 60, t % 60);
    numbers::lemma_padded_reads_back(y as nat, 4);
    numbers::lemma_padded_reads_back(m as nat, 2);
    numbers::lemma_padded_reads_back(d as nat, 2);
    numbers::lemma_padded_reads_back((t / 3600) as nat, 2);
    numbers::lemma_padded_reads_back((t % 3600 / 60) as nat, 2);
    numbers::lemma_padded_reads_back((t % 60) as nat, 2);
    assert forall|i: int| 0 <= i < 20 implies (#[trigger] s[i]) as u32 <= 0x7f by {
        if i < 4 {
            assert(numbers::is_digit(s.subrange(0, 4)[i]));
        } else if 5 <= i < 7 {
            assert(numbers::is_digit(s.subrange(5, 7)[i - 5]));
        } else if 8 <= i < 10 {
            assert(numbers::is_digit(s.subrange(8, 10)[i - 8]));
        } else if 11 <= i < 13 {
            assert(numbers::is_digit(s.subrange(11, 13)[i - 11]));
        } else if 14 <= i < 16 {
            assert(numbers::is_digit(s.subrange(14, 16)[i - 14]));
        } else if 17 <= i < 19 {
            assert(numbers::is_digit(s.subrange(17, 19)[i - 17]));
        }
    }
    text::lemma_ascii_size(s);
}

/// Before the year 10000, a later moment is written as a text that comes later, and only the same
/// moment is written as the same text.
pub proof fn lemma_humanized_order(a: int, b: int)
    requires
        0 <= a <= b < YEAR_10000,
    ensures
        a < b ==> text::sorts_before(humanized(a), humanized(b)),
        a == b <==> humanized(a) == humanized(b),
{
    let u = a % 86400;
    let v = b % 86400;
    let (y, m, d) = date_of(a / 86400);
    let (y2, m2, d2) = date_of(b / 86400);
    lemma_date_of(a / 86400);
    lemma_date_of(b / 86400);
    lemma_four_digit_year(a / 86400);
    lemma_four_digit_year(b / 86400);
    lemma_time_of_day(u);
    lemma_time_of_day(v);
    if a < b {
        if a / 86400 < b / 86400 {
            lemma_later_date(y, m, d, y2, m2, d2);
        }
        lemma_stamp_order(
            (y, m, d, u / 3600, u % 3600 / 60, u % 60),
            (y2, m2, d2, v / 3600, v % 3600 / 60, v % 60),
        );
        lemma_humanized_form(a);
        lemma_humanized_form(b);
    }
}

/// The number that the two digits from `i` on stand for.
pub open spec fn two_digits(s: Seq<char>, i: int) -> int {
    (s[i] as int - 48) * 10 + (s[i + 1] as int - 48)
}

/// Whether the characters from `i` up to `j` are digits.
pub open spec fn digits_between(s: Seq<char>, i: int, j: int) -> bool {
    forall|k: int| i <= k < j ==> '0' <= #[trigger] s[k] <= '9'
}

/// Whether a text starts with a date and a time of day, in digits at fixed places.
pub open spec fn is_dated(s: Seq<char>) -> bool {
    &&& s.len() >= 19
    &&& digits_between(s, 0, 4) && s[4] == '-' && digits_between(s, 5, 7) && s[7] == '-'
    &&& digits_between(s, 8, 10) && s[10] == 'T' && digits_between(s, 11, 13) && s[13] == ':'
    &&& digits_between(s, 14, 16) && s[16] == ':' && digits_between(s, 17, 19)
}

/// Whether a year has a day more: every fourth, but of the full centuries only every fourth.
pub open spec fn has_leap_day(y: int) -> bool {
    if y % 100 == 0 {
        y % 400 == 0
    } else {
        y % 4 == 0
    }
}

/// The days before the first of a month in a year without a leap day, from January on.
pub open spec fn common_days_before(m: int) -> int {
    seq![0int, 31, 59, 90, 120, 151, 181, 212, 243, 273, 304, 334][m - 1]
}

/// How many days a month has.
pub open spec fn days_in(y: int, m: int) -> int {
    seq![31int, 28, 31, 30, 31, 30, 31, 31, 30, 31, 30, 31][m - 1] + if m == 2 && has_leap_day(y) {
        1int
    } else {
        0int
    }
}

/// The days from the first of January 1970 to a date of that year or a later one.
pub open spec fn days_since_1970(y: int, m: int, d: int) -> int {
    (y - 1970) * 365 + (y - 1969) / 4 - (y - 1901) / 100 + (y - 1601) / 400 + common_days_before(m)
        + (if m > 2 && has_leap_day(y) {
        1int
    } else {
        0int
    }) + d - 1
}

/// Whether the date and time of day that a text starts with are those of the moment so many seconds
/// after 1970 began.
pub open spec fn dates(s: Seq<char>, secs: int) -> bool {
    let y = two_digits(s, 0) * 100 + two_digits(s, 2);
    let m = two_digits(s, 5);
    let d = two_digits(s, 8);
    let hour = two_digits(s, 11);
    let minute = two_digits(s, 14);
    let second = two_digits(s, 17);
    &&& is_dated(s)
    &&& y >= 1970 && 1 <= m <= 12 && 1 <= d <= days_in(y, m)
    &&& hour < 24 && minute < 60 && second < 60
    &&& secs == days_since_1970(y, m, d) * 86400 + hour * 3600 + minute * 60 + second
}

proof fn lemma_month_tables(y: int, m: int)
    requires
        1 <= m <= 12,
    ensures
        days_in(y, m) == month_len(y, m),
        common_days_before(m) + (if m > 2 && has_leap_day(y) {
            1int
        } else {
            0int
        }) == days_before_month(y, m),
        has_leap_day(y) == leap(y),
{
    reveal_with_fuel(days_before_month, 13);
}

proof fn lemma_days_since_1970(y: int, m: int, d: int)
    requires
        valid_date(y, m, d),
    ensures
        days_since_1970(y, m, d) == day_index(y, m, d),
{
    lemma_month_tables(y, m);
    lemma_year_start(y);
}

proof fn lemma_two_digits(s: Seq<char>, i: int)
    requires
        0 <= i,
        i + 2 <= s.len(),
        digits_between(s, i, i + 2),
    ensures
        numbers::value_of(s.subrange(i, i + 2)) == two_digits(s, i),
        numbers::signed_of(s.subrange(i, i + 2)) == Some(two_digits(s, i)),
        numbers::all_digits(s.subrange(i, i + 2)),
        0 <= two_digits(s, i) < 100,
{
    let part = s.subrange(i, i + 2);
    reveal_with_fuel(numbers::value_of, 3);
    assert(part[0] == s[i] && part[1] == s[i + 1]);
    assert('0' <= s[i] <= '9' && '0' <= s[i + 1] <= '9');
    assert(part.drop_last() =~= seq![s[i]]);
    assert(part.drop_last().drop_last() =~= Seq::empty());
    assert forall|k: int| 0 <= k < part.len() implies numbers::is_digit(#[trigger] part[k]) by {
        assert(part[k] == s[i + k]);
    }
}

proof fn lemma_four_digits(s: Seq<char>)
    requires
        s.len() >= 4,
        digits_between(s, 0, 4),
    ensures
        numbers::value_of(s.subrange(0, 4)) == two_digits(s, 0) * 100 + two_digits(s, 2),
        numbers::signed_of(s.subrange(0, 4)) == Some(two_digits(s, 0) * 100 + two_digits(s, 2)),
{
    let part = s.subrange(0, 4);
    reveal_with_fuel(numbers::value_of, 5);
    assert(part[0] == s[0] && part[1] == s[1] && part[2] == s[2] && part[3] == s[3]);
    assert('0' <= s[0] <= '9' && '0' <= s[1] <= '9' && '0' <= s[2] <= '9' && '0' <= s[3] <= '9');
    assert(part.drop_last() =~= seq![s[0], s[1], s[2]]);
    assert(part.drop_last().drop_last() =~= seq![s[0], s[1]]);
    assert(part.drop_last().drop_last().drop_last() =~= seq![s[0]]);
    assert(part.drop_last().drop_last().drop_last().drop_last() =~= Seq::empty());
    assert forall|k: int| 0 <= k < part.len() implies numbers::is_digit(#[trigger] part[k]) by {
        assert(part[k] == s[k]);
    }
}

proof fn lemma_digits_of_part(s: Seq<char>, i: int, j: int)
    requires
        0 <= i <= j <= s.len(),
        numbers::all_digits(s.subrange(i, j)),
    ensures
        digits_between(s, i, j),
{
    assert forall|k: int| i <= k < j implies '0' <= #[trigger] s[k] <= '9' by {
        assert(numbers::is_digit(s.subrange(i, j)[k - i]));
    }
}

/// A moment before the year 10000 is written as its date and time of day, by the calendar: a Z
/// stands at the end.
#[verifier::spinoff_prover]
pub proof fn lemma_written_by_the_calendar(secs: int)
    requires
        0 <= secs < 253_402_300_800,
    ensures
        dates(humanized(secs), secs),
        humanized(secs).len() == 20,
        humanized(secs)[19] == 'Z',
{
    let s = humanized(secs);
    let t = secs % 86400;
    let (y, m, d) = date_of(secs / 86400);
    lemma_humanized_form(secs);
    lemma_digits_of_part(s, 0, 4);
    lemma_digits_of_part(s, 5, 7);
    lemma_digits_of_part(s, 8, 10);
    lemma_digits_of_part(s, 11, 13);
    lemma_digits_of_part(s, 14, 16);
    lemma_digits_of_part(s, 17, 19);
    lemma_four_digits(s);
    lemma_two_digits(s, 5);
    lemma_two_digits(s, 8);
    lemma_two_digits(s, 11);
    lemma_two_digits(s, 14);
    lemma_two_digits(s, 17);
    lemma_date_of(secs / 86400);
    lemma_four_digit_year(secs / 86400);
    lemma_time_of_day(t);
    lemma_stamp_layout(y, m, d, t / 3600, t % 3600 / 60, t % 60);
    numbers::lemma_padded_reads_back(y as nat, 4);
    numbers::lemma_padded_reads_back(m as nat, 2);
    numbers::lemma_padded_reads_back(d as nat, 2);
    numbers::lemma_padded_reads_back((t / 3600) as nat, 2);
    numbers::lemma_padded_reads_back((t % 3600 / 60) as nat, 2);
    numbers::lemma_padded_reads_back((t % 60) as nat, 2);
    lemma_days_since_1970(y, m, d);
    lemma_month_tables(y, m);
}

/// Whether a character at `i` of a timestamp is part of a number.
pub open spec fn in_a_number(i: int) -> bool {
    0 <= i < 4 || 5 <= i < 7 || 8 <= i < 10 || 11 <= i < 13 || 14 <= i < 16 || 17 <= i < 19
}

/// Whether a sign may stand at `i` of a timestamp: in front of a number.
pub open spec fn may_hold_a_sign(i: int) -> bool {
    i == 0 || i == 5 || i == 8 || i == 11 || i == 14 || i == 17
}

/// Whether a text starts with a year, a month, a day, an hour, a minute and a second, in digits at
/// fixed places, that come to so many seconds after 1970 began. Days, hours, minutes and seconds may
/// be more than there are: they count on.
pub open spec fn comes_to(s: Seq<char>, secs: int) -> bool {
    let y = two_digits(s, 0) * 100 + two_digits(s, 2);
    let m = two_digits(s, 5);
    &&& s.len() >= 19
    &&& digits_between(s, 0, 4) && s[4] == '-' && digits_between(s, 5, 7) && s[7] == '-'
    &&& digits_between(s, 8, 10) && s[10] == 'T' && digits_between(s, 11, 13) && s[13] <= '\u{7f}'
    &&& digits_between(s, 14, 16) && s[16] <= '\u{7f}' && digits_between(s, 17, 19)
    &&& 1 <= m <= 12
    &&& secs == days_since_1970(y, m, two_digits(s, 8)) * 86400 + two_digits(s, 11) * 3600
        + two_digits(s, 14) * 60 + two_digits(s, 17)
}

/// A text that starts with a date and a time of day is read as the moment that they come to, if that
/// is not before 1970, whatever follows. One that is too short, that lacks what stands between the
/// numbers of the date, or that has something else in the place of a digit is no timestamp.
#[verifier::spinoff_prover]
pub proof fn lemma_read_by_the_calendar(s: Seq<char>, secs: int)
    ensures
        comes_to(s, secs) ==> timestamp_of(s) == if secs >= 0 {
            Some(secs)
        } else {
            None
        },
        dates(s, secs) ==> timestamp_of(s) == Some(secs),
        s.len() < 19 || s[4] != '-' || s[7] != '-' || s[10] != 'T' ==> timestamp_of(s) is None,
        forall|i: int|
            0 <= i < s.len() && in_a_number(i) && !('0' <= #[trigger] s[i] <= '9') && !(
            may_hold_a_sign(i) && (s[i] == '+' || s[i] == '-')) ==> timestamp_of(s) is None,
{
    if comes_to(s, secs) || dates(s, secs) {
        lemma_four_digits(s);
        lemma_two_digits(s, 5);
        lemma_two_digits(s, 8);
        lemma_two_digits(s, 11);
        lemma_two_digits(s, 14);
        lemma_two_digits(s, 17);
        let y = two_digits(s, 0) * 100 + two_digits(s, 2);
        let m = two_digits(s, 5);
        let d = two_digits(s, 8);
        lemma_day_formulas(y, m, d);
        if dates(s, secs) {
            lemma_month_tables(y, m);
            lemma_days_since_1970(y, m, d);
            lemma_date_inside_year(y, m, d);
            if y > 1970 {
                lemma_later_year(1970, y);
            }
        }
    }
    assert forall|i: int|
        0 <= i < s.len() && in_a_number(i) && !('0' <= #[trigger] s[i] <= '9') && !(may_hold_a_sign(
            i,
        ) && (s[i] == '+' || s[i] == '-')) implies timestamp_of(s) is None by {
        if s.len() >= 19 {
            let (from, to): (int, int) = if i < 4 {
                (0, 4)
            } else if i < 7 {
                (5, 7)
            } else if i < 10 {
                (8, 10)
            } else if i < 13 {
                (11, 13)
            } else if i < 16 {
                (14, 16)
            } else {
                (17, 19)
            };
            lemma_no_number(s.subrange(from, to), i - from);
        }
    }
}

proof fn lemma_leap_step(y: int)
    ensures
        leap_years(y) == leap_years(y - 1) + if has_leap_day(y) {
            1int
        } else {
            0int
        },
{
    assert(y / 4 == (y - 1) / 4 + if y % 4 == 0 {
        1int
    } else {
        0int
    });
    assert(y / 100 == (y - 1) / 100 + if y % 100 == 0 {
        1int
    } else {
        0int
    });
    assert(y / 400 == (y - 1) / 400 + if y % 400 == 0 {
        1int
    } else {
        0int
    });
    assert(y % 400 == 0 ==> y % 100 == 0);
    assert(y % 100 == 0 ==> y % 4 == 0);
}

proof fn lemma_eras(year: int)
    ensures
        year / 400 * 146097 + year % 400 * 365 + year % 400 / 4 - year % 400 / 100 == year * 365
            + leap_years(year),
{
    let era = year / 400;
    let rest = year % 400;
    assert(year / 4 == era * 100 + rest / 4);
    assert(year / 100 == era * 4 + rest / 100);
}

proof fn lemma_leap_years_since(y: int)
    ensures
        (y - 1969) / 4 - (y - 1901) / 100 + (y - 1601) / 400 == leap_years(y - 1) - 477,
{
    assert((y - 1969) / 4 == (y - 1) / 4 - 492);
    assert((y - 1901) / 100 == (y - 1) / 100 - 19);
    assert((y - 1601) / 400 == (y - 1) / 400 - 4);
}

proof fn lemma_days_from_march(m: int)
    requires
        1 <= m <= 12,
    ensures
        (153 * ((m + 9) % 12) + 2) / 5 == common_days_before(m) + if m <= 2 {
            306int
        } else {
            -59int
        },
{
}

/// The two ways to count the days agree in every year.
proof fn lemma_day_formulas(y: int, m: int, d: int)
    requires
        1 <= m <= 12,
    ensures
        day_number(y, m, d) == days_since_1970(y, m, d),
{
    let from_march = if m <= 2 {
        y - 1
    } else {
        y
    };
    lemma_eras(from_march);
    lemma_leap_step(y);
    lemma_leap_years_since(y);
    lemma_days_from_march(m);
}

proof fn lemma_no_number(part: Seq<char>, at: int)
    requires
        0 <= at < part.len(),
        !('0' <= part[at] <= '9'),
        !(at == 0 && (part[at] == '+' || part[at] == '-')),
    ensures
        numbers::signed_of(part) is None,
{
    if part[0] == '+' || part[0] == '-' {
        let digits = part.skip(1);
        assert(digits[at - 1] == part[at]);
        assert(!numbers::is_digit(digits[at - 1]));
    } else {
        assert(!numbers::is_digit(part[at]));
    }
}

} // verus!
