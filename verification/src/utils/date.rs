//! Days of the Gregorian calendar, counted from 1970-01-01, in Beijing time (UTC+8).
use crate::text;
use std::time::{Duration, SystemTime, SystemTimeError, UNIX_EPOCH};
use vstd::prelude::*;

verus! {

// ---------------------------------------------------------------------------
// The clock
// ---------------------------------------------------------------------------
/// A point in time, `std::time::SystemTime`. Nothing is stated of it.
#[verifier::external_type_specification]
#[verifier::external_body]
pub struct ExSystemTime(SystemTime);

/// The error of `SystemTime::duration_since`. Nothing is stated of it.
#[verifier::external_type_specification]
#[verifier::external_body]
pub struct ExSystemTimeError(SystemTimeError);

/// `SystemTime::now`: the time of the machine's clock. Nothing is stated of it.
pub assume_specification[ SystemTime::now ]() -> SystemTime
;

/// The time passed from the beginning of 1970 in UTC until a point in time, as
/// `SystemTime::duration_since` tells; none where the point lies before it.
pub uninterp spec fn passed_since_1970(t: SystemTime) -> Option<Duration>;

/// `SystemTime::duration_since` with `UNIX_EPOCH`: the time passed since the beginning of
/// 1970 in UTC, or an error where the point in time lies before it. The time is only named.
#[verifier::external_body]
fn since_epoch(t: SystemTime) -> (r: Result<Duration, SystemTimeError>)
    ensures
        match r {
            Ok(d) => passed_since_1970(t) == Some(d),
            Err(_) => passed_since_1970(t) is None,
        },
{
    t.duration_since(UNIX_EPOCH)
}

/// The whole seconds of a duration, as `Duration::as_secs` tells.
pub uninterp spec fn whole_seconds(d: Duration) -> u64;

/// `Duration::as_secs`: the whole seconds of a duration, which are only named.
pub assume_specification[ Duration::as_secs ](d: &Duration) -> (r: u64)
    ensures
        r == whole_seconds(*d),
;

/// The nanoseconds of a duration beyond its whole seconds, as `Duration::subsec_nanos`
/// tells.
pub uninterp spec fn nanos_beyond(d: Duration) -> u32;

/// `Duration::subsec_nanos`: the nanoseconds beyond the whole seconds, which are only named.
/// There are always less than a second of them.
pub assume_specification[ Duration::subsec_nanos ](d: &Duration) -> (r: u32)
    ensures
        r == nanos_beyond(*d),
        r < 1_000_000_000,
;

/// The seconds and nanoseconds from the beginning of 1970 until a point in time; zero where
/// it lies before.
pub open spec fn reading(t: SystemTime) -> (u64, u32) {
    match passed_since_1970(t) {
        Some(d) => (whole_seconds(d), nanos_beyond(d)),
        None => (0, 0),
    }
}

/// The seconds and nanoseconds since the beginning of 1970 by the machine's clock; zero
/// where the clock stands before it. Which point in time the clock shows is not stated.
pub(crate) fn clock() -> (r: (u64, u32))
    ensures
        exists|t: SystemTime| r == #[trigger] reading(t),
        r.1 < 1_000_000_000,
{
    let t = SystemTime::now();
    let ghost shown = reading(t);
    let r = match since_epoch(t) {
        Ok(d) => (d.as_secs(), d.subsec_nanos()),
        Err(_) => (0, 0),
    };
    assert(r == shown);
    r
}

// ---------------------------------------------------------------------------
// The calendar
// ---------------------------------------------------------------------------
/// A leap year of the Gregorian calendar.
pub open spec fn leap(y: int) -> bool {
    y % 4 == 0 && (y % 100 != 0 || y % 400 == 0)
}

/// How many days a month has.
pub open spec fn month_days(y: int, m: int) -> int {
    if m == 2 {
        if leap(y) {
            29
        } else {
            28
        }
    } else if m == 4 || m == 6 || m == 9 || m == 11 {
        30
    } else {
        31
    }
}

/// How many days of a year come before a month.
pub open spec fn days_before_month(y: int, m: int) -> int
    decreases m,
{
    if m <= 1 {
        0
    } else {
        days_before_month(y, m - 1) + month_days(y, m - 1)
    }
}

/// How many days come before a year, counted from the beginning of the year 1.
pub open spec fn days_before_year(y: int) -> int {
    365 * (y - 1) + (y - 1) / 4 - (y - 1) / 100 + (y - 1) / 400
}

/// The number of a day, counted from 1970-01-01. A day beyond the end of its month runs on
/// into the next one.
pub open spec fn day_number(y: int, m: int, d: int) -> int {
    days_before_year(y) + days_before_month(y, m) + d - 1 - 719162
}

/// A day that the calendar has.
pub open spec fn valid_date(y: int, m: int, d: int) -> bool {
    1 <= m <= 12 && 1 <= d <= month_days(y, m)
}

/// The days before a month, by the month.
proof fn month_table(y: int, m: int)
    requires
        1 <= m <= 12,
    ensures
        days_before_month(y, m) == (if m == 1 {
            0int
        } else if m == 2 {
            31int
        } else {
            (if leap(y) {
                1int
            } else {
                0int
            }) + (153 * (m - 3) + 2) / 5 + 59
        }),
{
    reveal_with_fuel(days_before_month, 13);
}

/// The days of the years with at most four digits are not far away.
pub proof fn day_number_bounds(y: int, m: int, d: int)
    requires
        0 <= y < 10_000,
        1 <= m <= 12,
        1 <= d <= 31,
    ensures
        -800_000 < day_number(y, m, d) < 3_000_000,
{
    month_table(y, m);
}

/// The days before March of a year, where years are taken to begin with March.
proof fn years_from_march(y: int)
    ensures
        days_before_year(y) + 59 + (if leap(y) {
            1int
        } else {
            0int
        }) == 365 * y + y / 4 - y / 100 + y / 400 - 306,
        days_before_year(y) == 365 * (y - 1) + (y - 1) / 4 - (y - 1) / 100 + (y - 1) / 400,
{
    assert(y / 4 == (y - 1) / 4 + (if y % 4 == 0 {
        1int
    } else {
        0int
    }));
    assert(y / 100 == (y - 1) / 100 + (if y % 100 == 0 {
        1int
    } else {
        0int
    }));
    assert(y / 400 == (y - 1) / 400 + (if y % 400 == 0 {
        1int
    } else {
        0int
    }));
}

/// A date within an era of 400 years, by the year of the era and the day of that year,
/// both counted from March.
proof fn day_of_era(y: int, m: int, d: int)
    requires
        1 <= m <= 12,
    ensures
        ({
            let yy = if m <= 2 {
                y - 1
            } else {
                y
            };
            let era = yy / 400;
            let yoe = yy - era * 400;
            let mp = if m > 2 {
                m - 3
            } else {
                m + 9
            };
            let doy = (153 * mp + 2) / 5 + d - 1;
            &&& 0 <= yoe < 400
            &&& day_number(y, m, d) == era * 146097 + (yoe * 365 + yoe / 4 - yoe / 100 + doy) - 719468
        }),
{
    month_table(y, m);
    years_from_march(y);
    let yy = if m <= 2 {
        y - 1
    } else {
        y
    };
    let era = yy / 400;
    let yoe = yy - era * 400;
    assert(yy == era * 400 + yoe);
    assert(yy / 4 == era * 100 + yoe / 4);
    assert(yy / 100 == era * 4 + yoe / 100);
    assert(m <= 2 ==> (m == 1 || m == 2));
}

/// The number of a day, whatever the year.
fn wide_day(y: i64, m: i64, d: i64) -> (r: i128)
    requires
        1 <= m <= 12,
        1 <= d <= 31,
    ensures
        r == day_number(y as int, m as int, d as int),
{
    proof {
        day_of_era(y as int, m as int, d as int);
    }
    let y: i128 = if m <= 2 {
        y as i128 - 1
    } else {
        y as i128
    };
    let era: i128 = (if y >= 0 {
        y
    } else {
        y - 399
    }) / 400;
    assert(era == y as int / 400);
    let yoe: i128 = y - era * 400;
    let doy: i128 = (153 * (if m > 2 {
        m as i128 - 3
    } else {
        m as i128 + 9
    }) + 2) / 5 + d as i128 - 1;
    let doe: i128 = yoe * 365 + yoe / 4 - yoe / 100 + doy;
    era * 146097 + doe - 719468
}

/// The number of a day.
pub fn days_from_civil(y: i64, m: i64, d: i64) -> (r: i64)
    requires
        1 <= m <= 12,
        1 <= d <= 31,
        i64::MIN <= day_number(y as int, m as int, d as int) <= i64::MAX - 719468,
    ensures
        r == day_number(y as int, m as int, d as int),
{
    wide_day(y, m, d) as i64
}

/// How many days a month has.
fn days_in_month(y: i64, m: i64) -> (r: i64)
    ensures
        r == month_days(y as int, m as int),
{
    if m == 2 {
        if y % 4 == 0 && (y % 100 != 0 || y % 400 == 0) {
            29
        } else {
            28
        }
    } else if m == 4 || m == 6 || m == 9 || m == 11 {
        30
    } else {
        31
    }
}

/// The first day of a year of the era, counted from March.
spec fn year_start(yoe: int) -> int {
    365 * yoe + yoe / 4 - yoe / 100
}

/// The year of the era that a day of the era belongs to.
spec fn year_of(doe: int) -> int {
    (doe - doe / 1460 + doe / 36524 - doe / 146096) / 365
}

proof fn year_of_era(doe: int)
    requires
        0 <= doe < 146097,
    ensures
        0 <= year_of(doe) < 400,
        year_start(year_of(doe)) <= doe,
        year_of(doe) < 399 ==> doe < year_start(year_of(doe) + 1),
{
    let c = doe / 36524;
    assert(c == 0 || c == 1 || c == 2 || c == 3 || doe == 146096);
}

/// The month that a day of a year belongs to, both counted from March.
proof fn month_of_year(doy: int)
    requires
        0 <= doy <= 365,
    ensures
        ({
            let mp = (5 * doy + 2) / 153;
            let d = doy - (153 * mp + 2) / 5 + 1;
            let m = if mp < 10 {
                mp + 3
            } else {
                mp - 9
            };
            &&& 0 <= mp <= 11
            &&& 1 <= m <= 12
            &&& 1 <= d
            &&& m == 2 ==> d <= 29 && (d == 29 <==> doy == 365)
            &&& (m == 4 || m == 6 || m == 9 || m == 11) ==> d <= 30
            &&& d <= 31
        }),
{
    let mp = (5 * doy + 2) / 153;
    assert(mp == 0 || mp == 1 || mp == 2 || mp == 3 || mp == 4 || mp == 5 || mp == 6 || mp == 7
        || mp == 8 || mp == 9 || mp == 10 || mp == 11);
}

/// The last day of a year that has 366 of them is that of a year before a leap year's
/// March.
proof fn long_year(era: int, yoe: int)
    requires
        0 <= yoe < 400,
        yoe < 399 ==> year_start(yoe) + 365 < year_start(yoe + 1),
    ensures
        leap(era * 400 + yoe + 1),
{
    let n = yoe + 1;
    let y = era * 400 + n;
    assert(n % 4 == 0 && (n % 100 != 0 || n == 400)) by {
        assert(n / 4 == yoe / 4 + (if n % 4 == 0 {
            1int
        } else {
            0int
        }));
        assert(n / 100 == yoe / 100 + (if n % 100 == 0 {
            1int
        } else {
            0int
        }));
    }
    assert(y % 4 == n % 4) by {
        assert(y == 4 * (era * 100) + n);
    }
    assert(y % 100 == n % 100) by {
        assert(y == 100 * (era * 4) + n);
    }
    assert(n == 400 ==> y % 400 == 0);
}

/// The date of a day, by its number.
pub fn civil_from_days(z: i64) -> (r: (i64, i64, i64))
    requires
        z <= i64::MAX - 719468,
    ensures
        valid_date(r.0 as int, r.1 as int, r.2 as int),
        day_number(r.0 as int, r.1 as int, r.2 as int) == z,
{
    let ghost z0 = z as int;
    let z: i64 = z + 719468;
    let era: i64 = (if z >= 0 {
        z
    } else {
        z - 146096
    }) / 146097;
    assert(era == z as int / 146097);
    let doe: i64 = z - era * 146097;
    proof {
        year_of_era(doe as int);
    }
    let yoe: i64 = (doe - doe / 1460 + doe / 36524 - doe / 146096) / 365;
    assert(yoe == year_of(doe as int));
    let y: i64 = yoe + era * 400;
    let doy: i64 = doe - (365 * yoe + yoe / 4 - yoe / 100);
    proof {
        if yoe < 399 {
            assert(year_start(yoe + 1) <= year_start(yoe as int) + 366);
        }
        if doy == 365 {
            long_year(era as int, yoe as int);
        }
        month_of_year(doy as int);
    }
    let mp: i64 = (5 * doy + 2) / 153;
    let d: i64 = doy - (153 * mp + 2) / 5 + 1;
    let m: i64 = if mp < 10 {
        mp + 3
    } else {
        mp - 9
    };
    let year: i64 = if m <= 2 {
        y + 1
    } else {
        y
    };
    proof {
        assert(y as int / 400 == era as int);
        day_of_era(year as int, m as int, d as int);
    }
    (year, m, d)
}

/// Two dates that the calendar has are the same day only if they are the same date.
pub proof fn dates_are_distinct(y1: int, m1: int, d1: int, y2: int, m2: int, d2: int)
    requires
        valid_date(y1, m1, d1),
        valid_date(y2, m2, d2),
        day_number(y1, m1, d1) == day_number(y2, m2, d2),
    ensures
        y1 == y2,
        m1 == m2,
        d1 == d2,
{
    if y1 < y2 {
        later_year(y1, m1, d1, y2, m2, d2);
    } else if y2 < y1 {
        later_year(y2, m2, d2, y1, m1, d1);
    }
    month_table(y1, m1);
    month_table(y2, m2);
}

/// A date of an earlier year comes earlier.
proof fn later_year(y1: int, m1: int, d1: int, y2: int, m2: int, d2: int)
    requires
        valid_date(y1, m1, d1),
        valid_date(y2, m2, d2),
        y1 < y2,
    ensures
        day_number(y1, m1, d1) < day_number(y2, m2, d2),
{
    month_table(y1, m1);
    month_table(y2, m2);
    years_from_march(y1);
    assert(day_number(y1, m1, d1) <= days_before_year(y1) + 365 + (if leap(y1) {
        1int
    } else {
        0int
    }) - 1 - 719162);
    assert(y2 == y1 + 1 || y2 - 1 >= y1 + 1);
    assert(days_before_year(y2) >= days_before_year(y1 + 1));
}

// ---------------------------------------------------------------------------
// Dates as text
// ---------------------------------------------------------------------------
/// The year, the month and the day that a text holds, as integers between dashes; none where
/// the calendar has no such day.
pub open spec fn ymd_parts(s: Seq<char>) -> Option<(int, int, int)> {
    let i = text::first_index(s, '-') as int;
    let rest = s.skip(i + 1);
    let j = text::first_index(rest, '-') as int;
    if i >= s.len() || j >= rest.len() {
        None
    } else {
        let y = text::integer_within(text::trimmed(s.take(i)), i64::MIN as int, i64::MAX as int);
        let m = text::integer_within(
            text::trimmed(rest.take(j)),
            i64::MIN as int,
            i64::MAX as int,
        );
        let d = text::integer_within(
            text::trimmed(rest.skip(j + 1)),
            i64::MIN as int,
            i64::MAX as int,
        );
        match (y, m, d) {
            (Some(y), Some(m), Some(d)) => if valid_date(y, m, d) {
                Some((y, m, d))
            } else {
                None
            },
            _ => None,
        }
    }
}

/// The number of the day that a text denotes.
pub open spec fn day_denoted(s: Seq<char>) -> Option<int> {
    match ymd_parts(s) {
        Some((y, m, d)) => Some(day_number(y, m, d)),
        None => None,
    }
}

/// The year of a date is not so far away that its day number leaves the range of `i64`.
pub open spec fn day_fits(s: Seq<char>) -> bool {
    match day_denoted(s) {
        Some(n) => i64::MIN <= n <= i64::MAX - 719468,
        None => true,
    }
}

/// The year, the month and the day that a text holds.
fn parse_parts(s: &str) -> (r: Option<(i64, i64, i64)>)
    ensures
        match r {
            Some((y, m, d)) => ymd_parts(s@) == Some((y as int, m as int, d as int)),
            None => ymd_parts(s@) is None,
        },
{
    let v = text::chars_of(s);
    assert(v@.skip(0) =~= v@);
    let i = text::find(&v, 0, '-');
    if i >= v.len() {
        return None;
    }
    let j = text::find(&v, i + 1, '-');
    let ghost rest = s@.skip(i + 1);
    if j >= v.len() {
        return None;
    }
    assert(v@.subrange(0, i as int) =~= s@.take(i as int));
    assert(v@.subrange(i + 1, j as int) =~= rest.take(j - (i + 1)));
    assert(v@.subrange(j + 1, v@.len() as int) =~= rest.skip(j - (i + 1) + 1));
    let y = match text::parse_int(text::trim(text::text_between(&v, 0, i).as_str()).as_str()) {
        Some(y) => y,
        None => return None,
    };
    let m = match text::parse_int(text::trim(text::text_between(&v, i + 1, j).as_str()).as_str()) {
        Some(m) => m,
        None => return None,
    };
    let d = match text::parse_int(
        text::trim(text::text_between(&v, j + 1, v.len()).as_str()).as_str(),
    ) {
        Some(d) => d,
        None => return None,
    };
    if m < 1 || m > 12 || d < 1 || d > days_in_month(y, m) {
        return None;
    }
    Some((y, m, d))
}

/// The number of the day that a text of the form `YYYY-MM-DD` denotes. White space around
/// the three numbers is passed over; a day that the calendar does not have, such as the
/// thirtieth of February, is refused.
pub fn parse_ymd(s: &str) -> (r: Option<i64>)
    requires
        day_fits(s@),
    ensures
        match r {
            Some(n) => day_denoted(s@) == Some(n as int),
            None => day_denoted(s@) is None,
        },
{
    match parse_parts(s) {
        Some((y, m, d)) => Some(days_from_civil(y, m, d)),
        None => None,
    }
}

/// A date as `YYYY-MM-DD`.
pub open spec fn ymd_text(y: int, m: int, d: int) -> Seq<char> {
    text::zero_padded(y, 4) + seq!['-'] + text::zero_padded(m, 2) + seq!['-'] + text::zero_padded(
        d,
        2,
    )
}

/// A text is the date of the day with a number.
pub open spec fn dated(s: Seq<char>, n: int) -> bool {
    exists|y: int, m: int, d: int|
        valid_date(y, m, d) && day_number(y, m, d) == n && s == #[trigger] ymd_text(y, m, d)
}

/// The date of the day with a number, as `YYYY-MM-DD`.
pub open spec fn day_text(n: int) -> Seq<char> {
    choose|s: Seq<char>| dated(s, n)
}

/// A day has one date.
proof fn one_date(s: Seq<char>, n: int)
    requires
        dated(s, n),
    ensures
        s == day_text(n),
{
    let t = day_text(n);
    let (y1, m1, d1) = choose|y: int, m: int, d: int|
        valid_date(y, m, d) && day_number(y, m, d) == n && s == #[trigger] ymd_text(y, m, d);
    let (y2, m2, d2) = choose|y: int, m: int, d: int|
        valid_date(y, m, d) && day_number(y, m, d) == n && t == #[trigger] ymd_text(y, m, d);
    dates_are_distinct(y1, m1, d1, y2, m2, d2);
}

/// The date of a day, by its number, as `YYYY-MM-DD`.
pub fn show_day(n: i64) -> (r: String)
    requires
        n <= i64::MAX - 719468,
    ensures
        dated(r@, n as int),
        r@ == day_text(n as int),
{
    let (y, m, d) = civil_from_days(n);
    let mut out = text::pad_zero(y, 4);
    out.push('-');
    out.append(text::pad_zero(m, 2).as_str());
    out.push('-');
    out.append(text::pad_zero(d, 2).as_str());
    assert(out@ =~= ymd_text(y as int, m as int, d as int));
    proof {
        one_date(out@, n as int);
    }
    out
}

/// A date from the year 0 on, written as text, denotes its own day.
pub proof fn date_text_round_trip(y: int, m: int, d: int)
    requires
        valid_date(y, m, d),
        0 <= y <= i64::MAX,
    ensures
        ymd_parts(ymd_text(y, m, d)) == Some((y, m, d)),
        day_denoted(ymd_text(y, m, d)) == Some(day_number(y, m, d)),
{
    let a = text::zero_padded(y, 4);
    let b = text::zero_padded(m, 2);
    let c = text::zero_padded(d, 2);
    let s = ymd_text(y, m, d);
    text::padded_reads_back(y as nat, 4);
    text::padded_reads_back(m as nat, 2);
    text::padded_reads_back(d as nat, 2);
    assert(s =~= a + (seq!['-'] + (b + (seq!['-'] + c))));
    text::first_index_of_joined(a, '-', b + (seq!['-'] + c));
    text::first_index_of_joined(b, '-', c);
    assert(s =~= a + seq!['-'] + (b + (seq!['-'] + c)));
    assert(b + (seq!['-'] + c) =~= b + seq!['-'] + c);
    assert(s.skip(a.len() as int + 1) =~= b + seq!['-'] + c);
    assert(s.take(a.len() as int) =~= a);
    let rest = b + seq!['-'] + c;
    assert(rest.take(b.len() as int) =~= b);
    assert(rest.skip(b.len() as int + 1) =~= c);
}

// ---------------------------------------------------------------------------
// Today
// ---------------------------------------------------------------------------
/// The day in Beijing, by the seconds since the beginning of 1970 in UTC.
pub open spec fn beijing_day(secs: u64) -> int {
    (secs + 28_800) / 86_400
}

/// The day in Beijing, by the seconds since the beginning of 1970 in UTC.
pub fn day_at(secs: u64) -> (r: i64)
    ensures
        r == beijing_day(secs),
        0 <= r <= 213_503_982_334_602,
{
    ((secs as u128 + 28_800) / 86_400) as i64
}

/// Today in Beijing, as `YYYY-MM-DD`.
pub fn today() -> (r: String)
    ensures
        exists|secs: u64| r@ == day_text(#[trigger] beijing_day(secs)),
{
    show_day(day_at(clock().0))
}

/// The days from a date to the last that the clock can show can be counted in `i64`.
pub open spec fn since_fits(date: Seq<char>) -> bool {
    day_denoted(date) matches Some(n) ==> i64::MIN + 213_503_982_334_602 <= n <= i64::MAX - 719468
}

/// Whether the days since a date can be counted: for a text that is no date, too, since
/// there is nothing to count.
pub fn can_count_from(date: &str) -> (r: bool)
    ensures
        r == since_fits(date@),
{
    match parse_parts(date) {
        Some((y, m, d)) => {
            let n = wide_day(y, m, d);
            i64::MIN as i128 + 213_503_982_334_602 <= n && n <= i64::MAX as i128 - 719468
        },
        None => true,
    }
}

/// How many days have passed since a day, by the seconds on the clock.
pub fn days_since_at(date: &str, secs: u64) -> (r: Option<i64>)
    requires
        since_fits(date@),
    ensures
        match r {
            Some(n) => day_denoted(date@) == Some(beijing_day(secs) - n),
            None => day_denoted(date@) is None,
        },
{
    match parse_ymd(date) {
        Some(n) => Some(day_at(secs) - n),
        None => None,
    }
}

/// How many days have passed from a day until today; none where the text is no date.
pub fn days_since(date: &str) -> (r: Option<i64>)
    requires
        since_fits(date@),
    ensures
        r is None <==> day_denoted(date@) is None,
        r matches Some(n) ==> exists|secs: u64|
            day_denoted(date@) == Some(#[trigger] beijing_day(secs) - n),
{
    days_since_at(date, clock().0)
}

// ---------------------------------------------------------------------------
// Milliseconds
// ---------------------------------------------------------------------------
/// Midnight in Beijing at the beginning of a day, in milliseconds since 1970 in UTC.
pub open spec fn midnight_ms(day: int) -> int {
    day * 86_400_000 - 28_800_000
}

/// The midnight at the beginning of a day given as `YYYY-MM-DD`, in milliseconds since the
/// beginning of 1970; none where the text is no date or the number does not fit.
pub fn to_epoch_ms(s: &str) -> (r: Option<i64>)
    requires
        day_fits(s@),
    ensures
        match r {
            Some(ms) => day_denoted(s@) matches Some(n) && ms == midnight_ms(n),
            None => match day_denoted(s@) {
                Some(n) => !(i64::MIN <= midnight_ms(n) <= i64::MAX),
                None => true,
            },
        },
{
    match parse_ymd(s) {
        Some(n) => {
            let ms: i128 = n as i128 * 86_400_000 - 28_800_000;
            if ms < i64::MIN as i128 || ms > i64::MAX as i128 {
                None
            } else {
                Some(ms as i64)
            }
        },
        None => None,
    }
}

/// The minute of the day in Beijing, by the milliseconds since the beginning of 1970.
pub open spec fn minute_of_day(ms: int) -> int {
    ((ms + 28_800_000) % 86_400_000) / 60_000
}

/// The day in Beijing, by the milliseconds since the beginning of 1970.
pub open spec fn day_of_ms(ms: int) -> int {
    (ms + 28_800_000) / 86_400_000
}

/// The date of a moment, followed by the hour and the minute where they are asked for.
pub open spec fn stamp(ms: int, intraday: bool) -> Seq<char> {
    if intraday {
        day_text(day_of_ms(ms)) + seq![' '] + text::zero_padded(minute_of_day(ms) / 60, 2)
            + seq![':'] + text::zero_padded(minute_of_day(ms) % 60, 2)
    } else {
        day_text(day_of_ms(ms))
    }
}

/// The date in Beijing of a moment, given in milliseconds since the beginning of 1970; with
/// the hour and the minute, as `YYYY-MM-DD HH:MM`, where `intraday` is set.
pub fn from_epoch_ms(ms: i64, intraday: bool) -> (r: String)
    ensures
        r@ == stamp(ms as int, intraday),
{
    let shifted: i128 = ms as i128 + 28_800_000;
    let day: i128 = (if shifted >= 0 {
        shifted
    } else {
        shifted - 86_399_999
    }) / 86_400_000;
    assert(day == day_of_ms(ms as int));
    let within: i64 = (shifted - day * 86_400_000) as i64;
    assert(within == (ms + 28_800_000) % 86_400_000);
    let mut out = show_day(day as i64);
    if intraday {
        let minute: i64 = within / 60_000;
        out.push(' ');
        out.append(text::pad_zero(minute / 60, 2).as_str());
        out.push(':');
        out.append(text::pad_zero(minute % 60, 2).as_str());
        assert(out@ =~= stamp(ms as int, intraday));
    }
    out
}

/// The milliseconds since the beginning of 1970, by the seconds and nanoseconds on the
/// clock; the largest `i64` where they do not fit.
pub open spec fn in_ms(secs: u64, nanos: u32) -> int {
    let ms = secs * 1000 + (nanos as int) / 1_000_000;
    if ms > i64::MAX {
        i64::MAX as int
    } else {
        ms
    }
}

/// The milliseconds since the beginning of 1970, by the seconds and nanoseconds on the
/// clock; the largest `i64` where they do not fit.
pub fn ms_at(secs: u64, nanos: u32) -> (r: i64)
    ensures
        r == in_ms(secs, nanos),
{
    let ms: u128 = secs as u128 * 1000 + (nanos / 1_000_000) as u128;
    if ms > i64::MAX as u128 {
        i64::MAX
    } else {
        ms as i64
    }
}

/// The milliseconds since the beginning of 1970, by the machine's clock.
pub fn now_ms() -> (r: i64)
    ensures
        r >= 0,
        exists|t: SystemTime|
            r == in_ms((#[trigger] reading(t)).0, reading(t).1),
{
    let (secs, nanos) = clock();
    ms_at(secs, nanos)
}

// ---------------------------------------------------------------------------
// The calendar
// ---------------------------------------------------------------------------
/// Each day has the number after that of the day before it: within a month, from the last
/// day of a month to the first of the next, and from the last day of a year to the first of
/// the next.
#[verifier::spinoff_prover]
pub proof fn days_follow_one_another(y: int, m: int, d: int)
    requires
        valid_date(y, m, d),
    ensures
        d < month_days(y, m) ==> day_number(y, m, d + 1) == day_number(y, m, d) + 1,
        d == month_days(y, m) && m < 12 ==> day_number(y, m + 1, 1) == day_number(y, m, d) + 1,
        d == month_days(y, m) && m == 12 ==> day_number(y + 1, 1, 1) == day_number(y, m, d) + 1,
{
    if m == 12 {
        months_before_december(y);
        year_has_its_days(y);
        assert(days_before_month(y + 1, 1) == 0);
    } else {
        assert(days_before_month(y, m + 1) == days_before_month(y, m) + month_days(y, m));
    }
}

proof fn months_before_december(y: int)
    ensures
        days_before_month(y, 12) == (if leap(y) {
            335int
        } else {
            334int
        }),
{
    month_table(y, 12);
}

/// The first day of 1970 has the number zero. A month has 28 to 31 days; February has 29 in
/// each fourth year, but for the hundredth years of which the four hundredth have them again.
#[verifier::spinoff_prover]
pub proof fn calendar_begins_in_1970(y: int, m: int)
    requires
        1 <= m <= 12,
    ensures
        day_number(1970, 1, 1) == 0,
        28 <= month_days(y, m) <= 31,
        month_days(y, 2) == 29 <==> (y % 4 == 0 && y % 100 != 0) || y % 400 == 0,
{
    assert(days_before_month(1970, 1) == 0);
    four_hundredths(y);
}

proof fn four_hundredths(y: int)
    ensures
        y % 400 == 0 ==> y % 4 == 0,
{
}

/// A year has 365 days, and one more where it is a leap year.
#[verifier::spinoff_prover]
proof fn year_has_its_days(y: int)
    ensures
        days_before_year(y + 1) - days_before_year(y) == (if leap(y) {
            366int
        } else {
            365int
        }),
{
    let a = y - 1;
    four_hundredths(y);
    assert(y / 4 - a / 4 == (if y % 4 == 0 {
        1int
    } else {
        0int
    }));
    assert(y / 100 - a / 100 == (if y % 100 == 0 {
        1int
    } else {
        0int
    }));
    assert(y / 400 - a / 400 == (if y % 400 == 0 {
        1int
    } else {
        0int
    }));
    assert(y % 400 == 0 ==> y % 100 == 0);
}

/// A day in Beijing begins eight hours before it does in UTC, and ends where the next one
/// begins. A moment between the two belongs to the day, and its minute is counted from the
/// beginning.
pub proof fn moments_belong_to_their_day(day: int, ms: int)
    requires
        midnight_ms(day) <= ms < midnight_ms(day + 1),
    ensures
        midnight_ms(day) + 8 * 3_600_000 == day * 24 * 3_600_000,
        day_of_ms(ms) == day,
        minute_of_day(ms) * 60_000 <= ms - midnight_ms(day) < minute_of_day(ms) * 60_000 + 60_000,
        0 <= minute_of_day(ms) < 24 * 60,
        minute_of_day(midnight_ms(day)) == 0,
{
    let t = ms + 28_800_000;
    let w = t - day * 86_400_000;
    assert(0 <= w < 86_400_000);
    assert(t / 86_400_000 == day && t % 86_400_000 == w) by (nonlinear_arith)
        requires
            t == day * 86_400_000 + w,
            0 <= w < 86_400_000,
    ;
    let z = midnight_ms(day) + 28_800_000;
    assert(z % 86_400_000 == 0) by (nonlinear_arith)
        requires
            z == day * 86_400_000,
    ;
}

/// The day by the seconds on the clock is that of the same moment in milliseconds.
pub proof fn seconds_and_milliseconds_agree(secs: u64)
    ensures
        beijing_day(secs) == day_of_ms(secs * 1000),
{
    let t = secs + 28_800;
    assert((t * 1000) / 86_400_000 == t / 86_400) by (nonlinear_arith)
        requires
            0 <= t,
    ;
}

} // verus!
