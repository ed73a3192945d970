//! Proleptic Gregorian calendar arithmetic over plain integers.
//!
//! Years are restricted to the range `0..=9999`, which is the range the
//! canonical four-digit textual formats can express. An *instant* is a count
//! of seconds in UTC measured from the start of year 0 (midnight, 1 January
//! of year 0, offset +00:00); instants of representable civil times occupy a
//! bounded window around `[0, days_before_year(10000) * 86400)`.

use vstd::prelude::*;

verus! {

/// Whether `y` is a Gregorian leap year.
pub open spec fn is_leap_spec(y: int) -> bool {
    (y % 4 == 0 && y % 100 != 0) || y % 400 == 0
}

/// Number of days in year `y`: 366 in a leap year, 365 otherwise.
pub open spec fn days_in_year_spec(y: int) -> int {
    if is_leap_spec(y) {
        366
    } else {
        365
    }
}

/// Number of days in month `m` (1-based) of year `y`; 0 outside `1..=12`.
pub open spec fn days_in_month_spec(y: int, m: int) -> int {
    if m == 1 || m == 3 || m == 5 || m == 7 || m == 8 || m == 10 || m == 12 {
        31
    } else if m == 4 || m == 6 || m == 9 || m == 11 {
        30
    } else if m == 2 {
        if is_leap_spec(y) {
            29
        } else {
            28
        }
    } else {
        0
    }
}

/// A calendar date the model can represent: year within the four-digit
/// range and a day-of-month legal for the month and year.
pub open spec fn valid_ymd(y: int, m: int, d: int) -> bool {
    &&& 0 <= y <= 9999
    &&& 1 <= m <= 12
    &&& 1 <= d <= days_in_month_spec(y, m)
}

/// A legal 24-hour wall-clock time.
pub open spec fn valid_hms(h: int, mi: int, s: int) -> bool {
    &&& 0 <= h < 24
    &&& 0 <= mi < 60
    &&& 0 <= s < 60
}

/// A legal fixed UTC offset, in minutes: anything a signed `HH:MM` with
/// `HH <= 23` and `MM <= 59` can express.
pub open spec fn valid_offset_minutes(o: int) -> bool {
    -1439 <= o <= 1439
}

/// Number of days in all years before `y` (counted from year 0).
pub open spec fn days_before_year(y: int) -> int
    decreases y,
{
    if y <= 0 {
        0
    } else {
        days_before_year(y - 1) + days_in_year_spec(y - 1)
    }
}

/// Number of days in year `y` strictly before month `m`.
pub open spec fn days_before_month(y: int, m: int) -> int
    decreases m,
{
    if m <= 1 {
        0
    } else {
        days_before_month(y, m - 1) + days_in_month_spec(y, m - 1)
    }
}

/// Days elapsed from the calendar epoch (1 January of year 0) to the date
/// `y-m-d`.
pub open spec fn day_index_spec(y: int, m: int, d: int) -> int {
    days_before_year(y) + days_before_month(y, m) + (d - 1)
}

/// Seconds elapsed from the calendar epoch to the civil time `y-m-d h:mi:s`,
/// read as a wall-clock time (no offset applied).
pub open spec fn civil_secs_spec(y: int, m: int, d: int, h: int, mi: int, s: int) -> int {
    day_index_spec(y, m, d) * 86400 + h * 3600 + mi * 60 + s
}

/// The UTC instants the model works over: every instant of a representable
/// civil time shifted by a legal offset lies inside this window.
pub open spec fn instant_in_range(t: int) -> bool {
    -86400 <= t <= days_before_year(10000) * 86400 + 86400
}

/// A loose numeric bound on instants, wide enough for every representable
/// civil time and for anything a bounded Unix timestamp converts to; it is
/// what the window arithmetic needs to stay inside `i64`.
pub open spec fn instant_bounded(t: int) -> bool {
    -400000000000 <= t <= 400000000000
}

/// The year whose days contain instant `t`, scanning upward from year `y`;
/// clamps to the representable range.
pub open spec fn year_of_from(t: int, y: int) -> int
    decreases 9999 - y,
{
    if y < 0 || y >= 9999 {
        9999
    } else if t < days_before_year(y + 1) * 86400 {
        y
    } else {
        year_of_from(t, y + 1)
    }
}

/// The year (clamped to `0..=9999`) whose days contain instant `t`.
pub open spec fn year_of_instant_spec(t: int) -> int {
    year_of_from(t, 0)
}

/// `days_before_year` grows by at least 365 and at most 366 per year.
pub proof fn lemma_days_before_year_bounds(y1: int, y2: int)
    requires
        0 <= y1 <= y2,
    ensures
        days_before_year(y1) + 365 * (y2 - y1) <= days_before_year(y2),
        days_before_year(y2) <= days_before_year(y1) + 366 * (y2 - y1),
    decreases y2 - y1,
{
    if y1 < y2 {
        lemma_days_before_year_bounds(y1, y2 - 1);
    }
}

/// `days_before_year` is never negative.
pub proof fn lemma_days_before_year_nonneg(y: int)
    ensures
        0 <= days_before_year(y),
    decreases y,
{
    if y > 0 {
        lemma_days_before_year_nonneg(y - 1);
    }
}

/// Summing every month of a year gives exactly that year's day count.
pub proof fn lemma_days_before_month_full_year(y: int)
    ensures
        days_before_month(y, 13) == days_in_year_spec(y),
{
    reveal_with_fuel(days_before_month, 13);
}

/// `days_before_month` is monotone over the months of a year.
pub proof fn lemma_days_before_month_monotone(y: int, m1: int, m2: int)
    requires
        m1 <= m2,
    ensures
        days_before_month(y, m1) <= days_before_month(y, m2),
    decreases m2 - m1,
{
    if m1 < m2 {
        lemma_days_before_month_monotone(y, m1, m2 - 1);
    }
}

/// A valid day of month sits strictly inside its year's day count.
pub proof fn lemma_day_of_year_bounds(y: int, m: int, d: int)
    requires
        1 <= m <= 12,
        1 <= d <= days_in_month_spec(y, m),
    ensures
        0 <= days_before_month(y, m) + (d - 1) < days_in_year_spec(y),
{
    lemma_days_before_month_monotone(y, 1, m);
    assert(days_before_month(y, m + 1) == days_before_month(y, m) + days_in_month_spec(y, m));
    lemma_days_before_month_monotone(y, m + 1, 13);
    lemma_days_before_month_full_year(y);
}

/// Any valid date of an earlier year precedes any valid date of a later year.
pub proof fn lemma_day_index_year_lt(y1: int, m1: int, d1: int, y2: int, m2: int, d2: int)
    requires
        0 <= y1 < y2,
        1 <= m1 <= 12,
        1 <= d1 <= days_in_month_spec(y1, m1),
        1 <= m2 <= 12,
        1 <= d2 <= days_in_month_spec(y2, m2),
    ensures
        day_index_spec(y1, m1, d1) < day_index_spec(y2, m2, d2),
{
    lemma_day_of_year_bounds(y1, m1, d1);
    lemma_day_of_year_bounds(y2, m2, d2);
    assert(days_before_year(y1 + 1) == days_before_year(y1) + days_in_year_spec(y1));
    lemma_days_before_year_bounds(y1 + 1, y2);
}

/// A valid date's day index lies inside the representable window.
pub proof fn lemma_day_index_bounds(y: int, m: int, d: int)
    requires
        valid_ymd(y, m, d),
    ensures
        0 <= day_index_spec(y, m, d) < days_before_year(10000),
{
    lemma_day_of_year_bounds(y, m, d);
    lemma_days_before_year_nonneg(y);
    assert(days_before_year(y + 1) == days_before_year(y) + days_in_year_spec(y));
    lemma_days_before_year_bounds(y + 1, 10000);
}

/// Whether `y` is a Gregorian leap year.
pub fn is_leap_year(y: i32) -> (r: bool)
    requires
        0 <= y,
    ensures
        r == is_leap_spec(y as int),
{
    (y % 4 == 0 && y % 100 != 0) || y % 400 == 0
}

/// Number of days in month `m` of year `y`.
pub fn days_in_month(y: i32, m: u8) -> (r: u8)
    requires
        0 <= y,
        1 <= m <= 12,
    ensures
        r == days_in_month_spec(y as int, m as int),
{
    if m == 4 || m == 6 || m == 9 || m == 11 {
        30
    } else if m == 2 {
        if is_leap_year(y) {
            29
        } else {
            28
        }
    } else {
        31
    }
}

/// Number of days in all years before `y`.
pub fn days_before_year_count(y: i32) -> (r: i64)
    requires
        0 <= y <= 10000,
    ensures
        r == days_before_year(y as int),
{
    let mut acc: i64 = 0;
    let mut i: i32 = 0;
    while i < y
        invariant
            0 <= i <= y <= 10000,
            acc == days_before_year(i as int),
            0 <= acc <= 366 * i,
        decreases y - i,
    {
        let days: i64 = if is_leap_year(i) {
            366
        } else {
            365
        };
        acc = acc + days;
        i = i + 1;
    }
    acc
}

/// Days elapsed from the calendar epoch to the date `y-m-d`.
pub fn day_index(y: i32, m: u8, d: u8) -> (r: i64)
    requires
        valid_ymd(y as int, m as int, d as int),
    ensures
        r == day_index_spec(y as int, m as int, d as int),
        0 <= r < days_before_year(10000),
{
    proof {
        lemma_day_index_bounds(y as int, m as int, d as int);
        lemma_day_of_year_bounds(y as int, m as int, d as int);
        lemma_days_before_year_bounds(0, y as int);
    }
    let years: i64 = days_before_year_count(y);
    let mut months: i64 = 0;
    let mut i: u8 = 1;
    while i < m
        invariant
            1 <= i <= m <= 12,
            0 <= y,
            months == days_before_month(y as int, i as int),
            0 <= months <= 366,
        decreases m - i,
    {
        proof {
            lemma_days_before_month_monotone(y as int, i as int + 1, 13);
            lemma_days_before_month_full_year(y as int);
        }
        months = months + days_in_month(y, i) as i64;
        i = i + 1;
    }
    years + months + (d as i64 - 1)
}

/// Seconds elapsed from the calendar epoch to the civil time `y-m-d h:mi:s`.
pub fn civil_secs(y: i32, m: u8, d: u8, h: u8, mi: u8, s: u8) -> (r: i64)
    requires
        valid_ymd(y as int, m as int, d as int),
        valid_hms(h as int, mi as int, s as int),
    ensures
        r == civil_secs_spec(y as int, m as int, d as int, h as int, mi as int, s as int),
        0 <= r < days_before_year(10000) * 86400,
{
    proof {
        lemma_days_before_year_bounds(0, 10000);
    }
    let idx = day_index(y, m, d);
    idx * 86400 + (h as i64) * 3600 + (mi as i64) * 60 + (s as i64)
}

/// The year whose days contain instant `t`, clamped to `0..=9999`.
pub fn year_of_instant(t: i64) -> (r: i32)
    ensures
        r == year_of_instant_spec(t as int),
        0 <= r <= 9999,
{
    let mut y: i32 = 0;
    let mut next: i64 = 366;
    proof {
        lemma_year_of_from_clamped(t as int, 0);
        assert(days_before_year(1) == days_before_year(0) + days_in_year_spec(0));
        assert(is_leap_spec(0));
    }
    while y < 9999
        invariant
            0 <= y <= 9999,
            next == days_before_year(y as int + 1),
            0 <= next <= 366 * (y + 1),
            year_of_instant_spec(t as int) == year_of_from(t as int, y as int),
            0 <= year_of_from(t as int, y as int) <= 9999,
        decreases 9999 - y,
    {
        if t < next * 86400 {
            return y;
        }
        y = y + 1;
        let days: i64 = if is_leap_year(y) {
            366
        } else {
            365
        };
        next = next + days;
    }
    9999
}

/// Converts a Unix timestamp (seconds since 1970-01-01 00:00:00 UTC) to an
/// instant on this module's epoch (the start of year 0).
pub fn instant_from_unix(unix_secs: i64) -> (r: i64)
    requires
        -300000000000 <= unix_secs <= 300000000000,
    ensures
        r == unix_secs + days_before_year(1970) * 86400,
        instant_bounded(r as int),
{
    proof {
        lemma_days_before_year_bounds(0, 1970);
    }
    let epoch_days = days_before_year_count(1970);
    unix_secs + epoch_days * 86400
}

/// `year_of_from` always lands inside the representable year range.
pub proof fn lemma_year_of_from_clamped(t: int, y: int)
    requires
        0 <= y <= 9999,
    ensures
        0 <= year_of_from(t, y) <= 9999,
        y <= year_of_from(t, y),
    decreases 9999 - y,
{
    if y < 9999 && !(t < days_before_year(y + 1) * 86400) {
        lemma_year_of_from_clamped(t, y + 1);
    }
}

} // verus!
