//! The birthday value type: a calendar date-time with a fixed UTC offset,
//! and its derived quantities (birth instant, yearly occurrence, age).

use vstd::prelude::*;

use crate::calendar::{
    civil_secs, civil_secs_spec, days_in_month, instant_in_range, is_leap_spec,
    lemma_day_index_year_lt, lemma_days_before_year_bounds, valid_hms, valid_offset_minutes,
    valid_ymd,
};
use crate::error::BirthdayError;

verus! {

/// A calendar month, as presented at the command boundary.
#[derive(Clone, Copy, PartialEq, Eq, Structural, Debug)]
pub enum Month {
    Jan,
    Feb,
    Mar,
    Apr,
    May,
    Jun,
    Jul,
    Aug,
    Sep,
    Oct,
    Nov,
    Dec,
}

/// The 1-based number of a month.
pub open spec fn month_number_spec(m: Month) -> int {
    match m {
        Month::Jan => 1,
        Month::Feb => 2,
        Month::Mar => 3,
        Month::Apr => 4,
        Month::May => 5,
        Month::Jun => 6,
        Month::Jul => 7,
        Month::Aug => 8,
        Month::Sep => 9,
        Month::Oct => 10,
        Month::Nov => 11,
        Month::Dec => 12,
    }
}

impl Month {
    /// The 1-based number of this month.
    pub fn number(&self) -> (r: u8)
        ensures
            r == month_number_spec(*self),
    {
        match self {
            Month::Jan => 1,
            Month::Feb => 2,
            Month::Mar => 3,
            Month::Apr => 4,
            Month::May => 5,
            Month::Jun => 6,
            Month::Jul => 7,
            Month::Aug => 8,
            Month::Sep => 9,
            Month::Oct => 10,
            Month::Nov => 11,
            Month::Dec => 12,
        }
    }

    /// The month with 1-based number `n`, if `n` is in `1..=12`.
    pub fn from_number(n: u8) -> (r: Option<Month>)
        ensures
            1 <= n <= 12 ==> (r matches Some(m) && month_number_spec(m) == n as int),
            !(1 <= n <= 12) ==> r is None,
    {
        match n {
            1 => Some(Month::Jan),
            2 => Some(Month::Feb),
            3 => Some(Month::Mar),
            4 => Some(Month::Apr),
            5 => Some(Month::May),
            6 => Some(Month::Jun),
            7 => Some(Month::Jul),
            8 => Some(Month::Aug),
            9 => Some(Month::Sep),
            10 => Some(Month::Oct),
            11 => Some(Month::Nov),
            12 => Some(Month::Dec),
            _ => None,
        }
    }
}

/// A birth date and time in a fixed UTC offset. Immutable once built; the
/// constructors and the parser only ever produce well-formed values.
#[derive(Clone, Copy, PartialEq, Eq, Structural, Debug, Hash)]
pub struct Birthday {
    /// Gregorian year, `0..=9999`.
    pub year: i32,
    /// Month of the year, 1-based.
    pub month: u8,
    /// Day of the month, 1-based.
    pub day: u8,
    /// Hour of the day, `0..=23`.
    pub hour: u8,
    /// Minute, `0..=59`.
    pub minute: u8,
    /// Second, `0..=59`.
    pub second: u8,
    /// Fixed UTC offset in minutes, `-1439..=1439`.
    pub offset_minutes: i16,
}

impl Birthday {
    /// The value is a legal Gregorian calendar date-time with a legal fixed
    /// UTC offset.
    pub open spec fn well_formed(self) -> bool {
        &&& valid_ymd(self.year as int, self.month as int, self.day as int)
        &&& valid_hms(self.hour as int, self.minute as int, self.second as int)
        &&& valid_offset_minutes(self.offset_minutes as int)
    }

    /// The birth instant: seconds from the calendar epoch, in UTC.
    pub open spec fn instant_spec(self) -> int {
        civil_secs_spec(
            self.year as int,
            self.month as int,
            self.day as int,
            self.hour as int,
            self.minute as int,
            self.second as int,
        ) - self.offset_minutes as int * 60
    }

    /// Day of month of the occurrence projected onto year `y`: the birth day
    /// of month, except that Feb 29 falls back to Feb 28 in a non-leap year.
    pub open spec fn occurrence_day_spec(self, y: int) -> int {
        if self.month == 2 && self.day == 29 && !is_leap_spec(y) {
            28
        } else {
            self.day as int
        }
    }

    /// The occurrence instant of this birthday in year `y`: the birth
    /// month/day/time-of-day, in the birthday's own offset, projected onto
    /// year `y` with the Feb-29 -> Feb-28 fallback.
    pub open spec fn occurrence_spec(self, y: int) -> int {
        civil_secs_spec(
            y,
            self.month as int,
            self.occurrence_day_spec(y),
            self.hour as int,
            self.minute as int,
            self.second as int,
        ) - self.offset_minutes as int * 60
    }

    /// Whole years elapsed from the birth instant to instant `t`: the number
    /// of yearly occurrences after the birth year that lie at or before `t`.
    pub open spec fn age_spec(self, t: int) -> int {
        age_count(self, t, self.year + 1)
    }

    /// Builds a birthday from structured parts, validating every component.
    /// Returns `InvalidCalendarDate` exactly when the combination does not
    /// form a representable date-time.
    pub fn from_parts(
        day: u8,
        month: Month,
        year: i32,
        hour: u8,
        minute: u8,
        second: u8,
        offset_minutes: i16,
    ) -> (r: Result<Birthday, BirthdayError>)
        ensures
            ({
                let b = Birthday {
                    year,
                    month: month_number_spec(month) as u8,
                    day,
                    hour,
                    minute,
                    second,
                    offset_minutes,
                };
                if b.well_formed() {
                    r == Ok::<Birthday, BirthdayError>(b)
                } else {
                    r == Err::<Birthday, BirthdayError>(BirthdayError::InvalidCalendarDate)
                }
            }),
    {
        let m = month.number();
        if year < 0 || year > 9999 {
            return Err(BirthdayError::InvalidCalendarDate);
        }
        if day < 1 || day > days_in_month(year, m) {
            return Err(BirthdayError::InvalidCalendarDate);
        }
        if hour > 23 || minute > 59 || second > 59 {
            return Err(BirthdayError::InvalidCalendarDate);
        }
        if offset_minutes < -1439 || offset_minutes > 1439 {
            return Err(BirthdayError::InvalidCalendarDate);
        }
        Ok(
            Birthday {
                year,
                month: m,
                day,
                hour,
                minute,
                second,
                offset_minutes,
            },
        )
    }

    /// The birth instant as executable seconds.
    pub fn instant_of(&self) -> (r: i64)
        requires
            self.well_formed(),
        ensures
            r == self.instant_spec(),
            instant_in_range(r as int),
    {
        proof {
            lemma_days_before_year_bounds(0, 10000);
        }
        let civil = civil_secs(self.year, self.month, self.day, self.hour, self.minute, self.second);
        civil - (self.offset_minutes as i64) * 60
    }

    /// The occurrence instant of this birthday in year `y`.
    pub fn occurrence_in_year(&self, y: i32) -> (r: i64)
        requires
            self.well_formed(),
            0 <= y <= 9999,
        ensures
            r == self.occurrence_spec(y as int),
            instant_in_range(r as int),
    {
        proof {
            lemma_days_before_year_bounds(0, 10000);
            lemma_occurrence_day_valid(*self, y as int);
        }
        let day: u8 = if self.month == 2 && self.day == 29 && !crate::calendar::is_leap_year(y) {
            28
        } else {
            self.day
        };
        let civil = civil_secs(y, self.month, day, self.hour, self.minute, self.second);
        civil - (self.offset_minutes as i64) * 60
    }

    /// Caller-level validation before recording a birthday: the birth
    /// instant must lie strictly before `now`, else the record is rejected
    /// with `FutureBirthday`. This is not an invariant of the value itself,
    /// which stays constructible without access to a clock.
    pub fn check_not_future(&self, now: i64) -> (r: Result<(), BirthdayError>)
        requires
            self.well_formed(),
        ensures
            self.instant_spec() < now as int ==> r == Ok::<(), BirthdayError>(()),
            self.instant_spec() >= now as int ==> r == Err::<(), BirthdayError>(
                BirthdayError::FutureBirthday,
            ),
    {
        if self.instant_of() < now {
            Ok(())
        } else {
            Err(BirthdayError::FutureBirthday)
        }
    }

    /// Whole years elapsed from the birth instant to instant `t`.
    pub fn age_at(&self, t: i64) -> (r: u32)
        requires
            self.well_formed(),
        ensures
            r == self.age_spec(t as int),
    {
        let mut count: u32 = 0;
        let mut y: i32 = self.year + 1;
        while y <= 9999
            invariant
                self.well_formed(),
                self.year + 1 <= y <= 10000,
                0 <= count <= y - self.year - 1,
                self.age_spec(t as int) == count + age_count(*self, t as int, y as int),
            decreases 10000 - y,
        {
            let occ = self.occurrence_in_year(y);
            if occ <= t {
                count = count + 1;
            } else {
                proof {
                    lemma_age_count_zero(*self, t as int, y as int);
                }
                return count;
            }
            y = y + 1;
        }
        count
    }
}

/// Number of years `y..=9999` whose occurrence of `b` lies at or before `t`.
pub open spec fn age_count(b: Birthday, t: int, y: int) -> int
    decreases 10000 - y,
{
    if y < 0 || y > 9999 {
        0
    } else {
        (if b.occurrence_spec(y) <= t {
            1int
        } else {
            0int
        }) + age_count(b, t, y + 1)
    }
}

/// The projected occurrence day is always a legal day of its month.
pub proof fn lemma_occurrence_day_valid(b: Birthday, y: int)
    requires
        b.well_formed(),
        0 <= y <= 9999,
    ensures
        valid_ymd(y, b.month as int, b.occurrence_day_spec(y)),
{
}

/// Occurrences of one birthday in later years happen strictly later.
pub proof fn lemma_occurrence_increasing(b: Birthday, y1: int, y2: int)
    requires
        b.well_formed(),
        0 <= y1 < y2 <= 9999,
    ensures
        b.occurrence_spec(y1) < b.occurrence_spec(y2),
{
    lemma_occurrence_day_valid(b, y1);
    lemma_occurrence_day_valid(b, y2);
    lemma_day_index_year_lt(
        y1,
        b.month as int,
        b.occurrence_day_spec(y1),
        y2,
        b.month as int,
        b.occurrence_day_spec(y2),
    );
}

/// Once one year's occurrence is past `t`, no later year contributes.
proof fn lemma_age_count_zero(b: Birthday, t: int, y: int)
    requires
        b.well_formed(),
        0 <= y,
        y <= 9999 ==> b.occurrence_spec(y) > t,
    ensures
        age_count(b, t, y) == 0,
    decreases 10000 - y,
{
    if y <= 9999 {
        if y < 9999 {
            lemma_occurrence_increasing(b, y, y + 1);
        }
        lemma_age_count_zero(b, t, y + 1);
    }
}

/// Counting from a year on, larger reference instants never count fewer
/// occurrences.
proof fn lemma_age_count_monotone(b: Birthday, t1: int, t2: int, y: int)
    requires
        t1 <= t2,
    ensures
        age_count(b, t1, y) <= age_count(b, t2, y),
    decreases 10000 - y,
{
    if 0 <= y <= 9999 {
        lemma_age_count_monotone(b, t1, t2, y + 1);
    }
}

/// Age is monotone in the reference instant: a later "now" never yields a
/// smaller age.
pub proof fn lemma_age_monotonic(b: Birthday, t1: int, t2: int)
    requires
        b.well_formed(),
        t1 <= t2,
    ensures
        b.age_spec(t1) <= b.age_spec(t2),
{
    lemma_age_count_monotone(b, t1, t2, b.year + 1);
}

/// A Feb-29 birthday projected onto a non-leap year falls on Feb 28,
/// deterministically; onto a leap year it keeps Feb 29.
pub proof fn lemma_leap_day_fallback(b: Birthday, y: int)
    requires
        b.well_formed(),
        b.month == 2,
        b.day == 29,
        0 <= y <= 9999,
    ensures
        !is_leap_spec(y) ==> b.occurrence_day_spec(y) == 28,
        is_leap_spec(y) ==> b.occurrence_day_spec(y) == 29,
{
}

/// At the exact occurrence instant of year `y`, the age is `y - birth year`:
/// each year's occurrence raises the age by exactly one, with no double
/// counting across leap-day fallbacks.
pub proof fn lemma_age_at_occurrence(b: Birthday, y: int)
    requires
        b.well_formed(),
        b.year < y <= 9999,
    ensures
        b.age_spec(b.occurrence_spec(y)) == y - b.year,
{
    lemma_age_count_upto(b, y, b.year + 1);
}

/// Counting from `from`, the occurrences at or before `occurrence(y)` are
/// exactly the years `from..=y`.
proof fn lemma_age_count_upto(b: Birthday, y: int, from: int)
    requires
        b.well_formed(),
        0 <= from,
        b.year < from,
        from <= y <= 9999,
    ensures
        age_count(b, b.occurrence_spec(y), from) == y - from + 1,
    decreases y - from,
{
    if from < y {
        lemma_occurrence_increasing(b, from, y);
        lemma_age_count_upto(b, y, from + 1);
    } else {
        lemma_age_count_zero_after(b, y);
    }
}

/// Years after `y` contribute nothing to the count at `occurrence(y)`.
proof fn lemma_age_count_zero_after(b: Birthday, y: int)
    requires
        b.well_formed(),
        0 <= y <= 9999,
    ensures
        age_count(b, b.occurrence_spec(y), y + 1) == 0,
{
    if y + 1 <= 9999 {
        lemma_occurrence_increasing(b, y, y + 1);
        lemma_age_count_zero(b, b.occurrence_spec(y), y + 1);
    }
}

} // verus!
