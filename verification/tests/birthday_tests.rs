use birthbot::birthday::{Birthday, Month};
use birthbot::calendar::{days_in_month, instant_from_unix, is_leap_year, year_of_instant};
use birthbot::error::BirthdayError;

fn bd(year: i32, month: u8, day: u8, hour: u8, minute: u8, second: u8, offset: i16) -> Birthday {
    Birthday {
        year,
        month,
        day,
        hour,
        minute,
        second,
        offset_minutes: offset,
    }
}

#[test]
fn leap_years() {
    assert!(is_leap_year(2000));
    assert!(!is_leap_year(1900));
    assert!(is_leap_year(2024));
    assert!(!is_leap_year(2023));
}

#[test]
fn month_lengths() {
    assert_eq!(days_in_month(2023, 2), 28);
    assert_eq!(days_in_month(2024, 2), 29);
    assert_eq!(days_in_month(2024, 4), 30);
    assert_eq!(days_in_month(2024, 12), 31);
}

#[test]
fn month_numbers() {
    assert_eq!(Month::Jan.number(), 1);
    assert_eq!(Month::Dec.number(), 12);
    assert_eq!(Month::from_number(2), Some(Month::Feb));
    assert_eq!(Month::from_number(0), None);
    assert_eq!(Month::from_number(13), None);
}

#[test]
fn from_parts_valid() {
    let b = Birthday::from_parts(1, Month::Nov, 2007, 0, 0, 0, 0).unwrap();
    assert_eq!(b, bd(2007, 11, 1, 0, 0, 0, 0));
}

#[test]
fn from_parts_invalid_calendar_date() {
    assert_eq!(
        Birthday::from_parts(30, Month::Feb, 2000, 0, 0, 0, 0),
        Err(BirthdayError::InvalidCalendarDate)
    );
    assert_eq!(
        Birthday::from_parts(29, Month::Feb, 2023, 0, 0, 0, 0),
        Err(BirthdayError::InvalidCalendarDate)
    );
    assert_eq!(
        Birthday::from_parts(1, Month::Jan, 2000, 24, 0, 0, 0),
        Err(BirthdayError::InvalidCalendarDate)
    );
    assert_eq!(
        Birthday::from_parts(1, Month::Jan, 2000, 0, 60, 0, 0),
        Err(BirthdayError::InvalidCalendarDate)
    );
    assert_eq!(
        Birthday::from_parts(1, Month::Jan, 2000, 0, 0, 0, 1500),
        Err(BirthdayError::InvalidCalendarDate)
    );
    assert_eq!(
        Birthday::from_parts(1, Month::Jan, -1, 0, 0, 0, 0),
        Err(BirthdayError::InvalidCalendarDate)
    );
}

#[test]
fn from_parts_leap_day() {
    assert!(Birthday::from_parts(29, Month::Feb, 2000, 0, 0, 0, 0).is_ok());
}

#[test]
fn instants_respect_offsets() {
    // The same wall-clock time further east is an earlier instant.
    let utc = bd(2000, 1, 1, 12, 0, 0, 0);
    let tokyo = bd(2000, 1, 1, 12, 0, 0, 540);
    assert_eq!(utc.instant_of() - tokyo.instant_of(), 540 * 60);
}

#[test]
fn age_counts_whole_years() {
    let b = bd(1990, 6, 15, 6, 0, 0, 0);
    // The moment just before the 34th birthday.
    let before = bd(2024, 6, 15, 5, 59, 59, 0).instant_of();
    assert_eq!(b.age_at(before), 33);
    // The exact anniversary instant counts.
    let at = bd(2024, 6, 15, 6, 0, 0, 0).instant_of();
    assert_eq!(b.age_at(at), 34);
}

#[test]
fn age_monotone_on_samples() {
    let b = bd(1990, 6, 15, 6, 0, 0, 0);
    let t1 = bd(2000, 1, 1, 0, 0, 0, 0).instant_of();
    let t2 = bd(2010, 1, 1, 0, 0, 0, 0).instant_of();
    let t3 = bd(2020, 12, 31, 23, 59, 59, 0).instant_of();
    assert!(b.age_at(t1) <= b.age_at(t2));
    assert!(b.age_at(t2) <= b.age_at(t3));
}

#[test]
fn leap_day_occurrence_falls_back_to_feb_28() {
    let b = bd(2000, 2, 29, 10, 30, 0, 0);
    // In a non-leap year the occurrence is Feb 28, same time of day.
    let expected = bd(2023, 2, 28, 10, 30, 0, 0).instant_of();
    assert_eq!(b.occurrence_in_year(2023), expected);
    // Every call gives the same result.
    assert_eq!(b.occurrence_in_year(2023), b.occurrence_in_year(2023));
    // In a leap year Feb 29 is kept.
    let kept = bd(2024, 2, 29, 10, 30, 0, 0).instant_of();
    assert_eq!(b.occurrence_in_year(2024), kept);
}

#[test]
fn leap_day_age_has_no_double_counting() {
    let b = bd(2000, 2, 29, 0, 0, 0, 0);
    // At each year's occurrence the age is exactly the year difference,
    // whether the projection was a real Feb 29 or the Feb 28 fallback.
    for year in [2001, 2002, 2003, 2004, 2005, 2023, 2024] {
        let occ = b.occurrence_in_year(year);
        assert_eq!(b.age_at(occ), (year - 2000) as u32);
    }
}

#[test]
fn check_not_future() {
    let b = bd(1990, 6, 15, 0, 0, 0, 0);
    let now = bd(2024, 1, 1, 0, 0, 0, 0).instant_of();
    assert_eq!(b.check_not_future(now), Ok(()));
    let fut = bd(2090, 6, 15, 0, 0, 0, 0);
    assert_eq!(fut.check_not_future(now), Err(BirthdayError::FutureBirthday));
    assert_eq!(
        BirthdayError::FutureBirthday.message(),
        "a birthday cannot be in the future"
    );
}

#[test]
fn canonical_text_examples() {
    assert_eq!(
        bd(2007, 11, 1, 0, 0, 0, 0).canonical_text(),
        "01 November 2007 +00:00"
    );
    assert_eq!(
        bd(1996, 6, 23, 14, 35, 0, 540).canonical_text(),
        "23 June 1996 +09:00"
    );
    assert_eq!(
        bd(1988, 3, 4, 0, 0, 0, -330).canonical_text(),
        "04 March 1988 -05:30"
    );
    assert_eq!(bd(42, 5, 3, 0, 0, 0, 0).canonical_text(), "03 May 0042 +00:00");
}

#[test]
fn unix_epoch_lands_in_1970() {
    let t = instant_from_unix(0);
    assert_eq!(year_of_instant(t), 1970);
    assert_eq!(t, bd(1970, 1, 1, 0, 0, 0, 0).instant_of());
    // 2024-06-15T00:00:00Z as a Unix timestamp.
    let t2 = instant_from_unix(1718409600);
    assert_eq!(t2, bd(2024, 6, 15, 0, 0, 0, 0).instant_of());
}
