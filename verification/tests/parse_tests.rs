use birthbot::birthday::Birthday;
use birthbot::parse::{HumanDateError, ParseBirthdayError, RfcDateError};

fn bd(year: i32, month: u8, day: u8, hour: u8, minute: u8, second: u8, offset: i16) -> Birthday {
    Birthday {
        year,
        month,
        day,
        hour,
        minute,
        second,
        offset_minutes: offset,
    }
}

#[test]
fn human_date_only() {
    assert_eq!(
        Birthday::from_text("1 November 2007"),
        Ok(bd(2007, 11, 1, 0, 0, 0, 0))
    );
}

#[test]
fn human_date_time() {
    assert_eq!(
        Birthday::from_text("19 July 2002, 01:13"),
        Ok(bd(2002, 7, 19, 1, 13, 0, 0))
    );
}

#[test]
fn human_date_time_offset() {
    assert_eq!(
        Birthday::from_text("23 June 1996, 14:35, +09:00"),
        Ok(bd(1996, 6, 23, 14, 35, 0, 540))
    );
}

#[test]
fn human_date_time_seconds() {
    assert_eq!(
        Birthday::from_text("23 June 1996, 14:35:59"),
        Ok(bd(1996, 6, 23, 14, 35, 59, 0))
    );
}

#[test]
fn human_negative_offset() {
    assert_eq!(
        Birthday::from_text("4 March 1988, 06:30, -05:30"),
        Ok(bd(1988, 3, 4, 6, 30, 0, -330))
    );
}

#[test]
fn canonical_form_parses() {
    assert_eq!(
        Birthday::from_text("01 November 2007 +00:00"),
        Ok(bd(2007, 11, 1, 0, 0, 0, 0))
    );
}

#[test]
fn rfc_date_only() {
    assert_eq!(
        Birthday::from_text("2007-11-01"),
        Ok(bd(2007, 11, 1, 0, 0, 0, 0))
    );
}

#[test]
fn rfc_date_time() {
    assert_eq!(
        Birthday::from_text("2002-07-19T01:13"),
        Ok(bd(2002, 7, 19, 1, 13, 0, 0))
    );
}

#[test]
fn rfc_date_time_offset() {
    assert_eq!(
        Birthday::from_text("1996-06-23T14:35+09:00"),
        Ok(bd(1996, 6, 23, 14, 35, 0, 540))
    );
}

#[test]
fn rfc_zulu() {
    assert_eq!(
        Birthday::from_text("2017-10-27T00:56Z"),
        Ok(bd(2017, 10, 27, 0, 56, 0, 0))
    );
}

#[test]
fn rfc_seconds() {
    assert_eq!(
        Birthday::from_text("2017-10-27T00:56:07-03:00"),
        Ok(bd(2017, 10, 27, 0, 56, 7, -180))
    );
}

#[test]
fn empty_input_is_empty_error() {
    assert_eq!(Birthday::from_text(""), Err(ParseBirthdayError::Empty));
    assert_eq!(Birthday::from_text("   \t "), Err(ParseBirthdayError::Empty));
}

#[test]
fn fallback_rfc_only_string_parses() {
    // Rejected by the human grammar (starts with a four-digit year), accepted
    // by the RFC-style grammar.
    assert!(Birthday::parse_human_date("2007-11-01").is_err());
    assert!(Birthday::parse_rfc3339_date("2007-11-01").is_ok());
    assert!(Birthday::from_text("2007-11-01").is_ok());
}

#[test]
fn fallback_human_only_string_parses() {
    assert!(Birthday::parse_human_date("1 November 2007").is_ok());
    assert!(Birthday::parse_rfc3339_date("1 November 2007").is_err());
    assert!(Birthday::from_text("1 November 2007").is_ok());
}

#[test]
fn invalid_both_keeps_both_diagnostics() {
    match Birthday::from_text("not a date at all") {
        Err(ParseBirthdayError::Invalid { human, rfc }) => {
            assert_eq!(human, HumanDateError::BadDay);
            assert_eq!(rfc, RfcDateError::BadDate);
        }
        other => panic!("expected Invalid, got {:?}", other),
    }
}

#[test]
fn human_error_variants() {
    assert_eq!(
        Birthday::parse_human_date("x"),
        Err(HumanDateError::BadDay)
    );
    assert_eq!(
        Birthday::parse_human_date("1 Nov 2007"),
        Err(HumanDateError::BadMonthName)
    );
    assert_eq!(
        Birthday::parse_human_date("1 November x"),
        Err(HumanDateError::BadYear)
    );
    assert_eq!(
        Birthday::parse_human_date("1 November 2007, 25:00"),
        Err(HumanDateError::BadTime)
    );
    assert_eq!(
        Birthday::parse_human_date("1 November 2007, 14:35, +25:00"),
        Err(HumanDateError::BadOffset)
    );
    assert_eq!(
        Birthday::parse_human_date("1 November 2007 what"),
        Err(HumanDateError::TrailingInput)
    );
    assert_eq!(
        Birthday::parse_human_date("31 February 2000"),
        Err(HumanDateError::InvalidDate)
    );
}

#[test]
fn rfc_error_variants() {
    assert_eq!(
        Birthday::parse_rfc3339_date("nope"),
        Err(RfcDateError::BadDate)
    );
    assert_eq!(
        Birthday::parse_rfc3339_date("2007-11-01T99:00"),
        Err(RfcDateError::BadTime)
    );
    assert_eq!(
        Birthday::parse_rfc3339_date("2007-11-01T00:00+99:00"),
        Err(RfcDateError::BadOffset)
    );
    assert_eq!(
        Birthday::parse_rfc3339_date("2007-11-01 what"),
        Err(RfcDateError::TrailingInput)
    );
    assert_eq!(
        Birthday::parse_rfc3339_date("2000-02-31"),
        Err(RfcDateError::InvalidDate)
    );
}

#[test]
fn round_trip_canonical() {
    let texts = [
        "01 November 2007 +00:00",
        "29 February 2000 +05:30",
        "03 May 0042 -11:45",
        "31 December 9999 +13:59",
    ];
    for text in texts {
        let parsed = Birthday::from_text(text).unwrap();
        assert_eq!(parsed.canonical_text(), text);
    }
}

#[test]
fn format_then_parse_drops_time() {
    let b = bd(1996, 6, 23, 14, 35, 59, 540);
    let text = b.canonical_text();
    assert_eq!(text, "23 June 1996 +09:00");
    let reparsed = Birthday::from_text(&text).unwrap();
    assert_eq!(reparsed, bd(1996, 6, 23, 0, 0, 0, 540));
    // Formatting ignores the time, so the round trip is exact.
    assert_eq!(reparsed.canonical_text(), text);
}

#[test]
fn parse_never_partially_succeeds() {
    // A valid date followed by a broken offset fails as a whole.
    assert!(Birthday::from_text("1 November 2007, 14:35, +9").is_err());
    assert!(Birthday::from_text("2007-11-01T14:35+9").is_err());
}

#[test]
fn str_parse_delegates_to_from_text() {
    let parsed: Birthday = "1 November 2007".parse().unwrap();
    assert_eq!(parsed, bd(2007, 11, 1, 0, 0, 0, 0));
    assert!("nonsense".parse::<Birthday>().is_err());
}

#[test]
fn error_messages() {
    assert_eq!(ParseBirthdayError::Empty.message(), "input is empty");
    assert_eq!(
        ParseBirthdayError::Invalid {
            human: HumanDateError::BadDay,
            rfc: RfcDateError::BadDate,
        }
        .message(),
        "invalid birthday format"
    );
    assert_eq!(HumanDateError::BadDay.message(), "expected a day number first");
    assert_eq!(
        RfcDateError::BadDate.message(),
        "expected a date in YYYY-MM-DD form"
    );
}
