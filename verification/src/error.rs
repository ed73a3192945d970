//! Error values for constructing and validating birthdays.

use vstd::prelude::*;

verus! {

/// Rejection reasons for building or recording a birthday from structured
/// parts. Parsing from text has its own error type in the parsing module.
#[derive(Clone, Copy, PartialEq, Eq, Structural, Debug)]
pub enum BirthdayError {
    /// The day/month/year/time/offset combination is not a representable
    /// calendar date-time.
    InvalidCalendarDate,
    /// The birth instant is at or after the reference "now": a birth date
    /// cannot be in the future. Raised by caller-level validation, not by
    /// the value type itself.
    FutureBirthday,
}

impl BirthdayError {
    /// A short human-readable description of the rejection.
    pub fn message(&self) -> (r: &'static str)
        ensures
            self is InvalidCalendarDate ==> r@ == "that is not a valid calendar date and time"@,
            self is FutureBirthday ==> r@ == "a birthday cannot be in the future"@,
    {
        match self {
            BirthdayError::InvalidCalendarDate => "that is not a valid calendar date and time",
            BirthdayError::FutureBirthday => "a birthday cannot be in the future",
        }
    }
}

} // verus!
