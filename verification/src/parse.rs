//! Parsing birthdays from text. Two grammars are tried in order:
//!
//! 1. the human format `<day> <month-name> <year>[, <HH:MM[:SS]>][, <+HH:MM>]`
//!    (day-month-year order, full English month name; the offset may also
//!    follow the year directly, which is the canonical display form), and
//! 2. the RFC-3339 style format `YYYY-MM-DD[THH:MM[:SS]][+HH:MM|Z]`.
//!
//! Missing time defaults to `00:00:00`; missing offset defaults to `+00:00`.
//! Parsing never partially succeeds: either a complete well-formed birthday
//! is returned, or an error that distinguishes empty input from input that
//! matched neither grammar, keeping both grammars' diagnostics.

use vstd::prelude::*;

use crate::birthday::Birthday;
use crate::calendar::valid_ymd;
use crate::text::{
    alpha_end, alpha_end_from, chars_of, digit_char_spec, digit_char_test, digit_val, digits_end,
    digits_end_from, is_alpha_char, is_digit_char, lemma_alpha_end_run, lemma_digit_char_val,
    lemma_digits_end_run, lemma_num_val_four_digits, lemma_num_val_two_digits, lemma_skip_ws_run,
    month_name_spec, num_val, num_val_between, skip_ws, skip_ws_from,
};
use crate::format::{canonical_text_spec, month_name};

verus! {

/// Why the human grammar rejected an input.
#[derive(Clone, Copy, PartialEq, Eq, Structural, Debug)]
pub enum HumanDateError {
    /// No day number (one or two digits) at the start.
    BadDay,
    /// No full English month name after the day.
    BadMonthName,
    /// No year (one to four digits) after the month name.
    BadYear,
    /// A time part was started but is not a legal `HH:MM[:SS]`.
    BadTime,
    /// An offset part was started but is not a legal signed `HH:MM`.
    BadOffset,
    /// Leftover input after a complete date.
    TrailingInput,
    /// The parts parsed but do not form a legal calendar date.
    InvalidDate,
}

/// Why the RFC-3339-style grammar rejected an input.
#[derive(Clone, Copy, PartialEq, Eq, Structural, Debug)]
pub enum RfcDateError {
    /// No `YYYY-MM-DD` date at the start.
    BadDate,
    /// A `T` was seen but no legal `HH:MM[:SS]` follows.
    BadTime,
    /// An offset was started but is not `Z` or a legal signed `HH:MM`.
    BadOffset,
    /// Leftover input after a complete date-time.
    TrailingInput,
    /// The parts parsed but do not form a legal calendar date.
    InvalidDate,
}

/// Why a birthday could not be parsed from text at all.
#[derive(Clone, Copy, PartialEq, Eq, Structural, Debug)]
pub enum ParseBirthdayError {
    /// The input had no usable content after trimming.
    Empty,
    /// Both grammars rejected the input; each grammar's diagnostic is kept.
    Invalid { human: HumanDateError, rfc: RfcDateError },
}

impl HumanDateError {
    /// A short human-readable description of the rejection.
    pub fn message(&self) -> (r: &'static str)
        ensures
            self is BadDay ==> r@ == "expected a day number first"@,
            self is BadMonthName ==> r@ == "expected a full English month name after the day"@,
            self is BadYear ==> r@ == "expected a year after the month name"@,
            self is BadTime ==> r@ == "the time is not a valid HH:MM or HH:MM:SS"@,
            self is BadOffset ==> r@ == "the offset is not a valid +HH:MM or -HH:MM"@,
            self is TrailingInput ==> r@ == "unexpected text after the date"@,
            self is InvalidDate ==> r@ == "not a valid year-month-day combination"@,
    {
        match self {
            HumanDateError::BadDay => "expected a day number first",
            HumanDateError::BadMonthName => "expected a full English month name after the day",
            HumanDateError::BadYear => "expected a year after the month name",
            HumanDateError::BadTime => "the time is not a valid HH:MM or HH:MM:SS",
            HumanDateError::BadOffset => "the offset is not a valid +HH:MM or -HH:MM",
            HumanDateError::TrailingInput => "unexpected text after the date",
            HumanDateError::InvalidDate => "not a valid year-month-day combination",
        }
    }
}

impl RfcDateError {
    /// A short human-readable description of the rejection.
    pub fn message(&self) -> (r: &'static str)
        ensures
            self is BadDate ==> r@ == "expected a date in YYYY-MM-DD form"@,
            self is BadTime ==> r@ == "the time is not a valid THH:MM or THH:MM:SS"@,
            self is BadOffset ==> r@ == "the offset is not Z or a valid +HH:MM or -HH:MM"@,
            self is TrailingInput ==> r@ == "unexpected text after the date"@,
            self is InvalidDate ==> r@ == "not a valid year-month-day combination"@,
    {
        match self {
            RfcDateError::BadDate => "expected a date in YYYY-MM-DD form",
            RfcDateError::BadTime => "the time is not a valid THH:MM or THH:MM:SS",
            RfcDateError::BadOffset => "the offset is not Z or a valid +HH:MM or -HH:MM",
            RfcDateError::TrailingInput => "unexpected text after the date",
            RfcDateError::InvalidDate => "not a valid year-month-day combination",
        }
    }
}

impl ParseBirthdayError {
    /// A short human-readable description of the rejection. The grammar
    /// diagnostics of an `Invalid` value stay available on its fields.
    pub fn message(&self) -> (r: &'static str)
        ensures
            self is Empty ==> r@ == "input is empty"@,
            self is Invalid ==> r@ == "invalid birthday format"@,
    {
        match self {
            ParseBirthdayError::Empty => "input is empty",
            ParseBirthdayError::Invalid { .. } => "invalid birthday format",
        }
    }
}

/// A 24-hour time `HH:MM[:SS]` at position `i`: the parsed hour, minute,
/// second and the position after, or nothing if no legal time starts here.
pub open spec fn parse_time_at(s: Seq<char>, i: int) -> Option<(int, int, int, int)> {
    if i + 5 <= s.len() && is_digit_char(s[i]) && is_digit_char(s[i + 1]) && s[i + 2] == ':'
        && is_digit_char(s[i + 3]) && is_digit_char(s[i + 4]) {
        let h = digit_val(s[i]) * 10 + digit_val(s[i + 1]);
        let mi = digit_val(s[i + 3]) * 10 + digit_val(s[i + 4]);
        if h <= 23 && mi <= 59 {
            if i + 6 <= s.len() && s[i + 5] == ':' {
                if i + 8 <= s.len() && is_digit_char(s[i + 6]) && is_digit_char(s[i + 7]) {
                    let sec = digit_val(s[i + 6]) * 10 + digit_val(s[i + 7]);
                    if sec <= 59 {
                        Some((h, mi, sec, i + 8))
                    } else {
                        None
                    }
                } else {
                    None
                }
            } else {
                Some((h, mi, 0, i + 5))
            }
        } else {
            None
        }
    } else {
        None
    }
}

/// A signed offset `+HH:MM`/`-HH:MM` at position `i`: the offset in minutes
/// and the position after, or nothing if no legal offset starts here.
pub open spec fn parse_offset_at(s: Seq<char>, i: int) -> Option<(int, int)> {
    if 0 <= i && i + 6 <= s.len() && (s[i] == '+' || s[i] == '-') && is_digit_char(s[i + 1])
        && is_digit_char(s[i + 2]) && s[i + 3] == ':' && is_digit_char(s[i + 4]) && is_digit_char(
        s[i + 5],
    ) {
        let h = digit_val(s[i + 1]) * 10 + digit_val(s[i + 2]);
        let mi = digit_val(s[i + 4]) * 10 + digit_val(s[i + 5]);
        if h <= 23 && mi <= 59 {
            Some(
                (
                    if s[i] == '-' {
                        -(h * 60 + mi)
                    } else {
                        h * 60 + mi
                    },
                    i + 6,
                ),
            )
        } else {
            None
        }
    } else {
        None
    }
}

/// The month whose full English name the token is, if any.
pub open spec fn month_of_name(t: Seq<char>) -> Option<int> {
    if t == month_name_spec(1) {
        Some(1)
    } else if t == month_name_spec(2) {
        Some(2)
    } else if t == month_name_spec(3) {
        Some(3)
    } else if t == month_name_spec(4) {
        Some(4)
    } else if t == month_name_spec(5) {
        Some(5)
    } else if t == month_name_spec(6) {
        Some(6)
    } else if t == month_name_spec(7) {
        Some(7)
    } else if t == month_name_spec(8) {
        Some(8)
    } else if t == month_name_spec(9) {
        Some(9)
    } else if t == month_name_spec(10) {
        Some(10)
    } else if t == month_name_spec(11) {
        Some(11)
    } else if t == month_name_spec(12) {
        Some(12)
    } else {
        None
    }
}

/// Assembles parsed parts into a birthday, rejecting an illegal calendar
/// date. Times and offsets are already range-checked by their parsers.
pub open spec fn human_build(
    day: int,
    month: int,
    year: int,
    h: int,
    mi: int,
    sec: int,
    off: int,
) -> Result<Birthday, HumanDateError> {
    if valid_ymd(year, month, day) {
        Ok(
            Birthday {
                year: year as i32,
                month: month as u8,
                day: day as u8,
                hour: h as u8,
                minute: mi as u8,
                second: sec as u8,
                offset_minutes: off as i16,
            },
        )
    } else {
        Err(HumanDateError::InvalidDate)
    }
}

/// What may follow the `<day> <month-name> <year>` head: nothing, an inline
/// offset, a comma and an offset, or a comma and a time optionally followed
/// by a comma (or nothing) and an offset.
pub open spec fn parse_human_tail(
    s: Seq<char>,
    i: int,
    day: int,
    month: int,
    year: int,
) -> Result<Birthday, HumanDateError> {
    let i3 = skip_ws(s, i);
    if i3 == s.len() {
        human_build(day, month, year, 0, 0, 0, 0)
    } else if s[i3] == ',' {
        let i4 = skip_ws(s, i3 + 1);
        if i4 < s.len() && (s[i4] == '+' || s[i4] == '-') {
            match parse_offset_at(s, i4) {
                Option::None => Err(HumanDateError::BadOffset),
                Option::Some((off, i5)) => {
                    if skip_ws(s, i5) == s.len() {
                        human_build(day, month, year, 0, 0, 0, off)
                    } else {
                        Err(HumanDateError::TrailingInput)
                    }
                },
            }
        } else {
            match parse_time_at(s, i4) {
                Option::None => Err(HumanDateError::BadTime),
                Option::Some((h, mi, sec, i5)) => {
                    let i6 = skip_ws(s, i5);
                    if i6 == s.len() {
                        human_build(day, month, year, h, mi, sec, 0)
                    } else if s[i6] == ',' {
                        let i7 = skip_ws(s, i6 + 1);
                        match parse_offset_at(s, i7) {
                            Option::None => Err(HumanDateError::BadOffset),
                            Option::Some((off, i8)) => {
                                if skip_ws(s, i8) == s.len() {
                                    human_build(day, month, year, h, mi, sec, off)
                                } else {
                                    Err(HumanDateError::TrailingInput)
                                }
                            },
                        }
                    } else {
                        Err(HumanDateError::TrailingInput)
                    }
                },
            }
        }
    } else if s[i3] == '+' || s[i3] == '-' {
        match parse_offset_at(s, i3) {
            Option::None => Err(HumanDateError::BadOffset),
            Option::Some((off, i5)) => {
                if skip_ws(s, i5) == s.len() {
                    human_build(day, month, year, 0, 0, 0, off)
                } else {
                    Err(HumanDateError::TrailingInput)
                }
            },
        }
    } else {
        Err(HumanDateError::TrailingInput)
    }
}

/// The human grammar: `<day> <month-name> <year>` with optional time and
/// offset parts.
pub open spec fn parse_human_spec(s: Seq<char>) -> Result<Birthday, HumanDateError> {
    let i0 = skip_ws(s, 0);
    let de = digits_end(s, i0);
    if de == i0 || de - i0 > 2 {
        Err(HumanDateError::BadDay)
    } else {
        let day = num_val(s, i0, de);
        let i1 = skip_ws(s, de);
        if i1 == de {
            Err(HumanDateError::BadMonthName)
        } else {
            let ae = alpha_end(s, i1);
            match month_of_name(s.subrange(i1, ae)) {
                Option::None => Err(HumanDateError::BadMonthName),
                Option::Some(month) => {
                    let i2 = skip_ws(s, ae);
                    if i2 == ae {
                        Err(HumanDateError::BadYear)
                    } else {
                        let ye = digits_end(s, i2);
                        if ye == i2 || ye - i2 > 4 {
                            Err(HumanDateError::BadYear)
                        } else {
                            parse_human_tail(s, ye, day, month, num_val(s, i2, ye))
                        }
                    }
                },
            }
        }
    }
}

/// See `human_build`; the RFC-style grammar reports its own error type.
pub open spec fn rfc_build(
    year: int,
    month: int,
    day: int,
    h: int,
    mi: int,
    sec: int,
    off: int,
) -> Result<Birthday, RfcDateError> {
    if valid_ymd(year, month, day) {
        Ok(
            Birthday {
                year: year as i32,
                month: month as u8,
                day: day as u8,
                hour: h as u8,
                minute: mi as u8,
                second: sec as u8,
                offset_minutes: off as i16,
            },
        )
    } else {
        Err(RfcDateError::InvalidDate)
    }
}

/// What may follow a parsed `YYYY-MM-DDTHH:MM[:SS]`: nothing, `Z`, or a
/// signed offset, each with only whitespace after.
pub open spec fn parse_rfc_tail(
    s: Seq<char>,
    k: int,
    year: int,
    month: int,
    day: int,
    h: int,
    mi: int,
    sec: int,
) -> Result<Birthday, RfcDateError> {
    if k == s.len() {
        rfc_build(year, month, day, h, mi, sec, 0)
    } else if s[k] == 'Z' {
        if skip_ws(s, k + 1) == s.len() {
            rfc_build(year, month, day, h, mi, sec, 0)
        } else {
            Err(RfcDateError::TrailingInput)
        }
    } else if s[k] == '+' || s[k] == '-' {
        match parse_offset_at(s, k) {
            Option::None => Err(RfcDateError::BadOffset),
            Option::Some((off, l)) => {
                if skip_ws(s, l) == s.len() {
                    rfc_build(year, month, day, h, mi, sec, off)
                } else {
                    Err(RfcDateError::TrailingInput)
                }
            },
        }
    } else if skip_ws(s, k) == s.len() {
        rfc_build(year, month, day, h, mi, sec, 0)
    } else {
        Err(RfcDateError::TrailingInput)
    }
}

/// The RFC-3339-style grammar: `YYYY-MM-DD`, optionally `T HH:MM[:SS]`,
/// optionally `Z` or a signed offset.
pub open spec fn parse_rfc_spec(s: Seq<char>) -> Result<Birthday, RfcDateError> {
    let i = skip_ws(s, 0);
    if i + 10 <= s.len() && is_digit_char(s[i]) && is_digit_char(s[i + 1]) && is_digit_char(
        s[i + 2],
    ) && is_digit_char(s[i + 3]) && s[i + 4] == '-' && is_digit_char(s[i + 5]) && is_digit_char(
        s[i + 6],
    ) && s[i + 7] == '-' && is_digit_char(s[i + 8]) && is_digit_char(s[i + 9]) {
        let year = num_val(s, i, i + 4);
        let month = digit_val(s[i + 5]) * 10 + digit_val(s[i + 6]);
        let day = digit_val(s[i + 8]) * 10 + digit_val(s[i + 9]);
        let j = i + 10;
        if j == s.len() {
            rfc_build(year, month, day, 0, 0, 0, 0)
        } else if s[j] == 'T' {
            match parse_time_at(s, j + 1) {
                Option::None => Err(RfcDateError::BadTime),
                Option::Some((h, mi, sec, k)) => parse_rfc_tail(s, k, year, month, day, h, mi, sec),
            }
        } else if skip_ws(s, j) == s.len() {
            rfc_build(year, month, day, 0, 0, 0, 0)
        } else {
            Err(RfcDateError::TrailingInput)
        }
    } else {
        Err(RfcDateError::BadDate)
    }
}

/// Parsing a birthday from free text: whitespace-only input is `Empty`; the
/// human grammar is tried first, then the RFC-style grammar; if both reject,
/// both diagnostics are returned.
pub open spec fn from_text_spec(s: Seq<char>) -> Result<Birthday, ParseBirthdayError> {
    if skip_ws(s, 0) == s.len() {
        Err(ParseBirthdayError::Empty)
    } else {
        match parse_human_spec(s) {
            Result::Ok(b) => Ok(b),
            Result::Err(h) => match parse_rfc_spec(s) {
                Result::Ok(b) => Ok(b),
                Result::Err(r) => Err(ParseBirthdayError::Invalid { human: h, rfc: r }),
            },
        }
    }
}

/// Numeric value of a digit character.
fn dval(c: char) -> (r: u8)
    requires
        is_digit_char(c),
    ensures
        r == digit_val(c),
{
    ((c as u32) - 48) as u8
}

/// Whether `v[i..j)` holds exactly the characters of `name`.
fn region_matches(v: &Vec<char>, i: usize, j: usize, name: &str) -> (r: bool)
    requires
        i <= j <= v@.len(),
    ensures
        r == (v@.subrange(i as int, j as int) == name@),
{
    let nm = chars_of(name);
    let ghost region = v@.subrange(i as int, j as int);
    if j - i != nm.len() {
        proof {
            assert(region.len() == j - i);
        }
        return false;
    }
    let mut k: usize = 0;
    while k < nm.len()
        invariant
            i <= j <= v@.len(),
            nm@ == name@,
            nm@.len() == j - i,
            region == v@.subrange(i as int, j as int),
            k <= nm@.len(),
            forall|q: int| 0 <= q < k ==> region[q] == nm@[q],
        decreases nm@.len() - k,
    {
        if v[i + k] != nm[k] {
            proof {
                assert(region[k as int] == v@[i as int + k as int]);
            }
            return false;
        }
        k = k + 1;
    }
    proof {
        assert(region =~= name@);
    }
    true
}

/// Looks the token `v[i..j)` up among the English month names.
fn month_lookup(v: &Vec<char>, i: usize, j: usize) -> (r: Option<u8>)
    requires
        i <= j <= v@.len(),
    ensures
        ({
            let g = month_of_name(v@.subrange(i as int, j as int));
            match r {
                Option::None => g is None,
                Option::Some(m) => 1 <= m <= 12 && g == Some(m as int),
            }
        }),
{
    let mut m: u8 = 1;
    while m <= 12
        invariant
            i <= j <= v@.len(),
            1 <= m <= 13,
            forall|k: int| 1 <= k < m ==> v@.subrange(i as int, j as int) != month_name_spec(k),
        decreases 13 - m,
    {
        if region_matches(v, i, j, month_name(m)) {
            return Some(m);
        }
        m = m + 1;
    }
    None
}

/// Executable form of `parse_time_at`.
fn time_at(v: &Vec<char>, i: usize) -> (r: Option<(u8, u8, u8, usize)>)
    requires
        i <= v@.len(),
    ensures
        ({
            let g = parse_time_at(v@, i as int);
            match r {
                Option::None => g is None,
                Option::Some(t) => g == Some((t.0 as int, t.1 as int, t.2 as int, t.3 as int))
                    && t.3 <= v@.len(),
            }
        }),
{
    if v.len() - i < 5 {
        return None;
    }
    if !(digit_char_test(v[i]) && digit_char_test(v[i + 1]) && v[i + 2] == ':' && digit_char_test(
        v[i + 3],
    ) && digit_char_test(v[i + 4])) {
        return None;
    }
    let h = dval(v[i]) * 10 + dval(v[i + 1]);
    let mi = dval(v[i + 3]) * 10 + dval(v[i + 4]);
    if h > 23 || mi > 59 {
        return None;
    }
    if v.len() - i >= 6 && v[i + 5] == ':' {
        if v.len() - i >= 8 && digit_char_test(v[i + 6]) && digit_char_test(v[i + 7]) {
            let sec = dval(v[i + 6]) * 10 + dval(v[i + 7]);
            if sec <= 59 {
                Some((h, mi, sec, i + 8))
            } else {
                None
            }
        } else {
            None
        }
    } else {
        Some((h, mi, 0, i + 5))
    }
}

/// Executable form of `parse_offset_at`.
fn offset_at(v: &Vec<char>, i: usize) -> (r: Option<(i16, usize)>)
    requires
        i <= v@.len(),
    ensures
        ({
            let g = parse_offset_at(v@, i as int);
            match r {
                Option::None => g is None,
                Option::Some(t) => g == Some((t.0 as int, t.1 as int)) && t.1 <= v@.len() && -1439
                    <= t.0 <= 1439,
            }
        }),
{
    if v.len() - i < 6 {
        return None;
    }
    let sign = v[i];
    if !((sign == '+' || sign == '-') && digit_char_test(v[i + 1]) && digit_char_test(v[i + 2])
        && v[i + 3] == ':' && digit_char_test(v[i + 4]) && digit_char_test(v[i + 5])) {
        return None;
    }
    let h = dval(v[i + 1]) * 10 + dval(v[i + 2]);
    let mi = dval(v[i + 4]) * 10 + dval(v[i + 5]);
    if h > 23 || mi > 59 {
        return None;
    }
    let total: i16 = (h as i16) * 60 + (mi as i16);
    if sign == '-' {
        Some((-total, i + 6))
    } else {
        Some((total, i + 6))
    }
}

/// Executable form of `human_build`.
fn build_human(day: u32, month: u8, year: u32, h: u8, mi: u8, sec: u8, off: i16) -> (r: Result<
    Birthday,
    HumanDateError,
>)
    requires
        day <= 99,
        1 <= month <= 12,
        year <= 9999,
        h <= 23,
        mi <= 59,
        sec <= 59,
        -1439 <= off <= 1439,
    ensures
        r == human_build(
            day as int,
            month as int,
            year as int,
            h as int,
            mi as int,
            sec as int,
            off as int,
        ),
        r matches Ok(b) ==> b.well_formed(),
{
    if 1 <= day && day <= crate::calendar::days_in_month(year as i32, month) as u32 {
        Ok(
            Birthday {
                year: year as i32,
                month,
                day: day as u8,
                hour: h,
                minute: mi,
                second: sec,
                offset_minutes: off,
            },
        )
    } else {
        Err(HumanDateError::InvalidDate)
    }
}

/// Executable form of `parse_human_tail`.
fn human_tail(v: &Vec<char>, i: usize, day: u32, month: u8, year: u32) -> (r: Result<
    Birthday,
    HumanDateError,
>)
    requires
        i <= v@.len(),
        day <= 99,
        1 <= month <= 12,
        year <= 9999,
    ensures
        r == parse_human_tail(v@, i as int, day as int, month as int, year as int),
        r matches Ok(b) ==> b.well_formed(),
{
    let i3 = skip_ws_from(v, i);
    if i3 == v.len() {
        return build_human(day, month, year, 0, 0, 0, 0);
    }
    let c = v[i3];
    if c == ',' {
        let i4 = skip_ws_from(v, i3 + 1);
        if i4 < v.len() && (v[i4] == '+' || v[i4] == '-') {
            match offset_at(v, i4) {
                Option::None => Err(HumanDateError::BadOffset),
                Option::Some((off, i5)) => {
                    if skip_ws_from(v, i5) == v.len() {
                        build_human(day, month, year, 0, 0, 0, off)
                    } else {
                        Err(HumanDateError::TrailingInput)
                    }
                },
            }
        } else {
            match time_at(v, i4) {
                Option::None => Err(HumanDateError::BadTime),
                Option::Some((h, mi, sec, i5)) => {
                    let i6 = skip_ws_from(v, i5);
                    if i6 == v.len() {
                        build_human(day, month, year, h, mi, sec, 0)
                    } else if v[i6] == ',' {
                        let i7 = skip_ws_from(v, i6 + 1);
                        match offset_at(v, i7) {
                            Option::None => Err(HumanDateError::BadOffset),
                            Option::Some((off, i8)) => {
                                if skip_ws_from(v, i8) == v.len() {
                                    build_human(day, month, year, h, mi, sec, off)
                                } else {
                                    Err(HumanDateError::TrailingInput)
                                }
                            },
                        }
                    } else {
                        Err(HumanDateError::TrailingInput)
                    }
                },
            }
        }
    } else if c == '+' || c == '-' {
        match offset_at(v, i3) {
            Option::None => Err(HumanDateError::BadOffset),
            Option::Some((off, i5)) => {
                if skip_ws_from(v, i5) == v.len() {
                    build_human(day, month, year, 0, 0, 0, off)
                } else {
                    Err(HumanDateError::TrailingInput)
                }
            },
        }
    } else {
        Err(HumanDateError::TrailingInput)
    }
}

/// Executable human-grammar parser over characters.
fn parse_human_chars(v: &Vec<char>) -> (r: Result<Birthday, HumanDateError>)
    ensures
        r == parse_human_spec(v@),
        r matches Ok(b) ==> b.well_formed(),
{
    let i0 = skip_ws_from(v, 0);
    let de = digits_end_from(v, i0);
    if de == i0 || de - i0 > 2 {
        return Err(HumanDateError::BadDay);
    }
    proof {
        crate::text::lemma_digits_end_digits(v@, i0 as int);
        crate::text::lemma_num_val_digit_bounds(v@, i0 as int, de as int);
    }
    let day = num_val_between(v, i0, de);
    let i1 = skip_ws_from(v, de);
    if i1 == de {
        return Err(HumanDateError::BadMonthName);
    }
    let ae = alpha_end_from(v, i1);
    let month = match month_lookup(v, i1, ae) {
        Option::None => {
            return Err(HumanDateError::BadMonthName);
        },
        Option::Some(m) => m,
    };
    let i2 = skip_ws_from(v, ae);
    if i2 == ae {
        return Err(HumanDateError::BadYear);
    }
    let ye = digits_end_from(v, i2);
    if ye == i2 || ye - i2 > 4 {
        return Err(HumanDateError::BadYear);
    }
    proof {
        crate::text::lemma_digits_end_digits(v@, i2 as int);
        crate::text::lemma_num_val_digit_bounds(v@, i2 as int, ye as int);
    }
    let year = num_val_between(v, i2, ye);
    human_tail(v, ye, day, month, year)
}

/// Executable form of `rfc_build`.
fn build_rfc(year: u32, month: u8, day: u8, h: u8, mi: u8, sec: u8, off: i16) -> (r: Result<
    Birthday,
    RfcDateError,
>)
    requires
        day <= 99,
        month <= 99,
        year <= 9999,
        h <= 23,
        mi <= 59,
        sec <= 59,
        -1439 <= off <= 1439,
    ensures
        r == rfc_build(
            year as int,
            month as int,
            day as int,
            h as int,
            mi as int,
            sec as int,
            off as int,
        ),
        r matches Ok(b) ==> b.well_formed(),
{
    if 1 <= month && month <= 12 && 1 <= day && day <= crate::calendar::days_in_month(
        year as i32,
        month,
    ) {
        Ok(
            Birthday {
                year: year as i32,
                month,
                day,
                hour: h,
                minute: mi,
                second: sec,
                offset_minutes: off,
            },
        )
    } else {
        Err(RfcDateError::InvalidDate)
    }
}

/// Executable form of `parse_rfc_tail`.
fn rfc_tail(v: &Vec<char>, k: usize, year: u32, month: u8, day: u8, h: u8, mi: u8, sec: u8) -> (r:
    Result<Birthday, RfcDateError>)
    requires
        k <= v@.len(),
        day <= 99,
        month <= 99,
        year <= 9999,
        h <= 23,
        mi <= 59,
        sec <= 59,
    ensures
        r == parse_rfc_tail(
            v@,
            k as int,
            year as int,
            month as int,
            day as int,
            h as int,
            mi as int,
            sec as int,
        ),
        r matches Ok(b) ==> b.well_formed(),
{
    if k == v.len() {
        return build_rfc(year, month, day, h, mi, sec, 0);
    }
    let c = v[k];
    if c == 'Z' {
        if skip_ws_from(v, k + 1) == v.len() {
            build_rfc(year, month, day, h, mi, sec, 0)
        } else {
            Err(RfcDateError::TrailingInput)
        }
    } else if c == '+' || c == '-' {
        match offset_at(v, k) {
            Option::None => Err(RfcDateError::BadOffset),
            Option::Some((off, l)) => {
                if skip_ws_from(v, l) == v.len() {
                    build_rfc(year, month, day, h, mi, sec, off)
                } else {
                    Err(RfcDateError::TrailingInput)
                }
            },
        }
    } else if skip_ws_from(v, k) == v.len() {
        build_rfc(year, month, day, h, mi, sec, 0)
    } else {
        Err(RfcDateError::TrailingInput)
    }
}

/// Executable RFC-style parser over characters.
fn parse_rfc_chars(v: &Vec<char>) -> (r: Result<Birthday, RfcDateError>)
    ensures
        r == parse_rfc_spec(v@),
        r matches Ok(b) ==> b.well_formed(),
{
    let i = skip_ws_from(v, 0);
    if v.len() - i < 10 {
        return Err(RfcDateError::BadDate);
    }
    if !(digit_char_test(v[i]) && digit_char_test(v[i + 1]) && digit_char_test(v[i + 2])
        && digit_char_test(v[i + 3]) && v[i + 4] == '-' && digit_char_test(v[i + 5])
        && digit_char_test(v[i + 6]) && v[i + 7] == '-' && digit_char_test(v[i + 8])
        && digit_char_test(v[i + 9])) {
        return Err(RfcDateError::BadDate);
    }
    proof {
        crate::text::lemma_num_val_digit_bounds(v@, i as int, i as int + 4);
    }
    let year = num_val_between(v, i, i + 4);
    let month = dval(v[i + 5]) * 10 + dval(v[i + 6]);
    let day = dval(v[i + 8]) * 10 + dval(v[i + 9]);
    let j = i + 10;
    if j == v.len() {
        return build_rfc(year, month, day, 0, 0, 0, 0);
    }
    if v[j] == 'T' {
        match time_at(v, j + 1) {
            Option::None => Err(RfcDateError::BadTime),
            Option::Some((h, mi, sec, k)) => rfc_tail(v, k, year, month, day, h, mi, sec),
        }
    } else if skip_ws_from(v, j) == v.len() {
        build_rfc(year, month, day, 0, 0, 0, 0)
    } else {
        Err(RfcDateError::TrailingInput)
    }
}

impl Birthday {
    /// Parses a "human readable" date in day-month-year order, such as
    /// `1 November 2007`, `19 July 2002, 01:13` or
    /// `23 June 1996, 14:35, +09:00`.
    pub fn parse_human_date(text: &str) -> (r: Result<Birthday, HumanDateError>)
        ensures
            r == parse_human_spec(text@),
            r matches Ok(b) ==> b.well_formed(),
    {
        let v = chars_of(text);
        parse_human_chars(&v)
    }

    /// Parses an RFC-3339-style date with optional time and offset, such as
    /// `2007-11-01`, `2002-07-19T01:13` or `1996-06-23T14:35+09:00`.
    pub fn parse_rfc3339_date(text: &str) -> (r: Result<Birthday, RfcDateError>)
        ensures
            r == parse_rfc_spec(text@),
            r matches Ok(b) ==> b.well_formed(),
    {
        let v = chars_of(text);
        parse_rfc_chars(&v)
    }

    /// Parses a birthday from free text, trying the human format first and
    /// the RFC-3339-style format second. Whitespace-only input gives
    /// `Empty`; input both grammars reject gives `Invalid` carrying both
    /// diagnostics.
    pub fn from_text(text: &str) -> (r: Result<Birthday, ParseBirthdayError>)
        ensures
            r == from_text_spec(text@),
            r matches Ok(b) ==> b.well_formed(),
    {
        let v = chars_of(text);
        if skip_ws_from(&v, 0) == v.len() {
            return Err(ParseBirthdayError::Empty);
        }
        match parse_human_chars(&v) {
            Result::Ok(b) => Ok(b),
            Result::Err(h) => match parse_rfc_chars(&v) {
                Result::Ok(b) => Ok(b),
                Result::Err(r) => Err(ParseBirthdayError::Invalid { human: h, rfc: r }),
            },
        }
    }
}

impl core::str::FromStr for Birthday {
    type Err = ParseBirthdayError;

    /// As `Birthday::from_text`, so that `text.parse::<Birthday>()` works.
    fn from_str(text: &str) -> Result<Birthday, ParseBirthdayError> {
        Birthday::from_text(text)
    }
}

/// `b` with its time-of-day dropped to midnight; the date and offset stay.
pub open spec fn with_midnight(b: Birthday) -> Birthday {
    Birthday { hour: 0, minute: 0, second: 0, ..b }
}

/// Month names are nonempty and all letters.
proof fn lemma_month_name_alpha(m: int)
    requires
        1 <= m <= 12,
    ensures
        1 <= month_name_spec(m).len(),
        forall|k: int| 0 <= k < month_name_spec(m).len() ==> is_alpha_char(
            #[trigger] month_name_spec(m)[k],
        ),
{
    let t = month_name_spec(m);
    assert forall|k: int| 0 <= k < t.len() implies is_alpha_char(#[trigger] t[k]) by {
        if m == 1 {
            assert(is_alpha_char(month_name_spec(1)[k]));
        } else if m == 2 {
            assert(is_alpha_char(month_name_spec(2)[k]));
        } else if m == 3 {
            assert(is_alpha_char(month_name_spec(3)[k]));
        } else if m == 4 {
            assert(is_alpha_char(month_name_spec(4)[k]));
        } else if m == 5 {
            assert(is_alpha_char(month_name_spec(5)[k]));
        } else if m == 6 {
            assert(is_alpha_char(month_name_spec(6)[k]));
        } else if m == 7 {
            assert(is_alpha_char(month_name_spec(7)[k]));
        } else if m == 8 {
            assert(is_alpha_char(month_name_spec(8)[k]));
        } else if m == 9 {
            assert(is_alpha_char(month_name_spec(9)[k]));
        } else if m == 10 {
            assert(is_alpha_char(month_name_spec(10)[k]));
        } else if m == 11 {
            assert(is_alpha_char(month_name_spec(11)[k]));
        } else {
            assert(is_alpha_char(month_name_spec(12)[k]));
        }
    }
}

/// Looking a month's own name up yields that month. Names of different
/// months differ in length or at one of the first three characters.
proof fn lemma_month_of_name_inverse(m: int)
    requires
        1 <= m <= 12,
    ensures
        month_of_name(month_name_spec(m)) == Some(m),
{
    assert(month_name_spec(1)[0] != month_name_spec(10)[0]);
    assert(month_name_spec(2)[0] != month_name_spec(11)[0]);
    assert(month_name_spec(2)[0] != month_name_spec(12)[0]);
    assert(month_name_spec(11)[0] != month_name_spec(12)[0]);
    assert(month_name_spec(3)[0] != month_name_spec(4)[0]);
    assert(month_name_spec(6)[2] != month_name_spec(7)[2]);
}

/// A rendered offset (`offset_text_spec`) parses back to the same offset.
proof fn lemma_offset_text_parses(s: Seq<char>, i: int, o: int)
    requires
        crate::calendar::valid_offset_minutes(o),
        0 <= i,
        i + 6 <= s.len(),
        ({
            let a = if o < 0 {
                -o
            } else {
                o
            };
            &&& s[i] == (if o < 0 {
                '-'
            } else {
                '+'
            })
            &&& s[i + 1] == digit_char_spec(a / 60 / 10)
            &&& s[i + 2] == digit_char_spec((a / 60) % 10)
            &&& s[i + 3] == ':'
            &&& s[i + 4] == digit_char_spec((a % 60) / 10)
            &&& s[i + 5] == digit_char_spec((a % 60) % 10)
        }),
    ensures
        parse_offset_at(s, i) == Some((o, i + 6)),
{
    let a = if o < 0 {
        -o
    } else {
        o
    };
    assert(0 <= a / 60 <= 23);
    lemma_digit_char_val(a / 60 / 10);
    lemma_digit_char_val((a / 60) % 10);
    lemma_digit_char_val((a % 60) / 10);
    lemma_digit_char_val((a % 60) % 10);
    let h = digit_val(s[i + 1]) * 10 + digit_val(s[i + 2]);
    let mi = digit_val(s[i + 4]) * 10 + digit_val(s[i + 5]);
    assert(h == a / 60);
    assert(mi == a % 60);
    assert(h * 60 + mi == a);
}

/// The canonical rendering of a well-formed birthday parses back under the
/// human grammar, to the same date and offset with the time at midnight.
#[verifier::rlimit(100)]
/// The canonical rendering decomposes into its regions: day digits, a
/// space, the month name, a space, year digits, a space, the offset.
proof fn lemma_canonical_regions(b: Birthday)
    requires
        b.well_formed(),
    ensures
        ({
            let s = canonical_text_spec(b);
            let name = month_name_spec(b.month as int);
            let ln = name.len() as int;
            let o = b.offset_minutes as int;
            let a = if o < 0 {
                -o
            } else {
                o
            };
            &&& s.len() == ln + 15
            &&& s[0] == digit_char_spec(b.day as int / 10)
            &&& s[1] == digit_char_spec(b.day as int % 10)
            &&& s[2] == ' '
            &&& s.subrange(3, 3 + ln) == name
            &&& forall|k: int| 0 <= k < ln ==> s[3 + k] == name[k]
            &&& s[3 + ln] == ' '
            &&& s[4 + ln] == digit_char_spec(b.year as int / 1000)
            &&& s[5 + ln] == digit_char_spec((b.year as int / 100) % 10)
            &&& s[6 + ln] == digit_char_spec((b.year as int / 10) % 10)
            &&& s[7 + ln] == digit_char_spec(b.year as int % 10)
            &&& s[8 + ln] == ' '
            &&& s[9 + ln] == (if o < 0 {
                '-'
            } else {
                '+'
            })
            &&& s[10 + ln] == digit_char_spec(a / 60 / 10)
            &&& s[11 + ln] == digit_char_spec((a / 60) % 10)
            &&& s[12 + ln] == ':'
            &&& s[13 + ln] == digit_char_spec((a % 60) / 10)
            &&& s[14 + ln] == digit_char_spec((a % 60) % 10)
        }),
{
    let s = canonical_text_spec(b);
    let name = month_name_spec(b.month as int);
    let ln = name.len() as int;
    assert(s.len() == ln + 15);
    assert(forall|k: int| 0 <= k < ln ==> s[3 + k] == name[k]);
    assert(s.subrange(3, 3 + ln) =~= name);
}

#[verifier::rlimit(100)]
pub proof fn lemma_human_parses_canonical(b: Birthday)
    requires
        b.well_formed(),
    ensures
        parse_human_spec(canonical_text_spec(b)) == Ok::<Birthday, HumanDateError>(
            with_midnight(b),
        ),
{
    let s = canonical_text_spec(b);
    let day = b.day as int;
    let m = b.month as int;
    let year = b.year as int;
    let o = b.offset_minutes as int;
    let name = month_name_spec(m);
    let ln = name.len() as int;
    lemma_canonical_regions(b);
    lemma_month_name_alpha(m);
    lemma_digit_char_val(day / 10);
    lemma_digit_char_val(day % 10);
    lemma_digit_char_val(year / 1000);
    lemma_digit_char_val((year / 100) % 10);
    lemma_digit_char_val((year / 10) % 10);
    lemma_digit_char_val(year % 10);

    lemma_skip_ws_run(s, 0, 0);
    lemma_digits_end_run(s, 0, 2);
    lemma_num_val_two_digits(s, 0, day);
    lemma_skip_ws_run(s, 2, 3);
    lemma_alpha_end_run(s, 3, 3 + ln);
    assert(s.subrange(3, 3 + ln) =~= name);
    lemma_month_of_name_inverse(m);
    lemma_skip_ws_run(s, 3 + ln, 4 + ln);
    lemma_digits_end_run(s, 4 + ln, 8 + ln);
    lemma_num_val_four_digits(s, 4 + ln, year);
    lemma_skip_ws_run(s, 8 + ln, 9 + ln);

    lemma_offset_text_parses(s, 9 + ln, o);
    lemma_skip_ws_run(s, 15 + ln, 15 + ln);

    assert(parse_human_tail(s, 8 + ln, day, m, year) == human_build(day, m, year, 0, 0, 0, o));
    assert(human_build(day, m, year, 0, 0, 0, o) == Ok::<Birthday, HumanDateError>(
        with_midnight(b),
    ));
}

/// Round trip (canonical text): parsing the canonical rendering of any
/// well-formed birthday succeeds and yields the same date and offset (time
/// at midnight, which the canonical rendering does not show), so formatting
/// the parsed value reproduces the text exactly.
pub proof fn lemma_canonical_round_trip(b: Birthday)
    requires
        b.well_formed(),
    ensures
        from_text_spec(canonical_text_spec(b)) == Ok::<Birthday, ParseBirthdayError>(
            with_midnight(b),
        ),
        canonical_text_spec(with_midnight(b)) == canonical_text_spec(b),
{
    let s = canonical_text_spec(b);
    lemma_human_parses_canonical(b);
    lemma_month_name_alpha(b.month as int);
    lemma_digit_char_val(b.day as int / 10);
    assert(s[0] == digit_char_spec(b.day as int / 10));
    lemma_skip_ws_run(s, 0, 0);
    assert(skip_ws(s, 0) != s.len());
}

/// Any birthday parsed from a canonically formatted string formats back to
/// that very string.
pub proof fn lemma_parse_of_canonical_formats_back(b0: Birthday, b: Birthday)
    requires
        b0.well_formed(),
        from_text_spec(canonical_text_spec(b0)) == Ok::<Birthday, ParseBirthdayError>(b),
    ensures
        canonical_text_spec(b) == canonical_text_spec(b0),
{
    lemma_canonical_round_trip(b0);
}

/// Grammar fallback: whitespace-only input is `Empty`; a string the human
/// grammar accepts is used as such; one only the RFC-style grammar accepts
/// falls back to it; one both reject yields `Invalid` keeping both
/// diagnostics.
pub proof fn lemma_grammar_fallback(s: Seq<char>)
    ensures
        skip_ws(s, 0) == s.len() ==> from_text_spec(s) == Err::<Birthday, ParseBirthdayError>(
            ParseBirthdayError::Empty,
        ),
        (skip_ws(s, 0) != s.len() && parse_human_spec(s) is Ok) ==> from_text_spec(s) == Ok::<
            Birthday,
            ParseBirthdayError,
        >(parse_human_spec(s)->Ok_0),
        (skip_ws(s, 0) != s.len() && parse_human_spec(s) is Err && parse_rfc_spec(s) is Ok)
            ==> from_text_spec(s) == Ok::<Birthday, ParseBirthdayError>(parse_rfc_spec(s)->Ok_0),
        (skip_ws(s, 0) != s.len() && parse_human_spec(s) is Err && parse_rfc_spec(s) is Err)
            ==> from_text_spec(s) == Err::<Birthday, ParseBirthdayError>(
            ParseBirthdayError::Invalid {
                human: parse_human_spec(s)->Err_0,
                rfc: parse_rfc_spec(s)->Err_0,
            },
        ),
{
}

} // verus!
