//! Canonical display formatting: `DD MonthName YYYY +HH:MM`, deterministic
//! and locale-independent (English month names), e.g. `01 November 2007
//! +00:00`. The canonical form shows the date and offset only; both it and
//! the human input grammar round-trip through the parser.

use vstd::prelude::*;

use crate::birthday::Birthday;
use crate::text::{
    chars_of, digit_char, digit_char_spec, four_digit_spec, month_name_spec, string_from_chars,
    two_digit_spec,
};

verus! {

/// The signed `HH:MM` rendering of an offset in minutes; zero renders with
/// a `+` sign.
pub open spec fn offset_text_spec(o: int) -> Seq<char> {
    let a = if o < 0 {
        -o
    } else {
        o
    };
    (if o < 0 {
        seq!['-']
    } else {
        seq!['+']
    }) + two_digit_spec(a / 60) + seq![':'] + two_digit_spec(a % 60)
}

/// The canonical rendering of a birthday.
pub open spec fn canonical_text_spec(b: Birthday) -> Seq<char> {
    two_digit_spec(b.day as int) + seq![' '] + month_name_spec(b.month as int) + seq![' ']
        + four_digit_spec(b.year as int) + seq![' '] + offset_text_spec(b.offset_minutes as int)
}

/// The full English name of month `m`.
pub fn month_name(m: u8) -> (r: &'static str)
    requires
        1 <= m <= 12,
    ensures
        r@ == month_name_spec(m as int),
{
    proof {
        reveal_strlit("January");
        reveal_strlit("February");
        reveal_strlit("March");
        reveal_strlit("April");
        reveal_strlit("May");
        reveal_strlit("June");
        reveal_strlit("July");
        reveal_strlit("August");
        reveal_strlit("September");
        reveal_strlit("October");
        reveal_strlit("November");
        reveal_strlit("December");
    }
    let r: &'static str = match m {
        1 => "January",
        2 => "February",
        3 => "March",
        4 => "April",
        5 => "May",
        6 => "June",
        7 => "July",
        8 => "August",
        9 => "September",
        10 => "October",
        11 => "November",
        _ => "December",
    };
    proof {
        assert(r@ =~= month_name_spec(m as int));
    }
    r
}

impl Birthday {
    /// The canonical rendering, as a character vector.
    pub fn canonical_chars(&self) -> (r: Vec<char>)
        requires
            self.well_formed(),
        ensures
            r@ == canonical_text_spec(*self),
    {
        let mut out: Vec<char> = Vec::new();
        out.push(digit_char(self.day / 10));
        out.push(digit_char(self.day % 10));
        out.push(' ');
        let mut name = chars_of(month_name(self.month));
        out.append(&mut name);
        out.push(' ');
        out.push(digit_char((self.year / 1000) as u8));
        out.push(digit_char(((self.year / 100) % 10) as u8));
        out.push(digit_char(((self.year / 10) % 10) as u8));
        out.push(digit_char((self.year % 10) as u8));
        out.push(' ');
        let o = self.offset_minutes;
        let a: i16 = if o < 0 {
            -o
        } else {
            o
        };
        out.push(if o < 0 {
            '-'
        } else {
            '+'
        });
        let oh = (a / 60) as u8;
        let om = (a % 60) as u8;
        out.push(digit_char(oh / 10));
        out.push(digit_char(oh % 10));
        out.push(':');
        out.push(digit_char(om / 10));
        out.push(digit_char(om % 10));
        proof {
            assert(oh as int == (a as int) / 60 && om as int == (a as int) % 60);
            assert(out@ =~= canonical_text_spec(*self));
        }
        out
    }

    /// The canonical rendering: `DD MonthName YYYY +HH:MM`.
    pub fn canonical_text(&self) -> (r: String)
        requires
            self.well_formed(),
        ensures
            r@ == canonical_text_spec(*self),
    {
        let chars = self.canonical_chars();
        string_from_chars(&chars)
    }
}

} // verus!
