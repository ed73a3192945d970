//! Character-level text primitives shared by the formatter and the parsers:
//! character classes, cursor scanners over character sequences, digit and
//! month-name rendering, and the two trusted bridges between `str`/`String`
//! and `Vec<char>`.

use vstd::prelude::*;

verus! {

/// ASCII whitespace recognised between tokens.
pub open spec fn is_ws_char(c: char) -> bool {
    c == ' ' || c == '\t' || c == '\r' || c == '\n'
}

/// ASCII decimal digit.
pub open spec fn is_digit_char(c: char) -> bool {
    48 <= c as u32 <= 57
}

/// ASCII letter.
pub open spec fn is_alpha_char(c: char) -> bool {
    (65 <= c as u32 <= 90) || (97 <= c as u32 <= 122)
}

/// Numeric value of a decimal digit character.
pub open spec fn digit_val(c: char) -> int {
    c as u32 - 48
}

/// The decimal digit character for a value in `0..=9`.
pub open spec fn digit_char_spec(v: int) -> char {
    if v == 0 {
        '0'
    } else if v == 1 {
        '1'
    } else if v == 2 {
        '2'
    } else if v == 3 {
        '3'
    } else if v == 4 {
        '4'
    } else if v == 5 {
        '5'
    } else if v == 6 {
        '6'
    } else if v == 7 {
        '7'
    } else if v == 8 {
        '8'
    } else {
        '9'
    }
}

/// A two-digit zero-padded decimal rendering of `v` (for `0..=99`).
pub open spec fn two_digit_spec(v: int) -> Seq<char> {
    seq![digit_char_spec(v / 10), digit_char_spec(v % 10)]
}

/// A four-digit zero-padded decimal rendering of `v` (for `0..=9999`).
pub open spec fn four_digit_spec(v: int) -> Seq<char> {
    seq![
        digit_char_spec(v / 1000),
        digit_char_spec((v / 100) % 10),
        digit_char_spec((v / 10) % 10),
        digit_char_spec(v % 10),
    ]
}

/// The full English name of month `m` (1-based), capitalized.
pub open spec fn month_name_spec(m: int) -> Seq<char> {
    if m == 1 {
        seq!['J', 'a', 'n', 'u', 'a', 'r', 'y']
    } else if m == 2 {
        seq!['F', 'e', 'b', 'r', 'u', 'a', 'r', 'y']
    } else if m == 3 {
        seq!['M', 'a', 'r', 'c', 'h']
    } else if m == 4 {
        seq!['A', 'p', 'r', 'i', 'l']
    } else if m == 5 {
        seq!['M', 'a', 'y']
    } else if m == 6 {
        seq!['J', 'u', 'n', 'e']
    } else if m == 7 {
        seq!['J', 'u', 'l', 'y']
    } else if m == 8 {
        seq!['A', 'u', 'g', 'u', 's', 't']
    } else if m == 9 {
        seq!['S', 'e', 'p', 't', 'e', 'm', 'b', 'e', 'r']
    } else if m == 10 {
        seq!['O', 'c', 't', 'o', 'b', 'e', 'r']
    } else if m == 11 {
        seq!['N', 'o', 'v', 'e', 'm', 'b', 'e', 'r']
    } else {
        seq!['D', 'e', 'c', 'e', 'm', 'b', 'e', 'r']
    }
}

/// First position at or after `i` that does not hold whitespace.
pub open spec fn skip_ws(s: Seq<char>, i: int) -> int
    decreases s.len() - i,
{
    if 0 <= i < s.len() && is_ws_char(s[i]) {
        skip_ws(s, i + 1)
    } else {
        i
    }
}

/// First position at or after `i` that does not hold a digit.
pub open spec fn digits_end(s: Seq<char>, i: int) -> int
    decreases s.len() - i,
{
    if 0 <= i < s.len() && is_digit_char(s[i]) {
        digits_end(s, i + 1)
    } else {
        i
    }
}

/// First position at or after `i` that does not hold a letter.
pub open spec fn alpha_end(s: Seq<char>, i: int) -> int
    decreases s.len() - i,
{
    if 0 <= i < s.len() && is_alpha_char(s[i]) {
        alpha_end(s, i + 1)
    } else {
        i
    }
}

/// Decimal value of the digit run `s[i..j)`.
pub open spec fn num_val(s: Seq<char>, i: int, j: int) -> int
    decreases j - i,
{
    if i >= j {
        0
    } else {
        num_val(s, i, j - 1) * 10 + digit_val(s[j - 1])
    }
}

/// A digit scan never moves backward and never passes the end.
pub proof fn lemma_digits_end_bounds(s: Seq<char>, i: int)
    requires
        0 <= i <= s.len(),
    ensures
        i <= digits_end(s, i) <= s.len(),
    decreases s.len() - i,
{
    if i < s.len() && is_digit_char(s[i]) {
        lemma_digits_end_bounds(s, i + 1);
    }
}

/// A whitespace run followed by a non-whitespace boundary pins `skip_ws`.
pub proof fn lemma_skip_ws_run(s: Seq<char>, i: int, j: int)
    requires
        0 <= i <= j <= s.len(),
        forall|k: int| i <= k < j ==> is_ws_char(#[trigger] s[k]),
        j < s.len() ==> !is_ws_char(s[j]),
    ensures
        skip_ws(s, i) == j,
    decreases j - i,
{
    if i < j {
        lemma_skip_ws_run(s, i + 1, j);
    }
}

/// A digit run followed by a non-digit boundary pins `digits_end`.
pub proof fn lemma_digits_end_run(s: Seq<char>, i: int, j: int)
    requires
        0 <= i <= j <= s.len(),
        forall|k: int| i <= k < j ==> is_digit_char(#[trigger] s[k]),
        j < s.len() ==> !is_digit_char(s[j]),
    ensures
        digits_end(s, i) == j,
    decreases j - i,
{
    if i < j {
        lemma_digits_end_run(s, i + 1, j);
    }
}

/// A letter run followed by a non-letter boundary pins `alpha_end`.
pub proof fn lemma_alpha_end_run(s: Seq<char>, i: int, j: int)
    requires
        0 <= i <= j <= s.len(),
        forall|k: int| i <= k < j ==> is_alpha_char(#[trigger] s[k]),
        j < s.len() ==> !is_alpha_char(s[j]),
    ensures
        alpha_end(s, i) == j,
    decreases j - i,
{
    if i < j {
        lemma_alpha_end_run(s, i + 1, j);
    }
}

/// Rendering a value in `0..=9` gives a digit character that reads back as
/// the same value.
pub proof fn lemma_digit_char_val(v: int)
    requires
        0 <= v <= 9,
    ensures
        is_digit_char(digit_char_spec(v)),
        digit_val(digit_char_spec(v)) == v,
        !is_ws_char(digit_char_spec(v)),
        !is_alpha_char(digit_char_spec(v)),
        digit_char_spec(v) != ',',
        digit_char_spec(v) != '+',
        digit_char_spec(v) != '-',
        digit_char_spec(v) != ':',
        digit_char_spec(v) != 'T',
        digit_char_spec(v) != 'Z',
{
}

/// Two rendered digits at `i` read back as the rendered value.
pub proof fn lemma_num_val_two_digits(s: Seq<char>, i: int, v: int)
    requires
        0 <= v <= 99,
        0 <= i,
        i + 2 <= s.len(),
        s[i] == digit_char_spec(v / 10),
        s[i + 1] == digit_char_spec(v % 10),
    ensures
        num_val(s, i, i + 2) == v,
{
    lemma_digit_char_val(v / 10);
    lemma_digit_char_val(v % 10);
    assert(num_val(s, i, i) == 0);
    assert(num_val(s, i, i + 1) == v / 10);
    assert(num_val(s, i, i + 2) == (v / 10) * 10 + v % 10);
}

/// Four rendered digits at `i` read back as the rendered value.
pub proof fn lemma_num_val_four_digits(s: Seq<char>, i: int, v: int)
    requires
        0 <= v <= 9999,
        0 <= i,
        i + 4 <= s.len(),
        s[i] == digit_char_spec(v / 1000),
        s[i + 1] == digit_char_spec((v / 100) % 10),
        s[i + 2] == digit_char_spec((v / 10) % 10),
        s[i + 3] == digit_char_spec(v % 10),
    ensures
        num_val(s, i, i + 4) == v,
{
    lemma_digit_char_val(v / 1000);
    lemma_digit_char_val((v / 100) % 10);
    lemma_digit_char_val((v / 10) % 10);
    lemma_digit_char_val(v % 10);
    assert(num_val(s, i, i) == 0);
    assert(num_val(s, i, i + 1) == v / 1000);
    assert(num_val(s, i, i + 2) == (v / 1000) * 10 + (v / 100) % 10);
    assert(num_val(s, i, i + 3) == ((v / 1000) * 10 + (v / 100) % 10) * 10 + (v / 10) % 10);
    assert(v / 100 == (v / 1000) * 10 + (v / 100) % 10) by {
        assert(v / 100 / 10 == v / 1000) by {
            vstd::arithmetic::div_mod::lemma_div_denominator(v, 100, 10);
        }
        vstd::arithmetic::div_mod::lemma_fundamental_div_mod(v / 100, 10);
    }
    assert(v / 10 == ((v / 100) * 10 + (v / 10) % 10)) by {
        assert(v / 10 / 10 == v / 100) by {
            vstd::arithmetic::div_mod::lemma_div_denominator(v, 10, 10);
        }
        vstd::arithmetic::div_mod::lemma_fundamental_div_mod(v / 10, 10);
    }
    vstd::arithmetic::div_mod::lemma_fundamental_div_mod(v, 10);
}

/// Executable test for a whitespace character.
pub fn ws_char(c: char) -> (r: bool)
    ensures
        r == is_ws_char(c),
{
    c == ' ' || c == '\t' || c == '\r' || c == '\n'
}

/// Executable test for a digit character.
pub fn digit_char_test(c: char) -> (r: bool)
    ensures
        r == is_digit_char(c),
{
    c >= '0' && c <= '9'
}

/// Executable test for a letter character.
pub fn alpha_char_test(c: char) -> (r: bool)
    ensures
        r == is_alpha_char(c),
{
    (c >= 'A' && c <= 'Z') || (c >= 'a' && c <= 'z')
}

/// Executable digit rendering.
pub fn digit_char(v: u8) -> (r: char)
    requires
        v <= 9,
    ensures
        r == digit_char_spec(v as int),
{
    match v {
        0 => '0',
        1 => '1',
        2 => '2',
        3 => '3',
        4 => '4',
        5 => '5',
        6 => '6',
        7 => '7',
        8 => '8',
        _ => '9',
    }
}

/// Executable scanner: first non-whitespace position at or after `i`.
pub fn skip_ws_from(s: &Vec<char>, i: usize) -> (r: usize)
    requires
        i <= s@.len(),
    ensures
        r == skip_ws(s@, i as int),
        i <= r <= s@.len(),
{
    let mut p = i;
    while p < s.len() && ws_char(s[p])
        invariant
            i <= p <= s@.len(),
            skip_ws(s@, i as int) == skip_ws(s@, p as int),
        decreases s@.len() - p,
    {
        p = p + 1;
    }
    p
}

/// Executable scanner: first non-digit position at or after `i`.
pub fn digits_end_from(s: &Vec<char>, i: usize) -> (r: usize)
    requires
        i <= s@.len(),
    ensures
        r == digits_end(s@, i as int),
        i <= r <= s@.len(),
{
    let mut p = i;
    while p < s.len() && digit_char_test(s[p])
        invariant
            i <= p <= s@.len(),
            digits_end(s@, i as int) == digits_end(s@, p as int),
        decreases s@.len() - p,
    {
        p = p + 1;
    }
    p
}

/// Executable scanner: first non-letter position at or after `i`.
pub fn alpha_end_from(s: &Vec<char>, i: usize) -> (r: usize)
    requires
        i <= s@.len(),
    ensures
        r == alpha_end(s@, i as int),
        i <= r <= s@.len(),
{
    let mut p = i;
    while p < s.len() && alpha_char_test(s[p])
        invariant
            i <= p <= s@.len(),
            alpha_end(s@, i as int) == alpha_end(s@, p as int),
        decreases s@.len() - p,
    {
        p = p + 1;
    }
    p
}

/// Executable digit-run evaluation over `s[i..j)`.
pub fn num_val_between(s: &Vec<char>, i: usize, j: usize) -> (r: u32)
    requires
        i <= j <= s@.len(),
        j - i <= 4,
        forall|k: int| i <= k < j ==> is_digit_char(#[trigger] s@[k]),
        0 <= num_val(s@, i as int, j as int) <= 9999,
    ensures
        r == num_val(s@, i as int, j as int),
{
    let mut p = i;
    let mut acc: u32 = 0;
    while p < j
        invariant
            i <= p <= j <= s@.len(),
            j - i <= 4,
            forall|k: int| i <= k < j ==> is_digit_char(#[trigger] s@[k]),
            acc == num_val(s@, i as int, p as int),
            acc <= 9999,
        decreases j - p,
    {
        proof {
            lemma_num_val_digit_bounds(s@, i as int, p as int + 1);
            lemma_num_val_prefix_bound(s@, i as int, p as int + 1, j as int);
        }
        let c = s[p];
        acc = acc * 10 + (c as u32 - 48);
        p = p + 1;
    }
    acc
}

/// Everything before `digits_end` is a digit.
pub proof fn lemma_digits_end_digits(s: Seq<char>, i: int)
    requires
        0 <= i <= s.len(),
    ensures
        forall|k: int| i <= k < digits_end(s, i) ==> is_digit_char(#[trigger] s[k]),
    decreases s.len() - i,
{
    if i < s.len() && is_digit_char(s[i]) {
        lemma_digits_end_digits(s, i + 1);
        lemma_digits_end_bounds(s, i + 1);
    }
}

/// A digit run evaluates to a value bounded by its length.
pub proof fn lemma_num_val_digit_bounds(s: Seq<char>, i: int, j: int)
    requires
        0 <= i <= j <= s.len(),
        forall|k: int| i <= k < j ==> is_digit_char(#[trigger] s[k]),
    ensures
        0 <= num_val(s, i, j),
        j - i == 1 ==> num_val(s, i, j) <= 9,
        j - i == 2 ==> num_val(s, i, j) <= 99,
        j - i == 3 ==> num_val(s, i, j) <= 999,
        j - i == 4 ==> num_val(s, i, j) <= 9999,
    decreases j - i,
{
    if i < j {
        lemma_num_val_digit_bounds(s, i, j - 1);
    }
}

/// A prefix of a short digit run stays within the final bound.
proof fn lemma_num_val_prefix_bound(s: Seq<char>, i: int, p: int, j: int)
    requires
        0 <= i <= p <= j <= s.len(),
        j - i <= 4,
        forall|k: int| i <= k < j ==> is_digit_char(#[trigger] s[k]),
    ensures
        num_val(s, i, p) <= 9999,
{
    lemma_num_val_digit_bounds(s, i, p);
}

/// Relies on `str::chars`: iterating a string slice yields exactly its
/// characters, in order, which `collect` gathers into a vector.
#[verifier::external_body]
pub fn chars_of(s: &str) -> (r: Vec<char>)
    ensures
        r@ == s@,
{
    s.chars().collect()
}

/// Relies on `String: FromIterator<char>`: collecting characters builds the
/// string holding exactly those characters, in order.
#[verifier::external_body]
pub fn string_from_chars(v: &Vec<char>) -> (r: String)
    ensures
        r@ == v@,
{
    v.iter().collect()
}

} // verus!
