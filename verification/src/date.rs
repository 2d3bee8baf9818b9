//! Calendar dates as plain year/month/day values, with ISO `YYYY-MM-DD`
//! parsing and formatting.
use vstd::prelude::*;
use chrono::Datelike;
use crate::text::{dec_digit, digit_of, digit_val, chars_string};

verus! {

/// A calendar date in the proleptic Gregorian calendar, day-precision.
#[derive(Clone, Copy, Debug, PartialEq, Eq, Structural)]
pub struct Date {
    pub year: u32,
    pub month: u8,
    pub day: u8,
}

pub open spec fn is_leap_year(y: int) -> bool {
    y % 4 == 0 && (y % 100 != 0 || y % 400 == 0)
}

pub open spec fn days_in_month(y: int, m: int) -> int {
    if m == 2 {
        if is_leap_year(y) { 29 } else { 28 }
    } else if m == 4 || m == 6 || m == 9 || m == 11 {
        30
    } else {
        31
    }
}

impl Date {
    /// A well-formed calendar date: the year has at most four digits (the
    /// line grammars write years zero-padded to exactly four digits).
    pub open spec fn valid(self) -> bool {
        &&& self.year <= 9999
        &&& 1 <= self.month <= 12
        &&& 1 <= self.day <= days_in_month(self.year as int, self.month as int)
    }

    /// Strict ordering: year, then month, then day.
    pub open spec fn spec_lt(self, other: Date) -> bool {
        ||| self.year < other.year
        ||| (self.year == other.year && self.month < other.month)
        ||| (self.year == other.year && self.month == other.month && self.day < other.day)
    }

    pub open spec fn spec_le(self, other: Date) -> bool {
        self.spec_lt(other) || self == other
    }

    /// Builds a date, rejecting invalid year/month/day combinations.
    pub fn new(year: u32, month: u8, day: u8) -> (r: Option<Date>)
        ensures
            r matches Some(d) ==> d == (Date { year, month, day }) && d.valid(),
            r is None ==> !(Date { year, month, day }).valid(),
    {
        let d = Date { year, month, day };
        if d.check_valid() {
            Some(d)
        } else {
            None
        }
    }

    /// Runtime validity check, equal to `valid`.
    pub fn check_valid(&self) -> (r: bool)
        ensures
            r == self.valid(),
    {
        if self.year > 9999 || self.month < 1 || self.month > 12 {
            return false;
        }
        let dim: u8 = if self.month == 2 {
            if self.year % 4 == 0 && (self.year % 100 != 0 || self.year % 400 == 0) {
                29
            } else {
                28
            }
        } else if self.month == 4 || self.month == 6 || self.month == 9 || self.month == 11 {
            30
        } else {
            31
        };
        1 <= self.day && self.day <= dim
    }

    /// Runtime strict comparison, equal to `spec_lt`.
    pub fn lt(&self, other: &Date) -> (r: bool)
        ensures
            r == self.spec_lt(*other),
    {
        self.year < other.year
            || (self.year == other.year && self.month < other.month)
            || (self.year == other.year && self.month == other.month && self.day < other.day)
    }

    pub fn le(&self, other: &Date) -> (r: bool)
        ensures
            r == self.spec_le(*other),
    {
        self.lt(other) || (self.year == other.year && self.month == other.month && self.day == other.day)
    }
}

/// The canonical `YYYY-MM-DD` shape: ten characters, digits in the year,
/// month and day positions, dashes between.
pub open spec fn iso_date_shape(s: Seq<char>) -> bool {
    &&& s.len() == 10
    &&& dec_digit(s[0])
    &&& dec_digit(s[1])
    &&& dec_digit(s[2])
    &&& dec_digit(s[3])
    &&& s[4] == '-'
    &&& dec_digit(s[5])
    &&& dec_digit(s[6])
    &&& s[7] == '-'
    &&& dec_digit(s[8])
    &&& dec_digit(s[9])
}

pub open spec fn iso_year(s: Seq<char>) -> int {
    digit_val(s[0]) * 1000 + digit_val(s[1]) * 100 + digit_val(s[2]) * 10 + digit_val(s[3])
}

pub open spec fn iso_month(s: Seq<char>) -> int {
    digit_val(s[5]) * 10 + digit_val(s[6])
}

pub open spec fn iso_day(s: Seq<char>) -> int {
    digit_val(s[8]) * 10 + digit_val(s[9])
}

pub open spec fn iso_date_value(s: Seq<char>) -> Date {
    Date { year: iso_year(s) as u32, month: iso_month(s) as u8, day: iso_day(s) as u8 }
}

/// What parsing a date token yields: the date of a canonical `YYYY-MM-DD`
/// string whose digits form a valid calendar date, and nothing else.
pub open spec fn parse_iso(s: Seq<char>) -> Option<Date> {
    if iso_date_shape(s) && iso_date_value(s).valid() {
        Some(iso_date_value(s))
    } else {
        None
    }
}

/// Runtime check of the canonical shape.
pub fn check_iso_shape(tok: &[char]) -> (r: bool)
    ensures
        r == iso_date_shape(tok@),
{
    if tok.len() != 10 {
        return false;
    }
    let mut i: usize = 0;
    let mut ok = true;
    while i < 10
        invariant
            i <= 10,
            tok@.len() == 10,
            ok == (forall|j: int|
                0 <= j < i ==> if j == 4 || j == 7 {
                    tok@[j] == '-'
                } else {
                    dec_digit(tok@[j])
                }),
        decreases 10 - i,
    {
        let c = tok[i];
        if i == 4 || i == 7 {
            ok = ok && c == '-';
        } else {
            ok = ok && '0' <= c && c <= '9';
        }
        i += 1;
    }
    ok
}

/// Relies on `chrono::NaiveDate::parse_from_str` with format `%Y-%m-%d`: on
/// a `YYYY-MM-DD`-shaped string, the four year digits, two month digits and
/// two day digits are read as numbers, and parsing succeeds exactly when
/// they form a valid proleptic-Gregorian calendar date.
#[verifier::external_body]
fn chrono_parse_ymd(s: &str) -> (r: Option<Date>)
    requires
        iso_date_shape(s@),
    ensures
        r == parse_iso(s@),
{
    match chrono::NaiveDate::parse_from_str(s, "%Y-%m-%d") {
        Ok(d) => Some(Date { year: d.year() as u32, month: d.month() as u8, day: d.day() as u8 }),
        Err(_) => None,
    }
}

/// Parses a date token: canonical `YYYY-MM-DD` strings with a valid
/// calendar date yield that date; everything else yields `None`.
pub fn parse_iso_date(tok: &[char]) -> (r: Option<Date>)
    ensures
        r == parse_iso(tok@),
{
    if !check_iso_shape(tok) {
        return None;
    }
    let s = chars_string(tok);
    chrono_parse_ymd(s.as_str())
}

/// The canonical `YYYY-MM-DD` rendering of a date.
pub open spec fn format_iso(d: Date) -> Seq<char> {
    seq![
        digit_of(d.year as int / 1000),
        digit_of(d.year as int / 100 % 10),
        digit_of(d.year as int / 10 % 10),
        digit_of(d.year as int % 10),
        '-',
        digit_of(d.month as int / 10),
        digit_of(d.month as int % 10),
        '-',
        digit_of(d.day as int / 10),
        digit_of(d.day as int % 10),
    ]
}

/// Appends the canonical `YYYY-MM-DD` rendering of `d`.
pub fn push_iso_date(out: &mut Vec<char>, d: &Date)
    requires
        d.valid(),
    ensures
        final(out)@ == old(out)@ + format_iso(*d),
{
    let y = d.year;
    let m = d.month;
    let dd = d.day;
    push_digit(out, (y / 1000) as u8);
    push_digit(out, (y / 100 % 10) as u8);
    push_digit(out, (y / 10 % 10) as u8);
    push_digit(out, (y % 10) as u8);
    out.push('-');
    push_digit(out, m / 10);
    push_digit(out, m % 10);
    out.push('-');
    push_digit(out, dd / 10);
    push_digit(out, dd % 10);
    proof {
        assert(out@ =~= old(out)@ + format_iso(*d));
    }
}

fn push_digit(out: &mut Vec<char>, n: u8)
    requires
        n <= 9,
    ensures
        final(out)@ == old(out)@.push(digit_of(n as int)),
{
    let c: char = if n == 0 {
        '0'
    } else if n == 1 {
        '1'
    } else if n == 2 {
        '2'
    } else if n == 3 {
        '3'
    } else if n == 4 {
        '4'
    } else if n == 5 {
        '5'
    } else if n == 6 {
        '6'
    } else if n == 7 {
        '7'
    } else if n == 8 {
        '8'
    } else {
        '9'
    };
    out.push(c);
}

/// Formatting a valid date and parsing the result gives the date back.
pub proof fn lemma_iso_roundtrip(d: Date)
    requires
        d.valid(),
    ensures
        parse_iso(format_iso(d)) == Some(d),
{
    let s = format_iso(d);
    let y = d.year as int;
    let m = d.month as int;
    let dd = d.day as int;
    assert(0 <= y / 1000 <= 9 && 0 <= y / 100 % 10 <= 9 && 0 <= y / 10 % 10 <= 9 && 0 <= y % 10
        <= 9);
    assert(0 <= m / 10 <= 9 && 0 <= m % 10 <= 9 && 0 <= dd / 10 <= 9 && 0 <= dd % 10 <= 9);
    assert(iso_date_shape(s));
    assert(iso_year(s) == (y / 1000) * 1000 + (y / 100 % 10) * 100 + (y / 10 % 10) * 10 + y % 10);
    assert((y / 1000) * 1000 + (y / 100 % 10) * 100 + (y / 10 % 10) * 10 + y % 10 == y) by {
        lemma_digits_recompose(y);
    }
    assert(iso_month(s) == (m / 10) * 10 + m % 10);
    assert(iso_day(s) == (dd / 10) * 10 + dd % 10);
    assert(iso_date_value(s) == d);
}

proof fn lemma_digits_recompose(y: int)
    requires
        0 <= y <= 9999,
    ensures
        (y / 1000) * 1000 + (y / 100 % 10) * 100 + (y / 10 % 10) * 10 + y % 10 == y,
{
    assert((y / 1000) * 1000 + (y / 100 % 10) * 100 + (y / 10 % 10) * 10 + y % 10 == y) by (nonlinear_arith)
        requires
            0 <= y <= 9999,
    ;
}

pub proof fn lemma_date_order_total(a: Date, b: Date)
    ensures
        a.spec_le(b) || b.spec_le(a),
        a.spec_le(b) && b.spec_le(a) ==> a == b,
        !(a.spec_lt(b) && b.spec_lt(a)),
{
}

pub proof fn lemma_date_order_trans(a: Date, b: Date, c: Date)
    ensures
        a.spec_le(b) && b.spec_le(c) ==> a.spec_le(c),
        a.spec_lt(b) && b.spec_lt(c) ==> a.spec_lt(c),
{
}

} // verus!
