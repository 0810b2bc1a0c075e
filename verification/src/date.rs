//! Calendar dates as plain values.
//!
//! A date is `(year, month, day)` in the proleptic Gregorian calendar,
//! validated against real month lengths and leap years. Ordering goes through
//! [`date_key`], a single integer that orders exactly as the calendar does,
//! which is what the date-range filter and the descending listing sort use.

use vstd::prelude::*;
use vstd::string::*;

use crate::digits::{
    all_digits, digits_val, lemma_digits_val_upper, parse_digits_capped, pow10, push_digits_padded,
};

verus! {

/// A calendar date. Well-formedness is [`Date::wf`]; the struct itself is a
/// plain value so it can cross the library boundary as three integers.
#[derive(Clone, Copy, PartialEq, Eq, Structural, Debug)]
pub struct Date {
    pub year: u16,
    pub month: u8,
    pub day: u8,
}

/// Gregorian leap-year rule.
pub open spec fn spec_is_leap_year(year: int) -> bool {
    (year % 4 == 0 && year % 100 != 0) || year % 400 == 0
}

/// Number of days in `month` of `year`.
pub open spec fn spec_days_in_month(year: int, month: int) -> int {
    if month == 2 {
        if spec_is_leap_year(year) {
            29
        } else {
            28
        }
    } else if month == 4 || month == 6 || month == 9 || month == 11 {
        30
    } else {
        31
    }
}

/// A single integer that compares exactly as the calendar orders dates:
/// later date, larger key.
pub open spec fn date_key(d: Date) -> int {
    d.year * 10000 + d.month * 100 + d.day
}

impl Date {
    /// A real calendar date with a four-digit year.
    pub open spec fn wf(self) -> bool {
        &&& 1 <= self.year <= 9999
        &&& 1 <= self.month <= 12
        &&& 1 <= self.day <= spec_days_in_month(self.year as int, self.month as int)
    }

    /// Leap-year test, mirroring [`spec_is_leap_year`].
    pub fn is_leap_year(year: u16) -> (r: bool)
        ensures
            r == spec_is_leap_year(year as int),
    {
        (year % 4 == 0 && year % 100 != 0) || year % 400 == 0
    }

    /// Month length, mirroring [`spec_days_in_month`].
    pub fn days_in_month(year: u16, month: u8) -> (r: u8)
        ensures
            r == spec_days_in_month(year as int, month as int),
    {
        if month == 2 {
            if Date::is_leap_year(year) {
                29
            } else {
                28
            }
        } else if month == 4 || month == 6 || month == 9 || month == 11 {
            30
        } else {
            31
        }
    }

    /// Is this a real calendar date?
    pub fn valid(&self) -> (r: bool)
        ensures
            r == self.wf(),
    {
        1 <= self.year && self.year <= 9999 && 1 <= self.month && self.month <= 12 && 1
            <= self.day && self.day <= Date::days_in_month(self.year, self.month)
    }

    /// The comparison key, mirroring [`date_key`]. Fits a `u32` for any
    /// field values, so no overflow precondition is needed.
    pub fn key(&self) -> (r: u32)
        ensures
            r == date_key(*self),
    {
        (self.year as u32) * 10000 + (self.month as u32) * 100 + (self.day as u32)
    }

    /// `self <= other` in calendar order.
    pub fn le(&self, other: &Date) -> (r: bool)
        ensures
            r == (date_key(*self) <= date_key(*other)),
    {
        self.key() <= other.key()
    }
}

/// What a ten-byte `YYYY-MM-DD` literal denotes: the date, when the shape
/// is right and the fields name a real calendar day; nothing otherwise.
pub open spec fn spec_parse_date(b: Seq<u8>) -> Option<Date> {
    if b.len() == 10 && all_digits(b.subrange(0, 4)) && b[4] == 45 && all_digits(b.subrange(5, 7))
        && b[7] == 45 && all_digits(b.subrange(8, 10)) {
        let d = Date {
            year: digits_val(b.subrange(0, 4)) as u16,
            month: digits_val(b.subrange(5, 7)) as u8,
            day: digits_val(b.subrange(8, 10)) as u8,
        };
        if d.wf() {
            Some(d)
        } else {
            None
        }
    } else {
        None
    }
}

/// Reads a `YYYY-MM-DD` literal, accepting exactly the real calendar dates.
pub fn parse_date(s: &str) -> (r: Option<Date>)
    ensures
        r == spec_parse_date(s.spec_bytes()),
{
    let b = s.as_bytes();
    if b.len() != 10 {
        return None;
    }
    if !(b[4] == 45 && b[7] == 45) {
        return None;
    }
    proof {
        assert(pow10(0) == 1);
        assert(pow10(1) == 10);
        assert(pow10(2) == 100);
        assert(pow10(3) == 1000);
        assert(pow10(4) == 10000);
        if all_digits(b@.subrange(0, 4)) {
            lemma_digits_val_upper(b@.subrange(0, 4));
        }
        if all_digits(b@.subrange(5, 7)) {
            lemma_digits_val_upper(b@.subrange(5, 7));
        }
        if all_digits(b@.subrange(8, 10)) {
            lemma_digits_val_upper(b@.subrange(8, 10));
        }
    }
    let year = match parse_digits_capped(b, 0, 4, 9999) {
        Some(v) => v,
        None => { return None },
    };
    let month = match parse_digits_capped(b, 5, 7, 9999) {
        Some(v) => v,
        None => { return None },
    };
    let day = match parse_digits_capped(b, 8, 10, 9999) {
        Some(v) => v,
        None => { return None },
    };
    let d = Date { year: year as u16, month: month as u8, day: day as u8 };
    if d.valid() {
        Some(d)
    } else {
        None
    }
}

/// Writes a real calendar date back as the ten `YYYY-MM-DD` bytes the
/// parser accepts: rendering then parsing gives the date back.
pub fn render_date(d: &Date) -> (r: Vec<u8>)
    requires
        d.wf(),
    ensures
        spec_parse_date(r@) == Some(*d),
{
    proof {
        assert(pow10(0) == 1);
        assert(pow10(1) == 10);
        assert(pow10(2) == 100);
        assert(pow10(3) == 1000);
        assert(pow10(4) == 10000);
    }
    let mut out: Vec<u8> = Vec::new();
    push_digits_padded(&mut out, d.year as u64, 4);
    let ghost s1 = out@;
    out.push(45);
    let ghost s2 = out@;
    push_digits_padded(&mut out, d.month as u64, 2);
    let ghost s3 = out@;
    out.push(45);
    let ghost s4 = out@;
    push_digits_padded(&mut out, d.day as u64, 2);
    proof {
        let b = out@;
        assert(b.len() == 10);
        assert(b.subrange(0, 8) == s4);
        assert(s3.subrange(0, 5) == s2);
        assert forall|i: int| 0 <= i < 8 implies b[i] == s4[i] by {
            assert(b[i] == b.subrange(0, 8)[i]);
        }
        assert forall|i: int| 0 <= i < 5 implies s3[i] == s2[i] by {
            assert(s3[i] == s3.subrange(0, 5)[i]);
        }
        assert(b.subrange(0, 4) =~= s1.subrange(0, 4));
        assert(b.subrange(5, 7) =~= s3.subrange(5, 7));
        assert(b.subrange(8, 10) == b.subrange(8, 10));
        assert(b[4] == s2[4] == 45);
        assert(b[7] == s4[7] == 45);
        assert(digits_val(b.subrange(0, 4)) == d.year as int);
        assert(digits_val(b.subrange(5, 7)) == d.month as int);
        assert(digits_val(b.subrange(8, 10)) == d.day as int);
        assert(spec_parse_date(b) == Some(*d));
    }
    out
}

} // verus!
