//! Calendar dates, read from "DD.MM.YYYY" at startup and written back
//! into the query URL in the same form.

use vstd::prelude::*;
use crate::digits::{dec_digit, digit_of, digit_val, is_dec_digit, push_digit};

verus! {

/// A calendar date with a four-digit year.
#[derive(Clone, Copy, Debug, PartialEq, Eq, Structural)]
pub struct Date {
    pub year: u16,
    pub month: u8,
    pub day: u8,
}

/// Gregorian leap-year rule.
pub open spec fn spec_is_leap_year(y: int) -> bool {
    y % 4 == 0 && (y % 100 != 0 || y % 400 == 0)
}

/// Number of days in a month of a given year.
pub open spec fn spec_days_in_month(y: int, m: int) -> int {
    if m == 2 {
        if spec_is_leap_year(y) {
            29
        } else {
            28
        }
    } else if m == 4 || m == 6 || m == 9 || m == 11 {
        30
    } else {
        31
    }
}

impl Date {
    /// The date names a real day of the Gregorian calendar.
    pub open spec fn wf(self) -> bool {
        &&& self.year <= 9999
        &&& 1 <= self.month <= 12
        &&& 1 <= self.day <= spec_days_in_month(self.year as int, self.month as int)
    }
}

/// True when `s` is exactly "DD.MM.YYYY" and names a real calendar day.
pub open spec fn spec_date_valid(s: Seq<char>) -> bool {
    &&& s.len() == 10
    &&& is_dec_digit(s[0]) && is_dec_digit(s[1])
    &&& s[2] == '.'
    &&& is_dec_digit(s[3]) && is_dec_digit(s[4])
    &&& s[5] == '.'
    &&& is_dec_digit(s[6]) && is_dec_digit(s[7]) && is_dec_digit(s[8]) && is_dec_digit(s[9])
    &&& spec_date_of(s).wf()
}

/// The date read from a "DD.MM.YYYY" text.
pub open spec fn spec_date_of(s: Seq<char>) -> Date {
    Date {
        year: ((digit_val(s[6]) * 1000 + digit_val(s[7]) * 100 + digit_val(s[8]) * 10 + digit_val(
            s[9],
        )) as u16),
        month: (digit_val(s[3]) * 10 + digit_val(s[4])) as u8,
        day: (digit_val(s[0]) * 10 + digit_val(s[1])) as u8,
    }
}

/// Rendering of a date as "DD.MM.YYYY", all parts zero-padded.
pub open spec fn spec_render_date(d: Date) -> Seq<char> {
    seq![
        dec_digit(d.day as int / 10),
        dec_digit(d.day as int % 10),
        '.',
        dec_digit(d.month as int / 10),
        dec_digit(d.month as int % 10),
        '.',
        dec_digit(d.year as int / 1000),
        dec_digit(d.year as int / 100 % 10),
        dec_digit(d.year as int / 10 % 10),
        dec_digit(d.year as int % 10),
    ]
}

/// Number of days in a month of a given year.
pub fn days_in_month(year: u16, month: u8) -> (r: u8)
    requires
        1 <= month <= 12,
    ensures
        r as int == spec_days_in_month(year as int, month as int),
{
    if month == 2 {
        if year % 4 == 0 && (year % 100 != 0 || year % 400 == 0) {
            29
        } else {
            28
        }
    } else if month == 4 || month == 6 || month == 9 || month == 11 {
        30
    } else {
        31
    }
}

impl Date {
    /// Parses "DD.MM.YYYY". Returns the date exactly when the text has
    /// that shape and names a real calendar day.
    pub fn parse(s: &str) -> (r: Option<Date>)
        ensures
            r is Some <==> spec_date_valid(s@),
            spec_date_valid(s@) ==> r == Some(spec_date_of(s@)) && spec_date_of(s@).wf(),
    {
        let n = s.unicode_len();
        if n != 10 {
            return None;
        }
        if s.get_char(2) != '.' || s.get_char(5) != '.' {
            return None;
        }
        let d1 = match digit_of(s.get_char(0)) {
            Some(d) => d,
            None => { return None; },
        };
        let d2 = match digit_of(s.get_char(1)) {
            Some(d) => d,
            None => { return None; },
        };
        let m1 = match digit_of(s.get_char(3)) {
            Some(d) => d,
            None => { return None; },
        };
        let m2 = match digit_of(s.get_char(4)) {
            Some(d) => d,
            None => { return None; },
        };
        let y1 = match digit_of(s.get_char(6)) {
            Some(d) => d,
            None => { return None; },
        };
        let y2 = match digit_of(s.get_char(7)) {
            Some(d) => d,
            None => { return None; },
        };
        let y3 = match digit_of(s.get_char(8)) {
            Some(d) => d,
            None => { return None; },
        };
        let y4 = match digit_of(s.get_char(9)) {
            Some(d) => d,
            None => { return None; },
        };
        let day: u8 = d1 * 10 + d2;
        let month: u8 = m1 * 10 + m2;
        let year: u16 = y1 as u16 * 1000 + y2 as u16 * 100 + y3 as u16 * 10 + y4 as u16;
        if month < 1 || month > 12 {
            return None;
        }
        if day < 1 || day > days_in_month(year, month) {
            return None;
        }
        Some(Date { year, month, day })
    }

    /// This date as a "DD.MM.YYYY" string.
    pub fn render(&self) -> (r: String)
        requires
            self.wf(),
        ensures
            r@ == spec_render_date(*self),
    {
        let mut r = String::new();
        push_digit(&mut r, self.day / 10);
        push_digit(&mut r, self.day % 10);
        proof { reveal_strlit("."); }
        r.append(".");
        push_digit(&mut r, self.month / 10);
        push_digit(&mut r, self.month % 10);
        r.append(".");
        push_digit(&mut r, (self.year / 1000) as u8);
        push_digit(&mut r, (self.year / 100 % 10) as u8);
        push_digit(&mut r, (self.year / 10 % 10) as u8);
        push_digit(&mut r, (self.year % 10) as u8);
        proof {
            assert(r@ =~= spec_render_date(*self));
        }
        r
    }
}

} // verus!
