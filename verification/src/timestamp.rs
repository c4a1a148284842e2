//! Calendar timestamps, held as plain field values.
//!
//! A [`Timestamp`] carries year, month, day, hour, minute, second and
//! microseconds.  Chronological order on valid timestamps is the
//! field-by-field lexicographic order, so no epoch arithmetic is needed.
//! The text forms used by the store are `YYYY-MM-DD HH:MM:SS` and, where
//! fractions matter, the same with `.ffffff` appended.

use vstd::prelude::*;
use crate::text::digit_val;
use crate::text::is_digit_char;
use crate::text::padded_seq;
use crate::text::padded_string;

verus! {

#[derive(Clone, Copy, Debug, PartialEq, Eq, Structural)]
pub struct Timestamp {
    pub year: u32,
    pub month: u32,
    pub day: u32,
    pub hour: u32,
    pub minute: u32,
    pub second: u32,
    pub micros: u32,
}

pub open spec fn is_leap_year(y: int) -> bool {
    y % 4 == 0 && (y % 100 != 0 || y % 400 == 0)
}

pub open spec fn days_in_month(y: int, m: int) -> int {
    if m == 2 {
        if is_leap_year(y) {
            29
        } else {
            28
        }
    } else if m == 4 || m == 6 || m == 9 || m == 11 {
        30
    } else {
        31
    }
}

impl Timestamp {
    /// A well-formed calendar instant with a four-digit year.
    pub open spec fn valid(self) -> bool {
        self.year <= 9999 && 1 <= self.month <= 12 && 1 <= self.day <= days_in_month(
            self.year as int,
            self.month as int,
        ) && self.hour <= 23 && self.minute <= 59 && self.second <= 59 && self.micros <= 999999
    }

    /// Chronological order (at or before), field by field.
    pub open spec fn le_spec(self, o: Timestamp) -> bool {
        if self.year != o.year {
            self.year < o.year
        } else if self.month != o.month {
            self.month < o.month
        } else if self.day != o.day {
            self.day < o.day
        } else if self.hour != o.hour {
            self.hour < o.hour
        } else if self.minute != o.minute {
            self.minute < o.minute
        } else if self.second != o.second {
            self.second < o.second
        } else {
            self.micros <= o.micros
        }
    }

    /// Whether `self` is at or before `o` in chronological order.
    pub fn le(&self, o: &Timestamp) -> (r: bool)
        ensures
            r == self.le_spec(*o),
    {
        if self.year != o.year {
            self.year < o.year
        } else if self.month != o.month {
            self.month < o.month
        } else if self.day != o.day {
            self.day < o.day
        } else if self.hour != o.hour {
            self.hour < o.hour
        } else if self.minute != o.minute {
            self.minute < o.minute
        } else if self.second != o.second {
            self.second < o.second
        } else {
            self.micros <= o.micros
        }
    }
}

pub proof fn lemma_ts_le_total(a: Timestamp, b: Timestamp)
    ensures
        a.le_spec(b) || b.le_spec(a),
{
}

pub proof fn lemma_ts_le_trans(a: Timestamp, b: Timestamp, c: Timestamp)
    requires
        a.le_spec(b),
        b.le_spec(c),
    ensures
        a.le_spec(c),
{
}

/// The 19-character text `YYYY-MM-DD HH:MM:SS` of a timestamp.
pub open spec fn ts_text(t: Timestamp) -> Seq<char> {
    padded_seq(t.year as nat, 4) + seq!['-'] + padded_seq(t.month as nat, 2) + seq!['-']
        + padded_seq(t.day as nat, 2) + seq![' '] + padded_seq(t.hour as nat, 2) + seq![':']
        + padded_seq(t.minute as nat, 2) + seq![':'] + padded_seq(t.second as nat, 2)
}

/// The text of a timestamp with its microseconds appended when they are
/// not zero: `YYYY-MM-DD HH:MM:SS[.ffffff]`.
pub open spec fn ts_text_full(t: Timestamp) -> Seq<char> {
    if t.micros == 0 {
        ts_text(t)
    } else {
        ts_text(t) + seq!['.'] + padded_seq(t.micros as nat, 6)
    }
}

/// Formats `YYYY-MM-DD HH:MM:SS`.
pub fn format_ts_basic(t: &Timestamp) -> (r: String)
    ensures
        r@ == ts_text(*t),
{
    let mut s = padded_string(t.year as u128, 4);
    s.append("-");
    let p = padded_string(t.month as u128, 2);
    s.append(p.as_str());
    s.append("-");
    let p = padded_string(t.day as u128, 2);
    s.append(p.as_str());
    s.append(" ");
    let p = padded_string(t.hour as u128, 2);
    s.append(p.as_str());
    s.append(":");
    let p = padded_string(t.minute as u128, 2);
    s.append(p.as_str());
    s.append(":");
    let p = padded_string(t.second as u128, 2);
    s.append(p.as_str());
    proof {
        reveal_strlit("-");
        reveal_strlit(" ");
        reveal_strlit(":");
        assert(s@ =~= ts_text(*t));
    }
    s
}

/// Formats `YYYY-MM-DD HH:MM:SS[.ffffff]`, fraction only when non-zero.
pub fn format_ts_full(t: &Timestamp) -> (r: String)
    ensures
        r@ == ts_text_full(*t),
{
    let mut s = format_ts_basic(t);
    if t.micros != 0 {
        s.append(".");
        let p = padded_string(t.micros as u128, 6);
        s.append(p.as_str());
        proof {
            reveal_strlit(".");
            assert(s@ =~= ts_text_full(*t));
        }
    }
    s
}

/// The timestamp read from a strict 19-character `YYYY-MM-DD HH:MM:SS`
/// text, if the shape, the field ranges and the calendar all agree.
pub open spec fn parse_ts_spec(s: Seq<char>) -> Option<Timestamp> {
    if s.len() != 19 {
        None
    } else if !(is_digit_char(s[0]) && is_digit_char(s[1]) && is_digit_char(s[2]) && is_digit_char(
        s[3],
    ) && s[4] == '-' && is_digit_char(s[5]) && is_digit_char(s[6]) && s[7] == '-' && is_digit_char(
        s[8],
    ) && is_digit_char(s[9]) && s[10] == ' ' && is_digit_char(s[11]) && is_digit_char(s[12])
        && s[13] == ':' && is_digit_char(s[14]) && is_digit_char(s[15]) && s[16] == ':'
        && is_digit_char(s[17]) && is_digit_char(s[18])) {
        None
    } else {
        let t = Timestamp {
            year: (digit_val(s[0]) * 1000 + digit_val(s[1]) * 100 + digit_val(s[2]) * 10
                + digit_val(s[3])) as u32,
            month: (digit_val(s[5]) * 10 + digit_val(s[6])) as u32,
            day: (digit_val(s[8]) * 10 + digit_val(s[9])) as u32,
            hour: (digit_val(s[11]) * 10 + digit_val(s[12])) as u32,
            minute: (digit_val(s[14]) * 10 + digit_val(s[15])) as u32,
            second: (digit_val(s[17]) * 10 + digit_val(s[18])) as u32,
            micros: 0,
        };
        if t.valid() {
            Some(t)
        } else {
            None
        }
    }
}

/// Reads one character that must be a digit; the digit's value.
fn digit_at(s: &str, i: usize) -> (r: Option<u32>)
    requires
        i < s@.len(),
    ensures
        match r {
            Some(d) => is_digit_char(s@[i as int]) && d == digit_val(s@[i as int]),
            None => !is_digit_char(s@[i as int]),
        },
{
    let c: u32 = s.get_char(i) as u32;
    if 48 <= c && c <= 57 {
        Some(c - 48)
    } else {
        None
    }
}

/// Parses a strict `YYYY-MM-DD HH:MM:SS` text.
pub fn parse_ts_basic(s: &str) -> (r: Option<Timestamp>)
    ensures
        r == parse_ts_spec(s@),
        r is Some ==> r.unwrap().valid(),
{
    if s.unicode_len() != 19 {
        return None;
    }
    if !(s.get_char(4) as u32 == 45 && s.get_char(7) as u32 == 45 && s.get_char(10) as u32 == 32
        && s.get_char(13) as u32 == 58 && s.get_char(16) as u32 == 58) {
        proof {
            assert('-' as u32 == 45 && ' ' as u32 == 32 && ':' as u32 == 58);
        }
        return None;
    }
    proof {
        assert(s@[4] == '-' && s@[7] == '-' && s@[10] == ' ' && s@[13] == ':' && s@[16] == ':');
    }
    let d0 = match digit_at(s, 0) {
        Some(d) => d,
        None => {
            return None;
        },
    };
    let d1 = match digit_at(s, 1) {
        Some(d) => d,
        None => {
            return None;
        },
    };
    let d2 = match digit_at(s, 2) {
        Some(d) => d,
        None => {
            return None;
        },
    };
    let d3 = match digit_at(s, 3) {
        Some(d) => d,
        None => {
            return None;
        },
    };
    let mo0 = match digit_at(s, 5) {
        Some(d) => d,
        None => {
            return None;
        },
    };
    let mo1 = match digit_at(s, 6) {
        Some(d) => d,
        None => {
            return None;
        },
    };
    let da0 = match digit_at(s, 8) {
        Some(d) => d,
        None => {
            return None;
        },
    };
    let da1 = match digit_at(s, 9) {
        Some(d) => d,
        None => {
            return None;
        },
    };
    let h0 = match digit_at(s, 11) {
        Some(d) => d,
        None => {
            return None;
        },
    };
    let h1 = match digit_at(s, 12) {
        Some(d) => d,
        None => {
            return None;
        },
    };
    let mi0 = match digit_at(s, 14) {
        Some(d) => d,
        None => {
            return None;
        },
    };
    let mi1 = match digit_at(s, 15) {
        Some(d) => d,
        None => {
            return None;
        },
    };
    let se0 = match digit_at(s, 17) {
        Some(d) => d,
        None => {
            return None;
        },
    };
    let se1 = match digit_at(s, 18) {
        Some(d) => d,
        None => {
            return None;
        },
    };
    let t = Timestamp {
        year: d0 * 1000 + d1 * 100 + d2 * 10 + d3,
        month: mo0 * 10 + mo1,
        day: da0 * 10 + da1,
        hour: h0 * 10 + h1,
        minute: mi0 * 10 + mi1,
        second: se0 * 10 + se1,
        micros: 0,
    };
    let dim = days_in_month_count(t.year, t.month);
    if 1 <= t.month && t.month <= 12 && 1 <= t.day && t.day <= dim && t.hour <= 23 && t.minute
        <= 59 && t.second <= 59 {
        Some(t)
    } else {
        None
    }
}

/// The number of days in the given month of the given year.
pub fn days_in_month_count(year: u32, month: u32) -> (r: u32)
    ensures
        r == days_in_month(year as int, month as int),
{
    if month == 2 {
        if year % 4 == 0 && (year % 100 != 0 || year % 400 == 0) {
            29
        } else {
            28
        }
    } else if month == 4 || month == 6 || month == 9 || month == 11 {
        30
    } else {
        31
    }
}

} // verus!
