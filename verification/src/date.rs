//! Calendar dates: the one canonical publish-date format (`YYYY-MM-DD`),
//! validity against month lengths and leap years, a total ordering key, and
//! rendering back to the canonical form.

use vstd::prelude::*;
use crate::text;

verus! {

#[derive(Clone, Copy, PartialEq, Eq, Structural, Debug)]
pub struct Date {
    pub year: u32,
    pub month: u32,
    pub day: u32,
}

/// Gregorian leap year.
pub open spec fn is_leap_year(y: int) -> bool {
    (y % 4 == 0 && y % 100 != 0) || y % 400 == 0
}

/// Number of days of a month (month in 1..=12).
pub open spec fn days_in_month(y: int, m: int) -> int {
    if m == 2 {
        if is_leap_year(y) {
            29
        } else {
            28
        }
    } else if m == 4 || m == 6 || m == 9 || m == 11 {
        30
    } else {
        31
    }
}

impl Date {
    /// A real calendar date that the four-digit rendering can hold.
    pub open spec fn valid(self) -> bool {
        1 <= self.year <= 9999 && 1 <= self.month <= 12 && 1 <= self.day <= days_in_month(
            self.year as int,
            self.month as int,
        )
    }

    /// Ordering key: later dates have larger keys; on valid dates the key
    /// orders exactly as (year, month, day).
    pub open spec fn key(self) -> int {
        self.year * 10000 + self.month * 100 + self.day
    }
}

/// Executable leap-year test.
pub fn leap_year(y: u32) -> (r: bool)
    ensures
        r == is_leap_year(y as int),
{
    (y % 4 == 0 && y % 100 != 0) || y % 400 == 0
}

/// Executable month length.
pub fn month_days(y: u32, m: u32) -> (r: u32)
    ensures
        r == days_in_month(y as int, m as int),
{
    if m == 2 {
        if leap_year(y) {
            29
        } else {
            28
        }
    } else if m == 4 || m == 6 || m == 9 || m == 11 {
        30
    } else {
        31
    }
}

/// Value of an ASCII digit byte.
pub open spec fn digit_val(b: u8) -> int {
    b - 48
}

/// `YYYY-MM-DD`: ten bytes, digits in the date positions, hyphens between.
pub open spec fn date_shape(s: Seq<u8>) -> bool {
    s.len() == 10 && text::is_digit(s[0]) && text::is_digit(s[1]) && text::is_digit(s[2])
        && text::is_digit(s[3]) && s[4] == text::HYPHEN && text::is_digit(s[5]) && text::is_digit(
        s[6],
    ) && s[7] == text::HYPHEN && text::is_digit(s[8]) && text::is_digit(s[9])
}

/// The date spelled by a well-shaped byte sequence (fields not yet checked
/// for calendar validity).
pub open spec fn date_fields(s: Seq<u8>) -> Date {
    Date {
        year: (digit_val(s[0]) * 1000 + digit_val(s[1]) * 100 + digit_val(s[2]) * 10 + digit_val(
            s[3],
        )) as u32,
        month: (digit_val(s[5]) * 10 + digit_val(s[6])) as u32,
        day: (digit_val(s[8]) * 10 + digit_val(s[9])) as u32,
    }
}

/// The canonical parse: `Some` exactly on well-shaped spellings of valid
/// calendar dates.
pub open spec fn date_of_bytes(s: Seq<u8>) -> Option<Date> {
    if date_shape(s) && date_fields(s).valid() {
        Some(date_fields(s))
    } else {
        None
    }
}

/// Parse a publish date in the canonical `YYYY-MM-DD` form.
pub fn parse_date(s: &[u8]) -> (r: Option<Date>)
    ensures
        r == date_of_bytes(s@),
{
    if s.len() != 10 {
        return None;
    }
    let mut i: usize = 0;
    while i < 10
        invariant
            s@.len() == 10,
            0 <= i <= 10,
            forall|j: int|
                0 <= j < i ==> if j == 4 || j == 7 {
                    s@[j] == text::HYPHEN
                } else {
                    text::is_digit(s@[j])
                },
        decreases 10 - i,
    {
        let b = s[i];
        if i == 4 || i == 7 {
            if b != text::HYPHEN {
                return None;
            }
        } else {
            if !(48 <= b && b <= 57) {
                return None;
            }
        }
        i = i + 1;
    }
    let year: u32 = (s[0] - 48) as u32 * 1000 + (s[1] - 48) as u32 * 100 + (s[2] - 48) as u32 * 10
        + (s[3] - 48) as u32;
    let month: u32 = (s[5] - 48) as u32 * 10 + (s[6] - 48) as u32;
    let day: u32 = (s[8] - 48) as u32 * 10 + (s[9] - 48) as u32;
    let d = Date { year, month, day };
    if 1 <= year && 1 <= month && month <= 12 && 1 <= day && day <= month_days(year, month) {
        Some(d)
    } else {
        None
    }
}

/// Digit byte of a value in 0..=9.
pub open spec fn digit_byte(v: int) -> u8 {
    (48 + v) as u8
}

/// The canonical `YYYY-MM-DD` spelling of a valid date.
pub open spec fn date_bytes(d: Date) -> Seq<u8> {
    seq![
        digit_byte(d.year as int / 1000),
        digit_byte((d.year as int / 100) % 10),
        digit_byte((d.year as int / 10) % 10),
        digit_byte(d.year as int % 10),
        text::HYPHEN,
        digit_byte(d.month as int / 10),
        digit_byte(d.month as int % 10),
        text::HYPHEN,
        digit_byte(d.day as int / 10),
        digit_byte(d.day as int % 10),
    ]
}

/// Render a valid date in the canonical form.
pub fn render_date(d: &Date) -> (r: Vec<u8>)
    requires
        d.valid(),
    ensures
        r@ == date_bytes(*d),
{
    let mut out: Vec<u8> = Vec::new();
    out.push(48 + (d.year / 1000) as u8);
    out.push(48 + ((d.year / 100) % 10) as u8);
    out.push(48 + ((d.year / 10) % 10) as u8);
    out.push(48 + (d.year % 10) as u8);
    out.push(text::HYPHEN);
    out.push(48 + (d.month / 10) as u8);
    out.push(48 + (d.month % 10) as u8);
    out.push(text::HYPHEN);
    out.push(48 + (d.day / 10) as u8);
    out.push(48 + (d.day % 10) as u8);
    proof {
        assert(out@ =~= date_bytes(*d));
    }
    out
}

/// A date's ordering key as a machine integer.
pub fn date_key_u64(d: &Date) -> (r: u64)
    ensures
        r == d.key(),
{
    d.year as u64 * 10000 + d.month as u64 * 100 + d.day as u64
}

} // verus!
