//! Times given as text: a time string is read against a format string and
//! becomes a number of milliseconds since 1970-01-01 00:00:00.
//!
//! In a format, `%Y` stands for a year of four digits, `%m`, `%d`, `%H`,
//! `%M` and `%S` for a month, a day, an hour, a minute and a second of two
//! digits each, and `%%` for a percent sign. Every other byte stands for
//! itself. A format names the year, the month and the day, and names no
//! field twice; an hour, minute or second that it does not name is zero.
//!
//! Years run from 0001 to 9999 in the proleptic Gregorian calendar, hours
//! from 00 to 23, minutes and seconds from 00 to 59. A time string that
//! does not match the format, or whose fields are out of range, gives no
//! time: nothing is guessed.

use vstd::prelude::*;
use vstd::string::StringSliceAdditionalSpecFns;
use crate::errors::GraphError;

verus! {

/// The fields of a time, as far as they have been read.
#[derive(Clone, Copy, Debug, PartialEq, Eq, Structural)]
pub struct TimeFields {
    pub year: Option<u32>,
    pub month: Option<u32>,
    pub day: Option<u32>,
    pub hour: Option<u32>,
    pub minute: Option<u32>,
    pub second: Option<u32>,
}

pub open spec fn no_fields() -> TimeFields {
    TimeFields { year: None, month: None, day: None, hour: None, minute: None, second: None }
}

pub open spec fn is_digit(b: u8) -> bool {
    48 <= b <= 57
}

/// Whether `s` holds `n` decimal digits from position `i` on.
pub open spec fn has_digits(s: Seq<u8>, i: int, n: int) -> bool {
    i + n <= s.len() && forall|k: int| i <= k < i + n ==> is_digit(#[trigger] s[k])
}

/// The number that the `n` decimal digits of `s` from position `i` on write.
pub open spec fn digits_value(s: Seq<u8>, i: int, n: int) -> int
    decreases n,
{
    if n <= 0 {
        0
    } else {
        digits_value(s, i, n - 1) * 10 + (s[i + n - 1] - 48)
    }
}

/// The number of digits of the field that the letter `c` names.
pub open spec fn field_width(c: u8) -> Option<int> {
    if c == 89 {
        Some(4)
    } else if c == 109 || c == 100 || c == 72 || c == 77 || c == 83 {
        Some(2)
    } else {
        None
    }
}

/// `f` with the field that the letter `c` names set to `v`; nothing if
/// that field is set already.
pub open spec fn set_field(f: TimeFields, c: u8, v: u32) -> Option<TimeFields> {
    if c == 89 && f.year is None {
        Some(TimeFields { year: Some(v), ..f })
    } else if c == 109 && f.month is None {
        Some(TimeFields { month: Some(v), ..f })
    } else if c == 100 && f.day is None {
        Some(TimeFields { day: Some(v), ..f })
    } else if c == 72 && f.hour is None {
        Some(TimeFields { hour: Some(v), ..f })
    } else if c == 77 && f.minute is None {
        Some(TimeFields { minute: Some(v), ..f })
    } else if c == 83 && f.second is None {
        Some(TimeFields { second: Some(v), ..f })
    } else {
        None
    }
}

/// The fields that `t` from position `i` on gives when read against `fmt`
/// from position `j` on, starting from the fields `f`; nothing if `t` does
/// not match `fmt`.
pub open spec fn parse_fields(t: Seq<u8>, fmt: Seq<u8>, i: int, j: int, f: TimeFields) -> Option<
    TimeFields,
>
    decreases fmt.len() - j,
{
    if j >= fmt.len() {
        if i == t.len() {
            Some(f)
        } else {
            None
        }
    } else if fmt[j] != 37 {
        if 0 <= i < t.len() && t[i] == fmt[j] {
            parse_fields(t, fmt, i + 1, j + 1, f)
        } else {
            None
        }
    } else if j + 1 >= fmt.len() {
        None
    } else if fmt[j + 1] == 37 {
        if 0 <= i < t.len() && t[i] == 37 {
            parse_fields(t, fmt, i + 1, j + 2, f)
        } else {
            None
        }
    } else {
        match field_width(fmt[j + 1]) {
            None => None,
            Some(w) => if has_digits(t, i, w) {
                match set_field(f, fmt[j + 1], digits_value(t, i, w) as u32) {
                    Some(f2) => parse_fields(t, fmt, i + w, j + 2, f2),
                    None => None,
                }
            } else {
                None
            },
        }
    }
}

pub open spec fn is_leap(y: int) -> bool {
    (y % 4 == 0 && y % 100 != 0) || y % 400 == 0
}

pub open spec fn days_in_month(y: int, m: int) -> int {
    if m == 2 {
        if is_leap(y) {
            29
        } else {
            28
        }
    } else if m == 4 || m == 6 || m == 9 || m == 11 {
        30
    } else {
        31
    }
}

/// The number of leap years before the year `y`, counted from the year 1.
pub open spec fn leaps_before(y: int) -> int {
    (y - 1) / 4 - (y - 1) / 100 + (y - 1) / 400
}

/// The number of days of the year `y` before its month `m`.
pub open spec fn days_before_month(y: int, m: int) -> int
    decreases m,
{
    if m <= 1 {
        0
    } else {
        days_before_month(y, m - 1) + days_in_month(y, m - 1)
    }
}

/// The number of days from 1970-01-01 to the day `d` of the month `m` of
/// the year `y`.
pub open spec fn days_from_epoch(y: int, m: int, d: int) -> int {
    365 * (y - 1970) + leaps_before(y) - leaps_before(1970) + days_before_month(y, m) + d - 1
}

pub open spec fn field_or_zero(v: Option<u32>) -> int {
    match v {
        Some(x) => x as int,
        None => 0,
    }
}

/// The time that the fields give, in milliseconds since 1970-01-01
/// 00:00:00; nothing if the date is incomplete or a field is out of range.
pub open spec fn fields_millis(f: TimeFields) -> Option<i64> {
    match (f.year, f.month, f.day) {
        (Some(y), Some(m), Some(d)) => {
            let h = field_or_zero(f.hour);
            let mi = field_or_zero(f.minute);
            let s = field_or_zero(f.second);
            if 1 <= y <= 9999 && 1 <= m <= 12 && 1 <= d <= days_in_month(y as int, m as int) && h < 24
                && mi < 60 && s < 60 {
                Some(
                    ((((days_from_epoch(y as int, m as int, d as int) * 24 + h) * 60 + mi) * 60
                        + s) * 1000) as i64,
                )
            } else {
                None
            }
        },
        _ => None,
    }
}

/// The time that `t` gives when read against `fmt`, in milliseconds since
/// 1970-01-01 00:00:00; nothing if `t` does not match `fmt`.
pub open spec fn parse_time_spec(t: Seq<u8>, fmt: Seq<u8>) -> Option<i64> {
    match parse_fields(t, fmt, 0, 0, no_fields()) {
        Some(f) => fields_millis(f),
        None => None,
    }
}

fn read_digits(t: &[u8], i: usize, n: usize) -> (r: Option<u32>)
    requires
        n <= 4,
        i <= t@.len(),
    ensures
        match r {
            Some(v) => has_digits(t@, i as int, n as int) && v == digits_value(
                t@,
                i as int,
                n as int,
            ),
            None => !has_digits(t@, i as int, n as int),
        },
{
    let len = t.len();
    if n > len - i {
        return None;
    }
    let mut v: u32 = 0;
    let mut k: usize = 0;
    while k < n
        invariant
            k <= n <= 4,
            len == t@.len(),
            i + n <= len,
            v == digits_value(t@, i as int, k as int),
            v < 10000,
            k == 0 ==> v == 0,
            k == 1 ==> v < 10,
            k == 2 ==> v < 100,
            k == 3 ==> v < 1000,
            forall|x: int| i <= x < i + k ==> is_digit(#[trigger] t@[x]),
        decreases n - k,
    {
        let b = t[i + k];
        if b < 48 || b > 57 {
            return None;
        }
        v = v * 10 + (b - 48) as u32;
        k += 1;
    }
    Some(v)
}

fn store_field(f: TimeFields, c: u8, v: u32) -> (r: Option<TimeFields>)
    ensures
        r == set_field(f, c, v),
{
    if c == 89 && f.year.is_none() {
        Some(TimeFields { year: Some(v), ..f })
    } else if c == 109 && f.month.is_none() {
        Some(TimeFields { month: Some(v), ..f })
    } else if c == 100 && f.day.is_none() {
        Some(TimeFields { day: Some(v), ..f })
    } else if c == 72 && f.hour.is_none() {
        Some(TimeFields { hour: Some(v), ..f })
    } else if c == 77 && f.minute.is_none() {
        Some(TimeFields { minute: Some(v), ..f })
    } else if c == 83 && f.second.is_none() {
        Some(TimeFields { second: Some(v), ..f })
    } else {
        None
    }
}

/// The fields that `t` gives when read against `fmt`.
pub fn read_fields(t: &[u8], fmt: &[u8]) -> (r: Option<TimeFields>)
    ensures
        r == parse_fields(t@, fmt@, 0, 0, no_fields()),
{
    let mut f = TimeFields {
        year: None,
        month: None,
        day: None,
        hour: None,
        minute: None,
        second: None,
    };
    let len = t.len();
    let mut i: usize = 0;
    let mut j: usize = 0;
    while j < fmt.len()
        invariant
            len == t@.len(),
            i <= t@.len(),
            j <= fmt@.len(),
            parse_fields(t@, fmt@, 0, 0, no_fields()) == parse_fields(t@, fmt@, i as int, j as int, f),
        decreases fmt.len() - j,
    {
        let c = fmt[j];
        if c != 37 {
            if i < t.len() && t[i] == c {
                i += 1;
                j += 1;
            } else {
                return None;
            }
        } else if j + 1 >= fmt.len() {
            return None;
        } else {
            let spec_char = fmt[j + 1];
            if spec_char == 37 {
                if i < t.len() && t[i] == 37 {
                    i += 1;
                    j += 2;
                } else {
                    return None;
                }
            } else {
                let w: usize = if spec_char == 89 {
                    4
                } else if spec_char == 109 || spec_char == 100 || spec_char == 72 || spec_char
                    == 77 || spec_char == 83 {
                    2
                } else {
                    return None;
                };
                match read_digits(t, i, w) {
                    None => {
                        return None;
                    },
                    Some(v) => match store_field(f, spec_char, v) {
                        None => {
                            return None;
                        },
                        Some(f2) => {
                            f = f2;
                            i += w;
                            j += 2;
                        },
                    },
                }
            }
        }
    }
    if i == t.len() {
        Some(f)
    } else {
        None
    }
}

fn leap_year(y: i64) -> (r: bool)
    requires
        1 <= y <= 9999,
    ensures
        r == is_leap(y as int),
{
    (y % 4 == 0 && y % 100 != 0) || y % 400 == 0
}

fn month_length(y: i64, m: i64) -> (r: i64)
    requires
        1 <= y <= 9999,
    ensures
        r == days_in_month(y as int, m as int),
        28 <= r <= 31,
{
    if m == 2 {
        if leap_year(y) {
            29
        } else {
            28
        }
    } else if m == 4 || m == 6 || m == 9 || m == 11 {
        30
    } else {
        31
    }
}

/// The time that the fields give, in milliseconds since 1970-01-01 00:00:00.
pub fn millis_of(f: &TimeFields) -> (r: Option<i64>)
    ensures
        r == fields_millis(*f),
{
    let (y, m, d) = match (f.year, f.month, f.day) {
        (Some(y), Some(m), Some(d)) => (y as i64, m as i64, d as i64),
        _ => {
            return None;
        },
    };
    let h: i64 = match f.hour {
        Some(x) => x as i64,
        None => 0,
    };
    let mi: i64 = match f.minute {
        Some(x) => x as i64,
        None => 0,
    };
    let s: i64 = match f.second {
        Some(x) => x as i64,
        None => 0,
    };
    if y < 1 || y > 9999 || m < 1 || m > 12 || d < 1 || h >= 24 || mi >= 60 || s >= 60 {
        return None;
    }
    if d > month_length(y, m) {
        return None;
    }
    let mut before: i64 = 0;
    let mut k: i64 = 1;
    while k < m
        invariant
            1 <= k <= m <= 12,
            1 <= y <= 9999,
            before == days_before_month(y as int, k as int),
            0 <= before <= 31 * (k - 1),
        decreases m - k,
    {
        before += month_length(y, k);
        k += 1;
    }
    let leaps = (y - 1) / 4 - (y - 1) / 100 + (y - 1) / 400;
    let days = 365 * (y - 1970) + leaps - 477 + before + d - 1;
    assert(leaps_before(1970) == 477);
    Some((((days * 24 + h) * 60 + mi) * 60 + s) * 1000)
}

/// Reads the time string `t` against the format `fmt`. Fails if `t` does
/// not match `fmt`, if `fmt` is not a format, or if the fields do not give
/// a time.
pub fn parse_time(t: &str, fmt: &str) -> (r: Result<i64, GraphError>)
    ensures
        match parse_time_spec(t.spec_bytes(), fmt.spec_bytes()) {
            Some(millis) => r == Ok::<i64, GraphError>(millis),
            None => r == Err::<i64, GraphError>(GraphError::ParseTime),
        },
{
    match read_fields(t.as_bytes(), fmt.as_bytes()) {
        None => Err(GraphError::ParseTime),
        Some(f) => match millis_of(&f) {
            Some(millis) => Ok(millis),
            None => Err(GraphError::ParseTime),
        },
    }
}

} // verus!
