//! Calendar timestamps and their decimal rendering.

use chrono::Datelike;
use chrono::Timelike;
use vstd::prelude::*;

verus! {

/// A UTC timestamp broken into calendar fields, the only representation of
/// time the library works with.
#[derive(Clone, Copy, Debug, PartialEq, Eq, Structural)]
pub struct UtcDate {
    pub year: u32,
    pub month: u32,
    pub day: u32,
    pub hour: u32,
    pub minute: u32,
    pub second: u32,
}

/// The calendar field ranges a timestamp must respect; `year` is capped at
/// four decimal digits, the widest range an RFC 3339 string can denote.
pub open spec fn fields_in_range(
    year: int,
    month: int,
    day: int,
    hour: int,
    minute: int,
    second: int,
) -> bool {
    &&& 0 <= year <= 9999
    &&& 1 <= month <= 12
    &&& 1 <= day <= 31
    &&& 0 <= hour <= 23
    &&& 0 <= minute <= 59
    &&& 0 <= second <= 59
}

/// What `UtcDate::from_fields` returns: the fields packed into a `UtcDate`
/// when they are in range, nothing otherwise.
pub open spec fn date_from_fields(
    year: int,
    month: int,
    day: int,
    hour: int,
    minute: int,
    second: int,
) -> Option<UtcDate> {
    if fields_in_range(year, month, day, hour, minute, second) {
        Some(
            UtcDate {
                year: year as u32,
                month: month as u32,
                day: day as u32,
                hour: hour as u32,
                minute: minute as u32,
                second: second as u32,
            },
        )
    } else {
        None
    }
}

/// The calendar fields, already shifted to UTC, that an RFC 3339 string
/// denotes, or nothing where the string is not a valid RFC 3339 timestamp.
pub uninterp spec fn rfc3339_fields(s: Seq<char>) -> Option<(i32, u32, u32, u32, u32, u32)>;

/// Relies on chrono's `DateTime::parse_from_rfc3339`, with the parsed offset
/// applied to reach UTC: the result is a function of the characters alone.
#[verifier::external_body]
fn parse_rfc3339_fields(s: &str) -> (r: Option<(i32, u32, u32, u32, u32, u32)>)
    ensures
        r == rfc3339_fields(s@),
{
    match chrono::DateTime::parse_from_rfc3339(s) {
        Ok(t) => {
            let t = t.to_utc();
            Some((t.year(), t.month(), t.day(), t.hour(), t.minute(), t.second()))
        },
        Err(_) => None,
    }
}

impl UtcDate {
    /// Field ranges every timestamp handed out by this module satisfies.
    pub open spec fn wf(self) -> bool {
        fields_in_range(
            self.year as int,
            self.month as int,
            self.day as int,
            self.hour as int,
            self.minute as int,
            self.second as int,
        )
    }

    /// Pack raw calendar fields into a timestamp, rejecting any field that is
    /// out of range.
    pub fn from_fields(year: i32, month: u32, day: u32, hour: u32, minute: u32, second: u32) -> (r:
        Option<UtcDate>)
        ensures
            r == date_from_fields(
                year as int,
                month as int,
                day as int,
                hour as int,
                minute as int,
                second as int,
            ),
            r is Some ==> r.unwrap().wf(),
    {
        if 0 <= year && year <= 9999 && 1 <= month && month <= 12 && 1 <= day && day <= 31 && hour
            <= 23 && minute <= 59 && second <= 59 {
            Some(
                UtcDate {
                    year: year as u32,
                    month,
                    day,
                    hour,
                    minute,
                    second,
                },
            )
        } else {
            None
        }
    }

    /// What `parse_rfc3339` returns: the string's UTC calendar fields packed
    /// into a timestamp, or nothing where the string does not parse or a
    /// field is out of range.
    pub open spec fn spec_parse_rfc3339(s: Seq<char>) -> Option<UtcDate> {
        match rfc3339_fields(s) {
            Some(f) => date_from_fields(
                f.0 as int,
                f.1 as int,
                f.2 as int,
                f.3 as int,
                f.4 as int,
                f.5 as int,
            ),
            None => None,
        }
    }

    /// Parse an RFC 3339 timestamp and normalize it to UTC, failing closed on
    /// anything malformed or out of range.
    pub fn parse_rfc3339(s: &str) -> (r: Option<UtcDate>)
        ensures
            r == Self::spec_parse_rfc3339(s@),
            r is Some ==> r.unwrap().wf(),
    {
        match parse_rfc3339_fields(s) {
            Some(f) => Self::from_fields(f.0, f.1, f.2, f.3, f.4, f.5),
            None => None,
        }
    }
}

/// The character for one decimal digit.
pub open spec fn digit_char(d: int) -> char {
    if d == 0 {
        '0'
    } else if d == 1 {
        '1'
    } else if d == 2 {
        '2'
    } else if d == 3 {
        '3'
    } else if d == 4 {
        '4'
    } else if d == 5 {
        '5'
    } else if d == 6 {
        '6'
    } else if d == 7 {
        '7'
    } else if d == 8 {
        '8'
    } else {
        '9'
    }
}

/// The decimal rendering of a number, most significant digit first, with no
/// leading zeros and no padding.
pub open spec fn dec_digits(n: int) -> Seq<char>
    decreases n,
{
    if n < 10 {
        seq![digit_char(n)]
    } else {
        dec_digits(n / 10).push(digit_char(n % 10))
    }
}

/// Append one decimal digit character to a string.
fn append_digit(s: &mut String, d: u32)
    requires
        d <= 9,
    ensures
        final(s)@ == old(s)@.push(digit_char(d as int)),
{
    proof {
        reveal_strlit("0");
        reveal_strlit("1");
        reveal_strlit("2");
        reveal_strlit("3");
        reveal_strlit("4");
        reveal_strlit("5");
        reveal_strlit("6");
        reveal_strlit("7");
        reveal_strlit("8");
        reveal_strlit("9");
    }
    match d {
        0 => s.append("0"),
        1 => s.append("1"),
        2 => s.append("2"),
        3 => s.append("3"),
        4 => s.append("4"),
        5 => s.append("5"),
        6 => s.append("6"),
        7 => s.append("7"),
        8 => s.append("8"),
        _ => s.append("9"),
    }
    proof {
        assert(s@ =~= old(s)@.push(digit_char(d as int)));
    }
}

/// Render a number in decimal, most significant digit first.
pub fn dec_string_of(n: u32) -> (s: String)
    ensures
        s@ == dec_digits(n as int),
    decreases n,
{
    if n < 10 {
        let mut s = String::new();
        append_digit(&mut s, n);
        proof {
            assert(s@ =~= dec_digits(n as int));
        }
        s
    } else {
        let mut s = dec_string_of(n / 10);
        append_digit(&mut s, n % 10);
        s
    }
}

} // verus!
