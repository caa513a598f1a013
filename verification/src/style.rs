//! The listing's print styles and the parsing of a style name.

use vstd::prelude::*;
use vstd::string::StrSliceExecFns;

verus! {

/// An ASCII upper-case letter folded to lower case; every other code point
/// is left alone.
pub open spec fn ascii_lower(c: int) -> int {
    if 65 <= c <= 90 {
        c + 32
    } else {
        c
    }
}

/// Character-wise equality up to ASCII case.
pub open spec fn eq_ignore_ascii_case(a: Seq<char>, b: Seq<char>) -> bool {
    a.len() == b.len() && forall|i: int|
        0 <= i < a.len() ==> ascii_lower(a[i] as int) == ascii_lower(b[i] as int)
}

/// Fold one character's ASCII case.
fn to_lower_code(c: char) -> (r: u32)
    ensures
        r == ascii_lower(c as int),
{
    let u = c as u32;
    if 65 <= u && u <= 90 {
        u + 32
    } else {
        u
    }
}

/// Compare two strings up to ASCII case.
fn str_eq_ignore_case(a: &str, b: &str) -> (r: bool)
    ensures
        r == eq_ignore_ascii_case(a@, b@),
{
    let na = a.unicode_len();
    let nb = b.unicode_len();
    if na != nb {
        return false;
    }
    for i in 0..na
        invariant
            na == a@.len(),
            nb == b@.len(),
            na == nb,
            forall|j: int| 0 <= j < i ==> ascii_lower(a@[j] as int) == ascii_lower(b@[j] as int),
    {
        let ca = a.get_char(i);
        let cb = b.get_char(i);
        if to_lower_code(ca) != to_lower_code(cb) {
            return false;
        }
    }
    true
}

/// How one listed entry is printed.
#[derive(Clone, Copy, Debug, PartialEq, Eq, Structural)]
pub enum Style {
    Debug,
    FsPath,
    Json,
}

/// The input that named no style.
#[derive(Debug)]
pub struct StyleParseError {
    pub input: String,
}

impl Style {
    /// Parse a style name, ignoring ASCII case.
    pub fn parse(s: &str) -> (r: Result<Style, StyleParseError>)
        ensures
            r is Ok <==> eq_ignore_ascii_case(s@, "debug"@) || eq_ignore_ascii_case(s@, "fspath"@)
                || eq_ignore_ascii_case(s@, "json"@),
            eq_ignore_ascii_case(s@, "debug"@) ==> (r matches Ok(st) && st == Style::Debug),
            eq_ignore_ascii_case(s@, "fspath"@) ==> (r matches Ok(st) && st == Style::FsPath),
            eq_ignore_ascii_case(s@, "json"@) ==> (r matches Ok(st) && st == Style::Json),
            r matches Err(e) ==> e.input@ == s@,
    {
        proof {
            reveal_strlit("debug");
            reveal_strlit("fspath");
            reveal_strlit("json");
        }
        if str_eq_ignore_case(s, "debug") {
            Ok(Style::Debug)
        } else if str_eq_ignore_case(s, "fspath") {
            Ok(Style::FsPath)
        } else if str_eq_ignore_case(s, "json") {
            Ok(Style::Json)
        } else {
            Err(StyleParseError { input: s.to_owned() })
        }
    }
}

} // verus!
