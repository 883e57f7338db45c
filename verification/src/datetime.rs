//! UTC calendar timestamps and normalization of listing-page date strings.
//!
//! A date string has the whitespace-delimited shape
//! `"<Mon> <Day> <Year> <Hour>:"`: a three-letter English month abbreviation,
//! a day of month, a four-digit year and an hour followed by a colon.
//! Minutes and seconds are always zero. Tokens past the fourth are ignored.

use vstd::prelude::*;
use vstd::string::StringExecFns;
use chrono::TimeZone;
use crate::error::ExtractError;
use crate::text::{
    all_digits, digits_val, is_digit_char, lemma_run_end, lemma_run_end_shift, run_end,
    to_char_vec,
};

verus! {

/// A UTC calendar timestamp with whole-hour precision.
#[derive(Clone, Copy, Debug, PartialEq, Eq, Structural)]
pub struct UtcDateTime {
    pub year: i32,
    pub month: u8,
    pub day: u8,
    pub hour: u8,
}

pub open spec fn is_leap_year(y: int) -> bool {
    y % 4 == 0 && (y % 100 != 0 || y % 400 == 0)
}

pub open spec fn days_in_month(y: int, m: int) -> int {
    if m == 2 {
        if is_leap_year(y) {
            29
        } else {
            28
        }
    } else if m == 4 || m == 6 || m == 9 || m == 11 {
        30
    } else {
        31
    }
}

/// A valid Gregorian calendar field combination with a four-digit year.
pub open spec fn valid_utc_fields(y: int, m: int, d: int, h: int) -> bool {
    &&& 0 <= y <= 9999
    &&& 1 <= m <= 12
    &&& 1 <= d <= days_in_month(y, m)
    &&& 0 <= h <= 23
}

impl UtcDateTime {
    /// The fields form a valid calendar timestamp.
    pub open spec fn wf(self) -> bool {
        valid_utc_fields(self.year as int, self.month as int, self.day as int, self.hour as int)
    }
}

/// The fixed month table: `Jan` = 1 ... `Dec` = 12. Any other token is
/// unrecognized.
pub open spec fn month_spec(t: Seq<char>) -> Option<u8> {
    if t.len() != 3 {
        None
    } else if t[0] == 'J' && t[1] == 'a' && t[2] == 'n' {
        Some(1u8)
    } else if t[0] == 'F' && t[1] == 'e' && t[2] == 'b' {
        Some(2u8)
    } else if t[0] == 'M' && t[1] == 'a' && t[2] == 'r' {
        Some(3u8)
    } else if t[0] == 'A' && t[1] == 'p' && t[2] == 'r' {
        Some(4u8)
    } else if t[0] == 'M' && t[1] == 'a' && t[2] == 'y' {
        Some(5u8)
    } else if t[0] == 'J' && t[1] == 'u' && t[2] == 'n' {
        Some(6u8)
    } else if t[0] == 'J' && t[1] == 'u' && t[2] == 'l' {
        Some(7u8)
    } else if t[0] == 'A' && t[1] == 'u' && t[2] == 'g' {
        Some(8u8)
    } else if t[0] == 'S' && t[1] == 'e' && t[2] == 'p' {
        Some(9u8)
    } else if t[0] == 'O' && t[1] == 'c' && t[2] == 't' {
        Some(10u8)
    } else if t[0] == 'N' && t[1] == 'o' && t[2] == 'v' {
        Some(11u8)
    } else if t[0] == 'D' && t[1] == 'e' && t[2] == 'c' {
        Some(12u8)
    } else {
        None
    }
}

/// A nonempty all-digit string with an optional leading `+`, valued at most
/// `u32::MAX`; what `u32` parsing accepts.
pub open spec fn parse_u32_spec(t: Seq<char>) -> Option<u32> {
    let d = if t.len() >= 1 && t[0] == '+' {
        t.subrange(1, t.len() as int)
    } else {
        t
    };
    if d.len() >= 1 && all_digits(d) && digits_val(d) <= u32::MAX {
        Some(digits_val(d) as u32)
    } else {
        None
    }
}

/// A nonempty all-digit string with an optional leading sign, valued within
/// `i32`; what `i32` parsing accepts.
pub open spec fn parse_i32_spec(t: Seq<char>) -> Option<int> {
    if t.len() >= 1 && t[0] == '-' {
        let d = t.subrange(1, t.len() as int);
        if d.len() >= 1 && all_digits(d) && digits_val(d) <= 0x8000_0000 {
            Some(-(digits_val(d) as int))
        } else {
            None
        }
    } else {
        let d = if t.len() >= 1 && t[0] == '+' {
            t.subrange(1, t.len() as int)
        } else {
            t
        };
        if d.len() >= 1 && all_digits(d) && digits_val(d) <= i32::MAX {
            Some(digits_val(d) as int)
        } else {
            None
        }
    }
}

/// Strip every trailing colon, as the hour token carries at least one.
pub open spec fn trim_colons(t: Seq<char>) -> Seq<char>
    decreases t.len(),
{
    if t.len() > 0 && t.last() == ':' {
        trim_colons(t.drop_last())
    } else {
        t
    }
}

/// Where the token that starts at `j` ends: the first space at or after `j`,
/// or the end of the string.
pub open spec fn token_end(s: Seq<char>, j: int) -> int {
    run_end(s, j, |c: char| c != ' ')
}

/// What normalizing a date string yields. The string is split on single
/// spaces; the first four tokens are read as month abbreviation, day, year
/// and colon-terminated hour; the fields must form a valid calendar
/// timestamp with a four-digit year. `None` on any failure.
pub open spec fn normalize_spec(s: Seq<char>) -> Option<UtcDateTime> {
    let e0 = token_end(s, 0);
    if e0 >= s.len() {
        None
    } else {
        let e1 = token_end(s, e0 + 1);
        if e1 >= s.len() {
            None
        } else {
            let e2 = token_end(s, e1 + 1);
            if e2 >= s.len() {
                None
            } else {
                let e3 = token_end(s, e2 + 1);
                let m = month_spec(s.subrange(0, e0));
                let d = parse_u32_spec(s.subrange(e0 + 1, e1));
                let y = parse_i32_spec(s.subrange(e1 + 1, e2));
                let h = parse_u32_spec(trim_colons(s.subrange(e2 + 1, e3)));
                if m is Some && d is Some && y is Some && h is Some && valid_utc_fields(
                    y.unwrap(),
                    m.unwrap() as int,
                    d.unwrap() as int,
                    h.unwrap() as int,
                ) {
                    Some(
                        UtcDateTime {
                            year: y.unwrap() as i32,
                            month: m.unwrap(),
                            day: d.unwrap() as u8,
                            hour: h.unwrap() as u8,
                        },
                    )
                } else {
                    None
                }
            }
        }
    }
}

/// Look the token `chars[lo..hi]` up in the month table.
fn month_from(chars: &Vec<char>, lo: usize, hi: usize) -> (r: Option<u8>)
    requires
        lo <= hi <= chars@.len(),
    ensures
        r == month_spec(chars@.subrange(lo as int, hi as int)),
{
    let ghost t = chars@.subrange(lo as int, hi as int);
    if hi - lo != 3 {
        return None;
    }
    proof {
        assert(t[0] == chars@[lo as int]);
        assert(t[1] == chars@[lo + 1]);
        assert(t[2] == chars@[lo + 2]);
    }
    let a = chars[lo];
    let b = chars[lo + 1];
    let c = chars[lo + 2];
    if a == 'J' && b == 'a' && c == 'n' {
        Some(1)
    } else if a == 'F' && b == 'e' && c == 'b' {
        Some(2)
    } else if a == 'M' && b == 'a' && c == 'r' {
        Some(3)
    } else if a == 'A' && b == 'p' && c == 'r' {
        Some(4)
    } else if a == 'M' && b == 'a' && c == 'y' {
        Some(5)
    } else if a == 'J' && b == 'u' && c == 'n' {
        Some(6)
    } else if a == 'J' && b == 'u' && c == 'l' {
        Some(7)
    } else if a == 'A' && b == 'u' && c == 'g' {
        Some(8)
    } else if a == 'S' && b == 'e' && c == 'p' {
        Some(9)
    } else if a == 'O' && b == 'c' && c == 't' {
        Some(10)
    } else if a == 'N' && b == 'o' && c == 'v' {
        Some(11)
    } else if a == 'D' && b == 'e' && c == 'c' {
        Some(12)
    } else {
        None
    }
}

/// Parse `chars[lo..hi]` as a nonempty unsigned digit string.
fn parse_unsigned_digits(chars: &Vec<char>, lo: usize, hi: usize) -> (r: Option<u64>)
    requires
        lo <= hi <= chars@.len(),
    ensures
        ({
            let t = chars@.subrange(lo as int, hi as int);
            match r {
                Some(v) => t.len() >= 1 && all_digits(t) && digits_val(t) <= u64::MAX && v
                    == digits_val(t),
                None => !(t.len() >= 1 && all_digits(t) && digits_val(t) <= u64::MAX),
            }
        }),
{
    let ghost t = chars@.subrange(lo as int, hi as int);
    let ghost dpred = |c: char| is_digit_char(c);
    if lo == hi {
        return None;
    }
    let e = crate::text::digit_run_end(chars, lo, hi);
    proof {
        lemma_run_end(t, 0, dpred);
    }
    if e != hi {
        proof {
            assert(!dpred(t[e - lo]));
            assert(!is_digit_char(t[e - lo]));
            assert(!all_digits(t));
        }
        return None;
    }
    proof {
        assert(forall|k: int| 0 <= k < t.len() ==> dpred(#[trigger] t[k]));
        assert(all_digits(t));
    }
    crate::text::parse_digits(chars, lo, hi)
}

/// Parse `chars[lo..hi]` as `u32` text: optional `+`, then digits.
fn parse_u32_range(chars: &Vec<char>, lo: usize, hi: usize) -> (r: Option<u32>)
    requires
        lo <= hi <= chars@.len(),
    ensures
        r == parse_u32_spec(chars@.subrange(lo as int, hi as int)),
{
    let ghost t = chars@.subrange(lo as int, hi as int);
    let plus = hi > lo && chars[lo] == '+';
    proof {
        if hi > lo {
            assert(t[0] == chars@[lo as int]);
        }
    }
    let start = if plus {
        lo + 1
    } else {
        lo
    };
    proof {
        if plus {
            assert(chars@.subrange(start as int, hi as int) =~= t.subrange(1, t.len() as int));
        } else {
            assert(chars@.subrange(start as int, hi as int) =~= t);
        }
    }
    match parse_unsigned_digits(chars, start, hi) {
        Some(v) => {
            if v <= u32::MAX as u64 {
                Some(v as u32)
            } else {
                None
            }
        },
        None => None,
    }
}

/// Parse `chars[lo..hi]` as `i32` text: optional sign, then digits.
fn parse_i32_range(chars: &Vec<char>, lo: usize, hi: usize) -> (r: Option<i32>)
    requires
        lo <= hi <= chars@.len(),
    ensures
        ({
            let v = parse_i32_spec(chars@.subrange(lo as int, hi as int));
            match r {
                Some(x) => v == Some(x as int),
                None => v is None,
            }
        }),
{
    let ghost t = chars@.subrange(lo as int, hi as int);
    if lo == hi {
        return None;
    }
    proof {
        assert(t[0] == chars@[lo as int]);
    }
    let first = chars[lo];
    if first == '-' {
        proof {
            assert(chars@.subrange(lo + 1 as int, hi as int) =~= t.subrange(1, t.len() as int));
        }
        match parse_unsigned_digits(chars, lo + 1, hi) {
            Some(v) => {
                if v < 0x8000_0000 {
                    Some(-(v as i32))
                } else if v == 0x8000_0000 {
                    Some(i32::MIN)
                } else {
                    None
                }
            },
            None => None,
        }
    } else {
        let start = if first == '+' {
            lo + 1
        } else {
            lo
        };
        proof {
            if first == '+' {
                assert(chars@.subrange(start as int, hi as int) =~= t.subrange(1, t.len() as int));
            } else {
                assert(chars@.subrange(start as int, hi as int) =~= t);
            }
        }
        match parse_unsigned_digits(chars, start, hi) {
            Some(v) => {
                if v <= i32::MAX as u64 {
                    Some(v as i32)
                } else {
                    None
                }
            },
            None => None,
        }
    }
}

/// The number of days of a month, for a non-negative year.
fn month_days(y: i32, m: u8) -> (r: u8)
    requires
        0 <= y,
        1 <= m <= 12,
    ensures
        r as int == days_in_month(y as int, m as int),
{
    if m == 2 {
        if y % 4 == 0 && (y % 100 != 0 || y % 400 == 0) {
            29
        } else {
            28
        }
    } else if m == 4 || m == 6 || m == 9 || m == 11 {
        30
    } else {
        31
    }
}

/// Normalize the date string `chars[lo..hi]`.
pub(crate) fn normalize_range(chars: &Vec<char>, lo: usize, hi: usize) -> (r: Option<UtcDateTime>)
    requires
        lo <= hi <= chars@.len(),
    ensures
        r == normalize_spec(chars@.subrange(lo as int, hi as int)),
        r is Some ==> r.unwrap().wf(),
{
    let ghost s = chars@.subrange(lo as int, hi as int);
    let ghost nsp = |c: char| c != ' ';
    let e0 = crate::text::nonspace_run_end(chars, lo, hi);
    proof {
        assert(token_end(s, 0) == e0 - lo);
    }
    if e0 == hi {
        return None;
    }
    let b1 = e0 + 1;
    let e1 = crate::text::nonspace_run_end(chars, b1, hi);
    proof {
        lemma_run_end_shift(s, b1 - lo, s.len() as int, nsp);
        assert(s.subrange(b1 - lo, s.len() as int) =~= chars@.subrange(b1 as int, hi as int));
        assert(token_end(s, b1 - lo) == e1 - lo);
    }
    if e1 == hi {
        return None;
    }
    let b2 = e1 + 1;
    let e2 = crate::text::nonspace_run_end(chars, b2, hi);
    proof {
        lemma_run_end_shift(s, b2 - lo, s.len() as int, nsp);
        assert(s.subrange(b2 - lo, s.len() as int) =~= chars@.subrange(b2 as int, hi as int));
        assert(token_end(s, b2 - lo) == e2 - lo);
    }
    if e2 == hi {
        return None;
    }
    let b3 = e2 + 1;
    let e3 = crate::text::nonspace_run_end(chars, b3, hi);
    proof {
        lemma_run_end_shift(s, b3 - lo, s.len() as int, nsp);
        assert(s.subrange(b3 - lo, s.len() as int) =~= chars@.subrange(b3 as int, hi as int));
        assert(token_end(s, b3 - lo) == e3 - lo);
    }
    let m = month_from(chars, lo, e0);
    proof {
        assert(chars@.subrange(lo as int, e0 as int) =~= s.subrange(0, e0 - lo));
    }
    let d = parse_u32_range(chars, b1, e1);
    proof {
        assert(chars@.subrange(b1 as int, e1 as int) =~= s.subrange(b1 - lo, e1 - lo));
    }
    let y = parse_i32_range(chars, b2, e2);
    proof {
        assert(chars@.subrange(b2 as int, e2 as int) =~= s.subrange(b2 - lo, e2 - lo));
    }
    let mut e: usize = e3;
    while e > b3 && chars[e - 1] == ':'
        invariant
            b3 <= e <= e3 <= hi <= chars@.len(),
            trim_colons(chars@.subrange(b3 as int, e3 as int)) == trim_colons(
                chars@.subrange(b3 as int, e as int),
            ),
        decreases e,
    {
        proof {
            let cur = chars@.subrange(b3 as int, e as int);
            assert(cur.last() == chars@[e - 1]);
            assert(cur.drop_last() =~= chars@.subrange(b3 as int, e - 1));
        }
        e = e - 1;
    }
    proof {
        let cur = chars@.subrange(b3 as int, e as int);
        if e > b3 {
            assert(cur.last() == chars@[e - 1]);
        }
        assert(trim_colons(cur) == cur);
        assert(chars@.subrange(b3 as int, e3 as int) =~= s.subrange(b3 - lo, e3 - lo));
    }
    let h = parse_u32_range(chars, b3, e);
    proof {
        assert(parse_u32_spec(chars@.subrange(b3 as int, e as int)) == parse_u32_spec(
            trim_colons(s.subrange(b3 - lo, e3 - lo)),
        ));
    }
    if m.is_none() || d.is_none() || y.is_none() || h.is_none() {
        return None;
    }
    let mv = m.unwrap();
    let dv = d.unwrap();
    let yv = y.unwrap();
    let hv = h.unwrap();
    proof {
        assert(1 <= month_spec(s.subrange(0, e0 - lo)).unwrap() <= 12);
    }
    if !(0 <= yv && yv <= 9999) {
        return None;
    }
    let dim = month_days(yv, mv);
    if !(1 <= dv && dv <= dim as u32) {
        return None;
    }
    if !(hv <= 23) {
        return None;
    }
    Some(UtcDateTime { year: yv, month: mv, day: dv as u8, hour: hv as u8 })
}

/// Whatever normalization yields is a valid calendar timestamp.
pub proof fn lemma_normalize_wf(s: Seq<char>)
    ensures
        normalize_spec(s) is Some ==> normalize_spec(s).unwrap().wf(),
{
}

/// An unrecognized month token fails the whole normalization: no silent
/// default stands in for it.
pub proof fn lemma_unrecognized_month(s: Seq<char>)
    requires
        month_spec(s.subrange(0, token_end(s, 0))) is None,
    ensures
        normalize_spec(s) is None,
{
}

/// A value that can be read as a UTC calendar timestamp.
pub trait ToUtcDateTime {
    /// The timestamp this value normalizes to, if any.
    spec fn utc_spec(&self) -> Option<UtcDateTime>;

    /// The raw text reported when normalization fails.
    spec fn raw_spec(&self) -> Seq<char>;

    /// Normalize `self` into a UTC calendar timestamp; an unrecognized or
    /// out-of-range date is an error, never a silent default.
    fn to_utc_datetime(&self) -> (r: Result<UtcDateTime, ExtractError>)
        ensures
            match r {
                Ok(dt) => self.utc_spec() == Some(dt),
                Err(e) => {
                    &&& self.utc_spec() is None
                    &&& e matches ExtractError::BadDate { raw } && raw@ == self.raw_spec()
                },
            },
    ;
}

impl ToUtcDateTime for &str {
    open spec fn utc_spec(&self) -> Option<UtcDateTime> {
        normalize_spec(self@)
    }

    open spec fn raw_spec(&self) -> Seq<char> {
        self@
    }

    fn to_utc_datetime(&self) -> (r: Result<UtcDateTime, ExtractError>) {
        let chars = to_char_vec(*self);
        proof {
            assert(chars@.subrange(0, chars@.len() as int) =~= self@);
        }
        match normalize_range(&chars, 0, chars.len()) {
            Some(dt) => Ok(dt),
            None => Err(ExtractError::BadDate { raw: String::from_str(*self) }),
        }
    }
}

impl ToUtcDateTime for UtcDateTime {
    open spec fn utc_spec(&self) -> Option<UtcDateTime> {
        Some(*self)
    }

    open spec fn raw_spec(&self) -> Seq<char> {
        Seq::empty()
    }

    fn to_utc_datetime(&self) -> (r: Result<UtcDateTime, ExtractError>) {
        Ok(*self)
    }
}

/// The text that the timestamp built from these calendar fields renders to.
pub uninterp spec fn utc_display_of(year: int, month: int, day: int, hour: int) -> Seq<char>;

/// Relies on chrono: `Utc.with_ymd_and_hms(y, m, d, h, 0, 0)` builds a
/// timestamp for every valid calendar field combination in this range, and
/// `Display` for `DateTime<Utc>` renders it from those fields alone,
/// deterministically.
#[verifier::external_body]
pub(crate) fn render_timestamp(year: i32, month: u8, day: u8, hour: u8) -> (r: String)
    requires
        valid_utc_fields(year as int, month as int, day as int, hour as int),
    ensures
        r@ == utc_display_of(year as int, month as int, day as int, hour as int),
{
    let dt = chrono::Utc
        .with_ymd_and_hms(year, month as u32, day as u32, hour as u32, 0, 0)
        .unwrap();
    dt.to_string()
}

} // verus!
