//! The price-history extractor.
//!
//! A listings page embeds its price history as serialized
//! `["<date>", <price>, "<count>"]` tuples. The scanner finds every
//! non-overlapping occurrence of that shape, left to right; each one yields
//! one observation, price parsed exactly and date normalized to UTC. A
//! failure on any single tuple fails the whole extraction, and a page with
//! zero tuples is an error of its own, never an empty success.

use vstd::prelude::*;
use vstd::string::{StrSliceExecFns, StringExecFns};
use crate::datetime::{normalize_range, normalize_spec, UtcDateTime};
use crate::error::ExtractError;
use crate::price::{parse_price, price_spec, Price};
use crate::text::{
    is_date_char, is_digit_char, is_price_char, lemma_run_end_shift, run_end, to_char_vec,
};

verus! {

/// One price observation: a UTC timestamp and an exact decimal price.
#[derive(Clone, Copy, Debug, PartialEq, Eq, Structural)]
pub struct SteamMarketItemPrice {
    pub date: UtcDateTime,
    pub price: Price,
}

/// One structural match of the embedded-tuple shape: the date fragment, the
/// price fragment, and the position just past the match.
pub ghost struct SpecMatch {
    pub date: Seq<char>,
    pub price: Seq<char>,
    pub end: int,
}

/// The tuple shape, matched at position `i`: `["` then a nonempty run of
/// date-class characters, `"` and one further character that is not a line
/// feed, a nonempty run of price-class characters, `,"`, a nonempty run of
/// digits, and `"]`. Each run is maximal, so the shape admits exactly one
/// reading.
pub open spec fn try_match(s: Seq<char>, i: int) -> Option<SpecMatch> {
    if !(0 <= i && i + 2 <= s.len() && s[i] == '[' && s[i + 1] == '"') {
        None
    } else {
        let d0 = i + 2;
        let d1 = run_end(s, d0, |c: char| is_date_char(c));
        if !(d1 > d0 && d1 + 1 < s.len() && s[d1] == '"' && s[d1 + 1] != '\n') {
            None
        } else {
            let p0 = d1 + 2;
            let p1 = run_end(s, p0, |c: char| is_price_char(c));
            if !(p1 > p0 && p1 + 1 < s.len() && s[p1] == ',' && s[p1 + 1] == '"') {
                None
            } else {
                let c0 = p1 + 2;
                let c1 = run_end(s, c0, |c: char| is_digit_char(c));
                if !(c1 > c0 && c1 + 1 < s.len() && s[c1] == '"' && s[c1 + 1] == ']') {
                    None
                } else {
                    Some(
                        SpecMatch {
                            date: s.subrange(d0, d1),
                            price: s.subrange(p0, p1),
                            end: c1 + 2,
                        },
                    )
                }
            }
        }
    }
}

/// All non-overlapping matches at or after `i`, left to right: the match at
/// the leftmost position where one starts, then the matches after its end.
pub open spec fn matches_from(s: Seq<char>, i: int) -> Seq<SpecMatch>
    decreases s.len() - i when 0 <= i <= s.len()
{
    if i >= s.len() {
        Seq::empty()
    } else {
        match try_match(s, i) {
            Some(m) => if i < m.end <= s.len() {
                seq![m] + matches_from(s, m.end)
            } else {
                Seq::empty()
            },
            None => matches_from(s, i + 1),
        }
    }
}

/// Both fragments of the match convert: the price parses as a decimal and
/// the date normalizes to a timestamp.
pub open spec fn match_good(m: SpecMatch) -> bool {
    price_spec(m.price) is Some && normalize_spec(m.date) is Some
}

pub open spec fn all_good(ms: Seq<SpecMatch>) -> bool {
    forall|k: int| 0 <= k < ms.len() ==> match_good(#[trigger] ms[k])
}

/// The observation a good match converts to.
pub open spec fn obs_of(m: SpecMatch) -> SteamMarketItemPrice
    recommends
        match_good(m),
{
    SteamMarketItemPrice {
        date: normalize_spec(m.date).unwrap(),
        price: price_spec(m.price).unwrap(),
    }
}

/// The error owed to the first match that fails to convert: its price
/// fragment if the price is at fault (checked first), else its date
/// fragment.
pub open spec fn error_for(e: ExtractError, m: SpecMatch) -> bool {
    if price_spec(m.price) is None {
        e matches ExtractError::BadPrice { raw } && raw@ == m.price
    } else {
        e matches ExtractError::BadDate { raw } && raw@ == m.date
    }
}

struct RawMatch {
    d0: usize,
    d1: usize,
    p0: usize,
    p1: usize,
    end: usize,
}

/// Try the tuple shape at position `i`, reporting the fragment positions.
fn try_match_at(chars: &Vec<char>, i: usize) -> (r: Option<RawMatch>)
    requires
        i <= chars@.len(),
    ensures
        ({
            let s = chars@;
            match r {
                Some(p) => {
                    &&& try_match(s, i as int) is Some
                    &&& p.d0 <= p.d1 <= s.len()
                    &&& p.p0 <= p.p1 <= s.len()
                    &&& (i as int) < p.end as int <= s.len()
                    &&& try_match(s, i as int).unwrap() == (SpecMatch {
                        date: s.subrange(p.d0 as int, p.d1 as int),
                        price: s.subrange(p.p0 as int, p.p1 as int),
                        end: p.end as int,
                    })
                },
                None => try_match(s, i as int) is None,
            }
        }),
{
    let ghost s = chars@;
    let n = chars.len();
    if i >= n || i + 1 >= n {
        return None;
    }
    if chars[i] != '[' || chars[i + 1] != '"' {
        return None;
    }
    let d0 = i + 2;
    let d1 = crate::text::date_run_end(chars, d0, n);
    proof {
        lemma_run_end_shift(s, d0 as int, s.len() as int, |c: char| is_date_char(c));
        assert(s.subrange(d0 as int, s.len() as int) =~= chars@.subrange(d0 as int, n as int));
        assert(run_end(s, d0 as int, |c: char| is_date_char(c)) == d1 as int);
    }
    if d1 <= d0 || n - d1 < 2 {
        return None;
    }
    if chars[d1] != '"' || chars[d1 + 1] == '\n' {
        return None;
    }
    let p0 = d1 + 2;
    let p1 = crate::text::price_run_end(chars, p0, n);
    proof {
        lemma_run_end_shift(s, p0 as int, s.len() as int, |c: char| is_price_char(c));
        assert(s.subrange(p0 as int, s.len() as int) =~= chars@.subrange(p0 as int, n as int));
        assert(run_end(s, p0 as int, |c: char| is_price_char(c)) == p1 as int);
    }
    if p1 <= p0 || n - p1 < 2 {
        return None;
    }
    if chars[p1] != ',' || chars[p1 + 1] != '"' {
        return None;
    }
    let c0 = p1 + 2;
    let c1 = crate::text::digit_run_end(chars, c0, n);
    proof {
        lemma_run_end_shift(s, c0 as int, s.len() as int, |c: char| is_digit_char(c));
        assert(s.subrange(c0 as int, s.len() as int) =~= chars@.subrange(c0 as int, n as int));
        assert(run_end(s, c0 as int, |c: char| is_digit_char(c)) == c1 as int);
    }
    if c1 <= c0 || n - c1 < 2 {
        return None;
    }
    if chars[c1] != '"' || chars[c1 + 1] != ']' {
        return None;
    }
    Some(RawMatch { d0, d1, p0, p1, end: c1 + 2 })
}

/// Extract the full price history embedded in a page.
///
/// Scans for every tuple match, in order; parses each price exactly and
/// normalizes each date to UTC. Succeeds if and only if the page holds at
/// least one match and every match converts; the result then carries exactly
/// one observation per match, in page order. Zero matches is the
/// empty-history error; otherwise the first failing match decides the error
/// and carries its offending fragment.
pub fn extract(page: &str) -> (r: Result<Vec<SteamMarketItemPrice>, ExtractError>)
    ensures
        ({
            let ms = matches_from(page@, 0);
            &&& (r is Ok <==> ms.len() > 0 && all_good(ms))
            &&& (r is Ok ==> r.unwrap()@.len() == ms.len() && (forall|j: int|
                0 <= j < ms.len() ==> r.unwrap()@[j] == obs_of(#[trigger] ms[j])))
            &&& (ms.len() == 0 <==> r matches Err(ExtractError::EmptyHistory))
            &&& (ms.len() > 0 && !all_good(ms) ==> exists|k: int|
                {
                    &&& 0 <= k < ms.len()
                    &&& !match_good(#[trigger] ms[k])
                    &&& (forall|j: int| 0 <= j < k ==> match_good(#[trigger] ms[j]))
                    &&& r is Err && error_for(r.unwrap_err(), ms[k])
                })
        }),
{
    let chars = to_char_vec(page);
    let ghost s = page@;
    let ghost ms = matches_from(s, 0);
    let mut obs: Vec<SteamMarketItemPrice> = Vec::new();
    let ghost mut k: int = 0;
    let mut i: usize = 0;
    while i < chars.len()
        invariant
            chars@ == s,
            s == page@,
            ms == matches_from(s, 0),
            i <= s.len(),
            0 <= k <= ms.len(),
            ms =~= ms.subrange(0, k) + matches_from(s, i as int),
            forall|j: int| 0 <= j < k ==> match_good(#[trigger] ms[j]),
            obs@.len() == k,
            forall|j: int| 0 <= j < k ==> obs@[j] == obs_of(#[trigger] ms[j]),
        decreases s.len() - i,
    {
        match try_match_at(&chars, i) {
            Some(p) => {
                let ghost m = try_match(s, i as int).unwrap();
                proof {
                    assert(matches_from(s, i as int) == seq![m] + matches_from(s, p.end as int));
                    assert(ms[k] == m);
                }
                let pr = parse_price(&chars, p.p0, p.p1);
                if pr.is_none() {
                    let raw = String::from_str(page.substring_char(p.p0, p.p1));
                    proof {
                        assert(raw@ == m.price);
                        assert(!match_good(ms[k]));
                    }
                    return Err(ExtractError::BadPrice { raw });
                }
                let dt = normalize_range(&chars, p.d0, p.d1);
                if dt.is_none() {
                    let raw = String::from_str(page.substring_char(p.d0, p.d1));
                    proof {
                        assert(raw@ == m.date);
                        assert(!match_good(ms[k]));
                    }
                    return Err(ExtractError::BadDate { raw });
                }
                obs.push(SteamMarketItemPrice { date: dt.unwrap(), price: pr.unwrap() });
                proof {
                    assert(ms.subrange(0, k + 1) =~= ms.subrange(0, k) + seq![m]);
                    assert(ms =~= ms.subrange(0, k + 1) + matches_from(s, p.end as int));
                    k = k + 1;
                }
                i = p.end;
            },
            None => {
                proof {
                    assert(matches_from(s, i as int) == matches_from(s, i + 1));
                }
                i = i + 1;
            },
        }
    }
    proof {
        assert(matches_from(s, i as int) =~= Seq::<SpecMatch>::empty());
        assert(ms =~= ms.subrange(0, k));
        assert(k == ms.len());
    }
    if obs.len() == 0 {
        return Err(ExtractError::EmptyHistory);
    }
    Ok(obs)
}

impl SteamMarketItemPrice {
    /// Build one observation from any value that normalizes to a timestamp.
    pub fn new<D: crate::datetime::ToUtcDateTime>(date: D, price: Price) -> (r: Result<
        Self,
        ExtractError,
    >)
        ensures
            match r {
                Ok(o) => date.utc_spec() == Some(o.date) && o.price == price,
                Err(e) => {
                    &&& date.utc_spec() is None
                    &&& e matches ExtractError::BadDate { raw } && raw@ == date.raw_spec()
                },
            },
    {
        match date.to_utc_datetime() {
            Ok(d) => Ok(SteamMarketItemPrice { date: d, price }),
            Err(e) => Err(e),
        }
    }
}

} // verus!
