//! Exact decimal prices.
//!
//! A listing page serializes each price as a string of digits with at most
//! one dot. The library keeps the parsed value exact as an integer mantissa
//! together with the number of fractional digits: the price denotes
//! `mantissa / 10^scale`.

use vstd::prelude::*;
use crate::text::{all_digits, digits_val, is_digit_char, lemma_run_end_shift, run_end};

verus! {

/// An exact decimal price: the value `mantissa / 10^scale`.
#[derive(Clone, Copy, Debug, PartialEq, Eq, Structural)]
pub struct Price {
    pub mantissa: u64,
    pub scale: usize,
}

/// What parsing a price token yields: digits with at most one dot, at least
/// one digit in all, whose digit string (dot removed) fits in a `u64`.
/// `None` on any other shape, including a value that does not fit.
pub open spec fn price_spec(t: Seq<char>) -> Option<Price> {
    let k = run_end(t, 0, |c: char| is_digit_char(c));
    if k == t.len() {
        if t.len() >= 1 && digits_val(t) <= u64::MAX {
            Some(Price { mantissa: digits_val(t) as u64, scale: 0 })
        } else {
            None
        }
    } else if t[k] == '.' && run_end(t, k + 1, |c: char| is_digit_char(c)) == t.len()
        && t.len() >= 2 {
        let digits = t.subrange(0, k) + t.subrange(k + 1, t.len() as int);
        if digits_val(digits) <= u64::MAX {
            Some(Price { mantissa: digits_val(digits) as u64, scale: (t.len() - k - 1) as usize })
        } else {
            None
        }
    } else {
        None
    }
}

/// Parse the price token `chars[lo..hi]` as an exact decimal.
pub fn parse_price(chars: &Vec<char>, lo: usize, hi: usize) -> (r: Option<Price>)
    requires
        lo <= hi <= chars@.len(),
    ensures
        r == price_spec(chars@.subrange(lo as int, hi as int)),
{
    let ghost t = chars@.subrange(lo as int, hi as int);
    let ghost dpred = |c: char| is_digit_char(c);
    let k = crate::text::digit_run_end(chars, lo, hi);
    proof {
        crate::text::lemma_run_end(t, 0, dpred);
        assert(forall|j: int| lo <= j < hi ==> t[j - lo] == #[trigger] chars@[j]);
    }
    if k == hi {
        if lo == hi {
            return None;
        }
        match crate::text::parse_digits(chars, lo, hi) {
            Some(v) => Some(Price { mantissa: v, scale: 0 }),
            None => None,
        }
    } else {
        if chars[k] != '.' {
            return None;
        }
        let k2 = crate::text::digit_run_end(chars, k + 1, hi);
        proof {
            crate::text::lemma_run_end(t, k + 1 - lo, dpred);
            lemma_run_end_shift(t, k + 1 - lo, t.len() as int, dpred);
            assert(t.subrange(k + 1 - lo, t.len() as int)
                =~= chars@.subrange(k + 1 as int, hi as int));
            assert(run_end(t, k + 1 - lo, dpred) == k2 - lo);
        }
        if k2 != hi {
            return None;
        }
        if hi - lo < 2 {
            return None;
        }
        let ghost digits = t.subrange(0, k - lo) + t.subrange(k + 1 - lo, t.len() as int);
        let mut dv: Vec<char> = Vec::new();
        let mut i: usize = lo;
        while i < k
            invariant
                lo <= i <= k <= hi <= chars@.len(),
                t == chars@.subrange(lo as int, hi as int),
                dv@ =~= t.subrange(0, i - lo),
            decreases k - i,
        {
            dv.push(chars[i]);
            i = i + 1;
        }
        let mut j: usize = k + 1;
        while j < hi
            invariant
                lo <= k < k + 1 <= j <= hi <= chars@.len(),
                t == chars@.subrange(lo as int, hi as int),
                dv@ =~= t.subrange(0, k - lo) + t.subrange(k + 1 - lo, j - lo),
            decreases hi - j,
        {
            dv.push(chars[j]);
            j = j + 1;
        }
        proof {
            assert(dv@ =~= digits);
            assert(all_digits(digits));
        }
        match crate::text::parse_digits(&dv, 0, dv.len()) {
            Some(v) => {
                proof {
                    assert(dv@.subrange(0, dv@.len() as int) =~= digits);
                }
                Some(Price { mantissa: v, scale: hi - k - 1 })
            },
            None => {
                proof {
                    assert(dv@.subrange(0, dv@.len() as int) =~= digits);
                }
                None
            },
        }
    }
}

} // verus!
