//! Character classes, digit-run arithmetic and other text groundwork shared
//! by the pattern scanner, the price parser and the timestamp normalizer.

use vstd::prelude::*;
use vstd::string::StrSliceExecFns;

verus! {

/// An ASCII decimal digit `0`..=`9`.
pub open spec fn is_digit_char(c: char) -> bool {
    48 <= c as u32 && c as u32 <= 57
}

/// ASCII whitespace: space, tab, line feed, vertical tab, form feed,
/// carriage return.
pub open spec fn is_space_char(c: char) -> bool {
    c as u32 == 32 || (9 <= c as u32 && c as u32 <= 13)
}

/// A character the date capture group admits: ASCII letters, digits,
/// whitespace, `:` and `+`.
pub open spec fn is_date_char(c: char) -> bool {
    ||| (65 <= c as u32 && c as u32 <= 90)
    ||| (97 <= c as u32 && c as u32 <= 122)
    ||| is_digit_char(c)
    ||| is_space_char(c)
    ||| c == ':'
    ||| c == '+'
}

/// A character the price capture group admits: a digit or a dot.
pub open spec fn is_price_char(c: char) -> bool {
    is_digit_char(c) || c == '.'
}

/// The numeric value of a digit character.
pub open spec fn digit_val(c: char) -> nat {
    (c as u32 - 48) as nat
}

/// Every character of `t` is an ASCII decimal digit.
pub open spec fn all_digits(t: Seq<char>) -> bool {
    forall|k: int| 0 <= k < t.len() ==> is_digit_char(#[trigger] t[k])
}

/// The value of a digit string read in base 10 (most significant first).
pub open spec fn digits_val(t: Seq<char>) -> nat
    decreases t.len(),
{
    if t.len() == 0 {
        0
    } else {
        digits_val(t.drop_last()) * 10 + digit_val(t.last())
    }
}

/// The end of the run of characters satisfying `pred` that starts at `j`:
/// the first index at or after `j` whose character fails `pred`, or the
/// length of `s` if the run reaches the end.
pub open spec fn run_end(s: Seq<char>, j: int, pred: spec_fn(char) -> bool) -> int
    decreases s.len() - j when 0 <= j <= s.len()
{
    if j < 0 || j >= s.len() {
        j
    } else if pred(s[j]) {
        run_end(s, j + 1, pred)
    } else {
        j
    }
}

pub proof fn lemma_run_end(s: Seq<char>, j: int, pred: spec_fn(char) -> bool)
    requires
        0 <= j <= s.len(),
    ensures
        j <= run_end(s, j, pred) <= s.len(),
        forall|k: int| j <= k < run_end(s, j, pred) ==> pred(#[trigger] s[k]),
        run_end(s, j, pred) < s.len() ==> !pred(s[run_end(s, j, pred)]),
    decreases s.len() - j,
{
    if j < s.len() && pred(s[j]) {
        lemma_run_end(s, j + 1, pred);
    }
}

/// The base-10 value of a digit string never shrinks as the string grows to
/// the right.
pub proof fn lemma_digits_val_prefix_le(t: Seq<char>, i: int, j: int)
    requires
        0 <= i <= j <= t.len(),
    ensures
        digits_val(t.subrange(0, i)) <= digits_val(t.subrange(0, j)),
    decreases j - i,
{
    if i < j {
        lemma_digits_val_prefix_le(t, i, j - 1);
        assert(t.subrange(0, j).drop_last() =~= t.subrange(0, j - 1));
        assert(digits_val(t.subrange(0, j))
            == digits_val(t.subrange(0, j - 1)) * 10 + digit_val(t.subrange(0, j).last()));
    }
}

/// A run computed over a suffix-restricted view agrees with the run over the
/// full token: scanning from `j` never looks left of `j`.
pub proof fn lemma_run_end_shift(t: Seq<char>, j: int, hi: int, pred: spec_fn(char) -> bool)
    requires
        0 <= j <= hi == t.len(),
    ensures
        run_end(t, j, pred) == j + run_end(t.subrange(j, hi), 0, pred),
    decreases t.len() - j,
{
    let u = t.subrange(j, hi);
    if j < t.len() {
        assert(u[0] == t[j]);
        if pred(t[j]) {
            lemma_run_end_shift(t, j + 1, hi, pred);
            lemma_run_end_shift(u, 1, u.len() as int, pred);
            assert(t.subrange(j + 1, hi) =~= u.subrange(1, u.len() as int));
        }
    }
}

/// Find the end of the run of non-space characters starting at `lo` (bounded
/// by `hi`): where the token that starts at `lo` ends.
pub fn nonspace_run_end(chars: &Vec<char>, lo: usize, hi: usize) -> (r: usize)
    requires
        lo <= hi <= chars@.len(),
    ensures
        lo <= r <= hi,
        r == lo + run_end(chars@.subrange(lo as int, hi as int), 0, |c: char| c != ' '),
{
    let ghost t = chars@.subrange(lo as int, hi as int);
    let ghost pred = |c: char| c != ' ';
    let mut i: usize = lo;
    while i < hi && chars[i] != ' '
        invariant
            lo <= i <= hi <= chars@.len(),
            t == chars@.subrange(lo as int, hi as int),
            pred == (|c: char| c != ' '),
            run_end(t, 0, pred) == run_end(t, i - lo, pred),
        decreases hi - i,
    {
        proof {
            assert(t[i - lo] == chars@[i as int]);
            assert(pred(t[i - lo]));
            assert(run_end(t, i - lo, pred) == run_end(t, i + 1 - lo, pred));
        }
        i = i + 1;
    }
    proof {
        if i < hi {
            assert(t[i - lo] == chars@[i as int]);
        }
        assert(run_end(t, i - lo, pred) == i - lo);
    }
    i
}

/// Find the end of the run of digit characters starting at `lo` (bounded by
/// `hi`), mirroring `run_end` over the digit class restricted to the slice.
pub fn digit_run_end(chars: &Vec<char>, lo: usize, hi: usize) -> (r: usize)
    requires
        lo <= hi <= chars@.len(),
    ensures
        lo <= r <= hi,
        r == lo + run_end(chars@.subrange(lo as int, hi as int), 0, |c: char| is_digit_char(c)),
{
    let ghost t = chars@.subrange(lo as int, hi as int);
    let ghost pred = |c: char| is_digit_char(c);
    let mut i: usize = lo;
    while i < hi && 48 <= chars[i] as u32 && chars[i] as u32 <= 57
        invariant
            lo <= i <= hi <= chars@.len(),
            t == chars@.subrange(lo as int, hi as int),
            pred == (|c: char| is_digit_char(c)),
            run_end(t, 0, pred) == run_end(t, i - lo, pred),
            forall|k: int| lo <= k < i ==> is_digit_char(#[trigger] chars@[k]),
        decreases hi - i,
    {
        proof {
            assert(t[i - lo] == chars@[i as int]);
            assert(is_digit_char(t[i - lo]));
            assert(pred(t[i - lo]));
            assert(run_end(t, i - lo, pred) == run_end(t, i + 1 - lo, pred));
        }
        i = i + 1;
    }
    proof {
        if i < hi {
            assert(t[i - lo] == chars@[i as int]);
        }
        assert(run_end(t, i - lo, pred) == i - lo);
    }
    i
}

/// Decide `is_date_char` executably.
pub fn date_char(c: char) -> (b: bool)
    ensures
        b == is_date_char(c),
{
    let u = c as u32;
    (65 <= u && u <= 90) || (97 <= u && u <= 122) || (48 <= u && u <= 57) || u == 32 || (9 <= u
        && u <= 13) || c == ':' || c == '+'
}

/// Decide `is_price_char` executably.
pub fn price_char(c: char) -> (b: bool)
    ensures
        b == is_price_char(c),
{
    let u = c as u32;
    (48 <= u && u <= 57) || c == '.'
}

/// Find the end of the run of date-class characters starting at `lo`
/// (bounded by `hi`).
pub fn date_run_end(chars: &Vec<char>, lo: usize, hi: usize) -> (r: usize)
    requires
        lo <= hi <= chars@.len(),
    ensures
        lo <= r <= hi,
        r == lo + run_end(chars@.subrange(lo as int, hi as int), 0, |c: char| is_date_char(c)),
{
    let ghost t = chars@.subrange(lo as int, hi as int);
    let ghost pred = |c: char| is_date_char(c);
    let mut i: usize = lo;
    while i < hi && date_char(chars[i])
        invariant
            lo <= i <= hi <= chars@.len(),
            t == chars@.subrange(lo as int, hi as int),
            pred == (|c: char| is_date_char(c)),
            run_end(t, 0, pred) == run_end(t, i - lo, pred),
        decreases hi - i,
    {
        proof {
            assert(t[i - lo] == chars@[i as int]);
            assert(pred(t[i - lo]));
            assert(run_end(t, i - lo, pred) == run_end(t, i + 1 - lo, pred));
        }
        i = i + 1;
    }
    proof {
        if i < hi {
            assert(t[i - lo] == chars@[i as int]);
        }
        assert(run_end(t, i - lo, pred) == i - lo);
    }
    i
}

/// Find the end of the run of price-class characters starting at `lo`
/// (bounded by `hi`).
pub fn price_run_end(chars: &Vec<char>, lo: usize, hi: usize) -> (r: usize)
    requires
        lo <= hi <= chars@.len(),
    ensures
        lo <= r <= hi,
        r == lo + run_end(chars@.subrange(lo as int, hi as int), 0, |c: char| is_price_char(c)),
{
    let ghost t = chars@.subrange(lo as int, hi as int);
    let ghost pred = |c: char| is_price_char(c);
    let mut i: usize = lo;
    while i < hi && price_char(chars[i])
        invariant
            lo <= i <= hi <= chars@.len(),
            t == chars@.subrange(lo as int, hi as int),
            pred == (|c: char| is_price_char(c)),
            run_end(t, 0, pred) == run_end(t, i - lo, pred),
        decreases hi - i,
    {
        proof {
            assert(t[i - lo] == chars@[i as int]);
            assert(pred(t[i - lo]));
            assert(run_end(t, i - lo, pred) == run_end(t, i + 1 - lo, pred));
        }
        i = i + 1;
    }
    proof {
        if i < hi {
            assert(t[i - lo] == chars@[i as int]);
        }
        assert(run_end(t, i - lo, pred) == i - lo);
    }
    i
}

/// Parse the digit string `chars[lo..hi]` as a base-10 `u64`.
/// Returns `None` exactly when the value does not fit.
pub fn parse_digits(chars: &Vec<char>, lo: usize, hi: usize) -> (r: Option<u64>)
    requires
        lo <= hi <= chars@.len(),
        all_digits(chars@.subrange(lo as int, hi as int)),
    ensures
        ({
            let t = chars@.subrange(lo as int, hi as int);
            match r {
                Some(v) => digits_val(t) <= u64::MAX && v == digits_val(t),
                None => digits_val(t) > u64::MAX,
            }
        }),
{
    let ghost t = chars@.subrange(lo as int, hi as int);
    let mut acc: u64 = 0;
    let mut i: usize = lo;
    while i < hi
        invariant
            lo <= i <= hi <= chars@.len(),
            t == chars@.subrange(lo as int, hi as int),
            all_digits(t),
            acc == digits_val(t.subrange(0, i - lo)),
        decreases hi - i,
    {
        let c = chars[i];
        proof {
            assert(t[i - lo] == chars@[i as int]);
            assert(is_digit_char(c));
        }
        let d: u64 = ((c as u32) - 48) as u64;
        let shifted = match acc.checked_mul(10) {
            Some(x) => x,
            None => {
                proof {
                    overflow_tail(t, i - lo + 1, (acc * 10 + d) as nat);
                }
                return None;
            },
        };
        let next = match shifted.checked_add(d) {
            Some(x) => x,
            None => {
                proof {
                    overflow_tail(t, i - lo + 1, (acc * 10 + d) as nat);
                }
                return None;
            },
        };
        proof {
            assert(t.subrange(0, i - lo + 1).drop_last() =~= t.subrange(0, i - lo));
            assert(t.subrange(0, i - lo + 1).last() == t[i - lo]);
            assert(digits_val(t.subrange(0, i - lo + 1)) == acc * 10 + d);
        }
        acc = next;
        i = i + 1;
    }
    proof {
        assert(t.subrange(0, i - lo) =~= t);
    }
    Some(acc)
}

/// If a proper prefix of `t` already exceeds `u64::MAX`, so does all of `t`.
proof fn overflow_tail(t: Seq<char>, k: int, v: nat)
    requires
        0 < k <= t.len(),
        digits_val(t.subrange(0, k - 1)) * 10 + digit_val(t[k - 1]) == v,
        v > u64::MAX,
    ensures
        digits_val(t) > u64::MAX,
{
    assert(t.subrange(0, k).drop_last() =~= t.subrange(0, k - 1));
    assert(t.subrange(0, k).last() == t[k - 1]);
    assert(digits_val(t.subrange(0, k)) == v);
    lemma_digits_val_prefix_le(t, k, t.len() as int);
    assert(t.subrange(0, t.len() as int) =~= t);
}

/// Collect the characters of `s` into a vector, preserving the view.
pub fn to_char_vec(s: &str) -> (r: Vec<char>)
    ensures
        r@ == s@,
{
    let n = s.unicode_len();
    let mut v: Vec<char> = Vec::new();
    let mut i: usize = 0;
    while i < n
        invariant
            i <= n,
            n == s@.len(),
            v@ =~= s@.subrange(0, i as int),
        decreases n - i,
    {
        let c = s.get_char(i);
        v.push(c);
        i = i + 1;
    }
    proof {
        assert(v@ =~= s@);
    }
    v
}

} // verus!
