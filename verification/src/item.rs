//! A marketplace item: its identity, the listings-page URL it is fetched
//! from, the extracted price history, and the derived queries.

use vstd::prelude::*;
use vstd::string::StringExecFns;
use crate::datetime::{lemma_normalize_wf, render_timestamp, utc_display_of};
use crate::error::ExtractError;
use crate::extract::{all_good, error_for, extract, match_good, matches_from, obs_of, SteamMarketItemPrice};
use crate::price::Price;

verus! {

/// The decimal digit character for a value `0..=9`.
pub open spec fn digit_char(d: int) -> char {
    if d == 0 {
        '0'
    } else if d == 1 {
        '1'
    } else if d == 2 {
        '2'
    } else if d == 3 {
        '3'
    } else if d == 4 {
        '4'
    } else if d == 5 {
        '5'
    } else if d == 6 {
        '6'
    } else if d == 7 {
        '7'
    } else if d == 8 {
        '8'
    } else {
        '9'
    }
}

/// The base-10 rendering of a non-negative integer, most significant digit
/// first, with no leading zeros.
pub open spec fn dec_str(n: int) -> Seq<char>
    decreases n,
{
    if n < 10 {
        seq![digit_char(n)]
    } else {
        dec_str(n / 10) + seq![digit_char(n % 10)]
    }
}

/// The listings-page URL for an item: the fixed template with the
/// application id and the item name interpolated. The name is used verbatim,
/// not percent-encoded.
pub open spec fn market_url_spec(game_id: int, name: Seq<char>) -> Seq<char> {
    "https://steamcommunity.com/market/listings/"@ + dec_str(game_id) + "/"@ + name
}

/// Append the single digit `d` to `buf`.
fn push_digit(buf: &mut String, d: u16)
    requires
        d < 10,
    ensures
        final(buf)@ == old(buf)@ + seq![digit_char(d as int)],
{
    if d == 0 {
        proof {
            reveal_strlit("0");
            assert("0"@ =~= seq![digit_char(0)]);
        }
        buf.append("0");
    } else if d == 1 {
        proof {
            reveal_strlit("1");
            assert("1"@ =~= seq![digit_char(1)]);
        }
        buf.append("1");
    } else if d == 2 {
        proof {
            reveal_strlit("2");
            assert("2"@ =~= seq![digit_char(2)]);
        }
        buf.append("2");
    } else if d == 3 {
        proof {
            reveal_strlit("3");
            assert("3"@ =~= seq![digit_char(3)]);
        }
        buf.append("3");
    } else if d == 4 {
        proof {
            reveal_strlit("4");
            assert("4"@ =~= seq![digit_char(4)]);
        }
        buf.append("4");
    } else if d == 5 {
        proof {
            reveal_strlit("5");
            assert("5"@ =~= seq![digit_char(5)]);
        }
        buf.append("5");
    } else if d == 6 {
        proof {
            reveal_strlit("6");
            assert("6"@ =~= seq![digit_char(6)]);
        }
        buf.append("6");
    } else if d == 7 {
        proof {
            reveal_strlit("7");
            assert("7"@ =~= seq![digit_char(7)]);
        }
        buf.append("7");
    } else if d == 8 {
        proof {
            reveal_strlit("8");
            assert("8"@ =~= seq![digit_char(8)]);
        }
        buf.append("8");
    } else {
        proof {
            reveal_strlit("9");
            assert("9"@ =~= seq![digit_char(9)]);
        }
        buf.append("9");
    }
}

/// Append the base-10 rendering of `n` to `buf`.
fn push_dec(buf: &mut String, n: u16)
    ensures
        final(buf)@ == old(buf)@ + dec_str(n as int),
    decreases n,
{
    if n >= 10 {
        push_dec(buf, n / 10);
        push_digit(buf, n % 10);
        proof {
            assert(buf@ =~= old(buf)@ + dec_str(n as int));
        }
    } else {
        push_digit(buf, n);
    }
}

/// Build the listings-page URL for an item.
pub fn market_url(game_id: u16, name: &str) -> (r: String)
    ensures
        r@ == market_url_spec(game_id as int, name@),
{
    let mut url = String::from_str("https://steamcommunity.com/market/listings/");
    push_dec(&mut url, game_id);
    url.append("/");
    url.append(name);
    proof {
        assert(url@ =~= market_url_spec(game_id as int, name@));
    }
    url
}

/// A marketplace item together with the price history extracted from its
/// listings page, ordered as the page orders it (oldest first).
#[derive(Debug)]
pub struct SteamMarketItem {
    pub game_id: u16,
    pub name: String,
    pub market_prices: Vec<SteamMarketItemPrice>,
}

impl SteamMarketItem {
    /// Every observation's timestamp has valid calendar fields, as
    /// extraction guarantees.
    pub open spec fn wf(self) -> bool {
        forall|j: int|
            0 <= j < self.market_prices@.len() ==> (#[trigger] self.market_prices@[j]).date.wf()
    }

    /// Build the item from its identity and the raw text of its listings
    /// page. Succeeds if and only if extraction does: the page holds at
    /// least one tuple and every tuple converts. A page with zero tuples is
    /// the empty-history error, never a valid empty item.
    pub fn new(game_id: u16, name: &str, page_source: &str) -> (r: Result<Self, ExtractError>)
        ensures
            ({
                let ms = matches_from(page_source@, 0);
                &&& (r is Ok <==> ms.len() > 0 && all_good(ms))
                &&& (r is Ok ==> {
                    let it = r.unwrap();
                    &&& it.game_id == game_id
                    &&& it.name@ == name@
                    &&& it.wf()
                    &&& it.market_prices@.len() == ms.len()
                    &&& (forall|j: int|
                        0 <= j < ms.len() ==> it.market_prices@[j] == obs_of(#[trigger] ms[j]))
                })
                &&& (ms.len() == 0 <==> r matches Err(ExtractError::EmptyHistory))
                &&& (ms.len() > 0 && !all_good(ms) ==> exists|k: int|
                    {
                        &&& 0 <= k < ms.len()
                        &&& !match_good(#[trigger] ms[k])
                        &&& (forall|j: int| 0 <= j < k ==> match_good(#[trigger] ms[j]))
                        &&& r is Err && error_for(r.unwrap_err(), ms[k])
                    })
            }),
    {
        match extract(page_source) {
            Ok(prices) => {
                proof {
                    let ms = matches_from(page_source@, 0);
                    assert forall|j: int|
                        0 <= j < prices@.len() implies (#[trigger] prices@[j]).date.wf() by {
                        lemma_normalize_wf(ms[j].date);
                    }
                }
                Ok(SteamMarketItem { game_id, name: String::from_str(name), market_prices: prices })
            },
            Err(e) => Err(e),
        }
    }

    /// The current price: the price of the last observation. The
    /// empty-history error on an item with no observations.
    pub fn get_current_price(&self) -> (r: Result<Price, ExtractError>)
        ensures
            self.market_prices@.len() > 0 ==> r == Ok::<Price, ExtractError>(
                self.market_prices@.last().price,
            ),
            self.market_prices@.len() == 0 ==> r matches Err(ExtractError::EmptyHistory),
    {
        if self.market_prices.len() == 0 {
            Err(ExtractError::EmptyHistory)
        } else {
            let o = self.market_prices[self.market_prices.len() - 1];
            Ok(o.price)
        }
    }

    /// The full ordered history, timestamps rendered as text for the
    /// caller's report.
    pub fn get_all_prices(&self) -> (r: Result<Vec<(String, Price)>, ExtractError>)
        requires
            self.wf(),
        ensures
            r is Ok,
            r.unwrap()@.len() == self.market_prices@.len(),
            forall|j: int|
                0 <= j < self.market_prices@.len() ==> {
                    let o = (#[trigger] self.market_prices@[j]);
                    &&& r.unwrap()@[j].1 == o.price
                    &&& r.unwrap()@[j].0@ == utc_display_of(
                        o.date.year as int,
                        o.date.month as int,
                        o.date.day as int,
                        o.date.hour as int,
                    )
                },
    {
        let mut out: Vec<(String, Price)> = Vec::new();
        let mut i: usize = 0;
        while i < self.market_prices.len()
            invariant
                self.wf(),
                i <= self.market_prices@.len(),
                out@.len() == i,
                forall|j: int|
                    0 <= j < i ==> {
                        let o = (#[trigger] self.market_prices@[j]);
                        &&& out@[j].1 == o.price
                        &&& out@[j].0@ == utc_display_of(
                            o.date.year as int,
                            o.date.month as int,
                            o.date.day as int,
                            o.date.hour as int,
                        )
                    },
            decreases self.market_prices@.len() - i,
        {
            let o = self.market_prices[i];
            let tstr = render_timestamp(o.date.year, o.date.month, o.date.day, o.date.hour);
            out.push((tstr, o.price));
            i = i + 1;
        }
        Ok(out)
    }
}

} // verus!
