//! Building a strike table: the prices worth looking at, the pairing of calls
//! with puts, and the interval weights.

use crate::contract::{Cents, OptionContract, OptionKind};
use crate::runs::is_strictly_ascending;
use crate::strike::{
    first_quote, has_ascending_prices, has_first_legs, has_quote, interval_weight, is_first_quote,
    is_paired, is_quote_for, lemma_first_quote_at, lists_price, OptionStrike,
};
use vstd::prelude::*;

verus! {

/// Some liquid quote, of either kind, is struck at this price.
pub open spec fn has_liquid_quote(quotes: Seq<OptionContract>, price: Cents) -> bool {
    exists|i: int|
        0 <= i < quotes.len() && (#[trigger] quotes[i]).is_liquid() && quotes[i].strike == price
}

/// The strike prices of the liquid quotes among calls and puts, one entry for
/// each such quote.
pub(crate) fn liquid_strikes(calls: &Vec<OptionContract>, puts: &Vec<OptionContract>) -> (keys:
    Vec<Cents>)
    ensures
        forall|k: int| 0 <= k < keys@.len() ==> has_liquid_quote(calls@ + puts@, #[trigger] keys@[k]),
        forall|i: int|
            0 <= i < (calls@ + puts@).len() && (#[trigger] (calls@ + puts@)[i]).is_liquid()
                ==> keys@.contains((calls@ + puts@)[i].strike),
{
    let ghost quotes = calls@ + puts@;
    let mut keys: Vec<Cents> = Vec::new();
    let mut i: usize = 0;
    while i < calls.len()
        invariant
            i <= calls.len(),
            quotes == calls@ + puts@,
            forall|k: int| 0 <= k < keys@.len() ==> has_liquid_quote(quotes, #[trigger] keys@[k]),
            forall|j: int|
                0 <= j < i && (#[trigger] quotes[j]).is_liquid() ==> keys@.contains(
                    quotes[j].strike,
                ),
        decreases calls.len() - i,
    {
        let o = calls[i];
        let ghost before = keys@;
        if o.bid != 0 {
            keys.push(o.strike);
        }
        proof {
            assert(quotes[i as int] == o);
            assert forall|j: int| 0 <= j < i + 1 && (#[trigger] quotes[j]).is_liquid() implies keys@.contains(
                quotes[j].strike,
            ) by {
                if j < i {
                    let w = choose|w: int| 0 <= w < before.len() && before[w] == quotes[j].strike;
                    assert(keys@[w] == quotes[j].strike);
                } else {
                    assert(keys@[keys@.len() - 1] == quotes[j].strike);
                }
            }
        }
        i += 1;
    }
    let mut j: usize = 0;
    while j < puts.len()
        invariant
            j <= puts.len(),
            quotes == calls@ + puts@,
            forall|k: int| 0 <= k < keys@.len() ==> has_liquid_quote(quotes, #[trigger] keys@[k]),
            forall|n: int|
                0 <= n < calls.len() + j && (#[trigger] quotes[n]).is_liquid() ==> keys@.contains(
                    quotes[n].strike,
                ),
        decreases puts.len() - j,
    {
        let o = puts[j];
        let ghost before = keys@;
        if o.bid != 0 {
            keys.push(o.strike);
        }
        proof {
            assert(quotes[calls.len() + j] == o);
            assert forall|n: int|
                0 <= n < calls.len() + j + 1 && (#[trigger] quotes[n]).is_liquid() implies keys@.contains(
                quotes[n].strike,
            ) by {
                if n < calls.len() + j {
                    let w = choose|w: int| 0 <= w < before.len() && before[w] == quotes[n].strike;
                    assert(keys@[w] == quotes[n].strike);
                } else {
                    assert(keys@[keys@.len() - 1] == quotes[n].strike);
                }
            }
        }
        j += 1;
    }
    keys
}

/// Position of the earliest liquid quote of this kind at this price.
fn find_first(quotes: &Vec<OptionContract>, price: Cents, kind: OptionKind) -> (found: Option<
    usize,
>)
    ensures
        match found {
            Some(i) => is_first_quote(quotes@, i as int, price, kind),
            None => !has_quote(quotes@, price, kind),
        },
{
    let mut i: usize = 0;
    while i < quotes.len()
        invariant
            i <= quotes.len(),
            forall|j: int| 0 <= j < i ==> !is_quote_for(#[trigger] quotes@[j], price, kind),
        decreases quotes.len() - i,
    {
        let o = quotes[i];
        if o.bid != 0 && o.strike == price && o.kind == kind {
            return Some(i);
        }
        i += 1;
    }
    None
}

/// The earliest liquid quote of this kind at this price, looking through the
/// calls first and the puts after them.
pub(crate) fn find_quote(
    calls: &Vec<OptionContract>,
    puts: &Vec<OptionContract>,
    price: Cents,
    kind: OptionKind,
) -> (found: Option<OptionContract>)
    ensures
        found == first_quote(calls@ + puts@, price, kind),
{
    let ghost quotes = calls@ + puts@;
    match find_first(calls, price, kind) {
        Some(i) => {
            proof {
                assert(quotes[i as int] == calls@[i as int]);
                assert forall|j: int| 0 <= j < i implies !is_quote_for(
                    #[trigger] quotes[j],
                    price,
                    kind,
                ) by {
                    assert(quotes[j] == calls@[j]);
                }
                lemma_first_quote_at(quotes, i as int, price, kind);
            }
            Some(calls[i])
        },
        None => match find_first(puts, price, kind) {
            Some(j) => {
                proof {
                    let at = calls@.len() + j;
                    assert(quotes[at] == puts@[j as int]);
                    assert forall|n: int| 0 <= n < at implies !is_quote_for(
                        #[trigger] quotes[n],
                        price,
                        kind,
                    ) by {
                        if n < calls@.len() {
                            assert(quotes[n] == calls@[n]);
                        } else {
                            assert(quotes[n] == puts@[n - calls@.len()]);
                        }
                    }
                    lemma_first_quote_at(quotes, at, price, kind);
                }
                Some(puts[j])
            },
            None => {
                proof {
                    if has_quote(quotes, price, kind) {
                        let w = choose|w: int|
                            0 <= w < quotes.len() && is_quote_for(#[trigger] quotes[w], price, kind);
                        if w < calls@.len() {
                            assert(is_quote_for(calls@[w], price, kind));
                        } else {
                            assert(is_quote_for(puts@[w - calls@.len()], price, kind));
                        }
                    }
                }
                None
            },
        },
    }
}

/// One strike, with no weight yet, for each of the given prices at which both
/// a liquid call and a liquid put are quoted.
pub(crate) fn pair_strikes(
    calls: &Vec<OptionContract>,
    puts: &Vec<OptionContract>,
    prices: &Vec<Cents>,
) -> (paired: Vec<OptionStrike>)
    requires
        is_strictly_ascending(prices@),
    ensures
        has_ascending_prices(paired@),
        forall|i: int|
            0 <= i < paired@.len() ==> has_first_legs(calls@ + puts@, #[trigger] paired@[i])
                && paired@[i].delta_k == 0,
        forall|k: int|
            0 <= k < prices@.len() && is_paired(calls@ + puts@, #[trigger] prices@[k])
                ==> lists_price(paired@, prices@[k]),
{
    let ghost quotes = calls@ + puts@;
    let mut paired: Vec<OptionStrike> = Vec::new();
    let mut k: usize = 0;
    while k < prices.len()
        invariant
            k <= prices.len(),
            quotes == calls@ + puts@,
            is_strictly_ascending(prices@),
            has_ascending_prices(paired@),
            forall|i: int|
                0 <= i < paired@.len() ==> has_first_legs(quotes, #[trigger] paired@[i])
                    && paired@[i].delta_k == 0,
            forall|i: int, n: int|
                0 <= i < paired@.len() && k <= n < prices@.len() ==> (#[trigger] paired@[i]).price
                    < #[trigger] prices@[n],
            forall|n: int|
                0 <= n < k && is_paired(quotes, #[trigger] prices@[n]) ==> lists_price(
                    paired@,
                    prices@[n],
                ),
        decreases prices.len() - k,
    {
        let price = prices[k];
        let ghost before = paired@;
        let call = find_quote(calls, puts, price, OptionKind::Call);
        let put = find_quote(calls, puts, price, OptionKind::Put);
        if let Some(c) = call {
            if let Some(p) = put {
                paired.push(OptionStrike { price, put: p, call: c, delta_k: 0 });
            }
        }
        proof {
            assert forall|n: int|
                0 <= n < k + 1 && is_paired(quotes, #[trigger] prices@[n]) implies lists_price(
                paired@,
                prices@[n],
            ) by {
                if n < k {
                    let w = choose|w: int|
                        0 <= w < before.len() && (#[trigger] before[w]).price == prices@[n];
                    assert(paired@[w].price == prices@[n]);
                } else {
                    assert(paired@[paired@.len() - 1].price == price);
                }
            }
            assert forall|i: int, n: int|
                0 <= i < paired@.len() && k + 1 <= n < prices@.len() implies (
            #[trigger] paired@[i]).price < #[trigger] prices@[n] by {
                if i < before.len() {
                    assert(before[i].price < prices@[n]);
                } else {
                    assert(prices@[k as int] < prices@[n]);
                }
            }
            assert forall|i: int, j: int| 0 <= i < j < paired@.len() implies (
            #[trigger] paired@[i]).price < (#[trigger] paired@[j]).price by {
                if j < before.len() {
                    assert(before[i].price < before[j].price);
                } else {
                    assert(before[i].price < prices@[k as int]);
                }
            }
        }
        k += 1;
    }
    paired
}

/// The same strikes, each with its interval weight filled in.
pub(crate) fn with_interval_weights(paired: &Vec<OptionStrike>) -> (table: Vec<OptionStrike>)
    requires
        has_ascending_prices(paired@),
    ensures
        table@.len() == paired@.len(),
        forall|i: int|
            0 <= i < table@.len() ==> {
                &&& (#[trigger] table@[i]).price == paired@[i].price
                &&& table@[i].put == paired@[i].put
                &&& table@[i].call == paired@[i].call
                &&& table@[i].delta_k == interval_weight(paired@, i)
            },
{
    let n = paired.len();
    let mut table: Vec<OptionStrike> = Vec::new();
    let mut i: usize = 0;
    while i < n
        invariant
            i <= n,
            n == paired@.len(),
            has_ascending_prices(paired@),
            table@.len() == i,
            forall|j: int|
                0 <= j < i ==> {
                    &&& (#[trigger] table@[j]).price == paired@[j].price
                    &&& table@[j].put == paired@[j].put
                    &&& table@[j].call == paired@[j].call
                    &&& table@[j].delta_k == interval_weight(paired@, j)
                },
        decreases n - i,
    {
        let s = paired[i];
        let mut weight: Cents = 0;
        if 0 < i && i + 1 < n {
            let below = paired[i - 1].price;
            let above = paired[i + 1].price;
            assert(paired@[i - 1].price < paired@[i + 1].price);
            let span: i128 = above as i128 - below as i128;
            weight = (span / 2) as i64;
        }
        table.push(OptionStrike { price: s.price, put: s.put, call: s.call, delta_k: weight });
        i += 1;
    }
    table
}

} // verus!
