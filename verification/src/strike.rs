//! Strikes: a call and a put paired at one price, and the table of all the
//! strikes that a set of quotes supports.

use crate::contract::{div_toward_zero, Cents, OptionContract, OptionKind};
use crate::runs::is_strictly_ascending;
use vstd::prelude::*;

verus! {

/// A call and a put at the same strike price, with the strike's interval
/// weight: half the distance between the neighbouring strikes.
#[derive(PartialEq, Eq, Structural, Clone, Copy, Debug)]
pub struct OptionStrike {
    pub price: Cents,
    pub put: OptionContract,
    pub call: OptionContract,
    pub delta_k: Cents,
}

impl OptionStrike {
    /// Call mark less put mark.
    pub open spec fn spec_call_put_difference(self) -> int {
        self.call.spec_mark() - self.put.spec_mark()
    }

    /// The size of the call-put difference, by which strikes are ranked when
    /// the at-the-money strike is chosen.
    pub open spec fn parity_gap(self) -> int {
        if self.spec_call_put_difference() < 0 {
            -self.spec_call_put_difference()
        } else {
            self.spec_call_put_difference()
        }
    }

    /// The midpoint of the call mark and the put mark, rounded toward zero.
    pub open spec fn spec_mark(self) -> int {
        div_toward_zero(self.call.spec_mark() + self.put.spec_mark(), 2)
    }

    /// Difference between the price of the call and of the put.
    pub fn call_put_difference(self) -> (d: Cents)
        requires
            i64::MIN <= self.spec_call_put_difference() <= i64::MAX,
        ensures
            d == self.spec_call_put_difference(),
    {
        self.call.mark() - self.put.mark()
    }

    /// The midpoint of the call mark price and put mark price.
    pub fn mark(self) -> (m: Cents)
        ensures
            m == self.spec_mark(),
    {
        let sum: i128 = self.call.mark() as i128 + self.put.mark() as i128;
        (sum / 2) as i64
    }
}

/// `o` is a liquid quote of the given kind at the given strike price.
pub open spec fn is_quote_for(o: OptionContract, price: Cents, kind: OptionKind) -> bool {
    o.is_liquid() && o.strike == price && o.kind == kind
}

/// Some liquid quote of this kind is struck at this price.
pub open spec fn has_quote(quotes: Seq<OptionContract>, price: Cents, kind: OptionKind) -> bool {
    exists|i: int| 0 <= i < quotes.len() && is_quote_for(#[trigger] quotes[i], price, kind)
}

/// `quotes[i]` is the earliest liquid quote of this kind at this price.
pub open spec fn is_first_quote(
    quotes: Seq<OptionContract>,
    i: int,
    price: Cents,
    kind: OptionKind,
) -> bool {
    &&& 0 <= i < quotes.len()
    &&& is_quote_for(quotes[i], price, kind)
    &&& forall|j: int| 0 <= j < i ==> !is_quote_for(#[trigger] quotes[j], price, kind)
}

/// The earliest liquid quote of this kind at this price, if there is one.
pub open spec fn first_quote(quotes: Seq<OptionContract>, price: Cents, kind: OptionKind) -> Option<
    OptionContract,
> {
    if has_quote(quotes, price, kind) {
        Some(quotes[choose|i: int| is_first_quote(quotes, i, price, kind)])
    } else {
        None
    }
}

/// Both a liquid call and a liquid put are struck at this price.
pub open spec fn is_paired(quotes: Seq<OptionContract>, price: Cents) -> bool {
    has_quote(quotes, price, OptionKind::Call) && has_quote(quotes, price, OptionKind::Put)
}

/// Some strike of the table has this price.
pub open spec fn lists_price(table: Seq<OptionStrike>, price: Cents) -> bool {
    exists|i: int| 0 <= i < table.len() && (#[trigger] table[i]).price == price
}

/// Prices grow strictly along the table, so no price occurs twice.
pub open spec fn has_ascending_prices(table: Seq<OptionStrike>) -> bool {
    forall|i: int, j: int|
        0 <= i < j < table.len() ==> (#[trigger] table[i]).price < (#[trigger] table[j]).price
}

/// Half the distance between the neighbours of strike `i`; zero for the first
/// and the last strike, which lack a neighbour.
pub open spec fn interval_weight(table: Seq<OptionStrike>, i: int) -> int {
    if 0 < i < table.len() - 1 {
        (table[i + 1].price - table[i - 1].price) / 2
    } else {
        0
    }
}

/// The strike holds the earliest liquid call and the earliest liquid put at its
/// price.
pub open spec fn has_first_legs(quotes: Seq<OptionContract>, s: OptionStrike) -> bool {
    &&& first_quote(quotes, s.price, OptionKind::Call) == Some(s.call)
    &&& first_quote(quotes, s.price, OptionKind::Put) == Some(s.put)
}

/// `table` is the strike table of `quotes`: one strike for each price at which
/// both a liquid call and a liquid put are quoted, in ascending order of price,
/// each holding the earliest such call and put and its interval weight.
pub open spec fn is_strike_table(quotes: Seq<OptionContract>, table: Seq<OptionStrike>) -> bool {
    &&& has_ascending_prices(table)
    &&& forall|price: Cents|
        #![trigger is_paired(quotes, price)]
        #![trigger lists_price(table, price)]
        is_paired(quotes, price) <==> lists_price(table, price)
    &&& forall|i: int|
        0 <= i < table.len() ==> has_first_legs(quotes, #[trigger] table[i])
    &&& forall|i: int|
        0 <= i < table.len() ==> table[i].delta_k == #[trigger] interval_weight(table, i)
}

/// The strike table of `quotes`.  `lemma_strike_table_unique` shows that there
/// is only one, and `OptionsByExpiryDate::get_strikes` computes it.
pub open spec fn strike_table(quotes: Seq<OptionContract>) -> Seq<OptionStrike> {
    choose|table: Seq<OptionStrike>| is_strike_table(quotes, table)
}

/// The earliest quote, once found, is what `first_quote` names.
pub proof fn lemma_first_quote_at(
    quotes: Seq<OptionContract>,
    i: int,
    price: Cents,
    kind: OptionKind,
)
    requires
        is_first_quote(quotes, i, price, kind),
    ensures
        has_quote(quotes, price, kind),
        first_quote(quotes, price, kind) == Some(quotes[i]),
{
    let c = choose|c: int| is_first_quote(quotes, c, price, kind);
    assert(is_first_quote(quotes, c, price, kind));
    if c < i {
        assert(!is_quote_for(quotes[c], price, kind));
    } else if i < c {
        assert(!is_quote_for(quotes[i], price, kind));
    }
}

/// Two ascending tables that list the same prices have the same length and
/// the same price at every position.
pub proof fn lemma_same_price_lists(a: Seq<OptionStrike>, b: Seq<OptionStrike>)
    requires
        has_ascending_prices(a),
        has_ascending_prices(b),
        forall|price: Cents|
            #![trigger lists_price(a, price)]
            #![trigger lists_price(b, price)]
            lists_price(a, price) <==> lists_price(b, price),
    ensures
        a.len() == b.len(),
        forall|i: int| 0 <= i < a.len() ==> (#[trigger] a[i]).price == b[i].price,
    decreases a.len(),
{
    if a.len() == 0 {
        if b.len() > 0 {
            assert(lists_price(b, b[0].price));
            assert(lists_price(a, b[0].price));
        }
    } else {
        let top = a.last().price;
        assert(lists_price(a, top));
        assert(lists_price(b, top));
        let kb = choose|k: int| 0 <= k < b.len() && (#[trigger] b[k]).price == top;
        let top_b = b.last().price;
        assert(lists_price(b, top_b));
        assert(lists_price(a, top_b));
        let ka = choose|k: int| 0 <= k < a.len() && (#[trigger] a[k]).price == top_b;
        assert(a[ka].price <= a.last().price);
        assert(b[kb].price <= b.last().price);
        assert(top == top_b);
        let a0 = a.drop_last();
        let b0 = b.drop_last();
        assert forall|price: Cents| lists_price(a0, price) implies lists_price(b0, price) by {
            let i = choose|i: int| 0 <= i < a0.len() && (#[trigger] a0[i]).price == price;
            assert(a[i].price == price);
            assert(lists_price(a, price));
            assert(lists_price(b, price));
            let k = choose|k: int| 0 <= k < b.len() && (#[trigger] b[k]).price == price;
            assert(a[i].price < a.last().price);
            assert(k < b.len() - 1);
            assert(b0[k].price == price);
        }
        assert forall|price: Cents| lists_price(b0, price) implies lists_price(a0, price) by {
            let i = choose|i: int| 0 <= i < b0.len() && (#[trigger] b0[i]).price == price;
            assert(b[i].price == price);
            assert(lists_price(b, price));
            assert(lists_price(a, price));
            let k = choose|k: int| 0 <= k < a.len() && (#[trigger] a[k]).price == price;
            assert(b[i].price < b.last().price);
            assert(k < a.len() - 1);
            assert(a0[k].price == price);
        }
        assert(has_ascending_prices(a0)) by {
            assert forall|i: int, j: int| 0 <= i < j < a0.len() implies (#[trigger] a0[i]).price < (
            #[trigger] a0[j]).price by {
                assert(a[i].price < a[j].price);
            }
        }
        assert(has_ascending_prices(b0)) by {
            assert forall|i: int, j: int| 0 <= i < j < b0.len() implies (#[trigger] b0[i]).price < (
            #[trigger] b0[j]).price by {
                assert(b[i].price < b[j].price);
            }
        }
        lemma_same_price_lists(a0, b0);
        assert forall|i: int| 0 <= i < a.len() implies (#[trigger] a[i]).price == b[i].price by {
            if i < a.len() - 1 {
                assert(a0[i].price == b0[i].price);
            }
        }
    }
}

/// A set of quotes has at most one strike table: the table is a function of
/// the quotes alone.
pub proof fn lemma_strike_table_unique(
    quotes: Seq<OptionContract>,
    a: Seq<OptionStrike>,
    b: Seq<OptionStrike>,
)
    requires
        is_strike_table(quotes, a),
        is_strike_table(quotes, b),
    ensures
        a == b,
{
    assert forall|price: Cents|
        #![trigger lists_price(a, price)]
        #![trigger lists_price(b, price)]
        lists_price(a, price) <==> lists_price(b, price) by {
        assert(is_paired(quotes, price) <==> lists_price(a, price));
        assert(is_paired(quotes, price) <==> lists_price(b, price));
    }
    lemma_same_price_lists(a, b);
    assert forall|i: int| 0 <= i < a.len() implies a[i] == b[i] by {
        assert(has_first_legs(quotes, a[i]));
        assert(has_first_legs(quotes, b[i]));
        assert(a[i].price == b[i].price);
        assert(a[i].delta_k == interval_weight(a, i));
        assert(b[i].delta_k == interval_weight(b, i));
        if 0 < i < a.len() - 1 {
            assert(a[i + 1].price == b[i + 1].price);
            assert(a[i - 1].price == b[i - 1].price);
        }
    }
    assert(a =~= b);
}

/// Whoever holds a strike table holds `strike_table(quotes)`.
pub proof fn lemma_strike_table_is(quotes: Seq<OptionContract>, table: Seq<OptionStrike>)
    requires
        is_strike_table(quotes, table),
    ensures
        strike_table(quotes) == table,
{
    lemma_strike_table_unique(quotes, strike_table(quotes), table);
}

/// Among the liquid quotes of one kind at one price there is an earliest, and
/// it is the one that `first_quote` names.
pub proof fn lemma_first_quote_exists(
    quotes: Seq<OptionContract>,
    price: Cents,
    kind: OptionKind,
) -> (i: int)
    requires
        has_quote(quotes, price, kind),
    ensures
        is_first_quote(quotes, i, price, kind),
        first_quote(quotes, price, kind) == Some(quotes[i]),
    decreases quotes.len(),
{
    let w = choose|w: int| 0 <= w < quotes.len() && is_quote_for(#[trigger] quotes[w], price, kind);
    let front = quotes.drop_last();
    let i = if has_quote(front, price, kind) {
        let f = lemma_first_quote_exists(front, price, kind);
        assert(quotes[f] == front[f]);
        assert forall|j: int| 0 <= j < f implies !is_quote_for(#[trigger] quotes[j], price, kind) by {
            assert(quotes[j] == front[j]);
        }
        f
    } else {
        assert forall|j: int| 0 <= j < quotes.len() - 1 implies !is_quote_for(
            #[trigger] quotes[j],
            price,
            kind,
        ) by {
            if is_quote_for(quotes[j], price, kind) {
                assert(front[j] == quotes[j]);
                assert(has_quote(front, price, kind));
            }
        }
        assert(w == quotes.len() - 1);
        quotes.len() - 1
    };
    lemma_first_quote_at(quotes, i, price, kind);
    i
}

/// Some quote among the first `n` is struck at this price.
spec fn is_struck_among(quotes: Seq<OptionContract>, n: int, price: Cents) -> bool {
    exists|i: int| 0 <= i < n && i < quotes.len() && (#[trigger] quotes[i]).strike == price
}

/// An ascending list of prices with one more price put in its place.
proof fn lemma_insert_price(prices: Seq<Cents>, price: Cents) -> (longer: Seq<Cents>)
    requires
        is_strictly_ascending(prices),
        !prices.contains(price),
    ensures
        is_strictly_ascending(longer),
        forall|p: Cents| #[trigger] longer.contains(p) <==> prices.contains(p) || p == price,
    decreases prices.len(),
{
    if prices.len() == 0 || prices.last() < price {
        let longer = prices.push(price);
        assert forall|p: Cents| #[trigger] longer.contains(p) <==> prices.contains(p) || p
            == price by {
            if longer.contains(p) {
                let i = choose|i: int| 0 <= i < longer.len() && longer[i] == p;
                if i < prices.len() {
                    assert(prices[i] == p);
                }
            }
            if prices.contains(p) {
                let i = choose|i: int| 0 <= i < prices.len() && prices[i] == p;
                assert(longer[i] == p);
            }
            if p == price {
                assert(longer[longer.len() - 1] == p);
            }
        }
        assert forall|i: int, j: int| 0 <= i < j < longer.len() implies longer[i] < longer[j] by {
            if j < prices.len() {
                assert(prices[i] < prices[j]);
            } else {
                assert(prices[i] <= prices.last());
            }
        }
        longer
    } else {
        let top = prices.last();
        let front = prices.drop_last();
        assert(prices[prices.len() - 1] == top);
        assert(top != price);
        assert(is_strictly_ascending(front)) by {
            assert forall|i: int, j: int| 0 <= i < j < front.len() implies front[i] < front[j] by {
                assert(prices[i] < prices[j]);
            }
        }
        assert(!front.contains(price)) by {
            if front.contains(price) {
                let i = choose|i: int| 0 <= i < front.len() && front[i] == price;
                assert(prices[i] == price);
            }
        }
        let shorter = lemma_insert_price(front, price);
        let longer = shorter.push(top);
        assert forall|i: int| 0 <= i < shorter.len() implies shorter[i] < top by {
            assert(shorter.contains(shorter[i]));
            if front.contains(shorter[i]) {
                let k = choose|k: int| 0 <= k < front.len() && front[k] == shorter[i];
                assert(prices[k] < prices[prices.len() - 1]);
            }
        }
        assert forall|i: int, j: int| 0 <= i < j < longer.len() implies longer[i] < longer[j] by {
            if j < shorter.len() {
                assert(shorter[i] < shorter[j]);
            }
        }
        assert forall|p: Cents| #[trigger] longer.contains(p) <==> prices.contains(p) || p
            == price by {
            if longer.contains(p) {
                let i = choose|i: int| 0 <= i < longer.len() && longer[i] == p;
                if i < shorter.len() {
                    assert(shorter[i] == p);
                    assert(shorter.contains(p));
                    if front.contains(p) {
                        let k = choose|k: int| 0 <= k < front.len() && front[k] == p;
                        assert(prices[k] == p);
                    }
                }
            }
            if prices.contains(p) {
                let i = choose|i: int| 0 <= i < prices.len() && prices[i] == p;
                if i < front.len() {
                    assert(front[i] == p);
                    assert(front.contains(p));
                    assert(shorter.contains(p));
                    let k = choose|k: int| 0 <= k < shorter.len() && shorter[k] == p;
                    assert(longer[k] == p);
                } else {
                    assert(longer[longer.len() - 1] == p);
                }
            }
            if p == price {
                assert(shorter.contains(p));
                let k = choose|k: int| 0 <= k < shorter.len() && shorter[k] == p;
                assert(longer[k] == p);
            }
        }
        longer
    }
}

/// The paired prices met among the first `n` quotes, in ascending order.
proof fn lemma_paired_prices(quotes: Seq<OptionContract>, n: int) -> (prices: Seq<Cents>)
    requires
        0 <= n <= quotes.len(),
    ensures
        is_strictly_ascending(prices),
        forall|p: Cents|
            #[trigger] prices.contains(p) <==> is_paired(quotes, p) && is_struck_among(quotes, n, p),
    decreases n,
{
    if n == 0 {
        let prices = Seq::<Cents>::empty();
        assert forall|p: Cents| #[trigger] prices.contains(p) <==> is_paired(quotes, p)
            && is_struck_among(quotes, n, p) by {}
        prices
    } else {
        let earlier = lemma_paired_prices(quotes, n - 1);
        let price = quotes[n - 1].strike;
        let prices = if is_paired(quotes, price) && !earlier.contains(price) {
            lemma_insert_price(earlier, price)
        } else {
            earlier
        };
        assert forall|p: Cents| #[trigger] prices.contains(p) <==> is_paired(quotes, p)
            && is_struck_among(quotes, n, p) by {
            assert(earlier.contains(p) <==> is_paired(quotes, p) && is_struck_among(quotes, n - 1, p));
            if is_struck_among(quotes, n - 1, p) {
                let i = choose|i: int|
                    0 <= i < n - 1 && i < quotes.len() && (#[trigger] quotes[i]).strike == p;
                assert(quotes[i].strike == p);
                assert(is_struck_among(quotes, n, p));
            }
            if is_struck_among(quotes, n, p) {
                let i = choose|i: int|
                    0 <= i < n && i < quotes.len() && (#[trigger] quotes[i]).strike == p;
                if i < n - 1 {
                    assert(is_struck_among(quotes, n - 1, p));
                } else {
                    assert(p == price);
                }
            }
            if p == price {
                assert(quotes[n - 1].strike == p);
                assert(is_struck_among(quotes, n, p));
            }
        }
        prices
    }
}

/// The interval weight that belongs to position `i` of an ascending price list.
spec fn weight_among(prices: Seq<Cents>, i: int) -> Cents {
    if 0 < i < prices.len() - 1 {
        ((prices[i + 1] - prices[i - 1]) / 2) as i64
    } else {
        0
    }
}

/// Every set of quotes has a strike table, and `strike_table` is it.
pub proof fn lemma_strike_table_exists(quotes: Seq<OptionContract>)
    ensures
        is_strike_table(quotes, strike_table(quotes)),
{
    let prices = lemma_paired_prices(quotes, quotes.len() as int);
    let table = Seq::new(
        prices.len(),
        |i: int|
            OptionStrike {
                price: prices[i],
                put: first_quote(quotes, prices[i], OptionKind::Put).unwrap(),
                call: first_quote(quotes, prices[i], OptionKind::Call).unwrap(),
                delta_k: weight_among(prices, i),
            },
    );
    assert forall|i: int, j: int| 0 <= i < j < table.len() implies (#[trigger] table[i]).price < (
    #[trigger] table[j]).price by {
        assert(prices[i] < prices[j]);
    }
    assert forall|price: Cents| is_paired(quotes, price) implies lists_price(table, price) by {
        let w = choose|w: int|
            0 <= w < quotes.len() && is_quote_for(#[trigger] quotes[w], price, OptionKind::Call);
        assert(quotes[w].strike == price);
        assert(is_struck_among(quotes, quotes.len() as int, price));
        assert(prices.contains(price));
        let k = choose|k: int| 0 <= k < prices.len() && prices[k] == price;
        assert(table[k].price == price);
    }
    assert forall|price: Cents| lists_price(table, price) implies is_paired(quotes, price) by {
        let k = choose|k: int| 0 <= k < table.len() && (#[trigger] table[k]).price == price;
        assert(prices[k] == price);
        assert(prices.contains(price));
    }
    assert forall|i: int| 0 <= i < table.len() implies has_first_legs(quotes, #[trigger] table[i]) by {
        assert(prices.contains(prices[i]));
        assert(is_paired(quotes, prices[i]));
    }
    assert forall|i: int| 0 <= i < table.len() implies table[i].delta_k == #[trigger] interval_weight(
        table,
        i,
    ) by {
        if 0 < i < table.len() - 1 {
            assert(prices[i - 1] < prices[i + 1]);
            assert(table[i + 1].price == prices[i + 1]);
            assert(table[i - 1].price == prices[i - 1]);
        }
    }
    assert(is_strike_table(quotes, table));
}

} // verus!
