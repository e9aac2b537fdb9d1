//! One expiration's option chain.

use crate::contract::{div_toward_zero, Cents, OptionContract, OptionKind, Timestamp};
use crate::pairing::{liquid_strikes, pair_strikes, with_interval_weights};
use crate::runs::{
    collapse_runs, lemma_run_heads_same_members, lemma_run_heads_strict,
    lemma_same_multiset_same_members, sort_keys,
};
use crate::strike::{
    has_first_legs, interval_weight, is_paired, is_quote_for, is_strike_table,
    lemma_strike_table_exists, lemma_strike_table_is, lists_price, strike_table, OptionStrike,
};
use vstd::prelude::*;

verus! {

/// All the quotes of one expiration, with the risk-free rate that applies to
/// it.  The rate is an annual fraction in parts per million.
#[derive(Clone, Debug)]
pub struct OptionsByExpiryDate {
    pub expires_at: Timestamp,
    pub risk_free_rate_ppm: i64,
    pub calls: Vec<OptionContract>,
    pub puts: Vec<OptionContract>,
}

impl OptionsByExpiryDate {
    /// The chain's quotes in arrival order: the calls, then the puts.
    pub open spec fn quotes(&self) -> Seq<OptionContract> {
        self.calls@ + self.puts@
    }

    /// The chain's strike table.
    pub open spec fn strikes(&self) -> Seq<OptionStrike> {
        strike_table(self.quotes())
    }

    /// The chain's strike table is a strike table of its quotes, and the only one.
    pub proof fn lemma_strikes_are_the_table(&self)
        ensures
            is_strike_table(self.quotes(), self.strikes()),
            forall|table: Seq<OptionStrike>|
                is_strike_table(self.quotes(), table) ==> table == self.strikes(),
    {
        lemma_strike_table_exists(self.quotes());
        assert forall|table: Seq<OptionStrike>|
            is_strike_table(self.quotes(), table) implies table == self.strikes() by {
            lemma_strike_table_is(self.quotes(), table);
        }
    }

    /// Whole minutes from `now` to the expiration, rounded toward zero; negative
    /// once the expiration has passed.
    pub open spec fn spec_minutes_to_expiration(&self, now: Timestamp) -> int {
        div_toward_zero(self.expires_at - now, 60)
    }

    /// Computes the number of minutes until the option's expiration.
    pub fn minutes_to_expiration(&self, now: Timestamp) -> (minutes: i64)
        ensures
            minutes == self.spec_minutes_to_expiration(now),
    {
        let seconds: i128 = self.expires_at as i128 - now as i128;
        (seconds / 60) as i64
    }

    /// Gets options grouped and sorted by their strike price.
    ///
    /// Quotes with a zero bid are left out.  A price gets a strike exactly if
    /// a call and a put remain at it; the strike holds the earliest of each.
    /// Strikes come in ascending order of price, and every strike between two
    /// others carries half the distance between its neighbours as `delta_k`.
    pub fn get_strikes(&self) -> (table: Vec<OptionStrike>)
        ensures
            table@ == self.strikes(),
            is_strike_table(self.quotes(), table@),
            forall|i: int, j: int|
                0 <= i < j < table@.len() ==> (#[trigger] table@[i]).price < (
                #[trigger] table@[j]).price,
            forall|price: Cents|
                #![trigger is_paired(self.quotes(), price)]
                #![trigger lists_price(table@, price)]
                lists_price(table@, price) <==> is_paired(self.quotes(), price),
            forall|i: int| 0 <= i < table@.len() ==> has_first_legs(self.quotes(), #[trigger] table@[i]),
            forall|i: int|
                0 < i < table@.len() - 1 ==> #[trigger] table@[i].delta_k == (table@[i + 1].price
                    - table@[i - 1].price) / 2,
            forall|i: int|
                0 <= i < table@.len() && (i == 0 || i == table@.len() - 1)
                    ==> #[trigger] table@[i].delta_k == 0,
    {
        let mut keys = liquid_strikes(&self.calls, &self.puts);
        let ghost unsorted = keys@;
        sort_keys(&mut keys);
        let prices = collapse_runs(&keys);
        proof {
            lemma_same_multiset_same_members(unsorted, keys@);
            lemma_run_heads_same_members(keys@);
            lemma_run_heads_strict(keys@);
        }
        let paired = pair_strikes(&self.calls, &self.puts, &prices);
        let table = with_interval_weights(&paired);
        proof {
            let quotes = self.quotes();
            assert forall|i: int, j: int| 0 <= i < j < table@.len() implies (
            #[trigger] table@[i]).price < (#[trigger] table@[j]).price by {
                assert(paired@[i].price < paired@[j].price);
            }
            assert forall|price: Cents| is_paired(quotes, price) implies lists_price(
                table@,
                price,
            ) by {
                let w = choose|w: int|
                    0 <= w < quotes.len() && is_quote_for(
                        #[trigger] quotes[w],
                        price,
                        OptionKind::Call,
                    );
                assert(quotes[w].is_liquid());
                assert(unsorted.contains(quotes[w].strike));
                assert(keys@.contains(price));
                assert(prices@.contains(price));
                let k = choose|k: int| 0 <= k < prices@.len() && prices@[k] == price;
                assert(is_paired(quotes, prices@[k]));
                assert(lists_price(paired@, price));
                let i = choose|i: int| 0 <= i < paired@.len() && (#[trigger] paired@[i]).price == price;
                assert(table@[i].price == price);
            }
            assert forall|price: Cents| lists_price(table@, price) implies is_paired(
                quotes,
                price,
            ) by {
                let i = choose|i: int| 0 <= i < table@.len() && (#[trigger] table@[i]).price == price;
                assert(has_first_legs(quotes, paired@[i]));
            }
            assert forall|i: int| 0 <= i < table@.len() implies has_first_legs(
                quotes,
                #[trigger] table@[i],
            ) by {
                assert(has_first_legs(quotes, paired@[i]));
            }
            assert forall|i: int| 0 <= i < table@.len() implies table@[i].delta_k
                == #[trigger] interval_weight(table@, i) by {
                if 0 < i < table@.len() - 1 {
                    assert(table@[i + 1].price == paired@[i + 1].price);
                    assert(table@[i - 1].price == paired@[i - 1].price);
                }
            }
            lemma_strike_table_is(quotes, table@);
            assert forall|i: int| 0 <= i < table@.len() implies #[trigger] table@[i].delta_k
                == interval_weight(paired@, i) by {}
        }
        table
    }
}

} // verus!
