//! The strip of out-of-the-money options around the forward price, from which
//! the variance of one expiration is summed.

use crate::chain::OptionsByExpiryDate;
use crate::contract::{Cents, OptionContract};
use crate::strike::{has_ascending_prices, OptionStrike};
use vstd::prelude::*;

verus! {

/// One option of the strip with the interval weight of its strike.
#[derive(PartialEq, Eq, Structural, Clone, Copy, Debug)]
pub struct WeightedOption {
    pub option: OptionContract,
    pub delta_k: Cents,
}

/// The options that enter the variance sum, in the order in which they are
/// summed, and the reference strike price `k0`.
#[derive(Clone, Debug)]
pub struct ReplicationStrip {
    pub k0: Cents,
    pub options: Vec<WeightedOption>,
}

/// The put of a strike, weighted.
pub open spec fn put_leg(s: OptionStrike) -> WeightedOption {
    WeightedOption { option: s.put, delta_k: s.delta_k }
}

/// The call of a strike, weighted.
pub open spec fn call_leg(s: OptionStrike) -> WeightedOption {
    WeightedOption { option: s.call, delta_k: s.delta_k }
}

/// Whether a strike is priced below the forward price.
pub open spec fn is_below(forward_price: Cents) -> spec_fn(OptionStrike) -> bool {
    |s: OptionStrike| s.price < forward_price
}

/// Whether a strike is priced at the forward price or above it.
pub open spec fn is_at_or_above(forward_price: Cents) -> spec_fn(OptionStrike) -> bool {
    |s: OptionStrike| s.price >= forward_price
}

/// The strikes below the forward price, in table order.
pub open spec fn strikes_below(table: Seq<OptionStrike>, forward_price: Cents) -> Seq<
    OptionStrike,
> {
    table.filter(is_below(forward_price))
}

/// The strikes at or above the forward price, in table order.
pub open spec fn strikes_at_or_above(table: Seq<OptionStrike>, forward_price: Cents) -> Seq<
    OptionStrike,
> {
    table.filter(is_at_or_above(forward_price))
}

/// The reference strike price: that of the last strike below the forward
/// price, which in an ascending table is the highest; zero if no strike lies
/// below.
pub open spec fn k0_of(table: Seq<OptionStrike>, forward_price: Cents) -> Cents {
    let below = strikes_below(table, forward_price);
    if below.len() == 0 {
        0
    } else {
        below.last().price
    }
}

/// The puts of the strikes under the reference strike, from the highest price
/// down.
pub open spec fn puts_under_k0(below: Seq<OptionStrike>) -> Seq<WeightedOption> {
    Seq::new((below.len() - 1) as nat, |i: int| put_leg(below[below.len() - 2 - i]))
}

/// The calls of the given strikes, in order.
pub open spec fn calls_of(above: Seq<OptionStrike>) -> Seq<WeightedOption> {
    Seq::new(above.len(), |i: int| call_leg(above[i]))
}

/// The options of the strip: the puts under the reference strike from the
/// highest price down, then the calls at or above the forward price in
/// ascending order, then the call and the put of the reference strike itself.
pub open spec fn strip_options(table: Seq<OptionStrike>, forward_price: Cents) -> Seq<
    WeightedOption,
> {
    let below = strikes_below(table, forward_price);
    let above = strikes_at_or_above(table, forward_price);
    if below.len() == 0 {
        calls_of(above)
    } else {
        puts_under_k0(below) + calls_of(above) + seq![call_leg(below.last()), put_leg(below.last())]
    }
}

/// Splits a table at the forward price and lays out the strip.
pub(crate) fn select_strip(table: &Vec<OptionStrike>, forward_price: Cents) -> (strip:
    ReplicationStrip)
    requires
        has_ascending_prices(table@),
    ensures
        strip.k0 == k0_of(table@, forward_price),
        strip.options@ == strip_options(table@, forward_price),
        forall|i: int|
            0 <= i < table@.len() && (#[trigger] table@[i]).price < forward_price ==> table@[i].price
                <= strip.k0,
{
    let mut below: Vec<OptionStrike> = Vec::new();
    let mut above: Vec<OptionStrike> = Vec::new();
    let mut i: usize = 0;
    while i < table.len()
        invariant
            i <= table.len(),
            has_ascending_prices(table@),
            below@ == strikes_below(table@.take(i as int), forward_price),
            above@ == strikes_at_or_above(table@.take(i as int), forward_price),
            forall|j: int|
                0 <= j < i && (#[trigger] table@[j]).price < forward_price ==> below@.len() > 0
                    && table@[j].price <= below@.last().price,
        decreases table.len() - i,
    {
        let s = table[i];
        proof {
            let seen = table@.take(i as int);
            assert(table@.take(i + 1) =~= seen.push(s));
            seen.lemma_filter_push(s, is_below(forward_price));
            seen.lemma_filter_push(s, is_at_or_above(forward_price));
        }
        if s.price < forward_price {
            proof {
                assert forall|j: int|
                    0 <= j < i && (#[trigger] table@[j]).price < forward_price implies table@[j].price
                    <= s.price by {
                    assert(table@[j].price < table@[i as int].price);
                }
            }
            below.push(s);
        } else {
            above.push(s);
        }
        i += 1;
    }
    proof {
        assert(table@.take(table@.len() as int) =~= table@);
    }
    let mut options: Vec<WeightedOption> = Vec::new();
    let mut k0: Cents = 0;
    if below.len() > 0 {
        k0 = below[below.len() - 1].price;
        let mut r: usize = below.len() - 1;
        while r > 0
            invariant
                r < below@.len(),
                options@.len() == below@.len() - 1 - r,
                forall|n: int|
                    0 <= n < options@.len() ==> #[trigger] options@[n] == put_leg(
                        below@[below@.len() - 2 - n],
                    ),
            decreases r,
        {
            r -= 1;
            let s = below[r];
            options.push(WeightedOption { option: s.put, delta_k: s.delta_k });
        }
        proof {
            assert(options@ =~= puts_under_k0(below@));
        }
    }
    let ghost head = options@;
    let mut a: usize = 0;
    while a < above.len()
        invariant
            a <= above@.len(),
            options@.len() == head.len() + a,
            forall|n: int| 0 <= n < head.len() ==> #[trigger] options@[n] == head[n],
            forall|n: int|
                head.len() <= n < options@.len() ==> #[trigger] options@[n] == call_leg(
                    above@[n - head.len()],
                ),
        decreases above.len() - a,
    {
        let s = above[a];
        options.push(WeightedOption { option: s.call, delta_k: s.delta_k });
        a += 1;
    }
    proof {
        assert(options@ =~= head + calls_of(above@));
    }
    if below.len() > 0 {
        let k = below[below.len() - 1];
        options.push(WeightedOption { option: k.call, delta_k: k.delta_k });
        options.push(WeightedOption { option: k.put, delta_k: k.delta_k });
        proof {
            assert(options@ =~= puts_under_k0(below@) + calls_of(above@) + seq![
                call_leg(below@.last()),
                put_leg(below@.last()),
            ]);
        }
    }
    ReplicationStrip { k0, options }
}

impl OptionsByExpiryDate {
    /// Selects the options that enter the variance of this expiration, given
    /// its forward price.
    ///
    /// The strikes priced below the forward price are set apart from the rest.
    /// The highest of them is the reference strike, and its price is `k0`
    /// (zero when no strike lies below).  The strip holds the put of every
    /// strike under the reference strike, from the highest price down; then
    /// the call of every strike at or above the forward price, in ascending
    /// order; then both the call and the put of the reference strike.  Each
    /// option carries the interval weight of its strike.
    pub fn replication_strip(&self, forward_price: Cents) -> (strip: ReplicationStrip)
        ensures
            strip.k0 == k0_of(self.strikes(), forward_price),
            strip.options@ == strip_options(self.strikes(), forward_price),
            forall|i: int|
                0 <= i < self.strikes().len() && (#[trigger] self.strikes()[i]).price
                    < forward_price ==> self.strikes()[i].price <= strip.k0,
    {
        let table = self.get_strikes();
        select_strip(&table, forward_price)
    }
}

} // verus!
