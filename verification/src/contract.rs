//! Quoted option contracts and their mark price.

use vstd::prelude::*;

verus! {

/// A price in the smallest currency unit.
pub type Cents = i64;

/// An instant, in whole seconds since the Unix epoch.
pub type Timestamp = i64;

/// Whether a contract is a right to buy or a right to sell.
#[derive(PartialEq, Eq, Structural, Clone, Copy, Debug)]
pub enum OptionKind {
    Call,
    Put,
}

/// The quotient of `x` by a positive `d`, rounded toward zero.
pub open spec fn div_toward_zero(x: int, d: int) -> int {
    if x >= 0 {
        x / d
    } else {
        -((-x) / d)
    }
}

/// One quoted option: its expiration, strike, kind, and the bid and ask prices.
#[derive(PartialEq, Eq, Structural, Clone, Copy, Debug)]
pub struct OptionContract {
    pub expires_at: Timestamp,
    pub strike: Cents,
    pub kind: OptionKind,
    pub bid: Cents,
    pub ask: Cents,
}

impl OptionContract {
    pub fn new(expires_at: Timestamp, strike: Cents, kind: OptionKind, bid: Cents, ask: Cents) -> (c:
        Self)
        ensures
            c == (OptionContract { expires_at, strike, kind, bid, ask }),
    {
        OptionContract { expires_at, strike, kind, bid, ask }
    }

    /// The mark price: the midpoint of bid and ask, rounded toward zero.
    pub open spec fn spec_mark(self) -> int {
        div_toward_zero(self.bid + self.ask, 2)
    }

    /// A quote with a zero bid is illiquid and takes no part in strike pairing.
    pub open spec fn is_liquid(self) -> bool {
        self.bid != 0
    }

    /// Mark price.  The sum is formed in a wider type, so every bid and ask is
    /// accepted; with a non-negative sum the midpoint is rounded down.
    pub fn mark(self) -> (m: Cents)
        ensures
            m == self.spec_mark(),
            self.bid + self.ask >= 0 ==> m == (self.bid + self.ask) / 2,
    {
        let sum: i128 = self.ask as i128 + self.bid as i128;
        (sum / 2) as i64
    }
}

/// The mark lies between bid and ask whenever the quote is ordered, and twice
/// the mark misses the sum of bid and ask by at most one.
pub proof fn lemma_mark_is_midpoint(c: OptionContract)
    ensures
        c.bid <= c.ask ==> c.bid <= c.spec_mark() <= c.ask,
        c.bid + c.ask >= 0 ==> 2 * c.spec_mark() <= c.bid + c.ask <= 2 * c.spec_mark() + 1,
        c.bid + c.ask <= 0 ==> 2 * c.spec_mark() - 1 <= c.bid + c.ask <= 2 * c.spec_mark(),
{
}

} // verus!
