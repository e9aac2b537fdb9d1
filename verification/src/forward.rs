//! The at-the-money strike and the forward price built on it.

use crate::chain::OptionsByExpiryDate;
use crate::contract::Cents;
use crate::strike::OptionStrike;
use vstd::prelude::*;

verus! {

/// Strike `i` is at the money: no strike has a smaller parity gap, and every
/// strike before it has a larger one.
pub open spec fn is_atm(table: Seq<OptionStrike>, i: int) -> bool {
    &&& 0 <= i < table.len()
    &&& forall|j: int|
        0 <= j < table.len() ==> table[i].parity_gap() <= (#[trigger] table[j]).parity_gap()
    &&& forall|j: int| 0 <= j < i ==> table[i].parity_gap() < (#[trigger] table[j]).parity_gap()
}

/// The at-the-money strike of a table: the one whose call and put marks are
/// closest, the lowest-priced such strike where several tie.  An empty table
/// has none.
pub open spec fn atm_of(table: Seq<OptionStrike>) -> Option<OptionStrike> {
    if table.len() == 0 {
        None
    } else {
        Some(table[choose|i: int| is_atm(table, i)])
    }
}

/// The forward price: the at-the-money strike price plus the carried call-put
/// difference; zero when there is no strike.
pub open spec fn forward_price_of(table: Seq<OptionStrike>, carry: int) -> int {
    match atm_of(table) {
        Some(atm) => atm.price + carry,
        None => 0,
    }
}

/// A table has at most one at-the-money position.
pub proof fn lemma_atm_unique(table: Seq<OptionStrike>, i: int, j: int)
    requires
        is_atm(table, i),
        is_atm(table, j),
    ensures
        i == j,
{
    if i < j {
        assert(table[j].parity_gap() < table[i].parity_gap());
        assert(table[i].parity_gap() <= table[j].parity_gap());
    } else if j < i {
        assert(table[i].parity_gap() < table[j].parity_gap());
        assert(table[j].parity_gap() <= table[i].parity_gap());
    }
}

/// The strike at an at-the-money position is the one `atm_of` names.
pub proof fn lemma_atm_at(table: Seq<OptionStrike>, i: int)
    requires
        is_atm(table, i),
    ensures
        atm_of(table) == Some(table[i]),
{
    let c = choose|c: int| is_atm(table, c);
    lemma_atm_unique(table, c, i);
}

/// Every non-empty table has an at-the-money position.
pub proof fn lemma_atm_exists(table: Seq<OptionStrike>) -> (i: int)
    requires
        table.len() > 0,
    ensures
        is_atm(table, i),
    decreases table.len(),
{
    if table.len() == 1 {
        0
    } else {
        let front = table.drop_last();
        let f = lemma_atm_exists(front);
        assert(front[f] == table[f]);
        if table.last().parity_gap() < table[f].parity_gap() {
            let l = table.len() - 1;
            assert forall|j: int| 0 <= j < l implies table[l].parity_gap() < (
            #[trigger] table[j]).parity_gap() by {
                assert(front[f].parity_gap() <= front[j].parity_gap());
            }
            l
        } else {
            assert forall|j: int| 0 <= j < table.len() implies table[f].parity_gap() <= (
            #[trigger] table[j]).parity_gap() by {
                if j < front.len() {
                    assert(front[f].parity_gap() <= front[j].parity_gap());
                }
            }
            assert forall|j: int| 0 <= j < f implies table[f].parity_gap() < (
            #[trigger] table[j]).parity_gap() by {
                assert(front[f].parity_gap() < front[j].parity_gap());
            }
            f
        }
    }
}

/// The forward price looks at the at-the-money strike alone.  Replace any
/// other strike `j` by anything at all: as long as the replacement does not
/// itself become the at-the-money strike, the at-the-money strike and the
/// forward price stay what they were.
pub proof fn lemma_forward_price_ignores_other_strikes(
    before: Seq<OptionStrike>,
    after: Seq<OptionStrike>,
    j: int,
    carry: int,
)
    requires
        before.len() == after.len(),
        0 <= j < before.len(),
        forall|i: int| 0 <= i < before.len() && i != j ==> before[i] == after[i],
        !is_atm(before, j),
        !is_atm(after, j),
    ensures
        atm_of(after) == atm_of(before),
        forward_price_of(after, carry) == forward_price_of(before, carry),
{
    let a = lemma_atm_exists(before);
    let b = lemma_atm_exists(after);
    assert(a != j && b != j);
    assert(before[a] == after[a]);
    assert(before[b] == after[b]);
    assert(before[a].parity_gap() <= before[b].parity_gap());
    assert(after[b].parity_gap() <= after[a].parity_gap());
    if a < b {
        assert(after[b].parity_gap() < after[a].parity_gap());
    } else if b < a {
        assert(before[a].parity_gap() < before[b].parity_gap());
    }
    assert(a == b);
    lemma_atm_at(before, a);
    lemma_atm_at(after, b);
}

/// The size of a strike's call-put difference.
fn parity_gap_of(s: OptionStrike) -> (gap: i128)
    ensures
        gap == s.parity_gap(),
{
    let difference: i128 = s.call.mark() as i128 - s.put.mark() as i128;
    if difference < 0 {
        -difference
    } else {
        difference
    }
}

/// The at-the-money strike of a table.
pub(crate) fn at_the_money_of(table: &Vec<OptionStrike>) -> (atm: Option<OptionStrike>)
    ensures
        atm == atm_of(table@),
        atm is None <==> table@.len() == 0,
        atm matches Some(s) ==> exists|i: int| is_atm(table@, i) && table@[i] == s,
{
    if table.len() == 0 {
        return None;
    }
    let mut best: usize = 0;
    let mut best_gap: i128 = parity_gap_of(table[0]);
    let mut i: usize = 1;
    while i < table.len()
        invariant
            1 <= i <= table.len(),
            best < i,
            best_gap == table@[best as int].parity_gap(),
            forall|j: int| 0 <= j < i ==> best_gap <= (#[trigger] table@[j]).parity_gap(),
            forall|j: int| 0 <= j < best ==> best_gap < (#[trigger] table@[j]).parity_gap(),
        decreases table.len() - i,
    {
        let gap = parity_gap_of(table[i]);
        if gap < best_gap {
            best = i;
            best_gap = gap;
        }
        i += 1;
    }
    proof {
        lemma_atm_at(table@, best as int);
    }
    Some(table[best])
}

impl OptionsByExpiryDate {
    /// The at-the-money strike of the chain: the strike whose call and put
    /// marks are closest, the lowest-priced one where several tie; `None` when
    /// the chain has no strike.
    pub fn at_the_money(&self) -> (atm: Option<OptionStrike>)
        ensures
            atm == atm_of(self.strikes()),
            atm is None <==> self.strikes().len() == 0,
            atm matches Some(s) ==> exists|i: int|
                is_atm(self.strikes(), i) && self.strikes()[i] == s,
    {
        let table = self.get_strikes();
        at_the_money_of(&table)
    }

    /// Computes the implied forward price from `carry`, the call-put
    /// difference of the at-the-money strike grown at the risk-free rate to
    /// expiration and cut to whole cents: the at-the-money price plus `carry`,
    /// or zero for a chain without strikes.
    pub fn forward_price(&self, carry: Cents) -> (fp: Cents)
        requires
            i64::MIN <= forward_price_of(self.strikes(), carry as int) <= i64::MAX,
        ensures
            fp == forward_price_of(self.strikes(), carry as int),
    {
        match self.at_the_money() {
            Some(atm) => atm.price + carry,
            None => 0,
        }
    }
}

} // verus!
