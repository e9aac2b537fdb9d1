//! The time weights with which the variances of two expirations are blended
//! into a thirty-day figure.

use crate::chain::OptionsByExpiryDate;
use crate::contract::Timestamp;
use vstd::prelude::*;

verus! {

/// Minutes in a year of 365 days.
pub const MINUTES_PER_YEAR: i64 = 525_600;

/// Minutes in thirty days, the horizon of the index.
pub const MINUTES_PER_30_DAYS: i64 = 43_200;

/// The weights of the blend, in minutes.  The near term's variance is weighted
/// by `near / span`, the next term's by `next / span`.
#[derive(PartialEq, Eq, Structural, Clone, Copy, Debug)]
pub struct BlendWeights {
    /// Minutes by which the next term expires after the horizon.
    pub near: i64,
    /// Minutes by which the near term expires before the horizon.
    pub next: i64,
    /// Minutes between the two expirations, as seen from now.
    pub span: i64,
}

impl BlendWeights {
    /// The two terms are the same number of minutes away, so that the weights
    /// have no finite value.
    pub open spec fn spec_is_degenerate(&self) -> bool {
        self.span == 0
    }

    /// Whether the blend is degenerate: dividing by `span` would divide by zero.
    pub fn is_degenerate(&self) -> (degenerate: bool)
        ensures
            degenerate == self.spec_is_degenerate(),
    {
        self.span == 0
    }
}

/// The weights that the two terms would have at `now`.
pub open spec fn blend_weights_of(
    near_term: OptionsByExpiryDate,
    next_term: OptionsByExpiryDate,
    now: Timestamp,
) -> BlendWeights {
    BlendWeights {
        near: (next_term.spec_minutes_to_expiration(now) - MINUTES_PER_30_DAYS) as i64,
        next: (MINUTES_PER_30_DAYS - near_term.spec_minutes_to_expiration(now)) as i64,
        span: (next_term.spec_minutes_to_expiration(now) - near_term.spec_minutes_to_expiration(
            now,
        )) as i64,
    }
}

/// Computes the time weights of the near and the next term at `now`.
///
/// Nothing is asked of the order of the two expirations.  When both are the
/// same number of minutes away the result is degenerate, and only then.
pub fn blend_weights(
    near_term: &OptionsByExpiryDate,
    next_term: &OptionsByExpiryDate,
    now: Timestamp,
) -> (weights: BlendWeights)
    ensures
        weights == blend_weights_of(*near_term, *next_term, now),
        weights.near == next_term.spec_minutes_to_expiration(now) - MINUTES_PER_30_DAYS,
        weights.next == MINUTES_PER_30_DAYS - near_term.spec_minutes_to_expiration(now),
        weights.span == next_term.spec_minutes_to_expiration(now)
            - near_term.spec_minutes_to_expiration(now),
        weights.spec_is_degenerate() <==> near_term.spec_minutes_to_expiration(now)
            == next_term.spec_minutes_to_expiration(now),
{
    let near_minutes = near_term.minutes_to_expiration(now);
    let next_minutes = next_term.minutes_to_expiration(now);
    proof {
        lemma_minutes_bound(*near_term, now);
        lemma_minutes_bound(*next_term, now);
    }
    BlendWeights {
        near: next_minutes - MINUTES_PER_30_DAYS,
        next: MINUTES_PER_30_DAYS - near_minutes,
        span: next_minutes - near_minutes,
    }
}

/// The minutes to an expiration are far from the ends of the integer range.
pub proof fn lemma_minutes_bound(term: OptionsByExpiryDate, now: Timestamp)
    ensures
        -0x0800_0000_0000_0000 <= term.spec_minutes_to_expiration(now) <= 0x0800_0000_0000_0000,
{
}

/// The blend is degenerate exactly when both terms are the same number of
/// minutes away; two terms with the same expiration always are.
pub proof fn lemma_degenerate_iff_same_minutes(
    near_term: OptionsByExpiryDate,
    next_term: OptionsByExpiryDate,
    now: Timestamp,
)
    ensures
        blend_weights_of(near_term, next_term, now).spec_is_degenerate()
            <==> near_term.spec_minutes_to_expiration(now) == next_term.spec_minutes_to_expiration(
            now,
        ),
        near_term.expires_at == next_term.expires_at ==> blend_weights_of(
            near_term,
            next_term,
            now,
        ).spec_is_degenerate(),
{
    lemma_minutes_bound(near_term, now);
    lemma_minutes_bound(next_term, now);
}

} // verus!
