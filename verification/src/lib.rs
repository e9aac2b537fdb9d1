//! Quote-to-index arithmetic for a volatility index built from option quotes.
//!
//! The crate holds the integer core of the computation: pairing calls and puts
//! into strikes, weighting each strike by its interval, choosing the
//! at-the-money strike, selecting the out-of-the-money strip around the forward
//! price, grouping quotes by expiration, and the time weights of the two-term
//! blend.  Prices are whole cents and instants are whole seconds, so every
//! function here is exact.

pub mod contract;
pub mod runs;
pub mod strike;
pub mod pairing;
pub mod chain;
pub mod forward;
pub mod strip;
pub mod grouping;
pub mod blend;

pub use blend::{blend_weights, BlendWeights, MINUTES_PER_30_DAYS, MINUTES_PER_YEAR};
pub use chain::OptionsByExpiryDate;
pub use contract::{Cents, OptionContract, OptionKind, Timestamp};
pub use grouping::{group_options_by_expiry, RISK_FREE_RATE_PPM};
pub use strike::OptionStrike;
pub use strip::{ReplicationStrip, WeightedOption};
