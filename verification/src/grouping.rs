//! Sorting a flat list of quotes into one chain for each expiration.

use crate::chain::OptionsByExpiryDate;
use crate::contract::{OptionContract, OptionKind, Timestamp};
use crate::runs::{collapse_runs, lemma_run_heads_same_members};
use std::collections::HashMap;
use vstd::prelude::*;

verus! {

/// The annual risk-free rate given to every chain, in parts per million.
pub const RISK_FREE_RATE_PPM: i64 = 3_000;

/// Whether a quote has the given expiration and kind.
pub open spec fn is_in_chain(expires_at: Timestamp, kind: OptionKind) -> spec_fn(
    OptionContract,
) -> bool {
    |o: OptionContract| o.expires_at == expires_at && o.kind == kind
}

/// Some quote expires at this instant.
pub open spec fn has_expiry(options: Seq<OptionContract>, expires_at: Timestamp) -> bool {
    exists|i: int| 0 <= i < options.len() && (#[trigger] options[i]).expires_at == expires_at
}

/// `chain` is the chain of `expires_at` among `options`: it holds every call
/// and every put of that expiration, each list in the order of `options`, and
/// the fixed risk-free rate.
pub open spec fn is_chain_of(
    chain: OptionsByExpiryDate,
    options: Seq<OptionContract>,
    expires_at: Timestamp,
) -> bool {
    &&& chain.expires_at == expires_at
    &&& chain.risk_free_rate_ppm == RISK_FREE_RATE_PPM
    &&& chain.calls@ == options.filter(is_in_chain(expires_at, OptionKind::Call))
    &&& chain.puts@ == options.filter(is_in_chain(expires_at, OptionKind::Put))
}

/// A chain is uniform: all its quotes expire when the chain does, its calls are
/// calls and its puts are puts.
pub proof fn lemma_chain_is_uniform(
    chain: OptionsByExpiryDate,
    options: Seq<OptionContract>,
    expires_at: Timestamp,
)
    requires
        is_chain_of(chain, options, expires_at),
    ensures
        forall|i: int|
            0 <= i < chain.calls@.len() ==> (#[trigger] chain.calls@[i]).expires_at == expires_at
                && chain.calls@[i].kind == OptionKind::Call,
        forall|i: int|
            0 <= i < chain.puts@.len() ==> (#[trigger] chain.puts@[i]).expires_at == expires_at
                && chain.puts@[i].kind == OptionKind::Put,
{
    assert forall|i: int| 0 <= i < chain.calls@.len() implies (
    #[trigger] chain.calls@[i]).expires_at == expires_at && chain.calls@[i].kind
        == OptionKind::Call by {
        options.lemma_filter_pred(is_in_chain(expires_at, OptionKind::Call), i);
    }
    assert forall|i: int| 0 <= i < chain.puts@.len() implies (
    #[trigger] chain.puts@[i]).expires_at == expires_at && chain.puts@[i].kind
        == OptionKind::Put by {
        options.lemma_filter_pred(is_in_chain(expires_at, OptionKind::Put), i);
    }
}

/// No quote is lost: each is found in the chain of its own expiration, among
/// the calls or among the puts according to its kind.
pub proof fn lemma_chain_holds_its_quotes(
    chain: OptionsByExpiryDate,
    options: Seq<OptionContract>,
    i: int,
)
    requires
        0 <= i < options.len(),
        is_chain_of(chain, options, options[i].expires_at),
    ensures
        options[i].kind == OptionKind::Call ==> chain.calls@.contains(options[i]),
        options[i].kind == OptionKind::Put ==> chain.puts@.contains(options[i]),
{
    if options[i].kind == OptionKind::Call {
        options.lemma_filter_contains(is_in_chain(options[i].expires_at, OptionKind::Call), i);
    } else {
        options.lemma_filter_contains(is_in_chain(options[i].expires_at, OptionKind::Put), i);
    }
}

/// The expiration of each quote, in order.
fn expirations_of(options: &[OptionContract]) -> (keys: Vec<Timestamp>)
    ensures
        keys@.len() == options@.len(),
        forall|i: int| 0 <= i < keys@.len() ==> #[trigger] keys@[i] == options@[i].expires_at,
{
    let mut keys: Vec<Timestamp> = Vec::new();
    let mut i: usize = 0;
    while i < options.len()
        invariant
            i <= options@.len(),
            keys@.len() == i,
            forall|j: int| 0 <= j < i ==> #[trigger] keys@[j] == options@[j].expires_at,
        decreases options.len() - i,
    {
        keys.push(options[i].expires_at);
        i += 1;
    }
    keys
}

/// Collects the chain of one expiration.
fn chain_of(options: &[OptionContract], expires_at: Timestamp) -> (chain: OptionsByExpiryDate)
    ensures
        is_chain_of(chain, options@, expires_at),
{
    let mut calls: Vec<OptionContract> = Vec::new();
    let mut puts: Vec<OptionContract> = Vec::new();
    let mut i: usize = 0;
    while i < options.len()
        invariant
            i <= options@.len(),
            calls@ == options@.take(i as int).filter(is_in_chain(expires_at, OptionKind::Call)),
            puts@ == options@.take(i as int).filter(is_in_chain(expires_at, OptionKind::Put)),
        decreases options.len() - i,
    {
        let o = options[i];
        proof {
            let seen = options@.take(i as int);
            assert(options@.take(i + 1) =~= seen.push(o));
            seen.lemma_filter_push(o, is_in_chain(expires_at, OptionKind::Call));
            seen.lemma_filter_push(o, is_in_chain(expires_at, OptionKind::Put));
        }
        if o.expires_at == expires_at {
            if o.kind == OptionKind::Call {
                calls.push(o);
            } else {
                puts.push(o);
            }
        }
        i += 1;
    }
    proof {
        assert(options@.take(options@.len() as int) =~= options@);
    }
    OptionsByExpiryDate { expires_at, risk_free_rate_ppm: RISK_FREE_RATE_PPM, calls, puts }
}

/// Groups quotes into one chain for each expiration that occurs among them.
///
/// The map has an entry for an instant exactly if some quote expires then.
/// The chain under it holds all the calls and all the puts of that expiration,
/// wherever in the list they stand, in the order in which they were given,
/// and the fixed risk-free rate.
pub fn group_options_by_expiry(options: &[OptionContract]) -> (groups: HashMap<
    Timestamp,
    OptionsByExpiryDate,
>)
    ensures
        forall|t: Timestamp|
            #![trigger groups@.contains_key(t)]
            #![trigger has_expiry(options@, t)]
            groups@.contains_key(t) <==> has_expiry(options@, t),
        forall|t: Timestamp|
            groups@.contains_key(t) ==> is_chain_of(#[trigger] groups@[t], options@, t),
{
    broadcast use vstd::std_specs::hash::group_hash_axioms;

    let expirations = expirations_of(options);
    let heads = collapse_runs(&expirations);
    proof {
        lemma_run_heads_same_members(expirations@);
    }
    let mut groups: HashMap<Timestamp, OptionsByExpiryDate> = HashMap::new();
    let mut k: usize = 0;
    while k < heads.len()
        invariant
            k <= heads@.len(),
            forall|t: Timestamp|
                #![trigger groups@.contains_key(t)]
                groups@.contains_key(t) <==> exists|n: int| 0 <= n < k && #[trigger] heads@[n] == t,
            forall|t: Timestamp|
                groups@.contains_key(t) ==> is_chain_of(#[trigger] groups@[t], options@, t),
        decreases heads.len() - k,
    {
        let expires_at = heads[k];
        let chain = chain_of(options, expires_at);
        let ghost before = groups@;
        groups.insert(expires_at, chain);
        proof {
            assert(groups@ == before.insert(expires_at, chain));
            assert forall|t: Timestamp| groups@.contains_key(t) implies exists|n: int|
                0 <= n < k + 1 && #[trigger] heads@[n] == t by {
                if t == expires_at {
                    assert(heads@[k as int] == t);
                } else {
                    assert(before.contains_key(t));
                    let n = choose|n: int| 0 <= n < k && #[trigger] heads@[n] == t;
                    assert(heads@[n] == t);
                }
            }
            assert forall|t: Timestamp|
                (exists|n: int| 0 <= n < k + 1 && #[trigger] heads@[n] == t) implies groups@.contains_key(
                t,
            ) by {
                let n = choose|n: int| 0 <= n < k + 1 && #[trigger] heads@[n] == t;
                if n < k {
                    assert(before.contains_key(t));
                }
            }
        }
        k += 1;
    }
    proof {
        assert forall|t: Timestamp| groups@.contains_key(t) implies has_expiry(options@, t) by {
            let n = choose|n: int| 0 <= n < heads@.len() && #[trigger] heads@[n] == t;
            assert(heads@.contains(t));
            assert(expirations@.contains(t));
            let i = choose|i: int| 0 <= i < expirations@.len() && expirations@[i] == t;
            assert(options@[i].expires_at == t);
        }
        assert forall|t: Timestamp| has_expiry(options@, t) implies groups@.contains_key(t) by {
            let i = choose|i: int| 0 <= i < options@.len() && (#[trigger] options@[i]).expires_at == t;
            assert(expirations@[i] == t);
            assert(expirations@.contains(t));
            assert(heads@.contains(t));
            let n = choose|n: int| 0 <= n < heads@.len() && heads@[n] == t;
            assert(heads@[n] == t);
        }
    }
    groups
}

} // verus!
