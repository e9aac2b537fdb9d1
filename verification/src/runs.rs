//! Ordering integer keys and collapsing runs of equal keys.
//!
//! The two executable functions here hand the work to library code that is
//! not verified; their contracts are taken on trust.  Everything the rest of
//! the crate needs to know about their results is proved below from those
//! contracts.

use itertools::Itertools;
use vstd::prelude::*;

verus! {

/// No key is followed, anywhere later, by a smaller one.
pub open spec fn is_ascending(keys: Seq<i64>) -> bool {
    forall|i: int, j: int| 0 <= i <= j < keys.len() ==> keys[i] <= keys[j]
}

/// Every key is smaller than all keys after it.
pub open spec fn is_strictly_ascending(keys: Seq<i64>) -> bool {
    forall|i: int, j: int| 0 <= i < j < keys.len() ==> keys[i] < keys[j]
}

/// One key for each maximal run of consecutive equal keys, in order.
pub open spec fn run_heads(keys: Seq<i64>) -> Seq<i64>
    decreases keys.len(),
{
    if keys.len() == 0 {
        Seq::empty()
    } else {
        let earlier = run_heads(keys.drop_last());
        if keys.len() >= 2 && keys[keys.len() - 2] == keys.last() {
            earlier
        } else {
            earlier.push(keys.last())
        }
    }
}

/// Sorts the keys in place with the standard library's `sort_unstable` on
/// slices.  Trusted: afterwards the keys are in ascending order and are the
/// same keys, each as often as before.
#[verifier::external_body]
pub(crate) fn sort_keys(keys: &mut Vec<i64>)
    ensures
        is_ascending(final(keys)@),
        final(keys)@.to_multiset() == old(keys)@.to_multiset(),
{
    keys.sort_unstable();
}

/// Groups consecutive equal keys with `Itertools::group_by` and keeps the key
/// of each group.  Trusted: `group_by` puts consecutive elements with the same
/// key, and no others, into one group, and yields the groups in order, so the
/// keys that come out are exactly `run_heads` of the input.
#[verifier::external_body]
pub(crate) fn collapse_runs(keys: &Vec<i64>) -> (heads: Vec<i64>)
    ensures
        heads@ == run_heads(keys@),
{
    keys.iter().group_by(|key| **key).into_iter().map(|(key, _run)| key).collect()
}

/// The last run head of a non-empty sequence is its last key.
pub proof fn lemma_run_heads_end(keys: Seq<i64>)
    requires
        keys.len() > 0,
    ensures
        run_heads(keys).len() > 0,
        run_heads(keys).last() == keys.last(),
    decreases keys.len(),
{
    if keys.len() >= 2 && keys[keys.len() - 2] == keys.last() {
        lemma_run_heads_end(keys.drop_last());
    }
}

/// Collapsing runs neither loses a key nor invents one.
pub proof fn lemma_run_heads_same_members(keys: Seq<i64>)
    ensures
        forall|k: i64|
            #![trigger keys.contains(k)]
            #![trigger run_heads(keys).contains(k)]
            keys.contains(k) <==> run_heads(keys).contains(k),
    decreases keys.len(),
{
    if keys.len() > 0 {
        let front = keys.drop_last();
        let last = keys.last();
        let heads = run_heads(keys);
        lemma_run_heads_same_members(front);
        lemma_run_heads_end(keys);
        assert forall|k: i64| keys.contains(k) implies heads.contains(k) by {
            let i = choose|i: int| 0 <= i < keys.len() && keys[i] == k;
            if i < keys.len() - 1 {
                assert(front[i] == k);
                assert(front.contains(k));
                let h = choose|h: int| 0 <= h < run_heads(front).len() && run_heads(front)[h] == k;
                assert(heads[h] == k);
            } else {
                assert(heads[heads.len() - 1] == k);
            }
        }
        assert forall|k: i64| heads.contains(k) implies keys.contains(k) by {
            let h = choose|h: int| 0 <= h < heads.len() && heads[h] == k;
            if h < run_heads(front).len() {
                assert(run_heads(front)[h] == k);
                assert(run_heads(front).contains(k));
                let i = choose|i: int| 0 <= i < front.len() && front[i] == k;
                assert(keys[i] == k);
            } else {
                assert(keys[keys.len() - 1] == k);
            }
        }
    }
}

/// The run heads of ascending keys are strictly ascending.
pub proof fn lemma_run_heads_strict(keys: Seq<i64>)
    requires
        is_ascending(keys),
    ensures
        is_strictly_ascending(run_heads(keys)),
    decreases keys.len(),
{
    if keys.len() > 0 {
        let front = keys.drop_last();
        assert(is_ascending(front)) by {
            assert forall|i: int, j: int| 0 <= i <= j < front.len() implies front[i] <= front[j] by {
                assert(keys[i] <= keys[j]);
            }
        }
        lemma_run_heads_strict(front);
        if front.len() > 0 {
            lemma_run_heads_end(front);
            assert(keys[keys.len() - 2] <= keys[keys.len() - 1]);
        }
    }
}

/// Sorting keeps the set of keys: a key occurs after `sort_keys` exactly if it
/// occurred before.
pub proof fn lemma_same_multiset_same_members(before: Seq<i64>, after: Seq<i64>)
    requires
        after.to_multiset() == before.to_multiset(),
    ensures
        forall|k: i64|
            #![trigger before.contains(k)]
            #![trigger after.contains(k)]
            before.contains(k) <==> after.contains(k),
{
    before.to_multiset_ensures();
    after.to_multiset_ensures();
    assert forall|k: i64| before.contains(k) <==> after.contains(k) by {
        assert(before.contains(k) <==> before.to_multiset().count(k) > 0);
        assert(after.contains(k) <==> after.to_multiset().count(k) > 0);
    }
}

} // verus!
