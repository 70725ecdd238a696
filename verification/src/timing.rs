//! Selection of a round's guess from its timing vector.
//!
//! A timing vector holds one latency per slot of the probe buffer. The slot
//! that the speculative read pulled into the cache answers fastest, so the
//! guess is the slot of least latency, the lowest such slot where several
//! tie.

use crate::probe_buffer::SLOT_COUNT;
use vstd::prelude::*;

verus! {

/// `slot` holds the least latency of `times`, and no slot before it is as
/// fast.
pub open spec fn is_fastest(times: Seq<u64>, slot: int) -> bool {
    &&& 0 <= slot < times.len()
    &&& forall|j: int| 0 <= j < times.len() ==> times[slot] <= times[j]
    &&& forall|j: int| 0 <= j < slot ==> times[slot] < times[j]
}

/// The fastest slot of a timing vector that is not empty.
pub open spec fn fastest(times: Seq<u64>) -> int {
    choose|slot: int| is_fastest(times, slot)
}

/// At most one slot is the fastest.
pub proof fn lemma_fastest_unique(times: Seq<u64>, a: int, b: int)
    requires
        is_fastest(times, a),
        is_fastest(times, b),
    ensures
        a == b,
{
    if a < b {
        assert(times[a] <= times[b]);
    } else if b < a {
        assert(times[b] <= times[a]);
    }
}

/// A vector that is not empty has a fastest slot, and `fastest` names it.
pub proof fn lemma_fastest_exists(times: Seq<u64>)
    requires
        times.len() > 0,
    ensures
        is_fastest(times, fastest(times)),
    decreases times.len(),
{
    if times.len() == 1 {
        assert(is_fastest(times, 0));
    } else {
        let shorter = times.drop_last();
        lemma_fastest_exists(shorter);
        let best = fastest(shorter);
        let last = times.len() - 1;
        assert(forall|j: int| 0 <= j < shorter.len() ==> shorter[j] == times[j]);
        if times[last] < times[best] {
            assert(is_fastest(times, last));
        } else {
            assert(is_fastest(times, best));
        }
    }
}

/// Any slot known to be the fastest is the one that `fastest` names.
pub proof fn lemma_fastest_is(times: Seq<u64>, slot: int)
    requires
        is_fastest(times, slot),
    ensures
        fastest(times) == slot,
{
    lemma_fastest_unique(times, slot, fastest(times));
}

/// A single slot that is strictly faster than every other slot is the guess,
/// whatever the other latencies are.
pub proof fn lemma_lone_hit_is_fastest(times: Seq<u64>, hit: int)
    requires
        0 <= hit < times.len(),
        forall|j: int| 0 <= j < times.len() && j != hit ==> times[hit] < times[j],
    ensures
        fastest(times) == hit,
{
    lemma_fastest_is(times, hit);
}

/// A latency threshold that separates one slot from all the others makes
/// that slot the guess.
pub proof fn lemma_threshold_separates(times: Seq<u64>, hit: int, threshold: u64)
    requires
        0 <= hit < times.len(),
        times[hit] < threshold,
        forall|j: int| 0 <= j < times.len() && j != hit ==> threshold <= times[j],
    ensures
        fastest(times) == hit,
{
    lemma_lone_hit_is_fastest(times, hit);
}

/// Where no slot is faster than slot 0, the guess is 0: ties go to the
/// lowest slot.
pub proof fn lemma_no_signal_guesses_zero(times: Seq<u64>)
    requires
        times.len() > 0,
        forall|j: int| 0 <= j < times.len() ==> times[0] <= #[trigger] times[j],
    ensures
        fastest(times) == 0,
{
    lemma_fastest_is(times, 0);
}

/// Picks the guess of a round: the slot of least latency, the lowest one
/// among equals.
pub fn fastest_slot(times: &[u64; SLOT_COUNT]) -> (slot: u8)
    ensures
        is_fastest(times@, slot as int),
        slot as int == fastest(times@),
{
    let mut best: usize = 0;
    let mut i: usize = 1;
    while i < SLOT_COUNT
        invariant
            1 <= i <= SLOT_COUNT,
            times@.len() == SLOT_COUNT,
            best < i,
            is_fastest(times@.take(i as int), best as int),
        decreases SLOT_COUNT - i,
    {
        if times[i] < times[best] {
            best = i;
        }
        i = i + 1;
    }
    assert(times@.take(SLOT_COUNT as int) == times@);
    best as u8
}

} // verus!
