//! Majority vote over the guesses of several rounds.
//!
//! One round of the oracle is noisy. The aggregator runs a fixed number of
//! rounds, counts how often each value was guessed, and answers with the
//! value guessed most often, the lowest such value where several tie.

use crate::probe_buffer::SLOT_COUNT;
use vstd::prelude::*;

verus! {

/// Number of rounds that the aggregator runs unless told otherwise.
pub const PROBE_COUNT: usize = 5;

/// The test that a guess is `value`.
pub open spec fn guessed(value: u8) -> spec_fn(u8) -> bool {
    |guess: u8| guess == value
}

/// Number of rounds, among `guesses`, that guessed `value`.
pub open spec fn votes(guesses: Seq<u8>, value: u8) -> nat {
    guesses.filter(guessed(value)).len()
}

/// No value has more votes than `value`, and no lower value has as many.
pub open spec fn is_winner(guesses: Seq<u8>, value: u8) -> bool {
    forall|other: u8|
        #![trigger votes(guesses, other)]
        votes(guesses, other) <= votes(guesses, value) && (other < value ==> votes(guesses, other)
            < votes(guesses, value))
}

/// The value that wins the vote over `guesses`.
pub open spec fn winner(guesses: Seq<u8>) -> u8 {
    choose|value: u8| is_winner(guesses, value)
}

/// One more round adds one vote to the value it guessed and none to any
/// other value.
pub proof fn lemma_votes_push(guesses: Seq<u8>, guess: u8, value: u8)
    ensures
        votes(guesses.push(guess), value) == votes(guesses, value) + (if guess == value {
            1nat
        } else {
            0nat
        }),
{
    guesses.lemma_filter_len_push(guessed(value), guess);
}

/// Before any round, no value has a vote.
pub proof fn lemma_votes_empty(value: u8)
    ensures
        votes(Seq::<u8>::empty(), value) == 0,
{
    reveal(Seq::filter);
}

/// The votes of two different values never add up to more than the number
/// of rounds.
pub proof fn lemma_votes_disjoint(guesses: Seq<u8>, a: u8, b: u8)
    requires
        a != b,
    ensures
        votes(guesses, a) + votes(guesses, b) <= guesses.len(),
    decreases guesses.len(),
{
    if guesses.len() > 0 {
        let shorter = guesses.drop_last();
        lemma_votes_disjoint(shorter, a, b);
        assert(shorter.push(guesses.last()) == guesses);
        lemma_votes_push(shorter, guesses.last(), a);
        lemma_votes_push(shorter, guesses.last(), b);
    }
}

/// Among the values below `bound`, picks the one that leads the vote.
proof fn lemma_leader_below(guesses: Seq<u8>, bound: int) -> (best: u8)
    requires
        1 <= bound <= SLOT_COUNT,
    ensures
        best < bound,
        forall|other: u8|
            #![trigger votes(guesses, other)]
            other < bound ==> votes(guesses, other) <= votes(guesses, best) && (other < best
                ==> votes(guesses, other) < votes(guesses, best)),
    decreases bound,
{
    if bound == 1 {
        0u8
    } else {
        let before = lemma_leader_below(guesses, bound - 1);
        let last = (bound - 1) as u8;
        if votes(guesses, last) > votes(guesses, before) {
            last
        } else {
            before
        }
    }
}

/// Every vote has a winner, and `winner` names it.
pub proof fn lemma_winner_exists(guesses: Seq<u8>)
    ensures
        is_winner(guesses, winner(guesses)),
{
    let best = lemma_leader_below(guesses, SLOT_COUNT as int);
    assert(is_winner(guesses, best));
}

/// At most one value wins a vote.
pub proof fn lemma_winner_unique(guesses: Seq<u8>, a: u8, b: u8)
    requires
        is_winner(guesses, a),
        is_winner(guesses, b),
    ensures
        a == b,
{
    if a < b {
        assert(votes(guesses, b) <= votes(guesses, a));
    } else if b < a {
        assert(votes(guesses, a) <= votes(guesses, b));
    }
}

/// Any value known to win the vote is the one that `winner` names.
pub proof fn lemma_winner_is(guesses: Seq<u8>, value: u8)
    requires
        is_winner(guesses, value),
    ensures
        winner(guesses) == value,
{
    lemma_winner_unique(guesses, value, winner(guesses));
}

/// A value with more votes than any other value wins.
pub proof fn lemma_plurality_wins(guesses: Seq<u8>, value: u8)
    requires
        forall|other: u8|
            #![trigger votes(guesses, other)]
            other != value ==> votes(guesses, other) < votes(guesses, value),
    ensures
        winner(guesses) == value,
{
    lemma_winner_is(guesses, value);
}

/// A value guessed in more than half of the rounds wins, whatever the other
/// rounds guessed.
pub proof fn lemma_strict_majority_wins(guesses: Seq<u8>, value: u8)
    requires
        2 * votes(guesses, value) > guesses.len(),
    ensures
        winner(guesses) == value,
{
    assert forall|other: u8| #![trigger votes(guesses, other)] other != value implies votes(
        guesses,
        other,
    ) < votes(guesses, value) by {
        lemma_votes_disjoint(guesses, other, value);
    }
    lemma_plurality_wins(guesses, value);
}

/// Where every round guessed `value`, all the votes are for `value`, and
/// `value` wins as soon as one round was run.
pub proof fn lemma_unanimous(guesses: Seq<u8>, value: u8)
    requires
        forall|i: int| 0 <= i < guesses.len() ==> guesses[i] == value,
    ensures
        votes(guesses, value) == guesses.len(),
        guesses.len() > 0 ==> winner(guesses) == value,
    decreases guesses.len(),
{
    if guesses.len() > 0 {
        let shorter = guesses.drop_last();
        lemma_unanimous(shorter, value);
        assert(shorter.push(guesses.last()) == guesses);
        lemma_votes_push(shorter, guesses.last(), value);
        lemma_strict_majority_wins(guesses, value);
    }
}

/// With no round run, the answer is 0: ties go to the lowest value.
pub proof fn lemma_no_rounds_answers_zero()
    ensures
        winner(Seq::<u8>::empty()) == 0,
{
    assert forall|other: u8| #![trigger votes(Seq::<u8>::empty(), other)] votes(
        Seq::<u8>::empty(),
        other,
    ) == 0 by {
        lemma_votes_empty(other);
    }
    lemma_winner_is(Seq::<u8>::empty(), 0);
}

/// The vote over the rounds run for one byte.
pub struct Aggregator {
    rounds: usize,
    recorded: usize,
    counts: [usize; SLOT_COUNT],
    history: Ghost<Seq<u8>>,
}

impl Aggregator {
    #[verifier::type_invariant]
    closed spec fn inv(&self) -> bool {
        &&& self.recorded == self.history@.len()
        &&& self.recorded <= self.rounds
        &&& forall|value: int|
            0 <= value < SLOT_COUNT ==> #[trigger] self.counts@[value] == votes(
                self.history@,
                value as u8,
            )
    }

    /// Number of rounds that this vote is made of.
    pub closed spec fn rounds(&self) -> nat {
        self.rounds as nat
    }

    /// The guesses recorded so far, oldest first.
    pub closed spec fn history(&self) -> Seq<u8> {
        self.history@
    }

    /// A vote over `rounds` rounds, none of them run yet.
    pub fn new(rounds: usize) -> (agg: Aggregator)
        ensures
            agg.rounds() == rounds,
            agg.history() == Seq::<u8>::empty(),
    {
        proof {
            assert forall|value: u8| votes(Seq::<u8>::empty(), value) == 0 by {
                lemma_votes_empty(value);
            }
        }
        Aggregator {
            rounds,
            recorded: 0,
            counts: [0usize; SLOT_COUNT],
            history: Ghost(Seq::empty()),
        }
    }

    /// Number of rounds still to run.
    pub fn remaining(&self) -> (left: usize)
        ensures
            left == self.rounds() - self.history().len(),
            self.history().len() <= self.rounds(),
    {
        proof {
            use_type_invariant(self);
        }
        self.rounds - self.recorded
    }

    /// Number of rounds recorded so far that guessed `value`.
    pub fn hits(&self, value: u8) -> (count: usize)
        ensures
            count == votes(self.history(), value),
    {
        proof {
            use_type_invariant(self);
        }
        self.counts[value as usize]
    }

    /// Whether every round of the vote has been recorded.
    pub fn is_complete(&self) -> (done: bool)
        ensures
            done == (self.history().len() == self.rounds()),
            self.history().len() <= self.rounds(),
    {
        proof {
            use_type_invariant(self);
        }
        self.recorded == self.rounds
    }

    /// Records the guess of one more round. Once the vote is complete,
    /// further guesses are ignored.
    pub fn record(&mut self, guess: u8)
        ensures
            final(self).rounds() == old(self).rounds(),
            final(self).history() == if old(self).history().len() < old(self).rounds() {
                old(self).history().push(guess)
            } else {
                old(self).history()
            },
    {
        proof {
            use_type_invariant(&*self);
        }
        if self.recorded < self.rounds {
            let ghost before = self.history@;
            let slot = guess as usize;
            let mut counts = self.counts;
            assert(votes(before, guess) <= before.len()) by {
                before.lemma_filter_len(guessed(guess));
            }
            counts[slot] = counts[slot] + 1;
            proof {
                assert forall|value: int| 0 <= value < SLOT_COUNT implies #[trigger] counts@[value]
                    == votes(before.push(guess), value as u8) by {
                    lemma_votes_push(before, guess, value as u8);
                }
            }
            *self = Aggregator {
                rounds: self.rounds,
                recorded: self.recorded + 1,
                counts,
                history: Ghost(before.push(guess)),
            };
        }
    }

    /// The value guessed most often in the rounds recorded so far, the
    /// lowest such value where several tie.
    pub fn verdict(&self) -> (value: u8)
        ensures
            is_winner(self.history(), value),
            value == winner(self.history()),
    {
        proof {
            use_type_invariant(self);
        }
        let mut best: usize = 0;
        let mut i: usize = 1;
        while i < SLOT_COUNT
            invariant
                1 <= i <= SLOT_COUNT,
                best < i,
                forall|j: int| 0 <= j < i ==> self.counts@[j] <= self.counts@[best as int],
                forall|j: int| 0 <= j < best ==> self.counts@[j] < self.counts@[best as int],
            decreases SLOT_COUNT - i,
        {
            if self.counts[i] > self.counts[best] {
                best = i;
            }
            i = i + 1;
        }
        let value = best as u8;
        proof {
            assert forall|other: u8| #![trigger votes(self.history@, other)] votes(
                self.history@,
                other,
            ) <= votes(self.history@, value) && (other < value ==> votes(self.history@, other)
                < votes(self.history@, value)) by {
                assert(self.counts@[other as int] == votes(self.history@, other));
            }
        }
        value
    }
}

impl Default for Aggregator {
    /// A vote over [`PROBE_COUNT`] rounds, none of them run yet.
    fn default() -> (agg: Aggregator)
        ensures
            agg.rounds() == PROBE_COUNT,
            agg.history() == Seq::<u8>::empty(),
    {
        Aggregator::new(PROBE_COUNT)
    }
}

/// Resolves one byte from the guesses of its rounds: the value guessed most
/// often, the lowest such value where several tie.
pub fn majority(guesses: &[u8]) -> (value: u8)
    ensures
        is_winner(guesses@, value),
        value == winner(guesses@),
{
    let mut agg = Aggregator::new(guesses.len());
    let mut i: usize = 0;
    while i < guesses.len()
        invariant
            i <= guesses@.len(),
            agg.rounds() == guesses@.len(),
            agg.history() == guesses@.take(i as int),
        decreases guesses@.len() - i,
    {
        agg.record(guesses[i]);
        i = i + 1;
    }
    assert(guesses@.take(guesses@.len() as int) == guesses@);
    agg.verdict()
}

} // verus!
