//! One round of the byte oracle, as a state machine.
//!
//! A round flushes every slot of the probe buffer, runs the speculative read
//! once, times a read of every slot in ascending order, and reports the
//! fastest slot. Flushing, reading and timing are work on the machine that
//! this library does not do: the round says which step is due, the caller
//! performs it and tells the round that it is done, with the latency it
//! measured where the step was a timed read.

use crate::probe_buffer::{slot_address, ProbeBuffer, SLOT_COUNT};
use crate::timing::{fastest, fastest_slot, is_fastest, lemma_fastest_exists};
use vstd::prelude::*;

verus! {

/// Number of steps of a round before it reports: a flush and a timed read
/// for each slot, and the speculative read between them.
pub const ROUND_STEPS: usize = 513;

/// The part of a round that is under way.
#[derive(Clone, Copy, Debug, PartialEq, Eq)]
pub enum Phase {
    /// The slots are being evicted from the cache.
    Flushing,
    /// All slots are evicted; the speculative read is due.
    Speculating,
    /// The slots are being timed.
    Probing,
    /// All slots are timed; the guess is known.
    Finished,
}

/// The step that a round asks its caller to perform.
#[derive(Clone, Copy, Debug, PartialEq, Eq)]
pub enum Action {
    /// Evict the cache line that holds `address`.
    Flush { address: usize },
    /// Within a transaction, read the byte at `secret` and then read
    /// `probe_base + byte * PAGE_SIZE`; on an abort, fence and go on.
    Speculate { secret: usize, probe_base: usize },
    /// Time one read of `address`.
    Probe { address: usize },
    /// Nothing is left to do: the round guesses `guess`.
    Report { guess: u8 },
}

/// How far a round has come: its phase, the slot that the step now due
/// concerns, and the latencies measured so far, in slot order.
pub struct Progress {
    pub phase: Phase,
    pub slot: nat,
    pub measured: Seq<u64>,
}

impl Progress {
    /// A round of which no step has been performed.
    pub open spec fn start() -> Progress {
        Progress { phase: Phase::Flushing, slot: 0, measured: Seq::empty() }
    }

    /// The progress after the step now due has been performed, where
    /// `cycles` is the latency measured if that step was a timed read.
    pub open spec fn step(self, cycles: u64) -> Progress {
        match self.phase {
            Phase::Flushing => if self.slot + 1 < SLOT_COUNT {
                Progress { slot: self.slot + 1, ..self }
            } else {
                Progress { phase: Phase::Speculating, slot: 0, ..self }
            },
            Phase::Speculating => Progress { phase: Phase::Probing, slot: 0, ..self },
            Phase::Probing => if self.slot + 1 < SLOT_COUNT {
                Progress { slot: self.slot + 1, measured: self.measured.push(cycles), ..self }
            } else {
                Progress { phase: Phase::Finished, slot: 0, measured: self.measured.push(cycles) }
            },
            Phase::Finished => self,
        }
    }

    /// The progress after one step for each of `events`, in order.
    pub open spec fn run(self, events: Seq<u64>) -> Progress
        decreases events.len(),
    {
        if events.len() == 0 {
            self
        } else {
            self.run(events.drop_last()).step(events.last())
        }
    }

    /// The step that is due for a round on the buffer at `base` that is
    /// after the byte at `secret`.
    pub open spec fn pending(self, base: usize, secret: usize) -> Action {
        match self.phase {
            Phase::Flushing => Action::Flush {
                address: slot_address(base as int, self.slot as int) as usize,
            },
            Phase::Speculating => Action::Speculate { secret, probe_base: base },
            Phase::Probing => Action::Probe {
                address: slot_address(base as int, self.slot as int) as usize,
            },
            Phase::Finished => Action::Report { guess: fastest(self.measured) as u8 },
        }
    }

    /// What holds of the progress of every round.
    pub open spec fn reachable(self) -> bool {
        match self.phase {
            Phase::Flushing => self.slot < SLOT_COUNT && self.measured.len() == 0,
            Phase::Speculating => self.slot == 0 && self.measured.len() == 0,
            Phase::Probing => self.slot < SLOT_COUNT && self.measured.len() == self.slot,
            Phase::Finished => self.slot == 0 && self.measured.len() == SLOT_COUNT,
        }
    }
}

/// The progress of a round after `count` steps: the first 256 steps flush
/// the slots in ascending order, the next is the speculative read, the 256
/// after it time the slots in ascending order, and from then on the round is
/// finished and holds exactly the latencies of those timed reads.
pub proof fn lemma_round_schedule(events: Seq<u64>, count: int)
    requires
        0 <= count <= events.len(),
    ensures
        count < SLOT_COUNT ==> Progress::start().run(events.take(count)) == (Progress {
            phase: Phase::Flushing,
            slot: count as nat,
            measured: Seq::empty(),
        }),
        count == SLOT_COUNT ==> Progress::start().run(events.take(count)) == (Progress {
            phase: Phase::Speculating,
            slot: 0,
            measured: Seq::empty(),
        }),
        SLOT_COUNT < count < ROUND_STEPS ==> Progress::start().run(events.take(count)) == (Progress {
            phase: Phase::Probing,
            slot: (count - SLOT_COUNT - 1) as nat,
            measured: events.subrange(SLOT_COUNT + 1, count),
        }),
        ROUND_STEPS <= count ==> Progress::start().run(events.take(count)) == (Progress {
            phase: Phase::Finished,
            slot: 0,
            measured: events.subrange(SLOT_COUNT + 1, ROUND_STEPS as int),
        }),
        Progress::start().run(events.take(count)).reachable(),
    decreases count,
{
    if count > 0 {
        lemma_round_schedule(events, count - 1);
        let before = events.take(count - 1);
        let now = events.take(count);
        assert(now.drop_last() == before);
        if count == SLOT_COUNT + 1 {
            assert(events.subrange(SLOT_COUNT + 1, count) == Seq::<u64>::empty());
        } else if SLOT_COUNT + 1 < count <= ROUND_STEPS {
            assert(events.subrange(SLOT_COUNT + 1, count - 1).push(events[count - 1])
                == events.subrange(SLOT_COUNT + 1, count));
        }
    }
}

/// The step that a round asks for after `count` steps: first a flush of
/// each slot, from slot 0 up; then the speculative read of the secret; then a
/// timed read of each slot, from slot 0 up; and from then on the report.
pub proof fn lemma_round_actions(events: Seq<u64>, count: int, base: usize, secret: usize)
    requires
        0 <= count <= events.len(),
    ensures
        count < SLOT_COUNT ==> Progress::start().run(events.take(count)).pending(base, secret)
            == (Action::Flush { address: slot_address(base as int, count) as usize }),
        count == SLOT_COUNT ==> Progress::start().run(events.take(count)).pending(base, secret)
            == (Action::Speculate { secret, probe_base: base }),
        SLOT_COUNT < count < ROUND_STEPS ==> Progress::start().run(events.take(count)).pending(
            base,
            secret,
        ) == (Action::Probe {
            address: slot_address(base as int, count - SLOT_COUNT - 1) as usize,
        }),
        ROUND_STEPS <= count ==> Progress::start().run(events.take(count)).pending(base, secret)
            == (Action::Report {
            guess: fastest(events.subrange(SLOT_COUNT + 1, ROUND_STEPS as int)) as u8,
        }),
{
    lemma_round_schedule(events, count);
}

/// A round that is fed the latencies `times`, one for each slot, reports the
/// fastest slot of `times`, whatever it is told for its other steps.
pub proof fn lemma_round_reports_fastest(events: Seq<u64>, base: usize, secret: usize)
    requires
        events.len() == ROUND_STEPS,
    ensures
        Progress::start().run(events).pending(base, secret) == (Action::Report {
            guess: fastest(events.subrange(SLOT_COUNT + 1, ROUND_STEPS as int)) as u8,
        }),
        is_fastest(
            events.subrange(SLOT_COUNT + 1, ROUND_STEPS as int),
            fastest(events.subrange(SLOT_COUNT + 1, ROUND_STEPS as int)),
        ),
{
    lemma_round_schedule(events, ROUND_STEPS as int);
    assert(events.take(ROUND_STEPS as int) == events);
    lemma_fastest_exists(events.subrange(SLOT_COUNT + 1, ROUND_STEPS as int));
}

/// One round of the oracle against the byte at one address.
pub struct Round {
    buffer: ProbeBuffer,
    secret: usize,
    phase: Phase,
    cursor: usize,
    times: [u64; SLOT_COUNT],
    guess: u8,
}

impl Round {
    #[verifier::type_invariant]
    closed spec fn inv(&self) -> bool {
        match self.phase {
            Phase::Flushing => self.cursor < SLOT_COUNT,
            Phase::Speculating => self.cursor == 0,
            Phase::Probing => self.cursor < SLOT_COUNT,
            Phase::Finished => self.cursor == 0 && self.guess == fastest(self.times@),
        }
    }

    /// The probe buffer that the round works on.
    pub closed spec fn buffer(&self) -> ProbeBuffer {
        self.buffer
    }

    /// The address of the byte that the round is after.
    pub closed spec fn secret(&self) -> usize {
        self.secret
    }

    /// How far the round has come.
    pub closed spec fn progress(&self) -> Progress {
        Progress {
            phase: self.phase,
            slot: self.cursor as nat,
            measured: match self.phase {
                Phase::Flushing => Seq::empty(),
                Phase::Speculating => Seq::empty(),
                Phase::Probing => self.times@.take(self.cursor as int),
                Phase::Finished => self.times@,
            },
        }
    }

    /// The step that is due.
    pub open spec fn pending(&self) -> Action {
        self.progress().pending(self.buffer().base(), self.secret())
    }

    /// A round on `buffer` against the byte at `secret`, with every step
    /// still to do.
    pub fn new(buffer: ProbeBuffer, secret: usize) -> (round: Round)
        ensures
            round.buffer() == buffer,
            round.secret() == secret,
            round.progress() == Progress::start(),
    {
        Round {
            buffer,
            secret,
            phase: Phase::Flushing,
            cursor: 0,
            times: [0u64; SLOT_COUNT],
            guess: 0,
        }
    }

    /// The step that is due. Once the round is finished, this is the report
    /// of its guess.
    pub fn action(&self) -> (action: Action)
        ensures
            action == self.pending(),
            self.progress().reachable(),
    {
        proof {
            use_type_invariant(self);
        }
        match self.phase {
            Phase::Flushing => Action::Flush { address: self.buffer.slot(self.cursor as u8) },
            Phase::Speculating => Action::Speculate {
                secret: self.secret,
                probe_base: self.buffer.base(),
            },
            Phase::Probing => Action::Probe { address: self.buffer.slot(self.cursor as u8) },
            Phase::Finished => Action::Report { guess: self.guess },
        }
    }

    /// The guess of the round, once it is finished.
    pub fn guess(&self) -> (guess: Option<u8>)
        ensures
            guess is Some <==> self.progress().phase == Phase::Finished,
            guess matches Some(g) ==> is_fastest(self.progress().measured, g as int) && g
                == fastest(self.progress().measured),
    {
        proof {
            use_type_invariant(self);
        }
        match self.phase {
            Phase::Finished => {
                proof {
                    lemma_fastest_exists(self.times@);
                }
                Some(self.guess)
            },
            _ => None,
        }
    }

    /// Tells the round that the step that was due has been performed.
    /// `cycles` is the latency measured if that step was a timed read, and
    /// is ignored otherwise. A finished round stays as it is.
    pub fn advance(&mut self, cycles: u64)
        ensures
            final(self).buffer() == old(self).buffer(),
            final(self).secret() == old(self).secret(),
            final(self).progress() == old(self).progress().step(cycles),
    {
        proof {
            use_type_invariant(&*self);
        }
        let mut phase = self.phase;
        let mut cursor = self.cursor;
        let mut times = self.times;
        let mut guess = self.guess;
        match self.phase {
            Phase::Flushing => {
                if cursor + 1 < SLOT_COUNT {
                    cursor = cursor + 1;
                } else {
                    phase = Phase::Speculating;
                    cursor = 0;
                }
            },
            Phase::Speculating => {
                phase = Phase::Probing;
                assert(times@.take(0) == Seq::<u64>::empty());
            },
            Phase::Probing => {
                let ghost before = times@.take(cursor as int);
                times[cursor] = cycles;
                if cursor + 1 < SLOT_COUNT {
                    cursor = cursor + 1;
                    assert(times@.take(cursor as int) == before.push(cycles));
                } else {
                    assert(times@ == before.push(cycles));
                    phase = Phase::Finished;
                    cursor = 0;
                    guess = fastest_slot(&times);
                }
            },
            Phase::Finished => {},
        }
        *self = Round { buffer: self.buffer, secret: self.secret, phase, cursor, times, guess };
    }
}

} // verus!
