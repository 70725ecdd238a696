//! A simulated machine without noise, to run the oracle on.
//!
//! The machine holds some readable memory and a cache. A read of a line
//! that is in the cache takes [`HIT_CYCLES`], any other read takes
//! [`MISS_CYCLES`] and brings the line in; a flush puts the line out. The
//! speculative read is a plain read of the memory: it brings in the slot of
//! the byte it finds, or nothing where the address holds no byte. Nothing
//! else ever touches the cache, so every round guesses right.

use crate::oracle::{Action, Phase, Progress, Round, ROUND_STEPS};
use crate::probe_buffer::{
    lemma_slots_distinct, slot_address, valid_base, ProbeBuffer, CACHE_LINE_SIZE, PAGE_SIZE,
    SLOT_COUNT,
};
use crate::render::dump_hex;
use crate::scan::{dump_text, line_bytes, texts, SecretRange};
use crate::timing::{fastest, lemma_lone_hit_is_fastest, lemma_no_signal_guesses_zero};
use crate::vote::{lemma_no_rounds_answers_zero, lemma_unanimous, Aggregator};
use std::collections::HashSet;
use vstd::prelude::*;
use vstd::std_specs::hash::group_hash_axioms;

verus! {

broadcast use group_hash_axioms;

/// Latency, in cycles, of a read that the cache answers.
pub const HIT_CYCLES: u64 = 40;

/// Latency, in cycles, of a read that goes to memory.
pub const MISS_CYCLES: u64 = 300;

/// The cache line that holds `address`.
pub open spec fn line_of(address: usize) -> usize {
    address / CACHE_LINE_SIZE
}

/// The latency of a read of `address` on a machine whose cache holds the
/// lines `cached`.
pub open spec fn probe_cycles(cached: Set<usize>, address: usize) -> u64 {
    if cached.contains(line_of(address)) {
        HIT_CYCLES
    } else {
        MISS_CYCLES
    }
}

/// The cache after a flush of `address`.
pub open spec fn after_flush(cached: Set<usize>, address: usize) -> Set<usize> {
    cached.remove(line_of(address))
}

/// The cache after a read of `address`.
pub open spec fn after_read(cached: Set<usize>, address: usize) -> Set<usize> {
    cached.insert(line_of(address))
}

/// Calibration: a read straight after a flush of the same address is slow,
/// a second read straight after it is fast, and the two latencies differ, so
/// that any threshold between them tells a cached line from an evicted one.
pub proof fn lemma_calibration(cached: Set<usize>, address: usize)
    ensures
        probe_cycles(after_flush(cached, address), address) == MISS_CYCLES,
        probe_cycles(after_read(after_flush(cached, address), address), address) == HIT_CYCLES,
        HIT_CYCLES < MISS_CYCLES,
{
}

/// Whether the speculative read found the byte whose slot is `value`.
pub open spec fn is_hit(hit: Option<u8>, value: int) -> bool {
    hit matches Some(byte) && byte == value
}

/// The latency that a timed read of the slot of `value` measures in a round
/// whose speculative read found `hit`.
pub open spec fn expected_cycles(hit: Option<u8>, value: int) -> u64 {
    if is_hit(hit, value) {
        HIT_CYCLES
    } else {
        MISS_CYCLES
    }
}

/// Whether the slot of `value`, in the buffer at `base`, is in the cache.
pub open spec fn slot_cached(cached: Set<usize>, base: usize, value: int) -> bool {
    cached.contains(line_of(slot_address(base as int, value) as usize))
}

/// What holds of the cache and of the latencies measured at each point of a
/// round on the simulated machine: the slots flushed so far are out of the
/// cache; after the speculative read exactly the slot that it found is in
/// it; and every slot timed so far measured what its place in the cache
/// gave.
spec fn round_holds(
    progress: Progress,
    cached: Set<usize>,
    base: usize,
    hit: Option<u8>,
) -> bool {
    &&& progress.reachable()
    &&& match progress.phase {
        Phase::Flushing => forall|j: int|
            0 <= j < progress.slot ==> !#[trigger] slot_cached(cached, base, j),
        Phase::Speculating => forall|j: int|
            0 <= j < SLOT_COUNT ==> !#[trigger] slot_cached(cached, base, j),
        Phase::Probing => {
            &&& forall|j: int|
                progress.slot <= j < SLOT_COUNT ==> (#[trigger] slot_cached(cached, base, j)
                    <==> is_hit(hit, j))
            &&& forall|j: int|
                0 <= j < progress.slot ==> #[trigger] progress.measured[j] == expected_cycles(
                    hit,
                    j,
                )
        },
        Phase::Finished => forall|j: int|
            0 <= j < SLOT_COUNT ==> #[trigger] progress.measured[j] == expected_cycles(hit, j),
    }
}

/// Number of steps that a round still asks for.
spec fn steps_left(progress: Progress) -> int {
    match progress.phase {
        Phase::Flushing => ROUND_STEPS - progress.slot,
        Phase::Speculating => SLOT_COUNT + 1,
        Phase::Probing => SLOT_COUNT - progress.slot,
        Phase::Finished => 0,
    }
}

/// The cache of the simulated machine after it has performed the step that
/// is due at `progress`, in a round on the buffer at `base` whose
/// speculative read finds `hit`.
spec fn cache_after_step(
    progress: Progress,
    cached: Set<usize>,
    base: usize,
    hit: Option<u8>,
) -> Set<usize> {
    let slot = slot_address(base as int, progress.slot as int) as usize;
    match progress.phase {
        Phase::Flushing => after_flush(cached, slot),
        Phase::Speculating => match hit {
            Some(byte) => after_read(cached, slot_address(base as int, byte as int) as usize),
            None => cached,
        },
        Phase::Probing => after_read(cached, slot),
        Phase::Finished => cached,
    }
}

/// One step of a round on the simulated machine keeps `round_holds` and
/// brings the round one step nearer to its end.
proof fn lemma_step_holds(
    before: Progress,
    cached: Set<usize>,
    base: usize,
    hit: Option<u8>,
    cycles: u64,
    cached_after: Set<usize>,
)
    requires
        valid_base(base as int),
        round_holds(before, cached, base, hit),
        before.phase != Phase::Finished,
        cached_after == cache_after_step(before, cached, base, hit),
        before.phase == Phase::Probing ==> cycles == probe_cycles(
            cached,
            slot_address(base as int, before.slot as int) as usize,
        ),
    ensures
        round_holds(before.step(cycles), cached_after, base, hit),
        0 <= steps_left(before.step(cycles)) < steps_left(before),
{
    let k = before.slot as int;
    assert forall|j: int| 0 <= j < SLOT_COUNT && j != k implies (#[trigger] slot_cached(
        cached_after,
        base,
        j,
    ) <==> (slot_cached(cached, base, j) || (before.phase == Phase::Speculating && is_hit(
        hit,
        j,
    )))) by {
        lemma_slots_distinct(base as int, j, k);
        match hit {
            Some(byte) => {
                if byte != j {
                    lemma_slots_distinct(base as int, j, byte as int);
                }
            },
            None => {},
        }
    }
    match before.phase {
        Phase::Speculating => {
            assert(!slot_cached(cached, base, 0));
            match hit {
                Some(byte) => {
                    if byte != 0 {
                        lemma_slots_distinct(base as int, 0, byte as int);
                    }
                },
                None => {},
            }
        },
        Phase::Probing => {
            assert(slot_cached(cached, base, k) <==> is_hit(hit, k));
        },
        _ => {},
    }
}

/// On the simulated machine a finished round has measured a single fast
/// slot, the one of the byte that the speculative read found, or none at
/// all; its guess is that byte, or 0.
proof fn lemma_noise_free_guess(measured: Seq<u64>, hit: Option<u8>)
    requires
        measured.len() == SLOT_COUNT,
        forall|j: int| 0 <= j < SLOT_COUNT ==> #[trigger] measured[j] == expected_cycles(hit, j),
    ensures
        fastest(measured) == match hit {
            Some(byte) => byte as int,
            None => 0,
        },
{
    match hit {
        Some(byte) => {
            lemma_lone_hit_is_fastest(measured, byte as int);
        },
        None => {
            lemma_no_signal_guesses_zero(measured);
        },
    }
}

/// A machine with readable memory and a cache, and nothing that disturbs
/// either.
pub struct SimulatedMachine {
    origin: usize,
    memory: Vec<u8>,
    resident: HashSet<usize>,
}

impl SimulatedMachine {
    /// Address of the first byte of the memory.
    pub closed spec fn origin(&self) -> usize {
        self.origin
    }

    /// The bytes of the memory, from `origin` on.
    pub closed spec fn memory(&self) -> Seq<u8> {
        self.memory@
    }

    /// The cache lines that are in the cache.
    pub closed spec fn cached(&self) -> Set<usize> {
        self.resident@
    }

    /// The byte at `address`, if the memory holds one there.
    pub open spec fn byte_at(&self, address: usize) -> Option<u8> {
        if self.origin() <= address < self.origin() + self.memory().len() {
            Some(self.memory()[address - self.origin()])
        } else {
            None
        }
    }

    /// What the oracle recovers at `address`: the byte there, or 0 where
    /// the memory holds none, since then no slot is brought in and the
    /// lowest slot wins the tie.
    pub open spec fn answer(&self, address: usize) -> u8 {
        match self.byte_at(address) {
            Some(byte) => byte,
            None => 0,
        }
    }

    /// The address that the speculative read of `secret` brings into the
    /// cache, if any: the slot, in the buffer at `probe_base`, of the byte
    /// at `secret`.
    pub open spec fn speculative_target(&self, secret: usize, probe_base: usize) -> Option<
        usize,
    > {
        match self.byte_at(secret) {
            Some(byte) => if slot_address(probe_base as int, byte as int) <= usize::MAX {
                Some(slot_address(probe_base as int, byte as int) as usize)
            } else {
                None
            },
            None => None,
        }
    }

    /// What a scan of `len` bytes from `start` on recovers with `rounds`
    /// rounds for each byte.
    pub open spec fn recovered(&self, start: usize, len: usize, rounds: usize) -> Seq<u8> {
        Seq::new(
            len as nat,
            |offset: int|
                if rounds > 0 {
                    self.answer((start + offset) as usize)
                } else {
                    0u8
                },
        )
    }

    /// A machine whose memory holds `memory` from address `origin` on, with
    /// an empty cache. Bytes that would lie beyond the end of the address
    /// space have no address and are never read.
    pub fn new(origin: usize, memory: Vec<u8>) -> (machine: SimulatedMachine)
        ensures
            machine.origin() == origin,
            machine.memory() == memory@,
            machine.cached() == Set::<usize>::empty(),
    {
        SimulatedMachine { origin, memory, resident: HashSet::new() }
    }

    /// Reads the byte at `address`, if the memory holds one there.
    pub fn read(&self, address: usize) -> (byte: Option<u8>)
        ensures
            byte == self.byte_at(address),
    {
        if address >= self.origin && address - self.origin < self.memory.len() {
            Some(self.memory[address - self.origin])
        } else {
            None
        }
    }

    /// Whether the line of `address` is in the cache.
    pub fn is_cached(&self, address: usize) -> (hit: bool)
        ensures
            hit == self.cached().contains(line_of(address)),
    {
        let line = address / CACHE_LINE_SIZE;
        self.resident.contains(&line)
    }

    /// Puts the line of `address` out of the cache.
    pub fn flush(&mut self, address: usize)
        ensures
            final(self).origin() == old(self).origin(),
            final(self).memory() == old(self).memory(),
            final(self).cached() == after_flush(old(self).cached(), address),
    {
        let line = address / CACHE_LINE_SIZE;
        self.resident.remove(&line);
    }

    /// Times one read of `address`, which brings its line into the cache.
    pub fn probe(&mut self, address: usize) -> (cycles: u64)
        ensures
            final(self).origin() == old(self).origin(),
            final(self).memory() == old(self).memory(),
            cycles == probe_cycles(old(self).cached(), address),
            final(self).cached() == after_read(old(self).cached(), address),
    {
        let line = address / CACHE_LINE_SIZE;
        let fresh = self.resident.insert(line);
        if fresh {
            MISS_CYCLES
        } else {
            HIT_CYCLES
        }
    }

    /// Stands in for the speculative read: reads the byte at `secret` and
    /// brings its slot of the buffer at `probe_base` into the cache. Where
    /// the memory holds no byte at `secret`, the cache stays as it is, as
    /// after an abort.
    pub fn speculate(&mut self, secret: usize, probe_base: usize)
        ensures
            final(self).origin() == old(self).origin(),
            final(self).memory() == old(self).memory(),
            final(self).cached() == match old(self).speculative_target(secret, probe_base) {
                Some(target) => after_read(old(self).cached(), target),
                None => old(self).cached(),
            },
    {
        match self.read(secret) {
            Some(byte) => {
                let offset = (byte as usize) * PAGE_SIZE;
                if offset <= usize::MAX - probe_base {
                    let line = (probe_base + offset) / CACHE_LINE_SIZE;
                    self.resident.insert(line);
                }
            },
            None => {},
        }
    }

    /// Performs one step of a round and hands back the latency measured,
    /// which is 0 for every step but a timed read.
    pub fn perform(&mut self, action: Action) -> (cycles: u64)
        ensures
            final(self).origin() == old(self).origin(),
            final(self).memory() == old(self).memory(),
            match action {
                Action::Flush { address } => cycles == 0 && final(self).cached() == after_flush(
                    old(self).cached(),
                    address,
                ),
                Action::Speculate { secret, probe_base } => cycles == 0 && final(self).cached()
                    == match old(self).speculative_target(secret, probe_base) {
                    Some(target) => after_read(old(self).cached(), target),
                    None => old(self).cached(),
                },
                Action::Probe { address } => cycles == probe_cycles(old(self).cached(), address)
                    && final(self).cached() == after_read(old(self).cached(), address),
                Action::Report { guess } => cycles == 0 && final(self).cached() == old(
                    self,
                ).cached(),
            },
    {
        match action {
            Action::Flush { address } => {
                self.flush(address);
                0
            },
            Action::Speculate { secret, probe_base } => {
                self.speculate(secret, probe_base);
                0
            },
            Action::Probe { address } => self.probe(address),
            Action::Report { guess } => 0,
        }
    }

    /// Runs one round of the oracle against the byte at `secret`. On this
    /// machine the round always guesses what the memory holds there, whatever
    /// the cache held before.
    pub fn guess_byte_once(&mut self, buffer: &ProbeBuffer, secret: usize) -> (guess: u8)
        ensures
            final(self).origin() == old(self).origin(),
            final(self).memory() == old(self).memory(),
            guess == old(self).answer(secret),
    {
        let base = buffer.base();
        let ghost hit = self.byte_at(secret);
        let mut round = Round::new(*buffer, secret);
        loop
            invariant
                valid_base(base as int),
                round.buffer().base() == base,
                round.secret() == secret,
                self.origin() == old(self).origin(),
                self.memory() == old(self).memory(),
                hit == old(self).byte_at(secret),
                round_holds(round.progress(), self.cached(), base, hit),
            decreases steps_left(round.progress()),
        {
            let action = round.action();
            let ghost before = round.progress();
            let ghost cache_before = self.cached();
            match action {
                Action::Report { guess } => {
                    proof {
                        lemma_noise_free_guess(before.measured, hit);
                    }
                    return guess;
                },
                _ => {},
            }
            let cycles = self.perform(action);
            round.advance(cycles);
            proof {
                lemma_step_holds(before, cache_before, base, hit, cycles, self.cached());
            }
        }
    }

    /// Recovers the byte at `secret` by a vote over `rounds` rounds. With at
    /// least one round the answer is what the memory holds there; with none
    /// it is 0.
    pub fn guess_byte(&mut self, buffer: &ProbeBuffer, secret: usize, rounds: usize) -> (value:
        u8)
        ensures
            final(self).origin() == old(self).origin(),
            final(self).memory() == old(self).memory(),
            value == if rounds > 0 {
                old(self).answer(secret)
            } else {
                0u8
            },
    {
        let mut agg = Aggregator::new(rounds);
        let ghost right = self.answer(secret);
        while !agg.is_complete()
            invariant
                agg.rounds() == rounds,
                agg.history().len() <= rounds,
                forall|i: int| 0 <= i < agg.history().len() ==> agg.history()[i] == right,
                self.origin() == old(self).origin(),
                self.memory() == old(self).memory(),
                right == old(self).answer(secret),
            decreases agg.rounds() - agg.history().len(),
        {
            let guess = self.guess_byte_once(buffer, secret);
            agg.record(guess);
        }
        proof {
            lemma_unanimous(agg.history(), right);
            lemma_no_rounds_answers_zero();
            if rounds == 0 {
                assert(agg.history() == Seq::<u8>::empty());
            }
        }
        agg.verdict()
    }

    /// Recovers every byte of `range` with `rounds` rounds each and renders
    /// the range, one line of text for each line of the range.
    pub fn scan(&mut self, buffer: &ProbeBuffer, range: &SecretRange, rounds: usize) -> (lines: Vec<
        String,
    >)
        ensures
            final(self).origin() == old(self).origin(),
            final(self).memory() == old(self).memory(),
            texts(lines@) == dump_text(
                range.start() as nat,
                old(self).recovered(range.start(), range.len(), rounds),
            ),
    {
        let start = range.start();
        let len = range.len();
        let count = range.line_count();
        let ghost expected = self.recovered(start, len, rounds);
        let mut lines: Vec<String> = Vec::new();
        let mut index: usize = 0;
        while index < count
            invariant
                index <= count,
                count == crate::scan::line_count(len as nat),
                start == range.start(),
                len == range.len(),
                start + len <= usize::MAX,
                self.origin() == old(self).origin(),
                self.memory() == old(self).memory(),
                expected == old(self).recovered(start, len, rounds),
                lines@.len() == index,
                forall|i: int|
                    0 <= i < index ==> (#[trigger] lines@[i])@ == dump_text(
                        start as nat,
                        expected,
                    )[i],
            decreases count - index,
        {
            match range.line(index) {
                Some(line) => {
                    let mut bytes: Vec<u8> = Vec::new();
                    let mut column: usize = 0;
                    while column < line.len
                        invariant
                            column <= line.len,
                            line.offset + line.len <= len,
                            line.address == start + line.offset,
                            start + len <= usize::MAX,
                            self.origin() == old(self).origin(),
                            self.memory() == old(self).memory(),
                            expected == old(self).recovered(start, len, rounds),
                            bytes@.len() == column,
                            forall|k: int|
                                0 <= k < column ==> #[trigger] bytes@[k] == expected[line.offset
                                    + k],
                        decreases line.len - column,
                    {
                        let byte = self.guess_byte(buffer, line.address + column, rounds);
                        bytes.push(byte);
                        column = column + 1;
                    }
                    let text = dump_hex(line.address, bytes.as_slice());
                    lines.push(text);
                },
                None => {},
            }
            index = index + 1;
        }
        lines
    }
}

/// Determinism and idempotence: what a scan recovers, and so the text it
/// yields, depends on the memory and on the range alone. Two machines with
/// the same memory, such as one machine before and after an earlier scan,
/// yield the same text whatever their caches hold.
pub proof fn lemma_scan_repeatable(
    first: SimulatedMachine,
    second: SimulatedMachine,
    start: usize,
    len: usize,
    rounds: usize,
)
    requires
        first.origin() == second.origin(),
        first.memory() == second.memory(),
    ensures
        first.recovered(start, len, rounds) == second.recovered(start, len, rounds),
        dump_text(start as nat, first.recovered(start, len, rounds)) == dump_text(
            start as nat,
            second.recovered(start, len, rounds),
        ),
{
    assert(first.recovered(start, len, rounds) =~= second.recovered(start, len, rounds));
}

} // verus!
