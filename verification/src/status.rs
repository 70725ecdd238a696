//! The status word with which a hardware transaction begins.
//!
//! A transaction that starts hands back [`XBEGIN_STARTED`]. One that aborts
//! hands back a word whose low bits say why; several of them may be set at
//! once.

use vstd::prelude::*;

verus! {

/// The status of a transaction that has started.
pub const XBEGIN_STARTED: u32 = 0xFFFF_FFFF;

/// Abort bit: the transaction was aborted explicitly.
pub const XABORT_EXPLICIT: u32 = 0x01;

/// Abort bit: the transaction may succeed if retried.
pub const XABORT_RETRY: u32 = 0x02;

/// Abort bit: another processor touched memory that the transaction used.
pub const XABORT_CONFLICT: u32 = 0x04;

/// Abort bit: the transaction outgrew the buffers of the processor.
pub const XABORT_CAPACITY: u32 = 0x08;

/// Abort bit: a debug trap was hit.
pub const XABORT_DEBUG: u32 = 0x10;

/// Abort bit: the abort happened in a nested transaction.
pub const XABORT_NESTED: u32 = 0x20;

/// The reasons that an abort status gives.
#[derive(Clone, Copy, Debug, PartialEq, Eq)]
pub struct AbortCause {
    pub explicit: bool,
    pub retry: bool,
    pub conflict: bool,
    pub capacity: bool,
    pub debug: bool,
    pub nested: bool,
}

/// How an attempt to begin a transaction ended.
#[derive(Clone, Copy, Debug, PartialEq, Eq)]
pub enum BeginResult {
    /// The transaction runs: the speculative read may go ahead.
    Started,
    /// The transaction was aborted: fence, and make no further attempt in
    /// this round.
    Aborted(AbortCause),
}

/// Whether `status` has the bit `mask` set.
pub open spec fn has_bit(status: u32, mask: u32) -> bool {
    status & mask != 0
}

/// The reasons that the abort status `status` gives.
pub open spec fn abort_cause(status: u32) -> AbortCause {
    AbortCause {
        explicit: has_bit(status, XABORT_EXPLICIT),
        retry: has_bit(status, XABORT_RETRY),
        conflict: has_bit(status, XABORT_CONFLICT),
        capacity: has_bit(status, XABORT_CAPACITY),
        debug: has_bit(status, XABORT_DEBUG),
        nested: has_bit(status, XABORT_NESTED),
    }
}

/// What the status word `status` says.
pub open spec fn begin_result(status: u32) -> BeginResult {
    if status == XBEGIN_STARTED {
        BeginResult::Started
    } else {
        BeginResult::Aborted(abort_cause(status))
    }
}

impl BeginResult {
    /// Reads the status word that the begin of a transaction handed back.
    #[inline]
    pub fn from_status(status: u32) -> (result: BeginResult)
        ensures
            result == begin_result(status),
    {
        if status == XBEGIN_STARTED {
            BeginResult::Started
        } else {
            BeginResult::Aborted(
                AbortCause {
                    explicit: status & XABORT_EXPLICIT != 0,
                    retry: status & XABORT_RETRY != 0,
                    conflict: status & XABORT_CONFLICT != 0,
                    capacity: status & XABORT_CAPACITY != 0,
                    debug: status & XABORT_DEBUG != 0,
                    nested: status & XABORT_NESTED != 0,
                },
            )
        }
    }

    /// Whether the transaction runs.
    #[inline]
    pub fn is_started(&self) -> (started: bool)
        ensures
            started == (*self == BeginResult::Started),
    {
        match self {
            BeginResult::Started => true,
            BeginResult::Aborted(_) => false,
        }
    }
}

/// Only the status [`XBEGIN_STARTED`] lets the speculative read go ahead.
pub proof fn lemma_started_only_on_started_status(status: u32)
    ensures
        begin_result(status) == BeginResult::Started <==> status == XBEGIN_STARTED,
{
}

/// A status that is exactly one abort bit gives exactly that one reason.
pub proof fn lemma_single_abort_bits()
    ensures
        abort_cause(XABORT_EXPLICIT) == (AbortCause {
            explicit: true,
            retry: false,
            conflict: false,
            capacity: false,
            debug: false,
            nested: false,
        }),
        abort_cause(XABORT_RETRY) == (AbortCause {
            explicit: false,
            retry: true,
            conflict: false,
            capacity: false,
            debug: false,
            nested: false,
        }),
        abort_cause(XABORT_CONFLICT) == (AbortCause {
            explicit: false,
            retry: false,
            conflict: true,
            capacity: false,
            debug: false,
            nested: false,
        }),
        abort_cause(XABORT_CAPACITY) == (AbortCause {
            explicit: false,
            retry: false,
            conflict: false,
            capacity: true,
            debug: false,
            nested: false,
        }),
        abort_cause(XABORT_DEBUG) == (AbortCause {
            explicit: false,
            retry: false,
            conflict: false,
            capacity: false,
            debug: true,
            nested: false,
        }),
        abort_cause(XABORT_NESTED) == (AbortCause {
            explicit: false,
            retry: false,
            conflict: false,
            capacity: false,
            debug: false,
            nested: true,
        }),
{
    assert(1u32 & 1u32 != 0 && 1u32 & 2u32 == 0 && 1u32 & 4u32 == 0 && 1u32 & 8u32 == 0 && 1u32
        & 16u32 == 0 && 1u32 & 32u32 == 0) by (bit_vector);
    assert(2u32 & 1u32 == 0 && 2u32 & 2u32 != 0 && 2u32 & 4u32 == 0 && 2u32 & 8u32 == 0 && 2u32
        & 16u32 == 0 && 2u32 & 32u32 == 0) by (bit_vector);
    assert(4u32 & 1u32 == 0 && 4u32 & 2u32 == 0 && 4u32 & 4u32 != 0 && 4u32 & 8u32 == 0 && 4u32
        & 16u32 == 0 && 4u32 & 32u32 == 0) by (bit_vector);
    assert(8u32 & 1u32 == 0 && 8u32 & 2u32 == 0 && 8u32 & 4u32 == 0 && 8u32 & 8u32 != 0 && 8u32
        & 16u32 == 0 && 8u32 & 32u32 == 0) by (bit_vector);
    assert(16u32 & 1u32 == 0 && 16u32 & 2u32 == 0 && 16u32 & 4u32 == 0 && 16u32 & 8u32 == 0
        && 16u32 & 16u32 != 0 && 16u32 & 32u32 == 0) by (bit_vector);
    assert(32u32 & 1u32 == 0 && 32u32 & 2u32 == 0 && 32u32 & 4u32 == 0 && 32u32 & 8u32 == 0
        && 32u32 & 16u32 == 0 && 32u32 & 32u32 != 0) by (bit_vector);
}

} // verus!
