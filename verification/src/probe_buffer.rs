//! The probe buffer: 256 page-sized slots, one for each value of a byte.
//!
//! The oracle tells the values of a byte apart by the page that a read
//! touches, so the buffer starts on a page boundary and slot `v` is the page
//! at `base + v * PAGE_SIZE`. Addresses are plain integers here; whoever
//! reads or flushes memory turns them into pointers.

use vstd::prelude::*;

verus! {

/// Number of slots of the probe buffer: one for each value of a byte.
pub const SLOT_COUNT: usize = 256;

/// The page size, in bytes, that the slot addressing is built on.
pub const PAGE_SIZE: usize = 4096;

/// Size in bytes of the probe buffer: [`SLOT_COUNT`] pages.
pub const PROBE_BUFFER_SIZE: usize = 1048576;

/// Size in bytes of a cache line.
pub const CACHE_LINE_SIZE: usize = 64;

/// Why the oracle cannot start.
#[derive(Clone, Copy, Debug, PartialEq, Eq)]
pub enum StartupError {
    /// The host's pages are `found` bytes, not [`PAGE_SIZE`].
    PageSize { found: usize },
    /// No usable probe buffer was allocated.
    ProbeBuffer,
}

/// Whether a probe buffer can start at `base`: the address is not null, lies
/// on a page boundary, and the whole buffer fits below the end of the
/// address space.
pub open spec fn valid_base(base: int) -> bool {
    &&& 0 < base
    &&& base % (PAGE_SIZE as int) == 0
    &&& base + PROBE_BUFFER_SIZE <= usize::MAX
}

/// The address of the slot for `value` in a buffer that starts at `base`.
pub open spec fn slot_address(base: int, value: int) -> int {
    base + value * PAGE_SIZE
}

/// Different values have their slots on different pages, and so on different
/// cache lines: a read of one slot never warms another.
pub proof fn lemma_slots_distinct(base: int, a: int, b: int)
    requires
        valid_base(base),
        0 <= a < SLOT_COUNT,
        0 <= b < SLOT_COUNT,
        a != b,
    ensures
        slot_address(base, a) / (PAGE_SIZE as int) != slot_address(base, b) / (PAGE_SIZE as int),
        slot_address(base, a) / (CACHE_LINE_SIZE as int) != slot_address(base, b) / (
        CACHE_LINE_SIZE as int),
{
}

/// Every slot is page-aligned and lies within the buffer.
pub proof fn lemma_slot_in_buffer(base: int, value: int)
    requires
        valid_base(base),
        0 <= value < SLOT_COUNT,
    ensures
        slot_address(base, value) % (PAGE_SIZE as int) == 0,
        base <= slot_address(base, value),
        slot_address(base, value) + PAGE_SIZE <= base + PROBE_BUFFER_SIZE,
        slot_address(base, value) / (PAGE_SIZE as int) == base / (PAGE_SIZE as int) + value,
{
}

/// A probe buffer, known by the address it starts at.
#[derive(Clone, Copy, Debug)]
pub struct ProbeBuffer {
    base: usize,
}

impl ProbeBuffer {
    #[verifier::type_invariant]
    closed spec fn inv(&self) -> bool {
        valid_base(self.base as int)
    }

    /// The address at which the buffer starts.
    pub closed spec fn spec_base(&self) -> usize {
        self.base
    }

    /// The buffer that starts at `base`, if a probe buffer can start there.
    pub fn new(base: usize) -> (buffer: Option<ProbeBuffer>)
        ensures
            buffer is Some <==> valid_base(base as int),
            buffer matches Some(b) ==> b.base() == base,
    {
        if base != 0 && base % PAGE_SIZE == 0 && base <= usize::MAX - PROBE_BUFFER_SIZE {
            Some(ProbeBuffer { base })
        } else {
            None
        }
    }

    /// The address at which the buffer starts.
    #[verifier::when_used_as_spec(spec_base)]
    pub fn base(&self) -> (base: usize)
        ensures
            base == self.base(),
            valid_base(base as int),
    {
        proof {
            use_type_invariant(self);
        }
        self.base
    }

    /// The address of the slot that stands for `value`.
    #[inline]
    pub fn slot(&self, value: u8) -> (address: usize)
        ensures
            address == slot_address(self.base() as int, value as int),
    {
        proof {
            use_type_invariant(self);
        }
        self.base + (value as usize) * PAGE_SIZE
    }
}

/// Checks the page size that the host reports against [`PAGE_SIZE`].
pub fn check_page_size(found: usize) -> (checked: Result<(), StartupError>)
    ensures
        found == PAGE_SIZE ==> checked is Ok,
        found != PAGE_SIZE ==> checked == Err::<(), StartupError>(StartupError::PageSize { found }),
{
    if found == PAGE_SIZE {
        Ok(())
    } else {
        Err(StartupError::PageSize { found })
    }
}

/// Takes the memory at `base` as the probe buffer, where `base` is what the
/// allocator answered to a request for [`PROBE_BUFFER_SIZE`] bytes aligned
/// to [`PAGE_SIZE`] (null on failure).
pub fn claim_probe_buffer(base: usize) -> (claimed: Result<ProbeBuffer, StartupError>)
    ensures
        valid_base(base as int) ==> claimed is Ok && claimed->Ok_0.base() == base,
        !valid_base(base as int) ==> claimed == Err::<ProbeBuffer, StartupError>(
            StartupError::ProbeBuffer,
        ),
{
    match ProbeBuffer::new(base) {
        Some(buffer) => Ok(buffer),
        None => Err(StartupError::ProbeBuffer),
    }
}

/// `page_size::get` of the crate `page_size`: the size in bytes of a memory
/// page as the operating system of the host reports it. The value depends on
/// the host, so nothing is claimed of it.
#[verifier::external_body]
fn host_page_size() -> (size: usize) {
    page_size::get()
}

/// Asks the host for its page size and checks it against [`PAGE_SIZE`].
/// An error, if any, is [`StartupError::PageSize`] and carries a size that
/// differs from [`PAGE_SIZE`].
pub fn check_host_page_size() -> (checked: Result<(), StartupError>)
    ensures
        checked matches Err(e) ==> e matches StartupError::PageSize { found } && found
            != PAGE_SIZE,
{
    check_page_size(host_page_size())
}

} // verus!
