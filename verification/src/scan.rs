//! The range of addresses to recover, cut into lines.
//!
//! A range is walked in lines of [`LINE_LEN`] bytes. Every line is full but
//! the last, which holds what is left.

use crate::render::{dump_hex, line_text, LINE_LEN};
use vstd::prelude::*;
use vstd::slice::slice_subrange;

verus! {

/// Number of lines that `len` bytes take up.
pub open spec fn line_count(len: nat) -> nat {
    (len + LINE_LEN - 1) as nat / (LINE_LEN as nat)
}

/// Number of bytes on line `index` of a range of `len` bytes.
pub open spec fn line_len(len: nat, index: nat) -> nat {
    if (index + 1) * LINE_LEN <= len {
        LINE_LEN as nat
    } else {
        (len - index * LINE_LEN) as nat
    }
}

/// The bytes of `bytes` that stand on line `index`.
pub open spec fn line_bytes(bytes: Seq<u8>, index: nat) -> Seq<u8> {
    bytes.subrange(index * LINE_LEN, index * LINE_LEN + line_len(bytes.len(), index))
}

/// The text of every line of the dump of `bytes`, found from address
/// `start` on.
pub open spec fn dump_text(start: nat, bytes: Seq<u8>) -> Seq<Seq<char>> {
    Seq::new(
        line_count(bytes.len()),
        |index: int| line_text((start + index * LINE_LEN) as nat, line_bytes(bytes, index as nat)),
    )
}

/// The text of each of `lines`.
pub open spec fn texts(lines: Seq<String>) -> Seq<Seq<char>> {
    Seq::new(lines.len(), |index: int| lines[index]@)
}

/// The lines hold between one and [`LINE_LEN`] bytes each, all but the last
/// are full, and no range takes more lines than it needs: an empty range
/// takes none, and up to [`LINE_LEN`] bytes take one.
pub proof fn lemma_line_partition(len: nat, index: nat)
    requires
        index < line_count(len),
    ensures
        1 <= line_len(len, index) <= LINE_LEN,
        index * LINE_LEN + line_len(len, index) <= len,
        index + 1 < line_count(len) ==> line_len(len, index) == LINE_LEN,
        index + 1 == line_count(len) ==> index * LINE_LEN + line_len(len, index) == len,
        line_count(0) == 0,
        0 < len <= LINE_LEN ==> line_count(len) == 1,
{
}

/// Every byte of a range stands on exactly the line and in the column that
/// its offset gives.
pub proof fn lemma_lines_cover(bytes: Seq<u8>, offset: nat)
    requires
        offset < bytes.len(),
    ensures
        offset / (LINE_LEN as nat) < line_count(bytes.len()),
        offset % (LINE_LEN as nat) < line_len(bytes.len(), offset / (LINE_LEN as nat)),
        line_bytes(bytes, offset / (LINE_LEN as nat))[(offset % (LINE_LEN as nat)) as int]
            == bytes[offset as int],
{
}

/// One line of a range: where it starts and how many bytes it holds.
#[derive(Clone, Copy, Debug, PartialEq, Eq)]
pub struct Line {
    /// Address of the first byte of the line.
    pub address: usize,
    /// Offset of the first byte of the line from the start of the range.
    pub offset: usize,
    /// Number of bytes on the line.
    pub len: usize,
}

/// The bytes to recover: `len` bytes from address `start` on.
#[derive(Clone, Copy, Debug)]
pub struct SecretRange {
    start: usize,
    len: usize,
}

impl SecretRange {
    #[verifier::type_invariant]
    closed spec fn inv(&self) -> bool {
        self.start + self.len <= usize::MAX
    }

    /// Address of the first byte of the range.
    pub closed spec fn spec_start(&self) -> usize {
        self.start
    }

    /// Number of bytes of the range.
    pub closed spec fn spec_len(&self) -> usize {
        self.len
    }

    /// The range of `len` bytes from `start` on, if it ends within the
    /// address space.
    pub fn new(start: usize, len: usize) -> (range: Option<SecretRange>)
        ensures
            range is Some <==> start + len <= usize::MAX,
            range matches Some(r) ==> r.start() == start && r.len() == len,
    {
        if len <= usize::MAX - start {
            Some(SecretRange { start, len })
        } else {
            None
        }
    }

    /// Address of the first byte of the range.
    #[verifier::when_used_as_spec(spec_start)]
    pub fn start(&self) -> (start: usize)
        ensures
            start == self.start(),
            start + self.len() <= usize::MAX,
    {
        proof {
            use_type_invariant(self);
        }
        self.start
    }

    /// Number of bytes of the range.
    #[verifier::when_used_as_spec(spec_len)]
    pub fn len(&self) -> (len: usize)
        ensures
            len == self.len(),
            self.start() + len <= usize::MAX,
    {
        proof {
            use_type_invariant(self);
        }
        self.len
    }

    /// Number of lines that the range takes up.
    pub fn line_count(&self) -> (count: usize)
        ensures
            count == line_count(self.len() as nat),
    {
        let full = self.len / LINE_LEN;
        if self.len % LINE_LEN == 0 {
            full
        } else {
            full + 1
        }
    }

    /// Line `index` of the range, if the range has that many lines.
    pub fn line(&self, index: usize) -> (line: Option<Line>)
        ensures
            line is Some <==> index < line_count(self.len() as nat),
            line matches Some(l) ==> {
                &&& l.offset == index * LINE_LEN
                &&& l.address == self.start() + index * LINE_LEN
                &&& l.len == line_len(self.len() as nat, index as nat)
            },
    {
        proof {
            use_type_invariant(self);
        }
        if index < self.line_count() {
            let offset = index * LINE_LEN;
            let left = self.len - offset;
            let len = if left < LINE_LEN {
                left
            } else {
                LINE_LEN
            };
            Some(Line { address: self.start + offset, offset, len })
        } else {
            None
        }
    }

    /// Renders the whole range, of which `recovered` holds the bytes, one
    /// line of text for each line of the range. Nothing is rendered where
    /// `recovered` does not hold exactly one byte for each address.
    pub fn dump(&self, recovered: &[u8]) -> (lines: Option<Vec<String>>)
        ensures
            lines is Some <==> recovered@.len() == self.len(),
            lines matches Some(l) ==> texts(l@) == dump_text(self.start() as nat, recovered@),
    {
        proof {
            use_type_invariant(self);
        }
        if recovered.len() != self.len {
            return None;
        }
        let count = self.line_count();
        let mut lines: Vec<String> = Vec::new();
        let mut index: usize = 0;
        while index < count
            invariant
                index <= count,
                count == line_count(self.len() as nat),
                recovered@.len() == self.len(),
                self.start() + self.len() <= usize::MAX,
                lines@.len() == index,
                forall|i: int|
                    0 <= i < index ==> (#[trigger] lines@[i])@ == dump_text(
                        self.start() as nat,
                        recovered@,
                    )[i],
            decreases count - index,
        {
            match self.line(index) {
                Some(line) => {
                    let bytes = slice_subrange(recovered, line.offset, line.offset + line.len);
                    let text = dump_hex(line.address, bytes);
                    lines.push(text);
                },
                None => {},
            }
            index = index + 1;
        }
        Some(lines)
    }
}

} // verus!
