//! One directory entry and its eight-byte wire form.

use crate::wire::{be_bytes, be_u32, lemma_be_round_trip, read_u32_be, write_u32_be};
use vstd::prelude::*;
use vstd::slice::slice_subrange;

verus! {

/// Why a header or an entry could not be read or written.
#[derive(Clone, Copy, Debug, PartialEq, Eq, Structural)]
pub enum FldError {
    /// Fewer bytes were supplied than the fixed layout takes.
    TruncatedInput,
    /// A group of bytes that is not padding could not be decoded.
    MalformedEntry,
    /// The entries do not fit into the single header sector.
    DirectoryTooLarge,
}

/// Represents a single data chunk within an FLD file.
/// An entry that was placed for a payload starts on a sector boundary; one
/// that was read from a header holds whatever the header held.
#[derive(Clone, Copy, Debug, PartialEq, Eq, Structural)]
pub struct Chunk {
    /// The offset of this chunk from the beginning of the file.
    pub start: u32,
    /// The length of this chunk: the size of the payload itself, without padding.
    pub length: u32,
}

impl Chunk {
    /// The eight bytes that stand for this entry: `start`, then `length`.
    pub open spec fn wire(self) -> Seq<u8> {
        be_bytes(self.start) + be_bytes(self.length)
    }

    /// The entry that the first eight bytes of `b` stand for.
    pub open spec fn from_wire(b: Seq<u8>) -> Chunk
        recommends
            b.len() >= 8,
    {
        Chunk { start: be_u32(b.subrange(0, 4)), length: be_u32(b.subrange(4, 8)) }
    }

    /// Every entry is recovered from its wire form.
    pub proof fn lemma_wire_round_trip(c: Chunk)
        ensures
            c.wire().len() == 8,
            Chunk::from_wire(c.wire()) == c,
    {
        lemma_be_round_trip(c.start);
        lemma_be_round_trip(c.length);
        assert(c.wire().subrange(0, 4) =~= be_bytes(c.start));
        assert(c.wire().subrange(4, 8) =~= be_bytes(c.length));
    }

    /// Parses a chunk from raw data.
    /// `data` should hold two 32-bit big endian integers, as read directly
    /// out of an FLD header; bytes after the eighth are not looked at.
    pub fn parse(data: &[u8]) -> (r: Result<Chunk, FldError>)
        ensures
            data@.len() < 8 ==> r == Err::<Chunk, FldError>(FldError::TruncatedInput),
            data@.len() >= 8 ==> r == Ok::<Chunk, FldError>(Chunk::from_wire(data@)),
    {
        if data.len() < 8 {
            return Err(FldError::TruncatedInput);
        }
        let head = slice_subrange(data, 0, 4);
        let tail = slice_subrange(data, 4, 8);
        let start = read_u32_be(head);
        let length = read_u32_be(tail);
        Ok(Chunk { start, length })
    }

    /// Serializes this Chunk into its binary representation.
    /// This never fails.
    pub fn serialize(&self) -> (r: Result<Vec<u8>, FldError>)
        ensures
            r is Ok,
            r.unwrap()@ == self.wire(),
            r.unwrap()@.len() == 8,
    {
        let mut writer: Vec<u8> = vec![0u8; 4];
        let mut second: Vec<u8> = vec![0u8; 4];
        write_u32_be(&mut writer, self.start);
        write_u32_be(&mut second, self.length);
        writer.append(&mut second);
        assert(writer@ =~= self.wire());
        Ok(writer)
    }
}

} // verus!
