//! The directory of a container: built from payload sizes, written to a
//! header sector and read back from one.

use crate::chunk::{Chunk, FldError};
use crate::header::{
    entries_from, fold_parts, header_bytes, header_entries, is_padding_group,
    lemma_joined_packed, lemma_packed_groups, GROUPS_PER_SECTOR, MAX_CHUNKS, PADDING_BYTE,
};
use crate::placement::{
    cursor_at, lemma_cursor_grows, lemma_placed, padding_after, padding_size, placed,
    well_placed, SECTOR_LENGTH,
};
use vstd::prelude::*;
use vstd::slice::slice_subrange;

verus! {

/// Represents the header of an FLD file.
/// A ChunkList is a simple collection of one or more data chunks, in the
/// order in which their payloads lie in the file.
pub struct ChunkList {
    pub chunks: Vec<Chunk>,
}

impl View for ChunkList {
    type V = Seq<Chunk>;

    /// The entries, in order.
    open spec fn view(&self) -> Seq<Chunk> {
        self.chunks@
    }
}

impl ChunkList {
    /// Builds a ChunkList given a list of file sizes.
    /// This will calculate offsets for each file to be packed
    /// within an FLD file and use that to generate a set of Chunks.
    /// The whole file must end within the reach of a 32-bit offset.
    pub fn build(files: &[usize]) -> (r: ChunkList)
        requires
            cursor_at(files@, files@.len() as int) <= u32::MAX,
        ensures
            r@ == placed(files@),
            r@.len() == files@.len(),
            well_placed(r@),
            forall|i: int|
                0 <= i < files@.len() ==> (#[trigger] r@[i]).length == files@[i] && r@[i].start
                    == cursor_at(files@, i),
            forall|i: int, j: int|
                0 <= i < j < files@.len() ==> (#[trigger] r@[i]).start < (#[trigger] r@[j]).start,
            forall|i: int|
                0 <= i && i + 1 < files@.len() ==> (#[trigger] r@[i + 1]).start == r@[i].start
                    + r@[i].length + padding_after(r@[i].length as int),
    {
        // We start at the beginning of a sector because
        // the header is padded to 2048 bytes.
        let mut index: usize = SECTOR_LENGTH;
        let mut chunks: Vec<Chunk> = Vec::new();
        let mut i: usize = 0;
        while i < files.len()
            invariant
                i <= files@.len(),
                index == cursor_at(files@, i as int),
                cursor_at(files@, files@.len() as int) <= u32::MAX,
                chunks@ == placed(files@).take(i as int),
            decreases files@.len() - i,
        {
            let file_length: usize = files[i];
            let padding: usize = padding_size(file_length);
            proof {
                lemma_cursor_grows(files@, i as int, files@.len() as int);
                if i + 1 < files@.len() {
                    lemma_cursor_grows(files@, i as int + 1, files@.len() as int);
                }
                assert(cursor_at(files@, i as int + 1) == index + file_length + padding);
            }
            chunks.push(Chunk { start: index as u32, length: file_length as u32 });
            // Pad up to an even sector boundary if necessary
            index = index + file_length + padding;
            i = i + 1;
            assert(chunks@ =~= placed(files@).take(i as int));
        }
        proof {
            assert(chunks@ =~= placed(files@));
            lemma_placed(files@);
        }
        ChunkList { chunks }
    }

    /// Tells whether payloads of these sizes can be placed: whether the file
    /// that holds them ends within the reach of a 32-bit offset.
    pub fn fits(files: &[usize]) -> (r: bool)
        ensures
            r == (cursor_at(files@, files@.len() as int) <= u32::MAX),
    {
        let mut index: u64 = SECTOR_LENGTH as u64;
        let mut i: usize = 0;
        while i < files.len()
            invariant
                i <= files@.len(),
                index == cursor_at(files@, i as int),
                index <= u32::MAX,
            decreases files@.len() - i,
        {
            let file_length: usize = files[i];
            proof {
                if i + 1 < files@.len() {
                    lemma_cursor_grows(files@, i as int + 1, files@.len() as int);
                }
            }
            if file_length > 0xFFFF_FFFF {
                return false;
            }
            let next: u64 = index + file_length as u64 + padding_size(file_length) as u64;
            if next > 0xFFFF_FFFF {
                return false;
            }
            index = next;
            i = i + 1;
        }
        true
    }

    /// Parses an FLD header from raw data, and returns a ChunkList.
    /// The header is one sector; the entries end at the first group of eight
    /// bytes which begins with `0xFF`, since FLD files are padded using sets
    /// of `0xFF`s.
    pub fn parse(data: &[u8]) -> (r: Result<ChunkList, FldError>)
        ensures
            data@.len() != SECTOR_LENGTH ==> r == Err::<ChunkList, FldError>(
                FldError::TruncatedInput,
            ),
            data@.len() == SECTOR_LENGTH ==> r is Ok && r.unwrap()@ == header_entries(data@),
    {
        if data.len() != SECTOR_LENGTH {
            return Err(FldError::TruncatedInput);
        }
        let mut chunks: Vec<Chunk> = Vec::new();
        let mut i: usize = 0;
        let mut reading: bool = true;
        while reading && i < GROUPS_PER_SECTOR
            invariant
                i <= GROUPS_PER_SECTOR,
                data@.len() == SECTOR_LENGTH,
                reading ==> header_entries(data@) == chunks@ + entries_from(data@, i as int),
                !reading ==> header_entries(data@) == chunks@,
            decreases (GROUPS_PER_SECTOR - i) + (if reading { 1int } else { 0int }),
        {
            let group = slice_subrange(data, 8 * i, 8 * i + 8);
            if is_padding_group(group) {
                reading = false;
                assert(chunks@ + entries_from(data@, i as int) =~= chunks@);
            } else {
                match Chunk::parse(group) {
                    Ok(chunk) => {
                        assert(chunks@ + entries_from(data@, i as int) =~= chunks@.push(chunk)
                            + entries_from(data@, i as int + 1));
                        chunks.push(chunk);
                        i = i + 1;
                    },
                    Err(_) => {
                        return Err(FldError::MalformedEntry);
                    },
                }
            }
        }
        assert(chunks@ + entries_from(data@, GROUPS_PER_SECTOR as int) =~= chunks@);
        Ok(ChunkList { chunks })
    }

    /// Serializes this ChunkList into its binary representation: one sector.
    /// Fails where the entries would leave no room for padding.
    pub fn serialize(&self) -> (r: Result<Vec<u8>, FldError>)
        ensures
            self@.len() > MAX_CHUNKS ==> r == Err::<Vec<u8>, FldError>(
                FldError::DirectoryTooLarge,
            ),
            self@.len() <= MAX_CHUNKS ==> r is Ok && r.unwrap()@ == header_bytes(self@)
                && r.unwrap()@.len() == SECTOR_LENGTH,
    {
        if self.chunks.len() > MAX_CHUNKS {
            return Err(FldError::DirectoryTooLarge);
        }
        let mut parts: Vec<Result<Vec<u8>, FldError>> = Vec::new();
        let mut i: usize = 0;
        while i < self.chunks.len()
            invariant
                i <= self.chunks@.len(),
                parts@.len() == i,
                forall|k: int|
                    0 <= k < i ==> (#[trigger] parts@[k]) is Ok && parts@[k].unwrap()@
                        == self.chunks@[k].wire(),
            decreases self.chunks@.len() - i,
        {
            let part = self.chunks[i].serialize();
            parts.push(part);
            i = i + 1;
        }
        proof {
            lemma_joined_packed(parts@, self.chunks@);
            lemma_packed_groups(self.chunks@);
        }
        match fold_parts(parts) {
            Err(e) => Err(e),
            Ok(entries) => {
                let mut serialized = entries;
                // Pad out with FFs to reach an even sector boundary.
                serialized.resize(SECTOR_LENGTH, PADDING_BYTE);
                assert(serialized@ =~= header_bytes(self.chunks@));
                Ok(serialized)
            },
        }
    }

    /// The number of entries.
    pub fn len(&self) -> (n: usize)
        ensures
            n == self@.len(),
    {
        self.chunks.len()
    }

    /// The entry of the `index`-th payload, if there is one.
    pub fn get(&self, index: usize) -> (r: Option<Chunk>)
        ensures
            index < self@.len() ==> r == Some(self@[index as int]),
            index >= self@.len() ==> r is None,
    {
        if index < self.chunks.len() {
            Some(self.chunks[index])
        } else {
            None
        }
    }

    /// Gives up the list for its entries, in order.
    pub fn into_chunks(self) -> (r: Vec<Chunk>)
        ensures
            r@ == self@,
    {
        self.chunks
    }
}

} // verus!
