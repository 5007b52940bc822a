//! The header sector: the entries of a directory in their wire form, one
//! after the other, then padding up to the end of the sector.

use crate::chunk::{Chunk, FldError};
use crate::placement::{cursor_at, lemma_cursor_aligned, placed, SECTOR_LENGTH};
use crate::wire::{be_bytes, lemma_be_leading_byte};
use itertools::Itertools;
use vstd::prelude::*;

verus! {

/// The most entries that a header may hold: one group of the sector always
/// stays padding, so that the end of the entries can be told.
pub const MAX_CHUNKS: usize = 255;

/// The byte that fills a header after its entries, and a payload's last sector.
pub const PADDING_BYTE: u8 = 0xFF;

/// The least offset that a header cannot hold: the wire form of an entry
/// from here on begins with the padding byte.
pub const START_LIMIT: u32 = 0xFF00_0000;

/// Number of eight-byte groups in a header sector.
pub const GROUPS_PER_SECTOR: usize = 256;

/// Whether a group of header bytes is padding: its first byte is `0xFF`.
/// An entry whose offset is `START_LIMIT` or more cannot be told from it.
pub open spec fn is_padding(group: Seq<u8>) -> bool {
    group.len() > 0 && group[0] == PADDING_BYTE
}

/// The `i`-th group of eight bytes of a header.
pub open spec fn group_at(header: Seq<u8>, i: int) -> Seq<u8> {
    header.subrange(8 * i, 8 * i + 8)
}

/// The entries that a header holds from group `i` on: those before the first
/// padding group.
pub open spec fn entries_from(header: Seq<u8>, i: int) -> Seq<Chunk>
    decreases GROUPS_PER_SECTOR - i,
{
    if i < 0 || i >= GROUPS_PER_SECTOR || is_padding(group_at(header, i)) {
        Seq::empty()
    } else {
        seq![Chunk::from_wire(group_at(header, i))] + entries_from(header, i + 1)
    }
}

/// The entries that a header sector holds.
pub open spec fn header_entries(header: Seq<u8>) -> Seq<Chunk>
    recommends
        header.len() == SECTOR_LENGTH,
{
    entries_from(header, 0)
}

/// The wire forms of the entries, one after the other.
pub open spec fn packed(entries: Seq<Chunk>) -> Seq<u8>
    decreases entries.len(),
{
    if entries.len() == 0 {
        Seq::empty()
    } else {
        packed(entries.drop_last()) + entries.last().wire()
    }
}

/// The header sector for the entries: their wire forms, then `0xFF` up to the
/// end of the sector.
pub open spec fn header_bytes(entries: Seq<Chunk>) -> Seq<u8>
    recommends
        entries.len() <= MAX_CHUNKS,
{
    packed(entries) + Seq::new((SECTOR_LENGTH - 8 * entries.len()) as nat, |i: int| PADDING_BYTE)
}

/// What folding the parts gives: all of them joined in order, or the first
/// error among them.
pub open spec fn joined(parts: Seq<Result<Vec<u8>, FldError>>) -> Result<Seq<u8>, FldError>
    decreases parts.len(),
{
    if parts.len() == 0 {
        Ok(Seq::empty())
    } else {
        match joined(parts.drop_last()) {
            Err(e) => Err(e),
            Ok(bytes) => match parts.last() {
                Ok(part) => Ok(bytes + part@),
                Err(e) => Err(e),
            },
        }
    }
}

/// Tells whether a group of header bytes is padding.
pub fn is_padding_group(group: &[u8]) -> (r: bool)
    ensures
        r == is_padding(group@),
{
    group.len() > 0 && group[0] == PADDING_BYTE
}

/// Joins two vectors: the items of `a`, then those of `b`.
pub fn fold_vecs<T>(a: Vec<T>, b: Vec<T>) -> (r: Vec<T>)
    ensures
        r@ == a@ + b@,
{
    let mut a = a;
    let mut b = b;
    a.append(&mut b);
    a
}

/// Calls `itertools`' `Itertools::fold_ok` on the parts, from an empty vector
/// and with `fold_vecs`. Trusted: it folds the `Ok` parts from the left and
/// stops at the first `Err`, which it returns; so the result is `joined` of
/// the parts.
#[verifier::external_body]
pub(crate) fn fold_parts(parts: Vec<Result<Vec<u8>, FldError>>) -> (r: Result<Vec<u8>, FldError>)
    ensures
        joined(parts@) is Ok ==> r is Ok && r->Ok_0@ == joined(parts@)->Ok_0,
        joined(parts@) is Err ==> r is Err && r->Err_0 == joined(parts@)->Err_0,
{
    parts.into_iter().fold_ok(Vec::new(), fold_vecs)
}

/// Folding the wire forms of the entries, none of which is an error, gives
/// the packed entries.
pub(crate) proof fn lemma_joined_packed(parts: Seq<Result<Vec<u8>, FldError>>, entries: Seq<Chunk>)
    requires
        parts.len() == entries.len(),
        forall|k: int|
            0 <= k < parts.len() ==> (#[trigger] parts[k]) is Ok && parts[k].unwrap()@
                == entries[k].wire(),
    ensures
        joined(parts) == Ok::<Seq<u8>, FldError>(packed(entries)),
    decreases parts.len(),
{
    if parts.len() > 0 {
        lemma_joined_packed(parts.drop_last(), entries.drop_last());
    }
}

/// The packed entries take eight bytes each, and group `i` of them is the wire
/// form of entry `i`.
pub proof fn lemma_packed_groups(entries: Seq<Chunk>)
    ensures
        packed(entries).len() == 8 * entries.len(),
        forall|i: int|
            0 <= i < entries.len() ==> #[trigger] group_at(packed(entries), i) == entries[i].wire(),
    decreases entries.len(),
{
    if entries.len() > 0 {
        let front = entries.drop_last();
        lemma_packed_groups(front);
        Chunk::lemma_wire_round_trip(entries.last());
        assert forall|i: int| 0 <= i < entries.len() implies #[trigger] group_at(
            packed(entries),
            i,
        ) == entries[i].wire() by {
            if i < front.len() {
                assert(group_at(packed(front), i) == front[i].wire());
                assert(group_at(packed(entries), i) =~= group_at(packed(front), i));
            } else {
                assert(group_at(packed(entries), i) =~= entries.last().wire());
            }
        }
    }
}

/// In the header sector for at most 255 entries, group `i` is the wire form
/// of entry `i`, and the group behind the last entry is padding.
pub proof fn lemma_header_groups(entries: Seq<Chunk>)
    requires
        entries.len() <= MAX_CHUNKS,
    ensures
        header_bytes(entries).len() == SECTOR_LENGTH,
        forall|i: int|
            0 <= i < entries.len() ==> #[trigger] group_at(header_bytes(entries), i)
                == entries[i].wire(),
        is_padding(group_at(header_bytes(entries), entries.len() as int)),
{
    lemma_packed_groups(entries);
    let header = header_bytes(entries);
    assert forall|i: int| 0 <= i < entries.len() implies #[trigger] group_at(header, i)
        == entries[i].wire() by {
        assert(group_at(packed(entries), i) == entries[i].wire());
        assert(group_at(header, i) =~= group_at(packed(entries), i));
    }
}

/// From group `i` on, the header written for the entries holds those from
/// `i` up to `k`, the place of the first entry that reads as padding.
proof fn lemma_entries_from_header(entries: Seq<Chunk>, i: int, k: int)
    requires
        entries.len() <= MAX_CHUNKS,
        0 <= i <= k <= entries.len(),
        forall|j: int| 0 <= j < k ==> (#[trigger] entries[j]).start < START_LIMIT,
        k < entries.len() ==> entries[k].start >= START_LIMIT,
    ensures
        entries_from(header_bytes(entries), i) == entries.subrange(i, k),
    decreases k - i,
{
    lemma_header_groups(entries);
    let header = header_bytes(entries);
    if i < entries.len() {
        let entry = entries[i];
        assert(group_at(header, i) == entry.wire());
        lemma_be_leading_byte(entry.start);
        assert(entry.wire()[0] == be_bytes(entry.start)[0]);
    }
    if i == k {
        assert(is_padding(group_at(header, i)));
        assert(entries_from(header, i) =~= entries.subrange(i, k));
    } else {
        let entry = entries[i];
        lemma_entries_from_header(entries, i + 1, k);
        Chunk::lemma_wire_round_trip(entry);
        assert(!is_padding(group_at(header, i)));
        assert(entries_from(header, i) =~= seq![entry] + entries.subrange(i + 1, k));
        assert(seq![entry] + entries.subrange(i + 1, k) =~= entries.subrange(i, k));
    }
}

/// Reading the header written for a directory of at most 255 entries gives
/// back the entries in front of the first one whose offset is `START_LIMIT`
/// or more: `k` is the place of that entry, or the number of entries where
/// there is none.
pub proof fn lemma_header_reads_back(entries: Seq<Chunk>, k: int)
    requires
        entries.len() <= MAX_CHUNKS,
        0 <= k <= entries.len(),
        forall|j: int| 0 <= j < k ==> (#[trigger] entries[j]).start < START_LIMIT,
        k < entries.len() ==> entries[k].start >= START_LIMIT,
    ensures
        header_bytes(entries).len() == SECTOR_LENGTH,
        header_entries(header_bytes(entries)) == entries.take(k),
{
    lemma_header_groups(entries);
    lemma_entries_from_header(entries, 0, k);
}

/// Reading the header written for a directory gives the directory back, for
/// every directory of at most 255 entries whose offsets all lie below
/// `START_LIMIT`. (An entry with a greater offset starts with the padding
/// byte, and reading stops in front of it.)
pub proof fn lemma_header_round_trip(entries: Seq<Chunk>)
    requires
        entries.len() <= MAX_CHUNKS,
        forall|k: int| 0 <= k < entries.len() ==> (#[trigger] entries[k]).start < START_LIMIT,
    ensures
        header_bytes(entries).len() == SECTOR_LENGTH,
        header_entries(header_bytes(entries)) == entries,
{
    lemma_header_reads_back(entries, entries.len() as int);
    assert(entries.take(entries.len() as int) =~= entries);
}

/// The same for a directory that was built from payload sizes: at most 255
/// of them, each payload starting below `START_LIMIT` and the file ending
/// within the reach of a 32-bit offset.
pub proof fn lemma_built_round_trip(sizes: Seq<usize>)
    requires
        sizes.len() <= MAX_CHUNKS,
        cursor_at(sizes, sizes.len() as int) <= u32::MAX,
        forall|k: int| 0 <= k < sizes.len() ==> #[trigger] cursor_at(sizes, k) < START_LIMIT,
    ensures
        header_entries(header_bytes(placed(sizes))) == placed(sizes),
{
    assert forall|k: int| 0 <= k < placed(sizes).len() implies (#[trigger] placed(
        sizes,
    )[k]).start < START_LIMIT by {
        lemma_cursor_aligned(sizes, k);
        assert(cursor_at(sizes, k) < START_LIMIT);
    }
    lemma_header_round_trip(placed(sizes));
}

/// The header of an empty directory is a sector of `0xFF`, and such a sector
/// holds no entry.
pub proof fn lemma_empty_header()
    ensures
        header_bytes(Seq::<Chunk>::empty()) == Seq::new(SECTOR_LENGTH as nat, |i: int| PADDING_BYTE),
        header_entries(Seq::new(SECTOR_LENGTH as nat, |i: int| PADDING_BYTE)) == Seq::<Chunk>::empty(),
{
    assert(header_bytes(Seq::<Chunk>::empty()) =~= Seq::new(SECTOR_LENGTH as nat, |i: int| PADDING_BYTE));
    assert(is_padding(group_at(Seq::new(SECTOR_LENGTH as nat, |i: int| PADDING_BYTE), 0)));
}

} // verus!
