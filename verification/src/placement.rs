//! Where payloads are placed in a container: each starts on a sector boundary
//! behind the header sector and is padded up to the next boundary.

use crate::chunk::Chunk;
use vstd::prelude::*;

verus! {

/// The size of a Mode-1 CD-ROM sector, in bytes.
/// Because the components of FLD files are padded out to even sector boundaries,
/// this is useful to calculate offsets.
pub const SECTOR_LENGTH: usize = 2048;

/// How many padding bytes follow a payload of `length` bytes: none after a
/// payload that fills its sectors exactly, a whole sector after an empty one,
/// and otherwise what is missing to the next sector boundary.
pub open spec fn padding_after(length: int) -> int {
    if length > 0 && length % (SECTOR_LENGTH as int) == 0 {
        0
    } else {
        SECTOR_LENGTH - length % (SECTOR_LENGTH as int)
    }
}

/// The offset at which payload `i` starts when payloads of the given sizes
/// follow the header sector; for `i == sizes.len()`, where the file ends.
pub open spec fn cursor_at(sizes: Seq<usize>, i: int) -> int
    decreases i,
{
    if i <= 0 {
        SECTOR_LENGTH as int
    } else {
        cursor_at(sizes, i - 1) + sizes[i - 1] + padding_after(sizes[i - 1] as int)
    }
}

/// The entries that describe payloads of the given sizes.
pub open spec fn placed(sizes: Seq<usize>) -> Seq<Chunk> {
    Seq::new(
        sizes.len(),
        |i: int| Chunk { start: cursor_at(sizes, i) as u32, length: sizes[i] as u32 },
    )
}

/// Whether the entries describe payloads that lie behind the header sector,
/// each from a sector boundary on, none reaching into a later one.
pub open spec fn well_placed(entries: Seq<Chunk>) -> bool {
    &&& forall|i: int|
        0 <= i < entries.len() ==> (#[trigger] entries[i]).start as int % (SECTOR_LENGTH as int)
            == 0 && entries[i].start >= SECTOR_LENGTH
    &&& forall|i: int, j: int|
        0 <= i < j < entries.len() ==> (#[trigger] entries[i]).start + entries[i].length
            <= (#[trigger] entries[j]).start
}

/// Whether `gap` bytes behind a payload of `length` bytes end on a sector
/// boundary.
pub open spec fn ends_on_boundary(length: int, gap: int) -> bool {
    gap >= 0 && (length + gap) % (SECTOR_LENGTH as int) == 0
}

/// Every cursor is a sector boundary behind the header.
pub proof fn lemma_cursor_aligned(sizes: Seq<usize>, i: int)
    ensures
        cursor_at(sizes, i) % (SECTOR_LENGTH as int) == 0,
        cursor_at(sizes, i) >= SECTOR_LENGTH,
    decreases i,
{
    if i > 0 {
        lemma_cursor_aligned(sizes, i - 1);
    }
}

/// A later payload starts behind the end of every earlier one.
pub proof fn lemma_cursor_grows(sizes: Seq<usize>, i: int, j: int)
    requires
        0 <= i < j,
    ensures
        cursor_at(sizes, i) + sizes[i] + padding_after(sizes[i] as int) <= cursor_at(sizes, j),
        cursor_at(sizes, i) + sizes[i] <= cursor_at(sizes, j),
        cursor_at(sizes, i) < cursor_at(sizes, j),
    decreases j,
{
    if i < j - 1 {
        lemma_cursor_grows(sizes, i, j - 1);
    }
}

/// The entries placed for payloads whose file ends within the reach of a
/// 32-bit offset: one for each payload, with its size as the length; the
/// offsets are sector boundaries behind the header and grow strictly; each
/// payload is followed by its padding and then by the next payload.
pub proof fn lemma_placed(sizes: Seq<usize>)
    requires
        cursor_at(sizes, sizes.len() as int) <= u32::MAX,
    ensures
        placed(sizes).len() == sizes.len(),
        well_placed(placed(sizes)),
        forall|i: int|
            0 <= i < sizes.len() ==> (#[trigger] placed(sizes)[i]).length == sizes[i] && placed(
                sizes,
            )[i].start == cursor_at(sizes, i),
        forall|i: int, j: int|
            0 <= i < j < sizes.len() ==> (#[trigger] placed(sizes)[i]).start < (#[trigger] placed(
                sizes,
            )[j]).start,
        forall|i: int|
            0 <= i && i + 1 < sizes.len() ==> (#[trigger] placed(sizes)[i + 1]).start == placed(
                sizes,
            )[i].start + placed(sizes)[i].length + padding_after(placed(sizes)[i].length as int),
{
    let entries = placed(sizes);
    let n = sizes.len() as int;
    assert forall|k: int| 0 <= k < n implies (#[trigger] entries[k]).start == cursor_at(sizes, k)
        && entries[k].length == sizes[k] && entries[k].start as int % (SECTOR_LENGTH as int) == 0
        && entries[k].start >= SECTOR_LENGTH by {
        lemma_cursor_grows(sizes, k, n);
        lemma_cursor_aligned(sizes, k);
    }
    assert forall|a: int, b: int| 0 <= a < b < n implies (#[trigger] entries[a]).start
        + entries[a].length <= (#[trigger] entries[b]).start && entries[a].start
        < entries[b].start by {
        lemma_cursor_grows(sizes, a, b);
    }
}

/// The padding behind a payload brings the file to a sector boundary, and is
/// the least that does so unless the payload is empty, which takes a whole
/// sector.
pub proof fn lemma_padding_is_least(length: int)
    requires
        length >= 0,
    ensures
        0 <= padding_after(length) <= SECTOR_LENGTH,
        ends_on_boundary(length, padding_after(length)),
        length > 0 ==> forall|gap: int|
            #[trigger] ends_on_boundary(length, gap) ==> padding_after(length) <= gap,
        length > 0 && length % (SECTOR_LENGTH as int) == 0 ==> padding_after(length) == 0,
        length == 0 ==> padding_after(length) == SECTOR_LENGTH,
{
}

/// The gap between the end of payload `i` and the start of the next one (or
/// the end of the file, behind the last) is the padding for its size: it ends
/// on a sector boundary, and no smaller gap does unless the payload is empty.
pub proof fn lemma_gap_behind_payload(sizes: Seq<usize>, i: int)
    requires
        0 <= i < sizes.len(),
    ensures
        cursor_at(sizes, i + 1) - (cursor_at(sizes, i) + sizes[i]) == padding_after(
            sizes[i] as int,
        ),
        ends_on_boundary(cursor_at(sizes, i) + sizes[i], padding_after(sizes[i] as int)),
        sizes[i] > 0 ==> forall|gap: int| #[trigger]
            ends_on_boundary(cursor_at(sizes, i) + sizes[i], gap) ==> padding_after(
                sizes[i] as int,
            ) <= gap,
        sizes[i] > 0 && sizes[i] % SECTOR_LENGTH == 0 ==> padding_after(sizes[i] as int) == 0,
        sizes[i] == 0 ==> padding_after(sizes[i] as int) == SECTOR_LENGTH,
{
    lemma_cursor_aligned(sizes, i);
}

/// Computes how many bytes of padding follow a payload of `length` bytes.
pub fn padding_size(length: usize) -> (r: usize)
    ensures
        r == padding_after(length as int),
{
    let rest: usize = length % SECTOR_LENGTH;
    if length > 0 && rest == 0 {
        0
    } else {
        SECTOR_LENGTH - rest
    }
}

} // verus!
