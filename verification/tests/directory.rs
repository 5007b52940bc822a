use fldtools::header::{fold_vecs, is_padding_group};
use fldtools::{
    padding_size, Chunk, ChunkList, FldError, MAX_CHUNKS, PADDING_BYTE, SECTOR_LENGTH, START_LIMIT,
};

fn entry(start: u32, length: u32) -> Chunk {
    Chunk { start, length }
}

fn header_of(groups: &[[u8; 8]]) -> Vec<u8> {
    let mut header = Vec::new();
    for group in groups {
        header.extend_from_slice(group);
    }
    header.resize(SECTOR_LENGTH, 0xFF);
    header
}

#[test]
fn sector_length_is_2048() {
    assert_eq!(SECTOR_LENGTH, 2048);
    assert_eq!(MAX_CHUNKS, 255);
    assert_eq!(PADDING_BYTE, 0xFF);
    assert_eq!(START_LIMIT, 0xFF00_0000);
}

#[test]
fn chunk_serialize_is_big_endian() {
    let bytes = entry(0x0102_0304, 0x0A0B_0C0D).serialize().unwrap();
    assert_eq!(bytes, vec![0x01, 0x02, 0x03, 0x04, 0x0A, 0x0B, 0x0C, 0x0D]);
}

#[test]
fn chunk_serialize_extremes() {
    assert_eq!(entry(0, 0).serialize().unwrap(), vec![0u8; 8]);
    assert_eq!(entry(u32::MAX, u32::MAX).serialize().unwrap(), vec![0xFFu8; 8]);
    assert_eq!(entry(2048, 1).serialize().unwrap(), vec![0, 0, 8, 0, 0, 0, 0, 1]);
}

#[test]
fn chunk_parse_is_big_endian() {
    let chunk = Chunk::parse(&[0x00, 0x00, 0x08, 0x00, 0x00, 0x00, 0x08, 0x01]).unwrap();
    assert_eq!(chunk, entry(2048, 2049));
    let chunk = Chunk::parse(&[0x01, 0x02, 0x03, 0x04, 0x0A, 0x0B, 0x0C, 0x0D]).unwrap();
    assert_eq!(chunk, entry(0x0102_0304, 0x0A0B_0C0D));
}

#[test]
fn chunk_parse_looks_at_eight_bytes_only() {
    let chunk = Chunk::parse(&[0, 0, 0, 1, 0, 0, 0, 2, 9, 9, 9]).unwrap();
    assert_eq!(chunk, entry(1, 2));
}

#[test]
fn chunk_parse_truncated() {
    assert_eq!(Chunk::parse(&[]), Err(FldError::TruncatedInput));
    assert_eq!(Chunk::parse(&[0, 0, 8]), Err(FldError::TruncatedInput));
    assert_eq!(Chunk::parse(&[0, 0, 8, 0]), Err(FldError::TruncatedInput));
    assert_eq!(Chunk::parse(&[0, 0, 8, 0, 0, 0, 8]), Err(FldError::TruncatedInput));
}

#[test]
fn chunk_round_trip() {
    for chunk in [entry(0, 0), entry(2048, 100), entry(0xFEFF_F800, 0xFFFF_FFFF), entry(u32::MAX, 7)] {
        let bytes = chunk.serialize().unwrap();
        assert_eq!(bytes.len(), 8);
        assert_eq!(Chunk::parse(&bytes), Ok(chunk));
    }
}

#[test]
fn padding_size_values() {
    assert_eq!(padding_size(0), 2048);
    assert_eq!(padding_size(1), 2047);
    assert_eq!(padding_size(100), 1948);
    assert_eq!(padding_size(2047), 1);
    assert_eq!(padding_size(2048), 0);
    assert_eq!(padding_size(2049), 2047);
    assert_eq!(padding_size(4096), 0);
    assert_eq!(padding_size(5000), 1144);
}

#[test]
fn padding_reaches_the_next_boundary() {
    for length in 1usize..5000 {
        let gap = padding_size(length);
        assert!(gap < SECTOR_LENGTH);
        assert_eq!((length + gap) % SECTOR_LENGTH, 0);
    }
}

#[test]
fn build_empty() {
    let list = ChunkList::build(&[]);
    assert_eq!(list.chunks, Vec::<Chunk>::new());
    assert_eq!(list.len(), 0);
}

#[test]
fn build_sector_sized_payload() {
    let list = ChunkList::build(&[2048]);
    assert_eq!(list.chunks, vec![entry(2048, 2048)]);
    let header = list.serialize().unwrap();
    assert_eq!(header.len(), SECTOR_LENGTH);
    assert_eq!(&header[..8], &[0x00, 0x00, 0x08, 0x00, 0x00, 0x00, 0x08, 0x00]);
    assert_eq!(&header[8..], &[0xFFu8; 2040][..]);
}

#[test]
fn build_sector_sized_payload_gets_no_padding() {
    let list = ChunkList::build(&[2048, 1, 4096, 1]);
    assert_eq!(
        list.chunks,
        vec![entry(2048, 2048), entry(4096, 1), entry(6144, 4096), entry(10240, 1)]
    );
}

#[test]
fn build_one_byte_over_a_sector() {
    let list = ChunkList::build(&[2049]);
    assert_eq!(list.chunks, vec![entry(2048, 2049)]);
    let list = ChunkList::build(&[2049, 1]);
    assert_eq!(list.chunks, vec![entry(2048, 2049), entry(6144, 1)]);
}

#[test]
fn build_two_payloads() {
    let list = ChunkList::build(&[100, 5000]);
    assert_eq!(list.chunks, vec![entry(2048, 100), entry(4096, 5000)]);
    let list = ChunkList::build(&[100, 5000, 3]);
    assert_eq!(list.chunks[2], entry(10240, 3));
}

#[test]
fn build_empty_payload_takes_a_sector() {
    let list = ChunkList::build(&[0, 5, 0, 0]);
    assert_eq!(
        list.chunks,
        vec![entry(2048, 0), entry(4096, 5), entry(6144, 0), entry(8192, 0)]
    );
}

#[test]
fn build_starts_are_aligned_and_increasing() {
    let sizes = [0usize, 1, 2047, 2048, 2049, 4095, 4096, 4097, 100_000, 0, 7];
    let list = ChunkList::build(&sizes);
    assert_eq!(list.len(), sizes.len());
    for (i, chunk) in list.chunks.iter().enumerate() {
        assert_eq!(chunk.length as usize, sizes[i]);
        assert_eq!(chunk.start as usize % SECTOR_LENGTH, 0);
        if i > 0 {
            let before = list.chunks[i - 1];
            assert!(before.start < chunk.start);
            assert_eq!(
                chunk.start as usize,
                before.start as usize + sizes[i - 1] + padding_size(sizes[i - 1])
            );
        }
    }
}

#[test]
fn fits_tells_what_build_takes() {
    assert!(ChunkList::fits(&[]));
    assert!(ChunkList::fits(&[100, 5000]));
    // The file may end at 0xFFFF_F800, the last boundary of a 32-bit offset.
    assert!(ChunkList::fits(&[0xFFFF_F000]));
    assert!(!ChunkList::fits(&[0xFFFF_F001]));
    assert!(!ChunkList::fits(&[0xFFFF_FFFF]));
    assert!(!ChunkList::fits(&[0x8000_0000, 0x8000_0000]));
    assert!(!ChunkList::fits(&[usize::MAX]));
    assert!(!ChunkList::fits(&[usize::MAX, 1, 2]));
}

#[test]
fn build_up_to_the_last_boundary() {
    let list = ChunkList::build(&[0xFFFF_E800, 2048]);
    assert_eq!(list.chunks, vec![entry(2048, 0xFFFF_E800), entry(0xFFFF_F000, 2048)]);
}

#[test]
fn serialize_empty_is_all_padding() {
    let header = ChunkList { chunks: vec![] }.serialize().unwrap();
    assert_eq!(header, vec![0xFFu8; SECTOR_LENGTH]);
    let list = ChunkList::parse(&header).unwrap();
    assert_eq!(list.chunks, Vec::<Chunk>::new());
}

#[test]
fn serialize_two_entries() {
    let header = ChunkList::build(&[100, 5000]).serialize().unwrap();
    assert_eq!(header.len(), SECTOR_LENGTH);
    assert_eq!(
        &header[..16],
        &[0, 0, 0x08, 0, 0, 0, 0, 100, 0, 0, 0x10, 0, 0, 0, 0x13, 0x88]
    );
    assert!(header[16..].iter().all(|byte| *byte == 0xFF));
}

#[test]
fn serialize_255_entries_fills_all_but_one_group() {
    let list = ChunkList::build(&[1usize; 255]);
    let header = list.serialize().unwrap();
    assert_eq!(header.len(), SECTOR_LENGTH);
    assert_eq!(&header[2032..2040], &[0, 0x07, 0xF8, 0, 0, 0, 0, 1]);
    assert_eq!(&header[2040..], &[0xFFu8; 8]);
}

#[test]
fn serialize_256_entries_is_too_large() {
    let list = ChunkList::build(&[1usize; 256]);
    assert_eq!(list.len(), 256);
    assert_eq!(list.serialize(), Err(FldError::DirectoryTooLarge));
    let list = ChunkList::build(&[1usize; 300]);
    assert_eq!(list.serialize(), Err(FldError::DirectoryTooLarge));
}

#[test]
fn parse_short_buffer_is_truncated() {
    assert_eq!(ChunkList::parse(&[]).err(), Some(FldError::TruncatedInput));
    assert_eq!(ChunkList::parse(&[0u8; 8]).err(), Some(FldError::TruncatedInput));
    assert_eq!(ChunkList::parse(&[0xFFu8; 2047]).err(), Some(FldError::TruncatedInput));
}

#[test]
fn parse_long_buffer_is_refused() {
    assert_eq!(ChunkList::parse(&[0xFFu8; 2049]).err(), Some(FldError::TruncatedInput));
    assert_eq!(ChunkList::parse(&[0u8; 4096]).err(), Some(FldError::TruncatedInput));
}

#[test]
fn parse_reads_entries_up_to_padding() {
    let header = header_of(&[[0, 0, 8, 0, 0, 0, 0, 100], [0, 0, 0x10, 0, 0, 0, 0x13, 0x88]]);
    let list = ChunkList::parse(&header).unwrap();
    assert_eq!(list.chunks, vec![entry(2048, 100), entry(4096, 5000)]);
}

#[test]
fn parse_stops_at_the_first_padding_group() {
    let header = header_of(&[
        [0, 0, 8, 0, 0, 0, 0, 1],
        [0xFF, 0xFF, 0xFF, 0xFF, 0xFF, 0xFF, 0xFF, 0xFF],
        [0, 0, 0x10, 0, 0, 0, 0, 2],
    ]);
    let list = ChunkList::parse(&header).unwrap();
    assert_eq!(list.chunks, vec![entry(2048, 1)]);
}

#[test]
fn parse_looks_at_the_first_byte_of_a_group_only() {
    let header = header_of(&[[0, 0xFF, 0xFF, 0xFF, 0xFF, 0xFF, 0xFF, 0xFF], [0xFF, 0, 0, 0, 0, 0, 0, 0]]);
    let list = ChunkList::parse(&header).unwrap();
    assert_eq!(list.chunks, vec![entry(0x00FF_FFFF, 0xFFFF_FFFF)]);
}

#[test]
fn parse_sector_without_padding_has_256_entries() {
    let list = ChunkList::parse(&[0u8; 2048]).unwrap();
    assert_eq!(list.len(), 256);
    assert!(list.chunks.iter().all(|chunk| *chunk == entry(0, 0)));
}

#[test]
fn round_trip_of_built_lists() {
    let mut sizes: Vec<usize> = Vec::new();
    for count in 0..=255usize {
        let list = ChunkList::build(&sizes);
        let header = list.serialize().unwrap();
        let back = ChunkList::parse(&header).unwrap();
        assert_eq!(back.chunks, list.chunks);
        sizes.push(count * 37 % 5000);
    }
}

#[test]
fn offset_from_0xff000000_reads_as_padding() {
    let list = ChunkList { chunks: vec![entry(2048, 5), entry(START_LIMIT, 5), entry(4096, 5)] };
    let header = list.serialize().unwrap();
    let back = ChunkList::parse(&header).unwrap();
    assert_eq!(back.chunks, vec![entry(2048, 5)]);
    let list = ChunkList { chunks: vec![entry(START_LIMIT - 2048, 5)] };
    let back = ChunkList::parse(&list.serialize().unwrap()).unwrap();
    assert_eq!(back.chunks, list.chunks);
}

#[test]
fn entries_by_index() {
    let list = ChunkList::build(&[100, 5000]);
    assert_eq!(list.len(), 2);
    assert_eq!(list.get(0), Some(entry(2048, 100)));
    assert_eq!(list.get(1), Some(entry(4096, 5000)));
    assert_eq!(list.get(2), None);
    assert_eq!(list.into_chunks(), vec![entry(2048, 100), entry(4096, 5000)]);
}

#[test]
fn padding_group_is_told_by_its_first_byte() {
    assert!(is_padding_group(&[0xFF, 0, 0, 0, 0, 0, 0, 0]));
    assert!(is_padding_group(&[0xFF]));
    assert!(!is_padding_group(&[0xFE, 0xFF, 0xFF, 0xFF, 0xFF, 0xFF, 0xFF, 0xFF]));
    assert!(!is_padding_group(&[]));
}

#[test]
fn fold_vecs_joins_in_order() {
    assert_eq!(fold_vecs(vec![1, 2], vec![3]), vec![1, 2, 3]);
    assert_eq!(fold_vecs(Vec::<u8>::new(), vec![]), Vec::<u8>::new());
    assert_eq!(fold_vecs(vec![], vec![7u8]), vec![7u8]);
}
