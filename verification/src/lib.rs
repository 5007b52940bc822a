//! Reading and writing FLD containers: a header sector that lists where each
//! chunk of data lies, followed by the chunks themselves, each padded out to a
//! whole number of sectors.

pub mod chunk;
pub mod chunk_list;
pub mod header;
pub mod placement;
pub mod wire;

pub use chunk::{Chunk, FldError};
pub use chunk_list::ChunkList;
pub use header::{MAX_CHUNKS, PADDING_BYTE, START_LIMIT};
pub use placement::{padding_size, SECTOR_LENGTH};
