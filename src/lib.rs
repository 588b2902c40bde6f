//! Decoding of streaming shape frame (SSSF) assets: an IFF-style container
//! of records, each holding one block-compressed animation frame.
pub mod extract;
pub mod frame;
pub mod iff;
pub mod manifest;
pub mod sss_structs;

pub use extract::{extract_frames, ExtractError};
pub use frame::{read_sssf_frame, FrameError, SssfData};
pub use iff::{Chunk, ChunkParser, ChunkWriter, IffError};
pub use sss_structs::{SssfChunkHeader, SssfFrameChunkHeader, SssfFullNameChunk, SssfImageChunkFooter};
