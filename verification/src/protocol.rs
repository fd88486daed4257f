//! Control messages exchanged during a transfer, and transfer defaults.
use vstd::prelude::*;

verus! {

/// Default chunk size: 8 MiB.
pub const DEFAULT_CHUNK_SIZE: u64 = 8388608;

pub const DEFAULT_PARALLEL_WORKERS: u8 = 4;

/// A control message. Chunk messages carry the file index as well as the chunk
/// index, so that chunks of different files never collide.
#[derive(Debug, Clone, PartialEq, Eq)]
pub enum ControlMessage {
    Offer { transfer_id: String, total_bytes: u64 },
    Accept { transfer_id: String },
    Reject { transfer_id: String, reason: String },
    ChunkRequest { transfer_id: String, file_index: usize, chunk_index: u64 },
    ChunkComplete { transfer_id: String, file_index: usize, chunk_index: u64, blake3: String },
    Pause { transfer_id: String },
    Resume { transfer_id: String },
    Cancel { transfer_id: String },
    Complete { transfer_id: String },
}

} // verus!
