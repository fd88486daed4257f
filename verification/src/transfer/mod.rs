//! Transfer manifests, chunk planning and receiver-side destination rules.
pub mod chunks;
pub mod destination;
pub mod manifest;
pub mod tcp;

pub use chunks::{chunk_plan_for_file, resume_chunk_plan, ChunkPlan, VerifiedChunk};
pub use destination::{safe_relative_destination_path, DestinationResolver, EntryState, ResolveStep};
pub use manifest::{manifest_from_selection, RelativePath, TransferEntry, TransferError, TransferManifest};
pub use crate::protocol::{DEFAULT_CHUNK_SIZE, DEFAULT_PARALLEL_WORKERS};
