//! Chunk storage and view synchronization for a voxel world server.
//!
//! The library stores per-voxel state in compact, self-resizing paletted
//! containers, bundles them into sections and chunks, computes the minimal
//! set of chunks to start or stop tracking as an observer moves, and
//! assembles the initial join packet sequence for a new participant.

pub mod bits;
pub mod palette;
pub mod view_diff;
pub mod section;
pub mod chunk;
pub mod buffer;
pub mod world;
pub mod player;

use vstd::prelude::*;

verus! {

/// Errors of the core, per the library's error taxonomy.
///
/// `OutOfRange` and `RegistryOverflow` report misuse of a container;
/// `ChunkUnavailable` is recoverable (retry next tick); the last two
/// report failures of the external chunk source.
#[derive(Clone, Copy, Debug, PartialEq, Eq, Structural)]
pub enum CoreError {
    OutOfRange,
    RegistryOverflow,
    ChunkUnavailable,
    GenerationFailed,
    StorageUnavailable,
}

} // verus!
