//! Core of a chunked voxel world: palette-compressed block storage,
//! cross-chunk border propagation, load prioritization, greedy meshing,
//! and a time-budgeted incremental mesh scheduler.

use vstd::prelude::*;

pub mod block;
pub mod chunk;
pub mod chunk_map;
pub mod clock;
pub mod codec;
pub mod load_area;
pub mod mesh_scheduler;
pub mod mesher;
pub mod packed;
pub mod palette;
pub mod pos;
pub mod serial;
pub mod world;

verus! {

/// Width of a chunk in voxels, per axis (without padding).
pub const CHUNK_S1: usize = 62;

/// Voxels per chunk layer (without padding).
pub const CHUNK_S2: usize = 62 * 62;

/// Padded width of a chunk: one mirror voxel on each side.
pub const CHUNKP_S1: usize = 64;

/// Voxels per padded chunk layer.
pub const CHUNKP_S2: usize = 64 * 64;

/// Voxels per padded chunk.
pub const CHUNKP_S3: usize = 64 * 64 * 64;

/// Chunk width as a signed value, for coordinate arithmetic.
pub const CHUNK_S1I: i32 = 62;

/// Padded chunk width as a signed value.
pub const CHUNKP_S1I: i32 = 64;

/// Height of the world in voxels; writes above are rejected.
pub const MAX_HEIGHT: usize = 496;

/// Height of the world in chunks.
pub const Y_CHUNKS: usize = 8;

} // verus!
