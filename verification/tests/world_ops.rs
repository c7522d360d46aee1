//! The voxel world: block reads and writes, border propagation, column
//! operations, positions, and the voxel ray probe.

use voxelcore::block::Block;
use voxelcore::chunk::linearize;
use voxelcore::pos::{
    block_to_chunked, block_to_col, chunked, chunked_to_block, chunks_in_col, col_of_chunk,
    un_padded_chunked, unchunked, BlockPos, BlockPos2d, ChunkPos, ColPos, Pos2d, Pos3d, Realm,
};
use voxelcore::world::VoxelWorld;
use voxelcore::{CHUNKP_S1, CHUNK_S1, MAX_HEIGHT, Y_CHUNKS};

fn bp(x: i32, y: i32, z: i32) -> BlockPos {
    BlockPos { x, y, z, realm: Realm::Overworld }
}

fn cp(x: i32, y: i32, z: i32) -> ChunkPos {
    ChunkPos { x, y, z, realm: Realm::Overworld }
}

#[test]
fn chunked_splits_negative_coordinates() {
    assert_eq!(chunked(0), (0, 0));
    assert_eq!(chunked(61), (0, 61));
    assert_eq!(chunked(62), (1, 0));
    assert_eq!(chunked(-1), (-1, 61));
    assert_eq!(chunked(-62), (-1, 0));
    assert_eq!(chunked(-63), (-2, 61));
    assert_eq!(unchunked(-1, 61), -1);
    assert_eq!(un_padded_chunked(-1), (-1, 63));
}

#[test]
fn block_chunk_conversions_invert() {
    let p = bp(-100, 75, 3);
    let (c, l) = block_to_chunked(p);
    assert_eq!(chunked_to_block(c, l), p);
    let (c2, l2) = BlockPos::from_unpadded(bp(-1, 0, 0));
    assert_eq!(c2, cp(-1, 0, 0));
    assert_eq!(l2, (63, 0, 0));
    assert_eq!(block_to_col(p), ColPos { x: -2, z: 0, realm: Realm::Overworld });
    assert_eq!(col_of_chunk(c), ColPos { x: c.x, z: c.z, realm: c.realm });
}

#[test]
fn positions_measure_chebyshev_distance() {
    let a = Pos3d::<1>::new(0, 0, 0, Realm::Overworld);
    let b = Pos3d::<1>::new(3, -4, 2, Realm::Overworld);
    assert_eq!(a.dist(b), 4);
    let c: Pos2d<62> = Pos2d { x: 5, z: -1, realm: Realm::Overworld };
    let d: Pos2d<62> = Pos2d { x: 2, z: 1, realm: Realm::Overworld };
    assert_eq!(c.dist(d), 3);
}

#[test]
fn prng_is_deterministic_per_position() {
    let a = Pos3d::<1>::new(10, 20, 30, Realm::Overworld);
    let b = Pos3d::<1>::new(10, 20, 31, Realm::Overworld);
    assert_eq!(a.prng(7), a.prng(7));
    assert_ne!(a.prng(7), b.prng(7));
    let c: Pos2d<1> = Pos2d { x: 4, z: 9, realm: Realm::Overworld };
    assert_eq!(c.prng(1), c.prng(1));
}

#[test]
fn chunks_in_col_stacks_bottom_up() {
    let col = ColPos { x: 2, z: -3, realm: Realm::Overworld };
    let chunks = chunks_in_col(&col);
    assert_eq!(chunks.len(), Y_CHUNKS);
    assert_eq!(chunks[0], cp(2, 0, -3));
    assert_eq!(chunks[Y_CHUNKS - 1], cp(2, Y_CHUNKS as i32 - 1, -3));
}

#[test]
fn end_to_end_block_write_and_read() {
    let mut w = VoxelWorld::new();
    assert_eq!(w.chunk_count(), 0);
    // out-of-height writes are rejected and create nothing
    assert!(!w.set_block_safe(bp(0, -1, 0), Block::Stone));
    assert_eq!(w.chunk_count(), 0);
    assert!(!w.set_block_safe(bp(0, MAX_HEIGHT as i32, 0), Block::Stone));
    assert_eq!(w.chunk_count(), 0);
    // an in-range write creates chunk (0,0,0) and reads back
    w.set_block(bp(0, 0, 0), Block::Stone);
    assert!(w.chunks.contains_key(&cp(0, 0, 0)));
    assert_eq!(w.get_block(bp(0, 0, 0)), Block::Stone);
    let entry = w.chunks.get(&cp(0, 0, 0)).unwrap();
    assert_eq!(entry.chunk.palette.len(), 2);
    drop(entry);
    // absent chunks read as air
    assert_eq!(w.get_block(bp(500, 100, 500)), Block::Air);
    assert_eq!(w.get_block_safe(bp(0, -5, 0)), Block::Air);
}

#[test]
fn face_write_mirrors_into_one_neighbor() {
    let mut w = VoxelWorld::new();
    // local (0, 5, 7) of chunk (1, 0, 0)
    let pos = bp(62, 5, 7);
    w.set_block(pos, Block::Stone);
    assert_eq!(w.chunk_count(), 2);
    let west = w.chunks.get(&cp(0, 0, 0)).unwrap();
    // the padding mirror sits at padded (63, 6, 8)
    let idx = west.chunk.data.get(linearize(CHUNKP_S1 - 1, 6, 8));
    assert_eq!(*west.chunk.palette.get(idx), Block::Stone);
    assert!(west.changed);
}

#[test]
fn corner_write_mirrors_into_seven_neighbors() {
    let mut w = VoxelWorld::new();
    w.set_block(bp(0, 0, 0), Block::Stone);
    assert_eq!(w.chunk_count(), 8);
    for q in [
        cp(-1, 0, 0),
        cp(0, -1, 0),
        cp(0, 0, -1),
        cp(-1, -1, 0),
        cp(-1, 0, -1),
        cp(0, -1, -1),
        cp(-1, -1, -1),
    ] {
        assert!(w.chunks.contains_key(&q), "missing neighbor {:?}", q);
        assert!(w.chunks.get(&q).unwrap().changed);
    }
    // the corner neighbor mirrors the write at its far padding corner
    let far = w.chunks.get(&cp(-1, -1, -1)).unwrap();
    let idx = far.chunk.data.get(linearize(CHUNKP_S1 - 1, CHUNKP_S1 - 1, CHUNKP_S1 - 1));
    assert_eq!(*far.chunk.palette.get(idx), Block::Stone);
}

#[test]
fn interior_write_touches_one_chunk() {
    let mut w = VoxelWorld::new();
    w.set_block(bp(30, 30, 30), Block::Stone);
    assert_eq!(w.chunk_count(), 1);
}

#[test]
fn set_if_empty_respects_occupants() {
    let mut w = VoxelWorld::new();
    w.set_block(bp(5, 5, 5), Block::Stone);
    w.set_if_empty(bp(5, 5, 5), Block::IronOre);
    assert_eq!(w.get_block(bp(5, 5, 5)), Block::Stone);
    w.set_if_empty(bp(6, 5, 5), Block::IronOre);
    assert_eq!(w.get_block(bp(6, 5, 5)), Block::IronOre);
}

#[test]
fn set_loaded_marks_existing_chunks_only() {
    let mut w = VoxelWorld::new();
    assert!(!w.set_loaded(cp(0, 0, 0)));
    w.set_block(bp(10, 10, 10), Block::Stone);
    assert!(w.set_loaded(cp(0, 0, 0)));
    assert!(w.chunks.get(&cp(0, 0, 0)).unwrap().loaded);
}

#[test]
fn set_yrange_fills_a_column_run() {
    let mut w = VoxelWorld::new();
    let col = ColPos { x: 0, z: 0, realm: Realm::Overworld };
    w.set_yrange(col, (3, 4), 50, 3, Block::Stone);
    for y in 0..60 {
        let expect = if y >= 48 && y <= 50 { Block::Stone } else { Block::Air };
        assert_eq!(w.get_block(bp(3, y, 4)), expect, "y {}", y);
    }
    // a run reaching below zero stops at the world bottom
    w.set_yrange(col, (9, 9), 1, 5, Block::IronOre);
    assert_eq!(w.get_block(bp(9, 0, 9)), Block::IronOre);
    assert_eq!(w.get_block(bp(9, 1, 9)), Block::IronOre);
}

#[test]
fn columns_load_mark_and_unload() {
    let mut w = VoxelWorld::new();
    let col = ColPos { x: 0, z: 0, realm: Realm::Overworld };
    assert!(!w.is_col_loaded(col));
    w.set_block(bp(10, 10, 10), Block::Stone);
    assert!(w.is_col_loaded(col));
    w.mark_change_col(col);
    assert!(w.chunks.get(&cp(0, 0, 0)).unwrap().changed);
    w.unload_col(col);
    assert!(!w.is_col_loaded(col));
    assert_eq!(w.get_block(bp(10, 10, 10)), Block::Air);
}

#[test]
fn raycast_step_reports_targetable_hits() {
    let mut w = VoxelWorld::new();
    w.set_block(bp(3, 0, 0), Block::Stone);
    let hit = w.raycast_step(bp(3, 0, 0), bp(2, 0, 0)).expect("stone is targetable");
    assert_eq!(hit.pos, bp(3, 0, 0));
    assert_eq!(hit.normal, (-1, 0, 0));
    assert!(w.raycast_step(bp(2, 0, 0), bp(1, 0, 0)).is_none());
    // furnaces exist but are not targetable
    w.set_block(bp(4, 0, 0), Block::Furnace);
    assert!(w.raycast_step(bp(4, 0, 0), bp(3, 0, 0)).is_none());
    // outside the world height everything reads as air
    assert!(w.raycast_step(bp(3, -1, 0), bp(3, 0, 0)).is_none());
    // hits compare by the block struck, not by the entry face
    let from_above = w.raycast_step(bp(3, 0, 0), bp(3, 1, 0)).unwrap();
    assert_eq!(hit, from_above);
}

#[test]
fn top_block_scans_whole_columns() {
    let mut w = VoxelWorld::new();
    let col = BlockPos2d { x: 5, z: 9, realm: Realm::Overworld };
    assert_eq!(w.top_block(col), (Block::Air, 0));
    w.set_block(bp(5, 3, 9), Block::Stone);
    // a block in a higher chunk of the same column wins
    w.set_block(bp(5, CHUNK_S1 as i32 + 11, 9), Block::GoldOre);
    assert_eq!(w.top_block(col), (Block::GoldOre, CHUNK_S1 as i32 + 11));
    w.unload_col(ColPos { x: 0, z: 0, realm: Realm::Overworld });
    assert_eq!(w.top_block(col), (Block::Air, 0));
}
