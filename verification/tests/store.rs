//! Block values, palette interning, packed storage, chunk cells, and
//! the serialized chunk format.

use voxelcore::block::Block;
use voxelcore::chunk::{linearize, pad_linearize, Chunk};
use voxelcore::packed::{PackedData, PackedUints};
use voxelcore::palette::Palette;
use voxelcore::{CHUNKP_S3, CHUNK_S1};

#[test]
fn block_ids_round_trip() {
    let all = [
        Block::Air,
        Block::OakLog,
        Block::SpruceLog,
        Block::BirchLog,
        Block::Stone,
        Block::IronOre,
        Block::GoldOre,
        Block::Furnace,
        Block::FurnaceOn,
        Block::DepletedIronOre,
        Block::OakLeaves,
        Block::SpruceLeaves,
        Block::BirchLeaves,
    ];
    for (i, b) in all.iter().enumerate() {
        assert_eq!(b.to_id(), i as u32);
        assert_eq!(Block::from_id(b.to_id()), *b);
    }
    assert_eq!(Block::from_id(999), Block::Air);
}

#[test]
fn block_families_and_flags() {
    assert!(Block::OakLeaves.is_foliage());
    assert!(!Block::Stone.is_foliage());
    assert!(Block::Stone.is_opaque());
    assert!(!Block::Air.is_opaque());
    assert!(!Block::Furnace.is_opaque());
    assert!(Block::Stone.is_targetable());
    assert!(!Block::Air.is_targetable());
    assert!(!Block::FurnaceOn.is_targetable());
    assert_eq!(Block::IronOre.depleted(), Block::DepletedIronOre);
    assert_eq!(Block::Stone.depleted(), Block::Stone);
    assert_eq!(Block::DepletedIronOre.renewed(), Block::IronOre);
    assert_eq!(Block::DepletedIronOre.renewal_minutes(), Some(10));
    assert_eq!(Block::Stone.renewal_minutes(), None);
    assert_eq!(Block::Furnace.on(), Block::FurnaceOn);
    assert_eq!(Block::FurnaceOn.off(), Block::Furnace);
    assert_eq!(Block::Furnace.furnace_temp(), Some(1200));
    assert_eq!(Block::Air.furnace_temp(), None);
}

#[test]
fn palette_interning_is_stable() {
    let mut p = Palette::new();
    assert_eq!(p.len(), 0);
    let a = p.index(Block::Air);
    let s = p.index(Block::Stone);
    let a2 = p.index(Block::Air);
    assert_eq!(a, 0);
    assert_eq!(s, 1);
    assert_eq!(a2, 0);
    assert_eq!(p.len(), 2);
    assert_eq!(*p.get(1), Block::Stone);
    assert_eq!(p.get_all_elements(), vec![Block::Air, Block::Stone]);
    let q = Palette::from_elements(vec![Block::Air, Block::IronOre]);
    assert_eq!(q.len(), 2);
    assert_eq!(*q.get(1), Block::IronOre);
}

#[test]
fn packed_widths_rescale_upward() {
    let mut p = PackedUints::new(10);
    assert_eq!(p.mask, 15);
    for i in 0..10 {
        assert_eq!(p.get(i), 0);
    }
    p.set(3, 9);
    assert_eq!(p.get(3), 9);
    assert_eq!(p.mask, 15);
    p.set(4, 200);
    assert_eq!(p.mask, 255);
    assert_eq!(p.get(3), 9);
    assert_eq!(p.get(4), 200);
    p.set(5, 60000);
    assert_eq!(p.mask, 65535);
    assert_eq!(p.get(3), 9);
    assert_eq!(p.get(4), 200);
    assert_eq!(p.get(5), 60000);
    p.set(6, 70000);
    assert_eq!(p.mask, 0xFFFF_FFFF);
    assert_eq!(p.get(3), 9);
    assert_eq!(p.get(4), 200);
    assert_eq!(p.get(5), 60000);
    assert_eq!(p.get(6), 70000);
}

#[test]
fn packed_from_values_picks_narrowest() {
    let v = [1usize, 2, 15];
    let p = PackedUints::from_values(&v);
    assert_eq!(p.mask, 15);
    assert_eq!(p.get(2), 15);
    let v = [1usize, 300];
    let p = PackedUints::from_values(&v);
    assert_eq!(p.mask, 65535);
    assert_eq!(p.get(1), 300);
}

#[test]
fn packed_set_range_step_strides() {
    let mut p = PackedUints::new(20);
    p.set_range_step(2, 11, 4, 7);
    for i in 0..20 {
        let expect = if i >= 2 && i < 11 && (i - 2) % 4 == 0 { 7 } else { 0 };
        assert_eq!(p.get(i), expect, "index {}", i);
    }
}

#[test]
fn packed_unpack_u16_matches_get() {
    let v = [3usize, 0, 14, 9];
    let p = PackedUints::from_values(&v);
    let u = p.unpack_u16();
    assert_eq!(u.len(), 4);
    for i in 0..4 {
        assert_eq!(u[i] as usize, p.get(i));
    }
}

#[test]
fn chunk_set_then_get() {
    let mut c = Chunk::new();
    assert_eq!(*c.get((0, 0, 0)), Block::Air);
    c.set((1, 2, 3), Block::Stone);
    assert_eq!(*c.get((1, 2, 3)), Block::Stone);
    assert_eq!(*c.get((3, 2, 1)), Block::Air);
    assert_eq!(c.palette.len(), 2);
    c.set((1, 2, 3), Block::IronOre);
    assert_eq!(*c.get((1, 2, 3)), Block::IronOre);
    assert_eq!(c.palette.len(), 3);
}

#[test]
fn chunk_set_if_empty_only_writes_air() {
    let mut c = Chunk::new();
    assert!(c.set_if_empty((5, 5, 5), Block::Stone));
    assert!(!c.set_if_empty((5, 5, 5), Block::IronOre));
    assert_eq!(*c.get((5, 5, 5)), Block::Stone);
}

#[test]
fn chunk_set_yrange_fills_inclusive_run() {
    let mut c = Chunk::new();
    c.set_yrange((4, 10, 6), 3, Block::Stone);
    for y in 0..CHUNK_S1 {
        let expect = if y >= 7 && y <= 10 { Block::Stone } else { Block::Air };
        assert_eq!(*c.get((4, y, 6)), expect, "y {}", y);
    }
}

#[test]
fn chunk_top_finds_highest_non_air() {
    let mut c = Chunk::new();
    let (b, y) = c.top((3, 3));
    assert_eq!((*b, y), (Block::Air, 0));
    c.set((3, 8, 3), Block::Stone);
    c.set((3, 20, 3), Block::GoldOre);
    let (b, y) = c.top((3, 3));
    assert_eq!((*b, y), (Block::GoldOre, 20));
}

#[test]
fn chunk_from_blocks_reads_back() {
    let mut blocks = vec![Block::Air; CHUNKP_S3];
    blocks[pad_linearize(1, 2, 3)] = Block::Stone;
    blocks[linearize(0, 0, 0)] = Block::IronOre;
    let c = Chunk::from_blocks(&blocks);
    assert_eq!(*c.get((1, 2, 3)), Block::Stone);
    assert_eq!(c.palette.len(), 3);
}

#[test]
fn chunk_copy_column_strides() {
    let mut c = Chunk::new();
    c.set_no_padding((2, 1, 5), Block::Stone);
    let mut buf = vec![Block::Air; CHUNK_S1];
    // the run walks the flat axis from the cell after (1, 0, 4)
    let count = c.copy_column(&mut buf, (1, 4), 1);
    assert_eq!(count, CHUNK_S1);
    assert_eq!(buf[0], Block::Stone);
}

#[test]
fn serialize_layout_of_fresh_chunk() {
    let c = Chunk::new();
    let bytes = c.serialize();
    // palette length 1, id 0, tag 0, element count, zero payload, mask, length
    let payload = (CHUNKP_S3 + 1) / 2;
    assert_eq!(bytes.len(), 4 + 4 + 1 + 4 + payload + 4 + 4);
    assert_eq!(&bytes[0..4], &[1, 0, 0, 0]);
    assert_eq!(&bytes[4..8], &[0, 0, 0, 0]);
    assert_eq!(bytes[8], 0);
    let tail = bytes.len() - 8;
    assert_eq!(&bytes[tail..tail + 4], &[15, 0, 0, 0]);
    let len_bytes = (CHUNKP_S3 as u32).to_le_bytes();
    assert_eq!(&bytes[tail + 4..], &len_bytes);
}

#[test]
fn serialized_chunk_round_trips() {
    let mut c = Chunk::new();
    c.set((0, 0, 0), Block::Stone);
    c.set((61, 61, 61), Block::IronOre);
    c.set((10, 20, 30), Block::OakLeaves);
    c.set_yrange((5, 40, 5), 10, Block::GoldOre);
    let bytes = c.serialize();
    let d = Chunk::deserialize(&bytes);
    for &(x, y, z) in &[(0, 0, 0), (61, 61, 61), (10, 20, 30), (5, 35, 5), (5, 40, 5), (1, 1, 1)] {
        assert_eq!(*d.get((x, y, z)), *c.get((x, y, z)), "at {:?}", (x, y, z));
    }
    assert_eq!(d.palette.len(), c.palette.len());
    assert_eq!(d.serialize(), bytes);
}

#[test]
fn ao_texture_sets_one_bit_per_voxel()
{
    let mut c = Chunk::new();
    c.set((0, 0, 0), Block::Stone);
    c.set((4, 0, 0), Block::Stone);
    let words = c.create_ao_texture_data();
    assert_eq!(words.len(), (CHUNKP_S3 + 31) / 32);
    let set_bits: u32 = words.iter().map(|w| w.count_ones()).sum();
    assert_eq!(set_bits, 2);
    let i = pad_linearize(0, 0, 0);
    assert_eq!((words[i / 32] >> (i % 32)) & 1, 1);
    let j = pad_linearize(1, 0, 0);
    assert_eq!((words[j / 32] >> (j % 32)) & 1, 0);
}

#[test]
fn voxel_data_mirrors_the_grid()
{
    let mut c = Chunk::new();
    c.set((7, 8, 9), Block::IronOre);
    let vox = c.voxel_data();
    assert_eq!(vox.len(), CHUNKP_S3);
    assert_eq!(vox[pad_linearize(7, 8, 9)], 1);
    assert_eq!(vox[pad_linearize(9, 8, 7)], 0);
}
