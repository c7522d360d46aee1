//! One padded voxel grid: a packed index array plus the palette the
//! indices point into.

use vstd::prelude::*;

use crate::block::Block;
use crate::packed::PackedUints;
use crate::palette::Palette;
use crate::pos::{ChunkedPos, ColedPos};
use crate::{CHUNKP_S1, CHUNKP_S2, CHUNKP_S3, CHUNK_S1};

verus! {

/// The flat index of a cell of the padded grid.
pub open spec fn spec_linearize(x: int, y: int, z: int) -> int {
    z + x * (CHUNKP_S1 as int) + y * (CHUNKP_S2 as int)
}

/// The flat index of an unpadded cell, shifted past the padding shell.
pub open spec fn spec_pad_linearize(x: int, y: int, z: int) -> int {
    spec_linearize(x + 1, y + 1, z + 1)
}

/// Flat index into the padded grid; addresses padding and interior alike.
pub fn linearize(x: usize, y: usize, z: usize) -> (r: usize)
    requires
        x < CHUNKP_S1,
        y < CHUNKP_S1,
        z < CHUNKP_S1,
    ensures
        r == spec_linearize(x as int, y as int, z as int),
        r < CHUNKP_S3,
{
    z + x * CHUNKP_S1 + y * CHUNKP_S2
}

/// Flat index of an interior (unpadded) cell of the padded grid.
pub fn pad_linearize(x: usize, y: usize, z: usize) -> (r: usize)
    requires
        x < CHUNK_S1,
        y < CHUNK_S1,
        z < CHUNK_S1,
    ensures
        r == spec_pad_linearize(x as int, y as int, z as int),
        r < CHUNKP_S3,
{
    z + 1 + (x + 1) * CHUNKP_S1 + (y + 1) * CHUNKP_S2
}

/// A chunk's voxels: palette-compressed indices over the padded grid.
#[derive(Clone, Debug)]
pub struct Chunk {
    pub data: PackedUints,
    pub palette: Palette,
}

impl Chunk {
    /// The storage is sized to the padded grid, every stored index
    /// points into the palette, and index 0 is always `Air`.
    pub open spec fn wf(&self) -> bool {
        &&& self.data.wf()
        &&& self.palette.wf()
        &&& self.data.length == CHUNKP_S3
        &&& 1 <= self.palette@.len() < 0xFFFF_FFFFusize
        &&& self.palette@[0] == Block::Air
        &&& forall|i: int|
            0 <= i < self.data@.len() ==> (#[trigger] self.data@[i]) < self.palette@.len()
    }

    /// The block held at a flat index of the padded grid.
    pub open spec fn spec_block_at(&self, idx: int) -> Block {
        self.palette@[self.data@[idx] as int]
    }

    /// The block held at an interior cell, by local coordinates.
    pub open spec fn spec_get(&self, x: int, y: int, z: int) -> Block {
        self.spec_block_at(spec_pad_linearize(x, y, z))
    }

    /// An all-air chunk: palette of one entry, every index zero.
    pub fn new() -> (r: Self)
        ensures
            r.wf(),
            r.palette@ =~= seq![Block::Air],
            forall|i: int| 0 <= i < CHUNKP_S3 ==> r.data@[i] == 0,
            forall|i: int| 0 <= i < CHUNKP_S3 ==> r.spec_block_at(i) == Block::Air,
    {
        let mut palette = Palette::new();
        palette.index(Block::Air);
        Chunk { data: PackedUints::new(CHUNKP_S3), palette }
    }

    /// Reads the block at an interior cell.
    pub fn get(&self, pos: ChunkedPos) -> (r: &Block)
        requires
            self.wf(),
            pos.0 < CHUNK_S1,
            pos.1 < CHUNK_S1,
            pos.2 < CHUNK_S1,
        ensures
            *r == self.spec_get(pos.0 as int, pos.1 as int, pos.2 as int),
    {
        let i = pad_linearize(pos.0, pos.1, pos.2);
        let v = self.data.get(i);
        proof {
            assert(self.data@[i as int] < self.palette@.len());
        }
        self.palette.get(v)
    }

    /// Writes a block at a flat index, interning it in the palette.
    /// Shared by the interior and padding write paths.
    fn set_idx(&mut self, i: usize, block: Block)
        requires
            old(self).wf(),
            i < CHUNKP_S3,
        ensures
            final (self).wf(),
            old(self).palette@.is_prefix_of(final (self).palette@),
            final (self).palette@ == if old(self).palette@.contains(block) {
                old(self).palette@
            } else {
                old(self).palette@.push(block)
            },
            final (self).spec_block_at(i as int) == block,
            forall|j: int|
                0 <= j < CHUNKP_S3 && j != i ==> final (self).spec_block_at(j) == old(
                    self,
                ).spec_block_at(j),
            final (self).data@[i as int] < final (self).palette@.len(),
    {
        let idx = self.palette.index(block);
        proof {
            crate::block::lemma_distinct_blocks_bounded(self.palette@);
        }
        self.data.set(i, idx);
        proof {
            assert forall|j: int| 0 <= j < CHUNKP_S3 && j != i implies final (self).spec_block_at(
                j,
            ) == old(self).spec_block_at(j) by {
                assert(old(self).data@[j] < old(self).palette@.len());
            }
        }
    }

    /// Writes a block at an interior cell.
    pub fn set(&mut self, pos: ChunkedPos, block: Block)
        requires
            old(self).wf(),
            pos.0 < CHUNK_S1,
            pos.1 < CHUNK_S1,
            pos.2 < CHUNK_S1,
        ensures
            final (self).wf(),
            old(self).palette@.is_prefix_of(final (self).palette@),
            final (self).palette@ == if old(self).palette@.contains(block) {
                old(self).palette@
            } else {
                old(self).palette@.push(block)
            },
            final (self).spec_get(pos.0 as int, pos.1 as int, pos.2 as int) == block,
            forall|j: int|
                0 <= j < CHUNKP_S3 && j != spec_pad_linearize(
                    pos.0 as int,
                    pos.1 as int,
                    pos.2 as int,
                ) ==> final (self).spec_block_at(j) == old(self).spec_block_at(j),
    {
        let i = pad_linearize(pos.0, pos.1, pos.2);
        self.set_idx(i, block);
    }

    /// Writes a block anywhere on the padded grid, padding cells
    /// included.
    pub fn set_no_padding(&mut self, pos: ChunkedPos, block: Block)
        requires
            old(self).wf(),
            pos.0 < CHUNKP_S1,
            pos.1 < CHUNKP_S1,
            pos.2 < CHUNKP_S1,
        ensures
            final (self).wf(),
            old(self).palette@.is_prefix_of(final (self).palette@),
            final (self).spec_block_at(
                spec_linearize(pos.0 as int, pos.1 as int, pos.2 as int),
            ) == block,
            forall|j: int|
                0 <= j < CHUNKP_S3 && j != spec_linearize(pos.0 as int, pos.1 as int, pos.2 as int)
                    ==> final (self).spec_block_at(j) == old(self).spec_block_at(j),
    {
        let i = linearize(pos.0, pos.1, pos.2);
        self.set_idx(i, block);
    }

    /// Writes a block only where the cell now holds air; reports
    /// whether it wrote.
    pub fn set_if_empty(&mut self, pos: ChunkedPos, block: Block) -> (r: bool)
        requires
            old(self).wf(),
            pos.0 < CHUNK_S1,
            pos.1 < CHUNK_S1,
            pos.2 < CHUNK_S1,
        ensures
            final (self).wf(),
            r == (old(self).spec_get(pos.0 as int, pos.1 as int, pos.2 as int) == Block::Air),
            !r ==> *final (self) == *old(self),
            r ==> final (self).spec_get(pos.0 as int, pos.1 as int, pos.2 as int) == block,
            r ==> forall|j: int|
                0 <= j < CHUNKP_S3 && j != spec_pad_linearize(
                    pos.0 as int,
                    pos.1 as int,
                    pos.2 as int,
                ) ==> final (self).spec_block_at(j) == old(self).spec_block_at(j),
    {
        let i = pad_linearize(pos.0, pos.1, pos.2);
        let v = self.data.get(i);
        proof {
            assert(self.data@[i as int] < self.palette@.len());
        }
        if *self.palette.get(v) != Block::Air {
            return false;
        }
        self.set_idx(i, block);
        true
    }

    /// Fills the cells of one vertical run: at `(x, z)`, every `y` from
    /// `top - height` up to and including `top` becomes `block`.
    pub fn set_yrange(&mut self, pos: ChunkedPos, height: usize, block: Block)
        requires
            old(self).wf(),
            pos.0 < CHUNK_S1,
            pos.1 < CHUNK_S1,
            pos.2 < CHUNK_S1,
            height <= pos.1,
        ensures
            final (self).wf(),
            old(self).palette@.is_prefix_of(final (self).palette@),
            forall|y: int|
                pos.1 - height <= y <= pos.1 ==> final (self).spec_get(
                    pos.0 as int,
                    y,
                    pos.2 as int,
                ) == block,
            forall|j: int|
                0 <= j < CHUNKP_S3 && !(exists|y: int|
                    pos.1 - height <= y <= pos.1 && j == spec_pad_linearize(
                        pos.0 as int,
                        y,
                        pos.2 as int,
                    )) ==> final (self).spec_block_at(j) == old(self).spec_block_at(j),
    {
        let (x, top, z) = pos;
        let mut y: usize = top - height;
        while y <= top
            invariant
                self.wf(),
                old(self).wf(),
                old(self).palette@.is_prefix_of(self.palette@),
                x == pos.0 && top == pos.1 && z == pos.2,
                x < CHUNK_S1,
                top < CHUNK_S1,
                z < CHUNK_S1,
                height <= top,
                top - height <= y,
                y <= top + 1,
                forall|yy: int|
                    top - height <= yy < y ==> self.spec_get(x as int, yy, z as int) == block,
                forall|j: int|
                    0 <= j < CHUNKP_S3 && !(exists|yy: int|
                        top - height <= yy < y && j == spec_pad_linearize(x as int, yy, z as int))
                        ==> self.spec_block_at(j) == old(self).spec_block_at(j),
            decreases top + 1 - y,
        {
            let ghost mid = *self;
            self.set((x, y, z), block);
            proof {
                assert forall|j: int|
                    0 <= j < CHUNKP_S3 && !(exists|yy: int|
                        top - height <= yy < y + 1 && j == spec_pad_linearize(
                            x as int,
                            yy,
                            z as int,
                        )) implies self.spec_block_at(j) == old(self).spec_block_at(j) by {
                    assert(j != spec_pad_linearize(x as int, y as int, z as int));
                    assert(mid.spec_block_at(j) == old(self).spec_block_at(j));
                }
                assert forall|yy: int|
                    top - height <= yy <= y implies self.spec_get(x as int, yy, z as int)
                    == block by {
                    if yy < y {
                        assert(spec_pad_linearize(x as int, yy, z as int) != spec_pad_linearize(
                            x as int,
                            y as int,
                            z as int,
                        ));
                        assert(mid.spec_get(x as int, yy, z as int) == block);
                    }
                }
            }
            y = y + 1;
        }
    }

    /// The highest non-air block of a vertical run, with its height;
    /// `(Air, 0)` where the whole run is air.
    pub fn top(&self, col: ColedPos) -> (r: (&Block, usize))
        requires
            self.wf(),
            col.0 < CHUNK_S1,
            col.1 < CHUNK_S1,
        ensures
            r.1 < CHUNK_S1,
            *r.0 == self.spec_get(col.0 as int, r.1 as int, col.1 as int),
            forall|y: int|
                r.1 < y < CHUNK_S1 ==> self.data@[spec_pad_linearize(col.0 as int, y, col.1 as int)]
                    == 0,
            r.1 > 0 ==> self.data@[spec_pad_linearize(col.0 as int, r.1 as int, col.1 as int)]
                != 0,
    {
        let (x, z) = col;
        let mut y: usize = CHUNK_S1;
        while y > 0
            invariant
                self.wf(),
                x == col.0 && z == col.1,
                x < CHUNK_S1,
                z < CHUNK_S1,
                y <= CHUNK_S1,
                forall|yy: int|
                    y <= yy < CHUNK_S1 ==> self.data@[spec_pad_linearize(
                        x as int,
                        yy,
                        z as int,
                    )] == 0,
            decreases y,
        {
            y = y - 1;
            let i = pad_linearize(x, y, z);
            let b_idx = self.data.get(i);
            if b_idx > 0 {
                proof {
                    assert(self.data@[i as int] < self.palette@.len());
                }
                return (self.palette.get(b_idx), y);
            }
        }
        proof {
            assert(self.data@[spec_pad_linearize(x as int, 0, z as int)] == 0);
        }
        (self.palette.get(0), 0)
    }

    /// Copies the run of cells starting at interior `(x, 0, z)` along
    /// the flat axis, one cell every `lod` steps, into `buffer`.
    pub fn copy_column(&self, buffer: &mut Vec<Block>, col: ColedPos, lod: usize) -> (count: usize)
        requires
            self.wf(),
            col.0 < CHUNK_S1,
            col.1 < CHUNK_S1,
            1 <= lod <= CHUNK_S1,
            old(buffer)@.len() >= (CHUNK_S1 - 1) as int / lod as int + 1,
        ensures
            final (buffer)@.len() == old(buffer)@.len(),
            count == (CHUNK_S1 - 1) as int / lod as int + 1,
            forall|k: int|
                0 <= k < count ==> final (buffer)@[k] == self.spec_block_at(
                    spec_pad_linearize(col.0 as int, 0, col.1 as int) + k * lod,
                ),
            forall|k: int| count <= k < old(buffer)@.len() ==> final (buffer)@[k] == old(buffer)@[k],
    {
        let (x, z) = col;
        let start = pad_linearize(x, 0, z);
        let mut i: usize = 0;
        let mut idx: usize = start;
        while idx < start + CHUNK_S1
            invariant
                self.wf(),
                x == col.0 && z == col.1,
                1 <= lod <= CHUNK_S1,
                start == spec_pad_linearize(x as int, 0, z as int),
                start + CHUNK_S1 <= CHUNKP_S3,
                idx == start + i * lod,
                i <= (CHUNK_S1 - 1) as int / lod as int + 1,
                idx < start + CHUNK_S1 ==> i <= (CHUNK_S1 - 1) as int / lod as int,
                buffer@.len() == old(buffer)@.len(),
                buffer@.len() >= (CHUNK_S1 - 1) as int / lod as int + 1,
                forall|k: int|
                    0 <= k < i ==> buffer@[k] == self.spec_block_at(
                        spec_pad_linearize(x as int, 0, z as int) + k * lod,
                    ),
                forall|k: int| i <= k < old(buffer)@.len() ==> buffer@[k] == old(buffer)@[k],
            decreases CHUNK_S1 + 1 - i,
        {
            let v = self.data.get(idx);
            proof {
                assert(self.data@[idx as int] < self.palette@.len());
            }
            let b = *self.palette.get(v);
            buffer[i] = b;
            let ghost i0 = i as int;
            i = i + 1;
            idx = idx + lod;
            proof {
                assert(i as int * lod as int == i0 * lod as int + lod as int) by (nonlinear_arith)
                    requires
                        i as int == i0 + 1,
                ;
                if idx < start + CHUNK_S1 {
                    assert(i as int * lod as int <= CHUNK_S1 - 1);
                    vstd::arithmetic::div_mod::lemma_div_multiples_vanish(i as int, lod as int);
                    assert(lod as int * i as int == i as int * lod as int);
                    vstd::arithmetic::div_mod::lemma_div_is_ordered(
                        lod as int * i as int,
                        (CHUNK_S1 - 1) as int,
                        lod as int,
                    );
                }
            }
        }
        proof {
            assert(i as int * lod as int >= CHUNK_S1) by {
                assert(idx >= start + CHUNK_S1);
            }
            if i <= (CHUNK_S1 - 1) as int / lod as int {
                vstd::arithmetic::mul::lemma_mul_inequality(
                    i as int,
                    (CHUNK_S1 - 1) as int / lod as int,
                    lod as int,
                );
                vstd::arithmetic::div_mod::lemma_fundamental_div_mod(
                    (CHUNK_S1 - 1) as int,
                    lod as int,
                );
                assert(false);
            }
            assert(i == (CHUNK_S1 - 1) as int / lod as int + 1);
        }
        i
    }
    /// Builds a chunk from one block value per padded cell; `Air` is
    /// interned first so its index stays zero.
    pub fn from_blocks(values: &[Block]) -> (r: Self)
        requires
            values@.len() == CHUNKP_S3,
        ensures
            r.wf(),
            forall|i: int| 0 <= i < CHUNKP_S3 ==> r.spec_block_at(i) == values@[i],
    {
        let mut palette = Palette::new();
        palette.index(Block::Air);
        let n = values.len();
        let mut idxs: Vec<usize> = Vec::new();
        let mut i: usize = 0;
        while i < n
            invariant
                n == values@.len(),
                i <= n,
                palette.wf(),
                palette@.len() >= 1,
                palette@[0] == Block::Air,
                palette@.len() <= 13,
                idxs@.len() == i,
                forall|k: int|
                    0 <= k < i ==> (#[trigger] idxs@[k]) < palette@.len() && palette@[idxs@[k] as int]
                        == values@[k],
            decreases n - i,
        {
            let ghost before = palette@;
            let idx = palette.index(values[i]);
            proof {
                crate::block::lemma_distinct_blocks_bounded(palette@);
                assert(before.is_prefix_of(palette@));
                assert forall|k: int|
                    0 <= k < i implies (#[trigger] idxs@[k]) < palette@.len()
                        && palette@[idxs@[k] as int] == values@[k] by {
                    assert(before[idxs@[k] as int] == values@[k]);
                }
            }
            idxs.push(idx);
            i = i + 1;
        }
        let data = PackedUints::from_values(idxs.as_slice());
        let r = Chunk { data, palette };
        proof {
            assert forall|j: int| 0 <= j < CHUNKP_S3 implies r.spec_block_at(j) == values@[j] by {
                assert(r.data@[j] == idxs@[j]);
            }
            assert(forall|j: int|
                0 <= j < r.data@.len() ==> (#[trigger] r.data@[j]) < r.palette@.len());
        }
        r
    }
}

/// Whether bit `i` of the packed occupancy words is set: bit `i % 32`
/// of word `i / 32`.
pub open spec fn spec_occupancy_bit(words: Seq<u32>, i: int) -> bool {
    ((words[i / 32] >> ((i % 32) as u32)) & 1u32) == 1u32
}

/// Setting one bit of a word reads back as one and leaves every other
/// bit position of the word unchanged.
proof fn lemma_set_bit(w: u32, sh: u32, sh2: u32)
    requires
        sh < 32,
        sh2 < 32,
    ensures
        ((w | (1u32 << sh)) >> sh) & 1u32 == 1u32,
        sh2 != sh ==> ((w | (1u32 << sh)) >> sh2) & 1u32 == (w >> sh2) & 1u32,
{
    assert(sh < 32 ==> ((w | (1u32 << sh)) >> sh) & 1u32 == 1u32) by (bit_vector);
    assert(sh < 32 && sh2 < 32 && sh2 != sh ==> ((w | (1u32 << sh)) >> sh2) & 1u32 == (w >> sh2)
        & 1u32) by (bit_vector);
}

impl Chunk {
    /// One occupancy bit per padded cell, set where the cell holds a
    /// voxel, packed 32 cells to a word: the data behind the
    /// ambient-occlusion texture.
    #[verifier::loop_isolation(false)]
    pub fn create_ao_texture_data(&self) -> (r: Vec<u32>)
        requires
            self.wf(),
        ensures
            r@.len() == (CHUNKP_S3 + 31) / 32,
            forall|i: int|
                0 <= i < CHUNKP_S3 ==> (#[trigger] spec_occupancy_bit(r@, i) <==> self.data@[i]
                    != 0),
    {
        let word_count = (CHUNKP_S3 + 31) / 32;
        let mut words = crate::packed::filled(0u32, word_count);
        proof {
            assert forall|i: int| 0 <= i < CHUNKP_S3 implies !spec_occupancy_bit(words@, i) by {
                let w = words@[i / 32];
                assert(w == 0u32);
                let sh = (i % 32) as u32;
                assert(sh < 32 ==> ((0u32 >> sh) & 1u32) == 0u32) by (bit_vector);
            }
        }
        let mut i: usize = 0;
        while i < CHUNKP_S3
            invariant
                i <= CHUNKP_S3,
                words@.len() == word_count,
                forall|j: int|
                    0 <= j < i ==> (#[trigger] spec_occupancy_bit(words@, j) <==> self.data@[j]
                        != 0),
                forall|j: int| i <= j < CHUNKP_S3 ==> !#[trigger] spec_occupancy_bit(words@, j),
            decreases CHUNKP_S3 - i,
        {
            if self.data.get(i) != 0 {
                let wi = i / 32;
                let sh = (i % 32) as u32;
                let ghost before = words@;
                let updated = words[wi] | (1u32 << sh);
                words[wi] = updated;
                proof {
                    assert forall|j: int|
                        0 <= j < CHUNKP_S3 && j != i implies #[trigger] spec_occupancy_bit(
                        words@,
                        j,
                    ) == spec_occupancy_bit(before, j) by {
                        vstd::arithmetic::div_mod::lemma_fundamental_div_mod(j, 32);
                        vstd::arithmetic::div_mod::lemma_fundamental_div_mod(i as int, 32);
                        if j / 32 == i as int / 32 {
                            lemma_set_bit(before[i as int / 32], sh, (j % 32) as u32);
                        }
                    }
                    lemma_set_bit(before[i as int / 32], sh, sh);
                    assert(spec_occupancy_bit(words@, i as int));
                }
            }
            i = i + 1;
        }
        words
    }

    /// The voxel grid snapshot the mesher runs on, one entry per padded
    /// cell at full resolution.
    pub fn voxel_data(&self) -> (r: Vec<u16>)
        requires
            self.wf(),
        ensures
            r@.len() == CHUNKP_S3,
            forall|i: int| 0 <= i < CHUNKP_S3 ==> r@[i] as usize == self.data@[i],
    {
        proof {
            crate::block::lemma_distinct_blocks_bounded(self.palette@);
            assert forall|i: int| 0 <= i < self.data@.len() implies self.data@[i]
                <= u16::MAX as usize by {
                assert(self.data@[i] < self.palette@.len());
            }
        }
        self.data.unpack_u16()
    }
}

} // verus!
