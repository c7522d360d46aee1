//! Positions at voxel and chunk granularity, and the conversions between them.
//!
//! A `Pos3d<1>` addresses one voxel; a `Pos3d<CHUNK_S1>` addresses one chunk.
//! `Pos2d` drops the vertical axis and addresses a column of chunks.

use vstd::prelude::*;

use crate::{CHUNKP_S1I, CHUNK_S1, CHUNK_S1I, Y_CHUNKS};

verus! {

/// Identifier of an independent dimension of the world.
#[derive(Clone, Copy, Debug, PartialEq, Eq, Hash, Default, Structural)]
pub enum Realm {
    #[default]
    Overworld,
}

/// A 3D integer coordinate at a grid scale of `U` voxels per cell.
#[derive(Clone, Copy, Debug, Eq, Hash)]
pub struct Pos3d<const U: usize> {
    pub x: i32,
    pub y: i32,
    pub z: i32,
    pub realm: Realm,
}

/// A 2D integer coordinate at a grid scale of `U` voxels per cell.
#[derive(Clone, Copy, Debug, Eq, Hash)]
pub struct Pos2d<const U: usize> {
    pub x: i32,
    pub z: i32,
    pub realm: Realm,
}

impl<const U: usize> PartialEq for Pos3d<U> {
    fn eq(&self, o: &Pos3d<U>) -> (r: bool) {
        self.x == o.x && self.y == o.y && self.z == o.z && self.realm == o.realm
    }
}

impl<const U: usize> vstd::std_specs::cmp::PartialEqSpecImpl for Pos3d<U> {
    open spec fn obeys_eq_spec() -> bool {
        true
    }

    open spec fn eq_spec(&self, o: &Pos3d<U>) -> bool {
        *self == *o
    }
}

impl<const U: usize> Default for Pos3d<U> {
    /// The origin of the overworld.
    fn default() -> (r: Self)
        ensures
            r == (Pos3d::<U> { x: 0, y: 0, z: 0, realm: Realm::Overworld }),
    {
        Pos3d { x: 0, y: 0, z: 0, realm: Realm::Overworld }
    }
}

impl<const U: usize> PartialEq for Pos2d<U> {
    fn eq(&self, o: &Pos2d<U>) -> (r: bool) {
        self.x == o.x && self.z == o.z && self.realm == o.realm
    }
}

impl<const U: usize> vstd::std_specs::cmp::PartialEqSpecImpl for Pos2d<U> {
    open spec fn obeys_eq_spec() -> bool {
        true
    }

    open spec fn eq_spec(&self, o: &Pos2d<U>) -> bool {
        *self == *o
    }
}

impl<const U: usize> Default for Pos2d<U> {
    /// The origin column of the overworld.
    fn default() -> (r: Self)
        ensures
            r == (Pos2d::<U> { x: 0, z: 0, realm: Realm::Overworld }),
    {
        Pos2d { x: 0, z: 0, realm: Realm::Overworld }
    }
}

/// The position of one voxel.
pub type BlockPos = Pos3d<1>;

/// The position of one chunk on the chunk grid.
pub type ChunkPos = Pos3d<CHUNK_S1>;

/// A voxel position within its chunk, without the padding offset.
pub type ChunkedPos = (usize, usize, usize);

/// The position of one voxel, seen from above.
pub type BlockPos2d = Pos2d<1>;

/// The position of one column of chunks.
pub type ColPos = Pos2d<CHUNK_S1>;

/// A voxel position within its column: horizontal coordinates only.
pub type ColedPos = (usize, usize);

/// Which chunk on an axis a voxel coordinate falls in.
pub open spec fn spec_chunk_of(x: int) -> int {
    x / (CHUNK_S1 as int)
}

/// Where on its axis within that chunk a voxel coordinate falls.
pub open spec fn spec_local_of(x: int) -> int {
    x % (CHUNK_S1 as int)
}

/// Splits a voxel axis coordinate into chunk index and local offset,
/// flooring toward negative infinity so that every chunk spans
/// exactly `CHUNK_S1` coordinates.
pub fn chunked(x: i32) -> (r: (i32, usize))
    ensures
        r.0 == spec_chunk_of(x as int),
        r.1 == spec_local_of(x as int),
        r.1 < CHUNK_S1,
        i32::MIN as int / CHUNK_S1 as int <= r.0 <= i32::MAX as int / CHUNK_S1 as int,
{
    let q = x.checked_div_euclid(CHUNK_S1I).unwrap();
    let m = x.checked_rem_euclid(CHUNK_S1I).unwrap();
    proof {
        vstd::arithmetic::div_mod::lemma_div_is_ordered(
            i32::MIN as int,
            x as int,
            CHUNK_S1 as int,
        );
        vstd::arithmetic::div_mod::lemma_div_is_ordered(
            x as int,
            i32::MAX as int,
            CHUNK_S1 as int,
        );
    }
    (q, m as usize)
}

/// Splits an axis coordinate by the padded chunk width.
pub fn un_padded_chunked(x: i32) -> (r: (i32, usize))
    ensures
        r.0 == x as int / (CHUNKP_S1I as int),
        r.1 == x as int % (CHUNKP_S1I as int),
{
    let q = x.checked_div_euclid(CHUNKP_S1I).unwrap();
    let m = x.checked_rem_euclid(CHUNKP_S1I).unwrap();
    (q, m as usize)
}

/// Rebuilds a voxel axis coordinate from chunk index and local offset.
pub fn unchunked(cx: i32, dx: usize) -> (r: i32)
    requires
        i32::MIN <= cx as int * CHUNK_S1 as int + dx as int <= i32::MAX,
    ensures
        r == cx as int * CHUNK_S1 as int + dx as int,
{
    let wide: i64 = cx as i64 * CHUNK_S1I as i64 + dx as i64;
    wide as i32
}

/// One round of the position-seeded mixer.
pub open spec fn spec_mix(s: u64, v: u64) -> u64 {
    vstd::wrapping::u64_specs::wrapping_mul(((s << 5u64) | (s >> 59u64)) ^ v, 0x9E3779B9u64)
}

/// Multiplier of the position-seeded mixer.
const PRNG_K: u64 = 0x9E3779B9;

/// One mixing round: rotate, fold in a coordinate, multiply.
fn mix(s: u64, v: u64) -> (r: u64)
    ensures
        r == spec_mix(s, v),
{
    (((s << 5u64) | (s >> 59u64)) ^ v).wrapping_mul(PRNG_K)
}

impl<const U: usize> Pos3d<U> {
    /// Chebyshev distance between two positions.
    pub open spec fn spec_dist(self, other: Pos3d<U>) -> int {
        vstd::math::max(
            vstd::math::max(
                vstd::math::abs(self.x as int - other.x as int) as int,
                vstd::math::abs(self.y as int - other.y as int) as int,
            ),
            vstd::math::abs(self.z as int - other.z as int) as int,
        )
    }

    /// The raw mixer pass over this position.
    pub open spec fn spec_prng_pass(self, s: u64) -> u64 {
        spec_mix(spec_mix(spec_mix(s, self.x as u64), self.y as u64), self.z as u64)
    }

    pub fn new(x: i32, y: i32, z: i32, realm: Realm) -> (r: Self)
        ensures
            r == (Pos3d::<U> { x, y, z, realm }),
    {
        Self { x, y, z, realm }
    }

    /// Chebyshev distance to another position.
    pub fn dist(&self, other: Pos3d<U>) -> (r: i32)
        requires
            i32::MIN < self.x as int - other.x as int <= i32::MAX,
            i32::MIN < self.y as int - other.y as int <= i32::MAX,
            i32::MIN < self.z as int - other.z as int <= i32::MAX,
        ensures
            r == self.spec_dist(other),
    {
        let ddx = self.x as i64 - other.x as i64;
        let ddy = self.y as i64 - other.y as i64;
        let ddz = self.z as i64 - other.z as i64;
        let dx = if ddx < 0 { -ddx } else { ddx };
        let dy = if ddy < 0 { -ddy } else { ddy };
        let dz = if ddz < 0 { -ddz } else { ddz };
        let m = if dx >= dy { dx } else { dy };
        let m = if m >= dz { m } else { dz };
        m as i32
    }

    fn _prng(&self, seed: u64) -> (r: u64)
        ensures
            r == self.spec_prng_pass(seed),
    {
        let sx = mix(seed, #[verifier::truncate] (self.x as u64));
        let sy = mix(sx, #[verifier::truncate] (self.y as u64));
        mix(sy, #[verifier::truncate] (self.z as u64))
    }

    /// A position-seeded pseudo-random value: two mixer passes.
    pub fn prng(&self, seed: i32) -> (r: usize)
        ensures
            r == self.spec_prng_pass(self.spec_prng_pass(seed as u64)) as usize,
    {
        let n = self._prng(#[verifier::truncate] (seed as u64));
        #[verifier::truncate] (self._prng(n) as usize)
    }
}

impl<const U: usize> Pos2d<U> {
    /// Chebyshev distance between two positions.
    pub open spec fn spec_dist(self, other: Pos2d<U>) -> int {
        vstd::math::max(
            vstd::math::abs(self.x as int - other.x as int) as int,
            vstd::math::abs(self.z as int - other.z as int) as int,
        )
    }

    /// The raw mixer pass over this position.
    pub open spec fn spec_prng_pass(self, s: u64) -> u64 {
        spec_mix(spec_mix(s, self.x as u64), self.z as u64)
    }

    /// Chebyshev distance to another position.
    pub fn dist(&self, other: Pos2d<U>) -> (r: i32)
        requires
            i32::MIN < self.x as int - other.x as int <= i32::MAX,
            i32::MIN < self.z as int - other.z as int <= i32::MAX,
        ensures
            r == self.spec_dist(other),
    {
        let ddx = self.x as i64 - other.x as i64;
        let ddz = self.z as i64 - other.z as i64;
        let dx = if ddx < 0 { -ddx } else { ddx };
        let dz = if ddz < 0 { -ddz } else { ddz };
        let m = if dx >= dz { dx } else { dz };
        m as i32
    }

    fn _prng(&self, seed: u64) -> (r: u64)
        ensures
            r == self.spec_prng_pass(seed),
    {
        let sx = mix(seed, #[verifier::truncate] (self.x as u64));
        mix(sx, #[verifier::truncate] (self.z as u64))
    }

    /// A position-seeded pseudo-random value: two mixer passes.
    pub fn prng(&self, seed: i32) -> (r: usize)
        ensures
            r == self.spec_prng_pass(self.spec_prng_pass(seed as u64)) as usize,
    {
        let n = self._prng(#[verifier::truncate] (seed as u64));
        #[verifier::truncate] (self._prng(n) as usize)
    }
}

/// The chunk a voxel position falls in, together with the voxel's
/// local coordinates within that chunk.
pub open spec fn spec_block_to_chunked(pos: BlockPos) -> (ChunkPos, ChunkedPos) {
    (
        ChunkPos {
            x: spec_chunk_of(pos.x as int) as i32,
            y: spec_chunk_of(pos.y as int) as i32,
            z: spec_chunk_of(pos.z as int) as i32,
            realm: pos.realm,
        },
        (
            spec_local_of(pos.x as int) as usize,
            spec_local_of(pos.y as int) as usize,
            spec_local_of(pos.z as int) as usize,
        ),
    )
}

/// Splits a voxel position into its chunk and its local coordinates.
pub fn block_to_chunked(pos: BlockPos) -> (r: (ChunkPos, ChunkedPos))
    ensures
        r == spec_block_to_chunked(pos),
        r.1.0 < CHUNK_S1 && r.1.1 < CHUNK_S1 && r.1.2 < CHUNK_S1,
{
    let (cx, dx) = chunked(pos.x);
    let (cy, dy) = chunked(pos.y);
    let (cz, dz) = chunked(pos.z);
    (ChunkPos { x: cx, y: cy, z: cz, realm: pos.realm }, (dx, dy, dz))
}

/// Rebuilds a voxel position from its chunk and local coordinates.
pub fn chunked_to_block(chunk: ChunkPos, local: ChunkedPos) -> (r: BlockPos)
    requires
        i32::MIN <= chunk.x as int * CHUNK_S1 as int + local.0 as int <= i32::MAX,
        i32::MIN <= chunk.y as int * CHUNK_S1 as int + local.1 as int <= i32::MAX,
        i32::MIN <= chunk.z as int * CHUNK_S1 as int + local.2 as int <= i32::MAX,
    ensures
        r.x == chunk.x as int * CHUNK_S1 as int + local.0 as int,
        r.y == chunk.y as int * CHUNK_S1 as int + local.1 as int,
        r.z == chunk.z as int * CHUNK_S1 as int + local.2 as int,
        r.realm == chunk.realm,
{
    BlockPos {
        x: unchunked(chunk.x, local.0),
        y: unchunked(chunk.y, local.1),
        z: unchunked(chunk.z, local.2),
        realm: chunk.realm,
    }
}

/// The column a voxel position falls in.
pub open spec fn spec_block_to_col(pos: BlockPos) -> ColPos {
    ColPos {
        x: spec_chunk_of(pos.x as int) as i32,
        z: spec_chunk_of(pos.z as int) as i32,
        realm: pos.realm,
    }
}

/// The column a voxel position falls in.
pub fn block_to_col(pos: BlockPos) -> (r: ColPos)
    ensures
        r == spec_block_to_col(pos),
{
    let (cx, _) = chunked(pos.x);
    let (cz, _) = chunked(pos.z);
    ColPos { x: cx, z: cz, realm: pos.realm }
}

/// The column a chunk belongs to.
pub open spec fn spec_col_of_chunk(pos: ChunkPos) -> ColPos {
    ColPos { x: pos.x, z: pos.z, realm: pos.realm }
}

/// The column a chunk belongs to.
pub fn col_of_chunk(pos: ChunkPos) -> (r: ColPos)
    ensures
        r == spec_col_of_chunk(pos),
{
    ColPos { x: pos.x, z: pos.z, realm: pos.realm }
}

impl BlockPos {
    /// Splits a voxel position by the padded chunk width, addressing
    /// the padded grid directly.
    pub fn from_unpadded(block_pos: BlockPos) -> (r: (ChunkPos, ChunkedPos))
        ensures
            r.0.x == block_pos.x as int / (CHUNKP_S1I as int),
            r.0.y == block_pos.y as int / (CHUNKP_S1I as int),
            r.0.z == block_pos.z as int / (CHUNKP_S1I as int),
            r.0.realm == block_pos.realm,
            r.1.0 == block_pos.x as int % (CHUNKP_S1I as int),
            r.1.1 == block_pos.y as int % (CHUNKP_S1I as int),
            r.1.2 == block_pos.z as int % (CHUNKP_S1I as int),
    {
        let (cx, dx) = un_padded_chunked(block_pos.x);
        let (cy, dy) = un_padded_chunked(block_pos.y);
        let (cz, dz) = un_padded_chunked(block_pos.z);
        (ChunkPos { x: cx, y: cy, z: cz, realm: block_pos.realm }, (dx, dy, dz))
    }
}

/// The chunk at height `y` in a column.
pub open spec fn spec_chunk_in_col(col: ColPos, y: int) -> ChunkPos {
    ChunkPos { x: col.x, y: y as i32, z: col.z, realm: col.realm }
}

/// All chunks of one column, bottom to top.
pub fn chunks_in_col(col_pos: &ColPos) -> (r: Vec<ChunkPos>)
    ensures
        r@.len() == Y_CHUNKS,
        forall|i: int| 0 <= i < Y_CHUNKS ==> r@[i] == spec_chunk_in_col(*col_pos, i),
{
    let mut r: Vec<ChunkPos> = Vec::new();
    let mut y: usize = 0;
    while y < Y_CHUNKS
        invariant
            y <= Y_CHUNKS,
            r@.len() == y,
            forall|i: int| 0 <= i < y ==> r@[i] == spec_chunk_in_col(*col_pos, i),
        decreases Y_CHUNKS - y,
    {
        r.push(ChunkPos { x: col_pos.x, y: y as i32, z: col_pos.z, realm: col_pos.realm });
        y = y + 1;
    }
    r
}

} // verus!
