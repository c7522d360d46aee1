//! The sparse voxel world: a table of tracked chunks keyed by chunk
//! position, block reads and writes over it, and the border propagation
//! that keeps every chunk's padding a mirror of its neighbors' boundary
//! voxels.

use vstd::prelude::*;

use crate::block::Block;
use crate::chunk::{spec_linearize, spec_pad_linearize, Chunk};
use crate::chunk_map::{
    chunk_map_clear, chunk_map_contains, chunk_map_get_clone, chunk_map_insert, chunk_map_len,
    chunk_map_new, chunk_map_remove, chunk_table,
};
use crate::pos::{
    block_to_chunked, spec_block_to_chunked, BlockPos, ChunkPos, ChunkedPos,
};
use crate::{CHUNKP_S1, CHUNKP_S2, CHUNKP_S3, CHUNK_S1, MAX_HEIGHT};

verus! {

/// One chunk plus its bookkeeping: whether generation finished, whether
/// a mesh job is running on it, and whether its mesh is stale.
#[derive(Clone, Debug)]
pub struct TrackedChunk {
    pub chunk: Chunk,
    pub loaded: bool,
    pub meshing: bool,
    pub changed: bool,
}

impl TrackedChunk {
    pub open spec fn wf(&self) -> bool {
        self.chunk.wf()
    }

    /// A fresh all-air chunk, loaded and mesh-dirty.
    pub fn new() -> (r: Self)
        ensures
            r.wf(),
            r.loaded,
            !r.meshing,
            r.changed,
            r.chunk.palette@ == seq![Block::Air],
            forall|j: int| 0 <= j < CHUNKP_S3 ==> r.chunk.spec_block_at(j) == Block::Air,
    {
        TrackedChunk { chunk: Chunk::new(), loaded: true, meshing: false, changed: true }
    }
}

/// Which way a local coordinate touches its chunk's border: -1 at the
/// low face, 1 at the high face, 0 in the interior.
pub open spec fn spec_border_sign(c: int) -> int {
    if c == 0 {
        -1
    } else if c == CHUNK_S1 - 1 {
        1
    } else {
        0
    }
}

fn border_sign(coord: usize) -> (r: i32)
    ensures
        r as int == spec_border_sign(coord as int),
{
    if coord == 0 {
        -1
    } else if coord == CHUNK_S1 - 1 {
        1
    } else {
        0
    }
}

/// A step a border write may take on one axis: none, or the border sign
/// where the coordinate sits on a border.
pub open spec fn spec_delta_ok(d: int, s: int) -> bool {
    d == 0 || (d == s && s != 0)
}

/// The chunk one offset away, in the same realm.
pub open spec fn spec_offset_chunk(cp: ChunkPos, dx: int, dy: int, dz: int) -> ChunkPos {
    ChunkPos {
        x: (cp.x + dx) as i32,
        y: (cp.y + dy) as i32,
        z: (cp.z + dz) as i32,
        realm: cp.realm,
    }
}

/// Whether a write at local `l` of chunk `cp` also writes chunk `q`:
/// `q` is offset from `cp` by a non-empty combination of border signs.
pub open spec fn spec_is_updated_neighbor(q: ChunkPos, cp: ChunkPos, l: ChunkedPos) -> bool {
    exists|dx: int, dy: int, dz: int|
        spec_delta_ok(dx, spec_border_sign(l.0 as int)) && spec_delta_ok(
            dy,
            spec_border_sign(l.1 as int),
        ) && spec_delta_ok(dz, spec_border_sign(l.2 as int)) && !(dx == 0 && dy == 0 && dz == 0)
            && q == #[trigger] spec_offset_chunk(cp, dx, dy, dz)
}

/// The padded-grid coordinate in the neighbor that mirrors local `l`
/// stepped by `d`: the far padding cell across the shared face, or the
/// same coordinate shifted into the neighbor's padded frame.
pub open spec fn spec_mirror_coord(l: int, d: int) -> int {
    if d == -1 {
        (CHUNKP_S1 - 1) as int
    } else if d == 1 {
        0
    } else {
        l + 1
    }
}

fn mirror_coord(l: usize, d: i32) -> (r: usize)
    requires
        l < CHUNK_S1,
    ensures
        r as int == spec_mirror_coord(l as int, d as int),
        r < CHUNKP_S1,
{
    if d == -1 {
        CHUNKP_S1 - 1
    } else if d == 1 {
        0
    } else {
        l + 1
    }
}

/// The whole world's block state, one tracked chunk per position that
/// has ever been written.
pub struct VoxelWorld {
    pub chunks: dashmap::DashMap<ChunkPos, TrackedChunk>,
}

impl VoxelWorld {
    /// The abstract table of chunks by position.
    pub open spec fn table(&self) -> Map<ChunkPos, TrackedChunk> {
        chunk_table(self.chunks)
    }

    /// Finitely many chunks, each well-formed.
    pub open spec fn wf(&self) -> bool {
        &&& self.table().dom().finite()
        &&& forall|p: ChunkPos| #[trigger] self.table().contains_key(p) ==> self.table()[p].wf()
    }

    /// The block the world holds at a voxel position; `Air` where no
    /// chunk has been created.
    pub open spec fn spec_block(&self, pos: BlockPos) -> Block {
        let (cp, l) = spec_block_to_chunked(pos);
        if self.table().contains_key(cp) {
            self.table()[cp].chunk.spec_get(l.0 as int, l.1 as int, l.2 as int)
        } else {
            Block::Air
        }
    }

    /// As `spec_block`, but `Air` outside the world's height range.
    pub open spec fn spec_block_safe(&self, pos: BlockPos) -> Block {
        if pos.y < 0 || pos.y >= MAX_HEIGHT as i32 {
            Block::Air
        } else {
            self.spec_block(pos)
        }
    }

    /// An empty world.
    pub fn new() -> (r: Self)
        ensures
            r.wf(),
            r.table() == Map::<ChunkPos, TrackedChunk>::empty(),
    {
        let mut chunks = chunk_map_new();
        chunk_map_clear(&mut chunks);
        proof {
            assert(chunk_table(chunks) =~= Map::<ChunkPos, TrackedChunk>::empty());
        }
        VoxelWorld { chunks }
    }

    /// Wraps an existing chunk table.
    pub fn new_with(chunks: dashmap::DashMap<ChunkPos, TrackedChunk>) -> (r: Self)
        requires
            chunk_table(chunks).dom().finite(),
            forall|p: ChunkPos| #[trigger] chunk_table(chunks).contains_key(p) ==> chunk_table(
                chunks,
            )[p].wf(),
        ensures
            r.wf(),
            r.table() == chunk_table(chunks),
    {
        VoxelWorld { chunks }
    }

    /// How many chunks have been created.
    pub fn chunk_count(&self) -> (r: usize)
        requires
            self.wf(),
        ensures
            r == self.table().dom().len(),
    {
        chunk_map_len(&self.chunks)
    }

    /// Reads a block; absent chunks read as `Air`.
    pub fn get_block(&self, pos: BlockPos) -> (r: Block)
        requires
            self.wf(),
        ensures
            r == self.spec_block(pos),
    {
        let (cp, l) = block_to_chunked(pos);
        match chunk_map_get_clone(&self.chunks, &cp) {
            None => Block::Air,
            Some(tc) => *tc.chunk.get(l),
        }
    }

    /// Reads a block, treating everything outside the world height as
    /// `Air`.
    pub fn get_block_safe(&self, pos: BlockPos) -> (r: Block)
        requires
            self.wf(),
        ensures
            r == self.spec_block_safe(pos),
    {
        if pos.y < 0 || pos.y >= MAX_HEIGHT as i32 {
            Block::Air
        } else {
            self.get_block(pos)
        }
    }

    /// Writes `block` into the padded grid of `ncp` (creating that
    /// chunk if absent) and marks it mesh-dirty. Every other chunk, and
    /// every other cell of `ncp`, stays as it was.
    fn update_neighbor_chunk(&mut self, ncp: ChunkPos, nlp: ChunkedPos, block: Block)
        requires
            old(self).wf(),
            nlp.0 < CHUNKP_S1,
            nlp.1 < CHUNKP_S1,
            nlp.2 < CHUNKP_S1,
        ensures
            final (self).wf(),
            final (self).table().dom() == old(self).table().dom().insert(ncp),
            forall|q: ChunkPos|
                q != ncp && old(self).table().contains_key(q) ==> #[trigger] final (self).table()[q] == old(self).table()[q],
            final (self).table().contains_key(ncp),
            final (self).table()[ncp].changed,
            final (self).table()[ncp].chunk.spec_block_at(
                spec_linearize(nlp.0 as int, nlp.1 as int, nlp.2 as int),
            ) == block,
            forall|j: int|
                0 <= j < CHUNKP_S3 && j != spec_linearize(nlp.0 as int, nlp.1 as int, nlp.2 as int)
                    ==> final (self).table()[ncp].chunk.spec_block_at(j) == (if old(self).table().contains_key(ncp) {
                    old(self).table()[ncp].chunk.spec_block_at(j)
                } else {
                    Block::Air
                }),
            final (self).table()[ncp].loaded == (if old(self).table().contains_key(ncp) {
                old(self).table()[ncp].loaded
            } else {
                true
            }),
            final (self).table()[ncp].meshing == (if old(self).table().contains_key(ncp) {
                old(self).table()[ncp].meshing
            } else {
                false
            }),
    {
        let mut tc = match chunk_map_remove(&mut self.chunks, &ncp) {
            Some(t) => t,
            None => TrackedChunk::new(),
        };
        tc.chunk.set_no_padding(nlp, block);
        tc.changed = true;
        chunk_map_insert(&mut self.chunks, ncp, tc);
        proof {
            assert(final (self).table().dom() =~= old(self).table().dom().insert(ncp));
        }
    }

    /// Marks a chunk mesh-dirty, if it exists; absent chunks are left
    /// absent.
    pub fn mark_change_single(&mut self, chunk_pos: ChunkPos)
        requires
            old(self).wf(),
        ensures
            final (self).wf(),
            final (self).table().dom() == old(self).table().dom(),
            forall|q: ChunkPos|
                q != chunk_pos && old(self).table().contains_key(q) ==> #[trigger] final (self).table()[q] == old(self).table()[q],
            old(self).table().contains_key(chunk_pos) ==> {
                &&& final (self).table()[chunk_pos].changed
                &&& final (self).table()[chunk_pos].chunk == old(self).table()[chunk_pos].chunk
                &&& final (self).table()[chunk_pos].loaded == old(self).table()[chunk_pos].loaded
                &&& final (self).table()[chunk_pos].meshing == old(self).table()[chunk_pos].meshing
            },
    {
        match chunk_map_remove(&mut self.chunks, &chunk_pos) {
            Some(mut tc) => {
                tc.changed = true;
                chunk_map_insert(&mut self.chunks, chunk_pos, tc);
                proof {
                    assert(final (self).table().dom() =~= old(self).table().dom());
                }
            },
            None => {
                proof {
                    assert(final (self).table().dom() =~= old(self).table().dom());
                }
            },
        }
    }

    /// After a write at local `l` of chunk `cp`, marks `cp` mesh-dirty
    /// and mirrors the written value into the padding of every neighbor
    /// that shares the touched border: up to three faces, three edges
    /// and one corner. Missing neighbors are created.
    #[verifier::spinoff_prover]
    #[verifier::rlimit(100)]
    pub fn mark_change(&mut self, chunk_pos: ChunkPos, chunked_pos: ChunkedPos, block: Block)
        requires
            old(self).wf(),
            chunked_pos.0 < CHUNK_S1,
            chunked_pos.1 < CHUNK_S1,
            chunked_pos.2 < CHUNK_S1,
            i32::MIN < chunk_pos.x as int - 1 && chunk_pos.x as int + 1 <= i32::MAX,
            i32::MIN < chunk_pos.y as int - 1 && chunk_pos.y as int + 1 <= i32::MAX,
            i32::MIN < chunk_pos.z as int - 1 && chunk_pos.z as int + 1 <= i32::MAX,
        ensures
            final (self).wf(),
            forall|q: ChunkPos|
                #[trigger] final (self).table().contains_key(q) <==> (old(self).table().contains_key(q) || spec_is_updated_neighbor(q, chunk_pos, chunked_pos)),
            forall|q: ChunkPos|
                old(self).table().contains_key(q) && q != chunk_pos && !spec_is_updated_neighbor(
                    q,
                    chunk_pos,
                    chunked_pos,
                ) ==> #[trigger] final (self).table()[q] == old(self).table()[q],
            old(self).table().contains_key(chunk_pos) ==> {
                &&& final (self).table()[chunk_pos].changed
                &&& final (self).table()[chunk_pos].chunk == old(self).table()[chunk_pos].chunk
            },
            forall|dx: int, dy: int, dz: int|
                spec_delta_ok(dx, spec_border_sign(chunked_pos.0 as int)) && spec_delta_ok(
                    dy,
                    spec_border_sign(chunked_pos.1 as int),
                ) && spec_delta_ok(dz, spec_border_sign(chunked_pos.2 as int)) && !(dx == 0 && dy
                    == 0 && dz == 0) ==> {
                    let q = #[trigger] spec_offset_chunk(chunk_pos, dx, dy, dz);
                    let nj = spec_linearize(
                        spec_mirror_coord(chunked_pos.0 as int, dx),
                        spec_mirror_coord(chunked_pos.1 as int, dy),
                        spec_mirror_coord(chunked_pos.2 as int, dz),
                    );
                    &&& final (self).table().contains_key(q)
                    &&& final (self).table()[q].changed
                    &&& final (self).table()[q].chunk.spec_block_at(nj) == block
                    &&& q != chunk_pos ==> forall|j: int|
                        0 <= j < CHUNKP_S3 && j != nj ==> final (self).table()[q].chunk.spec_block_at(j) == (if old(self).table().contains_key(q) {
                            old(self).table()[q].chunk.spec_block_at(j)
                        } else {
                            Block::Air
                        })
                },
    {
        let (lx, ly, lz) = chunked_pos;
        let sx = border_sign(lx);
        let sy = border_sign(ly);
        let sz = border_sign(lz);
        self.mark_change_single(chunk_pos);
        let ghost after_mark = *self;
        if sx == 0 && sy == 0 && sz == 0 {
            proof {
                assert forall|q: ChunkPos|
                    !spec_is_updated_neighbor(q, chunk_pos, chunked_pos) by {}
            }
            return ;
        }
        if sx != 0 {
            let ncp = offset_chunk(chunk_pos, sx, 0, 0);
            self.update_neighbor_chunk(
                ncp,
                (mirror_coord(lx, sx), mirror_coord(ly, 0), mirror_coord(lz, 0)),
                block,
            );
        }
        if sy != 0 {
            let ncp = offset_chunk(chunk_pos, 0, sy, 0);
            self.update_neighbor_chunk(
                ncp,
                (mirror_coord(lx, 0), mirror_coord(ly, sy), mirror_coord(lz, 0)),
                block,
            );
        }
        if sz != 0 {
            let ncp = offset_chunk(chunk_pos, 0, 0, sz);
            self.update_neighbor_chunk(
                ncp,
                (mirror_coord(lx, 0), mirror_coord(ly, 0), mirror_coord(lz, sz)),
                block,
            );
        }
        if sx != 0 && sy != 0 {
            let ncp = offset_chunk(chunk_pos, sx, sy, 0);
            self.update_neighbor_chunk(
                ncp,
                (mirror_coord(lx, sx), mirror_coord(ly, sy), mirror_coord(lz, 0)),
                block,
            );
        }
        if sx != 0 && sz != 0 {
            let ncp = offset_chunk(chunk_pos, sx, 0, sz);
            self.update_neighbor_chunk(
                ncp,
                (mirror_coord(lx, sx), mirror_coord(ly, 0), mirror_coord(lz, sz)),
                block,
            );
        }
        if sy != 0 && sz != 0 {
            let ncp = offset_chunk(chunk_pos, 0, sy, sz);
            self.update_neighbor_chunk(
                ncp,
                (mirror_coord(lx, 0), mirror_coord(ly, sy), mirror_coord(lz, sz)),
                block,
            );
        }
        if sx != 0 && sy != 0 && sz != 0 {
            let ncp = offset_chunk(chunk_pos, sx, sy, sz);
            self.update_neighbor_chunk(
                ncp,
                (mirror_coord(lx, sx), mirror_coord(ly, sy), mirror_coord(lz, sz)),
                block,
            );
        }
    }
}


/// Cells of the padded grid are addressed uniquely: equal flat indices
/// mean equal coordinates.
pub proof fn lemma_linearize_injective(x1: int, y1: int, z1: int, x2: int, y2: int, z2: int)
    requires
        0 <= x1 < CHUNKP_S1,
        0 <= y1 < CHUNKP_S1,
        0 <= z1 < CHUNKP_S1,
        0 <= x2 < CHUNKP_S1,
        0 <= y2 < CHUNKP_S1,
        0 <= z2 < CHUNKP_S1,
        spec_linearize(x1, y1, z1) == spec_linearize(x2, y2, z2),
    ensures
        x1 == x2 && y1 == y2 && z1 == z2,
{
    assert(CHUNKP_S1 as int == 64 && CHUNKP_S2 as int == 4096);
    assert(z1 + x1 * 64 + y1 * 4096 == z2 + x2 * 64 + y2 * 4096);
}

/// A voxel position is recovered from its chunk and local coordinates.
pub proof fn lemma_block_pos_recover(p: BlockPos)
    ensures
        ({
            let (cp, l) = spec_block_to_chunked(p);
            &&& p.x == cp.x * (CHUNK_S1 as int) + l.0
            &&& p.y == cp.y * (CHUNK_S1 as int) + l.1
            &&& p.z == cp.z * (CHUNK_S1 as int) + l.2
            &&& p.realm == cp.realm
            &&& 0 <= l.0 < CHUNK_S1 && 0 <= l.1 < CHUNK_S1 && 0 <= l.2 < CHUNK_S1
        }),
{
    vstd::arithmetic::div_mod::lemma_fundamental_div_mod(p.x as int, CHUNK_S1 as int);
    vstd::arithmetic::div_mod::lemma_fundamental_div_mod(p.y as int, CHUNK_S1 as int);
    vstd::arithmetic::div_mod::lemma_fundamental_div_mod(p.z as int, CHUNK_S1 as int);
    vstd::arithmetic::div_mod::lemma_mod_bound(p.x as int, CHUNK_S1 as int);
    vstd::arithmetic::div_mod::lemma_mod_bound(p.y as int, CHUNK_S1 as int);
    vstd::arithmetic::div_mod::lemma_mod_bound(p.z as int, CHUNK_S1 as int);
}

/// Distinct voxel positions never share both chunk and local coordinates.
pub proof fn lemma_block_to_chunked_injective(p1: BlockPos, p2: BlockPos)
    requires
        spec_block_to_chunked(p1) == spec_block_to_chunked(p2),
    ensures
        p1 == p2,
{
    lemma_block_pos_recover(p1);
    lemma_block_pos_recover(p2);
}

/// What one block write leaves behind: the written cell holds the
/// block; every other voxel position of the world reads as before; the
/// written chunk and exactly the touched border neighbors are
/// mesh-dirty, with the padding mirror cells holding the block.
pub open spec fn spec_set_block_post(
    pre: VoxelWorld,
    post: VoxelWorld,
    pos: BlockPos,
    block: Block,
) -> bool {
    let (cp, l) = spec_block_to_chunked(pos);
    &&& post.wf()
    &&& post.spec_block(pos) == block
    &&& forall|p2: BlockPos| p2 != pos ==> post.spec_block(p2) == pre.spec_block(p2)
    &&& forall|q: ChunkPos|
        #[trigger] post.table().contains_key(q) <==> (pre.table().contains_key(q) || q == cp
            || spec_is_updated_neighbor(q, cp, l))
    &&& forall|q: ChunkPos|
        pre.table().contains_key(q) && q != cp && !spec_is_updated_neighbor(q, cp, l)
            ==> #[trigger] post.table()[q] == pre.table()[q]
    &&& post.table().contains_key(cp)
    &&& post.table()[cp].changed
    &&& post.table()[cp].chunk.palette@ == {
        let base = if pre.table().contains_key(cp) {
            pre.table()[cp].chunk.palette@
        } else {
            seq![Block::Air]
        };
        if base.contains(block) {
            base
        } else {
            base.push(block)
        }
    }
    &&& forall|dx: int, dy: int, dz: int|
        spec_delta_ok(dx, spec_border_sign(l.0 as int)) && spec_delta_ok(
            dy,
            spec_border_sign(l.1 as int),
        ) && spec_delta_ok(dz, spec_border_sign(l.2 as int)) && !(dx == 0 && dy == 0 && dz == 0)
            ==> {
            let q = #[trigger] spec_offset_chunk(cp, dx, dy, dz);
            let nj = spec_linearize(
                spec_mirror_coord(l.0 as int, dx),
                spec_mirror_coord(l.1 as int, dy),
                spec_mirror_coord(l.2 as int, dz),
            );
            &&& post.table().contains_key(q)
            &&& post.table()[q].changed
            &&& post.table()[q].chunk.spec_block_at(nj) == block
        }
}

/// How many cells one column fill writes: `height` steps down from
/// `top`, clipped at the world bottom.
pub open spec fn spec_fill_count(top: int, height: nat) -> nat {
    if top < 0 {
        0
    } else if top + 1 < height {
        (top + 1) as nat
    } else {
        height
    }
}

/// The world after a column fill: a chain of `count` single-block
/// writes at `(bx, top, bz)`, `(bx, top - 1, bz)`, ..., each step with
/// the full effect of one block write — the value stored, the touched
/// chunks marked mesh-dirty, and the border mirrors written.
pub open spec fn spec_fill_post(
    pre: VoxelWorld,
    post: VoxelWorld,
    bx: int,
    bz: int,
    realm: crate::pos::Realm,
    top: int,
    count: nat,
    block: Block,
) -> bool
    decreases count,
{
    if count == 0 {
        post == pre
    } else {
        exists|mid: VoxelWorld|
            #[trigger] spec_set_block_post(
                pre,
                mid,
                BlockPos { x: bx as i32, y: top as i32, z: bz as i32, realm },
                block,
            ) && spec_fill_post(mid, post, bx, bz, realm, top - 1, (count - 1) as nat, block)
    }
}

/// One more write extends a fill chain by one step.
proof fn lemma_fill_post_extend(
    pre: VoxelWorld,
    mid: VoxelWorld,
    post: VoxelWorld,
    bx: int,
    bz: int,
    realm: crate::pos::Realm,
    top: int,
    count: nat,
    block: Block,
)
    requires
        spec_fill_post(pre, mid, bx, bz, realm, top, count, block),
        spec_set_block_post(
            mid,
            post,
            BlockPos { x: bx as i32, y: (top - count) as i32, z: bz as i32, realm },
            block,
        ),
    ensures
        spec_fill_post(pre, post, bx, bz, realm, top, (count + 1) as nat, block),
    decreases count,
{
    if count == 0 {
        assert(mid == pre);
        assert(spec_set_block_post(
            pre,
            post,
            BlockPos { x: bx as i32, y: top as i32, z: bz as i32, realm },
            block,
        ));
        assert(spec_fill_post(post, post, bx, bz, realm, top - 1, 0, block));
    } else {
        let m = choose|m: VoxelWorld|
            #[trigger] spec_set_block_post(
                pre,
                m,
                BlockPos { x: bx as i32, y: top as i32, z: bz as i32, realm },
                block,
            ) && spec_fill_post(m, mid, bx, bz, realm, top - 1, (count - 1) as nat, block);
        lemma_fill_post_extend(m, mid, post, bx, bz, realm, top - 1, (count - 1) as nat, block);
        assert(spec_fill_post(m, post, bx, bz, realm, top - 1, count, block));
    }
}

impl VoxelWorld {
    /// Writes a block, creating the chunk if absent, marking it dirty,
    /// and mirroring the value into every border neighbor's padding.
    pub fn set_block(&mut self, pos: BlockPos, block: Block)
        requires
            old(self).wf(),
        ensures
            final (self).wf(),
            spec_set_block_post(*old(self), *final (self), pos, block),
    {
        let (cp, l) = block_to_chunked(pos);
        let mut tc = match chunk_map_remove(&mut self.chunks, &cp) {
            Some(t) => t,
            None => TrackedChunk::new(),
        };
        tc.chunk.set(l, block);
        tc.changed = true;
        chunk_map_insert(&mut self.chunks, cp, tc);
        let ghost mid = *self;
        proof {
            assert(mid.table().dom() =~= old(self).table().dom().insert(cp));
        }
        self.mark_change(cp, l, block);
        proof {
            let ghost lint = (l.0 as int, l.1 as int, l.2 as int);
            assert(final (self).table().contains_key(cp));
            assert forall|q: ChunkPos| #[trigger]
                final (self).table().contains_key(q) <==> (old(self).table().contains_key(q) || q
                    == cp || spec_is_updated_neighbor(q, cp, l)) by {}
            assert(final (self).spec_block(pos) == block) by {
                assert(mid.table()[cp].chunk.spec_get(lint.0, lint.1, lint.2) == block);
                if spec_is_updated_neighbor(cp, cp, l) {
                    let (dx, dy, dz) = choose|dx: int, dy: int, dz: int|
                        spec_delta_ok(dx, spec_border_sign(lint.0)) && spec_delta_ok(
                            dy,
                            spec_border_sign(lint.1),
                        ) && spec_delta_ok(dz, spec_border_sign(lint.2)) && !(dx == 0 && dy == 0
                            && dz == 0) && cp == spec_offset_chunk(cp, dx, dy, dz);
                    assert(false);
                }
                assert(final (self).table()[cp].chunk == mid.table()[cp].chunk);
            }
            assert forall|p2: BlockPos| p2 != pos implies final (self).spec_block(p2) == old(self).spec_block(p2) by {
                self.lemma_block_preserved(*old(self), mid, pos, p2, block, cp, l);
            }
        }
    }

    /// One written position leaves every other position's block alone:
    /// interior writes touch one cell, and border mirrors land only in
    /// padding cells, which no block read addresses.
    proof fn lemma_block_preserved(
        &self,
        pre: VoxelWorld,
        mid: VoxelWorld,
        pos: BlockPos,
        p2: BlockPos,
        block: Block,
        cp: ChunkPos,
        l: ChunkedPos,
    )
        requires
            p2 != pos,
            pre.wf(),
            (cp, l) == spec_block_to_chunked(pos),
            l.0 < CHUNK_S1 && l.1 < CHUNK_S1 && l.2 < CHUNK_S1,
            // the interior write
            mid.table().dom() == pre.table().dom().insert(cp),
            forall|q: ChunkPos|
                q != cp && pre.table().contains_key(q) ==> #[trigger] mid.table()[q]
                    == pre.table()[q],
            mid.table().contains_key(cp),
            forall|j: int|
                0 <= j < CHUNKP_S3 && j != spec_pad_linearize(l.0 as int, l.1 as int, l.2 as int)
                    ==> #[trigger] mid.table()[cp].chunk.spec_block_at(j) == (if pre
                    .table()
                    .contains_key(cp) {
                    pre.table()[cp].chunk.spec_block_at(j)
                } else {
                    Block::Air
                }),
            // the propagation
            forall|q: ChunkPos|
                #[trigger] self.table().contains_key(q) <==> (mid.table().contains_key(q)
                    || spec_is_updated_neighbor(q, cp, l)),
            forall|q: ChunkPos|
                mid.table().contains_key(q) && q != cp && !spec_is_updated_neighbor(q, cp, l)
                    ==> #[trigger] self.table()[q] == mid.table()[q],
            mid.table().contains_key(cp) ==> self.table()[cp].chunk == mid.table()[cp].chunk,
            forall|dx: int, dy: int, dz: int|
                spec_delta_ok(dx, spec_border_sign(l.0 as int)) && spec_delta_ok(
                    dy,
                    spec_border_sign(l.1 as int),
                ) && spec_delta_ok(dz, spec_border_sign(l.2 as int)) && !(dx == 0 && dy == 0 && dz
                    == 0) ==> {
                    let q = #[trigger] spec_offset_chunk(cp, dx, dy, dz);
                    let nj = spec_linearize(
                        spec_mirror_coord(l.0 as int, dx),
                        spec_mirror_coord(l.1 as int, dy),
                        spec_mirror_coord(l.2 as int, dz),
                    );
                    q != cp ==> forall|j: int|
                        0 <= j < CHUNKP_S3 && j != nj ==> #[trigger] self
                            .table()[q]
                            .chunk
                            .spec_block_at(j) == (if mid.table().contains_key(q) {
                            mid.table()[q].chunk.spec_block_at(j)
                        } else {
                            Block::Air
                        })
                },
        ensures
            self.spec_block(p2) == pre.spec_block(p2),
    {
        let (cp2, l2) = spec_block_to_chunked(p2);
        let j2 = spec_pad_linearize(l2.0 as int, l2.1 as int, l2.2 as int);
        lemma_block_pos_recover(pos);
        lemma_block_pos_recover(p2);
        if cp2 == cp {
            if l2 == l {
                lemma_block_to_chunked_injective(pos, p2);
                assert(false);
            }
            assert(j2 != spec_pad_linearize(l.0 as int, l.1 as int, l.2 as int)) by {
                if j2 == spec_pad_linearize(l.0 as int, l.1 as int, l.2 as int) {
                    lemma_linearize_injective(
                        l2.0 + 1,
                        l2.1 + 1,
                        l2.2 + 1,
                        l.0 + 1,
                        l.1 + 1,
                        l.2 + 1,
                    );
                    assert(false);
                }
            }
            if spec_is_updated_neighbor(cp, cp, l) {
                let (dx, dy, dz) = choose|dx: int, dy: int, dz: int|
                    spec_delta_ok(dx, spec_border_sign(l.0 as int)) && spec_delta_ok(
                        dy,
                        spec_border_sign(l.1 as int),
                    ) && spec_delta_ok(dz, spec_border_sign(l.2 as int)) && !(dx == 0 && dy == 0
                        && dz == 0) && cp == spec_offset_chunk(cp, dx, dy, dz);
                assert(false);
            }
            assert(self.table()[cp].chunk == mid.table()[cp].chunk);
            assert(mid.table()[cp].chunk.spec_block_at(j2) == (if pre.table().contains_key(cp) {
                pre.table()[cp].chunk.spec_block_at(j2)
            } else {
                Block::Air
            }));
        } else {
            if spec_is_updated_neighbor(cp2, cp, l) {
                let (dx, dy, dz) = choose|dx: int, dy: int, dz: int|
                    spec_delta_ok(dx, spec_border_sign(l.0 as int)) && spec_delta_ok(
                        dy,
                        spec_border_sign(l.1 as int),
                    ) && spec_delta_ok(dz, spec_border_sign(l.2 as int)) && !(dx == 0 && dy == 0
                        && dz == 0) && cp2 == spec_offset_chunk(cp, dx, dy, dz);
                let nj = spec_linearize(
                    spec_mirror_coord(l.0 as int, dx),
                    spec_mirror_coord(l.1 as int, dy),
                    spec_mirror_coord(l.2 as int, dz),
                );
                assert(j2 != nj) by {
                    let mx = spec_mirror_coord(l.0 as int, dx);
                    let my = spec_mirror_coord(l.1 as int, dy);
                    let mz = spec_mirror_coord(l.2 as int, dz);
                    assert(0 <= mx < CHUNKP_S1 && 0 <= my < CHUNKP_S1 && 0 <= mz < CHUNKP_S1);
                    if j2 == nj {
                        lemma_linearize_injective(
                            l2.0 + 1,
                            l2.1 + 1,
                            l2.2 + 1,
                            mx,
                            my,
                            mz,
                        );
                        // a mirror coordinate on a stepped axis is 0 or
                        // CHUNKP_S1 - 1, outside the interior band
                        assert(dx != 0 || dy != 0 || dz != 0);
                        assert(false);
                    }
                }
                assert(self.table()[cp2].chunk.spec_block_at(j2) == (if mid.table().contains_key(
                    cp2,
                ) {
                    mid.table()[cp2].chunk.spec_block_at(j2)
                } else {
                    Block::Air
                }));
                if mid.table().contains_key(cp2) {
                    if pre.table().contains_key(cp2) {
                        assert(mid.table()[cp2] == pre.table()[cp2]);
                    } else {
                        assert(false);
                    }
                } else {
                    assert(!pre.table().contains_key(cp2));
                    assert(self.spec_block(p2) == Block::Air);
                }
            } else {
                if pre.table().contains_key(cp2) {
                    assert(mid.table()[cp2] == pre.table()[cp2]);
                    assert(self.table()[cp2] == mid.table()[cp2]);
                } else {
                    assert(!self.table().contains_key(cp2));
                }
            }
        }
    }

    /// Writes a block only where the position lies within the world's
    /// height; reports whether it wrote.
    pub fn set_block_safe(&mut self, pos: BlockPos, block: Block) -> (r: bool)
        requires
            old(self).wf(),
        ensures
            final (self).wf(),
            r == (0 <= pos.y < MAX_HEIGHT),
            !r ==> final (self).table() == old(self).table(),
            r ==> spec_set_block_post(*old(self), *final (self), pos, block),
    {
        if pos.y < 0 || pos.y >= MAX_HEIGHT as i32 {
            return false;
        }
        self.set_block(pos, block);
        true
    }
}


impl VoxelWorld {
    /// Writes a block only where the cell currently reads as `Air`;
    /// otherwise the world is left untouched.
    pub fn set_if_empty(&mut self, pos: BlockPos, block: Block)
        requires
            old(self).wf(),
        ensures
            final (self).wf(),
            old(self).spec_block(pos) == Block::Air ==> spec_set_block_post(
                *old(self),
                *final (self),
                pos,
                block,
            ),
            old(self).spec_block(pos) != Block::Air ==> final (self).table() == old(self).table(),
    {
        let current = self.get_block(pos);
        if current == Block::Air {
            self.set_block(pos, block);
        }
    }

    /// Marks a chunk as fully generated and mesh-dirty; reports whether
    /// the chunk existed.
    pub fn set_loaded(&mut self, chunk_pos: ChunkPos) -> (r: bool)
        requires
            old(self).wf(),
        ensures
            final (self).wf(),
            r == old(self).table().contains_key(chunk_pos),
            !r ==> final (self).table() == old(self).table(),
            r ==> {
                &&& final (self).table().dom() == old(self).table().dom()
                &&& final (self).table()[chunk_pos].loaded
                &&& final (self).table()[chunk_pos].changed
                &&& final (self).table()[chunk_pos].chunk == old(self).table()[chunk_pos].chunk
                &&& forall|q: ChunkPos|
                    q != chunk_pos && old(self).table().contains_key(q) ==> #[trigger] final (self).table()[q] == old(self).table()[q]
            },
    {
        match chunk_map_remove(&mut self.chunks, &chunk_pos) {
            Some(mut tc) => {
                tc.loaded = true;
                tc.changed = true;
                chunk_map_insert(&mut self.chunks, chunk_pos, tc);
                proof {
                    assert(final (self).table().dom() =~= old(self).table().dom());
                }
                true
            },
            None => false,
        }
    }

    /// Fills one vertical run of a column: blocks at `top`, `top - 1`,
    /// ... for `height` steps, stopping above world bottom.
    pub fn set_yrange(
        &mut self,
        col_pos: crate::pos::ColPos,
        coled: crate::pos::ColedPos,
        top: i32,
        height: usize,
        block: Block,
    )
        requires
            old(self).wf(),
            coled.0 < CHUNK_S1,
            coled.1 < CHUNK_S1,
            height <= i32::MAX,
            i32::MIN <= col_pos.x as int * CHUNK_S1 as int + coled.0 as int <= i32::MAX,
            i32::MIN <= col_pos.z as int * CHUNK_S1 as int + coled.1 as int <= i32::MAX,
        ensures
            final (self).wf(),
            ({
                let bx = col_pos.x as int * CHUNK_S1 as int + coled.0 as int;
                let bz = col_pos.z as int * CHUNK_S1 as int + coled.1 as int;
                &&& forall|y: int|
                    top - height < y <= top && 0 <= y ==> #[trigger] final (self).spec_block(
                        BlockPos {
                            x: bx as i32,
                            y: y as i32,
                            z: bz as i32,
                            realm: col_pos.realm,
                        },
                    ) == block
                &&& forall|p2: BlockPos|
                    !(p2.x == bx && p2.z == bz && p2.realm == col_pos.realm && top - height
                        < p2.y <= top && 0 <= p2.y) ==> final (self).spec_block(p2) == old(self).spec_block(p2)
                &&& spec_fill_post(
                    *old(self),
                    *final (self),
                    bx,
                    bz,
                    col_pos.realm,
                    top as int,
                    spec_fill_count(top as int, height as nat),
                    block,
                )
            }),
    {
        let base_x = crate::pos::unchunked(col_pos.x, coled.0);
        let base_z = crate::pos::unchunked(col_pos.z, coled.1);
        let ghost bx = base_x as int;
        let ghost bz = base_z as int;
        let mut y_offset: usize = 0;
        while y_offset < height
            invariant
                self.wf(),
                old(self).wf(),
                bx == base_x as int,
                bz == base_z as int,
                bx == col_pos.x as int * CHUNK_S1 as int + coled.0 as int,
                bz == col_pos.z as int * CHUNK_S1 as int + coled.1 as int,
                y_offset <= height,
                height <= i32::MAX,
                y_offset == 0 || y_offset <= top + 1,
                spec_fill_post(
                    *old(self),
                    *self,
                    bx,
                    bz,
                    col_pos.realm,
                    top as int,
                    y_offset as nat,
                    block,
                ),
                forall|y: int|
                    top - y_offset < y <= top && 0 <= y ==> #[trigger] self.spec_block(
                        BlockPos {
                            x: bx as i32,
                            y: y as i32,
                            z: bz as i32,
                            realm: col_pos.realm,
                        },
                    ) == block,
                forall|p2: BlockPos|
                    !(p2.x == bx && p2.z == bz && p2.realm == col_pos.realm && top - y_offset
                        < p2.y <= top && 0 <= p2.y) ==> self.spec_block(p2) == old(self).spec_block(p2),
            decreases height - y_offset,
        {
            if top < y_offset as i32 {
                proof {
                    assert forall|y: int| top - height < y <= top && 0 <= y implies #[trigger] self
                        .spec_block(
                        BlockPos { x: bx as i32, y: y as i32, z: bz as i32, realm: col_pos.realm },
                    ) == block by {
                        assert(top - y_offset < y);
                    }
                    assert forall|p2: BlockPos|
                        !(p2.x == bx && p2.z == bz && p2.realm == col_pos.realm && top - height
                            < p2.y <= top && 0 <= p2.y) implies self.spec_block(p2) == old(self).spec_block(p2) by {
                        if p2.x == bx && p2.z == bz && p2.realm == col_pos.realm && top - y_offset
                            < p2.y <= top && 0 <= p2.y {
                            assert(top - height < p2.y);
                        }
                    }
                    assert(y_offset as nat == spec_fill_count(top as int, height as nat));
                }
                return ;
            }
            let y = top - y_offset as i32;
            let pos = BlockPos { x: base_x, y, z: base_z, realm: col_pos.realm };
            let ghost before = *self;
            self.set_block(pos, block);
            proof {
                lemma_fill_post_extend(
                    *old(self),
                    before,
                    *self,
                    bx,
                    bz,
                    col_pos.realm,
                    top as int,
                    y_offset as nat,
                    block,
                );
                assert forall|p2: BlockPos|
                    !(p2.x == bx && p2.z == bz && p2.realm == col_pos.realm && top - (y_offset + 1)
                        < p2.y <= top && 0 <= p2.y) implies self.spec_block(p2) == old(self).spec_block(p2) by {
                    assert(p2 != pos);
                }
                assert forall|yy: int| top - (y_offset + 1) < yy <= top && 0 <= yy implies #[trigger] self
                    .spec_block(
                    BlockPos { x: bx as i32, y: yy as i32, z: bz as i32, realm: col_pos.realm },
                ) == block by {
                    if yy != y {
                        let p2 = BlockPos {
                            x: bx as i32,
                            y: yy as i32,
                            z: bz as i32,
                            realm: col_pos.realm,
                        };
                        assert(p2 != pos);
                        assert(before.spec_block(p2) == block);
                    }
                }
            }
            y_offset = y_offset + 1;
        }
        proof {
            assert forall|y: int| top - height < y <= top && 0 <= y implies #[trigger] final (self).spec_block(
                BlockPos { x: bx as i32, y: y as i32, z: bz as i32, realm: col_pos.realm },
            ) == block by {}
            assert(height as nat == spec_fill_count(top as int, height as nat));
        }
    }

    /// Whether any chunk of the column under a position exists.
    pub fn is_col_loaded(&self, col: crate::pos::ColPos) -> (r: bool)
        requires
            self.wf(),
        ensures
            r == exists|y: int|
                0 <= y < crate::Y_CHUNKS && #[trigger] self.table().contains_key(
                    crate::pos::spec_chunk_in_col(col, y),
                ),
    {
        let mut y: usize = 0;
        while y < crate::Y_CHUNKS
            invariant
                self.wf(),
                y <= crate::Y_CHUNKS,
                forall|yy: int|
                    0 <= yy < y ==> !#[trigger] self.table().contains_key(
                        crate::pos::spec_chunk_in_col(col, yy),
                    ),
            decreases crate::Y_CHUNKS - y,
        {
            let cq = ChunkPos { x: col.x, y: y as i32, z: col.z, realm: col.realm };
            if chunk_map_contains(&self.chunks, &cq) {
                proof {
                    assert(self.table().contains_key(
                        crate::pos::spec_chunk_in_col(col, y as int),
                    ));
                }
                return true;
            }
            y = y + 1;
        }
        false
    }

    /// Marks every existing chunk of a column mesh-dirty.
    pub fn mark_change_col(&mut self, col_pos: crate::pos::ColPos)
        requires
            old(self).wf(),
        ensures
            final (self).wf(),
            final (self).table().dom() == old(self).table().dom(),
            forall|q: ChunkPos|
                old(self).table().contains_key(q) && !(exists|y: int|
                    0 <= y < crate::Y_CHUNKS && q == crate::pos::spec_chunk_in_col(col_pos, y))
                    ==> #[trigger] final (self).table()[q] == old(self).table()[q],
            forall|y: int|
                0 <= y < crate::Y_CHUNKS && old(self).table().contains_key(
                    #[trigger] crate::pos::spec_chunk_in_col(col_pos, y),
                ) ==> {
                    &&& final (self).table()[crate::pos::spec_chunk_in_col(col_pos, y)].changed
                    &&& final (self).table()[crate::pos::spec_chunk_in_col(col_pos, y)].chunk
                        == old(self).table()[crate::pos::spec_chunk_in_col(col_pos, y)].chunk
                },
    {
        let mut y: usize = 0;
        while y < crate::Y_CHUNKS
            invariant
                self.wf(),
                old(self).wf(),
                y <= crate::Y_CHUNKS,
                self.table().dom() == old(self).table().dom(),
                forall|q: ChunkPos|
                    old(self).table().contains_key(q) && !(exists|yy: int|
                        0 <= yy < y && q == crate::pos::spec_chunk_in_col(col_pos, yy))
                        ==> #[trigger] self.table()[q] == old(self).table()[q],
                forall|yy: int|
                    0 <= yy < y && old(self).table().contains_key(
                        #[trigger] crate::pos::spec_chunk_in_col(col_pos, yy),
                    ) ==> {
                        &&& self.table()[crate::pos::spec_chunk_in_col(col_pos, yy)].changed
                        &&& self.table()[crate::pos::spec_chunk_in_col(col_pos, yy)].chunk == old(self).table()[crate::pos::spec_chunk_in_col(col_pos, yy)].chunk
                    },
            decreases crate::Y_CHUNKS - y,
        {
            let cq = ChunkPos { x: col_pos.x, y: y as i32, z: col_pos.z, realm: col_pos.realm };
            let ghost before = *self;
            self.mark_change_single(cq);
            proof {
                assert(cq == crate::pos::spec_chunk_in_col(col_pos, y as int));
                assert forall|q: ChunkPos|
                    old(self).table().contains_key(q) && !(exists|yy: int|
                        0 <= yy < y + 1 && q == crate::pos::spec_chunk_in_col(col_pos, yy))
                        implies #[trigger] self.table()[q] == old(self).table()[q] by {
                    assert(q != cq);
                    assert(before.table()[q] == old(self).table()[q]);
                }
            }
            y = y + 1;
        }
    }

    /// Removes every chunk of a column from the world.
    pub fn unload_col(&mut self, col: crate::pos::ColPos)
        requires
            old(self).wf(),
        ensures
            final (self).wf(),
            forall|q: ChunkPos|
                #[trigger] final (self).table().contains_key(q) <==> (old(self).table().contains_key(q) && !(exists|y: int|
                    0 <= y < crate::Y_CHUNKS && q == crate::pos::spec_chunk_in_col(col, y))),
            forall|q: ChunkPos|
                final (self).table().contains_key(q) ==> #[trigger] final (self).table()[q] == old(self).table()[q],
    {
        let mut y: usize = 0;
        while y < crate::Y_CHUNKS
            invariant
                self.wf(),
                old(self).wf(),
                y <= crate::Y_CHUNKS,
                forall|q: ChunkPos|
                    #[trigger] self.table().contains_key(q) <==> (old(self).table().contains_key(q) && !(exists|yy: int|
                        0 <= yy < y && q == crate::pos::spec_chunk_in_col(col, yy))),
                forall|q: ChunkPos|
                    self.table().contains_key(q) ==> #[trigger] self.table()[q] == old(self).table()[q],
            decreases crate::Y_CHUNKS - y,
        {
            let cq = ChunkPos { x: col.x, y: y as i32, z: col.z, realm: col.realm };
            let r = chunk_map_remove(&mut self.chunks, &cq);
            proof {
                assert(cq == crate::pos::spec_chunk_in_col(col, y as int));
            }
            y = y + 1;
        }
    }
}

/// A hit from the voxel ray walk: the block met and the unit normal of
/// the face the ray entered through.
#[derive(Clone, Copy, Debug)]
pub struct BlockRayCastHit {
    pub pos: BlockPos,
    pub normal: (i32, i32, i32),
}

impl PartialEq for BlockRayCastHit {
    /// Hits compare by the block they struck, as the callers that
    /// deduplicate targets expect.
    fn eq(&self, o: &BlockRayCastHit) -> (r: bool) {
        self.pos == o.pos
    }
}

impl vstd::std_specs::cmp::PartialEqSpecImpl for BlockRayCastHit {
    open spec fn obeys_eq_spec() -> bool {
        true
    }

    open spec fn eq_spec(&self, o: &BlockRayCastHit) -> bool {
        self.pos == o.pos
    }
}

impl VoxelWorld {
    /// One probe of the voxel ray walk (the walk itself steps with real
    /// arithmetic outside the library): where the probed position holds
    /// a targetable block, the hit, its normal pointing back at the cell
    /// the ray came from.
    pub fn raycast_step(&self, pos: BlockPos, last_pos: BlockPos) -> (r: Option<BlockRayCastHit>)
        requires
            self.wf(),
            i32::MIN <= last_pos.x as int - pos.x as int <= i32::MAX,
            i32::MIN <= last_pos.y as int - pos.y as int <= i32::MAX,
            i32::MIN <= last_pos.z as int - pos.z as int <= i32::MAX,
        ensures
            r is Some <==> crate::block::spec_is_targetable(self.spec_block_safe(pos)),
            r matches Some(h) ==> h.pos == pos && h.normal.0 == last_pos.x - pos.x && h.normal.1
                == last_pos.y - pos.y && h.normal.2 == last_pos.z - pos.z,
    {
        let b = self.get_block_safe(pos);
        if b.is_targetable() {
            Some(
                BlockRayCastHit {
                    pos,
                    normal: (last_pos.x - pos.x, last_pos.y - pos.y, last_pos.z - pos.z),
                },
            )
        } else {
            None
        }
    }
}

/// A write at local `(0, y, z)` with `y` and `z` interior reaches
/// exactly one neighbor: the chunk one step down the x axis. Its
/// mirrored cell sits on the far x padding face at `(CHUNKP_S1 - 1,
/// y + 1, z + 1)`.
pub proof fn lemma_face_propagation(cp: ChunkPos, l: ChunkedPos)
    requires
        l.0 == 0,
        0 < l.1 < CHUNK_S1 - 1,
        0 < l.2 < CHUNK_S1 - 1,
        i32::MIN < cp.x as int - 1,
    ensures
        forall|q: ChunkPos|
            spec_is_updated_neighbor(q, cp, l) <==> q == (ChunkPos {
                x: (cp.x - 1) as i32,
                y: cp.y,
                z: cp.z,
                realm: cp.realm,
            }),
        spec_linearize(
            spec_mirror_coord(l.0 as int, -1),
            spec_mirror_coord(l.1 as int, 0),
            spec_mirror_coord(l.2 as int, 0),
        ) == spec_linearize((CHUNKP_S1 - 1) as int, l.1 as int + 1, l.2 as int + 1),
{
    let west = ChunkPos { x: (cp.x - 1) as i32, y: cp.y, z: cp.z, realm: cp.realm };
    assert forall|q: ChunkPos| spec_is_updated_neighbor(q, cp, l) implies q == west by {
        let (dx, dy, dz) = choose|dx: int, dy: int, dz: int|
            spec_delta_ok(dx, spec_border_sign(l.0 as int)) && spec_delta_ok(
                dy,
                spec_border_sign(l.1 as int),
            ) && spec_delta_ok(dz, spec_border_sign(l.2 as int)) && !(dx == 0 && dy == 0 && dz
                == 0) && q == spec_offset_chunk(cp, dx, dy, dz);
        assert(dy == 0 && dz == 0 && dx == -1);
    }
    assert(spec_is_updated_neighbor(west, cp, l)) by {
        assert(spec_offset_chunk(cp, -1, 0, 0) == west);
    }
}

/// A write at local `(0, 0, 0)` reaches exactly the seven neighbors
/// that share the low corner: three faces, three edges, one corner.
pub proof fn lemma_corner_propagation(cp: ChunkPos, l: ChunkedPos)
    requires
        l.0 == 0,
        l.1 == 0,
        l.2 == 0,
        i32::MIN < cp.x as int - 1,
        i32::MIN < cp.y as int - 1,
        i32::MIN < cp.z as int - 1,
    ensures
        forall|q: ChunkPos|
            spec_is_updated_neighbor(q, cp, l) <==> (q == spec_offset_chunk(cp, -1, 0, 0) || q
                == spec_offset_chunk(cp, 0, -1, 0) || q == spec_offset_chunk(cp, 0, 0, -1) || q
                == spec_offset_chunk(cp, -1, -1, 0) || q == spec_offset_chunk(cp, -1, 0, -1) || q
                == spec_offset_chunk(cp, 0, -1, -1) || q == spec_offset_chunk(cp, -1, -1, -1)),
{
    assert forall|q: ChunkPos|
        spec_is_updated_neighbor(q, cp, l) implies (q == spec_offset_chunk(cp, -1, 0, 0) || q
        == spec_offset_chunk(cp, 0, -1, 0) || q == spec_offset_chunk(cp, 0, 0, -1) || q
        == spec_offset_chunk(cp, -1, -1, 0) || q == spec_offset_chunk(cp, -1, 0, -1) || q
        == spec_offset_chunk(cp, 0, -1, -1) || q == spec_offset_chunk(cp, -1, -1, -1)) by {
        let (dx, dy, dz) = choose|dx: int, dy: int, dz: int|
            spec_delta_ok(dx, spec_border_sign(l.0 as int)) && spec_delta_ok(
                dy,
                spec_border_sign(l.1 as int),
            ) && spec_delta_ok(dz, spec_border_sign(l.2 as int)) && !(dx == 0 && dy == 0 && dz
                == 0) && q == spec_offset_chunk(cp, dx, dy, dz);
        assert(dx == 0 || dx == -1);
        assert(dy == 0 || dy == -1);
        assert(dz == 0 || dz == -1);
    }
    assert(spec_is_updated_neighbor(spec_offset_chunk(cp, -1, 0, 0), cp, l));
    assert(spec_is_updated_neighbor(spec_offset_chunk(cp, 0, -1, 0), cp, l));
    assert(spec_is_updated_neighbor(spec_offset_chunk(cp, 0, 0, -1), cp, l));
    assert(spec_is_updated_neighbor(spec_offset_chunk(cp, -1, -1, 0), cp, l));
    assert(spec_is_updated_neighbor(spec_offset_chunk(cp, -1, 0, -1), cp, l));
    assert(spec_is_updated_neighbor(spec_offset_chunk(cp, 0, -1, -1), cp, l));
    assert(spec_is_updated_neighbor(spec_offset_chunk(cp, -1, -1, -1), cp, l));
}


impl VoxelWorld {
    /// The highest non-air block of a voxel column and its height;
    /// `(Air, 0)` where the whole column is air. Every cell above the
    /// returned height, up to the world height, is air.
    pub fn top_block(&self, pos: crate::pos::BlockPos2d) -> (r: (Block, i32))
        requires
            self.wf(),
        ensures
            0 <= r.1 < MAX_HEIGHT,
            r.0 == self.spec_block(
                BlockPos { x: pos.x, y: r.1, z: pos.z, realm: pos.realm },
            ),
            forall|y: int|
                r.1 < y < MAX_HEIGHT ==> #[trigger] self.spec_block(
                    BlockPos { x: pos.x, y: y as i32, z: pos.z, realm: pos.realm },
                ) == Block::Air,
            r.1 == 0 || r.0 != Block::Air,
    {
        let (cx, lx) = crate::pos::chunked(pos.x);
        let (cz, lz) = crate::pos::chunked(pos.z);
        let mut cy: usize = crate::Y_CHUNKS;
        while cy > 0
            invariant
                self.wf(),
                cy <= crate::Y_CHUNKS,
                cx == crate::pos::spec_chunk_of(pos.x as int),
                lx == crate::pos::spec_local_of(pos.x as int),
                cz == crate::pos::spec_chunk_of(pos.z as int),
                lz == crate::pos::spec_local_of(pos.z as int),
                lx < CHUNK_S1,
                lz < CHUNK_S1,
                forall|y: int|
                    CHUNK_S1 * cy <= y < MAX_HEIGHT ==> #[trigger] self.spec_block(
                        BlockPos { x: pos.x, y: y as i32, z: pos.z, realm: pos.realm },
                    ) == Block::Air,
            decreases cy,
        {
            cy = cy - 1;
            let cq = ChunkPos { x: cx, y: cy as i32, z: cz, realm: pos.realm };
            let found: Option<(Block, usize)> = match chunk_map_get_clone(&self.chunks, &cq) {
                None => None,
                Some(tc) => {
                    let (b, ly) = tc.chunk.top((lx, lz));
                    if *b != Block::Air {
                        Some((*b, ly))
                    } else {
                        proof {
                            assert forall|ly2: int| 0 <= ly2 < CHUNK_S1 implies tc.chunk.spec_get(
                                lx as int,
                                ly2,
                                lz as int,
                            ) == Block::Air by {
                                if 0 < ly2 {
                                    assert(tc.chunk.data@[crate::chunk::spec_pad_linearize(
                                        lx as int,
                                        ly2,
                                        lz as int,
                                    )] == 0);
                                }
                            }
                        }
                        None
                    }
                },
            };
            proof {
                assert forall|y: int|
                    #![trigger spec_block_to_chunked(
                        BlockPos { x: pos.x, y: y as i32, z: pos.z, realm: pos.realm },
                    )]
                    CHUNK_S1 * cy <= y < CHUNK_S1 * (cy + 1) implies (spec_block_to_chunked(
                    BlockPos { x: pos.x, y: y as i32, z: pos.z, realm: pos.realm },
                ) == (cq, (lx, (y - CHUNK_S1 * cy) as usize, lz))) by {
                    vstd::arithmetic::div_mod::lemma_fundamental_div_mod_converse(
                        y,
                        CHUNK_S1 as int,
                        cy as int,
                        y - CHUNK_S1 * cy,
                    );
                }
            }
            match found {
                Some((b, ly)) => {
                    proof {
                        let h = CHUNK_S1 * cy + ly;
                        let p = BlockPos { x: pos.x, y: h as i32, z: pos.z, realm: pos.realm };
                        assert(self.spec_block(p) == b);
                        let tc = self.table()[cq];
                        assert forall|y: int| h < y < MAX_HEIGHT implies #[trigger] self
                            .spec_block(
                            BlockPos { x: pos.x, y: y as i32, z: pos.z, realm: pos.realm },
                        ) == Block::Air by {
                            if y < CHUNK_S1 * (cy + 1) {
                                let ly2 = y - CHUNK_S1 * cy;
                                assert(tc.chunk.data@[crate::chunk::spec_pad_linearize(
                                    lx as int,
                                    ly2,
                                    lz as int,
                                )] == 0);
                                assert(tc.chunk.spec_get(lx as int, ly2, lz as int)
                                    == Block::Air);
                            }
                        }
                    }
                    return (b, (cy * CHUNK_S1 + ly) as i32);
                },
                None => {
                    proof {
                        assert forall|y: int|
                            CHUNK_S1 * cy <= y < MAX_HEIGHT implies #[trigger] self.spec_block(
                            BlockPos { x: pos.x, y: y as i32, z: pos.z, realm: pos.realm },
                        ) == Block::Air by {
                            if y < CHUNK_S1 * (cy + 1) {
                                if self.table().contains_key(cq) {
                                    let ly2 = y - CHUNK_S1 * cy;
                                    assert(self.table()[cq].chunk.spec_get(
                                        lx as int,
                                        ly2,
                                        lz as int,
                                    ) == Block::Air);
                                }
                            }
                        }
                    }
                },
            }
        }
        proof {
            assert(self.spec_block(
                BlockPos { x: pos.x, y: 0, z: pos.z, realm: pos.realm },
            ) == Block::Air);
        }
        (Block::Air, 0)
    }
}

/// The chunk one step away on each given axis.
fn offset_chunk(cp: ChunkPos, dx: i32, dy: i32, dz: i32) -> (r: ChunkPos)
    requires
        i32::MIN <= cp.x as int + dx as int <= i32::MAX,
        i32::MIN <= cp.y as int + dy as int <= i32::MAX,
        i32::MIN <= cp.z as int + dz as int <= i32::MAX,
    ensures
        r == spec_offset_chunk(cp, dx as int, dy as int, dz as int),
{
    ChunkPos { x: cp.x + dx, y: cp.y + dy, z: cp.z + dz, realm: cp.realm }
}

} // verus!
