//! The incremental mesh scheduler: a per-chunk job that walks the
//! meshing stages across repeated invocations, each bounded by a
//! millisecond budget, and resumes where it left off.

use vstd::prelude::*;

use crate::block::Block;
use crate::chunk::Chunk;
use crate::clock::{clock_now, elapsed_ms};
use crate::mesher::{mesh, Quad};
use crate::pos::ChunkPos;
use crate::world::VoxelWorld;
use crate::CHUNKP_S3;

verus! {

broadcast use vstd::std_specs::hash::group_hash_axioms;

/// Milliseconds one scheduler invocation may spend before yielding.
pub const MAX_MESHING_MS: u64 = 5;

/// Where a mesh job stands.
#[derive(Clone, Copy, Debug, PartialEq, Eq, Structural)]
pub enum MeshingStage {
    PrepareData,
    Transparents,
    GreedyMeshing,
    ProcessQuads,
    Finalize,
    Complete,
}

/// One deduplicated mesh vertex position, in voxel units on the padded
/// grid corner lattice.
#[derive(Clone, Copy, Debug, PartialEq, Eq, Structural)]
pub struct MeshVertex {
    pub x: u32,
    pub y: u32,
    pub z: u32,
}

/// The hash key a vertex position deduplicates under.
pub open spec fn spec_vertex_key(p: MeshVertex) -> u64 {
    (p.x + p.y * 64 + p.z * 4096) as u64
}

fn vertex_key(p: MeshVertex) -> (r: u64)
    requires
        p.x < 64,
        p.y < 64,
        p.z < 64,
    ensures
        r == spec_vertex_key(p),
{
    p.x as u64 + p.y as u64 * 64 + p.z as u64 * 4096
}

/// The four corner positions of a quad, by face direction. The face
/// plane sits above the covered cells along the face's normal for the
/// positive directions and at their base for the negative ones.
pub open spec fn spec_quad_corners(q: Quad, face: int) -> (
    MeshVertex,
    MeshVertex,
    MeshVertex,
    MeshVertex,
) {
    let lo = q.layer as int;
    let hi = q.layer + 1;
    let r0 = q.row as int;
    let r1 = q.row + q.height;
    let c0 = q.col as int;
    let c1 = q.col + q.width;
    if face == 0 || face == 1 {
        // rows along x, layer along y, columns along z
        let y = if face == 0 {
            hi
        } else {
            lo
        };
        (
            MeshVertex { x: r0 as u32, y: y as u32, z: c0 as u32 },
            MeshVertex { x: r0 as u32, y: y as u32, z: c1 as u32 },
            MeshVertex { x: r1 as u32, y: y as u32, z: c1 as u32 },
            MeshVertex { x: r1 as u32, y: y as u32, z: c0 as u32 },
        )
    } else if face == 2 || face == 3 {
        // layer along x, rows along y, columns along z
        let x = if face == 2 {
            hi
        } else {
            lo
        };
        (
            MeshVertex { x: x as u32, y: r0 as u32, z: c0 as u32 },
            MeshVertex { x: x as u32, y: r0 as u32, z: c1 as u32 },
            MeshVertex { x: x as u32, y: r1 as u32, z: c1 as u32 },
            MeshVertex { x: x as u32, y: r1 as u32, z: c0 as u32 },
        )
    } else {
        // rows along x, columns along y, layer along z
        let z = if face == 4 {
            hi
        } else {
            lo
        };
        (
            MeshVertex { x: r0 as u32, y: c0 as u32, z: z as u32 },
            MeshVertex { x: r1 as u32, y: c0 as u32, z: z as u32 },
            MeshVertex { x: r1 as u32, y: c1 as u32, z: z as u32 },
            MeshVertex { x: r0 as u32, y: c1 as u32, z: z as u32 },
        )
    }
}

fn quad_corners(q: Quad, face: usize) -> (r: (MeshVertex, MeshVertex, MeshVertex, MeshVertex))
    requires
        q.wf(),
        face < 6,
    ensures
        r == spec_quad_corners(q, face as int),
        r.0.x < 64 && r.0.y < 64 && r.0.z < 64,
        r.1.x < 64 && r.1.y < 64 && r.1.z < 64,
        r.2.x < 64 && r.2.y < 64 && r.2.z < 64,
        r.3.x < 64 && r.3.y < 64 && r.3.z < 64,
{
    let lo = q.layer as u32;
    let hi = q.layer as u32 + 1;
    let r0 = q.row as u32;
    let r1 = q.row as u32 + q.height as u32;
    let c0 = q.col as u32;
    let c1 = q.col as u32 + q.width as u32;
    if face == 0 || face == 1 {
        let y = if face == 0 {
            hi
        } else {
            lo
        };
        (
            MeshVertex { x: r0, y, z: c0 },
            MeshVertex { x: r0, y, z: c1 },
            MeshVertex { x: r1, y, z: c1 },
            MeshVertex { x: r1, y, z: c0 },
        )
    } else if face == 2 || face == 3 {
        let x = if face == 2 {
            hi
        } else {
            lo
        };
        (
            MeshVertex { x, y: r0, z: c0 },
            MeshVertex { x, y: r0, z: c1 },
            MeshVertex { x, y: r1, z: c1 },
            MeshVertex { x, y: r1, z: c0 },
        )
    } else {
        let z = if face == 4 {
            hi
        } else {
            lo
        };
        (
            MeshVertex { x: r0, y: c0, z },
            MeshVertex { x: r1, y: c0, z },
            MeshVertex { x: r1, y: c1, z },
            MeshVertex { x: r0, y: c1, z },
        )
    }
}

/// The nine-bit color code of a block's face: three bits each of red,
/// green and blue. Foliage is tinted green, everything else is white.
pub open spec fn spec_face_color(block: Block, face: int) -> u16 {
    if crate::block::spec_family(block) == crate::block::BlockFamily::Foliage {
        0b010_101_001u16
    } else {
        0b111_111_111u16
    }
}

/// Computes the nine-bit face color of a block.
pub fn face_color(block: Block, face: usize) -> (r: u16)
    ensures
        r == spec_face_color(block, face as int),
{
    if block.is_foliage() {
        0b010_101_001
    } else {
        0b111_111_111
    }
}

/// The block a quad's palette index denotes in a chunk; out-of-range
/// indices read as `Air`, mirroring the store's sentinel rule.
pub open spec fn spec_quad_block(chunk: Chunk, q: Quad) -> Block {
    if q.v_type < chunk.palette@.len() {
        chunk.palette@[q.v_type as int]
    } else {
        Block::Air
    }
}

/// The unit normal a face direction's vertices carry.
pub open spec fn spec_face_normal_i32(face: int) -> (i32, i32, i32) {
    if face == 0 {
        (0i32, 1i32, 0i32)
    } else if face == 1 {
        (0i32, -1i32, 0i32)
    } else if face == 2 {
        (1i32, 0i32, 0i32)
    } else if face == 3 {
        (-1i32, 0i32, 0i32)
    } else if face == 4 {
        (0i32, 0i32, 1i32)
    } else {
        (0i32, 0i32, -1i32)
    }
}

/// The vertex table after interning one position: unchanged for a seen
/// key, extended with the next fresh index for a new one.
pub open spec fn spec_intern_map(m: Map<u64, usize>, next: usize, p: MeshVertex) -> Map<
    u64,
    usize,
> {
    if m.contains_key(spec_vertex_key(p)) {
        m
    } else {
        m.insert(spec_vertex_key(p), next)
    }
}

/// The fresh-index counter after interning one position.
pub open spec fn spec_intern_next(m: Map<u64, usize>, next: usize, p: MeshVertex) -> usize {
    if m.contains_key(spec_vertex_key(p)) {
        next
    } else {
        (next + 1) as usize
    }
}

/// The index interning one position hands back: the seen key's slot, or
/// the fresh one.
pub open spec fn spec_intern_index(m: Map<u64, usize>, next: usize, p: MeshVertex) -> usize {
    if m.contains_key(spec_vertex_key(p)) {
        m[spec_vertex_key(p)]
    } else {
        next
    }
}

/// An attribute buffer after interning one position: grown by one row
/// only where the position is new, so shared corners collapse to one
/// vertex.
pub open spec fn spec_intern_push<T>(
    m: Map<u64, usize>,
    p: MeshVertex,
    buf: Seq<T>,
    val: T,
) -> Seq<T> {
    if m.contains_key(spec_vertex_key(p)) {
        buf
    } else {
        buf.push(val)
    }
}

/// The transparent palette indices, in ascending order: every non-air
/// entry whose block does not occlude.
pub open spec fn spec_transparents(pal: Seq<Block>) -> Seq<u16>
    decreases pal.len(),
{
    if pal.len() <= 1 {
        Seq::empty()
    } else {
        let pre = spec_transparents(pal.drop_last());
        if !crate::block::spec_is_opaque(pal.last()) {
            pre.push((pal.len() - 1) as u16)
        } else {
            pre
        }
    }
}

/// The snapshot a job took is exactly the chunk's packed indices.
pub open spec fn spec_snapshot_of(s: ChunkMeshingState, chunk: Chunk) -> bool {
    &&& s.voxels@.len() == CHUNKP_S3
    &&& forall|i: int|
        0 <= i < CHUNKP_S3 ==> (#[trigger] s.voxels@[i]) as usize == chunk.data@[i]
}

/// A set of keys below a bound holds at most that many keys.
proof fn lemma_key_domain_bounded(dom: Set<u64>, n: nat)
    requires
        dom.finite(),
        forall|k: u64| dom.contains(k) ==> (k as nat) < n,
    ensures
        dom.len() <= n,
    decreases n,
{
    if n == 0 {
        assert(dom =~= Set::<u64>::empty());
    } else {
        let kk = (n - 1) as u64;
        if dom.contains(kk) {
            let d2 = dom.remove(kk);
            assert(forall|k: u64| d2.contains(k) ==> (k as nat) < (n - 1) as nat);
            lemma_key_domain_bounded(d2, (n - 1) as nat);
        } else {
            assert(forall|k: u64| dom.contains(k) ==> (k as nat) < (n - 1) as nat);
            lemma_key_domain_bounded(dom, (n - 1) as nat);
        }
    }
}

/// The transient state of one in-flight mesh job: the voxel snapshot,
/// the transparent-index set, the per-face quads, and the vertex and
/// index buffers being accumulated, with cursors so the work resumes
/// mid-face and mid-quad.
pub struct ChunkMeshingState {
    pub stage: MeshingStage,
    pub voxels: Vec<u16>,
    pub transparents: Vec<u16>,
    pub quads: Vec<Vec<Quad>>,
    pub next_vertex_index: usize,
    pub vertex_map: std::collections::HashMap<u64, usize>,
    pub all_positions: Vec<MeshVertex>,
    pub all_normals: Vec<(i32, i32, i32)>,
    pub all_uvs: Vec<(u8, u8)>,
    pub all_colors: Vec<u16>,
    pub all_indices: Vec<usize>,
    pub all_physics_quads: Vec<(MeshVertex, MeshVertex, MeshVertex, MeshVertex)>,
    pub is_empty: bool,
    pub current_face: usize,
    pub current_quad_index: usize,
    pub quad_batch_size: usize,
}

impl ChunkMeshingState {
    /// The buffers and cursors are consistent for the current stage:
    /// the snapshot has the padded grid's size once taken; from
    /// `ProcessQuads` on, the quads are a correct greedy mesh of the
    /// snapshot; the vertex table deduplicates under the position keys,
    /// one attribute row per interned vertex; every emitted index points
    /// at an interned vertex; and at `Complete` the emptiness flag
    /// agrees with the accumulated vertices.
    pub open spec fn wf(&self) -> bool {
        &&& self.quad_batch_size >= 1
        &&& !(self.stage is PrepareData) ==> self.voxels@.len() == CHUNKP_S3
        &&& (self.stage is ProcessQuads || self.stage is Finalize || self.stage is Complete)
            ==> self.quads@.len() == 6
        &&& (self.stage is ProcessQuads || self.stage is Finalize || self.stage is Complete)
            ==> forall|f: int|
            0 <= f < 6 ==> crate::mesher::spec_face_mesh_ok(
                self.voxels@,
                self.transparents@.to_set(),
                f,
                (#[trigger] self.quads@[f])@,
            )
        &&& self.stage is ProcessQuads ==> self.current_face <= 6
        &&& self.stage is ProcessQuads && self.current_face < 6 ==> self.current_quad_index
            <= self.quads@[self.current_face as int]@.len()
        &&& (self.stage is PrepareData || self.stage is Transparents || self.stage
            is GreedyMeshing) ==> self.next_vertex_index == 0 && self.all_indices@.len() == 0
            && self.all_physics_quads@.len() == 0
        &&& (self.stage is ProcessQuads || self.stage is Finalize || self.stage is Complete) && (
        forall|f: int| 0 <= f < 6 ==> (#[trigger] self.quads@[f])@.len() == 0)
            ==> self.next_vertex_index == 0 && self.all_indices@.len() == 0
            && self.all_physics_quads@.len() == 0
        &&& self.vertex_map@.dom().finite()
        &&& forall|k: u64| #[trigger] self.vertex_map@.dom().contains(k) ==> k < 262144
        &&& self.next_vertex_index == self.vertex_map@.dom().len()
        &&& self.all_positions@.len() == self.next_vertex_index
        &&& self.all_normals@.len() == self.next_vertex_index
        &&& self.all_uvs@.len() == self.next_vertex_index
        &&& self.all_colors@.len() == self.next_vertex_index
        &&& forall|k: u64|
            #[trigger] self.vertex_map@.dom().contains(k) ==> self.vertex_map@[k]
                < self.next_vertex_index
        &&& forall|i: int|
            0 <= i < self.all_indices@.len() ==> (#[trigger] self.all_indices@[i])
                < self.next_vertex_index
        &&& self.stage is Complete ==> (self.is_empty <==> self.all_positions@.len() == 0)
    }

    /// Every buffer, cursor and table of a job that has done no work.
    pub open spec fn spec_fresh(s: Self) -> bool {
        &&& s.stage is PrepareData
        &&& s.voxels@.len() == 0
        &&& s.transparents@.len() == 0
        &&& s.quads@.len() == 0
        &&& s.next_vertex_index == 0
        &&& s.vertex_map@ == Map::<u64, usize>::empty()
        &&& s.all_positions@.len() == 0
        &&& s.all_normals@.len() == 0
        &&& s.all_uvs@.len() == 0
        &&& s.all_colors@.len() == 0
        &&& s.all_indices@.len() == 0
        &&& s.all_physics_quads@.len() == 0
        &&& !s.is_empty
        &&& s.current_face == 0
        &&& s.current_quad_index == 0
        &&& s.quad_batch_size == 50
    }

    /// A fresh job, ready to snapshot its chunk.
    pub fn new() -> (r: Self)
        ensures
            r.wf(),
            Self::spec_fresh(r),
    {
        let r = ChunkMeshingState {
            stage: MeshingStage::PrepareData,
            voxels: Vec::new(),
            transparents: Vec::new(),
            quads: Vec::new(),
            next_vertex_index: 0,
            vertex_map: std::collections::HashMap::new(),
            all_positions: Vec::new(),
            all_normals: Vec::new(),
            all_uvs: Vec::new(),
            all_colors: Vec::new(),
            all_indices: Vec::new(),
            all_physics_quads: Vec::new(),
            is_empty: false,
            current_face: 0,
            current_quad_index: 0,
            quad_batch_size: 50,
        };
        proof {
            assert(r.vertex_map@.dom() =~= Set::<u64>::empty());
        }
        r
    }

    /// How far the job still has to go, as a lexicographic measure:
    /// stages to pass, then faces left, then quads left in the face.
    pub open spec fn stage_rank(&self) -> int {
        match self.stage {
            MeshingStage::PrepareData => 5,
            MeshingStage::Transparents => 4,
            MeshingStage::GreedyMeshing => 3,
            MeshingStage::ProcessQuads => 2,
            MeshingStage::Finalize => 1,
            MeshingStage::Complete => 0,
        }
    }

    /// Faces the quad cursor has not finished.
    pub open spec fn faces_left(&self) -> int {
        if self.stage is ProcessQuads {
            6 - self.current_face
        } else {
            0
        }
    }

    /// Quads left in the face under the cursor.
    pub open spec fn quads_left(&self) -> int {
        if self.stage is ProcessQuads && self.current_face < 6 {
            self.quads@[self.current_face as int]@.len() - self.current_quad_index
        } else {
            0
        }
    }

    /// One invocation did some work: the job moved strictly closer to
    /// `Complete` in the lexicographic stage order.
    pub open spec fn spec_progressed(pre: Self, post: Self) -> bool {
        ||| post.stage_rank() < pre.stage_rank()
        ||| (post.stage_rank() == pre.stage_rank() && post.faces_left() < pre.faces_left())
        ||| (post.stage_rank() == pre.stage_rank() && post.faces_left() == pre.faces_left()
            && post.quads_left() < pre.quads_left())
    }

    /// One bounded unit of meshing work: a whole early stage, a batch
    /// of quads, or one cursor advance. Each stage's output is pinned
    /// down: the snapshot copies the chunk, the transparent set is the
    /// palette's non-occluding indices, the greedy stage leaves a
    /// correct mesh (carried by well-formedness from then on), and the
    /// later stages leave the earlier outputs alone.
    fn advance_unit(&mut self, chunk: &Chunk)
        requires
            old(self).wf(),
            !(old(self).stage is Complete),
            chunk.wf(),
        ensures
            final (self).wf(),
            Self::spec_progressed(*old(self), *final (self)),
            final (self).quad_batch_size == old(self).quad_batch_size,
            old(self).stage is PrepareData ==> final (self).stage is Transparents
                && spec_snapshot_of(*final (self), *chunk),
            !(old(self).stage is PrepareData) ==> final (self).voxels == old(self).voxels,
            old(self).stage is Transparents ==> final (self).stage is GreedyMeshing && final (self).transparents@ == spec_transparents(chunk.palette@),
            !(old(self).stage is Transparents) ==> final (self).transparents == old(
                self,
            ).transparents,
            !(old(self).stage is GreedyMeshing) ==> final (self).quads == old(self).quads,
            old(self).stage is Finalize ==> final (self).stage is Complete,
    {
        match self.stage {
            MeshingStage::PrepareData => {
                proof {
                    crate::block::lemma_distinct_blocks_bounded(chunk.palette@);
                    assert forall|i: int| 0 <= i < chunk.data@.len() implies chunk.data@[i]
                        <= u16::MAX as usize by {
                        assert(chunk.data@[i] < chunk.palette@.len());
                    }
                }
                self.voxels = chunk.data.unpack_u16();
                self.stage = MeshingStage::Transparents;
            },
            MeshingStage::Transparents => {
                let pal = chunk.palette.elements();
                let mut trans: Vec<u16> = Vec::new();
                let n = pal.len();
                let mut i: usize = 1;
                proof {
                    crate::block::lemma_distinct_blocks_bounded(chunk.palette@);
                    assert(chunk.palette@.take(1int).drop_last() =~= chunk.palette@.take(0int));
                    assert(trans@ =~= spec_transparents(chunk.palette@.take(1int)));
                }
                while i < n
                    invariant
                        n == pal@.len(),
                        n <= 13,
                        pal@ == chunk.palette@,
                        1 <= i <= n || (i == 1 && n <= 1),
                        i <= 13,
                        trans@ == spec_transparents(chunk.palette@.take(
                            if i <= n {
                                i as int
                            } else {
                                n as int
                            },
                        )),
                    decreases n - i,
                {
                    if !pal[i].is_opaque() {
                        trans.push(i as u16);
                    }
                    proof {
                        let t = chunk.palette@.take(i as int + 1);
                        assert(t.drop_last() =~= chunk.palette@.take(i as int));
                        assert(t.last() == chunk.palette@[i as int]);
                        assert(trans@ =~= spec_transparents(t));
                    }
                    i = i + 1;
                }
                proof {
                    assert(chunk.palette@.take(n as int) =~= chunk.palette@);
                }
                self.transparents = trans;
                self.stage = MeshingStage::GreedyMeshing;
            },
            MeshingStage::GreedyMeshing => {
                self.quads = mesh(&self.voxels, &self.transparents);
                self.stage = MeshingStage::ProcessQuads;
                self.current_face = 0;
                self.current_quad_index = 0;
            },
            MeshingStage::ProcessQuads => {
                if self.current_face >= 6 {
                    self.stage = MeshingStage::Finalize;
                } else {
                    let face = self.current_face;
                    let face_len = self.quads[face].len();
                    if self.current_quad_index >= face_len {
                        self.current_face = face + 1;
                        self.current_quad_index = 0;
                    } else {
                        let mut processed: usize = 0;
                        let batch = self.quad_batch_size;
                        while self.current_quad_index < face_len && processed < batch
                            invariant
                                self.wf(),
                                chunk.wf(),
                                self.stage is ProcessQuads,
                                self.current_face == face,
                                face < 6,
                                face_len == self.quads@[face as int]@.len(),
                                self.current_quad_index <= face_len,
                                self.current_quad_index == old(self).current_quad_index
                                    + processed,
                                processed <= batch,
                                self.quad_batch_size == batch,
                                self.voxels == old(self).voxels,
                                self.transparents == old(self).transparents,
                                self.quads == old(self).quads,
                            decreases face_len - self.current_quad_index,
                        {
                            let q = self.quads[face][self.current_quad_index];
                            proof {
                                assert(crate::mesher::spec_face_mesh_ok(
                                    self.voxels@,
                                    self.transparents@.to_set(),
                                    face as int,
                                    self.quads@[face as int]@,
                                ));
                            }
                            self.process_quad(q, face, chunk);
                            self.current_quad_index = self.current_quad_index + 1;
                            processed = processed + 1;
                            proof {
                                assert(self.quads@[face as int]@.len() > 0);
                            }
                        }
                    }
                }
            },
            MeshingStage::Finalize => {
                self.is_empty = self.all_positions.len() == 0;
                self.stage = MeshingStage::Complete;
            },
            MeshingStage::Complete => {
                proof {
                    assert(false);
                }
            },
        }
    }

    /// Turns one quad into its four corner vertices (shared corners
    /// collapse onto previously interned slots), six triangle indices,
    /// one attribute row per fresh vertex, and one physics quad.
    fn process_quad(&mut self, q: Quad, face: usize, chunk: &Chunk)
        requires
            old(self).wf(),
            old(self).stage is ProcessQuads,
            old(self).quads@[face as int]@.len() > 0,
            q.wf(),
            face < 6,
            chunk.wf(),
        ensures
            final (self).wf(),
            ({
                let m0 = old(self).vertex_map@;
                let n0 = old(self).next_vertex_index;
                let c = spec_quad_corners(q, face as int);
                let m1 = spec_intern_map(m0, n0, c.0);
                let n1 = spec_intern_next(m0, n0, c.0);
                let m2 = spec_intern_map(m1, n1, c.1);
                let n2 = spec_intern_next(m1, n1, c.1);
                let m3 = spec_intern_map(m2, n2, c.2);
                let n3 = spec_intern_next(m2, n2, c.2);
                let i0 = spec_intern_index(m0, n0, c.0);
                let i1 = spec_intern_index(m1, n1, c.1);
                let i2 = spec_intern_index(m2, n2, c.2);
                let i3 = spec_intern_index(m3, n3, c.3);
                let nv = spec_face_normal_i32(face as int);
                let col = spec_face_color(spec_quad_block(*chunk, q), face as int);
                &&& final (self).vertex_map@ == spec_intern_map(m3, n3, c.3)
                &&& final (self).next_vertex_index == spec_intern_next(m3, n3, c.3)
                &&& final (self).all_positions@ == spec_intern_push(
                    m3,
                    c.3,
                    spec_intern_push(
                        m2,
                        c.2,
                        spec_intern_push(
                            m1,
                            c.1,
                            spec_intern_push(m0, c.0, old(self).all_positions@, c.0),
                            c.1,
                        ),
                        c.2,
                    ),
                    c.3,
                )
                &&& final (self).all_normals@ == spec_intern_push(
                    m3,
                    c.3,
                    spec_intern_push(
                        m2,
                        c.2,
                        spec_intern_push(
                            m1,
                            c.1,
                            spec_intern_push(m0, c.0, old(self).all_normals@, nv),
                            nv,
                        ),
                        nv,
                    ),
                    nv,
                )
                &&& final (self).all_uvs@ == spec_intern_push(
                    m3,
                    c.3,
                    spec_intern_push(
                        m2,
                        c.2,
                        spec_intern_push(
                            m1,
                            c.1,
                            spec_intern_push(m0, c.0, old(self).all_uvs@, (0u8, 0u8)),
                            (1u8, 0u8),
                        ),
                        (1u8, 1u8),
                    ),
                    (0u8, 1u8),
                )
                &&& final (self).all_colors@ == spec_intern_push(
                    m3,
                    c.3,
                    spec_intern_push(
                        m2,
                        c.2,
                        spec_intern_push(
                            m1,
                            c.1,
                            spec_intern_push(m0, c.0, old(self).all_colors@, col),
                            col,
                        ),
                        col,
                    ),
                    col,
                )
                &&& final (self).all_indices@ == old(self).all_indices@ + seq![
                    i0,
                    i1,
                    i2,
                    i0,
                    i2,
                    i3,
                ]
                &&& final (self).all_physics_quads@ == old(self).all_physics_quads@.push(
                    (c.0, c.1, c.2, c.3),
                )
            }),
            final (self).stage == old(self).stage,
            final (self).current_face == old(self).current_face,
            final (self).current_quad_index == old(self).current_quad_index,
            final (self).quads == old(self).quads,
            final (self).quad_batch_size == old(self).quad_batch_size,
            final (self).voxels == old(self).voxels,
            final (self).transparents == old(self).transparents,
            final (self).is_empty == old(self).is_empty,
    {
        let corners = quad_corners(q, face);
        let vt = q.v_type as usize;
        let block = if vt < chunk.palette.len() {
            *chunk.palette.get(vt)
        } else {
            Block::Air
        };
        let color = face_color(block, face);
        let normal: (i32, i32, i32) = if face == 0 {
            (0, 1, 0)
        } else if face == 1 {
            (0, -1, 0)
        } else if face == 2 {
            (1, 0, 0)
        } else if face == 3 {
            (-1, 0, 0)
        } else if face == 4 {
            (0, 0, 1)
        } else {
            (0, 0, -1)
        };
        let i0 = self.intern_vertex(corners.0, normal, (0, 0), color);
        let i1 = self.intern_vertex(corners.1, normal, (1, 0), color);
        let i2 = self.intern_vertex(corners.2, normal, (1, 1), color);
        let i3 = self.intern_vertex(corners.3, normal, (0, 1), color);
        self.all_indices.push(i0);
        self.all_indices.push(i1);
        self.all_indices.push(i2);
        self.all_indices.push(i0);
        self.all_indices.push(i2);
        self.all_indices.push(i3);
        self.all_physics_quads.push((corners.0, corners.1, corners.2, corners.3));
        proof {
            assert(self.quads@[face as int]@.len() > 0);
            assert(final (self).all_indices@ =~= old(self).all_indices@ + seq![
                i0 as usize,
                i1 as usize,
                i2 as usize,
                i0 as usize,
                i2 as usize,
                i3 as usize,
            ]);
        }
    }

    /// Files one vertex: a previously seen position reuses its slot and
    /// grows nothing; a new position takes the next index and one row
    /// of each attribute buffer.
    fn intern_vertex(
        &mut self,
        p: MeshVertex,
        normal: (i32, i32, i32),
        uv: (u8, u8),
        color: u16,
    ) -> (r: usize)
        requires
            old(self).wf(),
            old(self).stage is ProcessQuads,
            exists|f: int| 0 <= f < 6 && (#[trigger] old(self).quads@[f])@.len() > 0,
            p.x < 64,
            p.y < 64,
            p.z < 64,
        ensures
            final (self).wf(),
            r == spec_intern_index(old(self).vertex_map@, old(self).next_vertex_index, p),
            final (self).vertex_map@ == spec_intern_map(
                old(self).vertex_map@,
                old(self).next_vertex_index,
                p,
            ),
            final (self).next_vertex_index == spec_intern_next(
                old(self).vertex_map@,
                old(self).next_vertex_index,
                p,
            ),
            final (self).all_positions@ == spec_intern_push(
                old(self).vertex_map@,
                p,
                old(self).all_positions@,
                p,
            ),
            final (self).all_normals@ == spec_intern_push(
                old(self).vertex_map@,
                p,
                old(self).all_normals@,
                normal,
            ),
            final (self).all_uvs@ == spec_intern_push(
                old(self).vertex_map@,
                p,
                old(self).all_uvs@,
                uv,
            ),
            final (self).all_colors@ == spec_intern_push(
                old(self).vertex_map@,
                p,
                old(self).all_colors@,
                color,
            ),
            r < final (self).next_vertex_index,
            old(self).next_vertex_index <= final (self).next_vertex_index,
            final (self).all_indices == old(self).all_indices,
            final (self).all_physics_quads == old(self).all_physics_quads,
            final (self).stage == old(self).stage,
            final (self).current_face == old(self).current_face,
            final (self).current_quad_index == old(self).current_quad_index,
            final (self).quads == old(self).quads,
            final (self).quad_batch_size == old(self).quad_batch_size,
            final (self).voxels == old(self).voxels,
            final (self).transparents == old(self).transparents,
            final (self).is_empty == old(self).is_empty,
    {
        let key = vertex_key(p);
        match self.vertex_map.get(&key) {
            Some(i) => *i,
            None => {
                let fresh = self.next_vertex_index;
                proof {
                    lemma_key_domain_bounded(self.vertex_map@.dom(), 262144);
                }
                self.vertex_map.insert(key, fresh);
                self.next_vertex_index = fresh + 1;
                self.all_positions.push(p);
                self.all_normals.push(normal);
                self.all_uvs.push(uv);
                self.all_colors.push(color);
                fresh
            },
        }
    }

    /// Runs the job until the stage machine completes or the time
    /// budget is spent, whichever comes first; at least one unit of
    /// work is done per invocation. Reports whether the job is done.
    /// Stage outputs made in this invocation are pinned to `chunk`.
    pub fn step(&mut self, chunk: &Chunk, budget_ms: u64) -> (done: bool)
        requires
            old(self).wf(),
            chunk.wf(),
        ensures
            final (self).wf(),
            done == (final (self).stage is Complete),
            old(self).stage is Complete ==> *final (self) == *old(self),
            !(old(self).stage is Complete) ==> Self::spec_progressed(*old(self), *final (self)),
            old(self).stage is PrepareData && !(final (self).stage is PrepareData)
                ==> spec_snapshot_of(*final (self), *chunk),
            !(old(self).stage is PrepareData) ==> final (self).voxels == old(self).voxels,
            (old(self).stage is PrepareData || old(self).stage is Transparents) && !(final (self).stage is PrepareData) && !(final (self).stage is Transparents) ==> final (self).transparents@ == spec_transparents(chunk.palette@),
            !(old(self).stage is PrepareData || old(self).stage is Transparents) ==> final (self).transparents == old(self).transparents,
    {
        if matches!(self.stage, MeshingStage::Complete) {
            return true;
        }
        let start = clock_now();
        self.advance_unit(chunk);
        let mut go = !matches!(self.stage, MeshingStage::Complete);
        if go && elapsed_ms(&start) >= budget_ms {
            go = false;
        }
        while go
            invariant
                self.wf(),
                chunk.wf(),
                go ==> !(self.stage is Complete),
                Self::spec_progressed(*old(self), *self),
                old(self).stage is PrepareData && !(self.stage is PrepareData)
                    ==> spec_snapshot_of(*self, *chunk),
                !(old(self).stage is PrepareData) ==> self.voxels == old(self).voxels,
                (old(self).stage is PrepareData || old(self).stage is Transparents) && !(self.stage
                    is PrepareData) && !(self.stage is Transparents) ==> self.transparents@
                    == spec_transparents(chunk.palette@),
                !(old(self).stage is PrepareData || old(self).stage is Transparents)
                    ==> self.transparents == old(self).transparents,
            decreases self.stage_rank(), self.faces_left(), self.quads_left(),
        {
            self.advance_unit(chunk);
            proof {
                assert(Self::spec_progressed(*old(self), *self));
            }
            if matches!(self.stage, MeshingStage::Complete) {
                go = false;
            } else if elapsed_ms(&start) >= budget_ms {
                go = false;
            }
        }
        matches!(self.stage, MeshingStage::Complete)
    }
}

/// A completed job over an all-air snapshot carries the empty-mesh
/// flag and no geometry: no cell exposes a face, so every quad list is
/// empty and nothing was interned or indexed.
pub proof fn lemma_air_job_is_empty(s: ChunkMeshingState)
    requires
        s.wf(),
        s.stage is Complete,
        forall|i: int| 0 <= i < CHUNKP_S3 ==> (#[trigger] s.voxels@[i]) == 0,
    ensures
        s.is_empty,
        s.all_positions@.len() == 0,
        s.all_indices@.len() == 0,
        s.all_physics_quads@.len() == 0,
{
    assert forall|f: int| 0 <= f < 6 implies (#[trigger] s.quads@[f])@.len() == 0 by {
        if s.quads@[f]@.len() > 0 {
            let q = s.quads@[f]@[0];
            assert(q.wf());
            assert(q.covers(q.layer as int, q.row as int, q.col as int));
            assert(crate::mesher::spec_frame_exposed(
                s.voxels@,
                s.transparents@.to_set(),
                f,
                q.layer as int,
                q.row as int,
                q.col as int,
            ));
            let (x, y, z) = crate::mesher::spec_frame_cell(
                f,
                q.layer as int,
                q.row as int,
                q.col as int,
            );
            assert(s.voxels@[crate::chunk::spec_pad_linearize(x, y, z)] == 0);
            assert(false);
        }
    }
}

/// Chebyshev distance between two chunk positions, without overflow.
pub open spec fn spec_chunk_dist(a: ChunkPos, b: ChunkPos) -> int {
    vstd::math::max(
        vstd::math::max(
            vstd::math::abs(a.x as int - b.x as int) as int,
            vstd::math::abs(a.y as int - b.y as int) as int,
        ),
        vstd::math::abs(a.z as int - b.z as int) as int,
    )
}

fn chunk_dist(a: ChunkPos, b: ChunkPos) -> (r: u64)
    ensures
        r == spec_chunk_dist(a, b),
{
    let dx = a.x as i64 - b.x as i64;
    let dy = a.y as i64 - b.y as i64;
    let dz = a.z as i64 - b.z as i64;
    let dx = if dx < 0 { -dx } else { dx };
    let dy = if dy < 0 { -dy } else { dy };
    let dz = if dz < 0 { -dz } else { dz };
    let m = if dx >= dy { dx } else { dy };
    let m = if m >= dz { m } else { dz };
    m as u64
}

/// Drives at most one mesh job at a time: picks the nearest dirty
/// chunk, steps its job under the frame budget, and commits or abandons
/// it.
pub struct MeshScheduler {
    pub in_progress: Option<ChunkPos>,
    pub state: ChunkMeshingState,
}

impl MeshScheduler {
    pub open spec fn wf(&self) -> bool {
        self.state.wf()
    }

    /// An idle scheduler.
    pub fn new() -> (r: Self)
        ensures
            r.wf(),
            r.in_progress is None,
            ChunkMeshingState::spec_fresh(r.state),
    {
        MeshScheduler { in_progress: None, state: ChunkMeshingState::new() }
    }

    /// The nearest mesh-dirty chunk, with its distance from `center`;
    /// `None` when no chunk is dirty.
    pub fn pop_closest_change(world: &VoxelWorld, center: ChunkPos) -> (r: Option<(ChunkPos, u64)>)
        requires
            world.wf(),
        ensures
            r is None ==> forall|q: ChunkPos|
                #[trigger] world.table().contains_key(q) ==> !world.table()[q].changed,
            r matches Some(best) ==> {
                &&& world.table().contains_key(best.0)
                &&& world.table()[best.0].changed
                &&& best.1 == spec_chunk_dist(center, best.0)
                &&& forall|q: ChunkPos|
                    #[trigger] world.table().contains_key(q) && world.table()[q].changed
                        ==> spec_chunk_dist(center, q) >= best.1
            },
    {
        let keys = crate::chunk_map::chunk_map_keys(&world.chunks);
        let n = keys.len();
        let mut best: Option<(ChunkPos, u64)> = None;
        let mut i: usize = 0;
        while i < n
            invariant
                world.wf(),
                n == keys@.len(),
                keys@.to_set() == world.table().dom(),
                i <= n,
                best is None ==> forall|j: int|
                    0 <= j < i ==> !world.table()[#[trigger] keys@[j]].changed,
                best matches Some(b) ==> {
                    &&& world.table().contains_key(b.0)
                    &&& world.table()[b.0].changed
                    &&& b.1 == spec_chunk_dist(center, b.0)
                    &&& forall|j: int|
                        0 <= j < i && world.table()[#[trigger] keys@[j]].changed
                            ==> spec_chunk_dist(center, keys@[j]) >= b.1
                },
            decreases n - i,
        {
            let q = keys[i];
            proof {
                assert(keys@.to_set().contains(keys@[i as int]));
            }
            match crate::chunk_map::chunk_map_get_clone(&world.chunks, &q) {
                Some(tc) => {
                    if tc.changed {
                        let d = chunk_dist(center, q);
                        match best {
                            None => {
                                best = Some((q, d));
                            },
                            Some(b) => {
                                if d < b.1 {
                                    best = Some((q, d));
                                }
                            },
                        }
                    }
                },
                None => {},
            }
            i = i + 1;
        }
        proof {
            if best is None {
                assert forall|q: ChunkPos| #[trigger]
                    world.table().contains_key(q) implies !world.table()[q].changed by {
                    assert(keys@.to_set().contains(q));
                    let j = choose|j: int| 0 <= j < keys@.len() && keys@[j] == q;
                    assert(!world.table()[keys@[j]].changed);
                }
            } else {
                let b = best->Some_0;
                assert forall|q: ChunkPos| #[trigger]
                    world.table().contains_key(q) && world.table()[q].changed implies spec_chunk_dist(
                    center,
                    q,
                ) >= b.1 by {
                    assert(keys@.to_set().contains(q));
                    let j = choose|j: int| 0 <= j < keys@.len() && keys@[j] == q;
                    assert(spec_chunk_dist(center, keys@[j]) >= b.1);
                }
            }
        }
        best
    }

    /// Starts a job for `chunk_pos` where none is running and the chunk
    /// is mesh-dirty. A clean or absent chunk starts no work and leaves
    /// the job state untouched.
    pub fn try_start(&mut self, world: &VoxelWorld, chunk_pos: ChunkPos) -> (r: bool)
        requires
            old(self).wf(),
            world.wf(),
        ensures
            final (self).wf(),
            r == (old(self).in_progress is None && world.table().contains_key(chunk_pos)
                && world.table()[chunk_pos].changed),
            !r ==> *final (self) == *old(self),
            r ==> final (self).in_progress == Some(chunk_pos)
                && ChunkMeshingState::spec_fresh(final (self).state),
    {
        if self.in_progress.is_some() {
            return false;
        }
        match crate::chunk_map::chunk_map_get_clone(&world.chunks, &chunk_pos) {
            Some(tc) => {
                if tc.changed {
                    self.in_progress = Some(chunk_pos);
                    self.state = ChunkMeshingState::new();
                    true
                } else {
                    false
                }
            },
            None => false,
        }
    }

    /// Abandons the in-flight job without publishing anything, as when
    /// its chunk's column leaves the load area.
    pub fn abandon(&mut self)
        requires
            old(self).wf(),
        ensures
            final (self).wf(),
            final (self).in_progress is None,
            ChunkMeshingState::spec_fresh(final (self).state),
    {
        self.in_progress = None;
        self.state = ChunkMeshingState::new();
    }

    /// After the job reaches `Complete`, clears the chunk's mesh-dirty
    /// and meshing flags and retires the job.
    pub fn commit(&mut self, world: &mut VoxelWorld) -> (r: Option<ChunkPos>)
        requires
            old(self).wf(),
            old(world).wf(),
        ensures
            final (self).wf(),
            final (world).wf(),
            !(old(self).in_progress is Some && old(self).state.stage is Complete) ==> *final (self)
                == *old(self) && final (world).table() == old(world).table(),
            (old(self).in_progress is Some && old(self).state.stage is Complete) ==> {
                let cp = old(self).in_progress->0;
                &&& r == Some(cp)
                &&& final (self).in_progress is None
                &&& ChunkMeshingState::spec_fresh(final (self).state)
                &&& final (world).table().dom() == old(world).table().dom()
                &&& forall|q: ChunkPos|
                    q != cp && old(world).table().contains_key(q) ==> #[trigger] final (world).table()[q] == old(world).table()[q]
                &&& old(world).table().contains_key(cp) ==> {
                    &&& !final (world).table()[cp].changed
                    &&& !final (world).table()[cp].meshing
                    &&& final (world).table()[cp].chunk == old(world).table()[cp].chunk
                }
            },
    {
        let cp = match self.in_progress {
            Some(cp) => cp,
            None => {
                return None;
            },
        };
        if !matches!(self.state.stage, MeshingStage::Complete) {
            return None;
        }
        match crate::chunk_map::chunk_map_remove(&mut world.chunks, &cp) {
            Some(mut tc) => {
                tc.changed = false;
                tc.meshing = false;
                crate::chunk_map::chunk_map_insert(&mut world.chunks, cp, tc);
                proof {
                    assert(final (world).table().dom() =~= old(world).table().dom());
                }
            },
            None => {},
        }
        self.in_progress = None;
        self.state = ChunkMeshingState::new();
        Some(cp)
    }
}

} // verus!
