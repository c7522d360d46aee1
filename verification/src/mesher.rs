//! Greedy meshing: turns a padded grid of palette indices into, for each
//! of the six axis-aligned face directions, a list of rectangular quads
//! that exactly covers the exposed faces, merging same-type runs.

use vstd::prelude::*;

use crate::chunk::{linearize, pad_linearize, spec_linearize, spec_pad_linearize};
use crate::{CHUNKP_S1, CHUNKP_S3, CHUNK_S1, CHUNK_S2};

verus! {

/// The unit normal of a face direction, by index: up, down, right
/// (+x), left (-x), front (+z), back (-z).
pub open spec fn spec_face_normal(face: int) -> (int, int, int) {
    if face == 0 {
        (0, 1, 0)
    } else if face == 1 {
        (0, -1, 0)
    } else if face == 2 {
        (1, 0, 0)
    } else if face == 3 {
        (-1, 0, 0)
    } else if face == 4 {
        (0, 0, 1)
    } else {
        (0, 0, -1)
    }
}

/// Whether the cell at interior coordinates `(x, y, z)` exposes a face
/// toward `face`: it holds a voxel, and the neighbor on that side is
/// air or a transparent voxel of a different type.
pub open spec fn spec_exposed(
    vox: Seq<u16>,
    trans: Set<u16>,
    face: int,
    x: int,
    y: int,
    z: int,
) -> bool {
    let v = vox[spec_pad_linearize(x, y, z)];
    let n = vox[spec_linearize(
        x + 1 + spec_face_normal(face).0,
        y + 1 + spec_face_normal(face).1,
        z + 1 + spec_face_normal(face).2,
    )];
    v != 0 && (n == 0 || (trans.contains(n) && n != v))
}

/// The interior cell at layer `a`, row `b`, column `c` of a face
/// direction's scan frame: layers stack along the face's normal axis.
pub open spec fn spec_frame_cell(face: int, a: int, b: int, c: int) -> (int, int, int) {
    if face == 0 || face == 1 {
        (b, a, c)
    } else if face == 2 || face == 3 {
        (a, b, c)
    } else {
        (b, c, a)
    }
}

/// Exposure of a frame cell.
pub open spec fn spec_frame_exposed(
    vox: Seq<u16>,
    trans: Set<u16>,
    face: int,
    a: int,
    b: int,
    c: int,
) -> bool {
    let (x, y, z) = spec_frame_cell(face, a, b, c);
    spec_exposed(vox, trans, face, x, y, z)
}

/// The voxel type of a frame cell.
pub open spec fn spec_frame_type(vox: Seq<u16>, face: int, a: int, b: int, c: int) -> u16 {
    let (x, y, z) = spec_frame_cell(face, a, b, c);
    vox[spec_pad_linearize(x, y, z)]
}

/// One merged rectangle of same-type exposed faces, in a face
/// direction's scan frame: layer `layer`, rows `row ..` for `height`,
/// columns `col ..` for `width`.
#[derive(Clone, Copy, Debug, PartialEq, Eq, Structural)]
pub struct Quad {
    pub layer: usize,
    pub row: usize,
    pub col: usize,
    pub width: usize,
    pub height: usize,
    pub v_type: u16,
}

impl Quad {
    /// The rectangle lies within one layer of the chunk and is not
    /// degenerate.
    pub open spec fn wf(&self) -> bool {
        &&& self.layer < CHUNK_S1
        &&& 1 <= self.height && self.row + self.height <= CHUNK_S1
        &&& 1 <= self.width && self.col + self.width <= CHUNK_S1
    }

    /// Whether the quad covers the frame cell `(a, b, c)`.
    pub open spec fn covers(&self, a: int, b: int, c: int) -> bool {
        a == self.layer && self.row <= b < self.row + self.height && self.col <= c < self.col
            + self.width
    }
}

/// What a correct quad list for one face direction states: every quad
/// stays in bounds, covers only exposed cells of its own voxel type,
/// no two quads overlap, and every exposed cell is covered.
pub open spec fn spec_face_mesh_ok(
    vox: Seq<u16>,
    trans: Set<u16>,
    face: int,
    quads: Seq<Quad>,
) -> bool {
    &&& forall|k: int| 0 <= k < quads.len() ==> (#[trigger] quads[k]).wf()
    &&& forall|k: int, a: int, b: int, c: int|
        0 <= k < quads.len() && #[trigger] quads[k].covers(a, b, c) ==> spec_frame_exposed(
            vox,
            trans,
            face,
            a,
            b,
            c,
        ) && spec_frame_type(vox, face, a, b, c) == quads[k].v_type
    &&& forall|k1: int, k2: int, a: int, b: int, c: int|
        0 <= k1 < quads.len() && 0 <= k2 < quads.len() && k1 != k2 && #[trigger] quads[k1].covers(
            a,
            b,
            c,
        ) ==> !#[trigger] quads[k2].covers(a, b, c)
    &&& forall|a: int, b: int, c: int|
        0 <= a < CHUNK_S1 && 0 <= b < CHUNK_S1 && 0 <= c < CHUNK_S1 && spec_frame_exposed(
            vox,
            trans,
            face,
            a,
            b,
            c,
        ) ==> exists|k: int| 0 <= k < quads.len() && (#[trigger] quads[k]).covers(a, b, c)
}

/// Every cell of one scan layer is exposed and of voxel type `v`.
pub open spec fn spec_uniform_layer(
    vox: Seq<u16>,
    trans: Set<u16>,
    face: int,
    a: int,
    v: u16,
) -> bool {
    forall|b: int, c: int|
        0 <= b < CHUNK_S1 && 0 <= c < CHUNK_S1 ==> #[trigger] spec_cell_good(
            vox,
            trans,
            face,
            a,
            b,
            c,
            v,
        )
}

/// Some cell of one row segment cannot join a run: it is already dealt
/// with, or it is not an exposed cell of type `v`.
pub open spec fn spec_row_blocked(
    vox: Seq<u16>,
    trans: Set<u16>,
    visited: Seq<bool>,
    face: int,
    a: int,
    row: int,
    c: int,
    w: int,
    v: u16,
) -> bool {
    exists|cc: int|
        c <= cc < c + w && (#[trigger] spec_vis(visited, row, cc) || !spec_cell_good(
            vox,
            trans,
            face,
            a,
            row,
            cc,
            v,
        ))
}

/// The one quad that tiles a whole layer.
pub open spec fn spec_full_layer_quad(a: int, v: u16) -> Quad {
    Quad { layer: a as usize, row: 0, col: 0, width: CHUNK_S1, height: CHUNK_S1, v_type: v }
}

/// Whether a palette index is in the transparent set.
fn contains_u16(transparents: &Vec<u16>, x: u16) -> (r: bool)
    ensures
        r == transparents@.to_set().contains(x),
{
    let n = transparents.len();
    let mut i: usize = 0;
    while i < n
        invariant
            i <= n,
            n == transparents@.len(),
            forall|j: int| 0 <= j < i ==> transparents@[j] != x,
        decreases n - i,
    {
        if transparents[i] == x {
            proof {
                assert(transparents@.contains(x));
            }
            return true;
        }
        i = i + 1;
    }
    proof {
        assert(!transparents@.contains(x));
    }
    false
}

/// Reads the voxel type of a frame cell.
fn frame_type(vox: &Vec<u16>, face: usize, a: usize, b: usize, c: usize) -> (r: u16)
    requires
        vox@.len() == CHUNKP_S3,
        face < 6,
        a < CHUNK_S1,
        b < CHUNK_S1,
        c < CHUNK_S1,
    ensures
        r == spec_frame_type(vox@, face as int, a as int, b as int, c as int),
{
    let (x, y, z) = if face == 0 || face == 1 {
        (b, a, c)
    } else if face == 2 || face == 3 {
        (a, b, c)
    } else {
        (b, c, a)
    };
    vox[pad_linearize(x, y, z)]
}

/// Whether a frame cell exposes a face toward `face`.
fn frame_exposed(vox: &Vec<u16>, transparents: &Vec<u16>, face: usize, a: usize, b: usize, c: usize) -> (r:
    bool)
    requires
        vox@.len() == CHUNKP_S3,
        face < 6,
        a < CHUNK_S1,
        b < CHUNK_S1,
        c < CHUNK_S1,
    ensures
        r == spec_frame_exposed(
            vox@,
            transparents@.to_set(),
            face as int,
            a as int,
            b as int,
            c as int,
        ),
{
    let (x, y, z) = if face == 0 || face == 1 {
        (b, a, c)
    } else if face == 2 || face == 3 {
        (a, b, c)
    } else {
        (b, c, a)
    };
    let v = vox[pad_linearize(x, y, z)];
    if v == 0 {
        return false;
    }
    let n = if face == 0 {
        vox[linearize(x + 1, y + 2, z + 1)]
    } else if face == 1 {
        vox[linearize(x + 1, y, z + 1)]
    } else if face == 2 {
        vox[linearize(x + 2, y + 1, z + 1)]
    } else if face == 3 {
        vox[linearize(x, y + 1, z + 1)]
    } else if face == 4 {
        vox[linearize(x + 1, y + 1, z + 2)]
    } else {
        vox[linearize(x + 1, y + 1, z)]
    };
    if n == 0 {
        true
    } else {
        contains_u16(transparents, n) && n != v
    }
}

/// Whether the scan has dealt with frame cell `(b, c)` of the current
/// layer.
pub open spec fn spec_vis(vis: Seq<bool>, b: int, c: int) -> bool {
    vis[b * (CHUNK_S1 as int) + c]
}

fn get_vis(vis: &Vec<bool>, b: usize, c: usize) -> (r: bool)
    requires
        vis@.len() == CHUNK_S2,
        b < CHUNK_S1,
        c < CHUNK_S1,
    ensures
        r == spec_vis(vis@, b as int, c as int),
{
    vis[b * CHUNK_S1 + c]
}

fn set_vis(vis: &mut Vec<bool>, b: usize, c: usize)
    requires
        old(vis)@.len() == CHUNK_S2,
        b < CHUNK_S1,
        c < CHUNK_S1,
    ensures
        final (vis)@.len() == CHUNK_S2,
        spec_vis(final (vis)@, b as int, c as int),
        forall|b2: int, c2: int|
            0 <= b2 < CHUNK_S1 && 0 <= c2 < CHUNK_S1 && !(b2 == b && c2 == c) ==> spec_vis(
                final (vis)@,
                b2,
                c2,
            ) == spec_vis(old(vis)@, b2, c2),
{
    let i = b * CHUNK_S1 + c;
    vis[i] = true;
}

/// The cell is exposed toward `face` and holds voxel type `v`.
pub open spec fn spec_cell_good(
    vox: Seq<u16>,
    trans: Set<u16>,
    face: int,
    a: int,
    b: int,
    c: int,
    v: u16,
) -> bool {
    spec_frame_exposed(vox, trans, face, a, b, c) && spec_frame_type(vox, face, a, b, c) == v
}

/// A correct quad list for one layer of one face direction: quads of
/// this layer only, in bounds, over exposed same-type cells, disjoint,
/// and covering every exposed cell of the layer.
pub open spec fn spec_layer_mesh_ok(
    vox: Seq<u16>,
    trans: Set<u16>,
    face: int,
    a: int,
    quads: Seq<Quad>,
) -> bool {
    &&& forall|k: int| 0 <= k < quads.len() ==> (#[trigger] quads[k]).wf() && quads[k].layer == a
    &&& forall|k: int, aa: int, b: int, c: int|
        0 <= k < quads.len() && #[trigger] quads[k].covers(aa, b, c) ==> spec_cell_good(
            vox,
            trans,
            face,
            aa,
            b,
            c,
            quads[k].v_type,
        )
    &&& forall|k1: int, k2: int, aa: int, b: int, c: int|
        0 <= k1 < quads.len() && 0 <= k2 < quads.len() && k1 != k2 && #[trigger] quads[k1].covers(
            aa,
            b,
            c,
        ) ==> !#[trigger] quads[k2].covers(aa, b, c)
    &&& forall|b: int, c: int|
        0 <= b < CHUNK_S1 && 0 <= c < CHUNK_S1 && spec_frame_exposed(vox, trans, face, a, b, c)
            ==> exists|k: int| 0 <= k < quads.len() && (#[trigger] quads[k]).covers(a as int, b, c)
}

/// Whether one whole row of the scan frame can join the current run:
/// every cell unvisited, exposed, and of voxel type `v`.
#[verifier::loop_isolation(false)]
#[verifier::spinoff_prover]
#[verifier::rlimit(60)]
fn row_all_good(
    vox: &Vec<u16>,
    transparents: &Vec<u16>,
    visited: &Vec<bool>,
    face: usize,
    a: usize,
    nb: usize,
    c: usize,
    w: usize,
    v: u16,
) -> (r: bool)
    requires
        vox@.len() == CHUNKP_S3,
        visited@.len() == CHUNK_S2,
        face < 6,
        a < CHUNK_S1,
        nb < CHUNK_S1,
        c < CHUNK_S1,
        1 <= w,
        c + w <= CHUNK_S1,
    ensures
        r ==> forall|c2: int|
            c <= c2 < c + w ==> !spec_vis(visited@, nb as int, c2) && spec_cell_good(
                vox@,
                transparents@.to_set(),
                face as int,
                a as int,
                nb as int,
                c2,
                v,
            ),
        !r ==> spec_row_blocked(
            vox@,
            transparents@.to_set(),
            visited@,
            face as int,
            a as int,
            nb as int,
            c as int,
            w as int,
            v,
        ),
{
    let ghost vt = transparents@.to_set();
    let mut cc = c;
    while cc < c + w
        invariant
            c <= cc <= c + w,
            forall|c2: int|
                c <= c2 < cc ==> !spec_vis(visited@, nb as int, c2) && spec_cell_good(
                    vox@,
                    vt,
                    face as int,
                    a as int,
                    nb as int,
                    c2,
                    v,
                ),
        decreases c + w - cc,
    {
        if get_vis(visited, nb, cc) {
            proof {
                assert(spec_vis(visited@, nb as int, cc as int));
            }
            return false;
        }
        if !frame_exposed(vox, transparents, face, a, nb, cc) {
            proof {
                assert(!spec_cell_good(vox@, vt, face as int, a as int, nb as int, cc as int, v));
            }
            return false;
        }
        if frame_type(vox, face, a, nb, cc) != v {
            proof {
                assert(!spec_cell_good(vox@, vt, face as int, a as int, nb as int, cc as int, v));
            }
            return false;
        }
        proof {
            assert(!spec_vis(visited@, nb as int, cc as int) && spec_cell_good(
                vox@,
                vt,
                face as int,
                a as int,
                nb as int,
                cc as int,
                v,
            ));
        }
        cc = cc + 1;
        proof {
            assert(forall|c2: int|
                c <= c2 < cc ==> !spec_vis(visited@, nb as int, c2) && spec_cell_good(
                    vox@,
                    vt,
                    face as int,
                    a as int,
                    nb as int,
                    c2,
                    v,
                ));
        }
    }
    true
}

/// Extends a run from `(b, c)`: first along the columns while type and
/// exposure match, then down the rows while the whole row matches. The
/// returned rectangle is unvisited, exposed, and uniformly of type `v`.
#[verifier::loop_isolation(false)]
#[verifier::spinoff_prover]
#[verifier::rlimit(60)]
fn find_rect(
    vox: &Vec<u16>,
    transparents: &Vec<u16>,
    visited: &Vec<bool>,
    face: usize,
    a: usize,
    b: usize,
    c: usize,
    v: u16,
) -> (r: (usize, usize))
    requires
        vox@.len() == CHUNKP_S3,
        visited@.len() == CHUNK_S2,
        face < 6,
        a < CHUNK_S1,
        b < CHUNK_S1,
        c < CHUNK_S1,
        !spec_vis(visited@, b as int, c as int),
        spec_cell_good(vox@, transparents@.to_set(), face as int, a as int, b as int, c as int, v),
    ensures
        1 <= r.0 && c + r.0 <= CHUNK_S1,
        1 <= r.1 && b + r.1 <= CHUNK_S1,
        forall|bb: int, cc: int|
            b <= bb < b + r.1 && c <= cc < c + r.0 ==> !spec_vis(visited@, bb, cc)
                && spec_cell_good(
                vox@,
                transparents@.to_set(),
                face as int,
                a as int,
                bb,
                cc,
                v,
            ),
        // the run is greedy: it stopped at the border, at a visited
        // cell, or at a cell that does not match
        c + r.0 == CHUNK_S1 || spec_vis(visited@, b as int, c + r.0) || !spec_cell_good(
            vox@,
            transparents@.to_set(),
            face as int,
            a as int,
            b as int,
            c + r.0,
            v,
        ),
        b + r.1 == CHUNK_S1 || spec_row_blocked(
            vox@,
            transparents@.to_set(),
            visited@,
            face as int,
            a as int,
            b + r.1,
            c as int,
            r.0 as int,
            v,
        ),
{
    let ghost vt = transparents@.to_set();
    let mut w: usize = 1;
    while c + w < CHUNK_S1 && cell_free_good(vox, transparents, visited, face, a, b, c + w, v)
        invariant
            1 <= w,
            c + w <= CHUNK_S1,
            forall|cc: int|
                c <= cc < c + w ==> !spec_vis(visited@, b as int, cc) && spec_cell_good(
                    vox@,
                    vt,
                    face as int,
                    a as int,
                    b as int,
                    cc,
                    v,
                ),
        decreases CHUNK_S1 - (c + w),
    {
        w = w + 1;
        proof {
            assert(forall|cc: int|
                c <= cc < c + w ==> !spec_vis(visited@, b as int, cc) && spec_cell_good(
                    vox@,
                    vt,
                    face as int,
                    a as int,
                    b as int,
                    cc,
                    v,
                ));
        }
    }
    let mut h: usize = 1;
    while b + h < CHUNK_S1 && row_all_good(vox, transparents, visited, face, a, b + h, c, w, v)
        invariant
            1 <= w,
            c + w <= CHUNK_S1,
            1 <= h,
            b + h <= CHUNK_S1,
            forall|bb: int, cc: int|
                b <= bb < b + h && c <= cc < c + w ==> !spec_vis(visited@, bb, cc)
                    && spec_cell_good(vox@, vt, face as int, a as int, bb, cc, v),
        decreases CHUNK_S1 - (b + h),
    {
        h = h + 1;
        proof {
            assert(forall|bb: int, cc: int|
                b <= bb < b + h && c <= cc < c + w ==> !spec_vis(visited@, bb, cc)
                    && spec_cell_good(vox@, vt, face as int, a as int, bb, cc, v));
        }
    }
    proof {
        assert(forall|bb: int, cc: int|
            b <= bb < b + h && c <= cc < c + w ==> !spec_vis(visited@, bb, cc) && spec_cell_good(
                vox@,
                transparents@.to_set(),
                face as int,
                a as int,
                bb,
                cc,
                v,
            ));
    }
    (w, h)
}

/// Whether one frame cell can join a run: unvisited, exposed, type `v`.
fn cell_free_good(
    vox: &Vec<u16>,
    transparents: &Vec<u16>,
    visited: &Vec<bool>,
    face: usize,
    a: usize,
    b: usize,
    c: usize,
    v: u16,
) -> (r: bool)
    requires
        vox@.len() == CHUNKP_S3,
        visited@.len() == CHUNK_S2,
        face < 6,
        a < CHUNK_S1,
        b < CHUNK_S1,
        c < CHUNK_S1,
    ensures
        r == (!spec_vis(visited@, b as int, c as int) && spec_cell_good(
            vox@,
            transparents@.to_set(),
            face as int,
            a as int,
            b as int,
            c as int,
            v,
        )),
{
    if get_vis(visited, b, c) {
        return false;
    }
    if !frame_exposed(vox, transparents, face, a, b, c) {
        return false;
    }
    frame_type(vox, face, a, b, c) == v
}

/// Marks every cell of a rectangle as dealt with; all other cells keep
/// their flag.
#[verifier::loop_isolation(false)]
fn mark_rect(visited: &mut Vec<bool>, b: usize, c: usize, w: usize, h: usize)
    requires
        old(visited)@.len() == CHUNK_S2,
        1 <= w && c + w <= CHUNK_S1,
        1 <= h && b + h <= CHUNK_S1,
    ensures
        final (visited)@.len() == CHUNK_S2,
        forall|b2: int, c2: int|
            0 <= b2 < CHUNK_S1 && 0 <= c2 < CHUNK_S1 && !(b <= b2 < b + h && c <= c2 < c + w)
                ==> spec_vis(final (visited)@, b2, c2) == spec_vis(old(visited)@, b2, c2),
        forall|b2: int, c2: int|
            b <= b2 < b + h && c <= c2 < c + w ==> spec_vis(final (visited)@, b2, c2),
{
    let mut bb = b;
    while bb < b + h
        invariant
            b <= bb <= b + h,
            visited@.len() == CHUNK_S2,
            forall|b2: int, c2: int|
                0 <= b2 < CHUNK_S1 && 0 <= c2 < CHUNK_S1 && !(b <= b2 < bb && c <= c2 < c + w)
                    ==> spec_vis(visited@, b2, c2) == spec_vis(old(visited)@, b2, c2),
            forall|b2: int, c2: int|
                b <= b2 < bb && c <= c2 < c + w ==> spec_vis(visited@, b2, c2),
        decreases b + h - bb,
    {
        let mut cc = c;
        while cc < c + w
            invariant
                b <= bb < b + h,
                c <= cc <= c + w,
                visited@.len() == CHUNK_S2,
                forall|b2: int, c2: int|
                    0 <= b2 < CHUNK_S1 && 0 <= c2 < CHUNK_S1 && !(b <= b2 < bb && c <= c2 < c + w)
                        && !(b2 == bb && c <= c2 < cc) ==> spec_vis(visited@, b2, c2) == spec_vis(
                        old(visited)@,
                        b2,
                        c2,
                    ),
                forall|b2: int, c2: int|
                    b <= b2 < bb && c <= c2 < c + w ==> spec_vis(visited@, b2, c2),
                forall|c2: int| c <= c2 < cc ==> spec_vis(visited@, bb as int, c2),
            decreases c + w - cc,
        {
            set_vis(visited, bb, cc);
            cc = cc + 1;
        }
        bb = bb + 1;
    }
}

/// After marking one rectangle and filing its quad, a cell is marked
/// exactly when some quad of the grown list covers it.
proof fn lemma_vis_after_push(
    a: int,
    b: int,
    c: int,
    w: int,
    h: int,
    pre_vis: Seq<bool>,
    post_vis: Seq<bool>,
    pre: Seq<Quad>,
    q: Quad,
    quads: Seq<Quad>,
)
    requires
        quads == pre.push(q),
        q.layer == a,
        q.row == b,
        q.col == c,
        q.width == w,
        q.height == h,
        0 <= b && b + h <= CHUNK_S1,
        0 <= c && c + w <= CHUNK_S1,
        1 <= w,
        1 <= h,
        forall|b2: int, c2: int|
            0 <= b2 < CHUNK_S1 && 0 <= c2 < CHUNK_S1 ==> (spec_vis(pre_vis, b2, c2)
                <==> exists|k: int| 0 <= k < pre.len() && (#[trigger] pre[k]).covers(a, b2, c2)),
        forall|b2: int, c2: int|
            0 <= b2 < CHUNK_S1 && 0 <= c2 < CHUNK_S1 && !(b <= b2 < b + h && c <= c2 < c + w)
                ==> spec_vis(post_vis, b2, c2) == spec_vis(pre_vis, b2, c2),
        forall|b2: int, c2: int|
            b <= b2 < b + h && c <= c2 < c + w ==> spec_vis(post_vis, b2, c2),
    ensures
        forall|b2: int, c2: int|
            0 <= b2 < CHUNK_S1 && 0 <= c2 < CHUNK_S1 ==> (spec_vis(post_vis, b2, c2)
                <==> exists|k: int| 0 <= k < quads.len() && (#[trigger] quads[k]).covers(a, b2, c2)),
{
    let nq = pre.len() as int;
    assert forall|b2: int, c2: int|
        0 <= b2 < CHUNK_S1 && 0 <= c2 < CHUNK_S1 implies (spec_vis(post_vis, b2, c2)
        <==> exists|k: int| 0 <= k < quads.len() && (#[trigger] quads[k]).covers(a, b2, c2)) by {
        if q.covers(a, b2, c2) {
            assert(spec_vis(post_vis, b2, c2));
            assert(quads[nq].covers(a, b2, c2));
        } else {
            assert(spec_vis(post_vis, b2, c2) == spec_vis(pre_vis, b2, c2));
            if spec_vis(pre_vis, b2, c2) {
                let k = choose|k: int|
                    0 <= k < pre.len() && (#[trigger] pre[k]).covers(a, b2, c2);
                assert(quads[k].covers(a, b2, c2));
            } else {
                if exists|k: int| 0 <= k < quads.len() && (#[trigger] quads[k]).covers(a, b2, c2) {
                    let k = choose|k: int|
                        0 <= k < quads.len() && (#[trigger] quads[k]).covers(a, b2, c2);
                    assert(k != nq);
                    assert(pre[k].covers(a, b2, c2));
                    assert(false);
                }
            }
        }
    }
}

/// A quad over previously unmarked cells overlaps no earlier quad.
proof fn lemma_disjoint_after_push(
    a: int,
    b: int,
    c: int,
    w: int,
    h: int,
    pre_vis: Seq<bool>,
    pre: Seq<Quad>,
    q: Quad,
    quads: Seq<Quad>,
)
    requires
        quads == pre.push(q),
        q.layer == a,
        q.row == b,
        q.col == c,
        q.width == w,
        q.height == h,
        0 <= b && b + h <= CHUNK_S1,
        0 <= c && c + w <= CHUNK_S1,
        1 <= w,
        1 <= h,
        forall|b2: int, c2: int|
            0 <= b2 < CHUNK_S1 && 0 <= c2 < CHUNK_S1 ==> (spec_vis(pre_vis, b2, c2)
                <==> exists|k: int| 0 <= k < pre.len() && (#[trigger] pre[k]).covers(a, b2, c2)),
        forall|b2: int, c2: int|
            b <= b2 < b + h && c <= c2 < c + w ==> !spec_vis(pre_vis, b2, c2),
        forall|k1: int, k2: int, aa: int, b2: int, c2: int|
            0 <= k1 < pre.len() && 0 <= k2 < pre.len() && k1 != k2 && #[trigger] pre[k1].covers(
                aa,
                b2,
                c2,
            ) ==> !#[trigger] pre[k2].covers(aa, b2, c2),
    ensures
        forall|k1: int, k2: int, aa: int, b2: int, c2: int|
            0 <= k1 < quads.len() && 0 <= k2 < quads.len() && k1 != k2 && #[trigger] quads[k1].covers(
                aa,
                b2,
                c2,
            ) ==> !#[trigger] quads[k2].covers(aa, b2, c2),
{
    let nq = pre.len() as int;
    assert forall|k1: int, k2: int, aa: int, b2: int, c2: int|
        0 <= k1 < quads.len() && 0 <= k2 < quads.len() && k1 != k2 && #[trigger] quads[k1].covers(
            aa,
            b2,
            c2,
        ) implies !#[trigger] quads[k2].covers(aa, b2, c2) by {
        if k1 == nq && quads[k2].covers(aa, b2, c2) {
            assert(aa == a);
            assert(pre[k2].covers(a, b2, c2));
            assert(spec_vis(pre_vis, b2, c2));
            assert(!spec_vis(pre_vis, b2, c2));
        }
        if k2 == nq && quads[k1].covers(aa, b2, c2) && quads[k2].covers(aa, b2, c2) {
            assert(aa == a);
            assert(pre[k1].covers(a, b2, c2));
            assert(spec_vis(pre_vis, b2, c2));
            assert(!spec_vis(pre_vis, b2, c2));
        }
    }
}

/// Appending one uniform, exposed rectangle to a typed quad list keeps
/// every quad's covered cells exposed and of its own type.
proof fn lemma_typed_after_push(
    vox: Seq<u16>,
    vt: Set<u16>,
    pvis: Seq<bool>,
    face: int,
    a: int,
    pre: Seq<Quad>,
    q: Quad,
    quads: Seq<Quad>,
    b: int,
    c: int,
    w: int,
    h: int,
    v: u16,
)
    requires
        quads == pre.push(q),
        q.layer == a,
        q.row == b,
        q.col == c,
        q.width == w,
        q.height == h,
        q.v_type == v,
        forall|k: int, aa: int, b2: int, c2: int|
            0 <= k < pre.len() && #[trigger] pre[k].covers(aa, b2, c2) ==> spec_cell_good(
                vox,
                vt,
                face,
                aa,
                b2,
                c2,
                pre[k].v_type,
            ),
        forall|b2: int, c2: int|
            b <= b2 < b + h && c <= c2 < c + w ==> !spec_vis(pvis, b2, c2) && spec_cell_good(
                vox,
                vt,
                face,
                a,
                b2,
                c2,
                v,
            ),
    ensures
        forall|k: int, aa: int, b2: int, c2: int|
            0 <= k < quads.len() && #[trigger] quads[k].covers(aa, b2, c2) ==> spec_cell_good(
                vox,
                vt,
                face,
                aa,
                b2,
                c2,
                quads[k].v_type,
            ),
{
    assert forall|k: int, aa: int, b2: int, c2: int|
        0 <= k < quads.len() && #[trigger] quads[k].covers(aa, b2, c2) implies spec_cell_good(
        vox,
        vt,
        face,
        aa,
        b2,
        c2,
        quads[k].v_type,
    ) by {
        if k == pre.len() {
            assert(quads[k] == q);
            assert(aa == a && b <= b2 < b + h && c <= c2 < c + w);
            assert(!spec_vis(pvis, b2, c2) && spec_cell_good(vox, vt, face, a, b2, c2, v));
        } else {
            assert(pre[k].covers(aa, b2, c2));
        }
    }
}

/// Greedily meshes one layer of one face direction: scan the layer row
/// by row; at each unvisited exposed cell, extend a run along the
/// columns while type and exposure match, then extend it down the rows
/// while the entire row matches; emit one quad per run.
#[verifier::loop_isolation(false)]
#[verifier::spinoff_prover]
#[verifier::rlimit(100)]
pub fn mesh_layer(vox: &Vec<u16>, transparents: &Vec<u16>, face: usize, a: usize) -> (r: Vec<Quad>)
    requires
        vox@.len() == CHUNKP_S3,
        face < 6,
        a < CHUNK_S1,
    ensures
        spec_layer_mesh_ok(vox@, transparents@.to_set(), face as int, a as int, r@),
        forall|v: u16|
            spec_uniform_layer(vox@, transparents@.to_set(), face as int, a as int, v) ==> r@
                == seq![spec_full_layer_quad(a as int, v)],
{
    let ghost vt = transparents@.to_set();
    let ghost uv = spec_frame_type(vox@, face as int, a as int, 0, 0);
    let mut visited = crate::packed::filled(false, CHUNK_S2);
    let mut quads: Vec<Quad> = Vec::new();
    let mut b: usize = 0;
    while b < CHUNK_S1
        invariant
            vox@.len() == CHUNKP_S3,
            face < 6,
            a < CHUNK_S1,
            b <= CHUNK_S1,
            vt == transparents@.to_set(),
            visited@.len() == CHUNK_S2,
            forall|bb: int, cc: int|
                0 <= bb < CHUNK_S1 && 0 <= cc < CHUNK_S1 ==> (spec_vis(visited@, bb, cc)
                    <==> exists|k: int|
                    0 <= k < quads@.len() && (#[trigger] quads@[k]).covers(a as int, bb, cc)),
            forall|k: int|
                0 <= k < quads@.len() ==> (#[trigger] quads@[k]).wf() && quads@[k].layer == a,
            forall|k: int, aa: int, bb: int, cc: int|
                0 <= k < quads@.len() && #[trigger] quads@[k].covers(aa, bb, cc)
                    ==> spec_cell_good(vox@, vt, face as int, aa, bb, cc, quads@[k].v_type),
            forall|k1: int, k2: int, aa: int, bb: int, cc: int|
                0 <= k1 < quads@.len() && 0 <= k2 < quads@.len() && k1 != k2
                    && #[trigger] quads@[k1].covers(aa, bb, cc) ==> !#[trigger] quads@[k2].covers(
                    aa,
                    bb,
                    cc,
                ),
            forall|bb: int, cc: int|
                0 <= bb < b && 0 <= cc < CHUNK_S1 && spec_frame_exposed(
                    vox@,
                    vt,
                    face as int,
                    a as int,
                    bb,
                    cc,
                ) ==> spec_vis(visited@, bb, cc),
            spec_uniform_layer(vox@, vt, face as int, a as int, uv) ==> (quads@
                == seq![spec_full_layer_quad(a as int, uv)] || (quads@.len() == 0 && b == 0)),
        decreases CHUNK_S1 - b,
    {
        let mut c: usize = 0;
        while c < CHUNK_S1
            invariant
                vox@.len() == CHUNKP_S3,
                face < 6,
                a < CHUNK_S1,
                b < CHUNK_S1,
                c <= CHUNK_S1,
                vt == transparents@.to_set(),
                visited@.len() == CHUNK_S2,
                forall|bb: int, cc: int|
                    0 <= bb < CHUNK_S1 && 0 <= cc < CHUNK_S1 ==> (spec_vis(visited@, bb, cc)
                        <==> exists|k: int|
                        0 <= k < quads@.len() && (#[trigger] quads@[k]).covers(a as int, bb, cc)),
                forall|k: int|
                    0 <= k < quads@.len() ==> (#[trigger] quads@[k]).wf() && quads@[k].layer == a,
                forall|k: int, aa: int, bb: int, cc: int|
                    0 <= k < quads@.len() && #[trigger] quads@[k].covers(aa, bb, cc)
                        ==> spec_cell_good(vox@, vt, face as int, aa, bb, cc, quads@[k].v_type),
                forall|k1: int, k2: int, aa: int, bb: int, cc: int|
                    0 <= k1 < quads@.len() && 0 <= k2 < quads@.len() && k1 != k2
                        && #[trigger] quads@[k1].covers(aa, bb, cc) ==> !#[trigger] quads@[k2].covers(
                        aa,
                        bb,
                        cc,
                    ),
                forall|bb: int, cc: int|
                    0 <= bb < b && 0 <= cc < CHUNK_S1 && spec_frame_exposed(
                        vox@,
                        vt,
                        face as int,
                        a as int,
                        bb,
                        cc,
                    ) ==> spec_vis(visited@, bb, cc),
                forall|cc: int|
                    0 <= cc < c && spec_frame_exposed(
                        vox@,
                        vt,
                        face as int,
                        a as int,
                        b as int,
                        cc,
                    ) ==> spec_vis(visited@, b as int, cc),
                spec_uniform_layer(vox@, vt, face as int, a as int, uv) ==> (quads@
                    == seq![spec_full_layer_quad(a as int, uv)] || (quads@.len() == 0 && b == 0
                    && c == 0)),
            decreases CHUNK_S1 - c,
        {
            if !get_vis(&visited, b, c) && frame_exposed(vox, transparents, face, a, b, c) {
                let v = frame_type(vox, face, a, b, c);
                let (w, h) = find_rect(vox, transparents, &visited, face, a, b, c, v);
                let ghost pre_vis = visited@;
                let ghost pre_quads = quads@;
                mark_rect(&mut visited, b, c, w, h);
                let q = Quad { layer: a, row: b, col: c, width: w, height: h, v_type: v };
                quads.push(q);
                proof {
                    let ghost nq = quads@.len() - 1;
                    assert(quads@[nq] == q);
                    assert(forall|b2: int, c2: int|
                        b <= b2 < b + h && c <= c2 < c + w ==> !spec_vis(pre_vis, b2, c2)
                            && spec_cell_good(
                            vox@,
                            transparents@.to_set(),
                            face as int,
                            a as int,
                            b2,
                            c2,
                            v,
                        ));
                    assert(forall|b2: int, c2: int|
                        b <= b2 < b + h && c <= c2 < c + w ==> !spec_vis(pre_vis, b2, c2));
                    lemma_vis_after_push(
                        a as int,
                        b as int,
                        c as int,
                        w as int,
                        h as int,
                        pre_vis,
                        visited@,
                        pre_quads,
                        q,
                        quads@,
                    );
                    lemma_disjoint_after_push(
                        a as int,
                        b as int,
                        c as int,
                        w as int,
                        h as int,
                        pre_vis,
                        pre_quads,
                        q,
                        quads@,
                    );
                    lemma_typed_after_push(
                        vox@,
                        transparents@.to_set(),
                        pre_vis,
                        face as int,
                        a as int,
                        pre_quads,
                        q,
                        quads@,
                        b as int,
                        c as int,
                        w as int,
                        h as int,
                        v,
                    );
                    assert forall|b2: int, c2: int|
                        0 <= b2 < b && 0 <= c2 < CHUNK_S1 && spec_frame_exposed(
                            vox@,
                            vt,
                            face as int,
                            a as int,
                            b2,
                            c2,
                        ) implies spec_vis(visited@, b2, c2) by {
                        assert(spec_vis(pre_vis, b2, c2));
                        if !(b <= b2 < b + h && c <= c2 < c + w) {
                            assert(spec_vis(visited@, b2, c2) == spec_vis(pre_vis, b2, c2));
                        }
                    }
                    assert forall|c2: int|
                        0 <= c2 < c + 1 && spec_frame_exposed(
                            vox@,
                            vt,
                            face as int,
                            a as int,
                            b as int,
                            c2,
                        ) implies spec_vis(visited@, b as int, c2) by {
                        if c2 < c {
                            assert(spec_vis(pre_vis, b as int, c2));
                            if !(c <= c2 < c + w) {
                                assert(spec_vis(visited@, b as int, c2) == spec_vis(
                                    pre_vis,
                                    b as int,
                                    c2,
                                ));
                            }
                        } else {
                            assert((b as int) < b + h && c <= c2 < c + w);
                        }
                    }
                    if spec_uniform_layer(vox@, vt, face as int, a as int, uv) {
                        if pre_quads.len() != 0 {
                            assert(pre_quads == seq![spec_full_layer_quad(a as int, uv)]);
                            assert(pre_quads[0].covers(a as int, b as int, c as int));
                            assert(spec_vis(pre_vis, b as int, c as int));
                            assert(false);
                        }
                        assert(b == 0 && c == 0);
                        assert(spec_cell_good(vox@, vt, face as int, a as int, 0, 0, uv));
                        assert(v == uv);
                        if c + w != CHUNK_S1 {
                            assert(c + w < CHUNK_S1);
                            assert(spec_cell_good(
                                vox@,
                                vt,
                                face as int,
                                a as int,
                                b as int,
                                c + w,
                                uv,
                            ));
                            assert(!spec_vis(pre_vis, b as int, c + w));
                            assert(false);
                        }
                        if b + h != CHUNK_S1 {
                            assert(spec_row_blocked(
                                vox@,
                                vt,
                                pre_vis,
                                face as int,
                                a as int,
                                b + h,
                                c as int,
                                w as int,
                                v,
                            ));
                            let cc = choose|cc: int|
                                c <= cc < c + w && (#[trigger] spec_vis(pre_vis, b + h, cc)
                                    || !spec_cell_good(
                                    vox@,
                                    vt,
                                    face as int,
                                    a as int,
                                    b + h,
                                    cc,
                                    v,
                                ));
                            assert(spec_cell_good(
                                vox@,
                                vt,
                                face as int,
                                a as int,
                                b + h,
                                cc,
                                uv,
                            ));
                            assert(!spec_vis(pre_vis, b + h, cc));
                            assert(false);
                        }
                        assert(q == spec_full_layer_quad(a as int, uv));
                        assert(quads@ =~= seq![spec_full_layer_quad(a as int, uv)]);
                    }
                }
            } else {
                proof {
                    if spec_uniform_layer(vox@, vt, face as int, a as int, uv) && quads@.len()
                        == 0 {
                        assert(spec_cell_good(
                            vox@,
                            vt,
                            face as int,
                            a as int,
                            b as int,
                            c as int,
                            uv,
                        ));
                        assert(!spec_vis(visited@, b as int, c as int));
                        assert(false);
                    }
                }
            }
            c = c + 1;
        }
        b = b + 1;
    }
    proof {
        assert forall|b2: int, c2: int|
            0 <= b2 < CHUNK_S1 && 0 <= c2 < CHUNK_S1 && spec_frame_exposed(
                vox@,
                vt,
                face as int,
                a as int,
                b2,
                c2,
            ) implies exists|k: int|
            0 <= k < quads@.len() && (#[trigger] quads@[k]).covers(a as int, b2, c2) by {
            assert(spec_vis(visited@, b2, c2));
        }
        assert forall|v: u16|
            spec_uniform_layer(vox@, vt, face as int, a as int, v) implies quads@
            == seq![spec_full_layer_quad(a as int, v)] by {
            assert(spec_cell_good(vox@, vt, face as int, a as int, 0, 0, v));
            assert(v == uv);
        }
    }
    quads
}

/// Greedily meshes every layer of one face direction.
pub fn mesh_face(vox: &Vec<u16>, transparents: &Vec<u16>, face: usize) -> (r: Vec<Quad>)
    requires
        vox@.len() == CHUNKP_S3,
        face < 6,
    ensures
        spec_face_mesh_ok(vox@, transparents@.to_set(), face as int, r@),
        forall|v: u16|
            spec_full_grid(vox@, v) ==> r@ == seq![
                spec_full_layer_quad(spec_boundary_layer(face as int), v),
            ],
{
    let ghost vt = transparents@.to_set();
    let ghost vgw: u16 = vox@[crate::chunk::spec_pad_linearize(0, 0, 0)];
    let mut r: Vec<Quad> = Vec::new();
    let mut a: usize = 0;
    while a < CHUNK_S1
        invariant
            vox@.len() == CHUNKP_S3,
            face < 6,
            a <= CHUNK_S1,
            vt == transparents@.to_set(),
            forall|k: int| 0 <= k < r@.len() ==> (#[trigger] r@[k]).wf() && r@[k].layer < a,
            forall|k: int, aa: int, bb: int, cc: int|
                0 <= k < r@.len() && #[trigger] r@[k].covers(aa, bb, cc) ==> spec_cell_good(
                    vox@,
                    vt,
                    face as int,
                    aa,
                    bb,
                    cc,
                    r@[k].v_type,
                ),
            forall|k1: int, k2: int, aa: int, bb: int, cc: int|
                0 <= k1 < r@.len() && 0 <= k2 < r@.len() && k1 != k2 && #[trigger] r@[k1].covers(
                    aa,
                    bb,
                    cc,
                ) ==> !#[trigger] r@[k2].covers(aa, bb, cc),
            forall|aa: int, bb: int, cc: int|
                0 <= aa < a && 0 <= bb < CHUNK_S1 && 0 <= cc < CHUNK_S1 && spec_frame_exposed(
                    vox@,
                    vt,
                    face as int,
                    aa,
                    bb,
                    cc,
                ) ==> exists|k: int| 0 <= k < r@.len() && (#[trigger] r@[k]).covers(aa, bb, cc),
            spec_full_grid(vox@, vgw) ==> r@ == (if a <= spec_boundary_layer(face as int) {
                Seq::<Quad>::empty()
            } else {
                seq![spec_full_layer_quad(spec_boundary_layer(face as int), vgw)]
            }),
        decreases CHUNK_S1 - a,
    {
        let ghost pre = r@;
        let mut layer_quads = mesh_layer(vox, transparents, face, a);
        let ghost lq = layer_quads@;
        r.append(&mut layer_quads);
        proof {
            assert(r@ == pre + lq);
            assert forall|aa: int, bb: int, cc: int|
                0 <= aa < a + 1 && 0 <= bb < CHUNK_S1 && 0 <= cc < CHUNK_S1 && spec_frame_exposed(
                    vox@,
                    vt,
                    face as int,
                    aa,
                    bb,
                    cc,
                ) implies exists|k: int|
                0 <= k < r@.len() && (#[trigger] r@[k]).covers(aa, bb, cc) by {
                if aa < a {
                    let k = choose|k: int|
                        0 <= k < pre.len() && (#[trigger] pre[k]).covers(aa, bb, cc);
                    assert(r@[k].covers(aa, bb, cc));
                } else {
                    let k = choose|k: int| 0 <= k < lq.len() && (#[trigger] lq[k]).covers(aa, bb, cc);
                    assert(r@[pre.len() + k].covers(aa, bb, cc));
                }
            }
            if spec_full_grid(vox@, vgw) {
                if a as int == spec_boundary_layer(face as int) {
                    assert forall|b2: int, c2: int|
                        0 <= b2 < CHUNK_S1 && 0 <= c2 < CHUNK_S1 implies #[trigger] spec_cell_good(
                        vox@,
                        vt,
                        face as int,
                        a as int,
                        b2,
                        c2,
                        vgw,
                    ) by {
                        lemma_full_grid_exposure(vox@, vt, vgw, face as int, a as int, b2, c2);
                    }
                    assert(spec_uniform_layer(vox@, vt, face as int, a as int, vgw));
                    assert(lq == seq![spec_full_layer_quad(a as int, vgw)]);
                    assert(pre =~= Seq::<Quad>::empty());
                    assert(r@ =~= seq![spec_full_layer_quad(spec_boundary_layer(face as int), vgw)]);
                } else {
                    if lq.len() > 0 {
                        assert(lq[0].covers(a as int, lq[0].row as int, lq[0].col as int));
                        assert(spec_cell_good(
                            vox@,
                            vt,
                            face as int,
                            a as int,
                            lq[0].row as int,
                            lq[0].col as int,
                            lq[0].v_type,
                        ));
                        lemma_full_grid_exposure(
                            vox@,
                            vt,
                            vgw,
                            face as int,
                            a as int,
                            lq[0].row as int,
                            lq[0].col as int,
                        );
                        assert(false);
                    }
                    assert(r@ =~= pre);
                }
            }
        }
        a = a + 1;
    }
    proof {
        assert forall|v: u16| spec_full_grid(vox@, v) implies r@ == seq![
            spec_full_layer_quad(spec_boundary_layer(face as int), v),
        ] by {
            assert(vox@[crate::chunk::spec_pad_linearize(0, 0, 0)] == v);
            assert(v == vgw);
        }
    }
    r
}

/// Greedily meshes the whole padded grid: one quad list per face
/// direction, in face order.
pub fn mesh(vox: &Vec<u16>, transparents: &Vec<u16>) -> (r: Vec<Vec<Quad>>)
    requires
        vox@.len() == CHUNKP_S3,
    ensures
        r@.len() == 6,
        forall|f: int|
            0 <= f < 6 ==> spec_face_mesh_ok(
                vox@,
                transparents@.to_set(),
                f,
                (#[trigger] r@[f])@,
            ),
        forall|v: u16|
            #[trigger] spec_full_grid(vox@, v) ==> forall|f: int|
                0 <= f < 6 ==> (#[trigger] r@[f])@ == seq![
                    spec_full_layer_quad(spec_boundary_layer(f), v),
                ],
{
    let mut r: Vec<Vec<Quad>> = Vec::new();
    let mut f: usize = 0;
    while f < 6
        invariant
            vox@.len() == CHUNKP_S3,
            f <= 6,
            r@.len() == f,
            forall|ff: int|
                0 <= ff < f ==> spec_face_mesh_ok(
                    vox@,
                    transparents@.to_set(),
                    ff,
                    (#[trigger] r@[ff])@,
                ),
            forall|v: u16|
                #[trigger] spec_full_grid(vox@, v) ==> forall|ff: int|
                    0 <= ff < f ==> (#[trigger] r@[ff])@ == seq![
                        spec_full_layer_quad(spec_boundary_layer(ff), v),
                    ],
        decreases 6 - f,
    {
        let q = mesh_face(vox, transparents, f);
        r.push(q);
        f = f + 1;
    }
    r
}

/// A grid holding one voxel type `v` at every interior cell, air in the
/// whole padding shell.
pub open spec fn spec_full_grid(vox: Seq<u16>, v: u16) -> bool {
    &&& vox.len() == CHUNKP_S3
    &&& v != 0
    &&& forall|x: int, y: int, z: int|
        0 <= x < CHUNK_S1 && 0 <= y < CHUNK_S1 && 0 <= z < CHUNK_S1 ==> vox[#[trigger] spec_pad_linearize(
            x,
            y,
            z,
        )] == v
    &&& forall|px: int, py: int, pz: int|
        0 <= px < CHUNKP_S1 && 0 <= py < CHUNKP_S1 && 0 <= pz < CHUNKP_S1 && (px == 0 || px
            == CHUNKP_S1 - 1 || py == 0 || py == CHUNKP_S1 - 1 || pz == 0 || pz == CHUNKP_S1 - 1)
            ==> vox[#[trigger] spec_linearize(px, py, pz)] == 0
}

/// The layer a face direction's exposed cells all sit in, for a full
/// grid: the high boundary for the positive directions, the low one for
/// the negative directions.
pub open spec fn spec_boundary_layer(face: int) -> int {
    if face == 0 || face == 2 || face == 4 {
        CHUNK_S1 - 1
    } else {
        0
    }
}

/// On a grid uniformly filled with one voxel type, a cell exposes a
/// face exactly when it sits in the direction's outer boundary layer —
/// whatever the transparent set — and every cell holds that type.
pub proof fn lemma_full_grid_exposure(
    vox: Seq<u16>,
    trans: Set<u16>,
    v: u16,
    face: int,
    a: int,
    b: int,
    c: int,
)
    requires
        spec_full_grid(vox, v),
        0 <= face < 6,
        0 <= a < CHUNK_S1,
        0 <= b < CHUNK_S1,
        0 <= c < CHUNK_S1,
    ensures
        spec_frame_exposed(vox, trans, face, a, b, c) <==> a == spec_boundary_layer(face),
        spec_frame_type(vox, face, a, b, c) == v,
{
    let (x, y, z) = spec_frame_cell(face, a, b, c);
    assert(vox[spec_pad_linearize(x, y, z)] == v);
    if face == 0 {
        if a == CHUNK_S1 - 1 {
            assert(vox[spec_linearize(x + 1, y + 2, z + 1)] == 0);
        } else {
            assert(vox[spec_pad_linearize(x, y + 1, z)] == v);
        }
    } else if face == 1 {
        if a == 0 {
            assert(vox[spec_linearize(x + 1, 0, z + 1)] == 0);
        } else {
            assert(vox[spec_pad_linearize(x, y - 1, z)] == v);
        }
    } else if face == 2 {
        if a == CHUNK_S1 - 1 {
            assert(vox[spec_linearize(x + 2, y + 1, z + 1)] == 0);
        } else {
            assert(vox[spec_pad_linearize(x + 1, y, z)] == v);
        }
    } else if face == 3 {
        if a == 0 {
            assert(vox[spec_linearize(0, y + 1, z + 1)] == 0);
        } else {
            assert(vox[spec_pad_linearize(x - 1, y, z)] == v);
        }
    } else if face == 4 {
        if a == CHUNK_S1 - 1 {
            assert(vox[spec_linearize(x + 1, y + 1, z + 2)] == 0);
        } else {
            assert(vox[spec_pad_linearize(x, y, z + 1)] == v);
        }
    } else {
        if a == 0 {
            assert(vox[spec_linearize(x + 1, y + 1, 0)] == 0);
        } else {
            assert(vox[spec_pad_linearize(x, y, z - 1)] == v);
        }
    }
}

/// Some quad of the list covers the frame cell.
pub open spec fn spec_cell_covered(quads: Seq<Quad>, a: int, b: int, c: int) -> bool {
    exists|k: int| 0 <= k < quads.len() && (#[trigger] quads[k]).covers(a, b, c)
}

/// Greedy-mesh coverage for a uniformly filled chunk: in every face
/// direction the quads tile exactly the one outer boundary layer — the
/// whole exposed surface is covered, without overlap, and no interior
/// face is emitted.
pub proof fn lemma_full_grid_mesh(
    vox: Seq<u16>,
    trans: Set<u16>,
    v: u16,
    face: int,
    quads: Seq<Quad>,
)
    requires
        spec_full_grid(vox, v),
        0 <= face < 6,
        spec_face_mesh_ok(vox, trans, face, quads),
    ensures
        forall|k: int, aa: int, bb: int, cc: int|
            0 <= k < quads.len() && #[trigger] quads[k].covers(aa, bb, cc) ==> aa
                == spec_boundary_layer(face) && quads[k].v_type == v,
        forall|b: int, c: int|
            0 <= b < CHUNK_S1 && 0 <= c < CHUNK_S1 ==> #[trigger] spec_cell_covered(
                quads,
                spec_boundary_layer(face),
                b,
                c,
            ),
{
    assert forall|k: int, aa: int, bb: int, cc: int|
        0 <= k < quads.len() && #[trigger] quads[k].covers(aa, bb, cc) implies aa
        == spec_boundary_layer(face) && quads[k].v_type == v by {
        assert(quads[k].wf());
        assert(spec_frame_exposed(vox, trans, face, aa, bb, cc));
        lemma_full_grid_exposure(vox, trans, v, face, aa, bb, cc);
    }
    assert forall|b: int, c: int|
        0 <= b < CHUNK_S1 && 0 <= c < CHUNK_S1 implies #[trigger] spec_cell_covered(
        quads,
        spec_boundary_layer(face),
        b,
        c,
    ) by {
        lemma_full_grid_exposure(vox, trans, v, face, spec_boundary_layer(face), b, c);
        assert(spec_frame_exposed(vox, trans, face, spec_boundary_layer(face), b, c));
    }
}

} // verus!
