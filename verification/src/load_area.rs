//! Load prioritization: which columns should be resident around an
//! observer, and in what order generation and unload work happens.
//! Priority is Chebyshev distance from the observer's column; pops
//! return the closest pending column first.

use vstd::prelude::*;

use crate::pos::ColPos;

verus! {

broadcast use vstd::seq_lib::group_seq_properties;

/// An observer's render distance, in columns.
#[derive(Clone, Copy, Debug, PartialEq, Eq, Structural)]
pub struct RenderDistance {
    pub dist: u32,
}

/// Chebyshev distance between two columns.
pub open spec fn spec_col_dist(a: ColPos, b: ColPos) -> int {
    vstd::math::max(
        vstd::math::abs(a.x as int - b.x as int) as int,
        vstd::math::abs(a.z as int - b.z as int) as int,
    )
}

/// Chebyshev distance between two columns, computed without overflow.
pub fn col_dist(a: ColPos, b: ColPos) -> (r: u64)
    ensures
        r == spec_col_dist(a, b),
{
    let dx = a.x as i64 - b.x as i64;
    let dz = a.z as i64 - b.z as i64;
    let dx = if dx < 0 { -dx } else { dx };
    let dz = if dz < 0 { -dz } else { dz };
    let m = if dx >= dz { dx } else { dz };
    m as u64
}

/// The axis values within `dist` of `center`, in order.
pub fn range_around(center: i32, dist: i32) -> (r: Vec<i32>)
    requires
        0 <= dist,
        i32::MIN <= center - dist,
        center + dist <= i32::MAX,
    ensures
        r@.len() == 2 * dist + 1,
        forall|i: int| 0 <= i < r@.len() ==> r@[i] == center - dist + i,
{
    let mut r: Vec<i32> = Vec::new();
    let count = (dist as i64 * 2 + 1) as usize;
    let mut k: usize = 0;
    while k < count
        invariant
            0 <= dist,
            i32::MIN <= center - dist,
            center + dist <= i32::MAX,
            count == 2 * dist + 1,
            k <= count,
            r@.len() == k,
            forall|i: int| 0 <= i < r@.len() ==> r@[i] == center - dist + i,
        decreases count - k,
    {
        let v = (center as i64 - dist as i64 + k as i64) as i32;
        r.push(v);
        k = k + 1;
    }
    r
}

/// The set of columns one observer keeps resident: everything within
/// its render distance of its own column, in its realm.
#[derive(Clone, Copy, Debug)]
pub struct PlayerArea {
    pub center: ColPos,
    pub render_distance: u32,
}

impl PlayerArea {
    /// Whether a column is inside the area.
    pub open spec fn spec_contains(&self, col: ColPos) -> bool {
        col.realm == self.center.realm && spec_col_dist(self.center, col)
            <= self.render_distance
    }

    pub fn new(center: ColPos, render_distance: u32) -> (r: Self)
        ensures
            r.center == center,
            r.render_distance == render_distance,
    {
        PlayerArea { center, render_distance }
    }

    /// Whether a column is inside the area.
    pub fn contains(&self, col: ColPos) -> (r: bool)
        ensures
            r == self.spec_contains(col),
    {
        if col.realm == self.center.realm {
            col_dist(self.center, col) <= self.render_distance as u64
        } else {
            false
        }
    }
}

/// The pending generation and unload work, each entry a column with its
/// distance priority.
pub struct LoadOrders {
    pub to_generate: Vec<(ColPos, u64)>,
    pub to_unload: Vec<ColPos>,
}

impl LoadOrders {
    /// No pending work.
    pub fn new() -> (r: Self)
        ensures
            r.to_generate@.len() == 0,
            r.to_unload@.len() == 0,
    {
        LoadOrders { to_generate: Vec::new(), to_unload: Vec::new() }
    }

    /// Files a column for generation under the given priority.
    pub fn queue_generate(&mut self, col: ColPos, priority: u64)
        ensures
            final (self).to_generate@ == old(self).to_generate@.push((col, priority)),
            final (self).to_unload == old(self).to_unload,
    {
        self.to_generate.push((col, priority));
    }

    /// Files a column for unloading.
    pub fn queue_unload(&mut self, col: ColPos)
        ensures
            final (self).to_unload@ == old(self).to_unload@.push(col),
            final (self).to_generate == old(self).to_generate,
    {
        self.to_unload.push(col);
    }

    /// Takes out a pending generation order of minimal distance; `None`
    /// when nothing is pending.
    pub fn pop_closest(&mut self) -> (r: Option<(ColPos, u64)>)
        ensures
            r is None <==> old(self).to_generate@.len() == 0,
            r is None ==> *final (self) == *old(self),
            r matches Some(p) ==> {
                &&& exists|i: int|
                    0 <= i < old(self).to_generate@.len() && old(self).to_generate@[i] == p
                        && final (self).to_generate@ == old(self).to_generate@.remove(i)
                &&& forall|i: int|
                    0 <= i < old(self).to_generate@.len() ==> (#[trigger] old(
                        self,
                    ).to_generate@[i]).1 >= p.1
                &&& final (self).to_unload == old(self).to_unload
            },
    {
        let n = self.to_generate.len();
        if n == 0 {
            return None;
        }
        let mut best: usize = 0;
        let mut i: usize = 1;
        while i < n
            invariant
                n == self.to_generate@.len(),
                best < i <= n || (best == 0 && i <= n),
                best < n,
                forall|j: int|
                    0 <= j < i ==> (#[trigger] self.to_generate@[j]).1
                        >= self.to_generate@[best as int].1,
            decreases n - i,
        {
            if self.to_generate[i].1 < self.to_generate[best].1 {
                best = i;
            }
            i = i + 1;
        }
        let p = self.to_generate.remove(best);
        Some(p)
    }

    /// Takes out a pending unload order; `None` when nothing is pending.
    pub fn pop_unload(&mut self) -> (r: Option<ColPos>)
        ensures
            r is None <==> old(self).to_unload@.len() == 0,
            r is None ==> *final (self) == *old(self),
            r matches Some(col) ==> final (self).to_unload@ == old(self).to_unload@.drop_last()
                && col == old(self).to_unload@.last() && final (self).to_generate == old(
                self,
            ).to_generate,
    {
        if self.to_unload.len() == 0 {
            return None;
        }
        self.to_unload.pop()
    }

    /// Recomputes the desired set after the observer moves or the
    /// render distance changes: every column newly in the area is filed
    /// for generation under its distance, and every column of the old
    /// area that fell out is filed for unloading. Existing orders stay.
    pub fn update_area(&mut self, old_area: PlayerArea, new_area: PlayerArea)
        requires
            i32::MIN <= old_area.center.x as int - old_area.render_distance,
            old_area.center.x as int + old_area.render_distance <= i32::MAX,
            i32::MIN <= old_area.center.z as int - old_area.render_distance,
            old_area.center.z as int + old_area.render_distance <= i32::MAX,
            i32::MIN <= new_area.center.x as int - new_area.render_distance,
            new_area.center.x as int + new_area.render_distance <= i32::MAX,
            i32::MIN <= new_area.center.z as int - new_area.render_distance,
            new_area.center.z as int + new_area.render_distance <= i32::MAX,
        ensures
            old(self).to_generate@.is_prefix_of(final (self).to_generate@),
            old(self).to_unload@.is_prefix_of(final (self).to_unload@),
            // every newly desired column is filed, under its distance
            forall|col: ColPos|
                new_area.spec_contains(col) && !old_area.spec_contains(col) ==> final (self).to_generate@.contains((col, spec_col_dist(new_area.center, col) as u64)),
            // every column that fell out of the area is filed for unload
            forall|col: ColPos|
                old_area.spec_contains(col) && !new_area.spec_contains(col) ==> final (self).to_unload@.contains(col),
            // nothing else was added
            forall|i: int|
                old(self).to_generate@.len() <= i < final (self).to_generate@.len() ==> {
                    let p = #[trigger] final (self).to_generate@[i];
                    new_area.spec_contains(p.0) && !old_area.spec_contains(p.0) && p.1
                        == spec_col_dist(new_area.center, p.0)
                },
            forall|i: int|
                old(self).to_unload@.len() <= i < final (self).to_unload@.len() ==> {
                    let col = #[trigger] final (self).to_unload@[i];
                    old_area.spec_contains(col) && !new_area.spec_contains(col)
                },
    {
        let nd = new_area.render_distance as i32;
        let xs = range_around(new_area.center.x, nd);
        let zs = range_around(new_area.center.z, nd);
        let mut xi: usize = 0;
        while xi < xs.len()
            invariant
                xs@.len() == 2 * nd + 1,
                zs@.len() == 2 * nd + 1,
                nd == new_area.render_distance,
                forall|i: int| 0 <= i < xs@.len() ==> xs@[i] == new_area.center.x - nd + i,
                forall|i: int| 0 <= i < zs@.len() ==> zs@[i] == new_area.center.z - nd + i,
                xi <= xs@.len(),
                old(self).to_generate@.is_prefix_of(self.to_generate@),
                self.to_unload == old(self).to_unload,
                forall|col: ColPos|
                    col.realm == new_area.center.realm && new_area.center.x - nd <= col.x
                        < new_area.center.x - nd + xi && vstd::math::abs(
                        new_area.center.z as int - col.z as int,
                    ) <= nd && !old_area.spec_contains(col) ==> self.to_generate@.contains(
                        (col, spec_col_dist(new_area.center, col) as u64),
                    ),
                forall|i: int|
                    old(self).to_generate@.len() <= i < self.to_generate@.len() ==> {
                        let p = #[trigger] self.to_generate@[i];
                        new_area.spec_contains(p.0) && !old_area.spec_contains(p.0) && p.1
                            == spec_col_dist(new_area.center, p.0)
                    },
            decreases xs@.len() - xi,
        {
            let x = xs[xi];
            let mut zi: usize = 0;
            while zi < zs.len()
                invariant
                    xs@.len() == 2 * nd + 1,
                    zs@.len() == 2 * nd + 1,
                    nd == new_area.render_distance,
                    forall|i: int| 0 <= i < xs@.len() ==> xs@[i] == new_area.center.x - nd + i,
                    forall|i: int| 0 <= i < zs@.len() ==> zs@[i] == new_area.center.z - nd + i,
                    xi < xs@.len(),
                    x == xs@[xi as int],
                    zi <= zs@.len(),
                    old(self).to_generate@.is_prefix_of(self.to_generate@),
                    self.to_unload == old(self).to_unload,
                    forall|col: ColPos|
                        col.realm == new_area.center.realm && new_area.center.x - nd <= col.x
                            < new_area.center.x - nd + xi && vstd::math::abs(
                            new_area.center.z as int - col.z as int,
                        ) <= nd && !old_area.spec_contains(col) ==> self.to_generate@.contains(
                            (col, spec_col_dist(new_area.center, col) as u64),
                        ),
                    forall|col: ColPos|
                        col.realm == new_area.center.realm && col.x == x
                            && new_area.center.z - nd <= col.z < new_area.center.z - nd + zi
                            && !old_area.spec_contains(col) ==> self.to_generate@.contains(
                            (col, spec_col_dist(new_area.center, col) as u64),
                        ),
                    forall|i: int|
                        old(self).to_generate@.len() <= i < self.to_generate@.len() ==> {
                            let p = #[trigger] self.to_generate@[i];
                            new_area.spec_contains(p.0) && !old_area.spec_contains(p.0) && p.1
                                == spec_col_dist(new_area.center, p.0)
                        },
                decreases zs@.len() - zi,
            {
                let z = zs[zi];
                let col = ColPos { x, z, realm: new_area.center.realm };
                if !old_area.contains(col) {
                    let d = col_dist(new_area.center, col);
                    self.to_generate.push((col, d));
                    proof {
                        assert(new_area.spec_contains(col));
                        assert(self.to_generate@.contains(
                            (col, spec_col_dist(new_area.center, col) as u64),
                        ));
                    }
                }
                zi = zi + 1;
            }
            xi = xi + 1;
        }
        let od = old_area.render_distance as i32;
        let oxs = range_around(old_area.center.x, od);
        let ozs = range_around(old_area.center.z, od);
        let ghost gen_done = self.to_generate@;
        let mut xi: usize = 0;
        while xi < oxs.len()
            invariant
                oxs@.len() == 2 * od + 1,
                ozs@.len() == 2 * od + 1,
                od == old_area.render_distance,
                forall|i: int| 0 <= i < oxs@.len() ==> oxs@[i] == old_area.center.x - od + i,
                forall|i: int| 0 <= i < ozs@.len() ==> ozs@[i] == old_area.center.z - od + i,
                xi <= oxs@.len(),
                self.to_generate@ == gen_done,
                old(self).to_unload@.is_prefix_of(self.to_unload@),
                forall|col: ColPos|
                    col.realm == old_area.center.realm && old_area.center.x - od <= col.x
                        < old_area.center.x - od + xi && vstd::math::abs(
                        old_area.center.z as int - col.z as int,
                    ) <= od && !new_area.spec_contains(col) ==> self.to_unload@.contains(col),
                forall|i: int|
                    old(self).to_unload@.len() <= i < self.to_unload@.len() ==> {
                        let col = #[trigger] self.to_unload@[i];
                        old_area.spec_contains(col) && !new_area.spec_contains(col)
                    },
            decreases oxs@.len() - xi,
        {
            let x = oxs[xi];
            let mut zi: usize = 0;
            while zi < ozs.len()
                invariant
                    oxs@.len() == 2 * od + 1,
                    ozs@.len() == 2 * od + 1,
                    od == old_area.render_distance,
                    forall|i: int| 0 <= i < oxs@.len() ==> oxs@[i] == old_area.center.x - od + i,
                    forall|i: int| 0 <= i < ozs@.len() ==> ozs@[i] == old_area.center.z - od + i,
                    xi < oxs@.len(),
                    x == oxs@[xi as int],
                    zi <= ozs@.len(),
                    self.to_generate@ == gen_done,
                    old(self).to_unload@.is_prefix_of(self.to_unload@),
                    forall|col: ColPos|
                        col.realm == old_area.center.realm && old_area.center.x - od <= col.x
                            < old_area.center.x - od + xi && vstd::math::abs(
                            old_area.center.z as int - col.z as int,
                        ) <= od && !new_area.spec_contains(col) ==> self.to_unload@.contains(col),
                    forall|col: ColPos|
                        col.realm == old_area.center.realm && col.x == x
                            && old_area.center.z - od <= col.z < old_area.center.z - od + zi
                            && !new_area.spec_contains(col) ==> self.to_unload@.contains(col),
                    forall|i: int|
                        old(self).to_unload@.len() <= i < self.to_unload@.len() ==> {
                            let col = #[trigger] self.to_unload@[i];
                            old_area.spec_contains(col) && !new_area.spec_contains(col)
                        },
                decreases ozs@.len() - zi,
            {
                let z = ozs[zi];
                let col = ColPos { x, z, realm: old_area.center.realm };
                if !new_area.contains(col) {
                    self.to_unload.push(col);
                    proof {
                        assert(old_area.spec_contains(col));
                        assert(self.to_unload@.contains(col));
                    }
                }
                zi = zi + 1;
            }
            xi = xi + 1;
        }
        proof {
            assert forall|col: ColPos|
                new_area.spec_contains(col) && !old_area.spec_contains(col) implies final (self).to_generate@.contains((col, spec_col_dist(new_area.center, col) as u64)) by {}
            assert forall|col: ColPos|
                old_area.spec_contains(col) && !new_area.spec_contains(col) implies final (self).to_unload@.contains(col) by {}
        }
    }
}

} // verus!
