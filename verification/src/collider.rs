//! Collider lifecycle: gathers the solid-cell coordinates of each level,
//! turns them into an occupancy grid for meshing, and converts each merged
//! rectangle into the world-space parameters of one static collider.
//!
//! A rebuild always replaces a level's collider set as a whole: the caller
//! spawns one collider per rectangle of the fresh mesh and despawns every
//! previously spawned one, trading a little churn for simplicity.

use crate::grid::GridCoord;
use crate::mesh::{is_mesh_of, MeshRect, SolidGrid};
use vstd::prelude::*;

verus! {

/// Per-level record of solid-cell coordinates, keyed by the stable handle
/// of the level entity the cells belong to. Keeping the walls split by
/// level both bounds each mesh and lets the spawned colliders be parented
/// to their level.
pub struct LevelColliders {
    levels: Vec<u64>,
    xs: Vec<i32>,
    ys: Vec<i32>,
}

impl LevelColliders {
    pub closed spec fn wf(self) -> bool {
        self.levels@.len() == self.xs@.len() && self.levels@.len() == self.ys@.len()
    }

    /// Whether a solid cell at `(x, y)` was recorded for the level.
    pub closed spec fn has_coord(self, level: u64, x: int, y: int) -> bool {
        exists|k: int|
            0 <= k < self.levels@.len() && (#[trigger] self.levels@[k]) == level && self.xs@[k] == x
                && self.ys@[k] == y
    }

    pub fn new() -> (lc: LevelColliders)
        ensures
            lc.wf(),
            forall|level: u64, x: int, y: int| !lc.has_coord(level, x, y),
    {
        LevelColliders { levels: Vec::new(), xs: Vec::new(), ys: Vec::new() }
    }

    /// Records one solid cell of a level.
    pub fn add_coord(&mut self, level: u64, coord: GridCoord)
        requires
            old(self).wf(),
        ensures
            final(self).wf(),
            forall|l: u64, x: int, y: int|
                final(self).has_coord(l, x, y) == (old(self).has_coord(l, x, y) || (l == level && x
                    == coord.x && y == coord.y)),
    {
        let ghost n = self.levels@.len() as int;
        self.levels.push(level);
        self.xs.push(coord.x);
        self.ys.push(coord.y);
        proof {
            assert forall|l: u64, x: int, y: int|
                self.has_coord(l, x, y) == (old(self).has_coord(l, x, y) || (l == level && x
                    == coord.x && y == coord.y)) by {
                if old(self).has_coord(l, x, y) {
                    let k = choose|k: int|
                        0 <= k < old(self).levels@.len() && (#[trigger] old(self).levels@[k]) == l
                            && old(self).xs@[k] == x && old(self).ys@[k] == y;
                    assert(self.levels@[k] == l && self.xs@[k] == x && self.ys@[k] == y);
                }
                if l == level && x == coord.x && y == coord.y {
                    assert(self.levels@[n] == l && self.xs@[n] == x && self.ys@[n] == y);
                }
                if self.has_coord(l, x, y) {
                    let k = choose|k: int|
                        0 <= k < self.levels@.len() && (#[trigger] self.levels@[k]) == l
                            && self.xs@[k] == x && self.ys@[k] == y;
                    if k < n {
                        assert(old(self).levels@[k] == l && old(self).xs@[k] == x && old(
                            self,
                        ).ys@[k] == y);
                    }
                }
            }
        }
    }

    /// The recorded occupancy of one level as a grid of the given
    /// dimensions. Coordinates outside the grid are ignored, exactly as the
    /// row scan of the meshing pass would never visit them.
    pub fn occupancy_grid(&self, level: u64, width: usize, height: usize) -> (g: SolidGrid)
        requires
            self.wf(),
            width * height <= usize::MAX,
            width <= i32::MAX,
            height <= i32::MAX,
        ensures
            g.wf(),
            g.spec_width() == width,
            g.spec_height() == height,
            forall|x: int, y: int|
                g.solid_at(x, y) == (0 <= x < width && 0 <= y < height && self.has_coord(
                    level,
                    x,
                    y,
                )),
    {
        let mut g = SolidGrid::new(width, height);
        let mut k: usize = 0;
        while k < self.levels.len()
            invariant
                self.wf(),
                k <= self.levels@.len(),
                g.wf(),
                g.spec_width() == width,
                g.spec_height() == height,
                width <= i32::MAX,
                height <= i32::MAX,
                forall|x: int, y: int|
                    g.solid_at(x, y) == (0 <= x < width && 0 <= y < height && exists|k2: int|
                        0 <= k2 < k && (#[trigger] self.levels@[k2]) == level && self.xs@[k2] == x
                            && self.ys@[k2] == y),
            decreases self.levels@.len() - k,
        {
            let ghost prev = g;
            if self.levels[k] == level {
                let x = self.xs[k];
                let y = self.ys[k];
                if x >= 0 && y >= 0 && (x as usize) < width && (y as usize) < height {
                    g.set_solid(x as usize, y as usize);
                }
            }
            proof {
                assert forall|x: int, y: int|
                    g.solid_at(x, y) == (0 <= x < width && 0 <= y < height && exists|k2: int|
                        0 <= k2 < k + 1 && (#[trigger] self.levels@[k2]) == level && self.xs@[k2]
                            == x && self.ys@[k2] == y) by {
                    if g.solid_at(x, y) && !prev.solid_at(x, y) {
                        assert(self.levels@[k as int] == level && self.xs@[k as int] == x
                            && self.ys@[k as int] == y);
                    }
                    if !g.solid_at(x, y) && 0 <= x < width && 0 <= y < height {
                        if exists|k2: int|
                            0 <= k2 < k + 1 && (#[trigger] self.levels@[k2]) == level
                                && self.xs@[k2] == x && self.ys@[k2] == y {
                            let k2 = choose|k2: int|
                                0 <= k2 < k + 1 && (#[trigger] self.levels@[k2]) == level
                                    && self.xs@[k2] == x && self.ys@[k2] == y;
                            assert(k2 == k);
                            assert(false);
                        }
                    }
                }
            }
            k = k + 1;
        }
        g
    }

    /// Meshes the recorded occupancy of one level, as a `width * height`
    /// grid, into the rectangle set to spawn. The result is a mesh of the
    /// recorded occupancy: it covers exactly the recorded in-range cells,
    /// with pairwise disjoint, maximally merged rectangles.
    pub fn rectangles(&self, level: u64, width: usize, height: usize) -> (rects: Vec<MeshRect>)
        requires
            self.wf(),
            width * height <= usize::MAX,
            width <= i32::MAX,
            height <= i32::MAX,
        ensures
            exists|g: SolidGrid|
                {
                    &&& #[trigger] is_mesh_of(rects@, g)
                    &&& g.spec_width() == width
                    &&& g.spec_height() == height
                    &&& forall|x: int, y: int|
                        g.solid_at(x, y) == (0 <= x < width && 0 <= y < height && self.has_coord(
                            level,
                            x,
                            y,
                        ))
                },
    {
        let g = self.occupancy_grid(level, width, height);
        let rects = g.rectangles();
        proof {
            assert(is_mesh_of(rects@, g));
        }
        rects
    }
}

/// The rectangle colliders currently spawned for one level. A recomputation
/// replaces the whole set rather than patching single rectangles: the
/// caller spawns the fresh list and despawns everything handed back, so a
/// dig-triggered hole is absent from the very next physics step.
pub struct SpawnedColliders {
    rects: Vec<MeshRect>,
}

impl SpawnedColliders {
    pub closed spec fn view(self) -> Seq<MeshRect> {
        self.rects@
    }

    /// No colliders spawned yet.
    pub fn new() -> (s: SpawnedColliders)
        ensures
            s.view() =~= Seq::<MeshRect>::empty(),
    {
        SpawnedColliders { rects: Vec::new() }
    }

    /// The spawned rectangles, one collider each.
    pub fn rectangles(&self) -> (r: &Vec<MeshRect>)
        ensures
            r@ == self.view(),
    {
        &self.rects
    }

    /// Swaps in a freshly meshed rectangle set and hands back the previous
    /// one for despawning — the whole set, diffed by identity.
    pub fn replace(&mut self, fresh: Vec<MeshRect>) -> (stale: Vec<MeshRect>)
        ensures
            final(self).view() == fresh@,
            stale@ == old(self).view(),
    {
        let mut stale = fresh;
        core::mem::swap(&mut self.rects, &mut stale);
        stale
    }
}

/// World-space placement of the static collider that one mesh rectangle
/// spawns, kept in doubled units so that it stays in integers: the collider
/// is centred at `(center_x2 / 2, center_y2 / 2)` relative to the level
/// origin and extends `extent_x2 / 2` and `extent_y2 / 2` on each side.
#[derive(Clone, Copy, PartialEq, Eq, Structural, Debug)]
pub struct ColliderParams {
    pub center_x2: i64,
    pub center_y2: i64,
    pub extent_x2: i64,
    pub extent_y2: i64,
}

/// Converts one merged rectangle into collider placement, for a cell edge
/// length of `grid_size` world units.
pub fn collider_params(rect: &MeshRect, grid_size: i64) -> (p: ColliderParams)
    requires
        0 < grid_size <= 0x4000_0000,
        rect.left <= rect.right < 0x4000_0000,
        rect.bottom <= rect.top < 0x4000_0000,
    ensures
        p.center_x2 == grid_size * (rect.left + rect.right + 1),
        p.center_y2 == grid_size * (rect.bottom + rect.top + 1),
        p.extent_x2 == grid_size * (rect.right - rect.left + 1),
        p.extent_y2 == grid_size * (rect.top - rect.bottom + 1),
{
    let sum_x: i64 = rect.left as i64 + rect.right as i64 + 1;
    let sum_y: i64 = rect.bottom as i64 + rect.top as i64 + 1;
    let size_x: i64 = rect.right as i64 - rect.left as i64 + 1;
    let size_y: i64 = rect.top as i64 - rect.bottom as i64 + 1;
    proof {
        lemma_mul_bound(grid_size as int, sum_x as int);
        lemma_mul_bound(grid_size as int, sum_y as int);
        lemma_mul_bound(grid_size as int, size_x as int);
        lemma_mul_bound(grid_size as int, size_y as int);
    }
    ColliderParams {
        center_x2: grid_size * sum_x,
        center_y2: grid_size * sum_y,
        extent_x2: grid_size * size_x,
        extent_y2: grid_size * size_y,
    }
}

/// Bound on the product of a cell size and a small cell count.
proof fn lemma_mul_bound(a: int, b: int)
    by (nonlinear_arith)
    requires
        0 < a <= 0x4000_0000,
        0 < b <= 0x8000_0000,
    ensures
        0 < a * b <= 0x2000_0000_0000_0000,
{
}

} // verus!
