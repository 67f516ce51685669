//! Per-level occupancy index: which grid cells are occupied, by what kind of
//! tile, and which destructible cells have been dug away.

use vstd::prelude::*;

verus! {

/// Integer cell address inside a level, in grid-cell units.
#[derive(Clone, Copy, PartialEq, Eq, Structural, Debug)]
pub struct GridCoord {
    pub x: i32,
    pub y: i32,
}

/// Tag of an occupied cell. Only the two solid kinds take part in rectangle
/// meshing; ladders and water are tracked as climb and submersion markers.
/// A cell code the level file uses but this library does not know maps to
/// `Unknown`, which is carried along but drives nothing.
#[derive(Clone, Copy, PartialEq, Eq, Structural, Debug)]
pub enum CellKind {
    SolidIndestructible,
    SolidDestructible,
    Ladder,
    Water,
    Unknown,
}

/// Cell code of destructible dirt in the level file's collision layer.
pub const DIRT_INT_CELL: i32 = 1;
/// Cell code of a climbable ladder.
pub const LADDER_INT_CELL: i32 = 2;
/// Cell code of indestructible stone.
pub const STONE_INT_CELL: i32 = 3;
/// Cell code of water.
pub const WATER_INT_CELL: i32 = 4;

/// Meaning of one raw cell code from the level file: `None` for an empty
/// cell (code 0), the matching kind for the known codes, and
/// `Some(Unknown)` for any other occupied code, which is kept but ignored.
pub open spec fn spec_kind_of_code(code: i32) -> Option<CellKind> {
    if code == 0 {
        None
    } else if code == DIRT_INT_CELL {
        Some(CellKind::SolidDestructible)
    } else if code == LADDER_INT_CELL {
        Some(CellKind::Ladder)
    } else if code == STONE_INT_CELL {
        Some(CellKind::SolidIndestructible)
    } else if code == WATER_INT_CELL {
        Some(CellKind::Water)
    } else {
        Some(CellKind::Unknown)
    }
}

impl CellKind {
    /// Maps a raw cell code from the level file to a cell kind.
    pub fn from_code(code: i32) -> (r: Option<CellKind>)
        ensures
            r == spec_kind_of_code(code),
    {
        if code == 0 {
            None
        } else if code == DIRT_INT_CELL {
            Some(CellKind::SolidDestructible)
        } else if code == LADDER_INT_CELL {
            Some(CellKind::Ladder)
        } else if code == STONE_INT_CELL {
            Some(CellKind::SolidIndestructible)
        } else if code == WATER_INT_CELL {
            Some(CellKind::Water)
        } else {
            Some(CellKind::Unknown)
        }
    }

    /// True of the kinds that take part in rectangle meshing.
    pub fn is_solid(self) -> (r: bool)
        ensures
            r == self.spec_is_solid(),
    {
        match self {
            CellKind::SolidIndestructible => true,
            CellKind::SolidDestructible => true,
            _ => false,
        }
    }

    pub open spec fn spec_is_solid(self) -> bool {
        self == CellKind::SolidIndestructible || self == CellKind::SolidDestructible
    }
}

/// Occupancy index of one level's collision layer: per cell the tile kind
/// read from the level file, plus the runtime-only set of destructible
/// cells that digging has removed. The destroyed set only grows; it is
/// cleared by rebuilding the whole grid on a level respawn.
pub struct LevelGrid {
    width: usize,
    height: usize,
    cells: Vec<Option<CellKind>>,
    destroyed: Vec<bool>,
}

impl LevelGrid {
    /// Representation: two `width * height` row-major tables, with
    /// dimensions small enough for cell addresses in `i32`.
    pub closed spec fn wf(self) -> bool {
        &&& self.cells@.len() == self.width * self.height
        &&& self.destroyed@.len() == self.width * self.height
        &&& self.width * self.height <= usize::MAX
        &&& self.width <= i32::MAX
        &&& self.height <= i32::MAX
    }

    /// The tile kind of cell `(x, y)` as the level file gave it; `None`
    /// outside the grid and for empty cells.
    #[verifier::opaque]
    pub closed spec fn kind_at(self, x: int, y: int) -> Option<CellKind> {
        if 0 <= x < self.width && 0 <= y < self.height {
            self.cells@[y * (self.width as int) + x]
        } else {
            None
        }
    }

    /// Whether cell `(x, y)` has been dug away.
    #[verifier::opaque]
    pub closed spec fn destroyed_at(self, x: int, y: int) -> bool {
        0 <= x < self.width && 0 <= y < self.height && self.destroyed@[y * (self.width as int) + x]
    }

    /// A cell takes part in collision meshing when it is solid and has not
    /// been destroyed.
    pub open spec fn solid_at(self, x: int, y: int) -> bool {
        match self.kind_at(x, y) {
            Some(k) => k.spec_is_solid() && !self.destroyed_at(x, y),
            None => false,
        }
    }

    pub open spec fn water_at(self, x: int, y: int) -> bool {
        self.kind_at(x, y) == Some(CellKind::Water)
    }

    pub open spec fn ladder_at(self, x: int, y: int) -> bool {
        self.kind_at(x, y) == Some(CellKind::Ladder)
    }

    pub closed spec fn spec_width(self) -> int {
        self.width as int
    }

    pub closed spec fn spec_height(self) -> int {
        self.height as int
    }

    pub fn width(&self) -> (w: usize)
        ensures
            w == self.spec_width(),
    {
        self.width
    }

    pub fn height(&self) -> (h: usize)
        ensures
            h == self.spec_height(),
    {
        self.height
    }

    /// Builds the index from the level file's raw cell codes for the
    /// collision layer, row-major. Unknown codes are kept as `Unknown`
    /// cells rather than rejected; nothing is destroyed yet.
    pub fn from_codes(width: usize, height: usize, codes: &Vec<i32>) -> (g: LevelGrid)
        requires
            codes@.len() == width * height,
            width * height <= usize::MAX,
            width <= i32::MAX,
            height <= i32::MAX,
        ensures
            g.wf(),
            g.spec_width() == width,
            g.spec_height() == height,
            forall|x: int, y: int|
                0 <= x < width && 0 <= y < height ==> g.kind_at(x, y) == spec_kind_of_code(
                    codes@[y * (width as int) + x],
                ),
            forall|x: int, y: int| !g.destroyed_at(x, y),
    {
        let n = width * height;
        let mut cells: Vec<Option<CellKind>> = Vec::new();
        let mut destroyed: Vec<bool> = Vec::new();
        let mut i: usize = 0;
        while i < n
            invariant
                i <= n,
                n == width * height,
                codes@.len() == n,
                cells@.len() == i,
                destroyed@.len() == i,
                forall|k: int| 0 <= k < i ==> cells@[k] == spec_kind_of_code(codes@[k]),
                forall|k: int| 0 <= k < i ==> !destroyed@[k],
            decreases n - i,
        {
            cells.push(CellKind::from_code(codes[i]));
            destroyed.push(false);
            i = i + 1;
        }
        let g = LevelGrid { width, height, cells, destroyed };
        proof {
            reveal(LevelGrid::kind_at);
            reveal(LevelGrid::destroyed_at);
            assert forall|x: int, y: int|
                0 <= x < width && 0 <= y < height implies g.kind_at(x, y) == spec_kind_of_code(
                codes@[y * (width as int) + x],
            ) by {
                lemma_cell_index(x, y, width as int, height as int);
            }
            assert forall|x: int, y: int| !g.destroyed_at(x, y) by {
                if 0 <= x < width && 0 <= y < height {
                    lemma_cell_index(x, y, width as int, height as int);
                }
            }
        }
        g
    }

    /// Reads the tile kind of a cell; out-of-range reads as empty.
    pub fn kind_of_cell(&self, c: GridCoord) -> (r: Option<CellKind>)
        requires
            self.wf(),
        ensures
            r == self.kind_at(c.x as int, c.y as int),
    {
        proof {
            reveal(LevelGrid::kind_at);
        }
        if c.x >= 0 && c.y >= 0 && (c.x as usize) < self.width && (c.y as usize) < self.height {
            let x = c.x as usize;
            let y = c.y as usize;
            proof {
                lemma_cell_index(x as int, y as int, self.width as int, self.height as int);
            }
            self.cells[y * self.width + x]
        } else {
            None
        }
    }

    /// Whether the cell is a solid, undestroyed collision cell.
    pub fn is_solid_cell(&self, c: GridCoord) -> (r: bool)
        requires
            self.wf(),
        ensures
            r == self.solid_at(c.x as int, c.y as int),
    {
        proof {
            reveal(LevelGrid::destroyed_at);
        }
        match self.kind_of_cell(c) {
            Some(k) => {
                if k.is_solid() {
                    let x = c.x as usize;
                    let y = c.y as usize;
                    proof {
                        reveal(LevelGrid::kind_at);
                        lemma_cell_index(x as int, y as int, self.width as int, self.height as int);
                    }
                    !self.destroyed[y * self.width + x]
                } else {
                    false
                }
            },
            None => false,
        }
    }

    /// Whether the cell is a water cell.
    pub fn is_water_cell(&self, c: GridCoord) -> (r: bool)
        requires
            self.wf(),
        ensures
            r == self.water_at(c.x as int, c.y as int),
    {
        match self.kind_of_cell(c) {
            Some(CellKind::Water) => true,
            _ => false,
        }
    }

    /// Whether the cell is a climbable ladder cell.
    pub fn is_ladder_cell(&self, c: GridCoord) -> (r: bool)
        requires
            self.wf(),
        ensures
            r == self.ladder_at(c.x as int, c.y as int),
    {
        match self.kind_of_cell(c) {
            Some(CellKind::Ladder) => true,
            _ => false,
        }
    }

    /// Digs one cell away. Succeeds exactly on a destructible cell that
    /// still stands; the destroyed set only grows, and the tile kinds are
    /// untouched, so a destroyed cell never regenerates.
    pub fn destroy_cell(&mut self, c: GridCoord) -> (dug: bool)
        requires
            old(self).wf(),
        ensures
            final(self).wf(),
            final(self).spec_width() == old(self).spec_width(),
            final(self).spec_height() == old(self).spec_height(),
            dug == (old(self).kind_at(c.x as int, c.y as int) == Some(CellKind::SolidDestructible)
                && !old(self).destroyed_at(c.x as int, c.y as int)),
            forall|i: int, j: int| final(self).kind_at(i, j) == old(self).kind_at(i, j),
            forall|i: int, j: int|
                final(self).destroyed_at(i, j) == (old(self).destroyed_at(i, j) || (dug && i == c.x
                    && j == c.y)),
    {
        proof {
            reveal(LevelGrid::kind_at);
            reveal(LevelGrid::destroyed_at);
        }
        let kind = self.kind_of_cell(c);
        let destructible = match kind {
            Some(CellKind::SolidDestructible) => true,
            _ => false,
        };
        if !destructible {
            return false;
        }
        let x = c.x as usize;
        let y = c.y as usize;
        proof {
            lemma_cell_index(x as int, y as int, self.width as int, self.height as int);
        }
        let idx = y * self.width + x;
        if self.destroyed[idx] {
            return false;
        }
        self.destroyed.set(idx, true);
        proof {
            assert forall|i: int, j: int|
                self.destroyed_at(i, j) == (old(self).destroyed_at(i, j) || (i == c.x && j
                    == c.y)) by {
                if 0 <= i < self.width && 0 <= j < self.height {
                    lemma_cell_index(i, j, self.width as int, self.height as int);
                    lemma_cell_index_injective(
                        i,
                        j,
                        x as int,
                        y as int,
                        self.width as int,
                        self.height as int,
                    );
                }
            }
        }
        true
    }
}

/// Largest world coordinate magnitude the cell-address arithmetic accepts.
pub const MAX_WORLD_COORD: i64 = 0x4000_0000_0000_0000;

/// Largest cell edge length the cell-address arithmetic accepts.
pub const MAX_GRID_SIZE: i64 = 0x4000_0000;

impl LevelGrid {
    /// Converts a level-local world position into the index of the grid
    /// column (or row) that contains it: the floor of `local / grid_size`.
    /// This is how a character position is mapped onto cells for the
    /// submersion test and for digging.
    pub fn cell_index_of(local: i64, grid_size: i64) -> (q: i64)
        requires
            0 < grid_size <= MAX_GRID_SIZE,
            -MAX_WORLD_COORD < local < MAX_WORLD_COORD,
        ensures
            q == local as int / grid_size as int,
            grid_size * q <= local < grid_size * (q + 1),
    {
        let q: i64 = if local >= 0 {
            let qm = (local as u64) / (grid_size as u64);
            proof {
                vstd::arithmetic::div_mod::lemma_div_nonincreasing(local as int, grid_size as int);
            }
            qm as i64
        } else {
            let na = (-local) as u64;
            let b = grid_size as u64;
            let qm = na / b;
            let rm = na % b;
            proof {
                vstd::arithmetic::div_mod::lemma_div_nonincreasing(na as int, b as int);
                vstd::arithmetic::div_mod::lemma_fundamental_div_mod(na as int, b as int);
                vstd::arithmetic::div_mod::lemma_mod_bound(na as int, b as int);
                if rm == 0 {
                    assert(local as int == (-(qm as int)) * (grid_size as int) + 0) by (
                    nonlinear_arith)
                        requires
                            na as int == (b as int) * (qm as int) + (rm as int),
                            rm == 0,
                            local as int == -(na as int),
                            b == grid_size,
                    ;
                    vstd::arithmetic::div_mod::lemma_fundamental_div_mod_converse_div(
                        local as int,
                        grid_size as int,
                        -(qm as int),
                        0,
                    );
                } else {
                    assert(local as int == (-(qm as int) - 1) * (grid_size as int) + ((b
                        - rm) as int)) by (nonlinear_arith)
                        requires
                            na as int == (b as int) * (qm as int) + (rm as int),
                            0 < rm < b,
                            local as int == -(na as int),
                            b == grid_size,
                    ;
                    vstd::arithmetic::div_mod::lemma_fundamental_div_mod_converse_div(
                        local as int,
                        grid_size as int,
                        -(qm as int) - 1,
                        (b - rm) as int,
                    );
                }
            }
            if rm == 0 {
                -(qm as i64)
            } else {
                -(qm as i64) - 1
            }
        };
        proof {
            vstd::arithmetic::div_mod::lemma_fundamental_div_mod(local as int, grid_size as int);
            assert(grid_size * q <= local < grid_size * (q + 1)) by (nonlinear_arith)
                requires
                    local as int == (grid_size as int) * (q as int) + (local as int % (
                    grid_size as int)),
                    0 <= local as int % (grid_size as int) < grid_size as int,
            ;
        }
        q
    }

    /// The grid cell containing a world position, relative to the level's
    /// world-space origin; `None` when the position lies outside the grid.
    pub fn cell_at_world(
        &self,
        world_x: i64,
        world_y: i64,
        origin_x: i64,
        origin_y: i64,
        grid_size: i64,
    ) -> (r: Option<GridCoord>)
        requires
            self.wf(),
            0 < grid_size <= MAX_GRID_SIZE,
            -MAX_WORLD_COORD / 2 < world_x < MAX_WORLD_COORD / 2,
            -MAX_WORLD_COORD / 2 < world_y < MAX_WORLD_COORD / 2,
            -MAX_WORLD_COORD / 2 < origin_x < MAX_WORLD_COORD / 2,
            -MAX_WORLD_COORD / 2 < origin_y < MAX_WORLD_COORD / 2,
        ensures
            ({
                let cx = (world_x - origin_x) as int / grid_size as int;
                let cy = (world_y - origin_y) as int / grid_size as int;
                match r {
                    Some(c) => c.x == cx && c.y == cy && 0 <= cx < self.spec_width() && 0 <= cy
                        < self.spec_height(),
                    None => !(0 <= cx < self.spec_width() && 0 <= cy < self.spec_height()),
                }
            }),
    {
        let qx = Self::cell_index_of(world_x - origin_x, grid_size);
        let qy = Self::cell_index_of(world_y - origin_y, grid_size);
        if qx >= 0 && qy >= 0 && (qx as u64) < (self.width as u64) && (qy as u64) < (
        self.height as u64) {
            Some(GridCoord { x: qx as i32, y: qy as i32 })
        } else {
            None
        }
    }

    /// The submersion test: whether the water layer of this level holds the
    /// cell that contains the given world position. Positions outside the
    /// grid are never submerged.
    pub fn water_at_world(
        &self,
        world_x: i64,
        world_y: i64,
        origin_x: i64,
        origin_y: i64,
        grid_size: i64,
    ) -> (r: bool)
        requires
            self.wf(),
            0 < grid_size <= MAX_GRID_SIZE,
            -MAX_WORLD_COORD / 2 < world_x < MAX_WORLD_COORD / 2,
            -MAX_WORLD_COORD / 2 < world_y < MAX_WORLD_COORD / 2,
            -MAX_WORLD_COORD / 2 < origin_x < MAX_WORLD_COORD / 2,
            -MAX_WORLD_COORD / 2 < origin_y < MAX_WORLD_COORD / 2,
        ensures
            r == self.water_at(
                (world_x - origin_x) as int / grid_size as int,
                (world_y - origin_y) as int / grid_size as int,
            ),
    {
        proof {
            reveal(LevelGrid::kind_at);
        }
        match self.cell_at_world(world_x, world_y, origin_x, origin_y, grid_size) {
            Some(c) => self.is_water_cell(c),
            None => false,
        }
    }
}

/// Outside the grid no cell carries a kind.
pub broadcast proof fn lemma_kind_in_bounds(g: LevelGrid, x: int, y: int)
    ensures
        #[trigger] g.kind_at(x, y) is Some ==> 0 <= x < g.spec_width() && 0 <= y
            < g.spec_height(),
{
    reveal(LevelGrid::kind_at);
}

impl LevelGrid {
    /// The solid, undestroyed cells of this level as the occupancy grid the
    /// meshing pass consumes. Rebuilding the mesh after a dig is meshing
    /// this grid anew; since the mesh of an occupancy is unique as a set,
    /// the rebuild is deterministic.
    #[verifier::loop_isolation(false)]
    pub fn solid_grid(&self) -> (g: crate::mesh::SolidGrid)
        requires
            self.wf(),
        ensures
            g.wf(),
            g.spec_width() == self.spec_width(),
            g.spec_height() == self.spec_height(),
            forall|x: int, y: int| g.solid_at(x, y) == self.solid_at(x, y),
    {
        broadcast use lemma_kind_in_bounds;

        let mut g = crate::mesh::SolidGrid::new(self.width, self.height);
        let mut y: usize = 0;
        while y < self.height
            invariant
                self.wf(),
                g.wf(),
                g.spec_width() == self.spec_width(),
                g.spec_height() == self.spec_height(),
                y <= self.spec_height(),
                forall|i: int, j: int| g.solid_at(i, j) == (self.solid_at(i, j) && j < y),
            decreases self.spec_height() - y,
        {
            let mut x: usize = 0;
            while x < self.width
                invariant
                    self.wf(),
                    g.wf(),
                    g.spec_width() == self.spec_width(),
                    g.spec_height() == self.spec_height(),
                    y < self.spec_height(),
                    x <= self.spec_width(),
                    forall|i: int, j: int|
                        g.solid_at(i, j) == (self.solid_at(i, j) && (j < y || (j == y && i < x))),
                decreases self.spec_width() - x,
            {
                let ghost prev = g;
                if self.is_solid_cell(GridCoord { x: x as i32, y: y as i32 }) {
                    g.set_solid(x, y);
                }
                proof {
                    assert forall|i: int, j: int|
                        g.solid_at(i, j) == (self.solid_at(i, j) && (j < y || (j == y && i < x
                            + 1))) by {
                        assert(prev.solid_at(i, j) == (self.solid_at(i, j) && (j < y || (j == y && i
                            < x))));
                    }
                }
                x = x + 1;
            }
            y = y + 1;
        }
        g
    }
}

/// The cell a digging character aims at: one column to the left or right of
/// the character's cell, one row below it.
pub fn dig_target(player: GridCoord, dig_left: bool) -> (r: GridCoord)
    requires
        i32::MIN < player.x < i32::MAX,
        i32::MIN < player.y,
    ensures
        r.x == if dig_left {
            player.x - 1
        } else {
            player.x + 1
        },
        r.y == player.y - 1,
{
    let x = if dig_left {
        player.x - 1
    } else {
        player.x + 1
    };
    GridCoord { x, y: player.y - 1 }
}

/// Row-major index of an in-range cell stays inside the tables.
proof fn lemma_cell_index(x: int, y: int, w: int, h: int)
    by (nonlinear_arith)
    requires
        0 <= x < w,
        0 <= y < h,
    ensures
        0 <= y * w + x < w * h,
{
}

/// Distinct in-range cells have distinct row-major indices.
proof fn lemma_cell_index_injective(x1: int, y1: int, x2: int, y2: int, w: int, h: int)
    by (nonlinear_arith)
    requires
        0 <= x1 < w,
        0 <= y1 < h,
        0 <= x2 < w,
        0 <= y2 < h,
    ensures
        y1 * w + x1 == y2 * w + x2 <==> x1 == x2 && y1 == y2,
{
}

} // verus!
