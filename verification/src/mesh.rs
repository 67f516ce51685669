//! Greedy rectangle meshing: turns the solid cells of a level grid into a
//! small list of axis-aligned rectangles, one per spawned collider.
//!
//! The algorithm works in two passes. A row pass cuts every row into its
//! maximal horizontal runs ("plates"). A column pass then carries a set of
//! open rectangles from row to row: a plate whose exact `{left, right}`
//! bounds reappear in the next row extends its rectangle upward by one row;
//! any other open rectangle is closed. Two plates merge only on an exact
//! match — a run one cell narrower or wider starts a new rectangle. That
//! tie-break keeps the mesh deterministic and cheap, not globally minimal.

use vstd::prelude::*;

verus! {

/// Occupancy of one level's collision layer, restricted to the solid cells
/// that take part in meshing. Cell `(x, y)` lives at index `y * width + x`.
pub struct SolidGrid {
    width: usize,
    height: usize,
    solid: Vec<bool>,
}

/// A merged axis-aligned rectangle of solid cells, in grid-cell units,
/// bounds inclusive. One `MeshRect` maps to one spawned collider.
#[derive(Clone, Copy, PartialEq, Eq, Structural, Debug)]
pub struct MeshRect {
    pub left: usize,
    pub right: usize,
    pub bottom: usize,
    pub top: usize,
}

impl SolidGrid {
    /// The grid's representation is a `width * height` row-major bitmap.
    pub closed spec fn wf(self) -> bool {
        self.solid@.len() == self.width * self.height && self.width * self.height <= usize::MAX
    }

    /// Whether cell `(x, y)` is solid; false everywhere outside the grid.
    #[verifier::opaque]
    pub closed spec fn solid_at(self, x: int, y: int) -> bool {
        0 <= x < self.width && 0 <= y < self.height && self.solid@[y * (self.width as int) + x]
    }

    pub closed spec fn spec_width(self) -> int {
        self.width as int
    }

    pub closed spec fn spec_height(self) -> int {
        self.height as int
    }

    /// An empty grid of the given dimensions.
    pub fn new(width: usize, height: usize) -> (g: SolidGrid)
        requires
            width * height <= usize::MAX,
        ensures
            g.wf(),
            g.spec_width() == width,
            g.spec_height() == height,
            forall|x: int, y: int| !g.solid_at(x, y),
    {
        let n = width * height;
        let mut solid: Vec<bool> = Vec::new();
        let mut i: usize = 0;
        while i < n
            invariant
                i <= n,
                solid@.len() == i,
                forall|k: int| 0 <= k < i ==> !solid@[k],
            decreases n - i,
        {
            solid.push(false);
            i = i + 1;
        }
        let g = SolidGrid { width, height, solid };
        proof {
            reveal(SolidGrid::solid_at);
            assert forall|x: int, y: int| !g.solid_at(x, y) by {
                if 0 <= x < width && 0 <= y < height {
                    lemma_grid_index(x, y, width as int, height as int);
                }
            }
        }
        g
    }

    pub fn width(&self) -> (w: usize)
        ensures
            w == self.spec_width(),
    {
        self.width
    }

    pub fn height(&self) -> (h: usize)
        ensures
            h == self.spec_height(),
    {
        self.height
    }

    /// Reads one cell; out-of-range coordinates read as empty.
    pub fn solid_cell(&self, x: usize, y: usize) -> (r: bool)
        requires
            self.wf(),
        ensures
            r == self.solid_at(x as int, y as int),
    {
        proof {
            reveal(SolidGrid::solid_at);
        }
        if x < self.width && y < self.height {
            proof {
                lemma_grid_index(x as int, y as int, self.width as int, self.height as int);
                assert(y * (self.width as int) + x < self.width * self.height);
            }
            self.solid[y * self.width + x]
        } else {
            false
        }
    }

    /// Marks cell `(x, y)` solid.
    pub fn set_solid(&mut self, x: usize, y: usize)
        requires
            old(self).wf(),
            x < old(self).spec_width(),
            y < old(self).spec_height(),
        ensures
            final(self).wf(),
            final(self).spec_width() == old(self).spec_width(),
            final(self).spec_height() == old(self).spec_height(),
            forall|i: int, j: int|
                final(self).solid_at(i, j) == (old(self).solid_at(i, j) || (i == x && j == y)),
    {
        proof {
            reveal(SolidGrid::solid_at);
            lemma_grid_index(x as int, y as int, self.width as int, self.height as int);
            assert(y * (self.width as int) + x < self.width * self.height);
        }
        let idx = y * self.width + x;
        self.solid.set(idx, true);
        proof {
            assert forall|i: int, j: int|
                self.solid_at(i, j) == (old(self).solid_at(i, j) || (i == x && j == y)) by {
                if 0 <= i < self.width && 0 <= j < self.height {
                    lemma_grid_index(i, j, self.width as int, self.height as int);
                    lemma_grid_index_injective(
                        i,
                        j,
                        x as int,
                        y as int,
                        self.width as int,
                        self.height as int,
                    );
                }
            }
        }
    }
}

/// A solid cell always lies inside the grid.
pub broadcast proof fn lemma_solid_in_bounds(g: SolidGrid, x: int, y: int)
    ensures
        #[trigger] g.solid_at(x, y) ==> 0 <= x < g.spec_width() && 0 <= y < g.spec_height(),
{
    reveal(SolidGrid::solid_at);
}

impl MeshRect {
    /// Whether the rectangle covers cell `(x, y)`.
    pub open spec fn covers(self, x: int, y: int) -> bool {
        self.left <= x <= self.right && self.bottom <= y <= self.top
    }

    /// Two rectangles share no cell.
    pub open spec fn disjoint(self, other: MeshRect) -> bool {
        self.right < other.left || other.right < self.left || self.top < other.bottom
            || other.top < self.bottom
    }
}

/// `[l, r]` is a maximal horizontal run of solid cells in row `y`: every cell
/// of the span is solid and the cells just beyond both ends are not.
pub open spec fn run_at(g: SolidGrid, y: int, l: int, r: int) -> bool {
    &&& l <= r
    &&& forall|x: int| l <= x <= r ==> g.solid_at(x, y)
    &&& !g.solid_at(l - 1, y)
    &&& !g.solid_at(r + 1, y)
}

/// Every row of the rectangle is a maximal run: the rectangle contains only
/// solid cells and cannot be widened on either side.
pub open spec fn rect_rows_are_runs(g: SolidGrid, rect: MeshRect) -> bool {
    forall|y: int| rect.bottom <= y <= rect.top ==> run_at(g, y, rect.left as int, rect.right as int)
}

/// The rectangle cannot be extended by one more row on either end: neither
/// the row below the bottom nor the row above the top carries an identical
/// maximal run.
pub open spec fn rect_closed(g: SolidGrid, rect: MeshRect) -> bool {
    &&& !run_at(g, rect.bottom - 1, rect.left as int, rect.right as int)
    &&& !run_at(g, rect.top + 1, rect.left as int, rect.right as int)
}

pub open spec fn rect_in_grid(g: SolidGrid, rect: MeshRect) -> bool {
    rect.left <= rect.right < g.spec_width() && rect.bottom <= rect.top < g.spec_height()
}

/// The full meshing contract: each rectangle is a stack of identical maximal
/// runs that cannot grow in any direction, the rectangles are pairwise
/// disjoint, and together they cover every solid cell. These properties
/// determine the rectangle set uniquely (see `lemma_mesh_unique`).
pub open spec fn is_mesh_of(rects: Seq<MeshRect>, g: SolidGrid) -> bool {
    &&& forall|i: int|
        0 <= i < rects.len() ==> rect_in_grid(g, #[trigger] rects[i]) && rect_rows_are_runs(
            g,
            rects[i],
        ) && rect_closed(g, rects[i])
    &&& forall|i: int, j: int|
        0 <= i < rects.len() && 0 <= j < rects.len() && i != j ==> (#[trigger] rects[i]).disjoint(
            #[trigger] rects[j],
        )
    &&& forall|x: int, y: int|
        #[trigger] g.solid_at(x, y) ==> exists|i: int|
            0 <= i < rects.len() && (#[trigger] rects[i]).covers(x, y)
}

impl SolidGrid {
    /// Row pass: cuts row `y` into its maximal runs, left to right.
    #[verifier::rlimit(30)]
    fn row_plates(&self, y: usize) -> (row: Vec<(usize, usize)>)
        requires
            self.wf(),
        ensures
            forall|k: int|
                0 <= k < row@.len() ==> run_at(
                    *self,
                    y as int,
                    (#[trigger] row@[k]).0 as int,
                    row@[k].1 as int,
                ),
            forall|k: int| 0 <= k && k + 1 < row@.len() ==> (#[trigger] row@[k]).1 + 1 < row@[k + 1].0,
            forall|x: int|
                #[trigger] self.solid_at(x, y as int) ==> exists|k: int|
                    0 <= k < row@.len() && (#[trigger] row@[k]).0 <= x <= row@[k].1,
    {
        broadcast use lemma_solid_in_bounds;

        let mut row: Vec<(usize, usize)> = Vec::new();
        let mut start: Option<usize> = None;
        let mut x: usize = 0;
        while x < self.width
            invariant
                self.wf(),
                x <= self.width,
                start matches Some(s) ==> 0 <= s < x && !self.solid_at(s - 1, y as int) && forall|
                    c: int,
                |
                    s <= c < x ==> self.solid_at(c, y as int),
                start is None ==> (x == 0 || !self.solid_at(x - 1, y as int)),
                forall|k: int|
                    0 <= k < row@.len() ==> run_at(
                        *self,
                        y as int,
                        (#[trigger] row@[k]).0 as int,
                        row@[k].1 as int,
                    ) && row@[k].1 + 1 < x,
                forall|k: int|
                    0 <= k && k + 1 < row@.len() ==> (#[trigger] row@[k]).1 + 1 < row@[k + 1].0,
                start matches Some(s) ==> forall|k: int|
                    0 <= k < row@.len() ==> (#[trigger] row@[k]).1 + 1 < s,
                forall|c: int|
                    0 <= c < x && #[trigger] self.solid_at(c, y as int) ==> (exists|k: int|
                        0 <= k < row@.len() && (#[trigger] row@[k]).0 <= c <= row@[k].1) || (
                    start matches Some(s) && s <= c),
            decreases self.width - x,
        {
            let occupied = self.solid_cell(x, y);
            match start {
                Some(s) => {
                    if !occupied {
                        let ghost prev = row@;
                        row.push((s, x - 1));
                        start = None;
                        proof {
                            assert(run_at(*self, y as int, s as int, x - 1));
                            assert forall|k: int| 0 <= k && k + 1 < row@.len() implies (
                            #[trigger] row@[k]).1 + 1 < row@[k + 1].0 by {
                                assert(prev[k] == row@[k]);
                            }
                            assert forall|c: int|
                                0 <= c < x + 1 && #[trigger] self.solid_at(c, y as int) implies exists|
                                k: int,
                            |
                                0 <= k < row@.len() && (#[trigger] row@[k]).0 <= c <= row@[k].1 by {
                                if exists|k: int|
                                    0 <= k < prev.len() && (#[trigger] prev[k]).0 <= c <= prev[k].1 {
                                    let k = choose|k: int|
                                        0 <= k < prev.len() && (#[trigger] prev[k]).0 <= c
                                            <= prev[k].1;
                                    assert(row@[k].0 <= c <= row@[k].1);
                                } else {
                                    assert(s <= c < x);
                                    assert(row@[prev.len() as int].0 <= c <= row@[prev.len() as int].1);
                                }
                            }
                        }
                    }
                },
                None => {
                    if occupied {
                        start = Some(x);
                        proof {
                            lemma_solid_in_bounds(*self, x as int - 1, y as int);
                            assert(!self.solid_at(x as int - 1, y as int));
                        }
                    }
                },
            }
            x = x + 1;
        }
        if let Some(s) = start {
            let ghost prev = row@;
            row.push((s, self.width - 1));
            proof {
                assert(run_at(*self, y as int, s as int, self.width - 1));
                assert forall|k: int| 0 <= k && k + 1 < row@.len() implies (#[trigger] row@[k]).1
                    + 1 < row@[k + 1].0 by {
                    assert(prev[k] == row@[k]);
                }
                assert forall|c: int| #[trigger]
                    self.solid_at(c, y as int) implies exists|k: int|
                    0 <= k < row@.len() && (#[trigger] row@[k]).0 <= c <= row@[k].1 by {
                    if s <= c {
                        assert(row@[row@.len() - 1].0 <= c <= row@[row@.len() - 1].1);
                    } else {
                        let k = choose|k: int|
                            0 <= k < prev.len() && (#[trigger] prev[k]).0 <= c <= prev[k].1;
                        assert(row@[k].0 <= c <= row@[k].1);
                    }
                }
            }
        }
        row
    }
}

/// Two maximal runs of one row that share a column are the same run.
pub proof fn lemma_run_unique(g: SolidGrid, y: int, l1: int, r1: int, l2: int, r2: int)
    requires
        run_at(g, y, l1, r1),
        run_at(g, y, l2, r2),
        l1 <= r2,
        l2 <= r1,
    ensures
        l1 == l2 && r1 == r2,
{
    if l1 < l2 {
        assert(g.solid_at(l2 - 1, y));
    }
    if l2 < l1 {
        assert(g.solid_at(l1 - 1, y));
    }
    if r1 < r2 {
        assert(g.solid_at(r1 + 1, y));
    }
    if r2 < r1 {
        assert(g.solid_at(r2 + 1, y));
    }
}

/// A maximal run of row `y` always appears in the plate list of that row,
/// provided the list covers every solid cell of the row with maximal runs.
proof fn lemma_run_listed(g: SolidGrid, row: Seq<(usize, usize)>, y: int, l: int, r: int)
    requires
        forall|k: int|
            0 <= k < row.len() ==> run_at(g, y, (#[trigger] row[k]).0 as int, row[k].1 as int),
        forall|x: int|
            #[trigger] g.solid_at(x, y) ==> exists|k: int|
                0 <= k < row.len() && (#[trigger] row[k]).0 <= x <= row[k].1,
        run_at(g, y, l, r),
    ensures
        exists|k: int| 0 <= k < row.len() && (#[trigger] row[k]).0 == l && row[k].1 == r,
{
    assert(g.solid_at(l, y));
    let k = choose|k: int| 0 <= k < row.len() && (#[trigger] row[k]).0 <= l <= row[k].1;
    lemma_run_unique(g, y, l, r, row[k].0 as int, row[k].1 as int);
    assert(row[k].0 == l && row[k].1 == r);
}

/// Index of the open rectangle whose plate is exactly `(l, r)`, if any.
fn find_plate(open: &Vec<MeshRect>, l: usize, r: usize) -> (res: Option<usize>)
    ensures
        res matches Some(i) ==> 0 <= i < open@.len() && open@[i as int].left == l
            && open@[i as int].right == r,
        res is None ==> forall|i: int|
            0 <= i < open@.len() ==> !((#[trigger] open@[i]).left == l && open@[i].right == r),
{
    let mut i: usize = 0;
    while i < open.len()
        invariant
            i <= open@.len(),
            forall|t: int| 0 <= t < i ==> !((#[trigger] open@[t]).left == l && open@[t].right == r),
        decreases open@.len() - i,
    {
        if open[i].left == l && open[i].right == r {
            return Some(i);
        }
        i = i + 1;
    }
    None
}

/// Whether the plate list of a row holds exactly the plate `(l, r)`.
fn row_has_plate(row: &Vec<(usize, usize)>, l: usize, r: usize) -> (res: bool)
    ensures
        res == exists|k: int| 0 <= k < row@.len() && (#[trigger] row@[k]).0 == l && row@[k].1 == r,
{
    let mut k: usize = 0;
    while k < row.len()
        invariant
            k <= row@.len(),
            forall|t: int| 0 <= t < k ==> !((#[trigger] row@[t]).0 == l && row@[t].1 == r),
        decreases row@.len() - k,
    {
        if row[k].0 == l && row[k].1 == r {
            proof {
                assert((row@[k as int]).0 == l && row@[k as int].1 == r);
            }
            return true;
        }
        k = k + 1;
    }
    false
}

/// Whether some rectangle of the sequence covers cell `(x, y)`.
pub open spec fn covered_by(rects: Seq<MeshRect>, x: int, y: int) -> bool {
    exists|i: int| 0 <= i < rects.len() && (#[trigger] rects[i]).covers(x, y)
}

/// No row outside the grid carries a maximal run.
proof fn lemma_no_runs_row(g: SolidGrid, y: int)
    requires
        y < 0 || y >= g.spec_height(),
    ensures
        forall|l: int, r: int| !#[trigger] run_at(g, y, l, r),
{
    broadcast use lemma_solid_in_bounds;

    assert forall|l: int, r: int| !#[trigger] run_at(g, y, l, r) by {
        assert(!g.solid_at(l, y));
    }
}

/// Finished rectangles that are pairwise disjoint and cover every solid
/// cell form a mesh of the grid.
proof fn lemma_mesh_from_done(g: SolidGrid, done: Seq<MeshRect>)
    requires
        forall|i: int| 0 <= i < done.len() ==> done_ok(g, #[trigger] done[i], g.spec_height() + 1),
        forall|i: int, j: int|
            0 <= i < done.len() && 0 <= j < done.len() && i != j ==> (#[trigger] done[i]).disjoint(
            #[trigger] done[j]),
        forall|x: int, yy: int| #[trigger] g.solid_at(x, yy) ==> covered_by(done, x, yy),
    ensures
        is_mesh_of(done, g),
{
    broadcast use lemma_solid_in_bounds;

    assert forall|i: int|
        0 <= i < done.len() implies rect_in_grid(g, #[trigger] done[i]) && rect_rows_are_runs(
        g,
        done[i],
    ) && rect_closed(g, done[i]) by {
        let d = done[i];
        assert(run_at(g, d.bottom as int, d.left as int, d.right as int));
        assert(run_at(g, d.top as int, d.left as int, d.right as int));
        assert(g.solid_at(d.left as int, d.bottom as int));
        assert(g.solid_at(d.right as int, d.top as int));
    }
}

/// Growing a rectangle list keeps every covered cell covered.
proof fn lemma_covered_extend(pre: Seq<MeshRect>, post: Seq<MeshRect>)
    requires
        pre.len() <= post.len(),
        forall|i: int| 0 <= i < pre.len() ==> pre[i] == #[trigger] post[i],
    ensures
        forall|x: int, y: int| #[trigger] covered_by(pre, x, y) ==> covered_by(post, x, y),
{
    assert forall|x: int, y: int| #[trigger] covered_by(pre, x, y) implies covered_by(
        post,
        x,
        y,
    ) by {
        let i = choose|i: int| 0 <= i < pre.len() && (#[trigger] pre[i]).covers(x, y);
        assert((post[i]).covers(x, y));
    }
}

/// A rectangle still open while the column pass stands at row `y`: it spans
/// rows `bottom ..= y - 1`, each of which carries the identical maximal run,
/// and it cannot be extended downward.
spec fn open_ok(g: SolidGrid, o: MeshRect, y: int) -> bool {
    &&& o.bottom <= o.top
    &&& o.top == y - 1
    &&& o.left <= o.right
    &&& rect_rows_are_runs(g, o)
    &&& !run_at(g, o.bottom - 1, o.left as int, o.right as int)
}

/// A finished rectangle of the column pass standing at row `y`.
spec fn done_ok(g: SolidGrid, d: MeshRect, y: int) -> bool {
    &&& d.bottom <= d.top
    &&& d.top + 1 < y
    &&& d.left <= d.right
    &&& rect_rows_are_runs(g, d)
    &&& rect_closed(g, d)
}
/// Working state of the column pass while it stands at row `y`: finished
/// rectangles, still-open rectangles whose plates are exactly the maximal
/// runs of row `y - 1` in left-to-right order, mutual disjointness, and
/// coverage of every solid cell below row `y`.
spec fn mesh_state_ok(g: SolidGrid, done: Seq<MeshRect>, open: Seq<MeshRect>, y: int) -> bool {
    &&& forall|i: int| 0 <= i < done.len() ==> done_ok(g, #[trigger] done[i], y)
    &&& forall|i: int, j: int|
        0 <= i < done.len() && 0 <= j < done.len() && i != j ==> (#[trigger] done[i]).disjoint(
        #[trigger] done[j])
    &&& forall|i: int| 0 <= i < open.len() ==> open_ok(g, #[trigger] open[i], y)
    &&& forall|i: int, j: int|
        0 <= i && i < j < open.len() ==> (#[trigger] open[i]).right < (#[trigger] open[j]).left
    &&& forall|i: int, j: int|
        0 <= i < done.len() && 0 <= j < open.len() ==> (#[trigger] done[i]).disjoint(
        #[trigger] open[j])
    &&& forall|l: int, r: int|
        #[trigger] run_at(g, y - 1, l, r) ==> exists|i: int|
            0 <= i < open.len() && (#[trigger] open[i]).left == l && open[i].right == r
    &&& forall|x: int, yy: int|
        0 <= yy < y && #[trigger] g.solid_at(x, yy) ==> covered_by(done, x, yy) || covered_by(
            open,
            x,
            yy,
        )
}

impl SolidGrid {
    /// One step of the column pass: matches the plates of row `y` against
    /// the open rectangles, extends exact matches by one row, closes the
    /// rest into `done`, and returns the open rectangles for the next row.
    #[verifier::loop_isolation(false)]
    #[verifier::rlimit(100)]
    fn mesh_row(&self, y: usize, done: &mut Vec<MeshRect>, open: Vec<MeshRect>) -> (new_open: Vec<
        MeshRect,
    >)
        requires
            self.wf(),
            y < self.spec_height(),
            mesh_state_ok(*self, old(done)@, open@, y as int),
        ensures
            mesh_state_ok(*self, final(done)@, new_open@, y as int + 1),
    {
        broadcast use lemma_solid_in_bounds;

        let row = self.row_plates(y);
        let ghost prev_open = open@;
        let mut new_open: Vec<MeshRect> = Vec::new();
        let mut k: usize = 0;
        while k < row.len()
            invariant
                k <= row@.len(),
                new_open@.len() == k,
                forall|t: int|
                    0 <= t < k ==> (#[trigger] new_open@[t]).left == row@[t].0
                        && new_open@[t].right == row@[t].1 && new_open@[t].top == y
                        && new_open@[t].bottom <= new_open@[t].top,
                forall|t: int|
                    0 <= t < k ==> rect_rows_are_runs(*self, #[trigger] new_open@[t]) && !run_at(
                        *self,
                        new_open@[t].bottom - 1,
                        new_open@[t].left as int,
                        new_open@[t].right as int,
                    ),
                forall|t: int, i: int|
                    0 <= t < k && 0 <= i < prev_open.len() && (#[trigger] prev_open[i]).left == (
                    #[trigger] new_open@[t]).left && prev_open[i].right == new_open@[t].right
                        ==> new_open@[t].bottom == prev_open[i].bottom,
                forall|t: int|
                    0 <= t < k && (#[trigger] new_open@[t]).bottom < y ==> exists|i: int|
                        0 <= i < prev_open.len() && (#[trigger] prev_open[i]).left
                            == new_open@[t].left && prev_open[i].right == new_open@[t].right
                            && prev_open[i].bottom == new_open@[t].bottom,
            decreases row@.len() - k,
        {
            let (l, r) = row[k];
            proof {
                assert(run_at(*self, y as int, l as int, r as int));
            }
            match find_plate(&open, l, r) {
                Some(i) => {
                    let o = open[i];
                    let ext = MeshRect { left: o.left, right: o.right, bottom: o.bottom, top: y };
                    new_open.push(ext);
                    proof {
                        assert forall|i2: int|
                            0 <= i2 < prev_open.len() && (#[trigger] prev_open[i2]).left == l
                                && prev_open[i2].right == r implies prev_open[i2].bottom
                            == o.bottom by {
                            if i2 != i {
                                if i2 < i {
                                    assert(prev_open[i2].right < prev_open[i as int].left);
                                } else {
                                    assert(prev_open[i as int].right < prev_open[i2].left);
                                }
                            }
                        }
                        assert forall|yy: int| ext.bottom <= yy <= ext.top implies run_at(
                            *self,
                            yy,
                            ext.left as int,
                            ext.right as int,
                        ) by {
                            if yy < y {
                                assert(run_at(*self, yy, o.left as int, o.right as int));
                            } else {
                                assert(run_at(*self, y as int, l as int, r as int));
                            }
                        }
                        assert(rect_rows_are_runs(*self, new_open@[k as int]));
                    }
                },
                None => {
                    new_open.push(MeshRect { left: l, right: r, bottom: y, top: y });
                    proof {
                        if run_at(*self, y as int - 1, l as int, r as int) {
                            let i = choose|i: int|
                                0 <= i < prev_open.len() && (#[trigger] prev_open[i]).left == l
                                    && prev_open[i].right == r;
                            assert(false);
                        }
                        assert(rect_rows_are_runs(*self, new_open@[k as int]));
                    }
                },
            }
            k = k + 1;
        }
        let mut j: usize = 0;
        while j < open.len()
            invariant
                j <= open@.len(),
                forall|i: int|
                    0 <= i < done@.len() ==> done_ok(*self, #[trigger] done@[i], y as int + 1),
                forall|i: int, i2: int|
                    0 <= i < done@.len() && 0 <= i2 < done@.len() && i != i2 ==> (
                    #[trigger] done@[i]).disjoint(#[trigger] done@[i2]),
                forall|i: int, i2: int|
                    0 <= i < done@.len() && j <= i2 < open@.len() ==> (
                    #[trigger] done@[i]).disjoint(#[trigger] open@[i2]),
                forall|i: int, t: int|
                    0 <= i < done@.len() && 0 <= t < new_open@.len() ==> (
                    #[trigger] done@[i]).disjoint(#[trigger] new_open@[t]),
                forall|x: int, yy: int|
                    0 <= yy < y && #[trigger] self.solid_at(x, yy) ==> covered_by(done@, x, yy)
                        || covered_by(new_open@, x, yy) || exists|i2: int|
                        j <= i2 < open@.len() && (#[trigger] open@[i2]).covers(x, yy),
            decreases open@.len() - j,
        {
            let o = open[j];
            if !row_has_plate(&row, o.left, o.right) {
                let ghost prev_done = done@;
                done.push(o);
                proof {
                    lemma_covered_extend(prev_done, done@);
                    if run_at(*self, y as int, o.left as int, o.right as int) {
                        lemma_run_listed(*self, row@, y as int, o.left as int, o.right as int);
                    }
                    assert(done_ok(*self, o, y as int + 1));
                    assert forall|t: int| 0 <= t < new_open@.len() implies o.disjoint(
                        #[trigger] new_open@[t],
                    ) by {
                        let n = new_open@[t];
                        if n.bottom < y {
                            let i = choose|i: int|
                                0 <= i < prev_open.len() && (#[trigger] prev_open[i]).left
                                    == n.left && prev_open[i].right == n.right
                                    && prev_open[i].bottom == n.bottom;
                            if i == j {
                                assert((row@[t]).0 == o.left && row@[t].1 == o.right);
                                assert(false);
                            } else if i < j {
                                assert(prev_open[i].right < prev_open[j as int].left);
                            } else {
                                assert(prev_open[j as int].right < prev_open[i].left);
                            }
                        } else {
                            assert(n.bottom == y);
                            assert(o.top < y);
                        }
                    }
                    assert forall|i2: int|
                        j + 1 <= i2 < open@.len() implies o.disjoint(#[trigger] open@[i2]) by {
                        assert(prev_open[j as int].right < prev_open[i2].left);
                    }
                    assert forall|x: int, yy: int| o.covers(x, yy) implies covered_by(
                        done@,
                        x,
                        yy,
                    ) by {
                        assert((done@[done@.len() - 1]).covers(x, yy));
                    }
                }
            } else {
                proof {
                    let t = choose|t: int|
                        0 <= t < row@.len() && (#[trigger] row@[t]).0 == o.left && row@[t].1
                            == o.right;
                    assert(new_open@[t].left == o.left && new_open@[t].right == o.right
                        && new_open@[t].bottom == o.bottom);
                    assert forall|x: int, yy: int| o.covers(x, yy) implies covered_by(
                        new_open@,
                        x,
                        yy,
                    ) by {
                        assert((new_open@[t]).covers(x, yy));
                    }
                }
            }
            j = j + 1;
        }
        proof {
            lemma_advance(*self, row@, done@, new_open@, y as int);
        }
        new_open
    }

    /// Last step of the column pass: past the top row every open rectangle
    /// closes, and the finished list is a mesh of the grid.
    #[verifier::loop_isolation(false)]
    #[verifier::rlimit(100)]
    fn close_remaining(&self, done: &mut Vec<MeshRect>, open: Vec<MeshRect>)
        requires
            self.wf(),
            mesh_state_ok(*self, old(done)@, open@, self.spec_height()),
        ensures
            is_mesh_of(final(done)@, *self),
    {
        broadcast use lemma_solid_in_bounds;

        let mut j: usize = 0;
        while j < open.len()
            invariant
                j <= open@.len(),
                forall|i: int|
                    0 <= i < done@.len() ==> done_ok(
                        *self,
                        #[trigger] done@[i],
                        self.spec_height() + 1,
                    ),
                forall|i: int, jj: int|
                    0 <= i < done@.len() && 0 <= jj < done@.len() && i != jj ==> (
                    #[trigger] done@[i]).disjoint(#[trigger] done@[jj]),
                forall|i: int, jj: int|
                    0 <= i < done@.len() && j <= jj < open@.len() ==> (
                    #[trigger] done@[i]).disjoint(#[trigger] open@[jj]),
                forall|x: int, yy: int|
                    #[trigger] self.solid_at(x, yy) ==> covered_by(done@, x, yy) || exists|i: int|
                        j <= i < open@.len() && (#[trigger] open@[i]).covers(x, yy),
            decreases open@.len() - j,
        {
            let o = open[j];
            let ghost prev_done = done@;
            done.push(o);
            proof {
                lemma_covered_extend(prev_done, done@);
                lemma_no_runs_row(*self, self.spec_height());
                assert(done_ok(*self, o, self.spec_height() + 1));
                assert forall|jj: int| j + 1 <= jj < open@.len() implies o.disjoint(
                    #[trigger] open@[jj],
                ) by {
                    assert(open@[j as int].right < open@[jj].left);
                }
                assert forall|x: int, yy: int| o.covers(x, yy) implies covered_by(done@, x, yy) by {
                    assert((done@[done@.len() - 1]).covers(x, yy));
                }
            }
            j = j + 1;
        }
        proof {
            lemma_mesh_from_done(*self, done@);
        }
    }

    /// Column pass over the plates of each row: converts the grid's solid
    /// cells into merged rectangles, bottom row upward. The result covers
    /// every solid cell exactly once, and each rectangle is a maximal stack
    /// of identical maximal runs — which pins the rectangle set down
    /// uniquely (`lemma_mesh_unique`), leaving only the order open.
    pub fn rectangles(&self) -> (rects: Vec<MeshRect>)
        requires
            self.wf(),
        ensures
            is_mesh_of(rects@, *self),
    {
        let mut done: Vec<MeshRect> = Vec::new();
        let mut open: Vec<MeshRect> = Vec::new();
        let mut y: usize = 0;
        proof {
            lemma_no_runs_row(*self, -1);
        }
        while y < self.height
            invariant
                self.wf(),
                y <= self.spec_height(),
                mesh_state_ok(*self, done@, open@, y as int),
            decreases self.spec_height() - y,
        {
            open = self.mesh_row(y, &mut done, open);
            y = y + 1;
        }
        self.close_remaining(&mut done, open);
        done
    }
}

/// After one step of the column pass, the rebuilt open list and the grown
/// done list form a valid working state for the next row.
#[verifier::rlimit(100)]
proof fn lemma_advance(
    g: SolidGrid,
    row: Seq<(usize, usize)>,
    done: Seq<MeshRect>,
    new_open: Seq<MeshRect>,
    y: int,
)
    requires
        0 <= y < g.spec_height(),
        forall|k: int|
            0 <= k < row.len() ==> run_at(g, y, (#[trigger] row[k]).0 as int, row[k].1 as int),
        forall|k: int| 0 <= k && k + 1 < row.len() ==> (#[trigger] row[k]).1 + 1 < row[k + 1].0,
        forall|x: int|
            #[trigger] g.solid_at(x, y) ==> exists|k: int|
                0 <= k < row.len() && (#[trigger] row[k]).0 <= x <= row[k].1,
        new_open.len() == row.len(),
        forall|t: int|
            0 <= t < new_open.len() ==> (#[trigger] new_open[t]).left == row[t].0
                && new_open[t].right == row[t].1 && new_open[t].top == y && new_open[t].bottom
                <= new_open[t].top,
        forall|t: int|
            0 <= t < new_open.len() ==> rect_rows_are_runs(g, #[trigger] new_open[t]) && !run_at(
                g,
                new_open[t].bottom - 1,
                new_open[t].left as int,
                new_open[t].right as int,
            ),
        forall|i: int| 0 <= i < done.len() ==> done_ok(g, #[trigger] done[i], y + 1),
        forall|i: int, i2: int|
            0 <= i < done.len() && 0 <= i2 < done.len() && i != i2 ==> (
            #[trigger] done[i]).disjoint(#[trigger] done[i2]),
        forall|i: int, t: int|
            0 <= i < done.len() && 0 <= t < new_open.len() ==> (#[trigger] done[i]).disjoint(
            #[trigger] new_open[t]),
        forall|x: int, yy: int|
            0 <= yy < y && #[trigger] g.solid_at(x, yy) ==> covered_by(done, x, yy) || covered_by(
                new_open,
                x,
                yy,
            ),
    ensures
        mesh_state_ok(g, done, new_open, y + 1),
{
    broadcast use lemma_solid_in_bounds;

    assert forall|l: int, r: int| #[trigger] run_at(g, y, l, r) implies exists|i: int|
        0 <= i < new_open.len() && (#[trigger] new_open[i]).left == l && new_open[i].right == r by {
        lemma_run_listed(g, row, y, l, r);
        let t = choose|t: int| 0 <= t < row.len() && (#[trigger] row[t]).0 == l && row[t].1 == r;
        assert((new_open[t]).left == l && new_open[t].right == r);
    }
    assert forall|i: int| 0 <= i < new_open.len() implies open_ok(
        g,
        #[trigger] new_open[i],
        y + 1,
    ) by {
        assert(run_at(g, y, row[i].0 as int, row[i].1 as int));
    }
    assert forall|i: int, j: int|
        0 <= i && i < j < new_open.len() implies (#[trigger] new_open[i]).right < (
    #[trigger] new_open[j]).left by {
        assert((row[i]).1 + 1 < row[i + 1].0);
        if i + 1 < j {
            lemma_row_sorted_chain(row, i + 1, j);
        }
    }
    assert forall|x: int, yy: int|
        0 <= yy < y + 1 && #[trigger] g.solid_at(x, yy) implies covered_by(done, x, yy)
        || covered_by(new_open, x, yy) by {
        if yy == y {
            let kk = choose|kk: int| 0 <= kk < row.len() && (#[trigger] row[kk]).0 <= x <= row[kk].1;
            assert((new_open[kk]).covers(x, yy));
        }
    }
}

/// In a sorted plate list the left bounds grow with the index.
proof fn lemma_row_sorted_chain(row: Seq<(usize, usize)>, a: int, b: int)
    requires
        forall|k: int| 0 <= k && k + 1 < row.len() ==> (#[trigger] row[k]).1 + 1 < row[k + 1].0,
        forall|k: int| 0 <= k < row.len() ==> (#[trigger] row[k]).0 <= row[k].1,
        0 <= a <= b < row.len(),
    ensures
        (row[a]).0 <= row[b].0,
    decreases b - a,
{
    if a < b {
        lemma_row_sorted_chain(row, a + 1, b);
        assert((row[a]).1 + 1 < row[a + 1].0);
    }
}

/// Law: a mesh covers exactly the solid cells — the union of its rectangles
/// equals the occupied set, nothing more and nothing less, and by
/// `is_mesh_of` no two rectangles overlap.
pub proof fn lemma_mesh_covers_exactly(g: SolidGrid, rects: Seq<MeshRect>)
    requires
        is_mesh_of(rects, g),
    ensures
        forall|x: int, y: int| covered_by(rects, x, y) <==> g.solid_at(x, y),
{
    assert forall|x: int, y: int| covered_by(rects, x, y) implies g.solid_at(x, y) by {
        let i = choose|i: int| 0 <= i < rects.len() && (#[trigger] rects[i]).covers(x, y);
        assert(run_at(g, y, rects[i].left as int, rects[i].right as int));
    }
    assert forall|x: int, y: int| g.solid_at(x, y) implies covered_by(rects, x, y) by {
    }
}

/// Law: a cell that is no longer solid — a dug cell among them — is covered
/// by no rectangle of any mesh built afterwards.
pub proof fn lemma_dig_uncovers(g: SolidGrid, rects: Seq<MeshRect>, x: int, y: int)
    requires
        is_mesh_of(rects, g),
        !g.solid_at(x, y),
    ensures
        !covered_by(rects, x, y),
{
    lemma_mesh_covers_exactly(g, rects);
}

/// Every rectangle of one mesh of a grid appears in any other mesh of the
/// same grid.
proof fn lemma_mesh_subset(g: SolidGrid, r1: Seq<MeshRect>, r2: Seq<MeshRect>)
    requires
        is_mesh_of(r1, g),
        is_mesh_of(r2, g),
    ensures
        forall|rect: MeshRect| r1.contains(rect) ==> r2.contains(rect),
{
    assert forall|rect: MeshRect| r1.contains(rect) implies r2.contains(rect) by {
        let i = choose|i: int| 0 <= i < r1.len() && r1[i] == rect;
        let l = rect.left as int;
        let b = rect.bottom as int;
        assert(run_at(g, b, l, rect.right as int));
        assert(g.solid_at(l, b));
        let j = choose|j: int| 0 <= j < r2.len() && (#[trigger] r2[j]).covers(l, b);
        let other = r2[j];
        // the bottom row of `rect` is a maximal run shared with `other`
        assert(run_at(g, b, other.left as int, other.right as int));
        lemma_run_unique(g, b, l, rect.right as int, other.left as int, other.right as int);
        // `other` cannot start lower, or `rect` could be extended downward
        if other.bottom < rect.bottom {
            assert(run_at(g, b - 1, other.left as int, other.right as int));
            assert(false);
        }
        // equal bottoms and equal tops, or one of the two is not closed
        if other.top < rect.top {
            assert(run_at(g, other.top + 1, rect.left as int, rect.right as int));
            assert(false);
        }
        if rect.top < other.top {
            assert(run_at(g, rect.top + 1, other.left as int, other.right as int));
            assert(false);
        }
        assert(other == rect);
        assert(r2.contains(rect));
    }
}

/// Law: the mesh of a grid is unique as a set of rectangles. Any two meshes
/// of the same occupancy hold exactly the same rectangles, so a rebuild is
/// deterministic and idempotent: rebuilding after no change, or rebuilding
/// in any order after a dig, yields the same rectangle set.
pub proof fn lemma_mesh_unique(g: SolidGrid, r1: Seq<MeshRect>, r2: Seq<MeshRect>)
    requires
        is_mesh_of(r1, g),
        is_mesh_of(r2, g),
    ensures
        forall|rect: MeshRect| r1.contains(rect) <==> r2.contains(rect),
{
    lemma_mesh_subset(g, r1, r2);
    lemma_mesh_subset(g, r2, r1);
}

/// Law: a single solid row of length `n`, with nothing else solid, meshes
/// into exactly one rectangle spanning columns `0 ..= n - 1` of that row.
pub proof fn lemma_single_row_mesh(g: SolidGrid, rects: Seq<MeshRect>, row: int, n: int)
    requires
        is_mesh_of(rects, g),
        1 <= n,
        forall|x: int, y: int| g.solid_at(x, y) <==> (y == row && 0 <= x < n),
    ensures
        rects.len() == 1,
        rects[0].left == 0 && rects[0].right == n - 1 && rects[0].bottom == row && rects[0].top
            == row,
{
    assert(g.solid_at(0, row));
    assert forall|i: int| 0 <= i < rects.len() implies (#[trigger] rects[i]).left == 0
        && rects[i].right == n - 1 && rects[i].bottom == row && rects[i].top == row by {
        let a = rects[i];
        assert(run_at(g, a.bottom as int, a.left as int, a.right as int));
        assert(g.solid_at(a.left as int, a.bottom as int));
        assert(g.solid_at(a.right as int, a.bottom as int));
        assert(run_at(g, a.top as int, a.left as int, a.right as int));
        assert(g.solid_at(a.left as int, a.top as int));
        assert(g.solid_at(a.right as int, a.top as int));
        if a.left != 0 {
            assert(g.solid_at(a.left - 1, row));
            assert(false);
        }
        if a.right != n - 1 {
            assert(g.solid_at(a.right + 1, row));
            assert(false);
        }
    }
    let i0 = choose|i: int| 0 <= i < rects.len() && (#[trigger] rects[i]).covers(0, row);
    if rects.len() > 1 {
        let j0: int = if i0 == 0 {
            1
        } else {
            0
        };
        assert(!(rects[i0]).disjoint(rects[j0]));
        assert(false);
    }
}

/// Law: two stacked rows with the identical `{left, right}` run mesh into
/// one rectangle spanning both rows.
pub proof fn lemma_stacked_rows_merge(
    g: SolidGrid,
    rects: Seq<MeshRect>,
    row: int,
    l: int,
    r: int,
)
    requires
        is_mesh_of(rects, g),
        0 <= l <= r,
        forall|x: int, y: int| g.solid_at(x, y) <==> ((y == row || y == row + 1) && l <= x <= r),
    ensures
        rects.len() == 1,
        rects[0].left == l && rects[0].right == r && rects[0].bottom == row && rects[0].top == row
            + 1,
{
    assert(g.solid_at(l, row));
    assert forall|i: int| 0 <= i < rects.len() implies (#[trigger] rects[i]).left == l
        && rects[i].right == r && rects[i].bottom == row && rects[i].top == row + 1 by {
        let a = rects[i];
        assert(run_at(g, a.bottom as int, a.left as int, a.right as int));
        assert(g.solid_at(a.left as int, a.bottom as int));
        assert(g.solid_at(a.right as int, a.bottom as int));
        assert(run_at(g, a.top as int, a.left as int, a.right as int));
        assert(g.solid_at(a.left as int, a.top as int));
        assert(g.solid_at(a.right as int, a.top as int));
        if a.left != l {
            assert(g.solid_at(a.left - 1, a.bottom as int));
            assert(false);
        }
        if a.right != r {
            assert(g.solid_at(a.right + 1, a.bottom as int));
            assert(false);
        }
        if a.bottom == row + 1 {
            assert(run_at(g, row, l, r));
            assert(false);
        }
        if a.top == row {
            assert(run_at(g, row + 1, l, r));
            assert(false);
        }
    }
    let i0 = choose|i: int| 0 <= i < rects.len() && (#[trigger] rects[i]).covers(l, row);
    if rects.len() > 1 {
        let j0: int = if i0 == 0 {
            1
        } else {
            0
        };
        assert(!(rects[i0]).disjoint(rects[j0]));
        assert(false);
    }
}

/// Law: two stacked rows whose runs differ — a narrowing or widening by as
/// little as one cell — mesh into two separate one-row rectangles rather
/// than merging.
pub proof fn lemma_differing_rows_split(
    g: SolidGrid,
    rects: Seq<MeshRect>,
    row: int,
    l0: int,
    r0: int,
    l1: int,
    r1: int,
)
    requires
        is_mesh_of(rects, g),
        0 <= l0 <= r0,
        0 <= l1 <= r1,
        l0 != l1 || r0 != r1,
        forall|x: int, y: int|
            g.solid_at(x, y) <==> ((y == row && l0 <= x <= r0) || (y == row + 1 && l1 <= x <= r1)),
    ensures
        rects.len() == 2,
        exists|i: int|
            0 <= i < rects.len() && (#[trigger] rects[i]).left == l0 && rects[i].right == r0
                && rects[i].bottom == row && rects[i].top == row,
        exists|i: int|
            0 <= i < rects.len() && (#[trigger] rects[i]).left == l1 && rects[i].right == r1
                && rects[i].bottom == row + 1 && rects[i].top == row + 1,
{
    assert(g.solid_at(l0, row));
    assert(g.solid_at(l1, row + 1));
    assert forall|i: int| 0 <= i < rects.len() implies ((#[trigger] rects[i]).left == l0
        && rects[i].right == r0 && rects[i].bottom == row && rects[i].top == row) || (rects[i].left
        == l1 && rects[i].right == r1 && rects[i].bottom == row + 1 && rects[i].top == row + 1) by {
        let a = rects[i];
        assert(run_at(g, a.bottom as int, a.left as int, a.right as int));
        assert(g.solid_at(a.left as int, a.bottom as int));
        assert(g.solid_at(a.right as int, a.bottom as int));
        assert(run_at(g, a.top as int, a.left as int, a.right as int));
        assert(g.solid_at(a.left as int, a.top as int));
        assert(g.solid_at(a.right as int, a.top as int));
        if a.bottom == row && a.top == row + 1 {
            // one span would have to be a maximal run of both rows
            assert(g.solid_at(a.left as int, row) && g.solid_at(a.left as int, row + 1));
            if a.left != l0 {
                assert(g.solid_at(a.left - 1, row));
                assert(false);
            }
            if a.right != r0 {
                assert(g.solid_at(a.right + 1, row));
                assert(false);
            }
            if a.left != l1 {
                assert(g.solid_at(a.left - 1, row + 1));
                assert(false);
            }
            if a.right != r1 {
                assert(g.solid_at(a.right + 1, row + 1));
                assert(false);
            }
            assert(false);
        }
        if a.bottom == row {
            if a.left != l0 {
                assert(g.solid_at(a.left - 1, row));
                assert(false);
            }
            if a.right != r0 {
                assert(g.solid_at(a.right + 1, row));
                assert(false);
            }
        } else {
            if a.left != l1 {
                assert(g.solid_at(a.left - 1, row + 1));
                assert(false);
            }
            if a.right != r1 {
                assert(g.solid_at(a.right + 1, row + 1));
                assert(false);
            }
        }
    }
    let i0 = choose|i: int| 0 <= i < rects.len() && (#[trigger] rects[i]).covers(l0, row);
    let i1 = choose|i: int| 0 <= i < rects.len() && (#[trigger] rects[i]).covers(l1, row + 1);
    assert(rects[i0].bottom == row && rects[i0].top == row);
    assert(rects[i1].bottom == row + 1);
    assert(i0 != i1);
    if rects.len() > 2 {
        // two of the first three rectangles would share a row span and overlap
        if rects[0].bottom == rects[1].bottom {
            assert(!(rects[0]).disjoint(rects[1]));
        } else if rects[0].bottom == rects[2].bottom {
            assert(!(rects[0]).disjoint(rects[2]));
        } else {
            assert(rects[1].bottom == rects[2].bottom);
            assert(!(rects[1]).disjoint(rects[2]));
        }
        assert(false);
    }
}

/// Row-major index of an in-range cell stays inside the bitmap.
proof fn lemma_grid_index(x: int, y: int, w: int, h: int)
    by (nonlinear_arith)
    requires
        0 <= x < w,
        0 <= y < h,
    ensures
        0 <= y * w + x < w * h,
{
}

/// Distinct in-range cells have distinct row-major indices.
proof fn lemma_grid_index_injective(x1: int, y1: int, x2: int, y2: int, w: int, h: int)
    by (nonlinear_arith)
    requires
        0 <= x1 < w,
        0 <= y1 < h,
        0 <= x2 < w,
        0 <= y2 < h,
    ensures
        y1 * w + x1 == y2 * w + x2 <==> x1 == x2 && y1 == y2,
{
}

} // verus!
