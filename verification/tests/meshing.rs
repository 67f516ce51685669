use load_runner::collider::{collider_params, LevelColliders, SpawnedColliders};
use load_runner::grid::{GridCoord, LevelGrid};
use load_runner::mesh::{MeshRect, SolidGrid};

fn grid_from_rows(rows: &[&[u8]]) -> SolidGrid {
    // rows are listed top row last so that index 0 is the bottom row
    let height = rows.len();
    let width = if height > 0 { rows[0].len() } else { 0 };
    let mut g = SolidGrid::new(width, height);
    for (y, row) in rows.iter().enumerate() {
        assert_eq!(row.len(), width);
        for (x, &cell) in row.iter().enumerate() {
            if cell == 1 {
                g.set_solid(x, y);
            }
        }
    }
    g
}

fn covers(r: &MeshRect, x: usize, y: usize) -> bool {
    r.left <= x && x <= r.right && r.bottom <= y && y <= r.top
}

fn assert_mesh_covers_exactly(g: &SolidGrid, rects: &[MeshRect]) {
    for y in 0..g.height() {
        for x in 0..g.width() {
            let n = rects.iter().filter(|r| covers(r, x, y)).count();
            if g.solid_cell(x, y) {
                assert_eq!(n, 1, "solid cell ({x},{y}) must be covered exactly once");
            } else {
                assert_eq!(n, 0, "empty cell ({x},{y}) must not be covered");
            }
        }
    }
}

#[test]
fn empty_grid_yields_no_rectangles() {
    let g = SolidGrid::new(8, 6);
    let rects = g.rectangles();
    assert!(rects.is_empty());
}

#[test]
fn zero_sized_grid_yields_no_rectangles() {
    let g = SolidGrid::new(0, 0);
    assert!(g.rectangles().is_empty());
}

#[test]
fn full_grid_yields_one_rectangle() {
    let g = grid_from_rows(&[&[1, 1, 1], &[1, 1, 1], &[1, 1, 1]]);
    let rects = g.rectangles();
    assert_eq!(rects.len(), 1);
    assert_eq!(rects[0], MeshRect { left: 0, right: 2, bottom: 0, top: 2 });
}

#[test]
fn single_row_merges_into_one_plate_rectangle() {
    // a single solid row of length n yields exactly {0, n-1, row, row}
    let mut g = SolidGrid::new(5, 3);
    for x in 0..5 {
        g.set_solid(x, 1);
    }
    let rects = g.rectangles();
    assert_eq!(rects.len(), 1);
    assert_eq!(rects[0], MeshRect { left: 0, right: 4, bottom: 1, top: 1 });
}

#[test]
fn stacked_identical_runs_merge_vertically() {
    let g = grid_from_rows(&[&[0, 1, 1, 0], &[0, 1, 1, 0]]);
    let rects = g.rectangles();
    assert_eq!(rects.len(), 1);
    assert_eq!(rects[0], MeshRect { left: 1, right: 2, bottom: 0, top: 1 });
}

#[test]
fn one_cell_narrowing_splits_into_two_rectangles() {
    let g = grid_from_rows(&[&[1, 1, 1, 0], &[1, 1, 0, 0]]);
    let mut rects = g.rectangles();
    rects.sort_by_key(|r| (r.bottom, r.left));
    assert_eq!(rects.len(), 2);
    assert_eq!(rects[0], MeshRect { left: 0, right: 2, bottom: 0, top: 0 });
    assert_eq!(rects[1], MeshRect { left: 0, right: 1, bottom: 1, top: 1 });
}

#[test]
fn two_runs_in_one_row_stay_separate() {
    let g = grid_from_rows(&[&[1, 1, 0, 1, 1]]);
    let mut rects = g.rectangles();
    rects.sort_by_key(|r| r.left);
    assert_eq!(rects.len(), 2);
    assert_eq!(rects[0], MeshRect { left: 0, right: 1, bottom: 0, top: 0 });
    assert_eq!(rects[1], MeshRect { left: 3, right: 4, bottom: 0, top: 0 });
}

#[test]
fn mesh_covers_every_solid_cell_exactly_once() {
    let g = grid_from_rows(&[
        &[1, 1, 0, 1, 1, 1],
        &[1, 1, 0, 0, 1, 1],
        &[0, 1, 1, 1, 1, 0],
        &[0, 0, 0, 1, 1, 0],
    ]);
    let rects = g.rectangles();
    assert_mesh_covers_exactly(&g, &rects);
}

#[test]
fn run_touching_the_right_edge_is_closed() {
    let g = grid_from_rows(&[&[0, 0, 1, 1]]);
    let rects = g.rectangles();
    assert_eq!(rects.len(), 1);
    assert_eq!(rects[0], MeshRect { left: 2, right: 3, bottom: 0, top: 0 });
}

#[test]
fn rectangles_touching_the_top_edge_are_closed() {
    let g = grid_from_rows(&[&[0, 1], &[0, 1], &[0, 1]]);
    let rects = g.rectangles();
    assert_eq!(rects.len(), 1);
    assert_eq!(rects[0], MeshRect { left: 1, right: 1, bottom: 0, top: 2 });
}

#[test]
fn dig_rebuild_matches_fresh_build_and_uncovers_the_cell() {
    // a 4x3 solid block, then one destructible cell dug out
    let codes_full: Vec<i32> = vec![1; 12];
    let mut grid = LevelGrid::from_codes(4, 3, &codes_full);
    assert!(grid.destroy_cell(GridCoord { x: 2, y: 1 }));

    let rebuilt = grid.solid_grid().rectangles();

    // the same occupancy built fresh gives the same rectangle set
    let mut codes_reduced = codes_full.clone();
    codes_reduced[1 * 4 + 2] = 0;
    let fresh_grid = LevelGrid::from_codes(4, 3, &codes_reduced);
    let fresh = fresh_grid.solid_grid().rectangles();
    assert_same_rect_set(&rebuilt, &fresh);

    // rebuilding again with no further change yields the same set
    let again = grid.solid_grid().rectangles();
    assert_same_rect_set(&rebuilt, &again);

    // the dug cell is no longer covered
    assert!(!rebuilt.iter().any(|r| covers(r, 2, 1)));
}

fn assert_same_rect_set(a: &[MeshRect], b: &[MeshRect]) {
    let mut a: Vec<MeshRect> = a.to_vec();
    let mut b: Vec<MeshRect> = b.to_vec();
    a.sort_by_key(|r| (r.bottom, r.left, r.top, r.right));
    b.sort_by_key(|r| (r.bottom, r.left, r.top, r.right));
    assert_eq!(a, b);
}

#[test]
fn level_colliders_mesh_per_level() {
    let mut lc = LevelColliders::new();
    lc.add_coord(7, GridCoord { x: 0, y: 0 });
    lc.add_coord(7, GridCoord { x: 1, y: 0 });
    lc.add_coord(9, GridCoord { x: 3, y: 3 });
    // out-of-range coordinates are ignored by the grid
    lc.add_coord(7, GridCoord { x: -1, y: 0 });
    lc.add_coord(7, GridCoord { x: 0, y: 99 });

    let rects7 = lc.rectangles(7, 4, 4);
    assert_eq!(rects7, vec![MeshRect { left: 0, right: 1, bottom: 0, top: 0 }]);

    let rects9 = lc.rectangles(9, 4, 4);
    assert_eq!(rects9, vec![MeshRect { left: 3, right: 3, bottom: 3, top: 3 }]);

    let rects_other = lc.rectangles(1, 4, 4);
    assert!(rects_other.is_empty());
}

#[test]
fn collider_params_center_and_extent() {
    // a 2x1-cell rectangle with 16-unit cells: center (16, 8), half extents (16, 8)
    let rect = MeshRect { left: 0, right: 1, bottom: 0, top: 0 };
    let p = collider_params(&rect, 16);
    assert_eq!(p.center_x2, 16 * (0 + 1 + 1));
    assert_eq!(p.center_y2, 16 * (0 + 0 + 1));
    assert_eq!(p.extent_x2, 16 * 2);
    assert_eq!(p.extent_y2, 16 * 1);
    assert_eq!(p.center_x2 / 2, 16);
    assert_eq!(p.center_y2 / 2, 8);
}

#[test]
fn rebuild_replaces_the_whole_spawned_set() {
    let mut spawned = SpawnedColliders::new();
    let first = vec![MeshRect { left: 0, right: 3, bottom: 0, top: 0 }];
    let stale = spawned.replace(first.clone());
    assert!(stale.is_empty());
    assert_eq!(spawned.rectangles(), &first);

    let second = vec![
        MeshRect { left: 0, right: 1, bottom: 0, top: 0 },
        MeshRect { left: 3, right: 3, bottom: 0, top: 0 },
    ];
    let stale = spawned.replace(second.clone());
    assert_eq!(stale, first, "every previous collider is handed back for despawning");
    assert_eq!(spawned.rectangles(), &second);
}
