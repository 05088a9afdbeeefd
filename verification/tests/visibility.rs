use dungeon_core::fov::cell_visible;
use dungeon_core::fov::Visibility;
use dungeon_core::grid::Grid;
use dungeon_core::object::Color;
use dungeon_core::object::Object;
use dungeon_core::tile::Tile;
use dungeon_core::view::cell_color;
use dungeon_core::view::cell_view;
use dungeon_core::view::visible_objects;
use dungeon_core::view::CellView;
use dungeon_core::FOV_LIGHT_WALLS;
use dungeon_core::MAP_HEIGHT;
use dungeon_core::MAP_WIDTH;
use dungeon_core::TORCH_RADIUS;

fn open_grid() -> Grid {
    let mut g = Grid::new(MAP_WIDTH, MAP_HEIGHT);
    for x in 0..MAP_WIDTH {
        for y in 0..MAP_HEIGHT {
            g.set_tile(x, y, Tile::empty());
        }
    }
    g
}

/// Scenario: in a fully open grid, exactly the cells within Euclidean
/// distance of the radius are visible; after moving the origin, cells out
/// of the new radius go dark but stay explored.
#[test]
fn open_grid_visibility_is_exactly_the_radius_disk() {
    let mut grid = open_grid();
    let mut vis = Visibility::new(MAP_WIDTH, MAP_HEIGHT);
    let (ox, oy) = (40, 22);
    vis.recompute_from(&mut grid, ox, oy, TORCH_RADIUS, FOV_LIGHT_WALLS);
    for x in 0..MAP_WIDTH {
        for y in 0..MAP_HEIGHT {
            let d2 = (x - ox) * (x - ox) + (y - oy) * (y - oy);
            let within = d2 <= TORCH_RADIUS * TORCH_RADIUS;
            assert_eq!(vis.is_visible(x, y), within, "cell ({x},{y})");
            assert_eq!(grid.explored(x, y), within, "cell ({x},{y})");
        }
    }
    vis.recompute_from(&mut grid, 10, 10, TORCH_RADIUS, FOV_LIGHT_WALLS);
    assert!(!vis.is_visible(40, 22));
    assert!(grid.explored(40, 22));
    assert!(vis.is_visible(10, 10));
    assert!(grid.explored(10, 10));
}

/// Every visible cell is explored, at every recomputation.
#[test]
fn visible_implies_explored() {
    let mut grid = open_grid();
    grid.set_tile(42, 22, Tile::wall());
    let mut vis = Visibility::new(MAP_WIDTH, MAP_HEIGHT);
    vis.recompute_from(&mut grid, 40, 22, TORCH_RADIUS, FOV_LIGHT_WALLS);
    for x in 0..MAP_WIDTH {
        for y in 0..MAP_HEIGHT {
            if vis.is_visible(x, y) {
                assert!(grid.explored(x, y), "cell ({x},{y})");
            }
        }
    }
}

/// Explored never goes back to false, over repeated recomputations.
#[test]
fn explored_is_monotonic() {
    let mut grid = open_grid();
    let mut vis = Visibility::new(MAP_WIDTH, MAP_HEIGHT);
    let origins = [(5, 5), (70, 40), (5, 40), (40, 22), (5, 5)];
    let mut explored_before = vec![vec![false; MAP_HEIGHT as usize]; MAP_WIDTH as usize];
    for (ox, oy) in origins {
        vis.recompute_from(&mut grid, ox, oy, TORCH_RADIUS, FOV_LIGHT_WALLS);
        for x in 0..MAP_WIDTH {
            for y in 0..MAP_HEIGHT {
                let now = grid.explored(x, y);
                assert!(!explored_before[x as usize][y as usize] || now, "cell ({x},{y})");
                explored_before[x as usize][y as usize] = now;
            }
        }
    }
}

/// A sight-blocking cell cuts the line of sight behind it; the wall itself
/// is lit only while walls are lit.
#[test]
fn walls_terminate_lines_of_sight() {
    let mut grid = open_grid();
    grid.set_tile(7, 5, Tile::wall());
    assert!(cell_visible(&grid, 5, 5, 6, 5, TORCH_RADIUS, true));
    assert!(cell_visible(&grid, 5, 5, 7, 5, TORCH_RADIUS, true));
    assert!(!cell_visible(&grid, 5, 5, 9, 5, TORCH_RADIUS, true));
    assert!(!cell_visible(&grid, 5, 5, 7, 5, TORCH_RADIUS, false));
    assert!(cell_visible(&grid, 5, 5, 5, 5, TORCH_RADIUS, false));
}

#[test]
fn out_of_radius_is_never_visible() {
    let grid = open_grid();
    assert!(!cell_visible(&grid, 5, 5, 16, 5, 10, true));
    assert!(cell_visible(&grid, 5, 5, 15, 5, 10, true));
    assert!(!cell_visible(&grid, 5, 5, 13, 12, 10, true));
}

/// Recomputation is skipped while the origin stands still.
#[test]
fn recompute_skipped_for_same_origin() {
    let mut grid = open_grid();
    let mut vis = Visibility::new(MAP_WIDTH, MAP_HEIGHT);
    assert!(vis.recompute_if_moved(&mut grid, 10, 10, TORCH_RADIUS, FOV_LIGHT_WALLS));
    assert!(!vis.recompute_if_moved(&mut grid, 10, 10, TORCH_RADIUS, FOV_LIGHT_WALLS));
    assert!(vis.recompute_if_moved(&mut grid, 11, 10, TORCH_RADIUS, FOV_LIGHT_WALLS));
    assert!(vis.recompute_if_moved(&mut grid, 10, 10, TORCH_RADIUS, FOV_LIGHT_WALLS));
}

/// The renderer's three-way classification and its palette.
#[test]
fn cell_views_and_colors() {
    let mut grid = open_grid();
    grid.set_tile(12, 10, Tile::wall());
    let mut vis = Visibility::new(MAP_WIDTH, MAP_HEIGHT);
    vis.recompute_from(&mut grid, 10, 10, 5, true);

    assert_eq!(cell_view(&grid, &vis, 11, 10), CellView::Lit { wall: false });
    assert_eq!(cell_view(&grid, &vis, 12, 10), CellView::Lit { wall: true });
    assert_eq!(cell_view(&grid, &vis, 70, 40), CellView::Unexplored);

    vis.recompute_from(&mut grid, 60, 40, 5, true);
    assert_eq!(cell_view(&grid, &vis, 11, 10), CellView::Remembered { wall: false });
    assert_eq!(cell_view(&grid, &vis, 12, 10), CellView::Remembered { wall: true });

    assert_eq!(cell_color(CellView::Unexplored), None);
    assert_eq!(cell_color(CellView::Remembered { wall: true }), Some(Color { r: 0, g: 0, b: 100 }));
    assert_eq!(
        cell_color(CellView::Remembered { wall: false }),
        Some(Color { r: 50, g: 50, b: 100 })
    );
    assert_eq!(cell_color(CellView::Lit { wall: true }), Some(Color { r: 130, g: 110, b: 50 }));
    assert_eq!(cell_color(CellView::Lit { wall: false }), Some(Color { r: 200, g: 180, b: 50 }));
}

/// Only entities on currently visible cells are in the draw snapshot.
#[test]
fn snapshot_lists_exactly_the_visible_entities() {
    let mut grid = open_grid();
    let mut vis = Visibility::new(MAP_WIDTH, MAP_HEIGHT);
    vis.recompute_from(&mut grid, 10, 10, 5, true);
    let mk = |x, y, g| Object::new(x, y, g, "thing", Color { r: 1, g: 2, b: 3 }, true);
    let objects = vec![mk(10, 10, '@'), mk(60, 40, 'T'), mk(12, 10, 'O'), mk(10, 16, 'x')];
    let ids = visible_objects(&vis, &objects);
    assert_eq!(ids, vec![0, 2]);
}

/// The sight line between two diagonal cells runs through the rounded
/// sample cells and no others.
#[test]
fn diagonal_ray_samples_exact_cells() {
    let mut grid = open_grid();
    grid.set_tile(7, 6, Tile::wall());
    assert!(!cell_visible(&grid, 5, 5, 8, 7, TORCH_RADIUS, true));
    let mut grid2 = open_grid();
    grid2.set_tile(7, 7, Tile::wall());
    assert!(cell_visible(&grid2, 5, 5, 8, 7, TORCH_RADIUS, true));
    let mut grid3 = open_grid();
    grid3.set_tile(6, 6, Tile::wall());
    assert!(!cell_visible(&grid3, 5, 5, 8, 7, TORCH_RADIUS, true));
}

/// Marking a cell explored is permanent and idempotent, and touches only
/// that cell.
#[test]
fn set_explored_is_idempotent_and_local() {
    let mut grid = open_grid();
    assert!(!grid.explored(3, 3));
    grid.set_explored(3, 3);
    assert!(grid.explored(3, 3));
    grid.set_explored(3, 3);
    assert!(grid.explored(3, 3));
    assert!(!grid.explored(3, 4));
    assert!(!grid.explored(4, 3));
    assert!(!grid.blocked(3, 3));
}
