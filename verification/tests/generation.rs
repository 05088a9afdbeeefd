use dungeon_core::grid::Grid;
use dungeon_core::mapgen::connect_rooms;
use dungeon_core::mapgen::create_h_tunnel;
use dungeon_core::mapgen::create_room;
use dungeon_core::mapgen::create_v_tunnel;
use dungeon_core::mapgen::make_map;
use dungeon_core::mapgen::place_objects;
use dungeon_core::object::Color;
use dungeon_core::object::Object;
use dungeon_core::rect::Rect;
use dungeon_core::rng::seed_rng;
use dungeon_core::tile::Tile;
use dungeon_core::MAP_HEIGHT;
use dungeon_core::MAP_WIDTH;
use dungeon_core::MAX_ROOM_MONSTERS;
use dungeon_core::PLAYER;
use dungeon_core::ROOM_MAX_SIZE;
use dungeon_core::ROOM_MIN_SIZE;

fn player() -> Object {
    let mut p = Object::new(0, 0, '@', "player", Color { r: 255, g: 255, b: 255 }, true);
    p.alive = true;
    p
}

#[test]
fn rect_new_and_center() {
    let r = Rect::new(2, 3, 6, 6);
    assert_eq!(r.x1, 2);
    assert_eq!(r.y1, 3);
    assert_eq!(r.x2, 8);
    assert_eq!(r.y2, 9);
    assert_eq!(r.center(), (5, 6));
}

#[test]
fn rect_touching_edges_count_as_intersecting() {
    let a = Rect::new(0, 0, 4, 4);
    let b = Rect::new(4, 0, 4, 4);
    let c = Rect::new(9, 9, 3, 3);
    assert!(a.intersects_with(&b));
    assert!(b.intersects_with(&a));
    assert!(!a.intersects_with(&c));
    assert!(a.intersects_with(&a));
}

#[test]
fn tile_constructors() {
    let e = Tile::empty();
    assert!(!e.blocked && !e.block_sight && !e.explored);
    let w = Tile::wall();
    assert!(w.blocked && w.block_sight && !w.explored);
}

#[test]
fn fresh_grid_is_all_walls() {
    let g = Grid::new(MAP_WIDTH, MAP_HEIGHT);
    assert_eq!(g.width, MAP_WIDTH);
    assert_eq!(g.height, MAP_HEIGHT);
    for x in 0..MAP_WIDTH {
        for y in 0..MAP_HEIGHT {
            assert!(g.blocked(x, y));
            assert!(g.blocks_sight(x, y));
            assert!(!g.explored(x, y));
        }
    }
}

/// Accepted rooms never overlap, under the inclusive-boundary test.
#[test]
fn generated_rooms_do_not_overlap() {
    let mut rng = seed_rng(42);
    let mut objects = vec![player()];
    let (_grid, rooms) = make_map(&mut rng, &mut objects);
    assert!(!rooms.is_empty());
    for i in 0..rooms.len() {
        for j in 0..rooms.len() {
            if i != j {
                assert!(!rooms[i].intersects_with(&rooms[j]));
            }
        }
    }
}

/// The player ends at the center of the first accepted room.
#[test]
fn player_starts_at_first_room_center() {
    let mut rng = seed_rng(7);
    let mut objects = vec![player()];
    let (_grid, rooms) = make_map(&mut rng, &mut objects);
    assert!(!rooms.is_empty());
    let (cx, cy) = rooms[0].center();
    assert_eq!(objects[PLAYER].pos(), (cx, cy));
}

#[test]
fn generated_rooms_fit_the_map_with_margin() {
    let mut rng = seed_rng(99);
    let mut objects = vec![player()];
    let (grid, rooms) = make_map(&mut rng, &mut objects);
    for r in &rooms {
        assert!(0 <= r.x1 && r.x2 <= MAP_WIDTH - 1);
        assert!(0 <= r.y1 && r.y2 <= MAP_HEIGHT - 1);
        assert!(ROOM_MIN_SIZE <= r.x2 - r.x1 && r.x2 - r.x1 <= ROOM_MAX_SIZE);
        assert!(ROOM_MIN_SIZE <= r.y2 - r.y1 && r.y2 - r.y1 <= ROOM_MAX_SIZE);
        for x in (r.x1 + 1)..r.x2 {
            for y in (r.y1 + 1)..r.y2 {
                assert!(!grid.blocked(x, y));
            }
        }
    }
}

fn h_seg_clear(grid: &Grid, xa: i32, xb: i32, y: i32) -> bool {
    let (lo, hi) = if xa < xb { (xa, xb) } else { (xb, xa) };
    (lo..=hi).all(|x| !grid.blocked(x, y))
}

fn v_seg_clear(grid: &Grid, ya: i32, yb: i32, x: i32) -> bool {
    let (lo, hi) = if ya < yb { (ya, yb) } else { (yb, ya) };
    (lo..=hi).all(|y| !grid.blocked(x, y))
}

/// Each consecutive pair of rooms is joined by a clear L-shaped corridor in
/// at least one of its two orientations.
#[test]
fn consecutive_rooms_are_connected() {
    let mut rng = seed_rng(2024);
    let mut objects = vec![player()];
    let (grid, rooms) = make_map(&mut rng, &mut objects);
    assert!(rooms.len() >= 2);
    for w in rooms.windows(2) {
        let a = w[0].center();
        let b = w[1].center();
        let horiz_first = h_seg_clear(&grid, a.0, b.0, a.1) && v_seg_clear(&grid, a.1, b.1, b.0);
        let vert_first = v_seg_clear(&grid, a.1, b.1, a.0) && h_seg_clear(&grid, a.0, b.0, b.1);
        assert!(horiz_first || vert_first);
    }
}

/// The same seed reproduces an identical layout.
#[test]
fn generation_is_deterministic_under_a_seed() {
    let mut rng1 = seed_rng(1234);
    let mut objects1 = vec![player()];
    let (grid1, rooms1) = make_map(&mut rng1, &mut objects1);
    let mut rng2 = seed_rng(1234);
    let mut objects2 = vec![player()];
    let (grid2, rooms2) = make_map(&mut rng2, &mut objects2);
    assert_eq!(rooms1.len(), rooms2.len());
    for (a, b) in rooms1.iter().zip(rooms2.iter()) {
        assert_eq!((a.x1, a.y1, a.x2, a.y2), (b.x1, b.y1, b.x2, b.y2));
    }
    for x in 0..MAP_WIDTH {
        for y in 0..MAP_HEIGHT {
            assert_eq!(grid1.blocked(x, y), grid2.blocked(x, y));
            assert_eq!(grid1.blocks_sight(x, y), grid2.blocks_sight(x, y));
        }
    }
    assert_eq!(objects1.len(), objects2.len());
}

/// Scenario: two fixed non-overlapping rooms carved by hand give exactly
/// the expected open cells — the two interiors plus the L-shaped tunnel
/// between the centers.
#[test]
fn fixed_two_room_layout_carves_expected_cells() {
    let mut grid = Grid::new(MAP_WIDTH, MAP_HEIGHT);
    let r1 = Rect::new(10, 10, 6, 6);
    let r2 = Rect::new(30, 20, 6, 6);
    assert!(!r1.intersects_with(&r2));
    create_room(r1, &mut grid);
    create_room(r2, &mut grid);
    let c1 = r1.center();
    let c2 = r2.center();
    assert_eq!(c1, (13, 13));
    assert_eq!(c2, (33, 23));
    connect_rooms(c1, c2, true, &mut grid);
    for x in 0..MAP_WIDTH {
        for y in 0..MAP_HEIGHT {
            let in_r1 = r1.x1 < x && x < r1.x2 && r1.y1 < y && y < r1.y2;
            let in_r2 = r2.x1 < x && x < r2.x2 && r2.y1 < y && y < r2.y2;
            let on_h = y == 13 && (13..=33).contains(&x);
            let on_v = x == 33 && (13..=23).contains(&y);
            let open = in_r1 || in_r2 || on_h || on_v;
            assert_eq!(grid.blocked(x, y), !open, "cell ({x},{y})");
            assert_eq!(grid.blocks_sight(x, y), !open, "cell ({x},{y})");
        }
    }
}

#[test]
fn tunnels_span_both_endpoints_in_either_direction() {
    let mut grid = Grid::new(MAP_WIDTH, MAP_HEIGHT);
    create_h_tunnel(20, 5, 7, &mut grid);
    for x in 5..=20 {
        assert!(!grid.blocked(x, 7));
    }
    assert!(grid.blocked(4, 7));
    assert!(grid.blocked(21, 7));
    create_v_tunnel(30, 12, 40, &mut grid);
    for y in 12..=30 {
        assert!(!grid.blocked(40, y));
    }
    assert!(grid.blocked(40, 11));
    assert!(grid.blocked(40, 31));
}

/// Monsters land on open interior cells, at distinct positions, and never
/// more than the per-room cap.
#[test]
fn monsters_spawn_inside_the_room_on_open_cells() {
    let mut grid = Grid::new(MAP_WIDTH, MAP_HEIGHT);
    let room = Rect::new(10, 10, 8, 8);
    create_room(room, &mut grid);
    let mut found_any = false;
    for seed in 0..20u64 {
        let mut rng = seed_rng(seed);
        let mut objects = vec![player()];
        place_objects(room, &grid, &mut objects, &mut rng);
        assert!(objects.len() <= 1 + MAX_ROOM_MONSTERS as usize);
        for m in &objects[1..] {
            found_any = true;
            assert!(m.alive);
            assert!(m.blocks);
            assert!(room.x1 < m.x && m.x < room.x2);
            assert!(room.y1 < m.y && m.y < room.y2);
            assert!(!grid.blocked(m.x, m.y));
            assert!(m.glyph == 'O' || m.glyph == 'T');
            if m.glyph == 'O' {
                assert_eq!(m.name, "orc");
            } else {
                assert_eq!(m.name, "troll");
            }
        }
        for i in 1..objects.len() {
            for j in 1..objects.len() {
                if i != j {
                    assert_ne!(objects[i].pos(), objects[j].pos());
                }
            }
        }
    }
    assert!(found_any);
}
