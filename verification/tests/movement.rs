use dungeon_core::action::is_blocked;
use dungeon_core::action::move_by;
use dungeon_core::action::player_move_or_attack;
use dungeon_core::action::resolve_intent;
use dungeon_core::action::Intent;
use dungeon_core::action::PlayerAction;
use dungeon_core::grid::Grid;
use dungeon_core::object::Color;
use dungeon_core::object::Object;
use dungeon_core::tile::Tile;
use dungeon_core::MAP_HEIGHT;
use dungeon_core::MAP_WIDTH;
use dungeon_core::PLAYER;

fn open_grid() -> Grid {
    let mut g = Grid::new(MAP_WIDTH, MAP_HEIGHT);
    for x in 0..MAP_WIDTH {
        for y in 0..MAP_HEIGHT {
            g.set_tile(x, y, Tile::empty());
        }
    }
    g
}

fn actor(x: i32, y: i32, glyph: char, name: &str, blocks: bool) -> Object {
    let mut o = Object::new(x, y, glyph, name, Color { r: 200, g: 200, b: 200 }, blocks);
    o.alive = true;
    o
}

/// Scenario: on an otherwise-open grid with two manually blocked cells, an
/// entity adjacent to one of them cannot step onto it.
#[test]
fn step_onto_blocked_cell_is_a_no_op() {
    let mut grid = open_grid();
    grid.set_tile(30, 22, Tile::wall());
    grid.set_tile(50, 22, Tile::wall());
    let mut objects = vec![actor(29, 22, '@', "player", true)];
    move_by(0, 1, 0, &grid, &mut objects);
    assert_eq!(objects[0].pos(), (29, 22));
    move_by(0, -1, 0, &grid, &mut objects);
    assert_eq!(objects[0].pos(), (28, 22));
}

/// A terrain-blocked cell reports blocked whether or not an entity stands
/// near or on it.
#[test]
fn terrain_block_is_independent_of_occupancy() {
    let mut grid = open_grid();
    grid.set_tile(30, 22, Tile::wall());
    let empty: Vec<Object> = vec![];
    assert!(is_blocked(30, 22, &grid, &empty));
    let occupied = vec![actor(30, 22, 'O', "orc", true)];
    assert!(is_blocked(30, 22, &grid, &occupied));
    let nonblocking = vec![actor(30, 22, '%', "remains", false)];
    assert!(is_blocked(30, 22, &grid, &nonblocking));
}

#[test]
fn blocking_entity_blocks_and_nonblocking_does_not() {
    let grid = open_grid();
    let objects = vec![actor(5, 5, 'O', "orc", true), actor(6, 5, '%', "remains", false)];
    assert!(is_blocked(5, 5, &grid, &objects));
    assert!(!is_blocked(6, 5, &grid, &objects));
    assert!(!is_blocked(7, 5, &grid, &objects));
}

/// A step that is taken never lands on a blocked tile or another blocking
/// entity; a step that would is rejected with the position unchanged.
#[test]
fn move_never_lands_on_blocked_or_occupied() {
    let mut grid = open_grid();
    grid.set_tile(10, 10, Tile::wall());
    let mut objects = vec![actor(9, 10, '@', "player", true), actor(9, 11, 'O', "orc", true)];
    move_by(0, 1, 0, &grid, &mut objects);
    assert_eq!(objects[0].pos(), (9, 10));
    move_by(0, 0, 1, &grid, &mut objects);
    assert_eq!(objects[0].pos(), (9, 10));
    move_by(0, -1, 0, &grid, &mut objects);
    assert_eq!(objects[0].pos(), (8, 10));
    assert!(!grid.blocked(8, 10));
    assert_ne!(objects[1].pos(), objects[0].pos());
}

/// Scenario: moving toward a cell occupied by a non-player blocking entity
/// reports an interaction and moves nobody.
#[test]
fn move_or_attack_reports_occupant_and_moves_nobody() {
    let grid = open_grid();
    let mut objects = vec![actor(5, 5, '@', "player", true), actor(6, 5, 'O', "orc", true)];
    let target = player_move_or_attack(1, 0, &grid, &mut objects);
    assert_eq!(target, Some(1));
    assert_eq!(objects[0].pos(), (5, 5));
    assert_eq!(objects[1].pos(), (6, 5));
}

#[test]
fn move_or_attack_moves_into_free_cell() {
    let grid = open_grid();
    let mut objects = vec![actor(5, 5, '@', "player", true)];
    let target = player_move_or_attack(0, 1, &grid, &mut objects);
    assert_eq!(target, None);
    assert_eq!(objects[0].pos(), (5, 6));
}

#[test]
fn resolve_intent_outcomes() {
    let grid = open_grid();
    let mut objects = vec![actor(5, 5, '@', "player", true), actor(6, 5, 'O', "orc", true)];

    let (action, target) = resolve_intent(Intent::Quit, &grid, &mut objects);
    assert_eq!(action, PlayerAction::Exit);
    assert_eq!(target, None);

    let (action, target) = resolve_intent(Intent::ToggleDisplay, &grid, &mut objects);
    assert_eq!(action, PlayerAction::DidntTakeTurn);
    assert_eq!(target, None);
    assert_eq!(objects[0].pos(), (5, 5));

    let (action, target) = resolve_intent(Intent::MoveRight, &grid, &mut objects);
    assert_eq!(action, PlayerAction::TookTurn);
    assert_eq!(target, Some(1));
    assert_eq!(objects[0].pos(), (5, 5));

    let (action, target) = resolve_intent(Intent::MoveUp, &grid, &mut objects);
    assert_eq!(action, PlayerAction::TookTurn);
    assert_eq!(target, None);
    assert_eq!(objects[0].pos(), (5, 4));

    objects[0].alive = false;
    let (action, target) = resolve_intent(Intent::MoveDown, &grid, &mut objects);
    assert_eq!(action, PlayerAction::DidntTakeTurn);
    assert_eq!(target, None);
    assert_eq!(objects[0].pos(), (5, 4));
}

#[test]
fn object_accessors() {
    let mut o = Object::new(3, 4, 'T', "troll", Color { r: 0, g: 127, b: 0 }, true);
    assert_eq!(o.pos(), (3, 4));
    assert_eq!(o.name, "troll");
    assert_eq!(o.glyph, 'T');
    assert!(o.blocks);
    assert!(!o.alive);
    o.set_pos(7, 8);
    assert_eq!(o.pos(), (7, 8));
    assert_eq!(o.name, "troll");
}
