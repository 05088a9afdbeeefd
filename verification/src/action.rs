//! Collision resolution: whether a cell is passable, and move/attack
//! arbitration for a single actor step.
use vstd::prelude::*;
use crate::grid::Grid;
use crate::object::Object;
use crate::PLAYER;

verus! {

/// Some entity with `blocks = true` occupies `(x, y)`.
pub open spec fn occupied_by_blocker(objects: Seq<Object>, x: int, y: int) -> bool {
    exists|i: int|
        0 <= i < objects.len() && (#[trigger] objects[i]).blocks && objects[i].x == x
            && objects[i].y == y
}

/// Some entity, blocking or not, occupies `(x, y)`.
pub open spec fn occupied(objects: Seq<Object>, x: int, y: int) -> bool {
    exists|i: int| 0 <= i < objects.len() && (#[trigger] objects[i]).x == x && objects[i].y == y
}

/// The cell refuses entry: terrain, or a blocking occupant.
pub open spec fn blocked_spec(g: Grid, objects: Seq<Object>, x: int, y: int) -> bool {
    g.tile_at(x, y).blocked || occupied_by_blocker(objects, x, y)
}

/// The entity `o` relocated to `(x, y)`; every other field kept.
pub open spec fn with_pos(o: Object, x: i32, y: i32) -> Object {
    Object { x: x, y: y, ..o }
}

/// The registry after a validated step of entity `id` by `(dx, dy)`:
/// unchanged when the destination is blocked, else `id` stands at the
/// destination.
pub open spec fn move_by_spec(g: Grid, objects: Seq<Object>, id: int, dx: int, dy: int) -> Seq<
    Object,
> {
    let x = objects[id].x + dx;
    let y = objects[id].y + dy;
    if blocked_spec(g, objects, x, y) {
        objects
    } else {
        objects.update(id, with_pos(objects[id], x as i32, y as i32))
    }
}

/// A movement intent supplied by the external input collaborator. The
/// display toggle is a pass-through with no effect on the core.
#[derive(Clone, Copy, Debug, PartialEq, Eq, Structural)]
pub enum Intent {
    MoveUp,
    MoveDown,
    MoveLeft,
    MoveRight,
    Quit,
    ToggleDisplay,
}

/// Outcome of one turn, consumed by the outer loop to decide whether the
/// non-player actors act.
#[derive(Clone, Copy, Debug, PartialEq, Eq, Structural)]
pub enum PlayerAction {
    TookTurn,
    DidntTakeTurn,
    Exit,
}

pub open spec fn is_move_intent(i: Intent) -> bool {
    match i {
        Intent::Quit => false,
        Intent::ToggleDisplay => false,
        _ => true,
    }
}

pub open spec fn intent_dx(i: Intent) -> int {
    match i {
        Intent::MoveLeft => -1,
        Intent::MoveRight => 1,
        _ => 0,
    }
}

pub open spec fn intent_dy(i: Intent) -> int {
    match i {
        Intent::MoveUp => -1,
        Intent::MoveDown => 1,
        _ => 0,
    }
}

/// What one resolved step of the player leaves behind: either the first
/// occupant of the destination is reported and nobody moves, or nobody
/// occupies the destination and the registry is the validated-move result.
pub open spec fn step_outcome(
    g: Grid,
    before: Seq<Object>,
    after: Seq<Object>,
    dx: int,
    dy: int,
    target: Option<usize>,
) -> bool {
    let x = before[PLAYER as int].x + dx;
    let y = before[PLAYER as int].y + dy;
    match target {
        Some(t) => {
            &&& 0 <= t < before.len()
            &&& before[t as int].x == x
            &&& before[t as int].y == y
            &&& forall|j: int|
                0 <= j < t as int ==> !((#[trigger] before[j]).x == x && before[j].y == y)
            &&& after == before
        },
        None => {
            &&& !occupied(before, x, y)
            &&& after == move_by_spec(g, before, PLAYER as int, dx, dy)
        },
    }
}

/// True if the grid marks the cell blocked, or any entity with
/// `blocks = true` currently occupies it.
pub fn is_blocked(x: i32, y: i32, grid: &Grid, objects: &Vec<Object>) -> (b: bool)
    requires
        grid.wf(),
        grid.in_bounds(x as int, y as int),
    ensures
        b == blocked_spec(*grid, objects@, x as int, y as int),
        grid.tile_at(x as int, y as int).blocked ==> b,
{
    if grid.blocked(x, y) {
        return true;
    }
    let mut i: usize = 0;
    while i < objects.len()
        invariant
            0 <= i <= objects@.len(),
            forall|j: int|
                0 <= j < i as int ==> !((#[trigger] objects@[j]).blocks && objects@[j].x == x
                    && objects@[j].y == y),
        decreases objects@.len() - i,
    {
        if objects[i].blocks && objects[i].x == x && objects[i].y == y {
            return true;
        }
        i = i + 1;
    }
    false
}

/// Move entity `id` by the given step if the destination is not blocked;
/// a blocked destination is a defined no-op, not an error. A step that is
/// taken never leaves the entity on a blocked tile or on a cell occupied
/// by another blocking entity.
pub fn move_by(id: usize, dx: i32, dy: i32, grid: &Grid, objects: &mut Vec<Object>)
    requires
        grid.wf(),
        id < old(objects)@.len(),
        grid.in_bounds(
            old(objects)@[id as int].x + dx,
            old(objects)@[id as int].y + dy,
        ),
    ensures
        final(objects)@ == move_by_spec(*grid, old(objects)@, id as int, dx as int, dy as int),
        final(objects)@.len() == old(objects)@.len(),
        ({
            let after = final(objects)@;
            let me = after[id as int];
            me != old(objects)@[id as int] ==> {
                &&& !grid.tile_at(me.x as int, me.y as int).blocked
                &&& forall|j: int|
                    0 <= j < after.len() && j != id as int && (#[trigger] after[j]).blocks ==> !(
                    after[j].x == me.x && after[j].y == me.y)
            }
        }),
{
    let (x, y) = objects[id].pos();
    if !is_blocked(x + dx, y + dy, grid, objects) {
        objects[id].set_pos(x + dx, y + dy);
        assert(objects@ =~= old(objects)@.update(
            id as int,
            with_pos(old(objects)@[id as int], (x + dx) as i32, (y + dy) as i32),
        ));
    }
}

/// Resolve the player's step toward `(player.x + dx, player.y + dy)`. If any
/// entity occupies the destination, an interaction is reported against the
/// first such entity in registry order and nobody moves; otherwise the step
/// is delegated to `move_by`.
pub fn player_move_or_attack(dx: i32, dy: i32, grid: &Grid, objects: &mut Vec<Object>) -> (target:
    Option<usize>)
    requires
        grid.wf(),
        old(objects)@.len() > 0,
        grid.in_bounds(
            old(objects)@[PLAYER as int].x + dx,
            old(objects)@[PLAYER as int].y + dy,
        ),
    ensures
        step_outcome(*grid, old(objects)@, final(objects)@, dx as int, dy as int, target),
{
    let x = objects[PLAYER].x + dx;
    let y = objects[PLAYER].y + dy;
    let mut i: usize = 0;
    while i < objects.len()
        invariant
            0 <= i <= objects@.len(),
            objects@ == old(objects)@,
            x == old(objects)@[PLAYER as int].x + dx,
            y == old(objects)@[PLAYER as int].y + dy,
            forall|j: int|
                0 <= j < i as int ==> !((#[trigger] objects@[j]).x == x && objects@[j].y == y),
        decreases objects@.len() - i,
    {
        if objects[i].x == x && objects[i].y == y {
            return Some(i);
        }
        i = i + 1;
    }
    move_by(PLAYER, dx, dy, grid, objects);
    None
}

/// The unit step a movement intent asks for; zero for the others.
pub fn intent_delta(intent: Intent) -> (d: (i32, i32))
    ensures
        d.0 == intent_dx(intent),
        d.1 == intent_dy(intent),
{
    match intent {
        Intent::MoveUp => (0, -1),
        Intent::MoveDown => (0, 1),
        Intent::MoveLeft => (-1, 0),
        Intent::MoveRight => (1, 0),
        Intent::Quit => (0, 0),
        Intent::ToggleDisplay => (0, 0),
    }
}

/// Resolve one turn: an intent comes in, one outcome goes out. A movement
/// intent takes a turn only while the player is alive; quitting exits; the
/// display toggle never consumes a turn.
pub fn resolve_intent(intent: Intent, grid: &Grid, objects: &mut Vec<Object>) -> (res: (
    PlayerAction,
    Option<usize>,
))
    requires
        grid.wf(),
        old(objects)@.len() > 0,
        is_move_intent(intent) && old(objects)@[PLAYER as int].alive ==> grid.in_bounds(
            old(objects)@[PLAYER as int].x + intent_dx(intent),
            old(objects)@[PLAYER as int].y + intent_dy(intent),
        ),
    ensures
        intent == Intent::Quit ==> res == (PlayerAction::Exit, Option::<usize>::None)
            && final(objects)@ == old(objects)@,
        intent == Intent::ToggleDisplay ==> res == (PlayerAction::DidntTakeTurn, Option::<
            usize,
        >::None) && final(objects)@ == old(objects)@,
        is_move_intent(intent) && !old(objects)@[PLAYER as int].alive ==> res == (
            PlayerAction::DidntTakeTurn,
            Option::<usize>::None,
        ) && final(objects)@ == old(objects)@,
        is_move_intent(intent) && old(objects)@[PLAYER as int].alive ==> res.0
            == PlayerAction::TookTurn && step_outcome(
            *grid,
            old(objects)@,
            final(objects)@,
            intent_dx(intent),
            intent_dy(intent),
            res.1,
        ),
{
    match intent {
        Intent::Quit => (PlayerAction::Exit, None),
        Intent::ToggleDisplay => (PlayerAction::DidntTakeTurn, None),
        _ => {
            if objects[PLAYER].alive {
                let d = intent_delta(intent);
                let target = player_move_or_attack(d.0, d.1, grid, objects);
                (PlayerAction::TookTurn, target)
            } else {
                (PlayerAction::DidntTakeTurn, None)
            }
        },
    }
}

} // verus!
