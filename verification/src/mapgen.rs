//! Room placement and tunnel carving: builds the dungeon once at session
//! start, and seeds the entity registry with monsters.
use vstd::prelude::*;
use crate::fov::abs_i;
use crate::grid::Grid;
use crate::object::Color;
use crate::object::Object;
use crate::rect::Rect;
use crate::rng::rng_bool;
use crate::rng::rng_range;
use crate::tile::Tile;
use crate::tile::empty_tile;
use crate::MAP_HEIGHT;
use crate::MAP_WIDTH;
use crate::MAX_ROOMS;
use crate::MAX_ROOM_MONSTERS;
use crate::PLAYER;
use crate::ROOM_MAX_SIZE;
use crate::ROOM_MIN_SIZE;

verus! {

pub open spec fn seg_lo(a: int, b: int) -> int {
    if a < b {
        a
    } else {
        b
    }
}

pub open spec fn seg_hi(a: int, b: int) -> int {
    if a < b {
        b
    } else {
        a
    }
}

/// Every cell of the horizontal segment at row `y` between columns `xa` and
/// `xb` (inclusive of both endpoints) is not blocked.
pub open spec fn h_clear(g: Grid, xa: int, xb: int, y: int) -> bool {
    forall|x: int|
        seg_lo(xa, xb) <= x <= seg_hi(xa, xb) ==> !(#[trigger] g.tile_at(x, y)).blocked
}

/// Every cell of the vertical segment at column `x` between rows `ya` and
/// `yb` (inclusive of both endpoints) is not blocked.
pub open spec fn v_clear(g: Grid, ya: int, yb: int, x: int) -> bool {
    forall|y: int|
        seg_lo(ya, yb) <= y <= seg_hi(ya, yb) ==> !(#[trigger] g.tile_at(x, y)).blocked
}

/// The carved L-shaped corridor between `a` and `b` is open end to end:
/// horizontal leg first and vertical leg second, or the other way around.
pub open spec fn l_tunnel_clear(g: Grid, a: (int, int), b: (int, int), horiz_first: bool) -> bool {
    if horiz_first {
        h_clear(g, a.0, b.0, a.1) && v_clear(g, a.1, b.1, b.0)
    } else {
        v_clear(g, a.1, b.1, a.0) && h_clear(g, a.0, b.0, b.1)
    }
}

/// `(x, y)` lies strictly inside `room` (its outermost border excluded).
pub open spec fn in_interior(room: Rect, x: int, y: int) -> bool {
    room.x1 < x < room.x2 && room.y1 < y < room.y2
}

/// No cell that was open becomes blocked: generation only ever carves.
pub open spec fn keeps_open(g1: Grid, g2: Grid) -> bool {
    forall|x: int, y: int|
        g1.in_bounds(x, y) && !g1.tile_at(x, y).blocked ==> !(#[trigger] g2.tile_at(
            x,
            y,
        )).blocked
}

/// Carve the interior of `room` (excluding its outermost border) to open
/// floor; every other cell is untouched.
pub fn create_room(room: Rect, grid: &mut Grid)
    requires
        old(grid).wf(),
        0 <= room.x1 < room.x2 <= old(grid).width,
        0 <= room.y1 < room.y2 <= old(grid).height,
    ensures
        final(grid).wf(),
        final(grid).same_dims(*old(grid)),
        forall|x: int, y: int|
            in_interior(room, x, y) ==> #[trigger] final(grid).tile_at(x, y) == empty_tile(),
        forall|x: int, y: int|
            old(grid).in_bounds(x, y) && !in_interior(room, x, y)
                ==> #[trigger] final(grid).tile_at(x, y) == old(grid).tile_at(x, y),
        keeps_open(*old(grid), *final(grid)),
{
    let mut x = room.x1 + 1;
    while x < room.x2
        invariant
            grid.wf(),
            grid.same_dims(*old(grid)),
            0 <= room.x1 < room.x2 <= grid.width,
            0 <= room.y1 < room.y2 <= grid.height,
            room.x1 + 1 <= x <= room.x2,
            forall|i: int, j: int|
                room.x1 < i < x && room.y1 < j < room.y2 ==> #[trigger] grid.tile_at(i, j)
                    == empty_tile(),
            forall|i: int, j: int|
                old(grid).in_bounds(i, j) && !(room.x1 < i < x && room.y1 < j < room.y2)
                    ==> #[trigger] grid.tile_at(i, j) == old(grid).tile_at(i, j),
        decreases room.x2 - x,
    {
        let mut y = room.y1 + 1;
        while y < room.y2
            invariant
                grid.wf(),
                grid.same_dims(*old(grid)),
                0 <= room.x1 < room.x2 <= grid.width,
                0 <= room.y1 < room.y2 <= grid.height,
                room.x1 + 1 <= x < room.x2,
                room.y1 + 1 <= y <= room.y2,
                forall|i: int, j: int|
                    room.x1 < i < x && room.y1 < j < room.y2 ==> #[trigger] grid.tile_at(i, j)
                        == empty_tile(),
                forall|j: int|
                    room.y1 < j < y ==> #[trigger] grid.tile_at(x as int, j) == empty_tile(),
                forall|i: int, j: int|
                    old(grid).in_bounds(i, j) && !(room.x1 < i < x && room.y1 < j < room.y2) && !(
                    i == x as int && room.y1 < j < y)
                        ==> #[trigger] grid.tile_at(i, j) == old(grid).tile_at(i, j),
            decreases room.y2 - y,
        {
            grid.set_tile(x, y, Tile::empty());
            y = y + 1;
        }
        x = x + 1;
    }
}

/// Carve a one-cell-wide horizontal corridor at row `y` spanning both
/// endpoint columns, overwriting walls along the way.
pub fn create_h_tunnel(x1: i32, x2: i32, y: i32, grid: &mut Grid)
    requires
        old(grid).wf(),
        0 <= seg_lo(x1 as int, x2 as int),
        seg_hi(x1 as int, x2 as int) < old(grid).width,
        0 <= y < old(grid).height,
    ensures
        final(grid).wf(),
        final(grid).same_dims(*old(grid)),
        forall|x: int|
            seg_lo(x1 as int, x2 as int) <= x <= seg_hi(x1 as int, x2 as int)
                ==> #[trigger] final(grid).tile_at(x, y as int) == empty_tile(),
        forall|i: int, j: int|
            old(grid).in_bounds(i, j) && !(j == y as int && seg_lo(x1 as int, x2 as int) <= i
                <= seg_hi(x1 as int, x2 as int))
                ==> #[trigger] final(grid).tile_at(i, j) == old(grid).tile_at(i, j),
        h_clear(*final(grid), x1 as int, x2 as int, y as int),
        keeps_open(*old(grid), *final(grid)),
{
    let lo = if x1 < x2 {
        x1
    } else {
        x2
    };
    let hi = if x1 < x2 {
        x2
    } else {
        x1
    };
    let mut x = lo;
    while x <= hi
        invariant
            grid.wf(),
            grid.same_dims(*old(grid)),
            0 <= lo,
            hi < grid.width,
            0 <= y < grid.height,
            lo as int == seg_lo(x1 as int, x2 as int),
            hi as int == seg_hi(x1 as int, x2 as int),
            lo <= x <= hi + 1,
            forall|i: int|
                lo <= i < x ==> #[trigger] grid.tile_at(i, y as int) == empty_tile(),
            forall|i: int, j: int|
                old(grid).in_bounds(i, j) && !(j == y as int && lo <= i < x)
                    ==> #[trigger] grid.tile_at(i, j) == old(grid).tile_at(i, j),
        decreases hi - x + 1,
    {
        grid.set_tile(x, y, Tile::empty());
        x = x + 1;
    }
}

/// Carve a one-cell-wide vertical corridor at column `x` spanning both
/// endpoint rows, overwriting walls along the way.
pub fn create_v_tunnel(y1: i32, y2: i32, x: i32, grid: &mut Grid)
    requires
        old(grid).wf(),
        0 <= seg_lo(y1 as int, y2 as int),
        seg_hi(y1 as int, y2 as int) < old(grid).height,
        0 <= x < old(grid).width,
    ensures
        final(grid).wf(),
        final(grid).same_dims(*old(grid)),
        forall|y: int|
            seg_lo(y1 as int, y2 as int) <= y <= seg_hi(y1 as int, y2 as int)
                ==> #[trigger] final(grid).tile_at(x as int, y) == empty_tile(),
        forall|i: int, j: int|
            old(grid).in_bounds(i, j) && !(i == x as int && seg_lo(y1 as int, y2 as int) <= j
                <= seg_hi(y1 as int, y2 as int))
                ==> #[trigger] final(grid).tile_at(i, j) == old(grid).tile_at(i, j),
        v_clear(*final(grid), y1 as int, y2 as int, x as int),
        keeps_open(*old(grid), *final(grid)),
{
    let lo = if y1 < y2 {
        y1
    } else {
        y2
    };
    let hi = if y1 < y2 {
        y2
    } else {
        y1
    };
    let mut y = lo;
    while y <= hi
        invariant
            grid.wf(),
            grid.same_dims(*old(grid)),
            0 <= lo,
            hi < grid.height,
            0 <= x < grid.width,
            lo as int == seg_lo(y1 as int, y2 as int),
            hi as int == seg_hi(y1 as int, y2 as int),
            lo <= y <= hi + 1,
            forall|j: int|
                lo <= j < y ==> #[trigger] grid.tile_at(x as int, j) == empty_tile(),
            forall|i: int, j: int|
                old(grid).in_bounds(i, j) && !(i == x as int && lo <= j < y)
                    ==> #[trigger] grid.tile_at(i, j) == old(grid).tile_at(i, j),
        decreases hi - y + 1,
    {
        grid.set_tile(x, y, Tile::empty());
        y = y + 1;
    }
}

/// Carve the L-shaped tunnel joining `a` to `b`: the horizontal leg first
/// when `horiz_first` holds, the vertical leg first otherwise.
pub fn connect_rooms(a: (i32, i32), b: (i32, i32), horiz_first: bool, grid: &mut Grid)
    requires
        old(grid).wf(),
        old(grid).in_bounds(a.0 as int, a.1 as int),
        old(grid).in_bounds(b.0 as int, b.1 as int),
    ensures
        final(grid).wf(),
        final(grid).same_dims(*old(grid)),
        l_tunnel_clear(*final(grid), (a.0 as int, a.1 as int), (b.0 as int, b.1 as int), horiz_first),
        keeps_open(*old(grid), *final(grid)),
        horiz_first ==> forall|i: int, j: int|
            old(grid).in_bounds(i, j) && !(j == a.1 as int && seg_lo(a.0 as int, b.0 as int) <= i
                <= seg_hi(a.0 as int, b.0 as int)) && !(i == b.0 as int && seg_lo(
                a.1 as int,
                b.1 as int,
            ) <= j <= seg_hi(a.1 as int, b.1 as int))
                ==> #[trigger] final(grid).tile_at(i, j) == old(grid).tile_at(i, j),
        !horiz_first ==> forall|i: int, j: int|
            old(grid).in_bounds(i, j) && !(i == a.0 as int && seg_lo(a.1 as int, b.1 as int) <= j
                <= seg_hi(a.1 as int, b.1 as int)) && !(j == b.1 as int && seg_lo(
                a.0 as int,
                b.0 as int,
            ) <= i <= seg_hi(a.0 as int, b.0 as int))
                ==> #[trigger] final(grid).tile_at(i, j) == old(grid).tile_at(i, j),
{
    if horiz_first {
        create_h_tunnel(a.0, b.0, a.1, grid);
        create_v_tunnel(a.1, b.1, b.0, grid);
    } else {
        create_v_tunnel(a.1, b.1, a.0, grid);
        create_h_tunnel(a.0, b.0, b.1, grid);
    }
}

/// Spawn up to `MAX_ROOM_MONSTERS` monsters at random interior cells of
/// `room`; a draw that lands on a blocked or occupied cell is skipped, not
/// retried. Kinds are weighted: four in five draws give the weak variant.
pub fn place_objects(room: Rect, grid: &Grid, objects: &mut Vec<Object>, rng: &mut rand::rngs::StdRng)
    requires
        grid.wf(),
        0 <= room.x1,
        room.x1 + 1 < room.x2 <= grid.width,
        0 <= room.y1,
        room.y1 + 1 < room.y2 <= grid.height,
    ensures
        old(objects)@.len() <= final(objects)@.len() <= old(objects)@.len()
            + MAX_ROOM_MONSTERS as int,
        forall|j: int|
            0 <= j < old(objects)@.len() ==> #[trigger] final(objects)@[j] == old(objects)@[j],
        forall|j: int|
            old(objects)@.len() <= j < final(objects)@.len() ==> {
                let m = #[trigger] final(objects)@[j];
                &&& m.alive
                &&& m.blocks
                &&& in_interior(room, m.x as int, m.y as int)
                &&& !grid.tile_at(m.x as int, m.y as int).blocked
            },
        forall|j: int, k: int|
            old(objects)@.len() <= j < final(objects)@.len() && 0 <= k < j
                && (#[trigger] final(objects)@[k]).blocks
                ==> !(final(objects)@[k].x == final(objects)@[j].x
                && final(objects)@[k].y == (#[trigger] final(objects)@[j]).y),
{
    let num_monsters = rng_range(rng, 0, MAX_ROOM_MONSTERS + 1);
    let ghost len0 = objects@.len() as int;
    let mut m: i32 = 0;
    while m < num_monsters
        invariant
            grid.wf(),
            0 <= room.x1,
            room.x1 + 1 < room.x2 <= grid.width,
            0 <= room.y1,
            room.y1 + 1 < room.y2 <= grid.height,
            0 <= m <= num_monsters <= MAX_ROOM_MONSTERS as int,
            len0 == old(objects)@.len(),
            len0 <= objects@.len() <= len0 + m as int,
            forall|j: int| 0 <= j < len0 ==> #[trigger] objects@[j] == old(objects)@[j],
            forall|j: int|
                len0 <= j < objects@.len() ==> {
                    let mo = #[trigger] objects@[j];
                    &&& mo.alive
                    &&& mo.blocks
                    &&& in_interior(room, mo.x as int, mo.y as int)
                    &&& !grid.tile_at(mo.x as int, mo.y as int).blocked
                },
            forall|j: int, k: int|
                len0 <= j < objects@.len() && 0 <= k < j && (#[trigger] objects@[k]).blocks ==> !(
                objects@[k].x == objects@[j].x && objects@[k].y == (#[trigger] objects@[j]).y),
        decreases num_monsters - m,
    {
        let x = rng_range(rng, room.x1 + 1, room.x2);
        let y = rng_range(rng, room.y1 + 1, room.y2);
        if !crate::action::is_blocked(x, y, grid, objects) {
            let kind = rng_range(rng, 0, 5);
            let mut monster = if kind < 4 {
                Object::new(x, y, 'O', "orc", Color { r: 63, g: 127, b: 63 }, true)
            } else {
                Object::new(x, y, 'T', "troll", Color { r: 0, g: 127, b: 0 }, true)
            };
            monster.alive = true;
            objects.push(monster);
        }
        m = m + 1;
    }
}

/// Two rooms' centers are joined by a clear L-shaped tunnel in one of its
/// two orientations.
pub open spec fn tunnel_between(g: Grid, a: Rect, b: Rect) -> bool {
    exists|h: bool| l_tunnel_clear(g, a.center_spec(), b.center_spec(), h)
}

/// Two cells one unit step apart, horizontally or vertically.
pub open spec fn adjacent(p: (int, int), q: (int, int)) -> bool {
    abs_i(p.0 - q.0) + abs_i(p.1 - q.1) == 1
}

/// `p` is a connected path of in-bounds, non-blocked cells from `a` to `b`,
/// one unit step at a time.
pub open spec fn is_clear_path(g: Grid, p: Seq<(int, int)>, a: (int, int), b: (int, int)) -> bool {
    &&& p.len() >= 1
    &&& p[0] == a
    &&& p[p.len() - 1] == b
    &&& forall|i: int| 0 <= i < p.len() ==> g.in_bounds((#[trigger] p[i]).0, p[i].1)
    &&& forall|i: int| 0 <= i < p.len() ==> !g.tile_at((#[trigger] p[i]).0, p[i].1).blocked
    &&& forall|i: int| 0 <= i < p.len() - 1 ==> adjacent(#[trigger] p[i], p[i + 1])
}

/// A clear horizontal segment carries a connected path between its
/// endpoints.
proof fn lemma_h_seg_path(g: Grid, xa: int, xb: int, y: int)
    requires
        h_clear(g, xa, xb, y),
        g.in_bounds(xa, y),
        g.in_bounds(xb, y),
    ensures
        exists|p: Seq<(int, int)>| is_clear_path(g, p, (xa, y), (xb, y)),
    decreases abs_i(xb - xa),
{
    if xa == xb {
        let p = seq![(xa, y)];
        assert(!g.tile_at(xa, y).blocked);
        assert(is_clear_path(g, p, (xa, y), (xb, y)));
    } else {
        let step: int = if xb > xa {
            1
        } else {
            -1
        };
        let x1 = xa + step;
        assert forall|x: int| seg_lo(x1, xb) <= x <= seg_hi(x1, xb) implies !(#[trigger] g.tile_at(
            x,
            y,
        )).blocked by {
            assert(seg_lo(xa, xb) <= x <= seg_hi(xa, xb));
        }
        assert(g.in_bounds(x1, y));
        lemma_h_seg_path(g, x1, xb, y);
        let rest = choose|p: Seq<(int, int)>| is_clear_path(g, p, (x1, y), (xb, y));
        let p = seq![(xa, y)] + rest;
        assert(p[0] == (xa, y));
        assert(p[p.len() - 1] == rest[rest.len() - 1]);
        assert(!g.tile_at(xa, y).blocked);
        assert forall|i: int| 0 <= i < p.len() implies g.in_bounds((#[trigger] p[i]).0, p[i].1) by {
            if i >= 1 {
                assert(p[i] == rest[i - 1]);
                assert(g.in_bounds(rest[i - 1].0, rest[i - 1].1));
            }
        }
        assert forall|i: int| 0 <= i < p.len() implies !g.tile_at(
            (#[trigger] p[i]).0,
            p[i].1,
        ).blocked by {
            if i >= 1 {
                assert(p[i] == rest[i - 1]);
                assert(!g.tile_at(rest[i - 1].0, rest[i - 1].1).blocked);
            }
        }
        assert forall|i: int| 0 <= i < p.len() - 1 implies adjacent(#[trigger] p[i], p[i + 1]) by {
            if i == 0 {
                assert(p[1] == rest[0]);
                assert(rest[0] == (x1, y));
            } else {
                assert(p[i] == rest[i - 1]);
                assert(p[i + 1] == rest[i]);
                assert(adjacent(rest[i - 1], rest[i]));
            }
        }
        assert(is_clear_path(g, p, (xa, y), (xb, y)));
    }
}

/// A clear vertical segment carries a connected path between its endpoints.
proof fn lemma_v_seg_path(g: Grid, ya: int, yb: int, x: int)
    requires
        v_clear(g, ya, yb, x),
        g.in_bounds(x, ya),
        g.in_bounds(x, yb),
    ensures
        exists|p: Seq<(int, int)>| is_clear_path(g, p, (x, ya), (x, yb)),
    decreases abs_i(yb - ya),
{
    if ya == yb {
        let p = seq![(x, ya)];
        assert(!g.tile_at(x, ya).blocked);
        assert(is_clear_path(g, p, (x, ya), (x, yb)));
    } else {
        let step: int = if yb > ya {
            1
        } else {
            -1
        };
        let y1 = ya + step;
        assert forall|y: int| seg_lo(y1, yb) <= y <= seg_hi(y1, yb) implies !(#[trigger] g.tile_at(
            x,
            y,
        )).blocked by {
            assert(seg_lo(ya, yb) <= y <= seg_hi(ya, yb));
        }
        assert(g.in_bounds(x, y1));
        lemma_v_seg_path(g, ya + step, yb, x);
        let rest = choose|p: Seq<(int, int)>| is_clear_path(g, p, (x, y1), (x, yb));
        let p = seq![(x, ya)] + rest;
        assert(p[0] == (x, ya));
        assert(p[p.len() - 1] == rest[rest.len() - 1]);
        assert(!g.tile_at(x, ya).blocked);
        assert forall|i: int| 0 <= i < p.len() implies g.in_bounds((#[trigger] p[i]).0, p[i].1) by {
            if i >= 1 {
                assert(p[i] == rest[i - 1]);
                assert(g.in_bounds(rest[i - 1].0, rest[i - 1].1));
            }
        }
        assert forall|i: int| 0 <= i < p.len() implies !g.tile_at(
            (#[trigger] p[i]).0,
            p[i].1,
        ).blocked by {
            if i >= 1 {
                assert(p[i] == rest[i - 1]);
                assert(!g.tile_at(rest[i - 1].0, rest[i - 1].1).blocked);
            }
        }
        assert forall|i: int| 0 <= i < p.len() - 1 implies adjacent(#[trigger] p[i], p[i + 1]) by {
            if i == 0 {
                assert(p[1] == rest[0]);
                assert(rest[0] == (x, y1));
            } else {
                assert(p[i] == rest[i - 1]);
                assert(p[i + 1] == rest[i]);
                assert(adjacent(rest[i - 1], rest[i]));
            }
        }
        assert(is_clear_path(g, p, (x, ya), (x, yb)));
    }
}

/// Two paths that share an endpoint join into one.
proof fn lemma_path_join(
    g: Grid,
    p1: Seq<(int, int)>,
    p2: Seq<(int, int)>,
    a: (int, int),
    c: (int, int),
    b: (int, int),
)
    requires
        is_clear_path(g, p1, a, c),
        is_clear_path(g, p2, c, b),
    ensures
        exists|p: Seq<(int, int)>| is_clear_path(g, p, a, b),
{
    let p = p1 + p2.subrange(1, p2.len() as int);
    assert(p.len() == p1.len() + p2.len() - 1);
    if p2.len() == 1 {
        assert(p =~= p1);
        assert(b == c);
        assert(is_clear_path(g, p, a, b));
    } else {
        assert(p[0] == p1[0]);
        assert(p[p.len() - 1] == p2[p2.len() - 1]);
        assert forall|i: int| 0 <= i < p.len() implies g.in_bounds((#[trigger] p[i]).0, p[i].1) by {
            if i < p1.len() {
                assert(p[i] == p1[i]);
                assert(g.in_bounds(p1[i].0, p1[i].1));
            } else {
                assert(p[i] == p2[i - p1.len() + 1]);
                assert(g.in_bounds(p2[i - p1.len() + 1].0, p2[i - p1.len() + 1].1));
            }
        }
        assert forall|i: int| 0 <= i < p.len() implies !g.tile_at(
            (#[trigger] p[i]).0,
            p[i].1,
        ).blocked by {
            if i < p1.len() {
                assert(p[i] == p1[i]);
                assert(!g.tile_at(p1[i].0, p1[i].1).blocked);
            } else {
                assert(p[i] == p2[i - p1.len() + 1]);
                assert(!g.tile_at(p2[i - p1.len() + 1].0, p2[i - p1.len() + 1].1).blocked);
            }
        }
        assert forall|i: int| 0 <= i < p.len() - 1 implies adjacent(#[trigger] p[i], p[i + 1]) by {
            if i < p1.len() - 1 {
                assert(p[i] == p1[i]);
                assert(p[i + 1] == p1[i + 1]);
                assert(adjacent(p1[i], p1[i + 1]));
            } else if i == p1.len() - 1 {
                assert(p[i] == p1[p1.len() - 1]);
                assert(p[i + 1] == p2[1]);
                assert(adjacent(p2[0], p2[1]));
            } else {
                assert(p[i] == p2[i - p1.len() + 1]);
                assert(p[i + 1] == p2[i - p1.len() + 2]);
                assert(adjacent(p2[i - p1.len() + 1], p2[i - p1.len() + 2]));
            }
        }
        assert(is_clear_path(g, p, a, b));
    }
}

/// An L-shaped tunnel that is clear end to end carries a connected path of
/// in-bounds, non-blocked cells between its endpoints, one unit step at a
/// time.
pub proof fn lemma_l_tunnel_connects(g: Grid, a: (int, int), b: (int, int), h: bool)
    requires
        l_tunnel_clear(g, a, b, h),
        g.in_bounds(a.0, a.1),
        g.in_bounds(b.0, b.1),
    ensures
        exists|p: Seq<(int, int)>| is_clear_path(g, p, a, b),
{
    if h {
        assert(g.in_bounds(b.0, a.1));
        lemma_h_seg_path(g, a.0, b.0, a.1);
        let p1 = choose|p: Seq<(int, int)>| is_clear_path(g, p, (a.0, a.1), (b.0, a.1));
        lemma_v_seg_path(g, a.1, b.1, b.0);
        let p2 = choose|p: Seq<(int, int)>| is_clear_path(g, p, (b.0, a.1), (b.0, b.1));
        assert((a.0, a.1) == a);
        assert((b.0, b.1) == b);
        lemma_path_join(g, p1, p2, a, (b.0, a.1), b);
    } else {
        assert(g.in_bounds(a.0, b.1));
        lemma_v_seg_path(g, a.1, b.1, a.0);
        let p1 = choose|p: Seq<(int, int)>| is_clear_path(g, p, (a.0, a.1), (a.0, b.1));
        lemma_h_seg_path(g, a.0, b.0, b.1);
        let p2 = choose|p: Seq<(int, int)>| is_clear_path(g, p, (a.0, b.1), (b.0, b.1));
        assert((a.0, a.1) == a);
        assert((b.0, b.1) == b);
        lemma_path_join(g, p1, p2, a, (a.0, b.1), b);
    }
}

/// The connectivity law for generated dungeons: each consecutive pair of
/// accepted rooms is joined by a connected path of non-blocked cells
/// between their centers, following the carved L-shaped tunnel.
pub proof fn lemma_consecutive_rooms_connected(g: Grid, rooms: Seq<Rect>, i: int)
    requires
        g.width == MAP_WIDTH,
        g.height == MAP_HEIGHT,
        forall|j: int| 0 <= j < rooms.len() ==> room_in_map(#[trigger] rooms[j]),
        forall|j: int|
            0 <= j < rooms.len() - 1 ==> #[trigger] tunnel_between(g, rooms[j], rooms[j + 1]),
        0 <= i < rooms.len() - 1,
    ensures
        exists|p: Seq<(int, int)>|
            #[trigger] is_clear_path(g, p, rooms[i].center_spec(), rooms[i + 1].center_spec()),
{
    assert(tunnel_between(g, rooms[i], rooms[i + 1]));
    let h = choose|h: bool|
        #[trigger] l_tunnel_clear(g, rooms[i].center_spec(), rooms[i + 1].center_spec(), h);
    assert(room_in_map(rooms[i]));
    assert(room_in_map(rooms[i + 1]));
    lemma_center_in_rect(rooms[i]);
    lemma_center_in_rect(rooms[i + 1]);
    lemma_l_tunnel_connects(g, rooms[i].center_spec(), rooms[i + 1].center_spec(), h);
}

/// Rooms the generation pass may accept: inside the map with a one-cell
/// margin at the right and bottom, and sides within the configured range.
pub open spec fn room_in_map(r: Rect) -> bool {
    &&& 0 <= r.x1
    &&& r.x2 <= MAP_WIDTH - 1
    &&& 0 <= r.y1
    &&& r.y2 <= MAP_HEIGHT - 1
    &&& ROOM_MIN_SIZE <= r.x2 - r.x1 <= ROOM_MAX_SIZE
    &&& ROOM_MIN_SIZE <= r.y2 - r.y1 <= ROOM_MAX_SIZE
}

/// The rounded-down center of a rectangle with ordered sides lies inside it.
pub proof fn lemma_center_in_rect(r: Rect)
    requires
        0 <= r.x1 <= r.x2,
        0 <= r.y1 <= r.y2,
    ensures
        r.x1 <= r.center_spec().0 <= r.x2,
        r.y1 <= r.center_spec().1 <= r.y2,
{
    assert(r.x1 <= (r.x1 + r.x2) / 2 <= r.x2) by (nonlinear_arith)
        requires
            0 <= r.x1 <= r.x2,
    ;
    assert(r.y1 <= (r.y1 + r.y2) / 2 <= r.y2) by (nonlinear_arith)
        requires
            0 <= r.y1 <= r.y2,
    ;
}

/// A clear horizontal segment stays clear in any later grid that keeps
/// open cells open.
proof fn lemma_h_clear_preserved(g1: Grid, g2: Grid, xa: int, xb: int, y: int)
    requires
        keeps_open(g1, g2),
        h_clear(g1, xa, xb, y),
        0 <= seg_lo(xa, xb),
        seg_hi(xa, xb) < g1.width,
        0 <= y < g1.height,
    ensures
        h_clear(g2, xa, xb, y),
{
    assert forall|x: int| seg_lo(xa, xb) <= x <= seg_hi(xa, xb) implies !(#[trigger] g2.tile_at(
        x,
        y,
    )).blocked by {
        assert(!g1.tile_at(x, y).blocked);
        assert(g1.in_bounds(x, y));
        assert(!g2.tile_at(x, y).blocked);
    }
}

/// A clear vertical segment stays clear in any later grid that keeps open
/// cells open.
proof fn lemma_v_clear_preserved(g1: Grid, g2: Grid, ya: int, yb: int, x: int)
    requires
        keeps_open(g1, g2),
        v_clear(g1, ya, yb, x),
        0 <= seg_lo(ya, yb),
        seg_hi(ya, yb) < g1.height,
        0 <= x < g1.width,
    ensures
        v_clear(g2, ya, yb, x),
{
    assert forall|y: int| seg_lo(ya, yb) <= y <= seg_hi(ya, yb) implies !(#[trigger] g2.tile_at(
        x,
        y,
    )).blocked by {
        assert(!g1.tile_at(x, y).blocked);
        assert(g1.in_bounds(x, y));
        assert(!g2.tile_at(x, y).blocked);
    }
}

/// Carving never closes a tunnel: a clear L-shaped corridor between two
/// in-bounds endpoints stays clear in any later grid that keeps open cells
/// open.
pub proof fn lemma_clear_preserved(g1: Grid, g2: Grid, a: (int, int), b: (int, int), h: bool)
    requires
        keeps_open(g1, g2),
        l_tunnel_clear(g1, a, b, h),
        g1.in_bounds(a.0, a.1),
        g1.in_bounds(b.0, b.1),
    ensures
        l_tunnel_clear(g2, a, b, h),
{
    if h {
        lemma_h_clear_preserved(g1, g2, a.0, b.0, a.1);
        lemma_v_clear_preserved(g1, g2, a.1, b.1, b.0);
    } else {
        lemma_v_clear_preserved(g1, g2, a.1, b.1, a.0);
        lemma_h_clear_preserved(g1, g2, a.0, b.0, b.1);
    }
}

/// Each consecutive pair of accepted rooms stays joined by a clear tunnel
/// once the grid has only been carved further.
proof fn lemma_tunnels_preserved(g1: Grid, g2: Grid, rooms: Seq<Rect>)
    requires
        g1.width == MAP_WIDTH,
        g1.height == MAP_HEIGHT,
        keeps_open(g1, g2),
        forall|i: int| 0 <= i < rooms.len() ==> room_in_map(#[trigger] rooms[i]),
        forall|i: int|
            0 <= i < rooms.len() - 1 ==> #[trigger] tunnel_between(g1, rooms[i], rooms[i + 1]),
    ensures
        forall|i: int|
            0 <= i < rooms.len() - 1 ==> #[trigger] tunnel_between(g2, rooms[i], rooms[i + 1]),
{
    assert forall|i: int| 0 <= i < rooms.len() - 1 implies #[trigger] tunnel_between(
        g2,
        rooms[i],
        rooms[i + 1],
    ) by {
        assert(tunnel_between(g1, rooms[i], rooms[i + 1]));
        let h = choose|h: bool|
            #[trigger] l_tunnel_clear(g1, rooms[i].center_spec(), rooms[i + 1].center_spec(), h);
        assert(room_in_map(rooms[i]));
        assert(room_in_map(rooms[i + 1]));
        lemma_center_in_rect(rooms[i]);
        lemma_center_in_rect(rooms[i + 1]);
        lemma_clear_preserved(g1, g2, rooms[i].center_spec(), rooms[i + 1].center_spec(), h);
        assert(l_tunnel_clear(g2, rooms[i].center_spec(), rooms[i + 1].center_spec(), h));
    }
}

/// Build the session's dungeon: attempt up to `MAX_ROOMS` random rooms,
/// reject those that intersect an accepted room, carve the rest, spawn
/// monsters, place the player at the center of the first accepted room and
/// join each later room to its predecessor with an L-shaped tunnel. Returns
/// the grid and the accepted rooms in order.
pub fn make_map(rng: &mut rand::rngs::StdRng, objects: &mut Vec<Object>) -> (res: (Grid, Vec<Rect>))
    requires
        old(objects)@.len() >= 1,
    ensures
        res.0.wf(),
        res.0.width == MAP_WIDTH,
        res.0.height == MAP_HEIGHT,
        1 <= res.1@.len() <= MAX_ROOMS,
        forall|i: int| 0 <= i < res.1@.len() ==> room_in_map(#[trigger] res.1@[i]),
        forall|i: int, j: int|
            0 <= i < j < res.1@.len() ==> !(#[trigger] res.1@[i]).intersects(#[trigger] res.1@[j]),
        forall|i: int, x: int, y: int|
            0 <= i < res.1@.len() && #[trigger] in_interior(res.1@[i], x, y) ==> !res.0.tile_at(
                x,
                y,
            ).blocked,
        forall|i: int|
            0 <= i < res.1@.len() - 1 ==> #[trigger] tunnel_between(res.0, res.1@[i], res.1@[i + 1]),
        res.1@.len() > 0 ==> final(objects)@[PLAYER as int].x as int == res.1@[0].center_spec().0
            && final(objects)@[PLAYER as int].y as int == res.1@[0].center_spec().1,
        res.1@.len() == 0 ==> final(objects)@[PLAYER as int].x == old(objects)@[PLAYER as int].x
            && final(objects)@[PLAYER as int].y == old(objects)@[PLAYER as int].y,
        final(objects)@[PLAYER as int].glyph == old(objects)@[PLAYER as int].glyph,
        final(objects)@[PLAYER as int].color == old(objects)@[PLAYER as int].color,
        final(objects)@[PLAYER as int].name == old(objects)@[PLAYER as int].name,
        final(objects)@[PLAYER as int].blocks == old(objects)@[PLAYER as int].blocks,
        final(objects)@[PLAYER as int].alive == old(objects)@[PLAYER as int].alive,
        old(objects)@.len() <= final(objects)@.len(),
        forall|j: int|
            0 < j < old(objects)@.len() ==> #[trigger] final(objects)@[j] == old(objects)@[j],
        forall|j: int|
            old(objects)@.len() <= j < final(objects)@.len()
                ==> (#[trigger] final(objects)@[j]).alive && final(objects)@[j].blocks,
        forall|j: int|
            old(objects)@.len() <= j < final(objects)@.len() ==> res.0.in_bounds(
                (#[trigger] final(objects)@[j]).x as int,
                final(objects)@[j].y as int,
            ) && !res.0.tile_at(final(objects)@[j].x as int, final(objects)@[j].y as int).blocked,
        res.1@.len() > 0 ==> res.0.in_bounds(
            final(objects)@[PLAYER as int].x as int,
            final(objects)@[PLAYER as int].y as int,
        ),
{
    let mut grid = Grid::new(MAP_WIDTH, MAP_HEIGHT);
    let mut rooms: Vec<Rect> = Vec::new();
    let mut attempt: i32 = 0;
    while attempt < MAX_ROOMS
        invariant
            0 <= attempt <= MAX_ROOMS,
            rooms@.len() <= attempt,
            attempt > 0 ==> rooms@.len() >= 1,
            grid.wf(),
            grid.width == MAP_WIDTH,
            grid.height == MAP_HEIGHT,
            old(objects)@.len() >= 1,
            forall|i: int| 0 <= i < rooms@.len() ==> room_in_map(#[trigger] rooms@[i]),
            forall|i: int, j: int|
                0 <= i < j < rooms@.len() ==> !(#[trigger] rooms@[i]).intersects(
                    #[trigger] rooms@[j],
                ),
            forall|i: int, x: int, y: int|
                0 <= i < rooms@.len() && #[trigger] in_interior(rooms@[i], x, y)
                    ==> !grid.tile_at(x, y).blocked,
            forall|i: int|
                0 <= i < rooms@.len() - 1 ==> #[trigger] tunnel_between(grid, rooms@[i], rooms@[i + 1]),
            rooms@.len() > 0 ==> objects@[PLAYER as int].x as int == rooms@[0].center_spec().0
                && objects@[PLAYER as int].y as int == rooms@[0].center_spec().1,
            rooms@.len() == 0 ==> objects@[PLAYER as int].x == old(objects)@[PLAYER as int].x
                && objects@[PLAYER as int].y == old(objects)@[PLAYER as int].y,
            objects@[PLAYER as int].glyph == old(objects)@[PLAYER as int].glyph,
            objects@[PLAYER as int].color == old(objects)@[PLAYER as int].color,
            objects@[PLAYER as int].name == old(objects)@[PLAYER as int].name,
            objects@[PLAYER as int].blocks == old(objects)@[PLAYER as int].blocks,
            objects@[PLAYER as int].alive == old(objects)@[PLAYER as int].alive,
            old(objects)@.len() <= objects@.len(),
            forall|j: int|
                0 < j < old(objects)@.len() ==> #[trigger] objects@[j] == old(objects)@[j],
            forall|j: int|
                old(objects)@.len() <= j < objects@.len() ==> (#[trigger] objects@[j]).alive
                    && objects@[j].blocks,
            forall|j: int|
                old(objects)@.len() <= j < objects@.len() ==> grid.in_bounds(
                    (#[trigger] objects@[j]).x as int,
                    objects@[j].y as int,
                ) && !grid.tile_at(objects@[j].x as int, objects@[j].y as int).blocked,
            rooms@.len() > 0 ==> grid.in_bounds(
                objects@[PLAYER as int].x as int,
                objects@[PLAYER as int].y as int,
            ),
        decreases MAX_ROOMS - attempt,
    {
        let w = rng_range(rng, ROOM_MIN_SIZE, ROOM_MAX_SIZE + 1);
        let h = rng_range(rng, ROOM_MIN_SIZE, ROOM_MAX_SIZE + 1);
        let x = rng_range(rng, 0, MAP_WIDTH - w);
        let y = rng_range(rng, 0, MAP_HEIGHT - h);
        let new_room = Rect::new(x, y, w, h);

        let mut failed = false;
        let mut i: usize = 0;
        while i < rooms.len()
            invariant
                0 <= i <= rooms@.len(),
                failed == exists|k: int|
                    0 <= k < i as int && new_room.intersects(#[trigger] rooms@[k]),
            decreases rooms@.len() - i,
        {
            if new_room.intersects_with(&rooms[i]) {
                failed = true;
            }
            i = i + 1;
        }

        if !failed {
            let ghost g_before = grid;
            create_room(new_room, &mut grid);
            proof {
                lemma_tunnels_preserved(g_before, grid, rooms@);
            }
            place_objects(new_room, &grid, objects, rng);
            let c_new = new_room.center();
            if rooms.len() == 0 {
                proof {
                    lemma_center_in_rect(new_room);
                }
                objects[PLAYER].set_pos(c_new.0, c_new.1);
            } else {
                let prev = rooms[rooms.len() - 1];
                let c_prev = prev.center();
                let coin = rng_bool(rng);
                proof {
                    lemma_center_in_rect(prev);
                    lemma_center_in_rect(new_room);
                }
                let ghost g_mid = grid;
                connect_rooms(c_prev, c_new, coin, &mut grid);
                proof {
                    lemma_tunnels_preserved(g_mid, grid, rooms@);
                }
            }
            rooms.push(new_room);
        }
        attempt = attempt + 1;
    }
    (grid, rooms)
}

} // verus!
