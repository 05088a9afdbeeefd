//! Visibility tracking: which cells the observer currently sees, and the
//! permanent `explored` mask accumulated from them.
//!
//! A cell is visible when it lies within the torch radius (Euclidean) and
//! the sampled sight line from the origin reaches it without crossing a
//! sight-blocking cell. The line is sampled at the Chebyshev-distance many
//! evenly spaced points between the endpoints, rounded to cells.
use vstd::prelude::*;
use vstd::arithmetic::div_mod::lemma_div_is_ordered;
use vstd::arithmetic::div_mod::lemma_div_multiples_vanish_fancy;
use vstd::arithmetic::div_mod::lemma_div_pos_is_pos;
use crate::grid::Grid;

verus! {

pub open spec fn abs_i(v: int) -> int {
    if v < 0 {
        -v
    } else {
        v
    }
}

/// Chebyshev distance: the number of sampling steps between the endpoints.
pub open spec fn cheb(ox: int, oy: int, tx: int, ty: int) -> int {
    if abs_i(tx - ox) >= abs_i(ty - oy) {
        abs_i(tx - ox)
    } else {
        abs_i(ty - oy)
    }
}

/// The target lies within the torch radius of the origin.
pub open spec fn within_radius(ox: int, oy: int, tx: int, ty: int, r: int) -> bool {
    (tx - ox) * (tx - ox) + (ty - oy) * (ty - oy) <= r * r
}

/// One axis of the `i`-th sample of the line from `o` to `t` in `n` steps:
/// `o` plus `i * |t - o| / n` rounded to the nearest integer, signed toward
/// `t`. Sample `0` is the origin and sample `n` the target.
pub open spec fn ray_coord(o: int, t: int, n: int, i: int) -> int {
    if t >= o {
        o + (2 * i * (t - o) + n) / (2 * n)
    } else {
        o - (2 * i * (o - t) + n) / (2 * n)
    }
}

pub open spec fn ray_x(ox: int, oy: int, tx: int, ty: int, i: int) -> int {
    ray_coord(ox, tx, cheb(ox, oy, tx, ty), i)
}

pub open spec fn ray_y(ox: int, oy: int, tx: int, ty: int, i: int) -> int {
    ray_coord(oy, ty, cheb(ox, oy, tx, ty), i)
}

/// No sample strictly between origin and target blocks sight.
pub open spec fn ray_clear(g: Grid, ox: int, oy: int, tx: int, ty: int) -> bool {
    forall|i: int|
        1 <= i < cheb(ox, oy, tx, ty) ==> !(#[trigger] g.tile_at(
            ray_x(ox, oy, tx, ty, i),
            ray_y(ox, oy, tx, ty, i),
        )).block_sight
}

/// The visibility oracle: within radius, an unobstructed sampled sight
/// line, and — unless walls are lit — a transparent target. The origin
/// itself is visible whenever it is within the radius.
pub open spec fn visible_spec(
    g: Grid,
    ox: int,
    oy: int,
    tx: int,
    ty: int,
    r: int,
    light_walls: bool,
) -> bool {
    &&& within_radius(ox, oy, tx, ty, r)
    &&& ray_clear(g, ox, oy, tx, ty)
    &&& (light_walls || !g.tile_at(tx, ty).block_sight || (ox == tx && oy == ty))
}

/// Rounded sample coordinate along one axis, staying between `o` and `t`.
fn ray_sample(o: i32, t: i32, n: i32, i: i32) -> (c: i32)
    requires
        0 <= o,
        0 <= t,
        1 <= n,
        0 <= i <= n,
        abs_i(t as int - o as int) <= n as int,
    ensures
        c as int == ray_coord(o as int, t as int, n as int, i as int),
        abs_i(t as int - o as int) == 0 ==> c == o,
        o <= t ==> o <= c <= t,
        t <= o ==> t <= c <= o,
{
    let ad: i32 = if t >= o {
        t - o
    } else {
        o - t
    };
    proof {
        assert((2 * (i as int)) * (ad as int) + (n as int) < 0x8000_0000_0000_0000)
            by (nonlinear_arith)
            requires
                0 <= (i as int) && (i as int) < 0x8000_0000,
                0 <= (ad as int) && (ad as int) < 0x8000_0000,
                0 <= (n as int) && (n as int) < 0x8000_0000,
        ;
    }
    let num: u64 = 2 * (i as u64) * (ad as u64) + (n as u64);
    let den: u64 = 2 * (n as u64);
    let off64: u64 = num / den;
    proof {
        let numi = 2 * (i as int) * (ad as int) + (n as int);
        let deni = 2 * (n as int);
        lemma_div_pos_is_pos(numi, deni);
        assert(numi <= deni * (ad as int) + (n as int)) by (nonlinear_arith)
            requires
                i as int <= n as int,
                0 <= ad as int,
                deni == 2 * (n as int),
                numi == 2 * (i as int) * (ad as int) + (n as int),
        ;
        lemma_div_is_ordered(numi, deni * (ad as int) + (n as int), deni);
        lemma_div_multiples_vanish_fancy(ad as int, n as int, deni);
        assert(numi / deni <= ad as int);
    }
    let off: i32 = off64 as i32;
    if t >= o {
        o + off
    } else {
        o - off
    }
}

/// Whether `(tx, ty)` is visible from `(ox, oy)`: the executable form of
/// the visibility oracle.
pub fn cell_visible(
    grid: &Grid,
    ox: i32,
    oy: i32,
    tx: i32,
    ty: i32,
    radius: i32,
    light_walls: bool,
) -> (v: bool)
    requires
        grid.wf(),
        grid.in_bounds(ox as int, oy as int),
        grid.in_bounds(tx as int, ty as int),
        0 <= radius,
    ensures
        v == visible_spec(
            *grid,
            ox as int,
            oy as int,
            tx as int,
            ty as int,
            radius as int,
            light_walls,
        ),
{
    let dx: i32 = tx - ox;
    let dy: i32 = ty - oy;
    proof {
        assert(0 <= (dx as int) * (dx as int) < 0x4000_0000_0000_0000 && 0 <= (dy as int) * (
        dy as int) < 0x4000_0000_0000_0000 && 0 <= (radius as int) * (radius as int)
            < 0x4000_0000_0000_0000) by (nonlinear_arith)
            requires
                -0x8000_0000 < (dx as int) < 0x8000_0000,
                -0x8000_0000 < (dy as int) < 0x8000_0000,
                0 <= (radius as int) < 0x8000_0000,
        ;
    }
    let d2: i64 = (dx as i64) * (dx as i64) + (dy as i64) * (dy as i64);
    let r2: i64 = (radius as i64) * (radius as i64);
    if d2 > r2 {
        return false;
    }
    if dx == 0 && dy == 0 {
        return true;
    }
    let adx: i32 = if dx < 0 {
        -dx
    } else {
        dx
    };
    let ady: i32 = if dy < 0 {
        -dy
    } else {
        dy
    };
    let n: i32 = if adx >= ady {
        adx
    } else {
        ady
    };
    assert(n as int == cheb(ox as int, oy as int, tx as int, ty as int));
    let mut i: i32 = 1;
    while i < n
        invariant
            grid.wf(),
            grid.in_bounds(ox as int, oy as int),
            grid.in_bounds(tx as int, ty as int),
            1 <= n,
            1 <= i <= n,
            n as int == cheb(ox as int, oy as int, tx as int, ty as int),
            abs_i(tx as int - ox as int) <= n as int,
            abs_i(ty as int - oy as int) <= n as int,
            forall|k: int|
                1 <= k < i as int ==> !(#[trigger] grid.tile_at(
                    ray_x(ox as int, oy as int, tx as int, ty as int, k),
                    ray_y(ox as int, oy as int, tx as int, ty as int, k),
                )).block_sight,
        decreases n - i,
    {
        let sx = ray_sample(ox, tx, n, i);
        let sy = ray_sample(oy, ty, n, i);
        if grid.blocks_sight(sx, sy) {
            proof {
                assert(grid.tile_at(
                    ray_x(ox as int, oy as int, tx as int, ty as int, i as int),
                    ray_y(ox as int, oy as int, tx as int, ty as int, i as int),
                ).block_sight);
            }
            return false;
        }
        i = i + 1;
    }
    assert(ray_clear(*grid, ox as int, oy as int, tx as int, ty as int));
    if light_walls {
        true
    } else {
        !grid.blocks_sight(tx, ty)
    }
}

/// The visibility tracker: a per-cell mask of what the observer currently
/// sees, and the origin used for the last recomputation so a recompute can
/// be skipped while the observer stands still.
pub struct Visibility {
    pub width: i32,
    pub height: i32,
    pub visible: Vec<Vec<bool>>,
    pub prev: Option<(i32, i32)>,
}

impl Visibility {
    pub open spec fn wf(self) -> bool {
        &&& 0 < self.width
        &&& 0 < self.height
        &&& self.visible@.len() == self.width as int
        &&& forall|x: int|
            0 <= x < self.width as int ==> (#[trigger] self.visible@[x])@.len()
                == self.height as int
    }

    pub open spec fn visible_at(self, x: int, y: int) -> bool {
        self.visible@[x]@[y]
    }

    /// The tracker and the grid cover the same rectangle of cells.
    pub open spec fn matches_grid(self, g: Grid) -> bool {
        self.width == g.width && self.height == g.height
    }

    /// A fresh tracker with nothing visible and no cached origin.
    pub fn new(width: i32, height: i32) -> (t: Visibility)
        requires
            1 <= width,
            1 <= height,
        ensures
            t.wf(),
            t.width == width,
            t.height == height,
            t.prev is None,
            forall|x: int, y: int|
                0 <= x < width as int && 0 <= y < height as int ==> !(#[trigger] t.visible_at(
                    x,
                    y,
                )),
    {
        let mut visible: Vec<Vec<bool>> = Vec::new();
        let mut x: i32 = 0;
        while x < width
            invariant
                0 <= x <= width,
                1 <= height,
                visible@.len() == x as int,
                forall|i: int|
                    0 <= i < x as int ==> (#[trigger] visible@[i])@.len() == height as int,
                forall|i: int, j: int|
                    0 <= i < x as int && 0 <= j < height as int ==> !(#[trigger] visible@[i]@[j]),
            decreases width - x,
        {
            let mut col: Vec<bool> = Vec::new();
            let mut y: i32 = 0;
            while y < height
                invariant
                    0 <= y <= height,
                    col@.len() == y as int,
                    forall|j: int| 0 <= j < y as int ==> !(#[trigger] col@[j]),
                decreases height - y,
            {
                col.push(false);
                y = y + 1;
            }
            visible.push(col);
            x = x + 1;
        }
        Visibility { width, height, visible, prev: None }
    }

    /// Overwrite one cell of the mask; every other cell is untouched.
    fn set_visible(&mut self, x: i32, y: i32, v: bool)
        requires
            old(self).wf(),
            0 <= x < old(self).width,
            0 <= y < old(self).height,
        ensures
            final(self).wf(),
            final(self).width == old(self).width,
            final(self).height == old(self).height,
            final(self).prev == old(self).prev,
            final(self).visible_at(x as int, y as int) == v,
            forall|i: int, j: int|
                0 <= i < old(self).width as int && 0 <= j < old(self).height as int && !(i
                    == x as int && j == y as int) ==> final(self).visible_at(i, j) == old(
                    self,
                ).visible_at(i, j),
    {
        self.visible[x as usize][y as usize] = v;
    }

    /// Whether the cell was visible at the last recomputation.
    pub fn is_visible(&self, x: i32, y: i32) -> (v: bool)
        requires
            self.wf(),
            0 <= x < self.width,
            0 <= y < self.height,
        ensures
            v == self.visible_at(x as int, y as int),
    {
        self.visible[x as usize][y as usize]
    }

    /// Recompute visibility of every cell from the given origin, and mark
    /// every visible cell explored, permanently. Terrain is untouched and
    /// the explored mask only ever grows.
    pub fn recompute_from(
        &mut self,
        grid: &mut Grid,
        ox: i32,
        oy: i32,
        radius: i32,
        light_walls: bool,
    )
        requires
            old(self).wf(),
            old(grid).wf(),
            old(self).matches_grid(*old(grid)),
            old(grid).in_bounds(ox as int, oy as int),
            0 <= radius,
        ensures
            final(self).wf(),
            final(self).width == old(self).width,
            final(self).height == old(self).height,
            final(self).prev == Some((ox, oy)),
            final(grid).wf(),
            final(grid).same_dims(*old(grid)),
            forall|x: int, y: int|
                old(grid).in_bounds(x, y) ==> final(self).visible_at(x, y) == visible_spec(
                    *old(grid),
                    ox as int,
                    oy as int,
                    x,
                    y,
                    radius as int,
                    light_walls,
                ),
            forall|x: int, y: int|
                old(grid).in_bounds(x, y) ==> (#[trigger] final(grid).tile_at(x, y)).blocked
                    == old(grid).tile_at(x, y).blocked,
            forall|x: int, y: int|
                old(grid).in_bounds(x, y) ==> (#[trigger] final(grid).tile_at(x, y)).block_sight
                    == old(grid).tile_at(x, y).block_sight,
            forall|x: int, y: int|
                old(grid).in_bounds(x, y) ==> (#[trigger] final(grid).tile_at(x, y)).explored == (
                old(grid).tile_at(x, y).explored || final(self).visible_at(x, y)),
            forall|x: int, y: int|
                old(grid).in_bounds(x, y) && old(grid).tile_at(x, y).explored ==> (#[trigger] final(grid).tile_at(x, y)).explored,
            forall|x: int, y: int|
                old(grid).in_bounds(x, y) && final(self).visible_at(x, y) ==> (#[trigger] final(grid).tile_at(x, y)).explored,
    {
        self.prev = Some((ox, oy));
        let width = grid.width;
        let height = grid.height;
        let mut x: i32 = 0;
        while x < width
            invariant
                self.wf(),
                grid.wf(),
                *grid == *old(grid),
                self.width == old(self).width,
                self.height == old(self).height,
                self.prev == Some((ox, oy)),
                self.matches_grid(*grid),
                width == grid.width,
                height == grid.height,
                grid.in_bounds(ox as int, oy as int),
                0 <= radius,
                0 <= x <= width,
                forall|i: int, j: int|
                    0 <= i < x as int && 0 <= j < height as int ==> self.visible_at(i, j)
                        == visible_spec(
                        *grid,
                        ox as int,
                        oy as int,
                        i,
                        j,
                        radius as int,
                        light_walls,
                    ),
            decreases width - x,
        {
            let mut y: i32 = 0;
            while y < height
                invariant
                    self.wf(),
                    grid.wf(),
                    *grid == *old(grid),
                    self.width == old(self).width,
                    self.height == old(self).height,
                    self.prev == Some((ox, oy)),
                    self.matches_grid(*grid),
                    width == grid.width,
                    height == grid.height,
                    grid.in_bounds(ox as int, oy as int),
                    0 <= radius,
                    0 <= x < width,
                    0 <= y <= height,
                    forall|i: int, j: int|
                        0 <= i < x as int && 0 <= j < height as int ==> self.visible_at(i, j)
                            == visible_spec(
                            *grid,
                            ox as int,
                            oy as int,
                            i,
                            j,
                            radius as int,
                            light_walls,
                        ),
                    forall|j: int|
                        0 <= j < y as int ==> self.visible_at(x as int, j) == visible_spec(
                            *grid,
                            ox as int,
                            oy as int,
                            x as int,
                            j,
                            radius as int,
                            light_walls,
                        ),
                decreases height - y,
            {
                let v = cell_visible(grid, ox, oy, x, y, radius, light_walls);
                self.set_visible(x, y, v);
                y = y + 1;
            }
            x = x + 1;
        }
        let mut x: i32 = 0;
        while x < width
            invariant
                self.wf(),
                grid.wf(),
                grid.same_dims(*old(grid)),
                self.width == old(self).width,
                self.height == old(self).height,
                self.prev == Some((ox, oy)),
                self.matches_grid(*grid),
                width == grid.width,
                height == grid.height,
                0 <= x <= width,
                forall|i: int, j: int|
                    0 <= i < width as int && 0 <= j < height as int ==> self.visible_at(i, j)
                        == visible_spec(
                        *old(grid),
                        ox as int,
                        oy as int,
                        i,
                        j,
                        radius as int,
                        light_walls,
                    ),
                forall|i: int, j: int|
                    0 <= i < x as int && 0 <= j < height as int ==> (#[trigger] grid.tile_at(
                        i,
                        j,
                    )).explored == (old(grid).tile_at(i, j).explored || self.visible_at(i, j)),
                forall|i: int, j: int|
                    0 <= i < x as int && 0 <= j < height as int ==> (#[trigger] grid.tile_at(
                        i,
                        j,
                    )).blocked == old(grid).tile_at(i, j).blocked && grid.tile_at(i, j).block_sight
                        == old(grid).tile_at(i, j).block_sight,
                forall|i: int, j: int|
                    (x as int) <= i < width as int && 0 <= j < height as int ==> #[trigger] grid.tile_at(
                        i,
                        j,
                    ) == old(grid).tile_at(i, j),
            decreases width - x,
        {
            let mut y: i32 = 0;
            while y < height
                invariant
                    self.wf(),
                    grid.wf(),
                    grid.same_dims(*old(grid)),
                    self.width == old(self).width,
                    self.height == old(self).height,
                    self.prev == Some((ox, oy)),
                    self.matches_grid(*grid),
                    width == grid.width,
                    height == grid.height,
                    0 <= x < width,
                    0 <= y <= height,
                    forall|i: int, j: int|
                        0 <= i < width as int && 0 <= j < height as int ==> self.visible_at(i, j)
                            == visible_spec(
                            *old(grid),
                            ox as int,
                            oy as int,
                            i,
                            j,
                            radius as int,
                            light_walls,
                        ),
                    forall|i: int, j: int|
                        0 <= i < x as int && 0 <= j < height as int ==> (#[trigger] grid.tile_at(
                            i,
                            j,
                        )).explored == (old(grid).tile_at(i, j).explored || self.visible_at(i, j)),
                    forall|j: int|
                        0 <= j < y as int ==> (#[trigger] grid.tile_at(x as int, j)).explored == (
                        old(grid).tile_at(x as int, j).explored || self.visible_at(x as int, j)),
                    forall|i: int, j: int|
                        0 <= i < x as int && 0 <= j < height as int ==> (#[trigger] grid.tile_at(
                            i,
                            j,
                        )).blocked == old(grid).tile_at(i, j).blocked && grid.tile_at(
                            i,
                            j,
                        ).block_sight == old(grid).tile_at(i, j).block_sight,
                    forall|j: int|
                        0 <= j < y as int ==> (#[trigger] grid.tile_at(x as int, j)).blocked
                            == old(grid).tile_at(x as int, j).blocked && grid.tile_at(x as int, j).block_sight
                            == old(grid).tile_at(x as int, j).block_sight,
                    forall|i: int, j: int|
                        (x as int) < i < width as int && 0 <= j < height as int
                            ==> #[trigger] grid.tile_at(i, j) == old(grid).tile_at(i, j),
                    forall|j: int|
                        (y as int) <= j < height as int ==> #[trigger] grid.tile_at(x as int, j)
                            == old(grid).tile_at(x as int, j),
                decreases height - y,
            {
                if self.is_visible(x, y) {
                    grid.set_explored(x, y);
                }
                y = y + 1;
            }
            x = x + 1;
        }
    }

    /// Recompute only when the origin moved since the last recomputation;
    /// a repeat origin is a no-op. Returns whether a recomputation ran.
    pub fn recompute_if_moved(
        &mut self,
        grid: &mut Grid,
        ox: i32,
        oy: i32,
        radius: i32,
        light_walls: bool,
    ) -> (did: bool)
        requires
            old(self).wf(),
            old(grid).wf(),
            old(self).matches_grid(*old(grid)),
            old(grid).in_bounds(ox as int, oy as int),
            0 <= radius,
        ensures
            did == (old(self).prev != Some((ox, oy))),
            !did ==> *final(self) == *old(self) && *final(grid) == *old(grid),
            final(self).wf(),
            final(grid).wf(),
            final(self).width == old(self).width,
            final(self).height == old(self).height,
            final(grid).same_dims(*old(grid)),
            final(self).prev == Some((ox, oy)),
            did ==> forall|x: int, y: int|
                old(grid).in_bounds(x, y) ==> final(self).visible_at(x, y) == visible_spec(
                    *old(grid),
                    ox as int,
                    oy as int,
                    x,
                    y,
                    radius as int,
                    light_walls,
                ),
            forall|x: int, y: int|
                old(grid).in_bounds(x, y) ==> (#[trigger] final(grid).tile_at(x, y)).blocked
                    == old(grid).tile_at(x, y).blocked,
            forall|x: int, y: int|
                old(grid).in_bounds(x, y) ==> (#[trigger] final(grid).tile_at(x, y)).block_sight
                    == old(grid).tile_at(x, y).block_sight,
            forall|x: int, y: int|
                old(grid).in_bounds(x, y) && old(grid).tile_at(x, y).explored ==> (#[trigger] final(grid).tile_at(x, y)).explored,
            did ==> forall|x: int, y: int|
                old(grid).in_bounds(x, y) && final(self).visible_at(x, y) ==> (#[trigger] final(grid).tile_at(x, y)).explored,
    {
        let same = match self.prev {
            Some(p) => p.0 == ox && p.1 == oy,
            None => false,
        };
        if same {
            return false;
        }
        self.recompute_from(grid, ox, oy, radius, light_walls);
        true
    }
}

} // verus!
