//! The dungeon grid: a fixed-size 2D array of tiles with bounds-checked
//! access. Out-of-range coordinates are a caller precondition violation,
//! never a recoverable runtime case.
use vstd::prelude::*;
use crate::tile::Tile;
use crate::tile::wall_tile;

verus! {

/// Rectangular array of tiles, indexed `tiles[x][y]` with `0 <= x < width`
/// and `0 <= y < height`. Dimensions are fixed for the life of a session.
pub struct Grid {
    pub width: i32,
    pub height: i32,
    pub tiles: Vec<Vec<Tile>>,
}

impl Grid {
    /// Well-formedness: positive dimensions and a full rectangle of tiles.
    pub open spec fn wf(self) -> bool {
        &&& 0 < self.width
        &&& 0 < self.height
        &&& self.tiles@.len() == self.width as int
        &&& forall|x: int|
            0 <= x < self.width as int ==> (#[trigger] self.tiles@[x])@.len()
                == self.height as int
    }

    pub open spec fn in_bounds(self, x: int, y: int) -> bool {
        0 <= x < self.width as int && 0 <= y < self.height as int
    }

    pub open spec fn tile_at(self, x: int, y: int) -> Tile {
        self.tiles@[x]@[y]
    }

    /// Both grids have the same dimensions.
    pub open spec fn same_dims(self, other: Grid) -> bool {
        self.width == other.width && self.height == other.height
    }

    /// A fresh grid entirely filled with wall tiles, the state from which
    /// the room placer carves the dungeon.
    pub fn new(width: i32, height: i32) -> (g: Grid)
        requires
            1 <= width,
            1 <= height,
        ensures
            g.wf(),
            g.width == width,
            g.height == height,
            forall|x: int, y: int| g.in_bounds(x, y) ==> #[trigger] g.tile_at(x, y) == wall_tile(),
    {
        let mut tiles: Vec<Vec<Tile>> = Vec::new();
        let mut x: i32 = 0;
        while x < width
            invariant
                0 <= x <= width,
                1 <= height,
                tiles@.len() == x as int,
                forall|i: int|
                    0 <= i < x as int ==> (#[trigger] tiles@[i])@.len() == height as int,
                forall|i: int, j: int|
                    0 <= i < x as int && 0 <= j < height as int ==> (#[trigger] tiles@[i]@[j])
                        == wall_tile(),
            decreases width - x,
        {
            let mut col: Vec<Tile> = Vec::new();
            let mut y: i32 = 0;
            while y < height
                invariant
                    0 <= y <= height,
                    col@.len() == y as int,
                    forall|j: int| 0 <= j < y as int ==> #[trigger] col@[j] == wall_tile(),
                decreases height - y,
            {
                col.push(Tile::wall());
                y = y + 1;
            }
            tiles.push(col);
            x = x + 1;
        }
        Grid { width, height, tiles }
    }

    /// Whether the committed terrain layer forbids movement into the cell.
    pub fn blocked(&self, x: i32, y: i32) -> (b: bool)
        requires
            self.wf(),
            self.in_bounds(x as int, y as int),
        ensures
            b == self.tile_at(x as int, y as int).blocked,
    {
        self.tiles[x as usize][y as usize].blocked
    }

    /// Whether the cell terminates lines of sight.
    pub fn blocks_sight(&self, x: i32, y: i32) -> (b: bool)
        requires
            self.wf(),
            self.in_bounds(x as int, y as int),
        ensures
            b == self.tile_at(x as int, y as int).block_sight,
    {
        self.tiles[x as usize][y as usize].block_sight
    }

    /// Whether the cell has ever been visible during this session.
    pub fn explored(&self, x: i32, y: i32) -> (b: bool)
        requires
            self.wf(),
            self.in_bounds(x as int, y as int),
        ensures
            b == self.tile_at(x as int, y as int).explored,
    {
        self.tiles[x as usize][y as usize].explored
    }

    /// Overwrite one cell. Used by the room placer and tunnel carver during
    /// generation; play-time code only ever calls `set_explored`.
    pub fn set_tile(&mut self, x: i32, y: i32, t: Tile)
        requires
            old(self).wf(),
            old(self).in_bounds(x as int, y as int),
        ensures
            final(self).wf(),
            final(self).same_dims(*old(self)),
            final(self).tile_at(x as int, y as int) == t,
            forall|i: int, j: int|
                old(self).in_bounds(i, j) && !(i == x as int && j == y as int)
                    ==> final(self).tile_at(i, j) == old(self).tile_at(i, j),
    {
        self.tiles[x as usize][y as usize] = t;
    }

    /// Mark a cell as explored, permanently and idempotently; there is no
    /// operation that clears the flag, so `explored` is monotonic across a
    /// session.
    pub fn set_explored(&mut self, x: i32, y: i32)
        requires
            old(self).wf(),
            old(self).in_bounds(x as int, y as int),
        ensures
            final(self).wf(),
            final(self).same_dims(*old(self)),
            final(self).tile_at(x as int, y as int).explored,
            final(self).tile_at(x as int, y as int).blocked == old(self).tile_at(
                x as int,
                y as int,
            ).blocked,
            final(self).tile_at(x as int, y as int).block_sight == old(self).tile_at(
                x as int,
                y as int,
            ).block_sight,
            forall|i: int, j: int|
                old(self).in_bounds(i, j) && !(i == x as int && j == y as int)
                    ==> final(self).tile_at(i, j) == old(self).tile_at(i, j),
            forall|i: int, j: int|
                old(self).in_bounds(i, j) && old(self).tile_at(i, j).explored
                    ==> final(self).tile_at(i, j).explored,
    {
        let t0 = self.tiles[x as usize][y as usize];
        self.set_tile(x, y, Tile { blocked: t0.blocked, explored: true, block_sight: t0.block_sight });
    }
}

} // verus!
