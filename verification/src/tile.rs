//! A single cell of the dungeon grid.
use vstd::prelude::*;

verus! {

/// State of one grid cell. `blocked` and `block_sight` are set during
/// generation and never change afterwards; `explored` starts false and only
/// ever moves to true.
#[derive(Clone, Copy, Debug)]
pub struct Tile {
    pub blocked: bool,
    pub explored: bool,
    pub block_sight: bool,
}

/// The open floor cell, as contracts speak of it.
pub open spec fn empty_tile() -> Tile {
    Tile { blocked: false, explored: false, block_sight: false }
}

/// The wall cell, as contracts speak of it.
pub open spec fn wall_tile() -> Tile {
    Tile { blocked: true, explored: false, block_sight: true }
}

impl Tile {
    /// An open floor cell: passable, transparent, unexplored.
    pub fn empty() -> (t: Tile)
        ensures
            t == empty_tile(),
    {
        Tile { blocked: false, explored: false, block_sight: false }
    }

    /// A wall cell: impassable, opaque, unexplored.
    pub fn wall() -> (t: Tile)
        ensures
            t == wall_tile(),
    {
        Tile { blocked: true, explored: false, block_sight: true }
    }
}

} // verus!
