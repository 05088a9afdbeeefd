//! Core of a grid-based, turn-driven dungeon exploration game.
//!
//! The library generates a dungeon layout (non-overlapping rooms joined by
//! L-shaped tunnels), tracks which cells an observer currently sees and has
//! ever seen, and arbitrates whether a move into a cell is legal. Rendering,
//! window handling and keyboard input are external collaborators: they read
//! the snapshots this crate exports and feed it movement intents.
use vstd::prelude::*;

pub mod action;
pub mod fov;
pub mod grid;
pub mod mapgen;
pub mod object;
pub mod rect;
pub mod rng;
pub mod tile;
pub mod view;

verus! {

/// Width of the dungeon grid, in cells.
pub const MAP_WIDTH: i32 = 80;

/// Height of the dungeon grid, in cells.
pub const MAP_HEIGHT: i32 = 45;

/// Largest side length a generated room may have.
pub const ROOM_MAX_SIZE: i32 = 10;

/// Smallest side length a generated room may have.
pub const ROOM_MIN_SIZE: i32 = 6;

/// Number of room placements attempted per generation pass (attempts, not
/// guaranteed successes).
pub const MAX_ROOMS: i32 = 30;

/// Largest number of monsters spawned in a single room.
pub const MAX_ROOM_MONSTERS: i32 = 3;

/// Radius within which cells can be visible from the observer.
pub const TORCH_RADIUS: i32 = 10;

/// Whether a sight-blocking cell that terminates a line of sight is itself
/// marked visible.
pub const FOV_LIGHT_WALLS: bool = true;

/// Index of the player entity in the registry; the registry is append-only,
/// so this never changes.
pub const PLAYER: usize = 0;

} // verus!
