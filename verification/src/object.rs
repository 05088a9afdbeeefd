//! Entities of the game world: the player and the monsters.
use vstd::prelude::*;

verus! {

/// An RGB color, exported with each entity so the renderer needs no access
/// to this crate's internals.
#[derive(Clone, Copy, Debug, PartialEq, Eq, Structural)]
pub struct Color {
    pub r: u8,
    pub g: u8,
    pub b: u8,
}

/// An actor on the grid. Position and `alive` are mutated during play;
/// `glyph`, `color`, `name` and `blocks` are fixed at creation. The entity
/// registry is append-only: death is `alive = false`, never removal.
#[derive(Debug)]
pub struct Object {
    pub x: i32,
    pub y: i32,
    pub glyph: char,
    pub color: Color,
    pub name: String,
    pub blocks: bool,
    pub alive: bool,
}

impl Object {
    pub fn new(x: i32, y: i32, glyph: char, name: &str, color: Color, blocks: bool) -> (o: Object)
        ensures
            o.x == x,
            o.y == y,
            o.glyph == glyph,
            o.name@ == name@,
            o.color == color,
            o.blocks == blocks,
            !o.alive,
    {
        Object { x, y, glyph, color, name: name.to_owned(), blocks, alive: false }
    }

    pub fn pos(&self) -> (p: (i32, i32))
        ensures
            p.0 == self.x,
            p.1 == self.y,
    {
        (self.x, self.y)
    }

    pub fn set_pos(&mut self, x: i32, y: i32)
        ensures
            final(self).x == x,
            final(self).y == y,
            final(self).glyph == old(self).glyph,
            final(self).color == old(self).color,
            final(self).name == old(self).name,
            final(self).blocks == old(self).blocks,
            final(self).alive == old(self).alive,
    {
        self.x = x;
        self.y = y;
    }
}

} // verus!
