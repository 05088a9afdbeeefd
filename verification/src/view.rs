//! Read-only presentation snapshot for the external renderer: a three-way
//! classification of every cell, the color each classification is drawn
//! with, and the entities currently worth drawing.
use vstd::prelude::*;
use crate::fov::Visibility;
use crate::grid::Grid;
use crate::object::Color;
use crate::object::Object;

verus! {

/// What the renderer should do with a cell: draw nothing, draw it dimly
/// from memory, or draw it fully lit. `wall` tells the two drawn states
/// which palette entry to use.
#[derive(Clone, Copy, Debug, PartialEq, Eq, Structural)]
pub enum CellView {
    Unexplored,
    Remembered { wall: bool },
    Lit { wall: bool },
}

/// The entity stands on a cell that the tracker marks visible.
pub open spec fn object_visible(vis: Visibility, o: Object) -> bool {
    &&& 0 <= o.x < vis.width
    &&& 0 <= o.y < vis.height
    &&& vis.visible_at(o.x as int, o.y as int)
}

/// Classify one cell: visible cells are lit, explored-but-unseen cells are
/// remembered, anything else is not drawn.
pub fn cell_view(grid: &Grid, vis: &Visibility, x: i32, y: i32) -> (cv: CellView)
    requires
        grid.wf(),
        vis.wf(),
        vis.matches_grid(*grid),
        grid.in_bounds(x as int, y as int),
    ensures
        cv == (if vis.visible_at(x as int, y as int) {
            (CellView::Lit { wall: grid.tile_at(x as int, y as int).block_sight })
        } else if grid.tile_at(x as int, y as int).explored {
            (CellView::Remembered { wall: grid.tile_at(x as int, y as int).block_sight })
        } else {
            CellView::Unexplored
        }),
{
    let wall = grid.blocks_sight(x, y);
    if vis.is_visible(x, y) {
        CellView::Lit { wall }
    } else if grid.explored(x, y) {
        CellView::Remembered { wall }
    } else {
        CellView::Unexplored
    }
}

/// The background color for a classified cell; unexplored cells are not
/// drawn at all.
pub fn cell_color(cv: CellView) -> (c: Option<Color>)
    ensures
        cv == CellView::Unexplored ==> c is None,
        cv == (CellView::Remembered { wall: true }) ==> c == Some(Color { r: 0, g: 0, b: 100 }),
        cv == (CellView::Remembered { wall: false }) ==> c == Some(Color { r: 50, g: 50, b: 100 }),
        cv == (CellView::Lit { wall: true }) ==> c == Some(Color { r: 130, g: 110, b: 50 }),
        cv == (CellView::Lit { wall: false }) ==> c == Some(Color { r: 200, g: 180, b: 50 }),
{
    match cv {
        CellView::Unexplored => None,
        CellView::Remembered { wall: true } => Some(Color { r: 0, g: 0, b: 100 }),
        CellView::Remembered { wall: false } => Some(Color { r: 50, g: 50, b: 100 }),
        CellView::Lit { wall: true } => Some(Color { r: 130, g: 110, b: 50 }),
        CellView::Lit { wall: false } => Some(Color { r: 200, g: 180, b: 50 }),
    }
}

/// Indices, in registry order, of the entities standing on a currently
/// visible cell: exactly the ones the renderer draws. An entity outside
/// the tracked rectangle is never visible.
pub fn visible_objects(vis: &Visibility, objects: &Vec<Object>) -> (ids: Vec<usize>)
    requires
        vis.wf(),
    ensures
        forall|k: int|
            0 <= k < ids@.len() ==> (#[trigger] ids@[k]) < objects@.len() && object_visible(
                *vis,
                objects@[ids@[k] as int],
            ),
        forall|k1: int, k2: int| 0 <= k1 < k2 < ids@.len() ==> ids@[k1] < ids@[k2],
        forall|i: int|
            0 <= i < objects@.len() && object_visible(*vis, #[trigger] objects@[i]) ==> exists|
                k: int,
            | 0 <= k < ids@.len() && ids@[k] as int == i,
{
    let mut ids: Vec<usize> = Vec::new();
    let mut i: usize = 0;
    while i < objects.len()
        invariant
            vis.wf(),
            0 <= i <= objects@.len(),
            forall|k: int|
                0 <= k < ids@.len() ==> (#[trigger] ids@[k]) < i && object_visible(
                    *vis,
                    objects@[ids@[k] as int],
                ),
            forall|k1: int, k2: int| 0 <= k1 < k2 < ids@.len() ==> ids@[k1] < ids@[k2],
            forall|j: int|
                0 <= j < i as int && object_visible(*vis, #[trigger] objects@[j]) ==> exists|
                    k: int,
                | 0 <= k < ids@.len() && ids@[k] as int == j,
        decreases objects@.len() - i,
    {
        let o = &objects[i];
        let ghost ids0 = ids@;
        if 0 <= o.x && o.x < vis.width && 0 <= o.y && o.y < vis.height && vis.is_visible(
            o.x,
            o.y,
        ) {
            let ghost len0 = ids@.len() as int;
            ids.push(i);
            proof {
                assert forall|j: int|
                    0 <= j <= i as int && object_visible(
                        *vis,
                        #[trigger] objects@[j],
                    ) implies exists|k: int| 0 <= k < ids@.len() && ids@[k] as int == j by {
                    if j == i as int {
                        assert(ids@[len0] as int == j);
                    } else {
                        let k = choose|k: int| 0 <= k < ids0.len() && ids0[k] as int == j;
                        assert(ids@[k] as int == j);
                    }
                }
            }
        }
        i = i + 1;
    }
    ids
}

} // verus!
