//! What can be drawn.

use vstd::prelude::*;
use crate::grid::Stroke;
use crate::painter::Painter;
use crate::viewport::Viewport;

verus! {

/// Something that can draw itself through a painter. Drawing does nothing
/// but paint: it leaves the painter's viewport alone, and what it paints
/// depends on the shape and the viewport only.
pub trait Shape {
    /// The paint calls that drawing the shape through `viewport` makes, in
    /// the order in which it makes them.
    spec fn strokes(&self, viewport: Viewport) -> Seq<Stroke>;

    /// Draws the shape.
    fn draw(&self, painter: &mut Painter)
        requires
            old(painter).wf(),
        ensures
            final(painter).wf(),
            final(painter)@.viewport == old(painter)@.viewport,
            final(painter)@.grid == old(painter)@.grid.paint_all(
                self.strokes(old(painter)@.viewport),
            ),
    ;
}

} // verus!
