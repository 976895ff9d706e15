//! The canvas: bounds, a marker and an ordered list of shapes.

use vstd::prelude::*;
use crate::grid::{Grid, GridModel};
use crate::marker::Marker;
use crate::painter::Painter;
use crate::shape::Shape;
use crate::viewport::Viewport;

verus! {

/// The mathematical content of a [`Canvas`].
pub struct CanvasModel<S> {
    /// The lower and the upper bound of the horizontal axis.
    pub x_bounds: [i32; 2],
    /// The lower and the upper bound of the vertical axis.
    pub y_bounds: [i32; 2],
    /// The marker that the shapes are drawn with.
    pub marker: Marker,
    /// The shapes, in the order in which they were added.
    pub shapes: Seq<S>,
}

impl<S: Shape> CanvasModel<S> {
    /// The canvas without shapes, with both bounds of each axis at 0 and the
    /// Braille marker.
    pub open spec fn empty() -> CanvasModel<S> {
        CanvasModel {
            x_bounds: [0i32, 0i32],
            y_bounds: [0i32, 0i32],
            marker: Marker::Braille,
            shapes: Seq::empty(),
        }
    }

    /// The viewport of the canvas on a grid of `width` by `height` cells: the
    /// bounds of the canvas are the bounds of the viewport.
    pub open spec fn viewport(self, width: u16, height: u16) -> Viewport {
        Viewport {
            x_bounds: self.x_bounds,
            y_bounds: self.y_bounds,
            width,
            height,
            marker: self.marker,
        }
    }

    /// The grid of `width` by `height` cells after the first `n` shapes have
    /// been drawn into it, one after the other.
    pub open spec fn painted(self, width: u16, height: u16, n: nat) -> GridModel
        decreases n,
    {
        if n == 0 {
            GridModel::blank(width as nat, height as nat, self.marker)
        } else {
            self.painted(width, height, (n - 1) as nat).paint_all(
                self.shapes[n - 1].strokes(self.viewport(width, height)),
            )
        }
    }

    /// The grid of `width` by `height` cells after all shapes have been
    /// drawn into it, in the order in which they were added.
    pub open spec fn rendered(self, width: u16, height: u16) -> GridModel {
        self.painted(width, height, self.shapes.len())
    }

    /// Drawing shapes keeps the size of the grid.
    pub proof fn lemma_painted_wf(self, width: u16, height: u16, n: nat)
        ensures
            self.painted(width, height, n).wf(),
            self.painted(width, height, n).width == width,
            self.painted(width, height, n).height == height,
            self.painted(width, height, n).marker == self.marker,
        decreases n,
    {
        if n > 0 {
            self.lemma_painted_wf(width, height, (n - 1) as nat);
            self.painted(width, height, (n - 1) as nat).lemma_paint_all_wf(
                self.shapes[n - 1].strokes(self.viewport(width, height)),
            );
        }
    }
}

/// Canvases that hold the same shapes in the same order, with the same
/// bounds and marker, render to the same grid, cell for cell and bit for bit.
pub proof fn lemma_render_repeats<S: Shape>(
    a: CanvasModel<S>,
    b: CanvasModel<S>,
    width: u16,
    height: u16,
)
    requires
        a.x_bounds == b.x_bounds,
        a.y_bounds == b.y_bounds,
        a.marker == b.marker,
        a.shapes.len() == b.shapes.len(),
        forall|i: int| 0 <= i < a.shapes.len() ==> a.shapes[i] == b.shapes[i],
    ensures
        a.rendered(width, height) == b.rendered(width, height),
{
    assert(a.shapes =~= b.shapes);
}

/// A drawing surface in logical coordinates. The bounds say which part of
/// the logical space is shown: on each axis the lower bound belongs to it and
/// the upper bound does not. The shapes are drawn in the order in which they
/// were added, so a later shape paints over an earlier one.
#[derive(Debug)]
pub struct Canvas<S: Shape> {
    x_bounds: [i32; 2],
    y_bounds: [i32; 2],
    marker: Marker,
    shapes: Vec<S>,
}

impl<S: Shape> View for Canvas<S> {
    type V = CanvasModel<S>;

    closed spec fn view(&self) -> CanvasModel<S> {
        CanvasModel {
            x_bounds: self.x_bounds,
            y_bounds: self.y_bounds,
            marker: self.marker,
            shapes: self.shapes@,
        }
    }
}

impl<S: Shape> Default for Canvas<S> {
    fn default() -> (canvas: Canvas<S>)
        ensures
            canvas@ == CanvasModel::<S>::empty(),
    {
        Canvas { x_bounds: [0, 0], y_bounds: [0, 0], marker: Marker::Braille, shapes: Vec::new() }
    }
}

impl<S: Shape> Canvas<S> {
    /// A canvas without shapes, with both bounds of each axis at 0 and the
    /// Braille marker.
    pub fn new() -> (canvas: Canvas<S>)
        ensures
            canvas@ == CanvasModel::<S>::empty(),
    {
        Canvas { x_bounds: [0, 0], y_bounds: [0, 0], marker: Marker::Braille, shapes: Vec::new() }
    }

    /// Sets the bounds of the horizontal axis.
    pub fn x_bounds(self, bounds: [i32; 2]) -> (canvas: Canvas<S>)
        ensures
            canvas@ == (CanvasModel { x_bounds: bounds, ..self@ }),
    {
        Canvas { x_bounds: bounds, ..self }
    }

    /// Sets the bounds of the vertical axis.
    pub fn y_bounds(self, bounds: [i32; 2]) -> (canvas: Canvas<S>)
        ensures
            canvas@ == (CanvasModel { y_bounds: bounds, ..self@ }),
    {
        Canvas { y_bounds: bounds, ..self }
    }

    /// Sets the marker that the shapes are drawn with.
    pub fn marker(self, marker: Marker) -> (canvas: Canvas<S>)
        ensures
            canvas@ == (CanvasModel { marker, ..self@ }),
    {
        Canvas { marker, ..self }
    }

    /// Adds a shape. It is drawn after the shapes added before it.
    pub fn shape(self, shape: S) -> (canvas: Canvas<S>)
        ensures
            canvas@ == (CanvasModel { shapes: self@.shapes.push(shape), ..self@ }),
    {
        let mut canvas = self;
        canvas.shapes.push(shape);
        canvas
    }

    /// The viewport of the canvas on a grid of `width` by `height` cells.
    pub fn viewport(&self, width: u16, height: u16) -> (viewport: Viewport)
        ensures
            viewport == self@.viewport(width, height),
    {
        Viewport::new(self.x_bounds, self.y_bounds, width, height, self.marker)
    }

    /// Draws the shapes, in the order in which they were added, into a fresh
    /// grid of `width` by `height` cells, and returns the grid.
    pub fn render(&self, width: u16, height: u16) -> (grid: Grid)
        ensures
            grid.wf(),
            grid@ == self@.rendered(width, height),
            grid@.width == width,
            grid@.height == height,
            grid@.marker == self@.marker,
    {
        let viewport = self.viewport(width, height);
        let mut painter = Painter::new(viewport);
        let mut i: usize = 0;
        while i < self.shapes.len()
            invariant
                i <= self.shapes.len(),
                painter.wf(),
                painter@.viewport == viewport,
                viewport == self@.viewport(width, height),
                painter@.grid == self@.painted(width, height, i as nat),
            decreases self.shapes.len() - i,
        {
            self.shapes[i].draw(&mut painter);
            i += 1;
        }
        proof {
            self@.lemma_painted_wf(width, height, self.shapes.len() as nat);
        }
        painter.finish()
    }
}

} // verus!
