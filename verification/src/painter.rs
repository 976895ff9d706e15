//! The painter: the object through which shapes reach the grid.

use vstd::prelude::*;
use ratatui_core::style::Color;
use crate::grid::{Grid, GridModel};
use crate::viewport::Viewport;

verus! {

/// The mathematical content of a [`Painter`].
pub struct PainterModel {
    /// The viewport that points are projected through.
    pub viewport: Viewport,
    /// The grid that has been painted so far.
    pub grid: GridModel,
}

impl PainterModel {
    /// The grid is the one that the viewport describes.
    pub open spec fn wf(self) -> bool {
        &&& self.grid.wf()
        &&& self.grid.width == self.viewport.width
        &&& self.grid.height == self.viewport.height
        &&& self.grid.marker == self.viewport.marker
    }
}

/// Projects points through a viewport and paints them into a grid. A painter
/// lives for one render pass.
#[derive(Debug)]
pub struct Painter {
    viewport: Viewport,
    grid: Grid,
}

impl View for Painter {
    type V = PainterModel;

    closed spec fn view(&self) -> PainterModel {
        PainterModel { viewport: self.viewport, grid: self.grid@ }
    }
}

impl Painter {
    /// The painter's grid is well formed and has the size and the marker of
    /// its viewport.
    pub open spec fn wf(&self) -> bool {
        self@.wf()
    }

    /// A painter that projects through `viewport`, with a blank grid of the
    /// viewport's size.
    pub fn new(viewport: Viewport) -> (painter: Painter)
        ensures
            painter.wf(),
            painter@.viewport == viewport,
            painter@.grid == GridModel::blank(
                viewport.width as nat,
                viewport.height as nat,
                viewport.marker,
            ),
    {
        Painter { viewport, grid: Grid::new(viewport.width, viewport.height, viewport.marker) }
    }

    /// The viewport that points are projected through.
    pub fn viewport(&self) -> (viewport: Viewport)
        ensures
            viewport == self@.viewport,
    {
        self.viewport
    }

    /// The grid as painted so far.
    pub fn grid(&self) -> (grid: &Grid)
        ensures
            grid@ == self@.grid,
    {
        &self.grid
    }

    /// Ends the pass and hands out the grid.
    pub fn finish(self) -> (grid: Grid)
        ensures
            grid@ == self@.grid,
    {
        self.grid
    }

    /// The sub-cell of the grid that holds the logical point `(x, y)`, as
    /// sub-column and sub-row. There is none for a point outside the
    /// viewport: the lower bound of an axis belongs to the viewport, the
    /// upper bound does not.
    pub fn get_point(&self, x: i32, y: i32) -> (p: Option<(usize, usize)>)
        ensures
            p is None <==> self@.viewport.project(x as int, y as int, 1) is None,
            p matches Some(q) ==> self@.viewport.project(x as int, y as int, 1) == Some(
                (q.0 as int, q.1 as int),
            ),
            p matches Some(q) ==> q.0 < self@.viewport.cols() && q.1 < self@.viewport.rows(),
            p matches Some(q) ==> (self.wf() ==> self@.grid.holds(q.0 as nat, q.1 as nat)),
    {
        self.viewport.point(x as i128, y as i128, 1)
    }

    /// The sub-cell of the grid that holds the logical point
    /// `(x / scale, y / scale)`: [`Painter::get_point`] for points between
    /// the whole logical units.
    pub fn get_point_scaled(&self, x: i128, y: i128, scale: u64) -> (p: Option<(usize, usize)>)
        ensures
            p is None <==> self@.viewport.project(x as int, y as int, scale as int) is None,
            p matches Some(q) ==> self@.viewport.project(x as int, y as int, scale as int)
                == Some((q.0 as int, q.1 as int)),
            p matches Some(q) ==> q.0 < self@.viewport.cols() && q.1 < self@.viewport.rows(),
            p matches Some(q) ==> (self.wf() ==> self@.grid.holds(q.0 as nat, q.1 as nat)),
    {
        self.viewport.point(x, y, scale)
    }

    /// Paints sub-cell `(x, y)` of the grid with `color`. The bit of the
    /// sub-cell joins the bits that its cell holds, and the color of the
    /// cell is replaced.
    pub fn paint(&mut self, x: usize, y: usize, color: Color)
        requires
            old(self).wf(),
        ensures
            final(self).wf(),
            final(self)@.viewport == old(self)@.viewport,
            final(self)@.grid == old(self)@.grid.paint(x as nat, y as nat, color),
    {
        proof {
            self.grid@.lemma_paint_wf(x as nat, y as nat, color);
        }
        self.grid.paint(x, y, color);
    }
}

} // verus!
