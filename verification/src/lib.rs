//! Vector shapes drawn onto a grid of terminal cells.
//!
//! A [`Viewport`] maps a window of a logical coordinate space onto a grid in
//! which every terminal cell is divided into the sub-positions of a
//! [`Marker`]. A [`Painter`] projects points through the viewport and
//! accumulates them in a [`Grid`]; a [`Shape`] draws itself through a painter,
//! and a [`Canvas`] draws an ordered list of shapes in one pass.
//!
//! Logical coordinates are integers in a unit of the caller's choosing: the
//! projection depends only on ratios, so any unit fine enough for the scene
//! will do. Sub-column 0 lies at the lower `x` bound and sub-row 0 at the
//! lower `y` bound; which line of a terminal shows a row is left to whoever
//! writes the finished grid out.

pub mod canvas;
pub mod circle;
pub mod color;
pub mod grid;
pub mod marker;
pub mod painter;
pub mod shape;
pub mod trig;
pub mod viewport;

pub use canvas::{Canvas, CanvasModel};
pub use circle::Circle;
pub use grid::{Cell, Grid, GridModel, Stroke};
pub use marker::Marker;
pub use painter::{Painter, PainterModel};
pub use ratatui_core::style::Color;
pub use shape::Shape;
pub use viewport::{Axis, Viewport};
