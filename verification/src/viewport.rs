//! The window of logical space that a grid shows, and the projection of
//! points onto the grid.

use vstd::prelude::*;
use crate::marker::Marker;

verus! {

/// One axis of a viewport: the logical values from `min` up to, but not
/// including, `max`, divided into `cells` parts of equal length.
#[derive(Clone, Copy, Debug, PartialEq, Eq)]
pub struct Axis {
    /// The lower bound. It belongs to the axis.
    pub min: i32,
    /// The upper bound. It does not belong to the axis.
    pub max: i32,
    /// The number of parts, which is the number of sub-cells along the axis.
    pub cells: u32,
}

impl Axis {
    /// Whether the axis has an extent and parts to divide it into. An axis
    /// whose bounds meet or cross, or which has no parts, holds no point.
    pub open spec fn proper(self) -> bool {
        self.cells > 0 && self.min < self.max
    }

    /// Whether the value `num / den` lies on the axis: at or above the lower
    /// bound and below the upper bound.
    pub open spec fn covers(self, num: int, den: int) -> bool {
        self.proper() && den > 0 && self.min * den <= num < self.max * den
    }

    /// The part that holds the value `num / den`, counted from the lower
    /// bound: the value's distance from the lower bound, as a fraction of the
    /// length of the axis, times the number of parts, cut off to a whole
    /// number. There is no such part for a value that the axis does not
    /// cover.
    pub open spec fn locate(self, num: int, den: int) -> Option<int> {
        if self.covers(num, den) {
            Some(((num - self.min * den) * self.cells) / ((self.max - self.min) * den))
        } else {
            None
        }
    }

    /// A part that is found is one of the parts of the axis.
    pub proof fn lemma_locate_range(self, num: int, den: int)
        ensures
            self.locate(num, den) matches Some(part) ==> 0 <= part < self.cells,
    {
        if self.covers(num, den) {
            let offset = num - self.min * den;
            let span = (self.max - self.min) * den;
            let cells = self.cells as int;
            assert(span == self.max * den - self.min * den) by (nonlinear_arith)
                requires
                    span == (self.max - self.min) * den,
            ;
            lemma_scale_down(offset, span, cells);
        }
    }

    /// The boundary policy of an axis: its lower bound belongs to it and lies
    /// in its first part, its upper bound does not belong to it. Here
    /// `low / den` is the lower bound and `high / den` the upper bound.
    pub proof fn lemma_bounds(self, low: int, high: int, den: int)
        requires
            self.proper(),
            den > 0,
            low == self.min * den,
            high == self.max * den,
        ensures
            self.locate(low, den) == Some(0int),
            self.locate(high, den) is None,
    {
        let min = self.min as int;
        let max = self.max as int;
        assert(min * den < max * den) by (nonlinear_arith)
            requires
                min < max,
                den > 0,
        ;
        let span = (max - min) * den;
        assert(span > 0) by (nonlinear_arith)
            requires
                span == (max - min) * den,
                min < max,
                den > 0,
        ;
        assert((0 * self.cells) / span == 0) by (nonlinear_arith)
            requires
                span > 0,
        ;
    }

    /// A value that the axis covers is no further from the middle of the axis
    /// than half its length. In steps of which `2 * den` make a logical unit,
    /// the value is `2 * num`, the middle is `den * (min + max)` and half the
    /// length is `den * (max - min)`.
    pub proof fn lemma_covered_near_middle(self, num: int, den: int)
        requires
            self.covers(num, den),
        ensures
            ({
                let off = 2 * num - den * (self.min + self.max);
                let half = den * (self.max - self.min);
                off * off <= half * half
            }),
    {
        let min = self.min as int;
        let max = self.max as int;
        let low = min * den;
        let high = max * den;
        let off = 2 * num - den * (min + max);
        let half = den * (max - min);
        assert(den * (min + max) == low + high) by (nonlinear_arith)
            requires
                low == min * den,
                high == max * den,
        ;
        assert(half == high - low) by (nonlinear_arith)
            requires
                half == den * (max - min),
                low == min * den,
                high == max * den,
        ;
        assert(off * off <= half * half) by (nonlinear_arith)
            requires
                -half <= off <= half,
        ;
    }

    /// The part that holds the value `num / den`, if the axis covers it.
    pub fn find(&self, num: i128, den: u64) -> (part: Option<u32>)
        ensures
            part is None <==> self.locate(num as int, den as int) is None,
            part matches Some(p) ==> self.locate(num as int, den as int) == Some(p as int),
            part matches Some(p) ==> p < self.cells,
    {
        if self.cells == 0 || self.min >= self.max || den == 0 {
            return None;
        }
        let ghost min = self.min as int;
        let ghost max = self.max as int;
        assert(-0x8000_0000 * 0xffff_ffff_ffff_ffff <= min * den <= 0x8000_0000
            * 0xffff_ffff_ffff_ffff && -0x8000_0000 * 0xffff_ffff_ffff_ffff <= max * den
            <= 0x8000_0000 * 0xffff_ffff_ffff_ffff && min * den < max * den) by (nonlinear_arith)
            requires
                -0x8000_0000 <= min < max <= 0x8000_0000,
                0 < den <= 0xffff_ffff_ffff_ffff,
        ;
        let lo: i128 = (self.min as i128) * (den as i128);
        let hi: i128 = (self.max as i128) * (den as i128);
        if num < lo || num >= hi {
            return None;
        }
        let ghost cells = self.cells as int;
        let offset: u128 = (num - lo) as u128;
        let span: u128 = (hi - lo) as u128;
        assert(span == (max - min) * den && span <= 0xffff_ffff * 0xffff_ffff_ffff_ffff) by (nonlinear_arith)
            requires
                span == max * den - min * den,
                0 < max - min <= 0xffff_ffff,
                0 < den <= 0xffff_ffff_ffff_ffff,
        ;
        assert(offset * cells < 0xffff_ffff * 0xffff_ffff_ffff_ffff * 0xffff_ffff) by (nonlinear_arith)
            requires
                0 <= offset < span,
                span <= 0xffff_ffff * 0xffff_ffff_ffff_ffff,
                0 < cells <= 0xffff_ffff,
        ;
        let index: u128 = offset * (self.cells as u128) / span;
        proof {
            lemma_scale_down(offset as int, span as int, cells);
        }
        Some(index as u32)
    }
}

/// A fraction of a whole number of parts is one of the parts: for
/// `0 <= offset < span`, the quotient `offset * cells / span` is at least 0
/// and less than `cells`.
pub proof fn lemma_scale_down(offset: int, span: int, cells: int)
    requires
        0 <= offset < span,
        0 < cells,
    ensures
        0 <= (offset * cells) / span < cells,
{
    assert(0 <= offset * cells < span * cells) by (nonlinear_arith)
        requires
            0 <= offset < span,
            0 < cells,
    ;
    assert(0 <= (offset * cells) / span < cells) by (nonlinear_arith)
        requires
            0 <= offset * cells < span * cells,
            0 < span,
    ;
}

/// The window of logical space that a grid shows: the bounds of both axes,
/// the size of the grid in terminal cells, and the marker, which says how
/// many sub-cells a terminal cell holds each way.
#[derive(Clone, Copy, Debug, PartialEq, Eq)]
pub struct Viewport {
    /// The lower and the upper bound of the horizontal axis.
    pub x_bounds: [i32; 2],
    /// The lower and the upper bound of the vertical axis.
    pub y_bounds: [i32; 2],
    /// Width of the grid in terminal cells.
    pub width: u16,
    /// Height of the grid in terminal cells.
    pub height: u16,
    /// The marker that points are drawn with.
    pub marker: Marker,
}

impl Viewport {
    /// The number of sub-columns of the grid.
    pub open spec fn cols(self) -> nat {
        self.width as nat * self.marker.sub_width()
    }

    /// The number of sub-rows of the grid.
    pub open spec fn rows(self) -> nat {
        self.height as nat * self.marker.sub_height()
    }

    /// The horizontal axis: the `x` bounds, divided into the sub-columns.
    pub open spec fn x_axis(self) -> Axis {
        Axis { min: self.x_bounds[0], max: self.x_bounds[1], cells: self.cols() as u32 }
    }

    /// The vertical axis: the `y` bounds, divided into the sub-rows.
    pub open spec fn y_axis(self) -> Axis {
        Axis { min: self.y_bounds[0], max: self.y_bounds[1], cells: self.rows() as u32 }
    }

    /// The sub-cell that holds the point `(x / scale, y / scale)`, as its
    /// sub-column and its sub-row. Each axis is searched on its own, and the
    /// point has a sub-cell where both cover it. Sub-column 0 lies at the
    /// lower `x` bound and sub-row 0 at the lower `y` bound.
    pub open spec fn project(self, x: int, y: int, scale: int) -> Option<(int, int)> {
        match (self.x_axis().locate(x, scale), self.y_axis().locate(y, scale)) {
            (Some(col), Some(row)) => Some((col, row)),
            _ => None,
        }
    }

    /// Twice the middle of the viewport.
    pub open spec fn middle(self) -> (int, int) {
        (self.x_bounds[0] + self.x_bounds[1], self.y_bounds[0] + self.y_bounds[1])
    }

    /// The width and the height of the viewport, in logical units.
    pub open spec fn size(self) -> (int, int) {
        (self.x_bounds[1] - self.x_bounds[0], self.y_bounds[1] - self.y_bounds[0])
    }

    /// A projected point lies on the grid.
    pub proof fn lemma_project_range(self, x: int, y: int, scale: int)
        ensures
            self.project(x, y, scale) matches Some(p) ==> 0 <= p.0 < self.cols() && 0 <= p.1
                < self.rows(),
    {
        self.lemma_resolution();
        self.x_axis().lemma_locate_range(x, scale);
        self.y_axis().lemma_locate_range(y, scale);
    }

    /// The resolution of the largest grid fits the axes.
    pub proof fn lemma_resolution(self)
        ensures
            self.cols() <= 2 * 0xffff,
            self.rows() <= 4 * 0xffff,
            self.x_axis().cells == self.cols(),
            self.y_axis().cells == self.rows(),
    {
        let sw = self.marker.sub_width();
        let sh = self.marker.sub_height();
        assert(self.width * sw <= 2 * 0xffff) by (nonlinear_arith)
            requires
                self.width <= 0xffff,
                sw <= 2,
        ;
        assert(self.height * sh <= 4 * 0xffff) by (nonlinear_arith)
            requires
                self.height <= 0xffff,
                sh <= 4,
        ;
    }

    /// The boundary policy, for each axis by itself. A point on the lower
    /// bound of an axis has a sub-cell wherever the other axis covers it: in
    /// sub-column 0 for the horizontal axis, in sub-row 0 for the vertical
    /// one. A point on the upper bound of an axis has none. Here `(x, y)`,
    /// over `scale`, is any point.
    pub proof fn lemma_bounds_policy(self, x: int, y: int, scale: int)
        requires
            self.x_axis().proper(),
            self.y_axis().proper(),
            scale > 0,
        ensures
            self.y_axis().covers(y, scale) ==> (self.project(self.x_bounds[0] * scale, y, scale)
                matches Some(p) && p.0 == 0),
            self.project(self.x_bounds[1] * scale, y, scale) is None,
            self.x_axis().covers(x, scale) ==> (self.project(x, self.y_bounds[0] * scale, scale)
                matches Some(p) && p.1 == 0),
            self.project(x, self.y_bounds[1] * scale, scale) is None,
    {
        self.x_axis().lemma_bounds(self.x_bounds[0] * scale, self.x_bounds[1] * scale, scale);
        self.y_axis().lemma_bounds(self.y_bounds[0] * scale, self.y_bounds[1] * scale, scale);
    }

    /// The viewport with the given bounds on a grid of `width` by `height`
    /// terminal cells.
    pub fn new(
        x_bounds: [i32; 2],
        y_bounds: [i32; 2],
        width: u16,
        height: u16,
        marker: Marker,
    ) -> (viewport: Viewport)
        ensures
            viewport == (Viewport { x_bounds, y_bounds, width, height, marker }),
    {
        Viewport { x_bounds, y_bounds, width, height, marker }
    }

    /// The number of sub-columns and of sub-rows of the grid.
    pub fn resolution(&self) -> (res: (u32, u32))
        ensures
            res.0 == self.cols(),
            res.1 == self.rows(),
    {
        proof {
            self.lemma_resolution();
        }
        let (sw, sh) = self.marker.cell_size();
        ((self.width as u32) * (sw as u32), (self.height as u32) * (sh as u32))
    }

    /// The sub-cell that holds the point `(x / scale, y / scale)`, if the
    /// viewport covers the point.
    pub fn point(&self, x: i128, y: i128, scale: u64) -> (p: Option<(usize, usize)>)
        ensures
            p is None <==> self.project(x as int, y as int, scale as int) is None,
            p matches Some(q) ==> self.project(x as int, y as int, scale as int) == Some(
                (q.0 as int, q.1 as int),
            ),
            p matches Some(q) ==> q.0 < self.cols() && q.1 < self.rows(),
    {
        proof {
            self.lemma_project_range(x as int, y as int, scale as int);
        }
        let (cols, rows) = self.resolution();
        let across = Axis { min: self.x_bounds[0], max: self.x_bounds[1], cells: cols };
        let up = Axis { min: self.y_bounds[0], max: self.y_bounds[1], cells: rows };
        match across.find(x, scale) {
            Some(col) => match up.find(y, scale) {
                Some(row) => Some((col as usize, row as usize)),
                None => None,
            },
            None => None,
        }
    }
}

} // verus!
