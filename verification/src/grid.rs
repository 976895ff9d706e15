//! The grid accumulator: one pattern of sub-positions and one color per
//! terminal cell.

use vstd::prelude::*;
use ratatui_core::style::Color;
use crate::marker::Marker;

verus! {

/// What one terminal cell has accumulated.
#[derive(Clone, Copy, Debug, PartialEq, Eq)]
pub struct Cell {
    /// The sub-positions that were painted, one bit each, in row-major order:
    /// bit `sx + sub_width * sy` stands for sub-column `sx` of sub-row `sy`.
    pub pattern: u8,
    /// The color of the latest paint into this cell, if any.
    pub color: Option<Color>,
}

impl Cell {
    /// A cell that nothing was painted into.
    pub open spec fn blank() -> Cell {
        Cell { pattern: 0, color: None }
    }
}

/// One paint call: a sub-cell position and the color to paint it with.
pub struct Stroke {
    /// Sub-column, counted from 0.
    pub x: nat,
    /// Sub-row, counted from 0.
    pub y: nat,
    /// The color.
    pub color: Color,
}

/// The mathematical content of a [`Grid`].
pub struct GridModel {
    /// Width in terminal cells.
    pub width: nat,
    /// Height in terminal cells.
    pub height: nat,
    /// The marker, which fixes how a cell is subdivided.
    pub marker: Marker,
    /// The cells, row by row, from row 0.
    pub cells: Seq<Cell>,
}

impl GridModel {
    /// There is one cell for every position of the grid.
    pub open spec fn wf(self) -> bool {
        self.cells.len() == self.width * self.height
    }

    /// Number of sub-columns.
    pub open spec fn cols(self) -> nat {
        self.width * self.marker.sub_width()
    }

    /// Number of sub-rows.
    pub open spec fn rows(self) -> nat {
        self.height * self.marker.sub_height()
    }

    /// The grid of the given size in which nothing is painted.
    pub open spec fn blank(width: nat, height: nat, marker: Marker) -> GridModel {
        GridModel { width, height, marker, cells: Seq::new(width * height, |i: int| Cell::blank()) }
    }

    /// Index of the terminal cell that holds sub-cell `(x, y)`.
    pub open spec fn cell_of(self, x: nat, y: nat) -> int {
        (y as int / self.marker.sub_height() as int) * self.width + x as int
            / self.marker.sub_width() as int
    }

    /// The bit that stands for sub-cell `(x, y)` in the pattern of its cell.
    pub open spec fn dot(self, x: nat, y: nat) -> u8 {
        let sx = x % self.marker.sub_width();
        let sy = y % self.marker.sub_height();
        1u8 << ((sx + self.marker.sub_width() * sy) as u8)
    }

    /// Whether sub-cell `(x, y)` lies on the grid.
    pub open spec fn holds(self, x: nat, y: nat) -> bool {
        x < self.cols() && y < self.rows()
    }

    /// The grid after one paint call. The bit of the sub-cell is added to the
    /// pattern of its cell, and the cell's color is replaced. A position
    /// that is not on the grid changes nothing.
    pub open spec fn paint(self, x: nat, y: nat, color: Color) -> GridModel {
        if self.holds(x, y) {
            let i = self.cell_of(x, y);
            let cell = Cell { pattern: self.cells[i].pattern | self.dot(x, y), color: Some(color) };
            GridModel { cells: self.cells.update(i, cell), ..self }
        } else {
            self
        }
    }

    /// The grid after a sequence of paint calls, made in order.
    pub open spec fn paint_all(self, strokes: Seq<Stroke>) -> GridModel
        decreases strokes.len(),
    {
        if strokes.len() == 0 {
            self
        } else {
            let s = strokes.last();
            self.paint_all(strokes.drop_last()).paint(s.x, s.y, s.color)
        }
    }

    /// A sub-cell of the grid lies in one of its cells.
    pub proof fn lemma_cell_of_bound(self, x: nat, y: nat)
        requires
            self.wf(),
            self.holds(x, y),
        ensures
            0 <= self.cell_of(x, y) < self.cells.len(),
            x / self.marker.sub_width() < self.width,
            y / self.marker.sub_height() < self.height,
            (x % self.marker.sub_width()) + self.marker.sub_width() * (y % self.marker.sub_height()) < 8,
    {
        let sw = self.marker.sub_width() as int;
        let sh = self.marker.sub_height() as int;
        let w = self.width as int;
        let h = self.height as int;
        let cx = x as int / sw;
        let cy = y as int / sh;
        assert(cx < w) by (nonlinear_arith)
            requires
                0 <= x < w * sw,
                sw > 0,
                cx == x as int / sw,
        ;
        assert(cy < h) by (nonlinear_arith)
            requires
                0 <= y < h * sh,
                sh > 0,
                cy == y as int / sh,
        ;
        assert(0 <= cy * w + cx < w * h) by (nonlinear_arith)
            requires
                0 <= cx < w,
                0 <= cy < h,
        ;
    }

    /// Painting keeps the size of the grid.
    pub proof fn lemma_paint_wf(self, x: nat, y: nat, color: Color)
        requires
            self.wf(),
        ensures
            self.paint(x, y, color).wf(),
            self.paint(x, y, color).width == self.width,
            self.paint(x, y, color).height == self.height,
            self.paint(x, y, color).marker == self.marker,
    {
        if self.holds(x, y) {
            self.lemma_cell_of_bound(x, y);
        }
    }

    /// A sequence of paint calls keeps the size of the grid.
    pub proof fn lemma_paint_all_wf(self, strokes: Seq<Stroke>)
        requires
            self.wf(),
        ensures
            self.paint_all(strokes).wf(),
            self.paint_all(strokes).width == self.width,
            self.paint_all(strokes).height == self.height,
            self.paint_all(strokes).marker == self.marker,
        decreases strokes.len(),
    {
        if strokes.len() > 0 {
            let s = strokes.last();
            self.lemma_paint_all_wf(strokes.drop_last());
            self.paint_all(strokes.drop_last()).lemma_paint_wf(s.x, s.y, s.color);
        }
    }

    /// Painting one more stroke after a sequence is painting the longer
    /// sequence.
    pub proof fn lemma_paint_all_push(self, strokes: Seq<Stroke>, s: Stroke)
        ensures
            self.paint_all(strokes.push(s)) == self.paint_all(strokes).paint(s.x, s.y, s.color),
    {
        assert(strokes.push(s).drop_last() =~= strokes);
    }
}

impl GridModel {
    /// Whether the stroke paints into cell `i`.
    pub open spec fn hits(self, s: Stroke, i: int) -> bool {
        self.holds(s.x, s.y) && self.cell_of(s.x, s.y) == i
    }

    /// The bits that the strokes add to the pattern of cell `i`: the union of
    /// the bits of those strokes that paint into the cell.
    pub open spec fn contribution(self, strokes: Seq<Stroke>, i: int) -> u8
        decreases strokes.len(),
    {
        if strokes.len() == 0 {
            0
        } else {
            let s = strokes.last();
            let before = self.contribution(strokes.drop_last(), i);
            if self.hits(s, i) {
                before | self.dot(s.x, s.y)
            } else {
                before
            }
        }
    }

    /// The color of the last of the strokes that paints into cell `i`, if
    /// one does.
    pub open spec fn last_color(self, strokes: Seq<Stroke>, i: int) -> Option<Color>
        decreases strokes.len(),
    {
        if strokes.len() == 0 {
            None
        } else {
            let s = strokes.last();
            if self.hits(s, i) {
                Some(s.color)
            } else {
                self.last_color(strokes.drop_last(), i)
            }
        }
    }

    /// Bits accumulate and the last color wins: after a sequence of
    /// strokes, the pattern of a cell is what it was, joined with the
    /// contribution of the strokes, and its color is that of the last stroke
    /// that painted into it, or what it was if none did.
    pub proof fn lemma_paint_all_cell(self, strokes: Seq<Stroke>, i: int)
        requires
            self.wf(),
            0 <= i < self.cells.len(),
        ensures
            self.paint_all(strokes).cells[i].pattern == self.cells[i].pattern | self.contribution(
                strokes,
                i,
            ),
            self.paint_all(strokes).cells[i].color == match self.last_color(strokes, i) {
                Some(c) => Some(c),
                None => self.cells[i].color,
            },
        decreases strokes.len(),
    {
        let was = self.cells[i].pattern;
        if strokes.len() == 0 {
            assert(was | 0u8 == was) by (bit_vector);
        } else {
            let s = strokes.last();
            let before = self.paint_all(strokes.drop_last());
            self.lemma_paint_all_cell(strokes.drop_last(), i);
            self.lemma_paint_all_wf(strokes.drop_last());
            if before.holds(s.x, s.y) {
                before.lemma_cell_of_bound(s.x, s.y);
            }
            let added = self.contribution(strokes.drop_last(), i);
            let bit = self.dot(s.x, s.y);
            assert((was | added) | bit == was | (added | bit)) by (bit_vector);
        }
    }

    /// Every sub-cell has a bit.
    pub proof fn lemma_dot_nonzero(self, x: nat, y: nat)
        ensures
            self.dot(x, y) != 0,
    {
        let sw = self.marker.sub_width();
        let sh = self.marker.sub_height();
        let shift = ((x % sw) + sw * (y % sh)) as u8;
        assert((x % sw) + sw * (y % sh) < 8) by (nonlinear_arith)
            requires
                0 <= x % sw < sw <= 2,
                0 <= y % sh < sh <= 4,
        ;
        assert(1u8 << shift != 0) by (bit_vector)
            requires
                shift < 8,
        ;
    }

    /// Strokes that add no bit to a cell do not paint into it, and so leave
    /// its color alone.
    pub proof fn lemma_contribution_none(self, strokes: Seq<Stroke>, i: int)
        requires
            self.contribution(strokes, i) == 0,
        ensures
            self.last_color(strokes, i) is None,
        decreases strokes.len(),
    {
        if strokes.len() > 0 {
            let s = strokes.last();
            let before = self.contribution(strokes.drop_last(), i);
            if self.hits(s, i) {
                let bit = self.dot(s.x, s.y);
                self.lemma_dot_nonzero(s.x, s.y);
                assert(before | bit != 0) by (bit_vector)
                    requires
                        bit != 0,
                ;
            } else {
                self.lemma_contribution_none(strokes.drop_last(), i);
            }
        }
    }

    /// Strokes that add a bit to a cell hold one that paints into the cell.
    pub proof fn lemma_contribution_hit(self, strokes: Seq<Stroke>, i: int)
        requires
            self.contribution(strokes, i) != 0,
        ensures
            exists|k: int| 0 <= k < strokes.len() && self.hits(#[trigger] strokes[k], i),
        decreases strokes.len(),
    {
        let s = strokes.last();
        if self.hits(s, i) {
            assert(self.hits(strokes[strokes.len() - 1], i));
        } else {
            self.lemma_contribution_hit(strokes.drop_last(), i);
            let k = choose|k: int|
                0 <= k < strokes.drop_last().len() && self.hits(
                    #[trigger] strokes.drop_last()[k],
                    i,
                );
            assert(strokes.drop_last()[k] == strokes[k]);
        }
    }

    /// Strokes of one color leave that color in every cell that one of them
    /// paints into.
    pub proof fn lemma_last_color_uniform(self, strokes: Seq<Stroke>, i: int, color: Color)
        requires
            forall|k: int| 0 <= k < strokes.len() ==> (#[trigger] strokes[k]).color == color,
            exists|k: int| 0 <= k < strokes.len() && self.hits(#[trigger] strokes[k], i),
        ensures
            self.last_color(strokes, i) == Some(color),
        decreases strokes.len(),
    {
        let s = strokes.last();
        if !self.hits(s, i) {
            let k = choose|k: int| 0 <= k < strokes.len() && self.hits(#[trigger] strokes[k], i);
            assert(strokes.drop_last()[k] == strokes[k]);
            self.lemma_last_color_uniform(strokes.drop_last(), i, color);
        }
    }

    /// Where two shapes overlap, the later one gives the color and both give
    /// their bits. With `first` the strokes of the shape drawn first and
    /// `second` those of the shape drawn after it, all in the color `color`:
    /// in a cell that `second` paints into, the color at the end is `color`,
    /// and the pattern is what the cell held before, joined with the
    /// contributions of both.
    pub proof fn lemma_overlap(
        self,
        first: Seq<Stroke>,
        second: Seq<Stroke>,
        i: int,
        color: Color,
    )
        requires
            self.wf(),
            0 <= i < self.cells.len(),
            forall|k: int| 0 <= k < second.len() ==> (#[trigger] second[k]).color == color,
            exists|k: int| 0 <= k < second.len() && self.hits(#[trigger] second[k], i),
        ensures
            self.paint_all(first).paint_all(second).cells[i].color == Some(color),
            self.paint_all(first).paint_all(second).cells[i].pattern == self.cells[i].pattern
                | self.contribution(first, i) | self.contribution(second, i),
    {
        let middle = self.paint_all(first);
        self.lemma_paint_all_wf(first);
        self.lemma_paint_all_cell(first, i);
        middle.lemma_paint_all_cell(second, i);
        middle.lemma_same_size(self, second, i);
        self.lemma_last_color_uniform(second, i, color);
    }

    /// Which cells strokes paint into, and with which bits, depends on the
    /// size and the marker of the grid only.
    pub proof fn lemma_same_size(self, other: GridModel, strokes: Seq<Stroke>, i: int)
        requires
            self.width == other.width,
            self.height == other.height,
            self.marker == other.marker,
        ensures
            self.contribution(strokes, i) == other.contribution(strokes, i),
            self.last_color(strokes, i) == other.last_color(strokes, i),
        decreases strokes.len(),
    {
        if strokes.len() > 0 {
            self.lemma_same_size(other, strokes.drop_last(), i);
        }
    }
}

/// The grid accumulator of one render pass.
#[derive(Debug)]
pub struct Grid {
    width: u16,
    height: u16,
    marker: Marker,
    cells: Vec<Cell>,
}

impl View for Grid {
    type V = GridModel;

    closed spec fn view(&self) -> GridModel {
        GridModel {
            width: self.width as nat,
            height: self.height as nat,
            marker: self.marker,
            cells: self.cells@,
        }
    }
}

impl Grid {
    /// The grid holds one cell for every position.
    pub open spec fn wf(&self) -> bool {
        self@.wf()
    }

    /// A grid of `width` by `height` terminal cells in which nothing is
    /// painted.
    pub fn new(width: u16, height: u16, marker: Marker) -> (grid: Grid)
        ensures
            grid.wf(),
            grid@ == GridModel::blank(width as nat, height as nat, marker),
    {
        assert(width * height <= 0xffff * 0xffff) by (nonlinear_arith)
            requires
                width <= 0xffff,
                height <= 0xffff,
        ;
        let total: usize = (width as usize) * (height as usize);
        let mut cells: Vec<Cell> = Vec::new();
        let mut i: usize = 0;
        while i < total
            invariant
                i <= total,
                cells@.len() == i,
                forall|k: int| 0 <= k < i ==> cells@[k] == Cell::blank(),
            decreases total - i,
        {
            cells.push(Cell { pattern: 0, color: None });
            i += 1;
        }
        let grid = Grid { width, height, marker, cells };
        assert(grid@.cells =~= GridModel::blank(width as nat, height as nat, marker).cells);
        grid
    }

    /// Width in terminal cells.
    pub fn width(&self) -> (w: u16)
        ensures
            w == self@.width,
    {
        self.width
    }

    /// Height in terminal cells.
    pub fn height(&self) -> (h: u16)
        ensures
            h == self@.height,
    {
        self.height
    }

    /// The marker that the grid was made for.
    pub fn marker(&self) -> (m: Marker)
        ensures
            m == self@.marker,
    {
        self.marker
    }

    /// The number of sub-columns and sub-rows.
    pub fn resolution(&self) -> (res: (usize, usize))
        ensures
            res.0 == self@.cols(),
            res.1 == self@.rows(),
    {
        let (sw, sh) = self.marker.cell_size();
        assert((self.width as usize) * sw <= 2 * 0xffff) by (nonlinear_arith)
            requires
                self.width <= 0xffff,
                sw <= 2,
        ;
        assert((self.height as usize) * sh <= 4 * 0xffff) by (nonlinear_arith)
            requires
                self.height <= 0xffff,
                sh <= 4,
        ;
        ((self.width as usize) * sw, (self.height as usize) * sh)
    }

    /// The cells, row by row, from row 0.
    pub fn cells(&self) -> (cells: &Vec<Cell>)
        ensures
            cells@ == self@.cells,
    {
        &self.cells
    }

    /// The cell in column `col` of row `row`, where the grid has one.
    pub fn cell(&self, col: u16, row: u16) -> (cell: Option<Cell>)
        requires
            self.wf(),
        ensures
            cell == if col < self@.width && row < self@.height {
                Some(self@.cells[row * self@.width + col])
            } else {
                None
            },
    {
        if col < self.width && row < self.height {
            assert(0 <= row * self.width + col < self.width * self.height && row * self.width
                <= 0xffff * 0xffff) by (nonlinear_arith)
                requires
                    0 <= col < self.width,
                    0 <= row < self.height,
                    self.width <= 0xffff,
                    self.height <= 0xffff,
            ;
            let index: usize = (row as usize) * (self.width as usize) + (col as usize);
            Some(self.cells[index])
        } else {
            None
        }
    }

    /// Paints sub-cell `(x, y)`: its bit is added to the pattern of the cell
    /// that holds it, and that cell takes `color`, whatever color it had. A
    /// position outside the grid is ignored.
    pub fn paint(&mut self, x: usize, y: usize, color: Color)
        requires
            old(self).wf(),
        ensures
            final(self).wf(),
            final(self)@ == old(self)@.paint(x as nat, y as nat, color),
    {
        let (cols, rows) = self.resolution();
        if x < cols && y < rows {
            let (sw, sh) = self.marker.cell_size();
            proof {
                self@.lemma_cell_of_bound(x as nat, y as nat);
                assert((y / sh) * self.width <= 0xffff * 0xffff) by (nonlinear_arith)
                    requires
                        0 <= y / sh < self.height,
                        self.width <= 0xffff,
                        self.height <= 0xffff,
                ;
            }
            let index: usize = (y / sh) * (self.width as usize) + x / sw;
            let shift: u8 = ((x % sw) + sw * (y % sh)) as u8;
            let cell: Cell = self.cells[index];
            let painted = Cell { pattern: cell.pattern | (1u8 << shift), color: Some(color) };
            self.cells.set(index, painted);
            assert(self@.cells =~= old(self)@.paint(x as nat, y as nat, color).cells);
        }
    }
}

} // verus!
