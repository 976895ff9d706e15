//! The circle.

use vstd::prelude::*;
use ratatui_core::style::Color;
use crate::grid::{GridModel, Stroke};
use crate::painter::Painter;
use crate::shape::Shape;
use crate::trig::{cos_deg, cosine, lemma_half_turn, lemma_unit_length, sin_deg, sine, UNIT};
use crate::viewport::Viewport;

verus! {

/// A circle with a given center and radius and with a given color.
///
/// The circle is drawn as 360 points, one for every whole degree. A radius
/// below zero gives the same points as the radius without its sign, half a
/// turn further on.
#[derive(Debug, Default, Clone, Copy, PartialEq)]
pub struct Circle {
    /// `x` coordinate of the circle's center
    pub x: i32,
    /// `y` coordinate of the circle's center
    pub y: i32,
    /// Radius of the circle
    pub radius: i32,
    /// Color of the circle
    pub color: Color,
}

impl Circle {
    /// Create a new circle with the given center, radius, and color
    pub fn new(x: i32, y: i32, radius: i32, color: Color) -> (circle: Circle)
        ensures
            circle == (Circle { x, y, radius, color }),
    {
        Circle { x, y, radius, color }
    }

    /// The point of the circle at `deg` degrees, as its coordinates times
    /// `UNIT`: the center, moved by the radius in the direction of the angle.
    pub open spec fn sample(self, deg: int) -> (int, int) {
        (self.x * UNIT + self.radius * cosine(deg), self.y * UNIT + self.radius * sine(deg))
    }

    /// The paint calls for the points at 0, 1, .. `n - 1` degrees: one for
    /// every point that the viewport covers, in the circle's color.
    pub open spec fn strokes_upto(self, viewport: Viewport, n: nat) -> Seq<Stroke>
        decreases n,
    {
        if n == 0 {
            Seq::empty()
        } else {
            let before = self.strokes_upto(viewport, (n - 1) as nat);
            let at = self.sample(n - 1);
            match viewport.project(at.0, at.1, UNIT as int) {
                Some(p) => before.push(Stroke { x: p.0 as nat, y: p.1 as nat, color: self.color }),
                None => before,
            }
        }
    }
}

impl Circle {
    /// Whether the circle lies clear of the viewport: the distance from the
    /// middle of the viewport to the center of the circle, less the radius
    /// without its sign, is greater than half the diagonal of the viewport.
    ///
    /// With `d` that distance, `r` the radius without its sign and `h` half
    /// the diagonal, none of them below zero, `d - r > h` says as much as
    /// `d * d > r * r + h * h` together with
    /// `(d * d - r * r - h * h)^2 > 4 * r * r * h * h`. All lengths are
    /// taken twice, which makes the squares whole numbers and the test exact.
    pub open spec fn clear_of(self, viewport: Viewport) -> bool {
        let middle = viewport.middle();
        let size = viewport.size();
        let across = 2 * self.x - middle.0;
        let up = 2 * self.y - middle.1;
        let gap = across * across + up * up;
        let reach = (2 * self.radius) * (2 * self.radius);
        let half = size.0 * size.0 + size.1 * size.1;
        gap > reach + half && (gap - reach - half) * (gap - reach - half) > 4 * reach * half
    }

    /// The radius without its sign.
    pub open spec fn reach(self) -> int {
        if self.radius < 0 {
            -self.radius
        } else {
            self.radius as int
        }
    }

    /// Every sampled point lies on the circle, to within a thousand
    /// millionth of a logical unit: with `d` the distance of the point from
    /// the center and `r` the radius without its sign,
    /// `r - 10^-9 <= d <= r`. The offsets `dx` and `dy` are those of the
    /// sample, which are `UNIT` times the logical ones, and the claim is
    /// stated over the squares.
    pub proof fn lemma_sample_distance(self, deg: int)
        requires
            0 <= deg < 360,
        ensures
            ({
                let dx = self.sample(deg).0 - self.x * UNIT;
                let dy = self.sample(deg).1 - self.y * UNIT;
                let r = self.reach();
                &&& dx * dx + dy * dy <= (r * r) * (UNIT * UNIT)
                &&& r > 0 ==> 1_000_000_000int * 1_000_000_000int * (dx * dx + dy * dy) >= ((
                1_000_000_000int * r - 1) * (1_000_000_000int * r - 1)) * (UNIT * UNIT)
            }),
    {
        lemma_unit_length(deg);
        let c = cosine(deg);
        let s = sine(deg);
        let signed = self.radius as int;
        let r = self.reach();
        let unit: int = 4611686018427387904;
        assert(UNIT == unit);
        let whole = UNIT * UNIT;
        let length = c * c + s * s;
        let square = r * r;
        assert(signed * signed == square) by (nonlinear_arith)
            requires
                signed == r || signed == -r,
                square == r * r,
        ;
        assert((signed * c) * (signed * c) + (signed * s) * (signed * s) == square * length)
            by (nonlinear_arith)
            requires
                length == c * c + s * s,
                square == signed * signed,
        ;
        assert(square >= 0) by (nonlinear_arith)
            requires
                square == r * r,
        ;
        assert(square * length <= square * whole && square * length >= square * (whole - 3 * unit))
            by (nonlinear_arith)
            requires
                whole - 3 * unit <= length <= whole,
                square >= 0,
        ;
        if r > 0 {
            let big: int = 1_000_000_000_000_000_000;
            assert(big == 1_000_000_000int * 1_000_000_000int);
            let nine = 1_000_000_000int * r - 1;
            // Twice the radius, less the tolerance, outweighs what the table cuts off.
            let spare = 2_000_000_000int * unit - 3 * big * r;
            assert(spare >= unit);
            assert(r * spare >= unit) by (nonlinear_arith)
                requires
                    r >= 1,
                    spare >= unit,
                    unit > 0,
            ;
            assert(r * spare == 2_000_000_000int * r * unit - 3 * big * square) by (nonlinear_arith)
                requires
                    spare == 2_000_000_000int * unit - 3 * big * r,
                    square == r * r,
            ;
            assert(nine * nine == big * square - 2_000_000_000int * r + 1) by (nonlinear_arith)
                requires
                    nine == 1_000_000_000int * r - 1,
                    big == 1_000_000_000_000_000_000int,
                    square == r * r,
            ;
            // In what follows `unit` and `whole` are numbers, so all is linear but `os`.
            assert(whole == unit * unit);
            let os = square * unit;
            assert(square * (whole - 3 * unit) == os * unit - 3 * os) by (nonlinear_arith)
                requires
                    os == square * unit,
                    whole == unit * unit,
            ;
            assert(nine * nine * whole == big * (os * unit) - (2_000_000_000int * r - 1) * whole)
                by (nonlinear_arith)
                requires
                    nine * nine == big * square - 2_000_000_000int * r + 1,
                    os == square * unit,
                    whole == unit * unit,
            ;
            assert((2_000_000_000int * r - 1) * whole >= 3 * big * os) by (nonlinear_arith)
                requires
                    2_000_000_000int * r * unit - 3 * big * square >= unit,
                    os == square * unit,
                    whole == unit * unit,
                    unit > 0,
            ;
            assert(big * (square * length) >= big * (os * unit - 3 * os)) by (nonlinear_arith)
                requires
                    square * length >= os * unit - 3 * os,
                    big > 0,
            ;
            assert(big * (square * length) >= (nine * nine) * whole);
        }
    }

    /// Every stroke of a circle has the circle's color.
    pub proof fn lemma_strokes_color(self, viewport: Viewport, n: nat)
        ensures
            forall|k: int|
                0 <= k < self.strokes_upto(viewport, n).len() ==> (#[trigger] self.strokes_upto(
                    viewport,
                    n,
                )[k]).color == self.color,
        decreases n,
    {
        if n > 0 {
            self.lemma_strokes_color(viewport, (n - 1) as nat);
            let before = self.strokes_upto(viewport, (n - 1) as nat);
            let strokes = self.strokes_upto(viewport, n);
            assert forall|k: int| 0 <= k < strokes.len() implies (#[trigger] strokes[k]).color
                == self.color by {
                if k < before.len() {
                    assert(strokes[k] == before[k]);
                }
            }
        }
    }

    /// No sampled point of a circle that lies clear of the viewport has a
    /// sub-cell.
    pub proof fn lemma_clear_sample(self, viewport: Viewport, deg: int)
        requires
            0 <= deg < 360,
            self.clear_of(viewport),
        ensures
            viewport.project(self.sample(deg).0, self.sample(deg).1, UNIT as int) is None,
    {
        let at = self.sample(deg);
        let unit = UNIT as int;
        if viewport.x_axis().covers(at.0, unit) && viewport.y_axis().covers(at.1, unit) {
            let middle = viewport.middle();
            let size = viewport.size();
            let r = self.radius as int;
            let c = cosine(deg);
            let s = sine(deg);
            // The sample and the middle, in steps of which `2 * UNIT` make a logical unit.
            viewport.x_axis().lemma_covered_near_middle(at.0, unit);
            viewport.y_axis().lemma_covered_near_middle(at.1, unit);
            let off = (2 * at.0 - unit * middle.0, 2 * at.1 - unit * middle.1);
            let half = (unit * size.0, unit * size.1);
            assert(off.0 * off.0 <= half.0 * half.0);
            assert(off.1 * off.1 <= half.1 * half.1);
            // From the middle to the center, and from the center to the sample.
            let across = 2 * self.x - middle.0;
            let up = 2 * self.y - middle.1;
            let a = (unit * across, unit * up);
            let b = ((2 * r) * c, (2 * r) * s);
            assert(a.0 + b.0 == off.0) by (nonlinear_arith)
                requires
                    a.0 == unit * (2 * self.x - middle.0),
                    b.0 == (2 * r) * c,
                    off.0 == 2 * (self.x * unit + r * c) - unit * middle.0,
            ;
            assert(a.1 + b.1 == off.1) by (nonlinear_arith)
                requires
                    a.1 == unit * (2 * self.y - middle.1),
                    b.1 == (2 * r) * s,
                    off.1 == 2 * (self.y * unit + r * s) - unit * middle.1,
            ;
            let whole = unit * unit;
            let gap = across * across + up * up;
            let reach = (2 * r) * (2 * r);
            let room = size.0 * size.0 + size.1 * size.1;
            lemma_unit_length(deg);
            let length = c * c + s * s;
            assert(b.0 * b.0 + b.1 * b.1 == reach * length) by (nonlinear_arith)
                requires
                    b.0 == (2 * r) * c,
                    b.1 == (2 * r) * s,
                    reach == (2 * r) * (2 * r),
                    length == c * c + s * s,
            ;
            assert(reach * length <= reach * whole) by (nonlinear_arith)
                requires
                    length <= whole,
                    reach == (2 * r) * (2 * r),
            ;
            assert(a.0 * a.0 + a.1 * a.1 == whole * gap) by (nonlinear_arith)
                requires
                    a.0 == unit * across,
                    a.1 == unit * up,
                    gap == across * across + up * up,
                    whole == unit * unit,
            ;
            assert(half.0 * half.0 + half.1 * half.1 == whole * room) by (nonlinear_arith)
                requires
                    half.0 == unit * size.0,
                    half.1 == unit * size.1,
                    room == size.0 * size.0 + size.1 * size.1,
                    whole == unit * unit,
            ;
            assert(room >= 0) by (nonlinear_arith)
                requires
                    room == size.0 * size.0 + size.1 * size.1,
            ;
            assert(whole > 0) by (nonlinear_arith)
                requires
                    whole == unit * unit,
                    unit > 0,
            ;
            let free = gap - reach - room;
            assert(whole * gap - reach * whole - whole * room == whole * free) by (nonlinear_arith)
                requires
                    free == gap - reach - room,
            ;
            assert((whole * free) * (whole * free) > 4 * (reach * whole) * (whole * room))
                by (nonlinear_arith)
                requires
                    free * free > 4 * reach * room,
                    whole > 0,
            ;
            assert(whole * gap > reach * whole + whole * room) by (nonlinear_arith)
                requires
                    gap > reach + room,
                    whole > 0,
            ;
            assert(whole * room >= 0) by (nonlinear_arith)
                requires
                    room >= 0,
                    whole > 0,
            ;
            lemma_far_point(a, b, reach * whole, whole * room);
        }
    }

    /// The first `n` points of a circle that lies clear of the viewport make
    /// no stroke.
    pub proof fn lemma_clear_strokes_upto(self, viewport: Viewport, n: nat)
        requires
            n <= 360,
            self.clear_of(viewport),
        ensures
            self.strokes_upto(viewport, n) == Seq::<Stroke>::empty(),
        decreases n,
    {
        if n > 0 {
            self.lemma_clear_strokes_upto(viewport, (n - 1) as nat);
            self.lemma_clear_sample(viewport, n - 1);
        }
    }

    /// A circle that lies clear of the viewport paints nothing: drawing it
    /// makes no stroke, and so leaves `grid`, whatever it holds, as it was.
    pub proof fn lemma_clear_paints_nothing(self, viewport: Viewport, grid: GridModel)
        requires
            self.clear_of(viewport),
        ensures
            self.strokes(viewport).len() == 0,
            grid.paint_all(self.strokes(viewport)) == grid,
    {
        self.lemma_clear_strokes_upto(viewport, 360);
    }

    /// Where two circles overlap, the later one gives the color and both give
    /// their bits: after `first` and then `second` have been drawn into
    /// `grid`, a cell that `second` paints into has the color of `second`,
    /// and its pattern is what it held before, joined with the contributions
    /// of both circles.
    pub proof fn lemma_later_circle_wins(
        first: Circle,
        second: Circle,
        viewport: Viewport,
        grid: GridModel,
        i: int,
    )
        requires
            grid.wf(),
            0 <= i < grid.cells.len(),
            grid.contribution(second.strokes(viewport), i) != 0,
        ensures
            ({
                let after = grid.paint_all(first.strokes(viewport)).paint_all(
                    second.strokes(viewport),
                );
                &&& after.cells[i].color == Some(second.color)
                &&& after.cells[i].pattern == grid.cells[i].pattern | grid.contribution(
                    first.strokes(viewport),
                    i,
                ) | grid.contribution(second.strokes(viewport), i)
            }),
    {
        second.lemma_strokes_color(viewport, 360);
        grid.lemma_contribution_hit(second.strokes(viewport), i);
        grid.lemma_overlap(first.strokes(viewport), second.strokes(viewport), i, second.color);
    }

    /// The circle with the same center and color and with the radius of
    /// opposite sign.
    pub open spec fn mirrored(self) -> Circle
        recommends
            self.radius > i32::MIN,
    {
        Circle { radius: (-self.radius) as i32, ..self }
    }

    /// The sign of the radius only turns the circle by half a turn: the point
    /// at `deg` degrees of the circle with the opposite radius is the point
    /// at `deg + 180` degrees of this one, so both have the same 360 points.
    pub proof fn lemma_mirrored_sample(self, deg: int)
        requires
            0 <= deg < 360,
            self.radius > i32::MIN,
        ensures
            self.mirrored().sample(deg) == self.sample((deg + 180) % 360),
    {
        let turned = (deg + 180) % 360;
        lemma_half_turn(deg);
        let r = self.radius as int;
        let c = cosine(deg);
        let s = sine(deg);
        assert((-r) * c == r * (-c)) by (nonlinear_arith);
        assert((-r) * s == r * (-s)) by (nonlinear_arith);
    }
}

/// Two vectors `a` and `b`: where `a` is longer than the greatest length of
/// `b` and a length `h` together, the sum of `a` and `b` is longer than `h`.
/// The lengths are given by their squares: `reach` bounds the square of the
/// length of `b`, and `half` is the square of `h`.
pub proof fn lemma_far_point(a: (int, int), b: (int, int), reach: int, half: int)
    requires
        b.0 * b.0 + b.1 * b.1 <= reach,
        0 <= half,
        a.0 * a.0 + a.1 * a.1 > reach + half,
        (a.0 * a.0 + a.1 * a.1 - reach - half) * (a.0 * a.0 + a.1 * a.1 - reach - half) > 4
            * reach * half,
    ensures
        (a.0 + b.0) * (a.0 + b.0) + (a.1 + b.1) * (a.1 + b.1) > half,
{
    let gap = a.0 * a.0 + a.1 * a.1;
    let step = b.0 * b.0 + b.1 * b.1;
    let dot = a.0 * b.0 + a.1 * b.1;
    let sum = (a.0 + b.0) * (a.0 + b.0) + (a.1 + b.1) * (a.1 + b.1);
    assert(step >= 0) by (nonlinear_arith)
        requires
            step == b.0 * b.0 + b.1 * b.1,
    ;
    assert(sum == gap + 2 * dot + step) by (nonlinear_arith)
        requires
            gap == a.0 * a.0 + a.1 * a.1,
            step == b.0 * b.0 + b.1 * b.1,
            dot == a.0 * b.0 + a.1 * b.1,
            sum == (a.0 + b.0) * (a.0 + b.0) + (a.1 + b.1) * (a.1 + b.1),
    ;
    // The product of the squared lengths is the square of the dot product and more.
    let cross = a.0 * b.1 - a.1 * b.0;
    assert(gap * step == dot * dot + cross * cross) by {
        let (p, q, u, w) = (a.0 * b.0, a.1 * b.1, a.0 * b.1, a.1 * b.0);
        assert((a.0 * a.0) * (b.0 * b.0) == p * p) by (nonlinear_arith)
            requires
                p == a.0 * b.0,
        ;
        assert((a.1 * a.1) * (b.1 * b.1) == q * q) by (nonlinear_arith)
            requires
                q == a.1 * b.1,
        ;
        assert((a.0 * a.0) * (b.1 * b.1) == u * u) by (nonlinear_arith)
            requires
                u == a.0 * b.1,
        ;
        assert((a.1 * a.1) * (b.0 * b.0) == w * w) by (nonlinear_arith)
            requires
                w == a.1 * b.0,
        ;
        assert(p * q == u * w) by (nonlinear_arith)
            requires
                p == a.0 * b.0,
                q == a.1 * b.1,
                u == a.0 * b.1,
                w == a.1 * b.0,
        ;
        let (a0, a1, b0, b1) = (a.0 * a.0, a.1 * a.1, b.0 * b.0, b.1 * b.1);
        assert((a0 + a1) * (b0 + b1) == a0 * b0 + a0 * b1 + a1 * b0 + a1 * b1) by (nonlinear_arith);
        assert((p + q) * (p + q) == p * p + 2 * (p * q) + q * q) by (nonlinear_arith);
        assert((u - w) * (u - w) == u * u - 2 * (u * w) + w * w) by (nonlinear_arith);
    }
    assert(cross * cross >= 0) by (nonlinear_arith);
    if sum <= half {
        let lack = gap + step - half;
        assert(0 < lack <= -2 * dot);
        assert(lack * lack <= 4 * (dot * dot)) by (nonlinear_arith)
            requires
                0 < lack <= -2 * dot,
        ;
        let free = gap - reach - half;
        assert(lack * lack == gap * gap + step * step + half * half + 2 * (gap * step) - 2 * (gap
            * half) - 2 * (step * half)) by (nonlinear_arith)
            requires
                lack == gap + step - half,
        ;
        assert(free * free == gap * gap + reach * reach + half * half - 2 * (gap * reach) - 2 * (
        gap * half) + 2 * (reach * half)) by (nonlinear_arith)
            requires
                free == gap - reach - half,
        ;
        assert((reach - step) * (2 * gap + 2 * half - step - reach) == 2 * (gap * reach) + 2 * (
        reach * half) - reach * reach - 2 * (gap * step) - 2 * (step * half) + step * step)
            by (nonlinear_arith);
        assert(4 * reach * half == 4 * (reach * half)) by (nonlinear_arith);
        assert(lack * lack - 4 * (gap * step) - (free * free - 4 * reach * half) == (reach - step)
            * (2 * gap + 2 * half - step - reach));
        assert((reach - step) * (2 * gap + 2 * half - step - reach) >= 0) by (nonlinear_arith)
            requires
                reach - step >= 0,
                2 * gap + 2 * half - step - reach >= 0,
        ;
        assert(false);
    }
}

impl Circle {
    /// The bit that the point at `deg` degrees adds to cell `i` of `grid`:
    /// none where the viewport does not cover the point, or where the point
    /// lies in another cell.
    pub open spec fn bit_at(self, viewport: Viewport, grid: GridModel, i: int, deg: int) -> u8 {
        let at = self.sample(deg);
        match viewport.project(at.0, at.1, UNIT as int) {
            Some(p) => if grid.hits(Stroke { x: p.0 as nat, y: p.1 as nat, color: self.color }, i) {
                grid.dot(p.0 as nat, p.1 as nat)
            } else {
                0
            },
            None => 0,
        }
    }

    /// The bits that the points at `low`, `low + 1`, .. `high - 1` degrees
    /// add to cell `i` of `grid`.
    pub open spec fn bits_between(
        self,
        viewport: Viewport,
        grid: GridModel,
        i: int,
        low: int,
        high: int,
    ) -> u8
        decreases high - low,
    {
        if high <= low {
            0
        } else {
            self.bits_between(viewport, grid, i, low, high - 1) | self.bit_at(
                viewport,
                grid,
                i,
                high - 1,
            )
        }
    }

    /// The contribution of the first `n` points of the circle to a cell is
    /// made of the bits of these points.
    pub proof fn lemma_contribution_bits(self, viewport: Viewport, grid: GridModel, i: int, n: nat)
        ensures
            grid.contribution(self.strokes_upto(viewport, n), i) == self.bits_between(
                viewport,
                grid,
                i,
                0,
                n as int,
            ),
        decreases n,
    {
        if n > 0 {
            self.lemma_contribution_bits(viewport, grid, i, (n - 1) as nat);
            let before = self.strokes_upto(viewport, (n - 1) as nat);
            let at = self.sample(n - 1);
            let bits = grid.contribution(before, i);
            match viewport.project(at.0, at.1, UNIT as int) {
                Some(p) => {
                    let s = Stroke { x: p.0 as nat, y: p.1 as nat, color: self.color };
                    assert(before.push(s).drop_last() =~= before);
                    assert(before.push(s).last() == s);
                },
                None => {},
            }
            assert(bits | 0u8 == bits) by (bit_vector);
        }
    }

    /// The bits of a run of points are those of its lower part and those of
    /// its upper part.
    pub proof fn lemma_bits_split(
        self,
        viewport: Viewport,
        grid: GridModel,
        i: int,
        low: int,
        mid: int,
        high: int,
    )
        requires
            low <= mid <= high,
        ensures
            self.bits_between(viewport, grid, i, low, high) == self.bits_between(
                viewport,
                grid,
                i,
                low,
                mid,
            ) | self.bits_between(viewport, grid, i, mid, high),
        decreases high - mid,
    {
        let lower = self.bits_between(viewport, grid, i, low, mid);
        if high == mid {
            assert(lower | 0u8 == lower) by (bit_vector);
        } else {
            self.lemma_bits_split(viewport, grid, i, low, mid, high - 1);
            let upper = self.bits_between(viewport, grid, i, mid, high - 1);
            let bit = self.bit_at(viewport, grid, i, high - 1);
            assert((lower | upper) | bit == lower | (upper | bit)) by (bit_vector);
        }
    }

    /// The bits of a run of points of the circle with the opposite radius
    /// are those of the run half a turn further on, or back, of this one.
    /// `turn` is 180 for a run in the first half of the turn and -180 for a
    /// run in the second half.
    pub proof fn lemma_bits_mirrored(
        self,
        viewport: Viewport,
        grid: GridModel,
        i: int,
        low: int,
        high: int,
        turn: int,
    )
        requires
            self.radius > i32::MIN,
            low <= high,
            (turn == 180 && 0 <= low && high <= 180) || (turn == -180 && 180 <= low && high
                <= 360),
        ensures
            self.mirrored().bits_between(viewport, grid, i, low, high) == self.bits_between(
                viewport,
                grid,
                i,
                low + turn,
                high + turn,
            ),
        decreases high - low,
    {
        if high > low {
            self.lemma_bits_mirrored(viewport, grid, i, low, high - 1, turn);
            self.lemma_mirrored_sample(high - 1);
            assert((high - 1 + 180) % 360 == high - 1 + turn);
        }
    }

    /// The sign of the radius does not show: drawn into the same grid
    /// through the same viewport, the circle with the opposite radius leaves
    /// the same patterns and colors.
    pub proof fn lemma_mirrored_paints_the_same(self, viewport: Viewport, grid: GridModel)
        requires
            grid.wf(),
            self.radius > i32::MIN,
        ensures
            grid.paint_all(self.mirrored().strokes(viewport)) == grid.paint_all(
                self.strokes(viewport),
            ),
    {
        let other = self.mirrored();
        let mine = grid.paint_all(self.strokes(viewport));
        let theirs = grid.paint_all(other.strokes(viewport));
        grid.lemma_paint_all_wf(self.strokes(viewport));
        grid.lemma_paint_all_wf(other.strokes(viewport));
        self.lemma_strokes_color(viewport, 360);
        other.lemma_strokes_color(viewport, 360);
        assert forall|i: int| 0 <= i < grid.cells.len() implies mine.cells[i] == theirs.cells[i] by {
            let here = grid.contribution(self.strokes(viewport), i);
            let there = grid.contribution(other.strokes(viewport), i);
            assert(here == there) by {
                self.lemma_contribution_bits(viewport, grid, i, 360);
                other.lemma_contribution_bits(viewport, grid, i, 360);
                self.lemma_bits_split(viewport, grid, i, 0, 180, 360);
                other.lemma_bits_split(viewport, grid, i, 0, 180, 360);
                self.lemma_bits_mirrored(viewport, grid, i, 0, 180, 180);
                self.lemma_bits_mirrored(viewport, grid, i, 180, 360, -180);
                let first = self.bits_between(viewport, grid, i, 0, 180);
                let second = self.bits_between(viewport, grid, i, 180, 360);
                assert(first | second == second | first) by (bit_vector);
            }
            grid.lemma_paint_all_cell(self.strokes(viewport), i);
            grid.lemma_paint_all_cell(other.strokes(viewport), i);
            if here == 0 {
                grid.lemma_contribution_none(self.strokes(viewport), i);
                grid.lemma_contribution_none(other.strokes(viewport), i);
            } else {
                grid.lemma_contribution_hit(self.strokes(viewport), i);
                grid.lemma_contribution_hit(other.strokes(viewport), i);
                grid.lemma_last_color_uniform(self.strokes(viewport), i, self.color);
                grid.lemma_last_color_uniform(other.strokes(viewport), i, self.color);
            }
        }
        assert(mine.cells =~= theirs.cells);
    }
}

impl Shape for Circle {
    open spec fn strokes(&self, viewport: Viewport) -> Seq<Stroke> {
        self.strokes_upto(viewport, 360)
    }

    fn draw(&self, painter: &mut Painter) {
        let mut deg: u16 = 0;
        while deg < 360
            invariant
                deg <= 360,
                painter.wf(),
                painter@.viewport == old(painter)@.viewport,
                painter@.grid == old(painter)@.grid.paint_all(
                    self.strokes_upto(old(painter)@.viewport, deg as nat),
                ),
            decreases 360 - deg,
        {
            let cos: i64 = cos_deg(deg);
            let sin: i64 = sin_deg(deg);
            assert(-0x8000_0000 * 0x4000_0000_0000_0000 <= self.x * UNIT <= 0x8000_0000
                * 0x4000_0000_0000_0000 && -0x8000_0000 * 0x4000_0000_0000_0000 <= self.y * UNIT
                <= 0x8000_0000 * 0x4000_0000_0000_0000 && -0x8000_0000 * 0x4000_0000_0000_0000
                <= self.radius * cos <= 0x8000_0000 * 0x4000_0000_0000_0000 && -0x8000_0000
                * 0x4000_0000_0000_0000 <= self.radius * sin <= 0x8000_0000
                * 0x4000_0000_0000_0000) by (nonlinear_arith)
                requires
                    UNIT == 0x4000_0000_0000_0000,
                    -0x4000_0000_0000_0000 <= cos <= 0x4000_0000_0000_0000,
                    -0x4000_0000_0000_0000 <= sin <= 0x4000_0000_0000_0000,
                    -0x8000_0000 <= self.x <= 0x8000_0000,
                    -0x8000_0000 <= self.y <= 0x8000_0000,
                    -0x8000_0000 <= self.radius <= 0x8000_0000,
            ;
            let px: i128 = (self.x as i128) * (UNIT as i128) + (self.radius as i128) * (cos as i128);
            let py: i128 = (self.y as i128) * (UNIT as i128) + (self.radius as i128) * (sin as i128);
            let ghost before = painter@.grid;
            let ghost strokes = self.strokes_upto(old(painter)@.viewport, deg as nat);
            if let Some((x, y)) = painter.get_point_scaled(px, py, UNIT as u64) {
                painter.paint(x, y, self.color);
                proof {
                    old(painter)@.grid.lemma_paint_all_push(
                        strokes,
                        Stroke { x: x as nat, y: y as nat, color: self.color },
                    );
                }
            }
            deg += 1;
        }
    }
}

} // verus!
