use ratatui_core::buffer::Buffer;
use ratatui_core::layout::Rect;
use ratatui_core::style::Color;
use ratatui_core::symbols::braille::BRAILLE;
use term_canvas::{Canvas, Circle, Grid, Marker, Painter, Shape, Viewport};

/// Writes the painted cells of a Braille grid into the buffer.
fn flush(grid: &Grid, buffer: &mut Buffer) {
    let width = usize::from(grid.width());
    for (index, cell) in grid.cells().iter().enumerate() {
        if cell.pattern != 0 {
            let x = (index % width) as u16;
            let y = (index / width) as u16;
            let target = &mut buffer[(x, y)];
            target.set_char(BRAILLE[usize::from(cell.pattern)]);
            if let Some(color) = cell.color {
                target.set_fg(color);
            }
        }
    }
}

#[test]
fn test_it_draws_a_circle() {
    let mut buffer = Buffer::empty(Rect::new(0, 0, 10, 5));
    let canvas = Canvas::default()
        .shape(Circle {
            x: 5,
            y: 2,
            radius: 5,
            color: Color::Reset,
        })
        .marker(Marker::Braille)
        .x_bounds([-10, 10])
        .y_bounds([-10, 10]);
    let grid = canvas.render(buffer.area.width, buffer.area.height);
    flush(&grid, &mut buffer);
    let expected = Buffer::with_lines([
        "          ",
        "      ⣀⣀⣀ ",
        "     ⡎   ⢱",
        "     ⢇   ⡸",
        "      ⠉⠙⠉ ",
    ]);
    assert_eq!(buffer, expected);
}

fn patterns(grid: &Grid) -> Vec<u8> {
    grid.cells().iter().map(|cell| cell.pattern).collect()
}

fn scene(circle: Circle) -> Canvas<Circle> {
    Canvas::default()
        .shape(circle)
        .marker(Marker::Braille)
        .x_bounds([-10, 10])
        .y_bounds([-10, 10])
}

#[test]
fn new_keeps_its_arguments() {
    let circle = Circle::new(5, -2, 7, Color::Blue);
    assert_eq!(
        circle,
        Circle {
            x: 5,
            y: -2,
            radius: 7,
            color: Color::Blue
        }
    );
    assert_eq!(Circle::default(), Circle::new(0, 0, 0, Color::Reset));
}

#[test]
fn circle_paints_its_color() {
    let grid = scene(Circle::new(5, 2, 5, Color::Red)).render(10, 5);
    let mut painted = 0;
    for cell in grid.cells() {
        if cell.pattern != 0 {
            assert_eq!(cell.color, Some(Color::Red));
            painted += 1;
        } else {
            assert_eq!(cell.color, None);
        }
    }
    assert_eq!(painted, 10);
}

#[test]
fn circle_draws_through_a_painter() {
    let viewport = Viewport::new([-10, 10], [-10, 10], 10, 5, Marker::Braille);
    let mut painter = Painter::new(viewport);
    Circle::new(5, 2, 5, Color::Reset).draw(&mut painter);
    assert_eq!(painter.viewport(), viewport);
    let drawn = painter.finish();
    let rendered = scene(Circle::new(5, 2, 5, Color::Reset)).render(10, 5);
    assert_eq!(drawn.cells(), rendered.cells());
}

#[test]
fn circle_with_one_point_per_cell() {
    let grid = scene(Circle::new(5, 2, 5, Color::Red))
        .marker(Marker::Dot)
        .render(10, 5);
    let expected: Vec<u8> = vec![
        0, 0, 0, 0, 0, 0, 0, 0, 0, 0, //
        0, 0, 0, 0, 0, 0, 1, 1, 1, 0, //
        0, 0, 0, 0, 0, 1, 0, 0, 0, 1, //
        0, 0, 0, 0, 0, 1, 0, 0, 0, 1, //
        0, 0, 0, 0, 0, 0, 1, 1, 1, 0, //
    ];
    assert_eq!(patterns(&grid), expected);
}

#[test]
fn circle_with_sextants() {
    let grid = Canvas::default()
        .shape(Circle::new(0, 0, 3, Color::Green))
        .marker(Marker::Sextant)
        .x_bounds([-4, 4])
        .y_bounds([-4, 4])
        .render(4, 3);
    let expected: Vec<u8> = vec![
        40, 12, 12, 20, //
        42, 0, 0, 29, //
        10, 12, 12, 5, //
    ];
    assert_eq!(patterns(&grid), expected);
}

#[test]
fn circle_that_leaves_the_viewport_is_cut_off() {
    let grid = scene(Circle::new(0, 0, 9, Color::Red)).render(10, 5);
    let expected: Vec<u8> = vec![
        0, 128, 120, 12, 12, 12, 12, 180, 64, 0, //
        168, 7, 0, 0, 0, 0, 0, 0, 11, 84, //
        170, 0, 0, 0, 0, 0, 0, 0, 0, 117, //
        42, 208, 0, 0, 0, 0, 0, 0, 224, 21, //
        0, 2, 45, 48, 48, 112, 48, 30, 1, 0, //
    ];
    assert_eq!(patterns(&grid), expected);
    // only the corners of the viewport are further than 14 from its middle
    let wide = scene(Circle::new(0, 0, 14, Color::Red)).render(10, 5);
    let painted = wide.cells().iter().filter(|c| c.pattern != 0).count();
    assert_eq!(painted, 4);
}

#[test]
fn circle_without_radius_paints_its_center() {
    let grid = scene(Circle::new(5, 2, 0, Color::Red)).render(10, 5);
    for (index, cell) in grid.cells().iter().enumerate() {
        if index == 3 * 10 + 7 {
            assert_eq!(cell.pattern, 2);
            assert_eq!(cell.color, Some(Color::Red));
        } else {
            assert_eq!(cell.pattern, 0);
            assert_eq!(cell.color, None);
        }
    }
}

#[test]
fn circle_without_radius_on_the_lower_x_bound() {
    let mut buffer = Buffer::empty(Rect::new(0, 0, 10, 5));
    let grid = scene(Circle::new(-10, 0, 0, Color::Reset)).render(10, 5);
    assert_eq!(grid.cell(0, 2).map(|c| c.pattern), Some(16));
    flush(&grid, &mut buffer);
    let expected = Buffer::with_lines([
        "          ",
        "          ",
        "⠄         ",
        "          ",
        "          ",
    ]);
    assert_eq!(buffer, expected);
}

#[test]
fn circle_without_radius_on_the_lower_y_bound() {
    let mut buffer = Buffer::empty(Rect::new(0, 0, 10, 5));
    let grid = scene(Circle::new(0, -10, 0, Color::Reset)).render(10, 5);
    flush(&grid, &mut buffer);
    let expected = Buffer::with_lines([
        "     ⠁    ",
        "          ",
        "          ",
        "          ",
        "          ",
    ]);
    assert_eq!(buffer, expected);
}

#[test]
fn circle_without_radius_on_an_upper_bound_paints_nothing() {
    for (x, y) in [(10, 0), (0, 10), (10, 10), (10, -10), (-10, 10)] {
        let mut buffer = Buffer::empty(Rect::new(0, 0, 10, 5));
        let grid = scene(Circle::new(x, y, 0, Color::Reset)).render(10, 5);
        flush(&grid, &mut buffer);
        assert_eq!(buffer, Buffer::empty(Rect::new(0, 0, 10, 5)));
    }
}

#[test]
fn radius_below_zero_draws_the_same_circle() {
    for radius in [1, 3, 5, 9, 14] {
        let plus = scene(Circle::new(5, 2, radius, Color::Red)).render(10, 5);
        let minus = scene(Circle::new(5, 2, -radius, Color::Red)).render(10, 5);
        assert_eq!(plus.cells(), minus.cells());
    }
}

#[test]
fn circle_clear_of_the_viewport_paints_nothing() {
    // half the diagonal of the viewport is 14.2; the centers below are 20 or more away
    for (x, y, radius) in [(25, 0, 5), (0, -25, 5), (20, 20, 13), (-100, 100, 50), (30, 0, -15)] {
        let grid = scene(Circle::new(x, y, radius, Color::Red)).render(10, 5);
        for cell in grid.cells() {
            assert_eq!(cell.pattern, 0);
            assert_eq!(cell.color, None);
        }
    }
}

#[test]
fn circle_that_touches_a_bound_from_outside() {
    // the point (10, 0) lies on the upper bound, which is outside
    let right = scene(Circle::new(15, 0, 5, Color::Red)).render(10, 5);
    assert!(right.cells().iter().all(|c| c.pattern == 0));
    // the point (-10, 0) lies on the lower bound, which is inside
    let left = scene(Circle::new(-15, 0, 5, Color::Red)).render(10, 5);
    assert_eq!(patterns(&left).iter().filter(|p| **p != 0).count(), 1);
    assert_eq!(left.cell(0, 2).map(|c| c.pattern), Some(16));
}

#[test]
fn largest_circle_does_not_overflow() {
    let grid = scene(Circle::new(i32::MIN, i32::MAX, i32::MIN, Color::Red)).render(10, 5);
    assert!(grid.cells().iter().all(|c| c.pattern == 0));
    let canvas = Canvas::default()
        .shape(Circle::new(0, 0, i32::MAX, Color::Red))
        .marker(Marker::Braille)
        .x_bounds([i32::MIN, i32::MAX])
        .y_bounds([i32::MIN, i32::MAX]);
    let grid = canvas.render(10, 5);
    assert_eq!(grid.cells().iter().filter(|c| c.pattern != 0).count(), 22);
}

#[test]
fn undersampled_circle_leaves_gaps() {
    // 360 points on a grid whose circle is some 1400 sub-cells round
    let grid = Canvas::default()
        .shape(Circle::new(0, 0, 9, Color::Red))
        .marker(Marker::Dot)
        .x_bounds([-10, 10])
        .y_bounds([-10, 10])
        .render(500, 500);
    let painted = grid.cells().iter().filter(|c| c.pattern != 0).count();
    assert_eq!(painted, 360);
}
