use ratatui_core::style::Color;
use term_canvas::{Canvas, Cell, Circle, Grid, Marker, Viewport};

fn scene() -> Canvas<Circle> {
    Canvas::new()
        .marker(Marker::Braille)
        .x_bounds([-10, 10])
        .y_bounds([-10, 10])
}

fn show(grid: &Grid) -> Vec<(u8, Option<Color>)> {
    grid.cells().iter().map(|c| (c.pattern, c.color)).collect()
}

#[test]
fn canvas_without_shapes_renders_a_blank_grid() {
    let grid = scene().render(4, 3);
    assert_eq!(grid.width(), 4);
    assert_eq!(grid.height(), 3);
    assert_eq!(grid.marker(), Marker::Braille);
    assert_eq!(grid.cells().len(), 12);
    for cell in grid.cells() {
        assert_eq!(*cell, Cell { pattern: 0, color: None });
    }
}

#[test]
fn canvas_starts_with_bounds_that_hold_no_point() {
    let canvas: Canvas<Circle> = Canvas::default().shape(Circle::new(0, 0, 0, Color::Red));
    assert_eq!(canvas.viewport(10, 5), Viewport::new([0, 0], [0, 0], 10, 5, Marker::Braille));
    let grid = canvas.render(10, 5);
    assert_eq!(grid.marker(), Marker::Braille);
    assert!(grid.cells().iter().all(|c| c.pattern == 0 && c.color.is_none()));
}

#[test]
fn canvas_with_crossed_bounds_paints_nothing() {
    let canvas = scene().x_bounds([10, -10]).shape(Circle::new(0, 0, 5, Color::Red));
    let grid = canvas.render(10, 5);
    assert!(grid.cells().iter().all(|c| c.pattern == 0 && c.color.is_none()));
}

#[test]
fn canvas_without_area_renders_no_cells() {
    let canvas = scene().shape(Circle::new(0, 0, 5, Color::Red));
    assert_eq!(canvas.render(0, 5).cells().len(), 0);
    assert_eq!(canvas.render(10, 0).cells().len(), 0);
    assert_eq!(canvas.render(0, 0).cells().len(), 0);
}

#[test]
fn canvas_viewport_has_the_bounds_of_the_canvas() {
    let viewport = scene().viewport(10, 5);
    assert_eq!(viewport, Viewport::new([-10, 10], [-10, 10], 10, 5, Marker::Braille));
    assert_eq!(viewport.resolution(), (20, 20));
    let dots = scene().marker(Marker::Dot).y_bounds([3, 4]).viewport(7, 2);
    assert_eq!(dots, Viewport::new([-10, 10], [3, 4], 7, 2, Marker::Dot));
}

#[test]
fn canvas_paints_the_lower_bounds_and_not_the_upper() {
    let low = scene().shape(Circle::new(-10, -10, 0, Color::Red)).render(10, 5);
    assert_eq!(low.cell(0, 0), Some(Cell { pattern: 1, color: Some(Color::Red) }));
    let high = scene().shape(Circle::new(10, 10, 0, Color::Red)).render(10, 5);
    assert!(high.cells().iter().all(|c| c.pattern == 0 && c.color.is_none()));
    let last = scene().shape(Circle::new(9, 9, 0, Color::Red)).render(10, 5);
    assert_eq!(last.cell(9, 4), Some(Cell { pattern: 128, color: Some(Color::Red) }));
}

#[test]
fn rendering_twice_gives_the_same_grid() {
    let canvas = scene()
        .shape(Circle::new(5, 2, 5, Color::Red))
        .shape(Circle::new(0, 2, 5, Color::Blue))
        .shape(Circle::new(-3, -4, 7, Color::Green));
    let first = canvas.render(10, 5);
    let second = canvas.render(10, 5);
    assert_eq!(first.cells(), second.cells());
    assert_eq!(first.width(), second.width());
    assert_eq!(first.height(), second.height());
    assert_eq!(first.marker(), second.marker());
    // a canvas built again from the same parts
    let again = scene()
        .shape(Circle::new(5, 2, 5, Color::Red))
        .shape(Circle::new(0, 2, 5, Color::Blue))
        .shape(Circle::new(-3, -4, 7, Color::Green));
    assert_eq!(again.render(10, 5).cells(), first.cells());
}

#[test]
fn later_shape_gives_the_color_and_both_give_their_bits() {
    let red = Circle::new(5, 2, 5, Color::Red);
    let blue = Circle::new(0, 2, 5, Color::Blue);
    let both = scene().shape(red).shape(blue).render(10, 5);
    let only_red = scene().shape(red).render(10, 5);
    let only_blue = scene().shape(blue).render(10, 5);
    let mut shared = 0;
    for i in 0..50 {
        let (r, b, rb) = (only_red.cells()[i], only_blue.cells()[i], both.cells()[i]);
        assert_eq!(rb.pattern, r.pattern | b.pattern);
        if b.pattern != 0 {
            assert_eq!(rb.color, Some(Color::Blue));
        } else if r.pattern != 0 {
            assert_eq!(rb.color, Some(Color::Red));
        } else {
            assert_eq!(rb.color, None);
        }
        if r.pattern != 0 && b.pattern != 0 {
            shared += 1;
        }
    }
    assert!(shared > 0);
    let (o, r, b) = (None, Some(Color::Red), Some(Color::Blue));
    let expected = vec![
        (0, o), (0, o), (0, o), (0, o), (0, o), (0, o), (0, o), (0, o), (0, o), (0, o), //
        (0, o), (0, o), (0, o), (128, b), (192, b), (192, b), (192, b), (192, r), (192, r), (0, o), //
        (0, o), (0, o), (168, b), (1, b), (0, o), (86, r), (2, b), (84, b), (0, o), (169, r), //
        (0, o), (0, o), (42, b), (64, b), (0, o), (149, r), (128, b), (23, b), (0, o), (106, r), //
        (0, o), (0, o), (0, o), (2, b), (3, b), (7, b), (3, b), (11, r), (3, r), (0, o), //
    ];
    assert_eq!(show(&both), expected);
}

#[test]
fn order_of_the_shapes_decides_the_color_only() {
    let red = Circle::new(5, 2, 5, Color::Red);
    let blue = Circle::new(0, 2, 5, Color::Blue);
    let red_first = scene().shape(red).shape(blue).render(10, 5);
    let blue_first = scene().shape(blue).shape(red).render(10, 5);
    let only_red = scene().shape(red).render(10, 5);
    let mut differ = 0;
    for i in 0..50 {
        let (a, b) = (red_first.cells()[i], blue_first.cells()[i]);
        assert_eq!(a.pattern, b.pattern);
        if only_red.cells()[i].pattern != 0 {
            assert_eq!(b.color, Some(Color::Red));
        }
        if a.color != b.color {
            differ += 1;
        }
    }
    assert!(differ > 0);
}

#[test]
fn same_circle_twice_changes_nothing_but_the_color() {
    let once = scene().shape(Circle::new(5, 2, 5, Color::Red)).render(10, 5);
    let twice = scene()
        .shape(Circle::new(5, 2, 5, Color::Red))
        .shape(Circle::new(5, 2, 5, Color::Rgb(1, 2, 3)))
        .render(10, 5);
    for i in 0..50 {
        assert_eq!(once.cells()[i].pattern, twice.cells()[i].pattern);
        if once.cells()[i].pattern != 0 {
            assert_eq!(twice.cells()[i].color, Some(Color::Rgb(1, 2, 3)));
        }
    }
}

#[test]
fn the_unit_of_the_coordinates_does_not_matter() {
    let plain = scene().shape(Circle::new(5, 2, 5, Color::Red)).render(10, 5);
    let fine = Canvas::new()
        .marker(Marker::Braille)
        .x_bounds([-10_000, 10_000])
        .y_bounds([-10_000, 10_000])
        .shape(Circle::new(5_000, 2_000, 5_000, Color::Red))
        .render(10, 5);
    assert_eq!(plain.cells(), fine.cells());
}
