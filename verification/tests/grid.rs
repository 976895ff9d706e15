use ratatui_core::style::Color;
use term_canvas::{Cell, Grid, Marker, Painter, Viewport};

#[test]
fn a_new_grid_is_blank() {
    let grid = Grid::new(3, 2, Marker::Braille);
    assert_eq!(grid.width(), 3);
    assert_eq!(grid.height(), 2);
    assert_eq!(grid.marker(), Marker::Braille);
    assert_eq!(grid.resolution(), (6, 8));
    assert_eq!(grid.cells().len(), 6);
    for cell in grid.cells() {
        assert_eq!(*cell, Cell { pattern: 0, color: None });
    }
}

#[test]
fn a_grid_may_be_empty() {
    let grid = Grid::new(0, 7, Marker::Dot);
    assert_eq!(grid.cells().len(), 0);
    assert_eq!(grid.resolution(), (0, 7));
    assert_eq!(grid.cell(0, 0), None);
}

#[test]
fn cell_outside_the_grid_is_none() {
    let grid = Grid::new(3, 2, Marker::Dot);
    assert_eq!(grid.cell(2, 1), Some(Cell { pattern: 0, color: None }));
    assert_eq!(grid.cell(3, 0), None);
    assert_eq!(grid.cell(0, 2), None);
}

#[test]
fn marker_cell_sizes() {
    assert_eq!(Marker::Dot.cell_size(), (1, 1));
    assert_eq!(Marker::Block.cell_size(), (1, 1));
    assert_eq!(Marker::Bar.cell_size(), (1, 1));
    assert_eq!(Marker::Custom('x').cell_size(), (1, 1));
    assert_eq!(Marker::Braille.cell_size(), (2, 4));
    assert_eq!(Marker::Octant.cell_size(), (2, 4));
    assert_eq!(Marker::Sextant.cell_size(), (2, 3));
    assert_eq!(Marker::Quadrant.cell_size(), (2, 2));
    assert_eq!(Marker::default(), Marker::Braille);
}

#[test]
fn paint_sets_the_bit_of_the_sub_cell() {
    // bit sx + 2 * sy of the cell
    for sy in 0..4usize {
        for sx in 0..2usize {
            let mut grid = Grid::new(3, 2, Marker::Braille);
            grid.paint(2 + sx, 4 + sy, Color::Green);
            let expected = Cell { pattern: 1 << (sx + 2 * sy), color: Some(Color::Green) };
            assert_eq!(grid.cell(1, 1), Some(expected));
            let painted = grid.cells().iter().filter(|c| c.pattern != 0).count();
            assert_eq!(painted, 1);
        }
    }
}

#[test]
fn paint_with_other_markers() {
    let mut sextant = Grid::new(2, 2, Marker::Sextant);
    sextant.paint(3, 5, Color::Red);
    assert_eq!(sextant.cell(1, 1), Some(Cell { pattern: 0b10_0000, color: Some(Color::Red) }));
    let mut quadrant = Grid::new(2, 2, Marker::Quadrant);
    quadrant.paint(1, 0, Color::Red);
    quadrant.paint(0, 1, Color::Red);
    assert_eq!(quadrant.cell(0, 0), Some(Cell { pattern: 0b0110, color: Some(Color::Red) }));
    let mut dot = Grid::new(2, 2, Marker::Dot);
    dot.paint(1, 0, Color::Red);
    assert_eq!(dot.cell(1, 0), Some(Cell { pattern: 1, color: Some(Color::Red) }));
    assert_eq!(dot.cell(0, 0), Some(Cell { pattern: 0, color: None }));
}

#[test]
fn bits_accumulate_and_the_last_color_wins() {
    let mut grid = Grid::new(2, 1, Marker::Braille);
    grid.paint(0, 0, Color::Red);
    assert_eq!(grid.cell(0, 0), Some(Cell { pattern: 0b0000_0001, color: Some(Color::Red) }));
    grid.paint(1, 3, Color::Blue);
    assert_eq!(grid.cell(0, 0), Some(Cell { pattern: 0b1000_0001, color: Some(Color::Blue) }));
    grid.paint(1, 1, Color::Yellow);
    assert_eq!(grid.cell(0, 0), Some(Cell { pattern: 0b1000_1001, color: Some(Color::Yellow) }));
    // the other cell was never touched
    assert_eq!(grid.cell(1, 0), Some(Cell { pattern: 0, color: None }));
}

#[test]
fn painting_a_set_bit_again_only_changes_the_color() {
    let mut grid = Grid::new(1, 1, Marker::Braille);
    grid.paint(1, 2, Color::Red);
    grid.paint(1, 2, Color::Blue);
    assert_eq!(grid.cell(0, 0), Some(Cell { pattern: 0b0010_0000, color: Some(Color::Blue) }));
}

#[test]
fn paint_outside_the_grid_changes_nothing() {
    let mut grid = Grid::new(2, 2, Marker::Braille);
    grid.paint(4, 0, Color::Red);
    grid.paint(0, 8, Color::Red);
    grid.paint(usize::MAX, usize::MAX, Color::Red);
    for cell in grid.cells() {
        assert_eq!(*cell, Cell { pattern: 0, color: None });
    }
    // the last sub-cell is still on the grid
    grid.paint(3, 7, Color::Red);
    assert_eq!(grid.cell(1, 1), Some(Cell { pattern: 0b1000_0000, color: Some(Color::Red) }));
}

#[test]
fn painter_paints_into_its_grid() {
    let viewport = Viewport::new([0, 4], [0, 8], 2, 2, Marker::Braille);
    let mut painter = Painter::new(viewport);
    let (x, y) = painter.get_point(3, 1).unwrap();
    assert_eq!((x, y), (3, 1));
    painter.paint(x, y, Color::Cyan);
    painter.paint(2, 1, Color::Magenta);
    assert_eq!(painter.viewport(), viewport);
    let grid = painter.finish();
    assert_eq!(grid.cell(1, 0), Some(Cell { pattern: 0b0000_1100, color: Some(Color::Magenta) }));
}

#[test]
fn the_largest_grid_can_be_painted_in_its_last_cell() {
    let mut grid = Grid::new(u16::MAX, 3, Marker::Braille);
    grid.paint(2 * 65535 - 1, 11, Color::Red);
    assert_eq!(grid.cell(u16::MAX - 1, 2), Some(Cell { pattern: 0b1000_0000, color: Some(Color::Red) }));
    assert_eq!(grid.cells().len(), 3 * 65535);
}
