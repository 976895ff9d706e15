//! How densely a terminal cell is subdivided.

use vstd::prelude::*;

verus! {

/// The glyph family that points are drawn with. It fixes how many
/// sub-positions a terminal cell is divided into; the glyphs themselves are
/// looked up by whoever writes the finished grid to a terminal.
#[derive(Clone, Copy, Debug, PartialEq, Eq, Hash, Structural)]
pub enum Marker {
    /// One point per cell, shown as a dot.
    Dot,
    /// One point per cell, shown as a full block.
    Block,
    /// One point per cell, shown as a bar.
    Bar,
    /// Braille patterns: 2 columns by 4 rows of dots per cell.
    Braille,
    /// Quadrant blocks: 2 by 2 per cell.
    Quadrant,
    /// Sextant blocks: 2 columns by 3 rows per cell.
    Sextant,
    /// Octant blocks: 2 columns by 4 rows per cell.
    Octant,
    /// One point per cell, shown as the given character.
    Custom(char),
}

impl Marker {
    /// Sub-columns per terminal cell.
    pub open spec fn sub_width(self) -> nat {
        match self {
            Marker::Braille | Marker::Quadrant | Marker::Sextant | Marker::Octant => 2,
            _ => 1,
        }
    }

    /// Sub-rows per terminal cell.
    pub open spec fn sub_height(self) -> nat {
        match self {
            Marker::Braille | Marker::Octant => 4,
            Marker::Sextant => 3,
            Marker::Quadrant => 2,
            _ => 1,
        }
    }

    /// The sub-columns and sub-rows that one terminal cell holds.
    pub fn cell_size(&self) -> (size: (usize, usize))
        ensures
            size.0 == self.sub_width(),
            size.1 == self.sub_height(),
    {
        match self {
            Marker::Braille | Marker::Octant => (2, 4),
            Marker::Sextant => (2, 3),
            Marker::Quadrant => (2, 2),
            _ => (1, 1),
        }
    }
}

impl Default for Marker {
    fn default() -> (marker: Marker)
        ensures
            marker == Marker::Braille,
    {
        Marker::Braille
    }
}

} // verus!
