//! What a renderer needs to know of the cells: their colors, the sizes of
//! the map and of the screen, and where the lines of the help text go.

use vstd::prelude::*;
use crate::cells::Cell;

verus! {

/// The side of the window's map area, in pixels.
pub const SCREEN_SIZE: i32 = 512;

/// The side of the map, in cells.
pub const MAP_SIZE: i32 = 256;

/// A color, by its red, green and blue parts.
#[derive(Copy, Clone, Debug, PartialEq, Eq, Structural)]
pub struct Rgb {
    pub r: u8,
    pub g: u8,
    pub b: u8,
}

/// The color of each material; `Air` is black.
pub open spec fn cell_color(cell: Cell) -> Rgb {
    match cell {
        Cell::Sand => Rgb { r: 180, g: 155, b: 3 },
        Cell::Wood { .. } => Rgb { r: 116, g: 43, b: 0 },
        Cell::Fire { .. } => Rgb { r: 255, g: 0, b: 0 },
        Cell::Seed => Rgb { r: 0, g: 116, b: 11 },
        Cell::Vine { .. } => Rgb { r: 0, g: 116, b: 11 },
        Cell::Water { .. } => Rgb { r: 16, g: 16, b: 116 },
        Cell::Acid { .. } => Rgb { r: 16, g: 116, b: 16 },
        Cell::Air => Rgb { r: 0, g: 0, b: 0 },
    }
}

/// The color that `cell` is drawn in.
pub fn get_cell_color(cell: Cell) -> (c: Rgb)
    ensures
        c == cell_color(cell),
{
    match cell {
        Cell::Sand => Rgb { r: 180, g: 155, b: 3 },
        Cell::Wood { .. } => Rgb { r: 116, g: 43, b: 0 },
        Cell::Fire { .. } => Rgb { r: 255, g: 0, b: 0 },
        Cell::Seed | Cell::Vine { .. } => Rgb { r: 0, g: 116, b: 11 },
        Cell::Water { .. } => Rgb { r: 16, g: 16, b: 116 },
        Cell::Acid { .. } => Rgb { r: 16, g: 116, b: 16 },
        _ => Rgb { r: 0, g: 0, b: 0 },
    }
}

/// The upper left corner, in pixels, of line `index` of the help text: the
/// lines stand below the map in columns of four, 128 pixels apart, each line
/// 16 pixels high.
pub fn hud_slot(index: usize) -> (at: (i32, i32))
    requires
        128 * (index / 4) <= i32::MAX,
    ensures
        at.0 == 128 * (index / 4),
        at.1 == SCREEN_SIZE + 16 * (index % 4),
{
    let column: i32 = (index / 4) as i32;
    let row: i32 = (index % 4) as i32;
    (128 * column, SCREEN_SIZE + 16 * row)
}

} // verus!
