use vstd::prelude::*;
use crate::consts::{PIXEL_COLS, PIXEL_ROWS};

verus! {

/// The pixels shown in the screen panel of the desktop front end.
pub struct Display {
    pub pixels: [[bool; PIXEL_COLS]; PIXEL_ROWS],
}

/// The grey level of a lit pixel.
pub const LIT_SHADE: u8 = 200;

/// The grey level of a dark pixel.
pub const DARK_SHADE: u8 = 50;

impl Display {
    /// The grey level with which the pixel at `row`, `col` is painted.
    pub fn pixel_shade(&self, row: usize, col: usize) -> (level: u8)
        requires
            row < PIXEL_ROWS,
            col < PIXEL_COLS,
        ensures
            level == (if self.pixels@[row as int]@[col as int] { LIT_SHADE } else { DARK_SHADE }),
    {
        if self.pixels[row][col] {
            LIT_SHADE
        } else {
            DARK_SHADE
        }
    }
}

} // verus!
