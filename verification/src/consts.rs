use vstd::prelude::*;

verus! {

/// Number of pixel columns of the CHIP-8 screen.
pub const PIXEL_COLS: usize = 64;

/// Number of pixel rows of the CHIP-8 screen.
pub const PIXEL_ROWS: usize = 32;

/// Bytes of addressable memory.
pub const MEMORY_SIZE: usize = 4096;

/// Address at which the built-in hexadecimal font is stored.
pub const FONT_START: u16 = 0x50;

/// Address at which programs are loaded and execution starts.
pub const PROGRAM_START: u16 = 0x200;

} // verus!
