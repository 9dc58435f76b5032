use vstd::prelude::*;

verus! {

/// The on-screen hexadecimal keypad of the desktop front end: four rows of
/// four keys.
pub struct Keys;

const CHARS: [char; 16] = [
    '1', '2', '3', 'A', '4', '5', '6', 'B', '7', '8', '9', 'C', '*', '0', '#', 'D',
];

/// The labels of the keypad, row by row.
pub open spec fn key_labels() -> Seq<char> {
    seq!['1', '2', '3', 'A', '4', '5', '6', 'B', '7', '8', '9', 'C', '*', '0', '#', 'D']
}

impl Keys {
    /// The label shown on the key in row `row`, column `col`.
    pub fn label(&self, row: usize, col: usize) -> (c: char)
        requires
            row < 4,
            col < 4,
        ensures
            c == key_labels()[col + row * 4],
    {
        assert(CHARS@ == key_labels());
        CHARS[col + row * 4]
    }
}

} // verus!
