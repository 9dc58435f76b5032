use vstd::prelude::*;
use crate::cpu::CPU;
use crate::display::Display;
use crate::keys::Keys;
use crate::model::CpuModel;

verus! {

/// The desktop front end: a screen panel, a keypad panel and the machine.
pub struct Game {
    pub display: Display,
    pub keys: Keys,
    pub cpu: CPU,
}

/// The keypad key that a click on keypad cell `row`, `col` reaches, when it
/// reaches one: cells in the first row or column reach none.
pub open spec fn clicked_key(row: int, col: int) -> Option<int> {
    if row > 0 && col > 0 {
        Some(col + row * 3)
    } else {
        None
    }
}

impl Game {
    /// Presses (`pressed`) or releases the key under keypad cell `row`, `col`.
    pub fn set_key_at(&mut self, row: i32, col: i32, pressed: bool)
        requires
            clicked_key(row as int, col as int) matches Some(k) ==> k < 16,
        ensures
            final(self).display == old(self).display,
            final(self).cpu@ == (match clicked_key(row as int, col as int) {
                Some(k) => CpuModel { keypad: old(self).cpu@.keypad.update(k, pressed), ..old(self).cpu@ },
                None => old(self).cpu@,
            }),
    {
        if row > 0 && col > 0 {
            self.cpu.keypad[(col + row * 3) as usize] = pressed;
        }
    }
}

} // verus!
