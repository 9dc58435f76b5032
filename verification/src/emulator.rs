use vstd::prelude::*;
use crate::cpu::CPU;
use crate::model::{CpuModel, loaded_memory, rom_fits, step, step_defined};

verus! {

/// The machine as the web front end drives it: nothing runs until a ROM is loaded.
pub struct Emulator {
    cpu: CPU,
    rom_loaded: bool,
}

/// The screen flattened row by row: 1 for a lit pixel, 0 for a dark one.
pub open spec fn flat_display(display: Seq<Seq<bool>>) -> Seq<u8> {
    Seq::new(2048, |k: int| if display[k / 64][k % 64] { 1u8 } else { 0u8 })
}

impl View for Emulator {
    /// The machine's state and whether a ROM was loaded.
    type V = (CpuModel, bool);

    closed spec fn view(&self) -> (CpuModel, bool) {
        (self.cpu@, self.rom_loaded)
    }
}

impl Emulator {
    pub fn new() -> (emu: Emulator)
        ensures
            emu@ == (CpuModel::initial(), false),
    {
        Emulator { cpu: CPU::new(), rom_loaded: false }
    }

    /// Copies `bytes` to memory from 0x200 onward and lets the machine run.
    pub fn load_rom(&mut self, bytes: &[u8])
        requires
            rom_fits(bytes@),
        ensures
            final(self)@ == (
                CpuModel { memory: loaded_memory(old(self)@.0.memory, bytes@), ..old(self)@.0 },
                true,
            ),
    {
        self.cpu.copy_rom(bytes);
        self.rom_loaded = true;
    }

    /// Whether `step()` is defined: no ROM loaded yet, or the machine's next cycle is.
    pub fn can_step(&self) -> (ok: bool)
        ensures
            ok == (!self@.1 || step_defined(self@.0)),
    {
        !self.rom_loaded || self.cpu.can_step()
    }

    /// Runs one cycle of the machine once a ROM is loaded; does nothing before.
    pub fn step(&mut self)
        requires
            old(self)@.1 ==> step_defined(old(self)@.0),
        ensures
            !old(self)@.1 ==> final(self)@ == old(self)@,
            old(self)@.1 ==> final(self)@.1 && exists|r: u8| final(self)@.0 == step(old(self)@.0, r),
    {
        if !self.rom_loaded {
            return;
        }
        self.cpu.step();
    }

    /// Counts both timers down by one, stopping at zero.
    pub fn tick_timers(&mut self)
        ensures
            final(self)@ == (
                CpuModel {
                    delay_timer: if old(self)@.0.delay_timer > 0 {
                        (old(self)@.0.delay_timer - 1) as u8
                    } else {
                        0
                    },
                    sound_timer: if old(self)@.0.sound_timer > 0 {
                        (old(self)@.0.sound_timer - 1) as u8
                    } else {
                        0
                    },
                    ..old(self)@.0
                },
                old(self)@.1,
            ),
    {
        if self.cpu.delay_timer > 0 {
            self.cpu.delay_timer -= 1
        }
        if self.cpu.sound_timer > 0 {
            self.cpu.sound_timer -= 1
        }
    }

    /// Presses key `key` of the keypad.
    pub fn key_down(&mut self, key: usize)
        requires
            key < 16,
        ensures
            final(self)@ == (
                CpuModel { keypad: old(self)@.0.keypad.update(key as int, true), ..old(self)@.0 },
                old(self)@.1,
            ),
    {
        self.cpu.keypad[key] = true;
    }

    /// Releases key `key` of the keypad.
    pub fn key_up(&mut self, key: usize)
        requires
            key < 16,
        ensures
            final(self)@ == (
                CpuModel { keypad: old(self)@.0.keypad.update(key as int, false), ..old(self)@.0 },
                old(self)@.1,
            ),
    {
        self.cpu.keypad[key] = false;
    }

    /// The screen flattened row by row, one byte per pixel.
    pub fn display_flat(&self) -> (pixels: Vec<u8>)
        ensures
            pixels@ == flat_display(self@.0.display),
    {
        proof {
            self.cpu.lemma_wf();
        }
        let mut pixels: Vec<u8> = Vec::new();
        let mut row: usize = 0;
        while row < 32
            invariant
                row <= 32,
                self.cpu@.wf(),
                pixels@ =~= flat_display(self.cpu@.display).take(row * 64),
            decreases 32 - row,
        {
            let mut col: usize = 0;
            while col < 64
                invariant
                    row < 32,
                    col <= 64,
                    self.cpu@.wf(),
                    pixels@ =~= flat_display(self.cpu@.display).take(row * 64 + col),
                decreases 64 - col,
            {
                assert(self.cpu.display[row as int][col as int] == self.cpu@.display[row as int][col as int]);
                pixels.push(if self.cpu.display[row][col] { 1 } else { 0 });
                col += 1;
                assert((row * 64 + col - 1) / 64 == row && (row * 64 + col - 1) % 64 == col - 1) by (nonlinear_arith)
                    requires col >= 1, col <= 64;
            }
            row += 1;
        }
        pixels
    }
}

} // verus!
