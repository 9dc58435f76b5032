use vstd::prelude::*;

verus! {

/// The mathematical state of a CHIP-8 machine.
///
/// `display` is indexed by row, then by column.
#[verifier::ext_equal]
pub struct CpuModel {
    pub memory: Seq<u8>,
    pub registers: Seq<u8>,
    pub i: u16,
    pub pc: u16,
    pub stack: Seq<u16>,
    pub sp: u8,
    pub delay_timer: u8,
    pub sound_timer: u8,
    pub keypad: Seq<bool>,
    pub display: Seq<Seq<bool>>,
}

/// The bytes of the built-in hexadecimal font, five per digit from 0 to F.
pub open spec fn font() -> Seq<u8> {
    seq![
        0xF0u8, 0x90, 0x90, 0x90, 0xF0, 0x20, 0x60, 0x20, 0x20, 0x70,
        0xF0, 0x10, 0xF0, 0x80, 0xF0, 0xF0, 0x10, 0xF0, 0x10, 0xF0,
        0x90, 0x90, 0xF0, 0x10, 0x10, 0xF0, 0x80, 0xF0, 0x10, 0xF0,
        0xF0, 0x80, 0xF0, 0x90, 0xF0, 0xF0, 0x10, 0x20, 0x40, 0x40,
        0xF0, 0x90, 0xF0, 0x90, 0xF0, 0xF0, 0x90, 0xF0, 0x10, 0xF0,
        0xF0, 0x90, 0xF0, 0x90, 0x90, 0xE0, 0x90, 0xE0, 0x90, 0xE0,
        0xF0, 0x80, 0x80, 0x80, 0xF0, 0xE0, 0x90, 0x90, 0x90, 0xE0,
        0xF0, 0x80, 0xF0, 0x80, 0xF0, 0xF0, 0x80, 0xF0, 0x80, 0x80,
    ]
}

/// A screen with every pixel off.
pub open spec fn blank_display() -> Seq<Seq<bool>> {
    Seq::new(32, |r: int| Seq::new(64, |c: int| false))
}

impl CpuModel {
    /// Every component has the size of the machine's hardware.
    pub open spec fn wf(self) -> bool {
        &&& self.memory.len() == 4096
        &&& self.registers.len() == 16
        &&& self.stack.len() == 16
        &&& self.keypad.len() == 16
        &&& self.display.len() == 32
        &&& forall|r: int| 0 <= r < 32 ==> #[trigger] self.display[r].len() == 64
    }

    /// The state of a machine that was just switched on: the font at 0x50,
    /// every other byte zero, execution about to start at 0x200.
    pub open spec fn initial() -> CpuModel {
        CpuModel {
            memory: Seq::new(4096, |a: int| if 0x50 <= a < 0xA0 { font()[a - 0x50] } else { 0u8 }),
            registers: Seq::new(16, |k: int| 0u8),
            i: 0,
            pc: 0x200,
            stack: Seq::new(16, |k: int| 0u16),
            sp: 0,
            delay_timer: 0,
            sound_timer: 0,
            keypad: Seq::new(16, |k: int| false),
            display: blank_display(),
        }
    }
}

// ---------------------------------------------------------------------------
// Decoding an opcode `KXYN` / `KXNN` / `KNNN`.

/// The instruction family: the highest nibble.
pub open spec fn op_kind(opcode: u16) -> int {
    opcode as int / 0x1000
}

/// The register named by the second nibble.
pub open spec fn op_x(opcode: u16) -> int {
    (opcode as int / 0x100) % 16
}

/// The register named by the third nibble.
pub open spec fn op_y(opcode: u16) -> int {
    (opcode as int / 0x10) % 16
}

/// The lowest nibble.
pub open spec fn op_n(opcode: u16) -> int {
    opcode as int % 16
}

/// The lowest byte.
pub open spec fn op_nn(opcode: u16) -> u8 {
    (opcode as int % 0x100) as u8
}

/// The lowest twelve bits: an address.
pub open spec fn op_nnn(opcode: u16) -> u16 {
    (opcode as int % 0x1000) as u16
}

/// The opcode stored big-endian at `pc`.
pub open spec fn fetch_at(s: CpuModel) -> u16 {
    (s.memory[s.pc as int] as int * 256 + s.memory[s.pc + 1] as int) as u16
}

// ---------------------------------------------------------------------------
// Small state updates.

pub open spec fn set_reg(s: CpuModel, x: int, v: u8) -> CpuModel {
    CpuModel { registers: s.registers.update(x, v), ..s }
}

/// Writes `v` to register `x`, then `flag` to register F.
pub open spec fn set_reg_flag(s: CpuModel, x: int, v: u8, flag: u8) -> CpuModel {
    CpuModel { registers: s.registers.update(x, v).update(15, flag), ..s }
}

pub open spec fn jump(s: CpuModel, target: int) -> CpuModel {
    CpuModel { pc: target as u16, ..s }
}

/// Skips the next instruction when `cond` holds.
pub open spec fn skip_if(s: CpuModel, cond: bool) -> CpuModel {
    if cond { jump(s, s.pc + 2) } else { s }
}

// ---------------------------------------------------------------------------
// Instruction families.

/// `8XYN`: register arithmetic. VF gets the carry, the no-borrow bit or the
/// bit shifted out; the shifts read VY.
pub open spec fn alu(s: CpuModel, x: int, y: int, n: int) -> CpuModel {
    let vx = s.registers[x];
    let vy = s.registers[y];
    if n == 0 {
        set_reg(s, x, vy)
    } else if n == 1 {
        set_reg(s, x, vx | vy)
    } else if n == 2 {
        set_reg(s, x, vx & vy)
    } else if n == 3 {
        set_reg(s, x, vx ^ vy)
    } else if n == 4 {
        set_reg_flag(s, x, ((vx + vy) % 256) as u8, if vx + vy > 255 { 1 } else { 0 })
    } else if n == 5 {
        set_reg_flag(s, x, ((vx - vy + 256) % 256) as u8, if vx >= vy { 1 } else { 0 })
    } else if n == 6 {
        set_reg_flag(s, x, vy / 2, vy % 2)
    } else if n == 7 {
        set_reg_flag(s, x, ((vy - vx + 256) % 256) as u8, if vy >= vx { 1 } else { 0 })
    } else {
        set_reg_flag(s, x, ((vy * 2) % 256) as u8, vy / 128)
    }
}

pub open spec fn alu_defined(n: int) -> bool {
    0 <= n <= 7 || n == 0xE
}

/// The smallest index at or after `k` of a pressed key, or `keys.len()`.
pub open spec fn first_pressed_from(keys: Seq<bool>, k: int) -> int
    decreases keys.len() - k,
{
    if k >= keys.len() {
        keys.len() as int
    } else if keys[k] {
        k
    } else {
        first_pressed_from(keys, k + 1)
    }
}

/// The lowest pressed key, or `keys.len()` when none is pressed.
pub open spec fn first_pressed(keys: Seq<bool>) -> int {
    first_pressed_from(keys, 0)
}

/// Memory after the decimal digits of `v` are written at `at`, `at + 1`, `at + 2`.
pub open spec fn bcd_memory(memory: Seq<u8>, at: int, v: u8) -> Seq<u8> {
    memory.update(at, v / 100).update(at + 1, (v / 10) % 10).update(at + 2, v % 10)
}

/// `FXNN`: timers, key wait, index register, decimal conversion, register dump and load.
pub open spec fn misc(s: CpuModel, x: int, nn: u8) -> CpuModel {
    let vx = s.registers[x];
    if nn == 0x07 {
        set_reg(s, x, s.delay_timer)
    } else if nn == 0x0A {
        let k = first_pressed(s.keypad);
        if k < s.keypad.len() {
            set_reg(s, x, k as u8)
        } else {
            jump(s, s.pc - 2)
        }
    } else if nn == 0x15 {
        CpuModel { delay_timer: vx, ..s }
    } else if nn == 0x18 {
        CpuModel { sound_timer: vx, ..s }
    } else if nn == 0x1E {
        CpuModel { i: (s.i + vx) as u16, ..s }
    } else if nn == 0x29 {
        CpuModel { i: (0x50 + 5 * vx) as u16, ..s }
    } else if nn == 0x33 {
        CpuModel { memory: bcd_memory(s.memory, s.i as int, vx), ..s }
    } else if nn == 0x55 {
        CpuModel {
            memory: Seq::new(
                s.memory.len(),
                |a: int| if s.i <= a <= s.i + x { s.registers[a - s.i] } else { s.memory[a] },
            ),
            i: (s.i + x + 1) as u16,
            ..s
        }
    } else {
        CpuModel {
            registers: Seq::new(
                s.registers.len(),
                |r: int| if r <= x { s.memory[s.i + r] } else { s.registers[r] },
            ),
            i: (s.i + x + 1) as u16,
            ..s
        }
    }
}

pub open spec fn misc_defined(s: CpuModel, x: int, nn: u8) -> bool {
    let vx = s.registers[x];
    if nn == 0x07 || nn == 0x15 || nn == 0x18 || nn == 0x29 {
        true
    } else if nn == 0x0A {
        first_pressed(s.keypad) < s.keypad.len() || s.pc >= 2
    } else if nn == 0x1E {
        s.i + vx <= 0xFFFF
    } else if nn == 0x33 {
        s.i + 2 < 4096
    } else if nn == 0x55 || nn == 0x65 {
        s.i + x < 4096
    } else {
        false
    }
}

/// Bit `k` of a sprite byte, counted from the most significant bit.
pub open spec fn sprite_bit(byte: u8, k: int) -> bool {
    (byte >> ((7 - k) as u8)) & 1u8 == 1u8
}

/// Where a sprite drawn by `DXYN` starts: VX modulo the width, VY modulo the height.
pub open spec fn draw_origin(s: CpuModel, x: int, y: int) -> (int, int) {
    ((s.registers[x] % 64) as int, (s.registers[y] % 32) as int)
}

/// The number of sprite rows that land on the screen (the rest are clipped).
pub open spec fn draw_rows(s: CpuModel, y: int, n: int) -> int {
    let y0 = (s.registers[y] % 32) as int;
    if n < 32 - y0 { n } else { 32 - y0 }
}

/// Whether `DXYN` flips the pixel at `row`, `col`: it lies inside the clipped
/// sprite and the matching sprite bit is set.
pub open spec fn sprite_hits(s: CpuModel, x: int, y: int, n: int, row: int, col: int) -> bool {
    let (x0, y0) = draw_origin(s, x, y);
    &&& y0 <= row < 32
    &&& row - y0 < n
    &&& x0 <= col < 64
    &&& col - x0 < 8
    &&& sprite_bit(s.memory[s.i + (row - y0)], col - x0)
}

/// Whether `DXYN` turns off a pixel that was on.
pub open spec fn draw_collides(s: CpuModel, x: int, y: int, n: int) -> bool {
    exists|row: int, col: int|
        0 <= row < 32 && 0 <= col < 64 && #[trigger] sprite_hits(s, x, y, n, row, col)
            && s.display[row][col]
}

/// The screen after `DXYN`: every hit pixel flipped.
pub open spec fn drawn_display(s: CpuModel, x: int, y: int, n: int) -> Seq<Seq<bool>> {
    Seq::new(
        32,
        |row: int|
            Seq::new(64, |col: int| s.display[row][col] != sprite_hits(s, x, y, n, row, col)),
    )
}

/// `DXYN`: XOR an `n`-row sprite read from I onto the screen; VF tells whether
/// a lit pixel was turned off.
pub open spec fn draw(s: CpuModel, x: int, y: int, n: int) -> CpuModel {
    CpuModel {
        display: drawn_display(s, x, y, n),
        registers: s.registers.update(15, if draw_collides(s, x, y, n) { 1u8 } else { 0u8 }),
        ..s
    }
}

/// The sprite rows that are drawn lie in memory.
pub open spec fn draw_defined(s: CpuModel, y: int, n: int) -> bool {
    s.i + draw_rows(s, y, n) <= 4096
}

/// The key that `EX9E` / `EXA1` look at is pressed.
pub open spec fn key_pressed(s: CpuModel, x: int) -> bool {
    s.keypad[(s.registers[x] % 16) as int]
}

/// Whether a conditional-skip instruction skips.
pub open spec fn skips(s: CpuModel, opcode: u16) -> bool {
    let kind = op_kind(opcode);
    let vx = s.registers[op_x(opcode)];
    let vy = s.registers[op_y(opcode)];
    if kind == 3 {
        vx == op_nn(opcode)
    } else if kind == 4 {
        vx != op_nn(opcode)
    } else if kind == 5 {
        vx == vy
    } else if kind == 9 {
        vx != vy
    } else if kind == 0xE {
        if op_nn(opcode) == 0x9E {
            key_pressed(s, op_x(opcode))
        } else {
            op_nn(opcode) == 0xA1 && !key_pressed(s, op_x(opcode))
        }
    } else {
        false
    }
}

/// `00E0` clears the screen, `00EE` returns from a subroutine, any other
/// `0NNN` jumps to NNN.
pub open spec fn system(s: CpuModel, opcode: u16) -> CpuModel {
    if opcode == 0x00E0 {
        CpuModel { display: blank_display(), ..s }
    } else if opcode == 0x00EE {
        CpuModel { sp: (s.sp - 1) as u8, pc: s.stack[s.sp - 1], ..s }
    } else {
        jump(s, op_nnn(opcode) as int)
    }
}

/// The state after executing `opcode`; `rnd` is the random byte that `CXNN` uses.
pub open spec fn execute(s: CpuModel, opcode: u16, rnd: u8) -> CpuModel {
    let kind = op_kind(opcode);
    let x = op_x(opcode);
    let y = op_y(opcode);
    let n = op_n(opcode);
    let nn = op_nn(opcode);
    let nnn = op_nnn(opcode);
    let vx = s.registers[x];
    if kind == 0 {
        system(s, opcode)
    } else if kind == 1 {
        jump(s, nnn as int)
    } else if kind == 2 {
        CpuModel {
            stack: s.stack.update(s.sp as int, s.pc),
            sp: (s.sp + 1) as u8,
            pc: nnn,
            ..s
        }
    } else if kind == 3 || kind == 4 || kind == 5 || kind == 9 || kind == 0xE {
        skip_if(s, skips(s, opcode))
    } else if kind == 6 {
        set_reg(s, x, nn)
    } else if kind == 7 {
        set_reg(s, x, ((vx + nn) % 256) as u8)
    } else if kind == 8 {
        alu(s, x, y, n)
    } else if kind == 0xA {
        CpuModel { i: nnn, ..s }
    } else if kind == 0xB {
        jump(s, nnn + s.registers[0])
    } else if kind == 0xC {
        set_reg(s, x, rnd & nn)
    } else if kind == 0xD {
        draw(s, x, y, n)
    } else {
        misc(s, x, nn)
    }
}

/// The inputs on which executing `opcode` is defined: a known instruction,
/// no stack overflow or underflow, no address or counter out of range.
pub open spec fn execute_defined(s: CpuModel, opcode: u16) -> bool {
    let kind = op_kind(opcode);
    let x = op_x(opcode);
    let y = op_y(opcode);
    let n = op_n(opcode);
    let nn = op_nn(opcode);
    &&& (kind == 0 && opcode == 0x00EE) ==> 1 <= s.sp <= 16
    &&& kind == 2 ==> s.sp < 16
    &&& skips(s, opcode) ==> s.pc + 2 <= 0xFFFF
    &&& kind == 8 ==> alu_defined(n)
    &&& kind == 0xD ==> draw_defined(s, y, n)
    &&& kind == 0xE ==> (nn == 0x9E || nn == 0xA1)
    &&& kind == 0xF ==> misc_defined(s, x, nn)
}

/// The state after one fetch-advance-execute cycle.
pub open spec fn step(s: CpuModel, rnd: u8) -> CpuModel {
    execute(jump(s, s.pc + 2), fetch_at(s), rnd)
}

/// One cycle is defined: the opcode lies in memory and executing it is defined.
pub open spec fn step_defined(s: CpuModel) -> bool {
    &&& s.pc + 1 < 4096
    &&& execute_defined(jump(s, s.pc + 2), fetch_at(s))
}

} // verus!

verus! {

/// Memory after a ROM image is copied to 0x200 onward.
pub open spec fn loaded_memory(memory: Seq<u8>, rom: Seq<u8>) -> Seq<u8> {
    Seq::new(
        memory.len(),
        |a: int| if 0x200 <= a < 0x200 + rom.len() { rom[a - 0x200] } else { memory[a] },
    )
}

/// A ROM image fits in memory after 0x200.
pub open spec fn rom_fits(rom: Seq<u8>) -> bool {
    rom.len() <= 4096 - 0x200
}

/// One screen row as text: `X` for a lit pixel, `_` for a dark one, then a newline.
pub open spec fn row_text(row: Seq<bool>) -> Seq<char> {
    Seq::new(row.len(), |c: int| if row[c] { 'X' } else { '_' }).push('\n')
}

/// The first `k` rows of the screen as text.
pub open spec fn rows_text(display: Seq<Seq<bool>>, k: int) -> Seq<char>
    decreases k,
{
    if k <= 0 {
        Seq::empty()
    } else {
        rows_text(display, k - 1) + row_text(display[k - 1])
    }
}

/// The whole screen as text, followed by an empty line.
pub open spec fn screen_text(display: Seq<Seq<bool>>) -> Seq<char> {
    rows_text(display, display.len() as int).push('\n')
}

} // verus!
