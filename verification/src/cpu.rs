use vstd::prelude::*;
use crate::consts::{PIXEL_COLS, PIXEL_ROWS, MEMORY_SIZE};
use crate::model::{
    CpuModel, font, blank_display, fetch_at, set_reg, set_reg_flag, system, alu, alu_defined,
    op_nnn, op_kind, op_x, op_nn, key_pressed, skips, skip_if, misc, misc_defined, first_pressed,
    first_pressed_from, bcd_memory, jump, draw, draw_defined, draw_origin, draw_rows, sprite_hits,
    sprite_bit, draw_collides, op_y, op_n, execute_defined, step_defined,
    loaded_memory, rom_fits, row_text, rows_text, screen_text,
};

verus! {

const FONTSET: [u8; 80] = [
    0xF0, 0x90, 0x90, 0x90, 0xF0, // 0
    0x20, 0x60, 0x20, 0x20, 0x70, // 1
    0xF0, 0x10, 0xF0, 0x80, 0xF0, // 2
    0xF0, 0x10, 0xF0, 0x10, 0xF0, // 3
    0x90, 0x90, 0xF0, 0x10, 0x10, // 4
    0xF0, 0x80, 0xF0, 0x10, 0xF0, // 5
    0xF0, 0x80, 0xF0, 0x90, 0xF0, // 6
    0xF0, 0x10, 0x20, 0x40, 0x40, // 7
    0xF0, 0x90, 0xF0, 0x90, 0xF0, // 8
    0xF0, 0x90, 0xF0, 0x10, 0xF0, // 9
    0xF0, 0x90, 0xF0, 0x90, 0x90, // A
    0xE0, 0x90, 0xE0, 0x90, 0xE0, // B
    0xF0, 0x80, 0x80, 0x80, 0xF0, // C
    0xE0, 0x90, 0x90, 0x90, 0xE0, // D
    0xF0, 0x80, 0xF0, 0x80, 0xF0, // E
    0xF0, 0x80, 0xF0, 0x80, 0x80, // F
];

/// A CHIP-8 machine: memory, registers V0..VF, index register I, program
/// counter, call stack, timers, keypad and a 64x32 monochrome screen.
pub struct CPU {
    pub memory: [u8; MEMORY_SIZE],
    pub registers: [u8; 16],
    pub i: u16,
    pub pc: u16,
    pub stack: [u16; 16],
    pub sp: u8,
    pub delay_timer: u8,
    pub sound_timer: u8,
    pub keypad: [bool; 16],
    pub display: [[bool; PIXEL_COLS]; PIXEL_ROWS],
}

impl View for CPU {
    type V = CpuModel;

    open spec fn view(&self) -> CpuModel {
        CpuModel {
            memory: self.memory@,
            registers: self.registers@,
            i: self.i,
            pc: self.pc,
            stack: self.stack@,
            sp: self.sp,
            delay_timer: self.delay_timer,
            sound_timer: self.sound_timer,
            keypad: self.keypad@,
            display: self.display@.map_values(|row: [bool; PIXEL_COLS]| row@),
        }
    }
}

/// `rand::random::<u8>()`: a byte from the thread-local generator. Any byte
/// may come back.
#[verifier::external_body]
fn random_byte() -> (r: u8) {
    rand::random::<u8>()
}

/// `sprite_hits` restricted to the part of the sprite drawn so far: the rows
/// before `rows_done`, and the first `cols_done` pixels of row `rows_done`.
spec fn drawn_so_far(
    s: CpuModel,
    x: int,
    y: int,
    n: int,
    rows_done: int,
    cols_done: int,
    row: int,
    col: int,
) -> bool {
    let (x0, y0) = draw_origin(s, x, y);
    &&& sprite_hits(s, x, y, n, row, col)
    &&& (row - y0 < rows_done || (row - y0 == rows_done && col - x0 < cols_done))
}

spec fn collided_so_far(s: CpuModel, x: int, y: int, n: int, rows_done: int, cols_done: int) -> bool {
    exists|row: int, col: int|
        0 <= row < 32 && 0 <= col < 64 && #[trigger] drawn_so_far(
            s,
            x,
            y,
            n,
            rows_done,
            cols_done,
            row,
            col,
        ) && s.display[row][col]
}

/// The state while `DXYN` runs, once the pixels `drawn_so_far` are flipped.
spec fn partial_draw(s: CpuModel, x: int, y: int, n: int, rows_done: int, cols_done: int) -> CpuModel {
    CpuModel {
        display: Seq::new(
            32,
            |row: int|
                Seq::new(
                    64,
                    |col: int|
                        s.display[row][col] != drawn_so_far(s, x, y, n, rows_done, cols_done, row, col),
                ),
        ),
        registers: s.registers.update(
            15,
            if collided_so_far(s, x, y, n, rows_done, cols_done) { 1u8 } else { 0u8 },
        ),
        ..s
    }
}

/// Drawing one set sprite bit flips its pixel and records a collision when
/// the pixel was lit.
proof fn lemma_step_hit(
    s0: CpuModel,
    x: int,
    y: int,
    n: int,
    row: int,
    col: int,
    before: CpuModel,
    after: CpuModel,
)
    requires
        s0.wf(),
        0 <= x < 16,
        0 <= y < 16,
        0 <= row < draw_rows(s0, y, n),
        0 <= col,
        col < 8,
        draw_origin(s0, x, y).0 + col < 64,
        sprite_bit(s0.memory[s0.i + row], col),
        before == partial_draw(s0, x, y, n, row, col),
        ({
            let (x0, y0) = draw_origin(s0, x, y);
            let lit = before.display[y0 + row][x0 + col];
            after == CpuModel {
                display: before.display.update(
                    y0 + row,
                    before.display[y0 + row].update(x0 + col, !lit),
                ),
                registers: if lit {
                    before.registers.update(15, 1)
                } else {
                    before.registers
                },
                ..before
            }
        }),
    ensures
        after == partial_draw(s0, x, y, n, row, col + 1),
{
    let (x0, y0) = draw_origin(s0, x, y);
    let target = partial_draw(s0, x, y, n, row, col + 1);
    assert(sprite_hits(s0, x, y, n, y0 + row, x0 + col));
    assert(drawn_so_far(s0, x, y, n, row, col + 1, y0 + row, x0 + col));
    assert(!drawn_so_far(s0, x, y, n, row, col, y0 + row, x0 + col));
    assert forall|r: int, c: int|
        !(r == y0 + row && c == x0 + col) implies #[trigger] drawn_so_far(s0, x, y, n, row, col + 1, r, c)
        == drawn_so_far(s0, x, y, n, row, col, r, c) by {}
    assert forall|r: int| 0 <= r < 32 implies #[trigger] after.display[r] =~= target.display[r] by {}
    assert(after.display =~= target.display);
    let lit = s0.display[y0 + row][x0 + col];
    if lit {
        assert(collided_so_far(s0, x, y, n, row, col + 1));
        assert(drawn_so_far(s0, x, y, n, row, col + 1, y0 + row, x0 + col));
    } else {
        if collided_so_far(s0, x, y, n, row, col + 1) {
            let (r, c) = choose|r: int, c: int|
                0 <= r < 32 && 0 <= c < 64 && #[trigger] drawn_so_far(s0, x, y, n, row, col + 1, r, c)
                    && s0.display[r][c];
            assert(drawn_so_far(s0, x, y, n, row, col, r, c));
        }
        if collided_so_far(s0, x, y, n, row, col) {
            let (r, c) = choose|r: int, c: int|
                0 <= r < 32 && 0 <= c < 64 && #[trigger] drawn_so_far(s0, x, y, n, row, col, r, c)
                    && s0.display[r][c];
            assert(drawn_so_far(s0, x, y, n, row, col + 1, r, c));
        }
    }
    assert(after.registers =~= target.registers);
}

/// Two stages of a draw that have flipped the same pixels agree on the collision flag.
proof fn lemma_collided_same(s0: CpuModel, x: int, y: int, n: int, r1: int, c1: int, r2: int, c2: int)
    requires
        forall|r: int, c: int| #[trigger] drawn_so_far(s0, x, y, n, r1, c1, r, c)
            == drawn_so_far(s0, x, y, n, r2, c2, r, c),
    ensures
        collided_so_far(s0, x, y, n, r1, c1) == collided_so_far(s0, x, y, n, r2, c2),
{
    if collided_so_far(s0, x, y, n, r1, c1) {
        let (r, c) = choose|r: int, c: int|
            0 <= r < 32 && 0 <= c < 64 && #[trigger] drawn_so_far(s0, x, y, n, r1, c1, r, c)
                && s0.display[r][c];
        assert(drawn_so_far(s0, x, y, n, r2, c2, r, c));
    }
    if collided_so_far(s0, x, y, n, r2, c2) {
        let (r, c) = choose|r: int, c: int|
            0 <= r < 32 && 0 <= c < 64 && #[trigger] drawn_so_far(s0, x, y, n, r2, c2, r, c)
                && s0.display[r][c];
        assert(drawn_so_far(s0, x, y, n, r1, c1, r, c));
    }
}

/// Passing over a clear sprite bit changes nothing.
proof fn lemma_step_miss(s0: CpuModel, x: int, y: int, n: int, row: int, col: int)
    requires
        s0.wf(),
        0 <= x < 16,
        0 <= y < 16,
        0 <= row < draw_rows(s0, y, n),
        0 <= col,
        col < 8,
        draw_origin(s0, x, y).0 + col < 64,
        !sprite_bit(s0.memory[s0.i + row], col),
    ensures
        partial_draw(s0, x, y, n, row, col) == partial_draw(s0, x, y, n, row, col + 1),
{
    let a = partial_draw(s0, x, y, n, row, col);
    let b = partial_draw(s0, x, y, n, row, col + 1);
    assert forall|r: int, c: int| #[trigger] drawn_so_far(s0, x, y, n, row, col + 1, r, c)
        == drawn_so_far(s0, x, y, n, row, col, r, c) by {}
    assert forall|r: int| 0 <= r < 32 implies #[trigger] a.display[r] =~= b.display[r] by {}
    assert(a.display =~= b.display);
    lemma_collided_same(s0, x, y, n, row, col, row, col + 1);
    assert(a.registers =~= b.registers);
}

/// Once every on-screen pixel of a row is drawn, the next row starts.
proof fn lemma_row_done(s0: CpuModel, x: int, y: int, n: int, row: int, cols: int)
    requires
        s0.wf(),
        0 <= x < 16,
        0 <= y < 16,
        cols == (if 8 < 64 - draw_origin(s0, x, y).0 { 8 } else { 64 - draw_origin(s0, x, y).0 }),
    ensures
        partial_draw(s0, x, y, n, row, cols) == partial_draw(s0, x, y, n, row + 1, 0),
{
    let a = partial_draw(s0, x, y, n, row, cols);
    let b = partial_draw(s0, x, y, n, row + 1, 0);
    assert forall|r: int, c: int| #[trigger] drawn_so_far(s0, x, y, n, row, cols, r, c)
        == drawn_so_far(s0, x, y, n, row + 1, 0, r, c) by {}
    assert forall|r: int| 0 <= r < 32 implies #[trigger] a.display[r] =~= b.display[r] by {}
    assert(a.display =~= b.display);
    lemma_collided_same(s0, x, y, n, row, cols, row + 1, 0);
    assert(a.registers =~= b.registers);
}

/// Once every on-screen row is drawn, the whole sprite is.
proof fn lemma_all_rows_done(s0: CpuModel, x: int, y: int, n: int, rows: int)
    requires
        s0.wf(),
        0 <= x < 16,
        0 <= y < 16,
        rows == draw_rows(s0, y, n),
    ensures
        partial_draw(s0, x, y, n, rows, 0) == draw(s0, x, y, n),
{
    let a = partial_draw(s0, x, y, n, rows, 0);
    let b = draw(s0, x, y, n);
    assert forall|r: int, c: int| #[trigger] drawn_so_far(s0, x, y, n, rows, 0, r, c)
        == sprite_hits(s0, x, y, n, r, c) by {}
    assert forall|r: int| 0 <= r < 32 implies #[trigger] a.display[r] =~= b.display[r] by {}
    assert(a.display =~= b.display);
    if collided_so_far(s0, x, y, n, rows, 0) {
        let (r, c) = choose|r: int, c: int|
            0 <= r < 32 && 0 <= c < 64 && #[trigger] drawn_so_far(s0, x, y, n, rows, 0, r, c)
                && s0.display[r][c];
        assert(sprite_hits(s0, x, y, n, r, c));
    }
    if draw_collides(s0, x, y, n) {
        let (r, c) = choose|r: int, c: int|
            0 <= r < 32 && 0 <= c < 64 && #[trigger] sprite_hits(s0, x, y, n, r, c)
                && s0.display[r][c];
        assert(drawn_so_far(s0, x, y, n, rows, 0, r, c));
    }
    assert(a.registers =~= b.registers);
}

impl CPU {
    /// The view of every machine has the hardware's sizes.
    pub proof fn lemma_wf(&self)
        ensures
            self@.wf(),
    {
        assert forall|r: int| 0 <= r < 32 implies #[trigger] self@.display[r].len() == 64 by {
            assert(self@.display[r] == self.display@[r]@);
        }
    }

    /// A machine that was just switched on: the font at 0x50, all else zero,
    /// execution starting at 0x200.
    pub fn new() -> (cpu: CPU)
        ensures
            cpu@ == CpuModel::initial(),
    {
        let mut memory = [0u8; MEMORY_SIZE];
        assert(FONTSET@ == font());
        let mut k: usize = 0;
        while k < 80
            invariant
                k <= 80,
                FONTSET@ == font(),
                memory@.len() == 4096,
                forall|a: int| 0x50 <= a < 0x50 + k ==> memory@[a] == font()[a - 0x50],
                forall|a: int| 0 <= a < 0x50 || 0x50 + k <= a < 4096 ==> memory@[a] == 0,
            decreases 80 - k,
        {
            memory[0x50 + k] = FONTSET[k];
            k += 1;
        }
        let cpu = CPU {
            memory,
            registers: [0; 16],
            keypad: [false; 16],
            i: 0,
            pc: 0x200,
            stack: [0; 16],
            sp: 0,
            delay_timer: 0,
            sound_timer: 0,
            display: [[false; PIXEL_COLS]; PIXEL_ROWS],
        };
        assert(cpu@.memory =~= CpuModel::initial().memory);
        assert(cpu@.registers =~= CpuModel::initial().registers);
        assert(cpu@.stack =~= CpuModel::initial().stack);
        assert(cpu@.keypad =~= CpuModel::initial().keypad);
        assert forall|r: int| 0 <= r < 32 implies #[trigger] cpu@.display[r] =~= blank_display()[r] by {
            assert(cpu@.display[r] == cpu.display@[r]@);
        }
        assert(cpu@.display =~= blank_display());
        cpu
    }

    /// The big-endian opcode at the program counter.
    pub fn fetch(&self) -> (opcode: u16)
        requires
            self.pc + 1 < 4096,
        ensures
            opcode == fetch_at(self@),
    {
        let hi = self.memory[self.pc as usize] as u16;
        let lo = self.memory[self.pc as usize + 1] as u16;
        assert((hi << 8) | lo == hi * 256 + lo) by (bit_vector)
            requires
                hi < 256,
                lo < 256,
        ;
        (hi << 8) | lo
    }

    fn apply_on_xv_with_flag(&mut self, x: usize, value: u8, flag: u8)
        requires
            x < 16,
        ensures
            final(self)@ == set_reg_flag(old(self)@, x as int, value, flag),
    {
        self.registers[x] = value;
        self.registers[0xF] = flag;
    }

    fn op_0(&mut self, opcode: u16, nnn: u16)
        requires
            op_kind(opcode) == 0,
            nnn == op_nnn(opcode),
            opcode == 0x00EE ==> 1 <= old(self).sp <= 16,
        ensures
            final(self)@ == system(old(self)@, opcode),
    {
        match opcode {
            0x00E0 => {
                self.display = [[false; PIXEL_COLS]; PIXEL_ROWS];
                assert forall|r: int| 0 <= r < 32 implies #[trigger] self@.display[r]
                    =~= blank_display()[r] by {
                    assert(self@.display[r] == self.display@[r]@);
                }
                assert(self@.display =~= blank_display());
            },
            0x00EE => {
                self.sp -= 1;
                self.pc = self.stack[self.sp as usize];
            },
            _ => self.pc = nnn,
        }
    }

    /// `8XYN`: register arithmetic on VX and VY.
    fn op_8(&mut self, x: usize, y: usize, n: u8)
        requires
            x < 16,
            y < 16,
            alu_defined(n as int),
        ensures
            final(self)@ == alu(old(self)@, x as int, y as int, n as int),
    {
        let vx = self.registers[x];
        let vy = self.registers[y];
        match n {
            0 => self.registers[x] = vy,
            1 => self.registers[x] = vx | vy,
            2 => self.registers[x] = vx & vy,
            3 => self.registers[x] = vx ^ vy,
            4 => {
                let sum: u16 = (vx as u16) + (vy as u16);
                assert(sum as u8 == sum % 256) by (bit_vector)
                    requires
                        sum < 512,
                ;
                self.apply_on_xv_with_flag(x, sum as u8, if sum > 0xFF { 1 } else { 0 });
            },
            5 => self.apply_on_xv_with_flag(x, vx.wrapping_sub(vy), if vx >= vy { 1 } else { 0 }),
            6 => {
                assert(vy >> 1 == vy / 2 && vy & 1 == vy % 2) by (bit_vector);
                self.apply_on_xv_with_flag(x, vy >> 1, vy & 1)
            },
            7 => self.apply_on_xv_with_flag(x, vy.wrapping_sub(vx), if vy >= vx { 1 } else { 0 }),
            _ => {
                assert(vy << 1 == (vy * 2) % 256 && (vy >> 7) & 1 == vy / 128) by (bit_vector);
                self.apply_on_xv_with_flag(x, vy << 1, (vy >> 7) & 1)
            },
        }
    }

    /// `CXNN`: VX gets a random byte masked with NN. The byte is an argument
    /// so that callers choose where it comes from.
    pub fn cxnn(&mut self, x: usize, nn: u8, random_byte: u8)
        requires
            x < 16,
        ensures
            final(self)@ == set_reg(old(self)@, x as int, random_byte & nn),
    {
        self.registers[x] = random_byte & nn;
    }

    /// `EX9E` / `EXA1`: skip when the key named by the low nibble of VX is
    /// (not) pressed.
    fn op_e(&mut self, opcode: u16, nn: u8, vx: u8)
        requires
            op_kind(opcode) == 0xE,
            nn == op_nn(opcode),
            vx == old(self)@.registers[op_x(opcode)],
            nn == 0x9E || nn == 0xA1,
            skips(old(self)@, opcode) ==> old(self).pc + 2 <= 0xFFFF,
        ensures
            final(self)@ == skip_if(old(self)@, skips(old(self)@, opcode)),
    {
        assert((vx as usize) & 0xF == vx % 16) by (bit_vector);
        let pressed = self.keypad[vx as usize & 0xF];
        assert(pressed == key_pressed(self@, op_x(opcode)));
        match nn {
            0x9E => {
                if pressed {
                    self.pc += 2;
                }
            },
            _ => {
                if !pressed {
                    self.pc += 2;
                }
            },
        }
    }

    /// The lowest pressed key, or 16 when none is pressed.
    fn first_pressed_key(&self) -> (k: usize)
        ensures
            k == first_pressed(self@.keypad),
            k <= 16,
    {
        let mut k: usize = 0;
        while k < 16 && !self.keypad[k]
            invariant
                k <= 16,
                self@.keypad.len() == 16,
                first_pressed(self@.keypad) == first_pressed_from(self@.keypad, k as int),
            decreases 16 - k,
        {
            k += 1;
        }
        k
    }

    /// `FXNN`: timers, key wait, index register, decimal digits, register
    /// dump and load.
    fn op_f(&mut self, x: usize, nn: u8)
        requires
            x < 16,
            misc_defined(old(self)@, x as int, nn),
        ensures
            final(self)@ == misc(old(self)@, x as int, nn),
    {
        proof {
            self.lemma_wf();
        }
        let ghost s0 = self@;
        match nn {
            0x07 => self.registers[x] = self.delay_timer,
            0x0A => {
                let k = self.first_pressed_key();
                if k < 16 {
                    self.registers[x] = k as u8;
                } else {
                    self.pc -= 2;
                }
            },
            0x15 => self.delay_timer = self.registers[x],
            0x18 => self.sound_timer = self.registers[x],
            0x1E => self.i += self.registers[x] as u16,
            0x29 => self.i = 0x50 + (self.registers[x] as u16 * 5),
            0x33 => {
                let at = self.i as usize;
                let mut number = self.registers[x];
                self.memory[at + 2] = number % 10;
                number /= 10;
                self.memory[at + 1] = number % 10;
                number /= 10;
                self.memory[at] = number % 10;
                assert(self@.memory =~= bcd_memory(s0.memory, at as int, s0.registers[x as int]));
            },
            0x55 => {
                let mut idx: usize = 0;
                while idx <= x
                    invariant
                        x < 16,
                        idx <= x + 1,
                        s0.wf(),
                        s0.i + x < 4096,
                        self@ == (CpuModel {
                            memory: Seq::new(
                                4096,
                                |a: int|
                                    if s0.i <= a < s0.i + idx {
                                        s0.registers[a - s0.i]
                                    } else {
                                        s0.memory[a]
                                    },
                            ),
                            i: (s0.i + idx) as u16,
                            ..s0
                        }),
                    decreases x + 1 - idx,
                {
                    self.memory[self.i as usize] = self.registers[idx];
                    self.i += 1;
                    idx += 1;
                    assert(self@.memory =~= Seq::new(
                        4096,
                        |a: int|
                            if s0.i <= a < s0.i + idx {
                                s0.registers[a - s0.i]
                            } else {
                                s0.memory[a]
                            },
                    ));
                }
                assert(self@.memory =~= misc(s0, x as int, nn).memory);
            },
            _ => {
                let mut idx: usize = 0;
                while idx <= x
                    invariant
                        x < 16,
                        idx <= x + 1,
                        s0.wf(),
                        s0.i + x < 4096,
                        self@ == (CpuModel {
                            registers: Seq::new(
                                16,
                                |r: int| if r < idx { s0.memory[s0.i + r] } else { s0.registers[r] },
                            ),
                            i: (s0.i + idx) as u16,
                            ..s0
                        }),
                    decreases x + 1 - idx,
                {
                    self.registers[idx] = self.memory[self.i as usize];
                    self.i += 1;
                    idx += 1;
                    assert(self@.registers =~= Seq::new(
                        16,
                        |r: int| if r < idx { s0.memory[s0.i + r] } else { s0.registers[r] },
                    ));
                }
                assert(self@.registers =~= misc(s0, x as int, nn).registers);
            },
        }
    }

    /// `DXYN`: draw the `n`-row sprite at I, clipped at the screen's edges.
    fn op_d(&mut self, x: usize, y: usize, n: usize)
        requires
            x < 16,
            y < 16,
            n < 16,
            draw_defined(old(self)@, y as int, n as int),
        ensures
            final(self)@ == draw(old(self)@, x as int, y as int, n as int),
    {
        proof {
            self.lemma_wf();
        }
        let ghost s0 = self@;
        let ghost (xi, yi, ni) = (x as int, y as int, n as int);
        let x_pos = (self.registers[x] % (PIXEL_COLS as u8)) as usize;
        let y_pos = (self.registers[y] % (PIXEL_ROWS as u8)) as usize;
        self.registers[0xF] = 0;
        assert(self@ =~= partial_draw(s0, xi, yi, ni, 0, 0)) by {
            assert(self@.display =~= partial_draw(s0, xi, yi, ni, 0, 0).display) by {
                assert forall|r: int| 0 <= r < 32 implies #[trigger] self@.display[r]
                    =~= partial_draw(s0, xi, yi, ni, 0, 0).display[r] by {}
            }
        }
        let rows = if n < PIXEL_ROWS - y_pos { n } else { PIXEL_ROWS - y_pos };
        let cols = if 8 < PIXEL_COLS - x_pos { 8 } else { PIXEL_COLS - x_pos };
        let mut row: usize = 0;
        while row < rows
            invariant
                x < 16,
                y < 16,
                n < 16,
                xi == x,
                yi == y,
                ni == n,
                s0.wf(),
                (x_pos as int, y_pos as int) == draw_origin(s0, xi, yi),
                rows == draw_rows(s0, yi, ni),
                cols == (if 8 < 64 - x_pos { 8 } else { 64 - x_pos }),
                s0.i + rows <= 4096,
                row <= rows,
                self@ == partial_draw(s0, xi, yi, ni, row as int, 0),
            decreases rows - row,
        {
            let sprite_byte = self.memory[self.i as usize + row];
            let mut col: usize = 0;
            while col < cols
                invariant
                    x < 16,
                    y < 16,
                    n < 16,
                    xi == x,
                    yi == y,
                    ni == n,
                    s0.wf(),
                    (x_pos as int, y_pos as int) == draw_origin(s0, xi, yi),
                    rows == draw_rows(s0, yi, ni),
                    cols == (if 8 < 64 - x_pos { 8 } else { 64 - x_pos }),
                    s0.i + rows <= 4096,
                    row < rows,
                    col <= cols,
                    sprite_byte == s0.memory[s0.i + row],
                    self@ == partial_draw(s0, xi, yi, ni, row as int, col as int),
                decreases cols - col,
            {
                let ghost before = self@;
                if (sprite_byte >> ((7 - col) as u8)) & 1 == 1 {
                    let xp = x_pos + col;
                    let yp = y_pos + row;
                    assert(sprite_hits(s0, xi, yi, ni, yp as int, xp as int));
                    assert(!drawn_so_far(s0, xi, yi, ni, row as int, col as int, yp as int, xp as int));
                    let ghost old_display = self.display;
                    if self.display[yp][xp] {
                        self.registers[0xF] = 1;
                    }
                    self.display[yp][xp] = !self.display[yp][xp];
                    proof {
                        let ghost lit = before.display[yp as int][xp as int];
                        assert(self@.display =~= before.display.update(
                            yp as int,
                            before.display[yp as int].update(xp as int, !lit),
                        )) by {
                            assert forall|r: int| 0 <= r < 32 implies #[trigger] self@.display[r]
                                =~= before.display.update(
                                yp as int,
                                before.display[yp as int].update(xp as int, !lit),
                            )[r] by {
                                assert(self@.display[r] == self.display@[r]@);
                                assert(before.display[r] == old_display@[r]@);
                            }
                        }
                        lemma_step_hit(s0, xi, yi, ni, row as int, col as int, before, self@);
                    }
                } else {
                    proof {
                        lemma_step_miss(s0, xi, yi, ni, row as int, col as int);
                    }
                }
                col += 1;
            }
            row += 1;
            proof {
                lemma_row_done(s0, xi, yi, ni, (row - 1) as int, cols as int);
            }
        }
        proof {
            lemma_all_rows_done(s0, xi, yi, ni, rows as int);
        }
    }

    /// Decodes `opcode` into its kind and its X, Y, N, NN, NNN fields.
    fn decode(opcode: u16) -> (fields: (u16, usize, usize, u8, u8, u16))
        ensures
            fields.0 as int == op_kind(opcode),
            fields.1 as int == op_x(opcode),
            fields.2 as int == op_y(opcode),
            fields.3 as int == op_n(opcode),
            fields.4 == op_nn(opcode),
            fields.5 == op_nnn(opcode),
            fields.0 < 16,
            fields.1 < 16,
            fields.2 < 16,
            fields.3 < 16,
    {
        let op = (opcode & 0xF000) >> 12;
        let x = (opcode & 0x0F00) >> 8;
        let y = (opcode & 0x00F0) >> 4;
        let n = opcode & 0x000F;
        let nn = opcode & 0x00FF;
        let nnn = opcode & 0x0FFF;
        assert(((opcode & 0xF000) >> 12) == opcode / 0x1000 && ((opcode & 0x0F00) >> 8) == (opcode
            / 0x100) % 16 && ((opcode & 0x00F0) >> 4) == (opcode / 0x10) % 16 && (opcode & 0x000F)
            == opcode % 16 && (opcode & 0x00FF) == opcode % 0x100 && (opcode & 0x0FFF) == opcode
            % 0x1000) by (bit_vector);
        (op, x as usize, y as usize, n as u8, nn as u8, nnn)
    }

    /// Whether a conditional skip instruction skips when the program counter is `pc`.
    fn skips_now(&self, opcode: u16) -> (skip: bool)
        ensures
            skip == skips(self@, opcode),
    {
        proof {
            self.lemma_wf();
        }
        let (op, x, y, _n, nn, _nnn) = Self::decode(opcode);
        let vx = self.registers[x];
        let vy = self.registers[y];
        assert((vx as usize) & 0xF == vx % 16) by (bit_vector);
        let pressed = self.keypad[vx as usize & 0xF];
        match op {
            3 => vx == nn,
            4 => vx != nn,
            5 => vx == vy,
            9 => vx != vy,
            0xE => {
                if nn == 0x9E {
                    pressed
                } else {
                    nn == 0xA1 && !pressed
                }
            },
            _ => false,
        }
    }

    /// Whether executing `opcode` is defined once the program counter is `pc`.
    fn defined_at(&self, opcode: u16, pc: u16) -> (ok: bool)
        ensures
            ok == execute_defined(jump(self@, pc as int), opcode),
    {
        proof {
            self.lemma_wf();
        }
        let ghost s = jump(self@, pc as int);
        assert(s =~= CpuModel { pc: pc, ..self@ });
        let (op, x, y, n, nn, _nnn) = Self::decode(opcode);
        let skip = self.skips_now(opcode);
        assert(skip == skips(s, opcode));
        if skip && pc > 0xFFFD {
            return false;
        }
        let vx = self.registers[x];
        let vy = self.registers[y];
        match op {
            0 => opcode != 0x00EE || (1 <= self.sp && self.sp <= 16),
            2 => self.sp < 16,
            8 => n <= 7 || n == 0xE,
            0xD => {
                let y_pos = (vy % (PIXEL_ROWS as u8)) as usize;
                let rows = if (n as usize) < PIXEL_ROWS - y_pos { n as usize } else { PIXEL_ROWS - y_pos };
                self.i as usize + rows <= MEMORY_SIZE
            },
            0xE => nn == 0x9E || nn == 0xA1,
            0xF => match nn {
                0x07 | 0x15 | 0x18 | 0x29 => true,
                0x0A => self.first_pressed_key() < 16 || pc >= 2,
                0x1E => self.i as u32 + vx as u32 <= 0xFFFF,
                0x33 => (self.i as usize) + 2 < MEMORY_SIZE,
                0x55 | 0x65 => (self.i as usize) + x < MEMORY_SIZE,
                _ => false,
            },
            _ => true,
        }
    }

    /// Whether `execute(opcode)` is defined on this machine (else the
    /// instruction is unknown, or it would overflow the stack, a counter or memory).
    pub fn can_execute(&self, opcode: u16) -> (ok: bool)
        ensures
            ok == execute_defined(self@, opcode),
    {
        let ok = self.defined_at(opcode, self.pc);
        assert(jump(self@, self.pc as int) =~= self@);
        ok
    }

    /// Whether `step()` is defined on this machine.
    pub fn can_step(&self) -> (ok: bool)
        ensures
            ok == step_defined(self@),
    {
        if self.pc >= 4095 {
            return false;
        }
        let opcode = self.fetch();
        self.defined_at(opcode, self.pc + 2)
    }

    /// Executes one instruction; `random_byte` is the byte that `CXNN` masks.
    pub fn execute_with_random(&mut self, opcode: u16, random_byte: u8)
        requires
            execute_defined(old(self)@, opcode),
        ensures
            final(self)@ == crate::model::execute(old(self)@, opcode, random_byte),
    {
        proof {
            self.lemma_wf();
        }
        let (op, x, y, n, nn, nnn) = Self::decode(opcode);
        let vx = self.registers[x];
        let vy = self.registers[y];
        match op {
            0 => self.op_0(opcode, nnn),
            1 => self.pc = nnn,
            2 => {
                self.stack[self.sp as usize] = self.pc;
                self.sp += 1;
                self.pc = nnn;
            },
            3 if vx == nn => self.pc += 2,
            4 if vx != nn => self.pc += 2,
            5 if vx == vy => self.pc += 2,
            9 if vx != vy => self.pc += 2,
            3 | 4 | 5 | 9 => {},
            6 => self.registers[x] = nn,
            7 => self.registers[x] = vx.wrapping_add(nn),
            8 => self.op_8(x, y, n),
            0xA => self.i = nnn,
            0xB => self.pc = nnn + self.registers[0] as u16,
            0xC => self.cxnn(x, nn, random_byte),
            0xE => self.op_e(opcode, nn, vx),
            0xD => self.op_d(x, y, n as usize),
            _ => self.op_f(x, nn),
        }
    }

    /// Executes one instruction. `CXNN` draws its byte from `rand::random`;
    /// any other instruction does not depend on it.
    pub fn execute(&mut self, opcode: u16)
        requires
            execute_defined(old(self)@, opcode),
        ensures
            exists|r: u8| final(self)@ == crate::model::execute(old(self)@, opcode, r),
            op_kind(opcode) != 0xC ==> final(self)@ == crate::model::execute(old(self)@, opcode, 0),
    {
        let random = if (opcode & 0xF000) >> 12 == 0xC { random_byte() } else { 0 };
        assert(((opcode & 0xF000) >> 12 == 0xC) == (opcode / 0x1000 == 0xC)) by (bit_vector);
        self.execute_with_random(opcode, random);
    }

    /// One cycle: fetch the opcode at the program counter, advance the
    /// counter by two, execute the opcode.
    pub fn step(&mut self)
        requires
            step_defined(old(self)@),
        ensures
            exists|r: u8| final(self)@ == crate::model::step(old(self)@, r),
            op_kind(fetch_at(old(self)@)) != 0xC ==> final(self)@ == crate::model::step(old(self)@, 0),
    {
        let opcode = self.fetch();
        self.pc += 2;
        assert(self@ =~= jump(old(self)@, old(self).pc + 2));
        let ghost mid = self@;
        self.execute(opcode);
        proof {
            let r = choose|r: u8| self@ == crate::model::execute(mid, opcode, r);
            assert(self@ == crate::model::step(old(self)@, r));
        }
    }

    /// Copies `rom` to memory from 0x200 onward.
    pub(crate) fn copy_rom(&mut self, rom: &[u8])
        requires
            rom_fits(rom@),
        ensures
            final(self)@ == (CpuModel { memory: loaded_memory(old(self)@.memory, rom@), ..old(self)@ }),
    {
        let ghost s0 = self@;
        let mut k: usize = 0;
        while k < rom.len()
            invariant
                rom_fits(rom@),
                k <= rom.len(),
                s0.memory.len() == 4096,
                self@ == (CpuModel {
                    memory: Seq::new(
                        4096,
                        |a: int| if 0x200 <= a < 0x200 + k { rom@[a - 0x200] } else { s0.memory[a] },
                    ),
                    ..s0
                }),
            decreases rom.len() - k,
        {
            self.memory[0x200 + k] = rom[k];
            k += 1;
            assert(self@.memory =~= Seq::new(
                4096,
                |a: int| if 0x200 <= a < 0x200 + k { rom@[a - 0x200] } else { s0.memory[a] },
            ));
        }
        assert(self@.memory =~= loaded_memory(s0.memory, rom@));
    }

    /// Loads a ROM image at 0x200. A ROM that does not fit is refused and
    /// memory is left as it was.
    pub fn load_rom(&mut self, rom: &[u8]) -> (result: Result<(), String>)
        ensures
            result is Ok <==> rom_fits(rom@),
            result is Ok ==> final(self)@ == (CpuModel {
                memory: loaded_memory(old(self)@.memory, rom@),
                ..old(self)@
            }),
            result matches Err(message) ==> final(self)@ == old(self)@ && message@
                == "ROM too large to fit in memory"@,
    {
        proof {
            self.lemma_wf();
        }
        if rom.len() > MEMORY_SIZE - 0x200 {
            return Err(String::from_str("ROM too large to fit in memory"));
        }
        self.copy_rom(rom);
        Ok(())
    }

    /// The screen as text: one line per row, `X` for lit pixels and `_` for
    /// dark ones, then an empty line.
    pub fn display_text(&self) -> (text: String)
        ensures
            text@ == screen_text(self@.display),
    {
        proof {
            self.lemma_wf();
            reveal_strlit("X");
            reveal_strlit("_");
            reveal_strlit("\n");
        }
        let ghost d = self@.display;
        let mut text = String::new();
        let mut row: usize = 0;
        while row < PIXEL_ROWS
            invariant
                row <= 32,
                d == self@.display,
                self@.wf(),
                text@ == rows_text(d, row as int),
            decreases 32 - row,
        {
            let mut col: usize = 0;
            while col < PIXEL_COLS
                invariant
                    row < 32,
                    col <= 64,
                    d == self@.display,
                    self@.wf(),
                    text@ == rows_text(d, row as int) + Seq::new(
                        col as nat,
                        |c: int| if d[row as int][c] { 'X' } else { '_' },
                    ),
                decreases 64 - col,
            {
                assert(self.display[row as int][col as int] == d[row as int][col as int]) by {
                    assert(d[row as int] == self.display@[row as int]@);
                }
                let ghost prev = text@;
                proof {
                    reveal_strlit("X");
                    reveal_strlit("_");
                }
                if self.display[row][col] {
                    text.append("X");
                    assert(text@ == prev.push('X'));
                } else {
                    text.append("_");
                    assert(text@ == prev.push('_'));
                }
                col += 1;
                assert(text@ =~= rows_text(d, row as int) + Seq::new(
                    col as nat,
                    |c: int| if d[row as int][c] { 'X' } else { '_' },
                ));
            }
            let ghost prev = text@;
            proof {
                reveal_strlit("\n");
            }
            text.append("\n");
            assert(text@ == prev.push('\n'));
            assert(row_text(d[row as int]) =~= Seq::new(
                64,
                |c: int| if d[row as int][c] { 'X' } else { '_' },
            ).push('\n'));
            row += 1;
            assert(text@ =~= rows_text(d, row as int));
        }
        let ghost prev = text@;
        text.append("\n");
        assert(text@ == prev.push('\n'));
        text
    }
}

} // verus!
