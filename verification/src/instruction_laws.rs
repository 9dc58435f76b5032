use vstd::prelude::*;
use crate::model::{
    CpuModel, execute, execute_defined, op_kind, op_x, op_y, op_n, op_nn, op_nnn, first_pressed_from,
    sprite_hits, draw_collides, fetch_at, step, step_defined, font, loaded_memory, rom_fits,
    screen_text, rows_text, row_text,
};
use crate::emulator::flat_display;
use crate::game::clicked_key;
use crate::keys::key_labels;

verus! {

// Each law below states, for every machine state and every operand, what one
// instruction does, in terms of the state before and after it. Opcodes are
// assembled from their fields, so the statements do not go through the
// decoder.

/// The opcode with nibbles `k`, `x`, `y`, `n`.
pub open spec fn opcode_of(k: int, x: int, y: int, n: int) -> u16 {
    (k * 0x1000 + x * 0x100 + y * 0x10 + n) as u16
}

/// Bit `k` of `v`, counted from the least significant bit.
pub open spec fn bit(v: u8, k: int) -> bool {
    (v >> (k as u8)) & 1u8 == 1u8
}

/// The decoder reads back the fields an opcode was assembled from.
proof fn lemma_fields(k: int, x: int, y: int, n: int)
    requires
        0 <= k < 16,
        0 <= x < 16,
        0 <= y < 16,
        0 <= n < 16,
    ensures
        op_kind(opcode_of(k, x, y, n)) == k,
        op_x(opcode_of(k, x, y, n)) == x,
        op_y(opcode_of(k, x, y, n)) == y,
        op_n(opcode_of(k, x, y, n)) == n,
        op_nn(opcode_of(k, x, y, n)) as int == y * 16 + n,
        op_nnn(opcode_of(k, x, y, n)) as int == x * 256 + y * 16 + n,
        opcode_of(k, x, y, n) as int == k * 0x1000 + x * 0x100 + y * 0x10 + n,
{
    let v = k * 0x1000 + x * 0x100 + y * 0x10 + n;
    assert(v / 0x1000 == k && (v / 0x100) % 16 == x && (v / 0x10) % 16 == y && v % 16 == n
        && v % 0x100 == y * 16 + n && v % 0x1000 == x * 256 + y * 16 + n) by (nonlinear_arith)
        requires
            v == k * 0x1000 + x * 0x100 + y * 0x10 + n,
            0 <= k < 16,
            0 <= x < 16,
            0 <= y < 16,
            0 <= n < 16,
    ;
}

// ---------------------------------------------------------------------------
// Control flow.

/// `1NNN` sets the program counter to NNN and changes nothing else.
pub proof fn law_jump(s: CpuModel, nnn: int, rnd: u8)
    requires
        s.wf(),
        0 <= nnn < 0x1000,
    ensures
        ({
            let t = execute(s, opcode_of(1, nnn / 256, (nnn / 16) % 16, nnn % 16), rnd);
            &&& execute_defined(s, opcode_of(1, nnn / 256, (nnn / 16) % 16, nnn % 16))
            &&& t.pc == nnn
            &&& t == CpuModel { pc: t.pc, ..s }
        }),
{
    lemma_fields(1, nnn / 256, (nnn / 16) % 16, nnn % 16);
}

/// `BNNN` jumps to NNN plus V0.
pub proof fn law_jump_plus_v0(s: CpuModel, nnn: int, rnd: u8)
    requires
        s.wf(),
        0 <= nnn < 0x1000,
    ensures
        ({
            let t = execute(s, opcode_of(0xB, nnn / 256, (nnn / 16) % 16, nnn % 16), rnd);
            &&& execute_defined(s, opcode_of(0xB, nnn / 256, (nnn / 16) % 16, nnn % 16))
            &&& t.pc == nnn + s.registers[0]
            &&& t == CpuModel { pc: t.pc, ..s }
        }),
{
    lemma_fields(0xB, nnn / 256, (nnn / 16) % 16, nnn % 16);
}

/// `0NNN`, other than `00E0` and `00EE`, jumps to NNN.
pub proof fn law_system_jump(s: CpuModel, nnn: int, rnd: u8)
    requires
        s.wf(),
        0 <= nnn < 0x1000,
        nnn != 0xE0,
        nnn != 0xEE,
    ensures
        ({
            let t = execute(s, opcode_of(0, nnn / 256, (nnn / 16) % 16, nnn % 16), rnd);
            &&& execute_defined(s, opcode_of(0, nnn / 256, (nnn / 16) % 16, nnn % 16))
            &&& t.pc == nnn
            &&& t == CpuModel { pc: t.pc, ..s }
        }),
{
    lemma_fields(0, nnn / 256, (nnn / 16) % 16, nnn % 16);
}

/// `2NNN` pushes the program counter, then jumps to NNN, whatever the
/// registers hold.
pub proof fn law_call(s: CpuModel, nnn: int, rnd: u8)
    requires
        s.wf(),
        0 <= nnn < 0x1000,
        s.sp < 16,
    ensures
        ({
            let t = execute(s, opcode_of(2, nnn / 256, (nnn / 16) % 16, nnn % 16), rnd);
            &&& execute_defined(s, opcode_of(2, nnn / 256, (nnn / 16) % 16, nnn % 16))
            &&& t.pc == nnn
            &&& t.sp == s.sp + 1
            &&& t.stack[s.sp as int] == s.pc
            &&& forall|k: int| 0 <= k < 16 && k != s.sp ==> t.stack[k] == s.stack[k]
            &&& t.stack.len() == 16
            &&& t == CpuModel { pc: t.pc, sp: t.sp, stack: t.stack, ..s }
        }),
{
    lemma_fields(2, nnn / 256, (nnn / 16) % 16, nnn % 16);
}

/// `00EE` pops the return address into the program counter.
pub proof fn law_return(s: CpuModel, rnd: u8)
    requires
        s.wf(),
        1 <= s.sp <= 16,
    ensures
        ({
            let t = execute(s, 0x00EE, rnd);
            &&& execute_defined(s, 0x00EE)
            &&& t.pc == s.stack[s.sp - 1]
            &&& t.sp == s.sp - 1
            &&& t == CpuModel { pc: t.pc, sp: t.sp, ..s }
        }),
{
    lemma_fields(0, 0, 0xE, 0xE);
}

/// `00E0` turns every pixel off and changes nothing else.
pub proof fn law_clear(s: CpuModel, rnd: u8)
    requires
        s.wf(),
    ensures
        ({
            let t = execute(s, 0x00E0, rnd);
            &&& execute_defined(s, 0x00E0)
            &&& t.display.len() == 32
            &&& forall|r: int| 0 <= r < 32 ==> #[trigger] t.display[r].len() == 64
            &&& forall|r: int, c: int| 0 <= r < 32 && 0 <= c < 64 ==> !#[trigger] t.display[r][c]
            &&& t == CpuModel { display: t.display, ..s }
        }),
{
    lemma_fields(0, 0, 0xE, 0);
}

// ---------------------------------------------------------------------------
// Conditional skips: each advances the program counter by two when its
// condition holds and changes nothing else.

pub open spec fn skipped(s: CpuModel, t: CpuModel, cond: bool) -> bool {
    &&& t.pc == s.pc + (if cond { 2int } else { 0int })
    &&& t == CpuModel { pc: t.pc, ..s }
}

/// `3XNN` skips when VX equals NN; `4XNN` when it does not.
pub proof fn law_skip_immediate(s: CpuModel, x: int, nn: int, rnd: u8)
    requires
        s.wf(),
        0 <= x < 16,
        0 <= nn < 256,
        s.pc + 2 <= 0xFFFF,
    ensures
        execute_defined(s, opcode_of(3, x, nn / 16, nn % 16)),
        execute_defined(s, opcode_of(4, x, nn / 16, nn % 16)),
        skipped(s, execute(s, opcode_of(3, x, nn / 16, nn % 16), rnd), s.registers[x] == nn),
        skipped(s, execute(s, opcode_of(4, x, nn / 16, nn % 16), rnd), s.registers[x] != nn),
{
    lemma_fields(3, x, nn / 16, nn % 16);
    lemma_fields(4, x, nn / 16, nn % 16);
}

/// `5XYN` skips when VX equals VY; `9XYN` when it does not.
pub proof fn law_skip_registers(s: CpuModel, x: int, y: int, n: int, rnd: u8)
    requires
        s.wf(),
        0 <= x < 16,
        0 <= y < 16,
        0 <= n < 16,
        s.pc + 2 <= 0xFFFF,
    ensures
        execute_defined(s, opcode_of(5, x, y, n)),
        execute_defined(s, opcode_of(9, x, y, n)),
        skipped(s, execute(s, opcode_of(5, x, y, n), rnd), s.registers[x] == s.registers[y]),
        skipped(s, execute(s, opcode_of(9, x, y, n), rnd), s.registers[x] != s.registers[y]),
{
    lemma_fields(5, x, y, n);
    lemma_fields(9, x, y, n);
}

/// `EX9E` skips exactly when key (VX mod 16) is pressed, `EXA1` exactly when it
/// is not.
pub proof fn law_skip_key(s: CpuModel, x: int, rnd: u8)
    requires
        s.wf(),
        0 <= x < 16,
        s.pc + 2 <= 0xFFFF,
    ensures
        ({
            let key = s.keypad[(s.registers[x] % 16) as int];
            &&& execute_defined(s, opcode_of(0xE, x, 9, 0xE))
            &&& execute_defined(s, opcode_of(0xE, x, 0xA, 1))
            &&& skipped(s, execute(s, opcode_of(0xE, x, 9, 0xE), rnd), key)
            &&& skipped(s, execute(s, opcode_of(0xE, x, 0xA, 1), rnd), !key)
        }),
{
    lemma_fields(0xE, x, 9, 0xE);
    lemma_fields(0xE, x, 0xA, 1);
}

// ---------------------------------------------------------------------------
// Registers.

proof fn lemma_bits(a: u8, b: u8, k: u8)
    by (bit_vector)
    requires
        k < 8,
    ensures
        (((a | b) >> k) & 1 == 1) == (((a >> k) & 1 == 1) || ((b >> k) & 1 == 1)),
        (((a & b) >> k) & 1 == 1) == (((a >> k) & 1 == 1) && ((b >> k) & 1 == 1)),
        (((a ^ b) >> k) & 1 == 1) == (((a >> k) & 1 == 1) != ((b >> k) & 1 == 1)),
{
}

/// Only register `x` may differ between `s` and `t`, besides the registers.
pub open spec fn only_register_changed(s: CpuModel, t: CpuModel, x: int) -> bool {
    &&& t.registers.len() == 16
    &&& forall|r: int| 0 <= r < 16 && r != x ==> t.registers[r] == s.registers[r]
    &&& t == CpuModel { registers: t.registers, ..s }
}

/// `6XNN` loads NN into VX.
pub proof fn law_load_immediate(s: CpuModel, x: int, nn: int, rnd: u8)
    requires
        s.wf(),
        0 <= x < 16,
        0 <= nn < 256,
    ensures
        ({
            let op = opcode_of(6, x, nn / 16, nn % 16);
            let t = execute(s, op, rnd);
            &&& execute_defined(s, op)
            &&& t.registers[x] == nn
            &&& only_register_changed(s, t, x)
        }),
{
    lemma_fields(6, x, nn / 16, nn % 16);
}

/// `7XNN` adds NN to VX modulo 256 and leaves VF alone.
pub proof fn law_add_immediate(s: CpuModel, x: int, nn: int, rnd: u8)
    requires
        s.wf(),
        0 <= x < 16,
        0 <= nn < 256,
    ensures
        ({
            let op = opcode_of(7, x, nn / 16, nn % 16);
            let t = execute(s, op, rnd);
            &&& execute_defined(s, op)
            &&& t.registers[x] == (s.registers[x] + nn) % 256
            &&& only_register_changed(s, t, x)
        }),
{
    lemma_fields(7, x, nn / 16, nn % 16);
}

/// `8XY0` copies VY into VX; `8XY1`, `8XY2`, `8XY3` set each bit of VX to the
/// OR, AND, XOR of that bit of VX and VY. No other register changes.
pub proof fn law_logic(s: CpuModel, x: int, y: int, rnd: u8)
    requires
        s.wf(),
        0 <= x < 16,
        0 <= y < 16,
    ensures
        ({
            let (vx, vy) = (s.registers[x], s.registers[y]);
            let t0 = execute(s, opcode_of(8, x, y, 0), rnd);
            let t1 = execute(s, opcode_of(8, x, y, 1), rnd);
            let t2 = execute(s, opcode_of(8, x, y, 2), rnd);
            let t3 = execute(s, opcode_of(8, x, y, 3), rnd);
            &&& execute_defined(s, opcode_of(8, x, y, 0)) && execute_defined(s, opcode_of(8, x, y, 1))
            &&& execute_defined(s, opcode_of(8, x, y, 2)) && execute_defined(s, opcode_of(8, x, y, 3))
            &&& t0.registers[x] == vy
            &&& forall|k: int| 0 <= k < 8 ==> (#[trigger] bit(t1.registers[x], k) == (bit(vx, k) || bit(vy, k)))
            &&& forall|k: int| 0 <= k < 8 ==> (#[trigger] bit(t2.registers[x], k) == (bit(vx, k) && bit(vy, k)))
            &&& forall|k: int| 0 <= k < 8 ==> (#[trigger] bit(t3.registers[x], k) == (bit(vx, k) != bit(vy, k)))
            &&& only_register_changed(s, t0, x) && only_register_changed(s, t1, x)
            &&& only_register_changed(s, t2, x) && only_register_changed(s, t3, x)
        }),
{
    lemma_fields(8, x, y, 0);
    lemma_fields(8, x, y, 1);
    lemma_fields(8, x, y, 2);
    lemma_fields(8, x, y, 3);
    let (vx, vy) = (s.registers[x], s.registers[y]);
    assert forall|k: int| 0 <= k < 8 implies (bit(vx | vy, k) == (bit(vx, k) || bit(vy, k)))
        && (bit(vx & vy, k) == (bit(vx, k) && bit(vy, k))) && (bit(vx ^ vy, k) == (bit(vx, k) != bit(vy, k))) by {
        lemma_bits(vx, vy, k as u8);
    }
}

/// `8XY4`, `8XY5`, `8XY6`, `8XY7`, `8XYE` write their result to VX and then
/// their flag to VF: carry, no borrow, bit shifted out right, no borrow of
/// VY - VX, bit shifted out left. VF holds the flag even when X is F; no other
/// register changes.
pub proof fn law_arithmetic(s: CpuModel, x: int, y: int, rnd: u8)
    requires
        s.wf(),
        0 <= x < 16,
        0 <= y < 16,
    ensures
        ({
            let (vx, vy) = (s.registers[x] as int, s.registers[y] as int);
            let t4 = execute(s, opcode_of(8, x, y, 4), rnd);
            let t5 = execute(s, opcode_of(8, x, y, 5), rnd);
            let t6 = execute(s, opcode_of(8, x, y, 6), rnd);
            let t7 = execute(s, opcode_of(8, x, y, 7), rnd);
            let te = execute(s, opcode_of(8, x, y, 0xE), rnd);
            &&& execute_defined(s, opcode_of(8, x, y, 4)) && execute_defined(s, opcode_of(8, x, y, 5))
            &&& execute_defined(s, opcode_of(8, x, y, 6)) && execute_defined(s, opcode_of(8, x, y, 7))
            &&& execute_defined(s, opcode_of(8, x, y, 0xE))
            &&& t4.registers[15] == (if vx + vy > 255 { 1int } else { 0int })
            &&& t5.registers[15] == (if vx >= vy { 1int } else { 0int })
            &&& t6.registers[15] == vy % 2
            &&& t7.registers[15] == (if vy >= vx { 1int } else { 0int })
            &&& te.registers[15] == vy / 128
            &&& x != 15 ==> {
                &&& t4.registers[x] == (vx + vy) % 256
                &&& t5.registers[x] == (vx - vy + 256) % 256
                &&& t6.registers[x] == vy / 2
                &&& t7.registers[x] == (vy - vx + 256) % 256
                &&& te.registers[x] == (2 * vy) % 256
            }
            &&& forall|r: int| 0 <= r < 15 && r != x ==> {
                &&& t4.registers[r] == s.registers[r] && t5.registers[r] == s.registers[r]
                &&& t6.registers[r] == s.registers[r] && t7.registers[r] == s.registers[r]
                &&& #[trigger] te.registers[r] == s.registers[r]
            }
            &&& t4 == CpuModel { registers: t4.registers, ..s }
            &&& t5 == CpuModel { registers: t5.registers, ..s }
            &&& t6 == CpuModel { registers: t6.registers, ..s }
            &&& t7 == CpuModel { registers: t7.registers, ..s }
            &&& te == CpuModel { registers: te.registers, ..s }
        }),
{
    lemma_fields(8, x, y, 4);
    lemma_fields(8, x, y, 5);
    lemma_fields(8, x, y, 6);
    lemma_fields(8, x, y, 7);
    lemma_fields(8, x, y, 0xE);
}

/// `CXNN` sets each bit of VX to the AND of that bit of the random byte and
/// of NN.
pub proof fn law_random(s: CpuModel, x: int, nn: int, rnd: u8)
    requires
        s.wf(),
        0 <= x < 16,
        0 <= nn < 256,
    ensures
        ({
            let op = opcode_of(0xC, x, nn / 16, nn % 16);
            let t = execute(s, op, rnd);
            &&& execute_defined(s, op)
            &&& forall|k: int| 0 <= k < 8 ==> (#[trigger] bit(t.registers[x], k) == (bit(rnd, k) && bit(nn as u8, k)))
            &&& only_register_changed(s, t, x)
        }),
{
    lemma_fields(0xC, x, nn / 16, nn % 16);
    assert forall|k: int| 0 <= k < 8 implies bit(rnd & (nn as u8), k) == (bit(rnd, k) && bit(nn as u8, k)) by {
        lemma_bits(rnd, nn as u8, k as u8);
    }
}

// ---------------------------------------------------------------------------
// Timers, keys, index register and memory.

/// `FX07` reads the delay timer into VX; `FX15` and `FX18` set the delay and
/// sound timers to VX.
pub proof fn law_timers(s: CpuModel, x: int, rnd: u8)
    requires
        s.wf(),
        0 <= x < 16,
    ensures
        ({
            let t07 = execute(s, opcode_of(0xF, x, 0, 7), rnd);
            let t15 = execute(s, opcode_of(0xF, x, 1, 5), rnd);
            let t18 = execute(s, opcode_of(0xF, x, 1, 8), rnd);
            &&& execute_defined(s, opcode_of(0xF, x, 0, 7))
            &&& execute_defined(s, opcode_of(0xF, x, 1, 5))
            &&& execute_defined(s, opcode_of(0xF, x, 1, 8))
            &&& t07.registers[x] == s.delay_timer && only_register_changed(s, t07, x)
            &&& t15 == CpuModel { delay_timer: s.registers[x], ..s }
            &&& t18 == CpuModel { sound_timer: s.registers[x], ..s }
        }),
{
    lemma_fields(0xF, x, 0, 7);
    lemma_fields(0xF, x, 1, 5);
    lemma_fields(0xF, x, 1, 8);
}

/// `ANNN` sets I to NNN; `FX1E` adds VX to I; `FX29` points I at the font glyph
/// of VX, five bytes per glyph from 0x50. Nothing else changes.
pub proof fn law_index(s: CpuModel, x: int, nnn: int, rnd: u8)
    requires
        s.wf(),
        0 <= x < 16,
        0 <= nnn < 0x1000,
        s.i + s.registers[x] <= 0xFFFF,
    ensures
        ({
            let ta = execute(s, opcode_of(0xA, nnn / 256, (nnn / 16) % 16, nnn % 16), rnd);
            let t1e = execute(s, opcode_of(0xF, x, 1, 0xE), rnd);
            let t29 = execute(s, opcode_of(0xF, x, 2, 9), rnd);
            &&& execute_defined(s, opcode_of(0xA, nnn / 256, (nnn / 16) % 16, nnn % 16))
            &&& execute_defined(s, opcode_of(0xF, x, 1, 0xE))
            &&& execute_defined(s, opcode_of(0xF, x, 2, 9))
            &&& ta.i == nnn && ta == CpuModel { i: ta.i, ..s }
            &&& t1e.i == s.i + s.registers[x] && t1e == CpuModel { i: t1e.i, ..s }
            &&& t29.i == 0x50 + 5 * s.registers[x] && t29 == CpuModel { i: t29.i, ..s }
        }),
{
    lemma_fields(0xA, nnn / 256, (nnn / 16) % 16, nnn % 16);
    lemma_fields(0xF, x, 1, 0xE);
    lemma_fields(0xF, x, 2, 9);
}

/// `FX33` writes the hundreds, tens and units of VX at I, I + 1, I + 2 and
/// changes no other byte and nothing else.
pub proof fn law_decimal(s: CpuModel, x: int, rnd: u8)
    requires
        s.wf(),
        0 <= x < 16,
        s.i + 2 < 4096,
    ensures
        ({
            let t = execute(s, opcode_of(0xF, x, 3, 3), rnd);
            let v = s.registers[x] as int;
            &&& execute_defined(s, opcode_of(0xF, x, 3, 3))
            &&& t.memory[s.i as int] == v / 100
            &&& t.memory[s.i + 1] == (v / 10) % 10
            &&& t.memory[s.i + 2] == v % 10
            &&& t.memory.len() == 4096
            &&& forall|a: int| 0 <= a < 4096 && !(s.i <= a <= s.i + 2) ==> #[trigger] t.memory[a] == s.memory[a]
            &&& t == CpuModel { memory: t.memory, ..s }
        }),
{
    lemma_fields(0xF, x, 3, 3);
}

/// `FX55` stores V0..VX at I..I+X and `FX65` loads them from there; either
/// leaves I just past the block. Nothing else changes.
pub proof fn law_store_and_load(s: CpuModel, x: int, rnd: u8)
    requires
        s.wf(),
        0 <= x < 16,
        s.i + x < 4096,
    ensures
        ({
            let ts = execute(s, opcode_of(0xF, x, 5, 5), rnd);
            let tl = execute(s, opcode_of(0xF, x, 6, 5), rnd);
            &&& execute_defined(s, opcode_of(0xF, x, 5, 5))
            &&& execute_defined(s, opcode_of(0xF, x, 6, 5))
            &&& ts.memory.len() == 4096 && tl.registers.len() == 16
            &&& forall|k: int| 0 <= k <= x ==> #[trigger] ts.memory[s.i + k] == s.registers[k]
            &&& forall|a: int| 0 <= a < 4096 && !(s.i <= a <= s.i + x) ==> #[trigger] ts.memory[a] == s.memory[a]
            &&& ts.i == s.i + x + 1 && ts == CpuModel { memory: ts.memory, i: ts.i, ..s }
            &&& forall|k: int| 0 <= k <= x ==> #[trigger] tl.registers[k] == s.memory[s.i + k]
            &&& forall|k: int| x < k < 16 ==> #[trigger] tl.registers[k] == s.registers[k]
            &&& tl.i == s.i + x + 1 && tl == CpuModel { registers: tl.registers, i: tl.i, ..s }
        }),
{
    lemma_fields(0xF, x, 5, 5);
    lemma_fields(0xF, x, 6, 5);
}

proof fn lemma_first_pressed_from(keys: Seq<bool>, k: int)
    requires
        keys.len() == 16,
        0 <= k <= 16,
    ensures
        k <= first_pressed_from(keys, k) <= 16,
        first_pressed_from(keys, k) < 16 ==> keys[first_pressed_from(keys, k)],
        forall|j: int| k <= j < first_pressed_from(keys, k) ==> !#[trigger] keys[j],
    decreases 16 - k,
{
    if k < 16 && !keys[k] {
        lemma_first_pressed_from(keys, k + 1);
    }
}

/// `FX0A` waits for a key: when some key is pressed, VX gets the lowest pressed
/// key; otherwise the program counter steps back onto the instruction.
pub proof fn law_wait_key(s: CpuModel, x: int, rnd: u8)
    requires
        s.wf(),
        0 <= x < 16,
        (forall|k: int| 0 <= k < 16 ==> !#[trigger] s.keypad[k]) ==> s.pc >= 2,
    ensures
        ({
            let t = execute(s, opcode_of(0xF, x, 0, 0xA), rnd);
            &&& execute_defined(s, opcode_of(0xF, x, 0, 0xA))
            &&& (exists|k: int| 0 <= k < 16 && #[trigger] s.keypad[k]) ==> {
                &&& t.registers[x] < 16
                &&& s.keypad[t.registers[x] as int]
                &&& forall|j: int| 0 <= j < t.registers[x] ==> !#[trigger] s.keypad[j]
                &&& only_register_changed(s, t, x)
            }
            &&& (forall|k: int| 0 <= k < 16 ==> !#[trigger] s.keypad[k]) ==> t == CpuModel {
                pc: (s.pc - 2) as u16,
                ..s
            }
        }),
{
    lemma_fields(0xF, x, 0, 0xA);
    lemma_first_pressed_from(s.keypad, 0);
    let f = first_pressed_from(s.keypad, 0);
    if exists|k: int| 0 <= k < 16 && #[trigger] s.keypad[k] {
        let k = choose|k: int| 0 <= k < 16 && #[trigger] s.keypad[k];
        assert(f < 16);
    }
}

/// `DXYN` flips exactly the pixels covered by the lit bits of the N sprite
/// bytes at I, placed at (VX mod 64, VY mod 32), first byte on top, most
/// significant bit on the left, clipped at the right and bottom edges. VF ends
/// 1 if some pixel lit before is dark after, and 0 otherwise, whatever VF held
/// before. Nothing else changes.
pub proof fn law_draw(s: CpuModel, x: int, y: int, n: int, rnd: u8)
    requires
        s.wf(),
        0 <= x < 16,
        0 <= y < 16,
        0 <= n < 16,
        ({
            let y0 = (s.registers[y] % 32) as int;
            s.i + (if n < 32 - y0 { n } else { 32 - y0 }) <= 4096
        }),
    ensures
        ({
            let t = execute(s, opcode_of(0xD, x, y, n), rnd);
            let x0 = (s.registers[x] % 64) as int;
            let y0 = (s.registers[y] % 32) as int;
            &&& execute_defined(s, opcode_of(0xD, x, y, n))
            &&& t.display.len() == 32
            &&& forall|r: int| 0 <= r < 32 ==> #[trigger] t.display[r].len() == 64
            &&& forall|r: int, c: int|
                0 <= r < 32 && 0 <= c < 64 ==> (#[trigger] t.display[r][c] != s.display[r][c]) == (y0 <= r
                    < y0 + n && x0 <= c < x0 + 8 && bit(s.memory[s.i + (r - y0)], 7 - (c - x0)))
            &&& t.registers[15] == (if exists|r: int, c: int|
                0 <= r < 32 && 0 <= c < 64 && s.display[r][c] && !#[trigger] t.display[r][c] {
                1int
            } else {
                0int
            })
            &&& forall|r: int| 0 <= r < 15 ==> #[trigger] t.registers[r] == s.registers[r]
            &&& t == CpuModel { display: t.display, registers: t.registers, ..s }
        }),
{
    lemma_fields(0xD, x, y, n);
    let t = execute(s, opcode_of(0xD, x, y, n), rnd);
    assert forall|r: int, c: int| 0 <= r < 32 && 0 <= c < 64 implies t.display[r][c] == (s.display[r][c]
        != #[trigger] sprite_hits(s, x, y, n, r, c)) by {}
    let turned_off = exists|r: int, c: int|
        0 <= r < 32 && 0 <= c < 64 && s.display[r][c] && !#[trigger] t.display[r][c];
    if turned_off {
        let (r, c) = choose|r: int, c: int|
            0 <= r < 32 && 0 <= c < 64 && s.display[r][c] && !#[trigger] t.display[r][c];
        assert(sprite_hits(s, x, y, n, r, c));
        assert(draw_collides(s, x, y, n));
    }
    if draw_collides(s, x, y, n) {
        let (r, c) = choose|r: int, c: int|
            0 <= r < 32 && 0 <= c < 64 && #[trigger] sprite_hits(s, x, y, n, r, c) && s.display[r][c];
        assert(!t.display[r][c]);
    }
}

// ---------------------------------------------------------------------------
// Cycles, start-up, loading and rendering.

/// A cycle fetches the big-endian word at the program counter, advances the
/// counter by two and executes the word; it is defined exactly when both bytes
/// lie in memory and that execution is defined.
pub proof fn law_cycle(s: CpuModel, rnd: u8)
    requires
        s.wf(),
        s.pc + 1 < 4096,
    ensures
        ({
            let word = (s.memory[s.pc as int] * 256 + s.memory[s.pc + 1]) as u16;
            let advanced = CpuModel { pc: (s.pc + 2) as u16, ..s };
            &&& fetch_at(s) as int == s.memory[s.pc as int] * 256 + s.memory[s.pc + 1]
            &&& step(s, rnd) == execute(advanced, word, rnd)
            &&& step_defined(s) == execute_defined(advanced, word)
        }),
{
    let advanced = CpuModel { pc: (s.pc + 2) as u16, ..s };
    assert(crate::model::jump(s, s.pc + 2) == advanced);
}

/// A freshly started machine: execution at 0x200, every register, counter,
/// stack slot, key and pixel zero or off, the font's sixteen five-byte glyphs
/// at 0x50, and every other byte of memory zero.
pub proof fn law_initial_state()
    ensures
        ({
            let s = CpuModel::initial();
            &&& s.wf()
            &&& s.pc == 0x200 && s.i == 0 && s.sp == 0 && s.delay_timer == 0 && s.sound_timer == 0
            &&& forall|k: int| 0 <= k < 16 ==> #[trigger] s.registers[k] == 0 && s.stack[k] == 0 && !s.keypad[k]
            &&& forall|r: int, c: int| 0 <= r < 32 && 0 <= c < 64 ==> !#[trigger] s.display[r][c]
            &&& forall|d: int, j: int| 0 <= d < 16 && 0 <= j < 5 ==> #[trigger] s.memory[0x50 + 5 * d + j] == font()[5 * d + j]
            &&& forall|a: int| 0 <= a < 4096 && !(0x50 <= a < 0xA0) ==> #[trigger] s.memory[a] == 0
        }),
{
    let s = CpuModel::initial();
    assert forall|r: int| 0 <= r < 32 implies #[trigger] s.display[r].len() == 64 by {}
}

/// Loading a ROM puts byte k of the ROM at 0x200 + k and keeps every other
/// byte of memory.
pub proof fn law_load_rom(memory: Seq<u8>, rom: Seq<u8>)
    requires
        memory.len() == 4096,
        rom_fits(rom),
    ensures
        rom.len() <= 3584,
        loaded_memory(memory, rom).len() == 4096,
        forall|k: int| 0 <= k < rom.len() ==> #[trigger] loaded_memory(memory, rom)[0x200 + k] == rom[k],
        forall|a: int| 0 <= a < 4096 && !(0x200 <= a < 0x200 + rom.len()) ==> #[trigger] loaded_memory(memory, rom)[a]
            == memory[a],
{
}

proof fn lemma_rows_text(d: Seq<Seq<bool>>, k: int)
    requires
        0 <= k <= d.len(),
        forall|r: int| 0 <= r < d.len() ==> #[trigger] d[r].len() == 64,
    ensures
        rows_text(d, k).len() == 65 * k,
        forall|r: int, c: int| 0 <= r < k && 0 <= c < 64 ==> #[trigger] rows_text(d, k)[65 * r + c] == (if d[r][c] { 'X' } else { '_' }),
        forall|r: int| 0 <= r < k ==> #[trigger] rows_text(d, k)[65 * r + 64] == '\n',
    decreases k,
{
    if k > 0 {
        lemma_rows_text(d, k - 1);
        let prev = rows_text(d, k - 1);
        let row = row_text(d[k - 1]);
        assert(rows_text(d, k) == prev + row);
        assert forall|r: int, c: int| 0 <= r < k && 0 <= c < 64 implies #[trigger] rows_text(d, k)[65 * r + c]
            == (if d[r][c] { 'X' } else { '_' }) by {
            if r < k - 1 {
                assert(rows_text(d, k)[65 * r + c] == prev[65 * r + c]);
            } else {
                assert(rows_text(d, k)[65 * r + c] == row[c]);
            }
        }
        assert forall|r: int| 0 <= r < k implies #[trigger] rows_text(d, k)[65 * r + 64] == '\n' by {
            if r < k - 1 {
                assert(rows_text(d, k)[65 * r + 64] == prev[65 * r + 64]);
            } else {
                assert(rows_text(d, k)[65 * r + 64] == row[64]);
            }
        }
    }
}

/// The screen as text has one 65-character line per row: character c of
/// line r is `X` when pixel (r, c) is lit and `_` otherwise, then a newline;
/// an empty line follows.
pub proof fn law_screen_text(d: Seq<Seq<bool>>)
    requires
        d.len() == 32,
        forall|r: int| 0 <= r < 32 ==> #[trigger] d[r].len() == 64,
    ensures
        screen_text(d).len() == 32 * 65 + 1,
        forall|r: int, c: int| 0 <= r < 32 && 0 <= c < 64 ==> #[trigger] screen_text(d)[65 * r + c] == (if d[r][c] { 'X' } else { '_' }),
        forall|r: int| 0 <= r < 32 ==> #[trigger] screen_text(d)[65 * r + 64] == '\n',
        screen_text(d)[32 * 65int] == '\n',
{
    lemma_rows_text(d, 32);
    let t = rows_text(d, 32);
    assert forall|r: int, c: int| 0 <= r < 32 && 0 <= c < 64 implies #[trigger] screen_text(d)[65 * r + c]
        == (if d[r][c] { 'X' } else { '_' }) by {
        assert(screen_text(d)[65 * r + c] == t[65 * r + c]);
    }
    assert forall|r: int| 0 <= r < 32 implies #[trigger] screen_text(d)[65 * r + 64] == '\n' by {
        assert(screen_text(d)[65 * r + 64] == t[65 * r + 64]);
    }
}

/// The flattened screen holds pixel (r, c) at index 64 r + c: 1 when lit, 0
/// when dark.
pub proof fn law_flat_display(d: Seq<Seq<bool>>)
    requires
        d.len() == 32,
        forall|r: int| 0 <= r < 32 ==> #[trigger] d[r].len() == 64,
    ensures
        flat_display(d).len() == 2048,
        forall|r: int, c: int| 0 <= r < 32 && 0 <= c < 64 ==> #[trigger] flat_display(d)[64 * r + c] == (if d[r][c] { 1u8 } else { 0u8 }),
{
    assert forall|r: int, c: int| 0 <= r < 32 && 0 <= c < 64 implies #[trigger] flat_display(d)[64 * r + c] == (if d[r][c] { 1u8 } else { 0u8 }) by {
        assert((64 * r + c) / 64 == r && (64 * r + c) % 64 == c) by (nonlinear_arith)
            requires 0 <= c < 64, 0 <= r;
    }
}

// ---------------------------------------------------------------------------
// Front ends.

/// A click on keypad cell (row, col) reaches key col + 3 row when both the row
/// and the column are positive, and no key otherwise.
pub proof fn law_clicked_key(row: int, col: int)
    ensures
        row > 0 && col > 0 ==> clicked_key(row, col) == Some(col + 3 * row),
        row <= 0 || col <= 0 ==> clicked_key(row, col) is None,
{
}

/// The keypad reads 1 to 9 row by row in its first three columns, A to D down
/// its last column, and `*`, `0`, `#` along the bottom row.
pub proof fn law_key_labels()
    ensures
        key_labels().len() == 16,
        forall|r: int, c: int| 0 <= r < 3 && 0 <= c < 3 ==> #[trigger] key_labels()[4 * r + c] as int == '1' as int + 3 * r + c,
        forall|r: int| 0 <= r < 4 ==> #[trigger] key_labels()[4 * r + 3] as int == 'A' as int + r,
        key_labels()[12] == '*' && key_labels()[13] == '0' && key_labels()[14] == '#',
{
    assert forall|r: int, c: int| 0 <= r < 3 && 0 <= c < 3 implies #[trigger] key_labels()[4 * r + c] as int
        == '1' as int + 3 * r + c by {
        assert(r == 0 || r == 1 || r == 2);
        assert(c == 0 || c == 1 || c == 2);
    }
    assert forall|r: int| 0 <= r < 4 implies #[trigger] key_labels()[4 * r + 3] as int == 'A' as int + r by {
        assert(r == 0 || r == 1 || r == 2 || r == 3);
    }
}

} // verus!
