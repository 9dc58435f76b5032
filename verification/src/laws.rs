use vstd::prelude::*;
use crate::model::{
    CpuModel, execute, execute_defined, step, step_defined, op_kind, op_x, op_y, op_n, op_nn,
    op_nnn, fetch_at, skips, font, draw_origin, sprite_hits, drawn_display, draw_rows,
    first_pressed, first_pressed_from, loaded_memory, rom_fits, misc, draw, jump,
    blank_display,
};

verus! {

/// Every instruction keeps the machine's components at their hardware sizes.
pub proof fn law_execute_keeps_wf(s: CpuModel, opcode: u16, rnd: u8)
    requires
        s.wf(),
        execute_defined(s, opcode),
    ensures
        execute(s, opcode, rnd).wf(),
{
    let t = execute(s, opcode, rnd);
    let kind = op_kind(opcode);
    if kind == 0xD {
        let d = drawn_display(s, op_x(opcode), op_y(opcode), op_n(opcode));
        assert forall|r: int| 0 <= r < 32 implies #[trigger] t.display[r].len() == 64 by {
            assert(t.display[r] == d[r]);
        }
    } else if kind == 0 && opcode == 0x00E0 {
        assert forall|r: int| 0 <= r < 32 implies #[trigger] t.display[r].len() == 64 by {
            assert(t.display[r] == blank_display()[r]);
        }
    } else {
        assert(t.display == s.display);
    }
}

/// Only `CXNN` depends on the random byte.
pub proof fn law_random_only_for_cxnn(s: CpuModel, opcode: u16, r1: u8, r2: u8)
    requires
        op_kind(opcode) != 0xC,
    ensures
        execute(s, opcode, r1) == execute(s, opcode, r2),
{
}

/// A subroutine call followed by a return comes back to where the call was
/// made, at the same stack depth, with only the used stack slot written.
pub proof fn law_call_then_return(s: CpuModel, nnn: u16, r1: u8, r2: u8)
    requires
        s.wf(),
        nnn < 0x1000,
        s.sp < 16,
    ensures
        execute_defined(s, (0x2000 + nnn) as u16),
        execute_defined(execute(s, (0x2000 + nnn) as u16, r1), 0x00EE),
        execute(execute(s, (0x2000 + nnn) as u16, r1), 0x00EE, r2) == (CpuModel {
            stack: s.stack.update(s.sp as int, s.pc),
            ..s
        }),
{
    let call = (0x2000 + nnn) as u16;
    assert(op_kind(call) == 2);
    assert(op_nnn(call) == nnn);
    assert(op_kind(0x00EE) == 0);
    let t = execute(s, call, r1);
    assert(t.sp == s.sp + 1);
    assert(!skips(s, call));
    assert(!skips(t, 0x00EE));
}

/// Drawing the same sprite twice at the same place restores the screen
/// (drawing is an exclusive or), unless VX or VY is the flag register that the
/// first draw overwrites.
pub proof fn law_draw_twice_restores(s: CpuModel, opcode: u16, r1: u8, r2: u8)
    requires
        s.wf(),
        op_kind(opcode) == 0xD,
        op_x(opcode) != 15,
        op_y(opcode) != 15,
        execute_defined(s, opcode),
    ensures
        execute_defined(execute(s, opcode, r1), opcode),
        execute(execute(s, opcode, r1), opcode, r2).display == s.display,
{
    let (x, y, n) = (op_x(opcode), op_y(opcode), op_n(opcode));
    let t = execute(s, opcode, r1);
    let u = execute(t, opcode, r2);
    assert(t == draw(s, x, y, n));
    assert(u == draw(t, x, y, n));
    assert(t.registers[x] == s.registers[x]);
    assert(t.registers[y] == s.registers[y]);
    assert(draw_origin(t, x, y) == draw_origin(s, x, y));
    assert(draw_rows(t, y, n) == draw_rows(s, y, n));
    assert(!skips(s, opcode));
    assert(!skips(t, opcode));
    assert forall|r: int, c: int| #[trigger] sprite_hits(t, x, y, n, r, c) == sprite_hits(s, x, y, n, r, c) by {}
    assert forall|r: int| 0 <= r < 32 implies #[trigger] u.display[r] =~= s.display[r] by {}
    assert(u.display =~= s.display);
}

/// `FX55` stores V0..VX at I, and `FX65` from the same address loads them back
/// unchanged: after `FX55`, `ANNN` (back to the old I), `FX65`, the registers
/// are as before, memory is as `FX55` left it, and I points past the block.
pub proof fn law_store_then_load(s: CpuModel, x: u16, r1: u8, r2: u8, r3: u8)
    requires
        s.wf(),
        x < 16,
        s.i + x < 4096,
    ensures
        ({
            let store = (0xF055 + x * 0x100) as u16;
            let rewind = (0xA000 + s.i) as u16;
            let load = (0xF065 + x * 0x100) as u16;
            let t1 = execute(s, store, r1);
            let t2 = execute(t1, rewind, r2);
            let t3 = execute(t2, load, r3);
            &&& execute_defined(s, store)
            &&& execute_defined(t1, rewind)
            &&& execute_defined(t2, load)
            &&& t3.registers == s.registers
            &&& t3.memory == t1.memory
            &&& t3.i == s.i + x + 1
        }),
{
    let store = (0xF055 + x * 0x100) as u16;
    let rewind = (0xA000 + s.i) as u16;
    let load = (0xF065 + x * 0x100) as u16;
    assert(op_kind(store) == 0xF && op_x(store) == x && op_nn(store) == 0x55);
    assert(op_kind(rewind) == 0xA && op_nnn(rewind) == s.i);
    assert(op_kind(load) == 0xF && op_x(load) == x && op_nn(load) == 0x65);
    let t1 = execute(s, store, r1);
    let t2 = execute(t1, rewind, r2);
    let t3 = execute(t2, load, r3);
    assert(!skips(s, store) && !skips(t1, rewind) && !skips(t2, load));
    assert(t1 == misc(s, x as int, 0x55));
    assert(t3 == misc(t2, x as int, 0x65));
    assert(t3.registers =~= s.registers);
}

/// `FX33` writes the three decimal digits of VX, most significant first.
pub proof fn law_bcd_digits(s: CpuModel, x: u16, rnd: u8)
    requires
        s.wf(),
        x < 16,
        s.i + 2 < 4096,
    ensures
        ({
            let t = execute(s, (0xF033 + x * 0x100) as u16, rnd);
            let (a, b, c) = (t.memory[s.i as int], t.memory[s.i + 1], t.memory[s.i + 2]);
            &&& execute_defined(s, (0xF033 + x * 0x100) as u16)
            &&& a < 10 && b < 10 && c < 10
            &&& 100 * a + 10 * b + c == s.registers[x as int]
        }),
{
    let op = (0xF033 + x * 0x100) as u16;
    assert(op_kind(op) == 0xF && op_x(op) == x && op_nn(op) == 0x33);
    assert(!skips(s, op));
}

/// `8XY4` adds with carry: 256 * VF + VX is the exact sum (X not F).
pub proof fn law_add_with_carry(s: CpuModel, x: u16, y: u16, rnd: u8)
    requires
        s.wf(),
        x < 15,
        y < 16,
    ensures
        ({
            let op = (0x8004 + x * 0x100 + y * 0x10) as u16;
            let t = execute(s, op, rnd);
            &&& execute_defined(s, op)
            &&& 256 * t.registers[15] + t.registers[x as int] == s.registers[x as int] + s.registers[y as int]
        }),
{
    let op = (0x8004 + x * 0x100 + y * 0x10) as u16;
    assert(op_kind(op) == 8 && op_x(op) == x && op_y(op) == y && op_n(op) == 4);
    assert(!skips(s, op));
}

/// `8XY5` subtracts modulo 256; VF is 1 exactly when no borrow occurs (X not F).
pub proof fn law_sub_with_borrow(s: CpuModel, x: u16, y: u16, rnd: u8)
    requires
        s.wf(),
        x < 15,
        y < 16,
    ensures
        ({
            let op = (0x8005 + x * 0x100 + y * 0x10) as u16;
            let t = execute(s, op, rnd);
            let (vx, vy) = (s.registers[x as int], s.registers[y as int]);
            &&& execute_defined(s, op)
            &&& t.registers[x as int] == (vx - vy) % 256
            &&& (t.registers[15] == 1) == (vx >= vy)
            &&& t.registers[15] <= 1
        }),
{
    let op = (0x8005 + x * 0x100 + y * 0x10) as u16;
    assert(op_kind(op) == 8 && op_x(op) == x && op_y(op) == y && op_n(op) == 5);
    assert(!skips(s, op));
}

/// `8XY6` and `8XYE` shift VY by one bit into VX; VF gets the bit shifted out,
/// so nothing is lost (X not F).
pub proof fn law_shifts_keep_bits(s: CpuModel, x: u16, y: u16, rnd: u8)
    requires
        s.wf(),
        x < 15,
        y < 16,
    ensures
        ({
            let right = (0x8006 + x * 0x100 + y * 0x10) as u16;
            let left = (0x800E + x * 0x100 + y * 0x10) as u16;
            let tr = execute(s, right, rnd);
            let tl = execute(s, left, rnd);
            let vy = s.registers[y as int];
            &&& execute_defined(s, right) && execute_defined(s, left)
            &&& 2 * tr.registers[x as int] + tr.registers[15] == vy
            &&& tl.registers[x as int] + 256 * tl.registers[15] == 2 * vy
        }),
{
    let right = (0x8006 + x * 0x100 + y * 0x10) as u16;
    let left = (0x800E + x * 0x100 + y * 0x10) as u16;
    assert(op_kind(right) == 8 && op_x(right) == x && op_y(right) == y && op_n(right) == 6);
    assert(op_kind(left) == 8 && op_x(left) == x && op_y(left) == y && op_n(left) == 0xE);
    assert(!skips(s, right) && !skips(s, left));
}

/// While no key is pressed, a cycle on `FX0A` changes nothing: the machine
/// waits on that instruction.
pub proof fn law_wait_for_key(s: CpuModel, rnd: u8)
    requires
        s.wf(),
        s.pc + 1 < 4096,
        op_kind(fetch_at(s)) == 0xF,
        op_nn(fetch_at(s)) == 0x0A,
        forall|k: int| 0 <= k < 16 ==> !s.keypad[k],
    ensures
        step_defined(s),
        step(s, rnd) == s,
{
    let op = fetch_at(s);
    let t = jump(s, s.pc + 2);
    assert(!skips(t, op));
    assert forall|k: int| 0 <= k <= 16 implies first_pressed_from(s.keypad, k) == 16 by {
        lemma_no_key_from(s.keypad, k);
    }
    assert(first_pressed(t.keypad) == 16);
    assert(step(s, rnd) =~= s);
}

proof fn lemma_no_key_from(keys: Seq<bool>, k: int)
    requires
        keys.len() == 16,
        0 <= k <= 16,
        forall|j: int| 0 <= j < 16 ==> !keys[j],
    ensures
        first_pressed_from(keys, k) == 16,
    decreases 16 - k,
{
    if k < 16 {
        lemma_no_key_from(keys, k + 1);
    }
}

/// On a freshly started machine, `FX29` points I at the five-byte glyph of
/// the hexadecimal digit in VX.
pub proof fn law_font_glyph(d: u8, x: u16, rnd: u8)
    requires
        d < 16,
        x < 16,
    ensures
        ({
            let s = CpuModel { registers: CpuModel::initial().registers.update(x as int, d), ..CpuModel::initial() };
            let t = execute(s, (0xF029 + x * 0x100) as u16, rnd);
            &&& execute_defined(s, (0xF029 + x * 0x100) as u16)
            &&& t.i == 0x50 + 5 * d
            &&& t.memory.subrange(t.i as int, t.i + 5) == font().subrange(5 * d, 5 * d + 5)
        }),
{
    let op = (0xF029 + x * 0x100) as u16;
    let s = CpuModel { registers: CpuModel::initial().registers.update(x as int, d), ..CpuModel::initial() };
    assert(op_kind(op) == 0xF && op_x(op) == x && op_nn(op) == 0x29);
    assert(!skips(s, op));
    let t = execute(s, op, rnd);
    assert(t.memory.subrange(t.i as int, t.i + 5) =~= font().subrange(5 * d, 5 * d + 5));
}

/// The first instruction of a freshly loaded ROM is the one the machine fetches.
pub proof fn law_loaded_rom_is_fetched(rom: Seq<u8>)
    requires
        rom_fits(rom),
        rom.len() >= 2,
    ensures
        ({
            let s = CpuModel { memory: loaded_memory(CpuModel::initial().memory, rom), ..CpuModel::initial() };
            fetch_at(s) == rom[0] * 256 + rom[1]
        }),
{
}

/// Only `FX33` and `FX55` write memory.
pub proof fn law_memory_written_only_by_stores(s: CpuModel, opcode: u16, rnd: u8)
    requires
        s.wf(),
        !(op_kind(opcode) == 0xF && (op_nn(opcode) == 0x33 || op_nn(opcode) == 0x55)),
    ensures
        execute(s, opcode, rnd).memory == s.memory,
{
}

/// Only `00E0` and `DXYN` change the screen.
pub proof fn law_screen_changed_only_by_clear_and_draw(s: CpuModel, opcode: u16, rnd: u8)
    requires
        s.wf(),
        opcode != 0x00E0,
        op_kind(opcode) != 0xD,
    ensures
        execute(s, opcode, rnd).display == s.display,
{
}

/// A conditional skip advances a cycle by four bytes when its condition holds
/// and by two otherwise; `6XNN`, `7XNN`, `8XYN`, `ANNN`, `CXNN`, `DXYN` and
/// `FXNN` other than `FX0A` always advance by two.
pub proof fn law_step_advances(s: CpuModel, rnd: u8)
    requires
        s.wf(),
        step_defined(s),
    ensures
        ({
            let op = fetch_at(s);
            let kind = op_kind(op);
            let t = jump(s, s.pc + 2);
            &&& (kind == 3 || kind == 4 || kind == 5 || kind == 9 || kind == 0xE) ==> step(s, rnd).pc
                == s.pc + (if skips(t, op) { 4int } else { 2int })
            &&& (kind == 6 || kind == 7 || kind == 8 || kind == 0xA || kind == 0xC || kind == 0xD || (
            kind == 0xF && op_nn(op) != 0x0A)) ==> step(s, rnd).pc == s.pc + 2
        }),
{
    let op = fetch_at(s);
    let t = jump(s, s.pc + 2);
    assert(skips(t, op) == skips(s, op));
}

} // verus!
