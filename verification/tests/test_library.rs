use chip8::consts::{PIXEL_COLS, PIXEL_ROWS};
use chip8::cpu::CPU;
use chip8::display::Display;
use chip8::emulator::Emulator;
use chip8::game::Game;
use chip8::keys::Keys;

const FONT: [u8; 80] = [
    0xF0, 0x90, 0x90, 0x90, 0xF0, 0x20, 0x60, 0x20, 0x20, 0x70, 0xF0, 0x10, 0xF0, 0x80, 0xF0,
    0xF0, 0x10, 0xF0, 0x10, 0xF0, 0x90, 0x90, 0xF0, 0x10, 0x10, 0xF0, 0x80, 0xF0, 0x10, 0xF0,
    0xF0, 0x80, 0xF0, 0x90, 0xF0, 0xF0, 0x10, 0x20, 0x40, 0x40, 0xF0, 0x90, 0xF0, 0x90, 0xF0,
    0xF0, 0x90, 0xF0, 0x10, 0xF0, 0xF0, 0x90, 0xF0, 0x90, 0x90, 0xE0, 0x90, 0xE0, 0x90, 0xE0,
    0xF0, 0x80, 0x80, 0x80, 0xF0, 0xE0, 0x90, 0x90, 0x90, 0xE0, 0xF0, 0x80, 0xF0, 0x80, 0xF0,
    0xF0, 0x80, 0xF0, 0x80, 0x80,
];

fn put_op(cpu: &mut CPU, at: usize, opcode: u16) {
    cpu.memory[at] = (opcode >> 8) as u8;
    cpu.memory[at + 1] = (opcode & 0xFF) as u8;
}

fn run(cpu: &mut CPU, opcode: u16) {
    put_op(cpu, cpu.pc as usize, opcode);
    assert!(cpu.can_step());
    cpu.step();
}

#[test]
fn new_cpu_holds_font_and_starts_at_0x200() {
    let cpu = CPU::new();
    assert_eq!(cpu.pc, 0x200);
    assert_eq!(cpu.sp, 0);
    assert_eq!(cpu.i, 0);
    assert_eq!(&cpu.memory[0x50..0xA0], &FONT[..]);
    assert!(cpu.memory[..0x50].iter().all(|&b| b == 0));
    assert!(cpu.memory[0xA0..].iter().all(|&b| b == 0));
    assert_eq!(cpu.display, [[false; PIXEL_COLS]; PIXEL_ROWS]);
}

#[test]
fn load_rom_copies_to_0x200() {
    let mut cpu = CPU::new();
    assert_eq!(cpu.load_rom(&[0x12, 0x34, 0x56]), Ok(()));
    assert_eq!(&cpu.memory[0x200..0x203], &[0x12, 0x34, 0x56]);
    assert_eq!(cpu.memory[0x203], 0);
    assert_eq!(cpu.fetch(), 0x1234);
}

#[test]
fn load_rom_largest_fitting() {
    let mut cpu = CPU::new();
    let rom = vec![7u8; 4096 - 0x200];
    assert_eq!(cpu.load_rom(&rom), Ok(()));
    assert_eq!(cpu.memory[4095], 7);
}

#[test]
fn load_rom_too_large_is_refused() {
    let mut cpu = CPU::new();
    let rom = vec![7u8; 4096 - 0x200 + 1];
    assert_eq!(cpu.load_rom(&rom), Err("ROM too large to fit in memory".to_string()));
    assert_eq!(cpu.memory[0x200], 0);
}

#[test]
fn call_then_return_restores_pc() {
    let mut cpu = CPU::new();
    put_op(&mut cpu, 0x200, 0x2400);
    put_op(&mut cpu, 0x400, 0x00EE);
    cpu.step();
    assert_eq!((cpu.pc, cpu.sp, cpu.stack[0]), (0x400, 1, 0x202));
    cpu.step();
    assert_eq!((cpu.pc, cpu.sp), (0x202, 0));
}

#[test]
fn draw_twice_restores_screen() {
    let mut cpu = CPU::new();
    cpu.registers[2] = 60;
    cpu.registers[3] = 30;
    cpu.i = 0x50;
    let before = cpu.display;
    run(&mut cpu, 0xD235);
    assert_ne!(cpu.display, before);
    assert_eq!(cpu.registers[0xF], 0);
    run(&mut cpu, 0xD235);
    assert_eq!(cpu.display, before);
    assert_eq!(cpu.registers[0xF], 1);
}

#[test]
fn draw_clips_at_the_edges() {
    let mut cpu = CPU::new();
    cpu.registers[0] = 62;
    cpu.registers[1] = 31;
    cpu.i = 0x50; // glyph 0: F0 90 90 90 F0
    run(&mut cpu, 0xD015);
    assert!(cpu.display[31][62] && cpu.display[31][63]);
    assert!(!cpu.display[0][0] && !cpu.display[0][62]);
    let lit: usize = cpu.display.iter().map(|r| r.iter().filter(|&&p| p).count()).sum();
    assert_eq!(lit, 2);
}

#[test]
fn draw_position_wraps() {
    let mut cpu = CPU::new();
    cpu.registers[0] = 64 + 1;
    cpu.registers[1] = 32 + 2;
    cpu.i = 0x55; // glyph 1: 20 60 20 20 70
    run(&mut cpu, 0xD011);
    assert!(cpu.display[2][3]);
}

#[test]
fn store_then_load_round_trip() {
    let mut cpu = CPU::new();
    for r in 0..16 {
        cpu.registers[r] = (r as u8) * 3 + 1;
    }
    cpu.i = 0x300;
    let saved = cpu.registers;
    run(&mut cpu, 0xF755);
    assert_eq!(cpu.i, 0x308);
    for r in 0..8 {
        cpu.registers[r] = 0;
    }
    run(&mut cpu, 0xA300);
    run(&mut cpu, 0xF765);
    assert_eq!(cpu.registers, saved);
    assert_eq!(cpu.i, 0x308);
}

#[test]
fn bcd_of_zero_and_seven() {
    let mut cpu = CPU::new();
    cpu.i = 0x300;
    cpu.registers[5] = 0;
    run(&mut cpu, 0xF533);
    assert_eq!(&cpu.memory[0x300..0x303], &[0, 0, 0]);
    cpu.registers[5] = 7;
    run(&mut cpu, 0xF533);
    assert_eq!(&cpu.memory[0x300..0x303], &[0, 0, 7]);
}

#[test]
fn add_carry_law_on_values() {
    let mut cpu = CPU::new();
    cpu.registers[2] = 200;
    cpu.registers[3] = 100;
    run(&mut cpu, 0x8234);
    assert_eq!(256 * cpu.registers[0xF] as u16 + cpu.registers[2] as u16, 300);
}

#[test]
fn flag_register_as_destination_keeps_flag() {
    let mut cpu = CPU::new();
    cpu.registers[0xF] = 0xFF;
    cpu.registers[1] = 0x01;
    run(&mut cpu, 0x8F14);
    assert_eq!(cpu.registers[0xF], 1);
}

#[test]
fn wait_for_key_changes_nothing() {
    let mut cpu = CPU::new();
    put_op(&mut cpu, 0x200, 0xF30A);
    let (mem, regs, pc) = (cpu.memory, cpu.registers, cpu.pc);
    cpu.step();
    cpu.step();
    assert_eq!((cpu.memory, cpu.registers, cpu.pc), (mem, regs, pc));
    cpu.keypad[9] = true;
    cpu.keypad[12] = true;
    cpu.step();
    assert_eq!(cpu.registers[3], 9);
    assert_eq!(cpu.pc, 0x202);
}

#[test]
fn font_glyph_address() {
    let mut cpu = CPU::new();
    cpu.registers[4] = 0xF;
    run(&mut cpu, 0xF429);
    assert_eq!(cpu.i, 0x50 + 75);
    assert_eq!(&cpu.memory[cpu.i as usize..cpu.i as usize + 5], &FONT[75..80]);
}

#[test]
fn zero_nnn_jumps() {
    let cpu_pc = {
        let mut cpu = CPU::new();
        run(&mut cpu, 0x0345);
        cpu.pc
    };
    assert_eq!(cpu_pc, 0x345);
}

#[test]
fn bnnn_adds_v0() {
    let mut cpu = CPU::new();
    cpu.registers[0] = 0xFF;
    run(&mut cpu, 0xBFFF);
    assert_eq!(cpu.pc, 0x10FE);
}

#[test]
fn fx1e_adds_to_index() {
    let mut cpu = CPU::new();
    cpu.i = 0xFFF0;
    cpu.registers[1] = 0x0F;
    run(&mut cpu, 0xF11E);
    assert_eq!(cpu.i, 0xFFFF);
}

#[test]
fn execute_with_random_masks() {
    let mut cpu = CPU::new();
    cpu.execute_with_random(0xC30F, 0xAB);
    assert_eq!(cpu.registers[3], 0x0B);
    cpu.execute(0xC300);
    assert_eq!(cpu.registers[3], 0);
}

#[test]
fn undefined_steps_are_reported() {
    let mut cpu = CPU::new();
    put_op(&mut cpu, 0x200, 0x00EE);
    assert!(!cpu.can_step());
    put_op(&mut cpu, 0x200, 0x8008);
    assert!(!cpu.can_step());
    put_op(&mut cpu, 0x200, 0xE0FF);
    assert!(!cpu.can_step());
    put_op(&mut cpu, 0x200, 0xF0FF);
    assert!(!cpu.can_step());
    cpu.sp = 16;
    put_op(&mut cpu, 0x200, 0x2300);
    assert!(!cpu.can_step());
    assert!(cpu.can_execute(0x00EE));
    cpu.pc = 4095;
    assert!(!cpu.can_step());
    let mut cpu = CPU::new();
    cpu.i = 4094;
    assert!(!cpu.can_execute(0xF033));
    assert!(cpu.can_execute(0xF155));
    assert!(!cpu.can_execute(0xF255));
    assert!(!cpu.can_execute(0xD00F));
    assert!(cpu.can_execute(0xD002));
    cpu.i = 4095;
    assert!(!cpu.can_execute(0xD002));
    cpu.registers[0] = 1;
    cpu.i = 0xFFFF;
    assert!(!cpu.can_execute(0xF01E));
    cpu.pc = 0;
    assert!(!cpu.can_execute(0xF00A));
    cpu.keypad[0] = true;
    assert!(cpu.can_execute(0xF00A));
}

#[test]
fn display_text_renders_rows() {
    let mut cpu = CPU::new();
    cpu.display[0][0] = true;
    cpu.display[31][63] = true;
    let text = cpu.display_text();
    let lines: Vec<&str> = text.split('\n').collect();
    assert_eq!(lines.len(), 34);
    assert_eq!(lines[0], format!("X{}", "_".repeat(63)));
    assert_eq!(lines[31], format!("{}X", "_".repeat(63)));
    assert_eq!(lines[32], "");
    assert_eq!(lines[33], "");
}

#[test]
fn emulator_waits_for_rom() {
    let mut emu = Emulator::new();
    assert!(emu.can_step());
    emu.step();
    assert!(emu.display_flat().iter().all(|&p| p == 0));
    emu.load_rom(&[0x00, 0xE0, 0xA0, 0x50, 0xD0, 0x15]);
    emu.step();
    emu.step();
    emu.step();
    let flat = emu.display_flat();
    assert_eq!(flat.len(), 2048);
    assert_eq!(&flat[0..8], &[1, 1, 1, 1, 0, 0, 0, 0]);
    assert_eq!(&flat[64..72], &[1, 0, 0, 1, 0, 0, 0, 0]);
}

#[test]
fn emulator_timers_stop_at_zero() {
    let mut emu = Emulator::new();
    // V2 = 2; delay = V2; V3 = delay; I = glyph(V3); draw 5 rows at (V0, V0).
    emu.load_rom(&[0x62, 0x02, 0xF2, 0x15, 0xF3, 0x07, 0xF3, 0x29, 0xD0, 0x05]);
    emu.step();
    emu.step();
    emu.tick_timers();
    emu.tick_timers();
    emu.tick_timers();
    emu.step();
    emu.step();
    emu.step();
    let flat = emu.display_flat();
    // glyph 0 is F0 90 90 90 F0
    assert_eq!(&flat[0..4], &[1, 1, 1, 1]);
    assert_eq!(&flat[64..68], &[1, 0, 0, 1]);
}

#[test]
fn emulator_keys() {
    let mut emu = Emulator::new();
    // wait for a key into V4; I = glyph(V4); draw it at (V0, V0).
    emu.load_rom(&[0xF4, 0x0A, 0xF4, 0x29, 0xD0, 0x05]);
    emu.step();
    emu.step();
    assert!(emu.display_flat().iter().all(|&p| p == 0));
    emu.key_down(2);
    emu.step();
    emu.key_up(2);
    emu.step();
    emu.step();
    let flat = emu.display_flat();
    // glyph 2 is F0 10 F0 80 F0
    assert_eq!(&flat[0..4], &[1, 1, 1, 1]);
    assert_eq!(&flat[64..68], &[0, 0, 0, 1]);
}

#[test]
fn game_clicks_map_to_keys() {
    let mut game = Game { display: Display { pixels: [[false; PIXEL_COLS]; PIXEL_ROWS] }, keys: Keys, cpu: CPU::new() };
    game.set_key_at(1, 1, true);
    assert!(game.cpu.keypad[4]);
    game.set_key_at(3, 3, true);
    assert!(game.cpu.keypad[12]);
    game.set_key_at(0, 2, true);
    game.set_key_at(2, 0, true);
    assert_eq!(game.cpu.keypad.iter().filter(|&&k| k).count(), 2);
    game.set_key_at(1, 1, false);
    assert!(!game.cpu.keypad[4]);
}

#[test]
fn display_shades() {
    let mut display = Display { pixels: [[false; PIXEL_COLS]; PIXEL_ROWS] };
    display.pixels[3][5] = true;
    assert_eq!(display.pixel_shade(3, 5), 200);
    assert_eq!(display.pixel_shade(3, 6), 50);
}

#[test]
fn key_labels() {
    let keys = Keys;
    let labels: String = (0..4).flat_map(|r| (0..4).map(move |c| (r, c))).map(|(r, c)| keys.label(r, c)).collect();
    assert_eq!(labels, "123A456B789C*0#D");
}

#[test]
fn only_stores_write_memory_and_only_draws_touch_screen() {
    let mut cpu = CPU::new();
    cpu.display[4][4] = true;
    cpu.i = 0x300;
    let program: [u16; 12] = [
        0x6A12, 0x7A01, 0x8A14, 0x8AB6, 0xA300, 0xF315, 0xF318, 0xF31E, 0xF329, 0xF565, 0x3A00, 0x4A00,
    ];
    for op in program {
        let (memory, display) = (cpu.memory, cpu.display);
        run(&mut cpu, op);
        assert_eq!(cpu.display, display);
        // `run` itself writes each opcode at the program counter, below 0x300.
        let changed: Vec<usize> = (0..4096).filter(|&a| cpu.memory[a] != memory[a]).collect();
        assert!(changed.iter().all(|&a| a < 0x300 && a >= 0x200), "memory changed at {:?}", changed);
    }
}
