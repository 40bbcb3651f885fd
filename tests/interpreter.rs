use chip8::display::{Display, CELLS, WIDTH};
use chip8::{ExecutionError, RomError, CHIP8};

fn machine_with(rom: &[u8]) -> CHIP8 {
    let mut c = CHIP8::new(7);
    c.load_rom(rom).unwrap();
    c
}

fn run_cycles(c: &mut CHIP8, n: usize) {
    for _ in 0..n {
        c.cycle().unwrap();
    }
}

#[test]
fn clear_load_add_scenario() {
    let mut c = machine_with(&[0x00, 0xE0, 0x62, 0x05, 0x72, 0x0A]);
    run_cycles(&mut c, 3);
    assert_eq!(c.register(2), 15);
    assert!(c.get_gfx().iter().all(|&cell| cell == 0));
    assert_eq!(c.program_counter(), 0x206);
}

#[test]
fn index_then_glyph_offset_scenario() {
    let mut c = machine_with(&[0xA2, 0xF0, 0x62, 0x05, 0xF2, 0x29]);
    c.cycle().unwrap();
    assert_eq!(c.index_register(), 0x2F0);
    run_cycles(&mut c, 2);
    assert_eq!(c.index_register(), 25);
    assert_eq!(c.memory_at(25), 0xF0);
    assert_eq!(c.memory_at(26), 0x80);
}

#[test]
fn add_with_carry_scenario() {
    let mut c = machine_with(&[0x61, 250, 0x62, 10, 0x81, 0x24]);
    run_cycles(&mut c, 3);
    assert_eq!(c.register(1), 4);
    assert_eq!(c.register(0xF), 1);
}

#[test]
fn add_without_carry_clears_flag() {
    let mut c = machine_with(&[0x6F, 0x01, 0x61, 5, 0x62, 10, 0x81, 0x24]);
    run_cycles(&mut c, 4);
    assert_eq!(c.register(1), 15);
    assert_eq!(c.register(0xF), 0);
}

#[test]
fn seeded_random_is_reproducible() {
    let rom = [0xC0, 0xFF, 0xC1, 0xFF, 0xC2, 0x0F, 0xC3, 0xF0, 0xC4, 0xFF];
    let mut a = machine_with(&rom);
    let mut b = machine_with(&rom);
    run_cycles(&mut a, 5);
    run_cycles(&mut b, 5);
    for i in 0..5 {
        assert_eq!(a.register(i), b.register(i));
    }
    assert_eq!(a.register(2) & 0xF0, 0);
    assert_eq!(a.register(3) & 0x0F, 0);
}

#[test]
fn random_byte_is_masked() {
    let mut c = machine_with(&[0xC5, 0x0F]);
    c.cycle_with_random(0xABCD_EF37).unwrap();
    assert_eq!(c.register(5), 0x07);
}

#[test]
fn add_immediate_twice_equals_double() {
    let mut twice = machine_with(&[0x63, 200, 0x73, 0x90, 0x73, 0x90]);
    run_cycles(&mut twice, 3);
    let mut once = machine_with(&[0x63, 200, 0x73, 0x20]);
    run_cycles(&mut once, 2);
    assert_eq!(twice.register(3), once.register(3));
    assert_eq!(twice.register(3), ((200u32 + 2 * 0x90) % 256) as u8);
    assert_eq!(twice.register(0xF), 0);
}

#[test]
fn clear_blanks_screen_and_requests_redraw() {
    // draw glyph 0 at (0, 0), then clear
    let mut c = machine_with(&[0xA0, 0x00, 0xD0, 0x05, 0x00, 0xE0]);
    run_cycles(&mut c, 2);
    assert!(c.get_gfx().iter().any(|&cell| cell == 1));
    c.cycle().unwrap();
    assert!(c.get_gfx().iter().all(|&cell| cell == 0));
    assert!(c.needs_redraw());
}

#[test]
fn drawing_twice_restores_screen_and_collides() {
    let mut c = machine_with(&[0x61, 10, 0x62, 3, 0xA0, 0x05, 0xD1, 0x25, 0xD1, 0x25]);
    run_cycles(&mut c, 4);
    assert_eq!(c.register(0xF), 0);
    // glyph 1 top row 0x20: column 2 of the sprite
    assert_eq!(c.get_gfx()[12 + 3 * WIDTH], 1);
    assert_eq!(c.get_gfx()[11 + 3 * WIDTH], 0);
    c.cycle().unwrap();
    assert_eq!(c.register(0xF), 1);
    assert!(c.get_gfx().iter().all(|&cell| cell == 0));
    assert!(c.needs_redraw());
}

#[test]
fn sprite_wraps_around_edges() {
    // glyph 8 (0xF0 rows) at x = 62, y = 30
    let mut c = machine_with(&[0x61, 62, 0x62, 30, 0xA0, 40, 0xD1, 0x25]);
    run_cycles(&mut c, 4);
    let g = c.get_gfx();
    assert_eq!(g[62 + 30 * WIDTH], 1);
    assert_eq!(g[63 + 30 * WIDTH], 1);
    assert_eq!(g[0 + 30 * WIDTH], 1);
    assert_eq!(g[1 + 30 * WIDTH], 1);
    assert_eq!(g[2 + 30 * WIDTH], 0);
    // third row wraps to the top of the screen
    assert_eq!(g[62 + 0 * WIDTH], 1);
    assert_eq!(g.iter().filter(|&&cell| cell == 1).count(), 4 + 2 + 4 + 2 + 4);
}

#[test]
fn sprite_coordinates_reduce_onto_screen() {
    // x = 64 + 5 draws at column 5
    let mut c = machine_with(&[0x61, 69, 0x62, 33, 0xA0, 0x00, 0xD1, 0x21]);
    run_cycles(&mut c, 4);
    let g = c.get_gfx();
    assert_eq!(g[5 + 1 * WIDTH], 1);
    assert_eq!(g[8 + 1 * WIDTH], 1);
    assert_eq!(g[9 + 1 * WIDTH], 0);
    assert_eq!(g.iter().filter(|&&cell| cell == 1).count(), 4);
    assert_eq!(g.len(), CELLS);
}

#[test]
fn call_then_return_resumes_after_call() {
    // 0x200: call 0x206; 0x202: load; 0x206: return
    let mut c = machine_with(&[0x22, 0x06, 0x63, 0x2A, 0x00, 0x00, 0x00, 0xEE]);
    c.cycle().unwrap();
    assert_eq!(c.program_counter(), 0x206);
    assert_eq!(c.stack_depth(), 1);
    c.cycle().unwrap();
    assert_eq!(c.program_counter(), 0x202);
    assert_eq!(c.stack_depth(), 0);
    c.cycle().unwrap();
    assert_eq!(c.register(3), 0x2A);
}

#[test]
fn store_clear_load_round_trip() {
    let rom = [
        0x60, 11, 0x61, 22, 0x62, 33, 0x63, 44, // registers 0..=3
        0xA3, 0x00, 0xF3, 0x55, // store at 0x300
        0x60, 0, 0x61, 0, 0x62, 0, 0x63, 0, // clear
        0xA3, 0x00, 0xF3, 0x65, // load from 0x300
    ];
    let mut c = machine_with(&rom);
    run_cycles(&mut c, 6);
    assert_eq!(c.index_register(), 0x304);
    assert_eq!(c.memory_at(0x300), 11);
    assert_eq!(c.memory_at(0x303), 44);
    run_cycles(&mut c, 4);
    assert_eq!(c.register(0), 0);
    run_cycles(&mut c, 2);
    assert_eq!(c.register(0), 11);
    assert_eq!(c.register(1), 22);
    assert_eq!(c.register(2), 33);
    assert_eq!(c.register(3), 44);
    assert_eq!(c.index_register(), 0x304);
}

#[test]
fn timers_stop_at_zero() {
    let mut c = machine_with(&[0x60, 2, 0xF0, 0x15, 0x61, 3, 0xF1, 0x18]);
    run_cycles(&mut c, 4);
    assert_eq!(c.delay_timer(), 2);
    assert_eq!(c.sound_timer(), 3);
    for _ in 0..10 {
        c.advance_frame();
    }
    assert_eq!(c.delay_timer(), 0);
    assert_eq!(c.sound_timer(), 0);
}

#[test]
fn beep_pulses_once_when_sound_reaches_zero() {
    let mut c = machine_with(&[0x61, 2, 0xF1, 0x18]);
    run_cycles(&mut c, 2);
    c.advance_frame();
    assert!(!c.did_beep());
    c.advance_frame();
    assert!(c.did_beep());
    assert!(!c.did_beep());
    c.advance_frame();
    assert!(!c.did_beep());
}

#[test]
fn delay_timer_is_read_back() {
    let mut c = machine_with(&[0x60, 9, 0xF0, 0x15, 0xF4, 0x07]);
    run_cycles(&mut c, 2);
    c.advance_frame();
    c.cycle().unwrap();
    assert_eq!(c.register(4), 8);
}

#[test]
fn alu_operations_and_flags() {
    let rom = [
        0x61, 0x0C, 0x62, 0x0A, // v1 = 12, v2 = 10
        0x83, 0x10, 0x83, 0x21, // v3 = v1; v3 |= v2
        0x84, 0x10, 0x84, 0x22, // v4 = v1; v4 &= v2
        0x85, 0x10, 0x85, 0x23, // v5 = v1; v5 ^= v2
    ];
    let mut c = machine_with(&rom);
    run_cycles(&mut c, 8);
    assert_eq!(c.register(3), 0x0E);
    assert_eq!(c.register(4), 0x08);
    assert_eq!(c.register(5), 0x06);
    assert_eq!(c.register(0xF), 0);
}

#[test]
fn subtraction_flags_not_borrow() {
    let mut c = machine_with(&[0x61, 5, 0x62, 10, 0x81, 0x25]);
    run_cycles(&mut c, 3);
    assert_eq!(c.register(1), 251);
    assert_eq!(c.register(0xF), 0);
    let mut c = machine_with(&[0x61, 10, 0x62, 5, 0x81, 0x25]);
    run_cycles(&mut c, 3);
    assert_eq!(c.register(1), 5);
    assert_eq!(c.register(0xF), 1);
    let mut c = machine_with(&[0x61, 10, 0x62, 5, 0x81, 0x27]);
    run_cycles(&mut c, 3);
    assert_eq!(c.register(1), 251);
    assert_eq!(c.register(0xF), 0);
    let mut c = machine_with(&[0x61, 5, 0x62, 10, 0x81, 0x27]);
    run_cycles(&mut c, 3);
    assert_eq!(c.register(1), 5);
    assert_eq!(c.register(0xF), 1);
}

#[test]
fn shifts_move_out_bit_into_flag() {
    let mut c = machine_with(&[0x62, 0x81, 0x81, 0x26]);
    run_cycles(&mut c, 2);
    assert_eq!(c.register(1), 0x40);
    assert_eq!(c.register(0xF), 1);
    let mut c = machine_with(&[0x62, 0x81, 0x81, 0x2E]);
    run_cycles(&mut c, 2);
    assert_eq!(c.register(1), 0x02);
    assert_eq!(c.register(0xF), 1);
    let mut c = machine_with(&[0x62, 0x40, 0x81, 0x2E]);
    run_cycles(&mut c, 2);
    assert_eq!(c.register(1), 0x80);
    assert_eq!(c.register(0xF), 0);
}

#[test]
fn flag_register_as_target_keeps_flag() {
    let mut c = machine_with(&[0x6F, 200, 0x62, 100, 0x8F, 0x24]);
    run_cycles(&mut c, 3);
    assert_eq!(c.register(0xF), 1);
}

#[test]
fn skips_on_register_comparisons() {
    let rom = [
        0x61, 7, 0x31, 7, 0x62, 1, // skip taken: v2 stays 0
        0x41, 7, 0x63, 1, // not taken: v3 = 1
        0x54, 0x50, 0x64, 1, // v4 == v5: skip
        0x91, 0x40, 0x65, 1, // v1 != v4: skip
    ];
    let mut c = machine_with(&rom);
    run_cycles(&mut c, 6);
    assert_eq!(c.register(2), 0);
    assert_eq!(c.register(3), 1);
    assert_eq!(c.register(4), 0);
    assert_eq!(c.register(5), 0);
    assert_eq!(c.program_counter(), 0x212);
}

#[test]
fn jumps() {
    let mut c = machine_with(&[0x12, 0x04, 0x00, 0x00, 0x60, 0x02, 0xB3, 0x00]);
    c.cycle().unwrap();
    assert_eq!(c.program_counter(), 0x204);
    run_cycles(&mut c, 2);
    assert_eq!(c.program_counter(), 0x302);
}

#[test]
fn decimal_digits_are_stored() {
    let mut c = machine_with(&[0x67, 123, 0xA4, 0x00, 0xF7, 0x33]);
    run_cycles(&mut c, 3);
    assert_eq!(c.memory_at(0x400), 1);
    assert_eq!(c.memory_at(0x401), 2);
    assert_eq!(c.memory_at(0x402), 3);
}

#[test]
fn index_addition() {
    let mut c = machine_with(&[0xA1, 0x00, 0x60, 0x20, 0xF0, 0x1E]);
    run_cycles(&mut c, 3);
    assert_eq!(c.index_register(), 0x120);
}

#[test]
fn key_wait_polls_until_a_key_is_down() {
    let mut c = machine_with(&[0xF3, 0x0A, 0x60, 1]);
    c.cycle().unwrap();
    c.cycle().unwrap();
    assert_eq!(c.program_counter(), 0x200);
    c.set_key(0xB, true);
    c.set_key(0x7, true);
    c.cycle().unwrap();
    assert_eq!(c.register(3), 7);
    assert_eq!(c.program_counter(), 0x202);
}

#[test]
fn key_skips() {
    let rom = [0x61, 0x15, 0xE1, 0x9E, 0x62, 1, 0xE1, 0xA1, 0x63, 1];
    let mut c = machine_with(&rom);
    c.set_key(5, true);
    run_cycles(&mut c, 4);
    assert_eq!(c.register(2), 0);
    assert_eq!(c.register(3), 1);
}

#[test]
fn unloaded_machine_does_nothing() {
    let mut c = CHIP8::new(1);
    assert_eq!(c.cycle(), Ok(()));
    assert_eq!(c.program_counter(), 0x200);
    assert_eq!(c.run(), Ok(false));
}

#[test]
fn glyphs_are_in_low_memory() {
    let c = CHIP8::default();
    assert_eq!(c.memory_at(0), 0xF0);
    assert_eq!(c.memory_at(79), 0x80);
    assert_eq!(c.memory_at(80), 0);
    assert_eq!(c.program_counter(), 0x200);
}

#[test]
fn rom_too_large_is_refused() {
    let mut c = CHIP8::new(0);
    let big = vec![0x12u8; 3585];
    assert_eq!(c.load_rom(&big), Err(RomError::TooLarge));
    assert_eq!(c.cycle(), Ok(()));
    assert_eq!(c.memory_at(0x200), 0);
}

#[test]
fn largest_rom_fits() {
    let mut c = CHIP8::new(0);
    let mut rom = vec![0u8; 3584];
    rom[3583] = 0xAB;
    assert_eq!(c.load_rom(&rom), Ok(()));
    assert_eq!(c.memory_at(4095), 0xAB);
}

#[test]
fn return_on_empty_stack_underflows() {
    let mut c = machine_with(&[0x00, 0xEE]);
    assert_eq!(c.cycle(), Err(ExecutionError::StackUnderflow));
    assert_eq!(c.program_counter(), 0x200);
}

#[test]
fn deep_calls_overflow() {
    let mut c = machine_with(&[0x22, 0x00]);
    run_cycles(&mut c, 16);
    assert_eq!(c.stack_depth(), 16);
    assert_eq!(c.cycle(), Err(ExecutionError::StackOverflow));
    assert_eq!(c.stack_depth(), 16);
}

#[test]
fn odd_program_counter_is_invalid() {
    let mut c = machine_with(&[0x12, 0x01]);
    c.cycle().unwrap();
    assert_eq!(c.cycle(), Err(ExecutionError::InvalidProgramCounter(0x201)));
}

#[test]
fn program_counter_past_memory_is_invalid() {
    // jump to 0xFFF + v0 with v0 = 0xFF
    let mut c = machine_with(&[0x60, 0xFF, 0xBF, 0xFF]);
    run_cycles(&mut c, 2);
    assert_eq!(c.cycle(), Err(ExecutionError::InvalidProgramCounter(0x10FE)));
}

#[test]
fn unknown_instructions_are_reported() {
    for op in [[0x01u8, 0x23u8], [0x80, 0x08], [0xE0, 0xFF], [0xF0, 0xFF]] {
        let mut c = machine_with(&op);
        let expected = ((op[0] as u16) << 8) | op[1] as u16;
        assert_eq!(c.cycle(), Err(ExecutionError::UnimplementedOpcode(expected)));
        assert_eq!(c.program_counter(), 0x200);
    }
}

#[test]
fn run_performs_configured_cycles() {
    let mut c = machine_with(&[0x70, 1, 0x70, 1, 0x70, 1, 0x70, 1, 0x70, 1, 0x12, 0x00]);
    c.set_cycle_count(3);
    assert_eq!(c.run(), Ok(false));
    assert_eq!(c.register(0), 3);
    assert_eq!(c.program_counter(), 0x206);
}

#[test]
fn run_reports_redraw() {
    let mut c = machine_with(&[0x00, 0xE0, 0x70, 1]);
    c.set_cycle_count(2);
    assert_eq!(c.run(), Ok(true));
    assert!(!c.needs_redraw());
}

#[test]
fn run_stops_at_first_error() {
    let mut c = machine_with(&[0x70, 1, 0x00, 0xEE, 0x70, 1]);
    c.set_cycle_count(8);
    assert_eq!(c.run(), Err(ExecutionError::StackUnderflow));
    assert_eq!(c.register(0), 1);
    assert_eq!(c.program_counter(), 0x202);
}

#[test]
fn glyph_of_value_past_f_leaves_index() {
    let mut c = machine_with(&[0xA1, 0x23, 0x62, 0x10, 0xF2, 0x29]);
    run_cycles(&mut c, 3);
    assert_eq!(c.index_register(), 0x123);
    let mut c = machine_with(&[0xA1, 0x23, 0x62, 0x0F, 0xF2, 0x29]);
    run_cycles(&mut c, 3);
    assert_eq!(c.index_register(), 75);
}

#[test]
fn display_clear_leaves_no_redraw_pending() {
    let mut d = Display::new();
    d.set_pixel(3, 4, true);
    assert!(d.draw_happened());
    d.clear();
    assert!(!d.draw_happened());
    assert!(d.cells().iter().all(|&cell| cell == 0));
}

#[test]
fn tall_sprite_wraps_onto_itself() {
    let mut d = Display::new();
    let mut sprite = vec![0u8; 33];
    sprite[0] = 0x80;
    sprite[32] = 0x80;
    sprite[1] = 0x40;
    // rows 0 and 32 land on the same cell: on, then off again
    assert!(d.display_sprite(0, 0, &sprite));
    assert!(!d.get_pixel(0, 0));
    assert!(d.get_pixel(1, 1));
    assert_eq!(d.cells().iter().filter(|&&cell| cell == 1).count(), 1);
}

#[test]
fn blank_sprite_changes_nothing_but_requests_redraw() {
    let mut d = Display::new();
    d.set_pixel(5, 5, true);
    d.set_draw_flag(false);
    assert!(!d.display_sprite(5, 5, &[0x00, 0x00]));
    assert!(!d.display_sprite(5, 5, &[]));
    assert!(d.draw_happened());
    assert!(d.get_pixel(5, 5));
    assert_eq!(d.cells().iter().filter(|&&cell| cell == 1).count(), 1);
}
