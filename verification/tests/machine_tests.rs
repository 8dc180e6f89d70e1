use chip8::Chip8;
use chip8::Chip8Error;

fn machine_with(program: &[u8]) -> Chip8 {
    let mut c = Chip8::new();
    c.load_game(program).unwrap();
    c
}

#[test]
fn new_machine_starts_at_0x200_with_font_loaded() {
    let c = Chip8::new();
    assert_eq!(c.pc, 0x200);
    assert_eq!(c.i, 0);
    assert_eq!(c.sp, 0);
    assert_eq!(c.delay_timer, 0);
    assert_eq!(c.sound_timer, 0);
    for x in 0..16 {
        assert_eq!(c.registers[x], 0);
    }
    // Glyph 0 starts with 0xF0, glyph 1 with 0x20, and the table ends at 79.
    assert_eq!(c.memory[0], 0xF0);
    assert_eq!(c.memory[5], 0x20);
    assert_eq!(c.memory[79], 0x80);
    for a in 80..4096 {
        assert_eq!(c.memory[a], 0);
    }
}

#[test]
fn load_game_of_exactly_3584_bytes_succeeds() {
    let mut c = Chip8::new();
    let program = vec![0xAB; 4096 - 0x200];
    assert_eq!(c.load_game(&program), Ok(()));
    assert_eq!(c.memory[0x200], 0xAB);
    assert_eq!(c.memory[4095], 0xAB);
}

#[test]
fn load_game_one_byte_larger_is_rejected() {
    let mut c = Chip8::new();
    let program = vec![0xAB; 4096 - 0x200 + 1];
    assert_eq!(c.load_game(&program), Err(Chip8Error::RomTooLarge));
    // The machine is untouched.
    assert_eq!(c.memory[0x200], 0);
    assert_eq!(c.pc, 0x200);
}

#[test]
fn load_game_places_bytes_from_0x200() {
    let c = machine_with(&[0x12, 0x34, 0x56]);
    assert_eq!(c.memory[0x200], 0x12);
    assert_eq!(c.memory[0x201], 0x34);
    assert_eq!(c.memory[0x202], 0x56);
    assert_eq!(c.memory[0x203], 0x00);
}

#[test]
fn set_imm_and_pc_advance() {
    let mut c = machine_with(&[0x60, 0x2A]);
    let out = c.step(0).unwrap();
    assert_eq!(c.registers[0], 0x2A);
    assert_eq!(c.pc, 0x202);
    assert!(!out.sound_tick);
    assert!(!out.unknown_opcode);
}

#[test]
fn add_imm_wraps_and_never_raises_vf() {
    // V0 = 0xFF; V0 += 0x02 -> 0x01 with VF untouched.
    let mut c = machine_with(&[0x60, 0xFF, 0x70, 0x02]);
    c.step(0).unwrap();
    c.step(0).unwrap();
    assert_eq!(c.registers[0], 0x01);
    assert_eq!(c.registers[15], 0);
}

#[test]
fn add_reg_overflow_sets_vf() {
    // V0 = 0xFF, V1 = 0x01, V0 += V1 -> 0x00 with VF = 1.
    let mut c = machine_with(&[0x60, 0xFF, 0x61, 0x01, 0x80, 0x14]);
    c.step(0).unwrap();
    c.step(0).unwrap();
    c.step(0).unwrap();
    assert_eq!(c.registers[0], 0x00);
    assert_eq!(c.registers[15], 1);
}

#[test]
fn add_reg_without_overflow_clears_vf() {
    // V0 = 0x01, V1 = 0x01, V0 += V1 -> 0x02 with VF = 0.
    let mut c = machine_with(&[0x60, 0x01, 0x61, 0x01, 0x80, 0x14]);
    c.registers[15] = 7;
    c.step(0).unwrap();
    c.step(0).unwrap();
    c.step(0).unwrap();
    assert_eq!(c.registers[0], 0x02);
    assert_eq!(c.registers[15], 0);
}

#[test]
fn sub_reg_flags_signal_no_borrow() {
    // V0 = 7, V1 = 5, V0 -= V1 -> 2 with VF = 1 (no borrow).
    let mut c = machine_with(&[0x60, 0x07, 0x61, 0x05, 0x80, 0x15]);
    c.step(0).unwrap();
    c.step(0).unwrap();
    c.step(0).unwrap();
    assert_eq!(c.registers[0], 2);
    assert_eq!(c.registers[15], 1);
}

#[test]
fn sub_reg_borrow_clears_vf() {
    // V0 = 5, V1 = 7, V0 -= V1 -> 254 with VF = 0 (borrow).
    let mut c = machine_with(&[0x60, 0x05, 0x61, 0x07, 0x80, 0x15]);
    c.step(0).unwrap();
    c.step(0).unwrap();
    c.step(0).unwrap();
    assert_eq!(c.registers[0], 254);
    assert_eq!(c.registers[15], 0);
}

#[test]
fn sub_from_reverses_the_operands() {
    // V0 = 2, V1 = 10, V0 = V1 - V0 -> 8 with VF = 1 (no borrow).
    let mut c = machine_with(&[0x60, 0x02, 0x61, 0x0A, 0x80, 0x17]);
    c.step(0).unwrap();
    c.step(0).unwrap();
    c.step(0).unwrap();
    assert_eq!(c.registers[0], 8);
    assert_eq!(c.registers[15], 1);
}

#[test]
fn shift_right_keeps_low_bit_in_vf() {
    // V0 = 0x05, V0 >>= 1 -> 0x02 with VF = 1.
    let mut c = machine_with(&[0x60, 0x05, 0x80, 0x06]);
    c.step(0).unwrap();
    c.step(0).unwrap();
    assert_eq!(c.registers[0], 0x02);
    assert_eq!(c.registers[15], 1);
}

#[test]
fn shift_left_keeps_high_bit_in_vf() {
    // V0 = 0x81, V0 <<= 1 -> 0x02 with VF = 1.
    let mut c = machine_with(&[0x60, 0x81, 0x80, 0x0E]);
    c.step(0).unwrap();
    c.step(0).unwrap();
    assert_eq!(c.registers[0], 0x02);
    assert_eq!(c.registers[15], 1);
}

#[test]
fn skip_if_equal_immediate() {
    // V0 = 3; 0x3003 skips the following instruction.
    let mut c = machine_with(&[0x60, 0x03, 0x30, 0x03, 0x61, 0x01, 0x62, 0x01]);
    c.step(0).unwrap();
    c.step(0).unwrap();
    assert_eq!(c.pc, 0x206);
    c.step(0).unwrap();
    assert_eq!(c.registers[1], 0);
    assert_eq!(c.registers[2], 1);
}

#[test]
fn no_skip_when_immediate_differs() {
    let mut c = machine_with(&[0x60, 0x03, 0x30, 0x04, 0x61, 0x01]);
    c.step(0).unwrap();
    c.step(0).unwrap();
    assert_eq!(c.pc, 0x204);
    c.step(0).unwrap();
    assert_eq!(c.registers[1], 1);
}

#[test]
fn jump_overwrites_the_advanced_pc() {
    let mut c = machine_with(&[0x12, 0x34]);
    c.step(0).unwrap();
    assert_eq!(c.pc, 0x234);
}

#[test]
fn jump_v0_adds_the_register() {
    let mut c = machine_with(&[0x60, 0x10, 0xB3, 0x00]);
    c.step(0).unwrap();
    c.step(0).unwrap();
    assert_eq!(c.pc, 0x310);
}

#[test]
fn call_then_ret_resumes_after_the_call() {
    // 0x200: call 0x206; 0x206: return.
    let mut c = machine_with(&[0x22, 0x06, 0x00, 0x00, 0x00, 0x00, 0x00, 0xEE]);
    c.step(0).unwrap();
    assert_eq!(c.pc, 0x206);
    assert_eq!(c.sp, 1);
    assert_eq!(c.stack[0], 0x202);
    c.step(0).unwrap();
    assert_eq!(c.pc, 0x202);
    assert_eq!(c.sp, 0);
}

#[test]
fn ret_on_empty_stack_is_a_stack_underflow() {
    let mut c = machine_with(&[0x00, 0xEE]);
    assert_eq!(c.step(0), Err(Chip8Error::StackUnderflow));
    // The failed cycle changed nothing.
    assert_eq!(c.pc, 0x200);
    assert_eq!(c.sp, 0);
}

#[test]
fn seventeenth_nested_call_is_a_stack_overflow() {
    let mut c = machine_with(&[0x22, 0x00]);
    c.sp = 16;
    assert_eq!(c.step(0), Err(Chip8Error::StackOverflow));
    assert_eq!(c.pc, 0x200);
    assert_eq!(c.sp, 16);
}

#[test]
fn fetch_outside_memory_is_an_error() {
    let mut c = Chip8::new();
    c.pc = 4095;
    assert_eq!(c.step(0), Err(Chip8Error::MemoryOutOfBounds));
    assert_eq!(c.pc, 4095);
}

#[test]
fn set_index_and_add_index() {
    let mut c = machine_with(&[0xA1, 0x23, 0x60, 0x02, 0xF0, 0x1E]);
    c.step(0).unwrap();
    assert_eq!(c.i, 0x123);
    c.step(0).unwrap();
    c.step(0).unwrap();
    assert_eq!(c.i, 0x125);
}

#[test]
fn font_char_points_into_the_glyph_table() {
    // V0 = 0xA: I = 10 * 5 = 50, the bitmap of the glyph for digit A.
    let mut c = machine_with(&[0x60, 0x0A, 0xF0, 0x29]);
    c.step(0).unwrap();
    c.step(0).unwrap();
    assert_eq!(c.i, 50);
    assert_eq!(c.memory[c.i as usize], 0xF0);
}

#[test]
fn bcd_of_234_writes_2_3_4() {
    let mut c = machine_with(&[0x60, 0xEA, 0xA3, 0x00, 0xF0, 0x33]);
    c.step(0).unwrap();
    c.step(0).unwrap();
    c.step(0).unwrap();
    assert_eq!(c.memory[0x300], 2);
    assert_eq!(c.memory[0x301], 3);
    assert_eq!(c.memory[0x302], 4);
}

#[test]
fn bcd_outside_memory_is_an_error() {
    let mut c = machine_with(&[0xF0, 0x33]);
    c.i = 4094;
    assert_eq!(c.step(0), Err(Chip8Error::MemoryOutOfBounds));
}

#[test]
fn store_and_load_registers_round_trip() {
    // V0 = 0x11, V1 = 0x22, V2 = 0x33; store V0..=V2 at I = 0x300; wipe the
    // registers; load them back.
    let mut c = machine_with(&[
        0x60, 0x11, 0x61, 0x22, 0x62, 0x33, 0xA3, 0x00, 0xF2, 0x55, 0x60, 0x00, 0x61, 0x00,
        0x62, 0x00, 0xF2, 0x65,
    ]);
    for _ in 0..9 {
        c.step(0).unwrap();
    }
    assert_eq!(c.memory[0x300], 0x11);
    assert_eq!(c.memory[0x301], 0x22);
    assert_eq!(c.memory[0x302], 0x33);
    assert_eq!(c.registers[0], 0x11);
    assert_eq!(c.registers[1], 0x22);
    assert_eq!(c.registers[2], 0x33);
}

#[test]
fn store_registers_outside_memory_is_an_error() {
    let mut c = machine_with(&[0xF2, 0x55]);
    c.i = 4094;
    assert_eq!(c.step(0), Err(Chip8Error::MemoryOutOfBounds));
    assert_eq!(c.memory[4094], 0);
}

#[test]
fn random_byte_is_masked() {
    // Cxnn masks the drawn byte: with nn = 0x0F and the byte 0xAB, V0 = 0x0B.
    let mut c = machine_with(&[0xC0, 0x0F]);
    c.step(0xAB).unwrap();
    assert_eq!(c.registers[0], 0x0B);
    // With mask 0x00 the register is always 0, whatever was drawn.
    let mut c2 = machine_with(&[0xC0, 0x00]);
    c2.step(0xFF).unwrap();
    assert_eq!(c2.registers[0], 0);
}

#[test]
fn draw_instruction_reports_collision_in_vf() {
    // I = 0 points at glyph 0; draw it twice at (V1, V2) = (0, 0).
    let mut c = machine_with(&[0xA0, 0x00, 0xD1, 0x25, 0xD1, 0x25]);
    c.step(0).unwrap();
    c.step(0).unwrap();
    assert_eq!(c.registers[15], 0);
    c.step(0).unwrap();
    // The second identical draw toggles every drawn pixel off again.
    assert_eq!(c.registers[15], 1);
    let mut any_on = false;
    for x in 0..64 {
        for y in 0..32 {
            if c.display.get_pixel(x, y) {
                any_on = true;
            }
        }
    }
    assert!(!any_on);
}

#[test]
fn clear_screen_instruction_blanks_the_display() {
    let mut c = machine_with(&[0xA0, 0x00, 0xD1, 0x25, 0x00, 0xE0]);
    c.step(0).unwrap();
    c.step(0).unwrap();
    assert!(c.display.get_pixel(0, 0));
    c.step(0).unwrap();
    assert!(!c.display.get_pixel(0, 0));
}

#[test]
fn skip_if_key_pressed() {
    // V0 = 4; Ex9E skips when key 4 is down.
    let mut c = machine_with(&[0x60, 0x04, 0xE0, 0x9E]);
    c.keypad.set(4, true);
    c.step(0).unwrap();
    c.step(0).unwrap();
    assert_eq!(c.pc, 0x206);
}

#[test]
fn skip_if_key_not_pressed() {
    let mut c = machine_with(&[0x60, 0x04, 0xE0, 0xA1]);
    c.step(0).unwrap();
    c.step(0).unwrap();
    assert_eq!(c.pc, 0x206);
    let mut c2 = machine_with(&[0x60, 0x04, 0xE0, 0xA1]);
    c2.keypad.set(4, true);
    c2.step(0).unwrap();
    c2.step(0).unwrap();
    assert_eq!(c2.pc, 0x204);
}

#[test]
fn wait_key_blocks_until_a_key_is_pressed() {
    let mut c = machine_with(&[0xF0, 0x0A]);
    c.step(0).unwrap();
    assert_eq!(c.pc, 0x200);
    c.step(0).unwrap();
    assert_eq!(c.pc, 0x200);
    c.keypad.set(9, true);
    c.step(0).unwrap();
    assert_eq!(c.pc, 0x202);
    assert_eq!(c.registers[0], 9);
}

#[test]
fn wait_key_reports_the_lowest_pressed_key() {
    let mut c = machine_with(&[0xF0, 0x0A]);
    c.keypad.set(11, true);
    c.keypad.set(6, true);
    c.step(0).unwrap();
    assert_eq!(c.registers[0], 6);
}

#[test]
fn wait_key_still_ticks_the_timers() {
    let mut c = machine_with(&[0xF0, 0x0A]);
    c.delay_timer = 3;
    c.step(0).unwrap();
    assert_eq!(c.pc, 0x200);
    assert_eq!(c.delay_timer, 2);
}

#[test]
fn delay_timer_set_and_read_back() {
    // V0 = 9; delay = V0; V1 = delay (one cycle later it has ticked to 8).
    let mut c = machine_with(&[0x60, 0x09, 0xF0, 0x15, 0xF1, 0x07]);
    c.step(0).unwrap();
    c.step(0).unwrap();
    assert_eq!(c.delay_timer, 8);
    c.step(0).unwrap();
    assert_eq!(c.registers[1], 8);
    assert_eq!(c.delay_timer, 7);
}

#[test]
fn sound_timer_final_tick_signals_once() {
    let mut c = machine_with(&[0x60, 0x00, 0x61, 0x00]);
    c.sound_timer = 1;
    let out = c.step(0).unwrap();
    assert!(out.sound_tick);
    assert_eq!(c.sound_timer, 0);
    let out2 = c.step(0).unwrap();
    assert!(!out2.sound_tick);
    assert_eq!(c.sound_timer, 0);
}

#[test]
fn sound_timer_above_one_does_not_signal_yet() {
    let mut c = machine_with(&[0x60, 0x00]);
    c.sound_timer = 2;
    let out = c.step(0).unwrap();
    assert!(!out.sound_tick);
    assert_eq!(c.sound_timer, 1);
}

#[test]
fn unknown_opcode_is_reported_and_skipped() {
    // 0x5001 matches no pattern: reported, program continues.
    let mut c = machine_with(&[0x50, 0x01, 0x60, 0x07]);
    let out = c.step(0).unwrap();
    assert!(out.unknown_opcode);
    assert_eq!(c.pc, 0x202);
    let out2 = c.step(0).unwrap();
    assert!(!out2.unknown_opcode);
    assert_eq!(c.registers[0], 7);
}

#[test]
fn register_aliasing_uses_snapshotted_operands() {
    // VF = 1, V0 = 2, V0 += VF: the sum uses the old VF, then the carry flag
    // write lands first and the destination write wins only for V0.
    let mut c = machine_with(&[0x6F, 0x01, 0x60, 0x02, 0x80, 0xF4]);
    c.step(0).unwrap();
    c.step(0).unwrap();
    c.step(0).unwrap();
    assert_eq!(c.registers[0], 3);
    assert_eq!(c.registers[15], 0);
}

#[test]
fn emulate_cycle_runs_deterministic_instructions() {
    let mut c = machine_with(&[0x60, 0x2A]);
    let out = c.emulate_cycle().unwrap();
    assert_eq!(c.registers[0], 0x2A);
    assert_eq!(c.pc, 0x202);
    assert!(!out.unknown_opcode);
}

#[test]
fn draw_with_zero_rows_changes_nothing() {
    // Dxy0: an empty sprite draws nothing and reports no collision.
    let mut c = machine_with(&[0xD1, 0x20]);
    c.step(0).unwrap();
    assert_eq!(c.registers[15], 0);
    assert!(!c.display.get_pixel(0, 0));
    assert_eq!(c.pc, 0x202);
}

#[test]
fn draw_reading_past_memory_is_an_error() {
    let mut c = machine_with(&[0xD1, 0x25]);
    c.i = 4092;
    assert_eq!(c.step(0), Err(Chip8Error::MemoryOutOfBounds));
    assert_eq!(c.pc, 0x200);
}

#[test]
fn add_index_wraps_the_16_bit_register() {
    let mut c = machine_with(&[0x60, 0x02, 0xF0, 0x1E]);
    c.step(0).unwrap();
    c.i = 0xFFFF;
    c.step(0).unwrap();
    assert_eq!(c.i, 1);
}
