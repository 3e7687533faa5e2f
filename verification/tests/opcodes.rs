//! Execution semantics of the opcode set, instruction by instruction, and
//! the scenario form of the interpreter's general laws.

use chip8_core::Chip8;
use chip8_core::Chip8Error;
use chip8_core::Mode;

/// A machine with `program` loaded at 0x200.
fn boot(program: &[u8]) -> Chip8 {
    let mut c = Chip8::new();
    let image: Vec<u8> = program.to_vec();
    c.load_program(&image).unwrap();
    c
}

#[test]
fn clear_screen_blanks_the_grid() {
    let mut c = boot(&[0x00, 0xE0]);
    c.screen[123] = true;
    c.screen[2047] = true;
    c.step().unwrap();
    for j in 0..2048 {
        assert!(!c.screen[j]);
    }
}

#[test]
fn machine_code_word_is_a_no_op() {
    let mut c = boot(&[0x00, 0x00]);
    c.step().unwrap();
    assert_eq!(c.program_counter, 0x202);
    assert_eq!(c.stack_pointer, 0);
}

#[test]
fn jump_sets_pc() {
    let mut c = boot(&[0x13, 0x45]);
    c.step().unwrap();
    assert_eq!(c.program_counter, 0x345);
}

#[test]
fn jump_with_offset_adds_v0() {
    let mut c = boot(&[0x60, 0x05, 0xB3, 0x00]);
    c.step().unwrap();
    c.step().unwrap();
    assert_eq!(c.program_counter, 0x305);
}

#[test]
fn call_then_return_lands_after_the_call() {
    // 0x200: call 0x204; 0x204: return
    let mut c = boot(&[0x22, 0x04, 0x00, 0x00, 0x00, 0xEE]);
    c.step().unwrap();
    assert_eq!(c.program_counter, 0x204);
    assert_eq!(c.stack_pointer, 1);
    assert_eq!(c.stack[0], 0x202);
    c.step().unwrap();
    assert_eq!(c.program_counter, 0x202);
    assert_eq!(c.stack_pointer, 0);
}

#[test]
fn return_on_empty_stack_underflows() {
    let mut c = boot(&[0x00, 0xEE]);
    assert_eq!(c.step(), Err(Chip8Error::StackUnderflow));
    assert_eq!(c.program_counter, 0x202);
}

#[test]
fn sixteen_nested_calls_succeed_and_the_seventeenth_overflows() {
    // 0x200 calls itself: every step pushes one return address.
    let mut c = boot(&[0x22, 0x00]);
    for _ in 0..16 {
        assert_eq!(c.step(), Ok(()));
    }
    assert_eq!(c.stack_pointer, 16);
    assert_eq!(c.program_counter, 0x200);
    assert_eq!(c.step(), Err(Chip8Error::StackOverflow));
    // the failing call left the counter exactly where the fetch put it
    assert_eq!(c.stack_pointer, 16);
    assert_eq!(c.program_counter, 0x202);
    for k in 0..16 {
        assert_eq!(c.stack[k], 0x202);
    }
}

#[test]
fn load_then_skip_if_equal_skips_one_instruction() {
    // V10 = 0x42, then skip-if-equal with the same byte: the skip always
    // fires, landing four bytes past the skip's fetch position.
    let mut c = boot(&[0x6A, 0x42, 0x3A, 0x42]);
    c.step().unwrap();
    assert_eq!(c.program_counter, 0x202);
    c.step().unwrap();
    assert_eq!(c.program_counter, 0x206);
}

#[test]
fn skip_if_equal_does_not_skip_on_mismatch() {
    let mut c = boot(&[0x3A, 0x01]);
    c.step().unwrap();
    assert_eq!(c.program_counter, 0x202);
}

#[test]
fn skip_if_not_equal() {
    let mut c = boot(&[0x4A, 0x01, 0x4A, 0x00]);
    c.step().unwrap();
    assert_eq!(c.program_counter, 0x204);
    c.step().unwrap();
    assert_eq!(c.program_counter, 0x206);
}

#[test]
fn skip_on_register_compare() {
    // V0 = 7, V1 = 7: 5xy0 skips; then 9xy0 does not.
    let mut c = boot(&[0x60, 0x07, 0x61, 0x07, 0x50, 0x10, 0x00, 0x00, 0x90, 0x10]);
    c.step().unwrap();
    c.step().unwrap();
    c.step().unwrap();
    assert_eq!(c.program_counter, 0x208);
    c.step().unwrap();
    assert_eq!(c.program_counter, 0x20A);
}

#[test]
fn mismatched_skip_low_nibble_is_invalid_and_harmless() {
    let mut c = boot(&[0x50, 0x01]);
    let before_v = c.v_reg.clone();
    let before_mem = c.memory.clone();
    assert_eq!(c.step(), Err(Chip8Error::InvalidOpcode(0x5001)));
    assert_eq!(c.program_counter, 0x202);
    assert_eq!(c.v_reg, before_v);
    assert_eq!(c.memory, before_mem);
    assert_eq!(c.stack_pointer, 0);
    assert_eq!(c.i_reg, 0);
}

#[test]
fn unknown_high_nibble_groups_are_invalid() {
    let mut c = boot(&[0x80, 0x18, 0xE1, 0x00, 0xF2, 0xFF]);
    assert_eq!(c.step(), Err(Chip8Error::InvalidOpcode(0x8018)));
    assert_eq!(c.step(), Err(Chip8Error::InvalidOpcode(0xE100)));
    assert_eq!(c.step(), Err(Chip8Error::InvalidOpcode(0xF2FF)));
    assert_eq!(c.program_counter, 0x206);
}

#[test]
fn load_and_add_immediate_wraps() {
    let mut c = boot(&[0x6A, 0xF0, 0x7A, 0x20]);
    c.step().unwrap();
    assert_eq!(c.v_reg[10], 0xF0);
    c.step().unwrap();
    assert_eq!(c.v_reg[10], 0x10);
    assert_eq!(c.v_reg[15], 0, "7xnn must not touch the flag register");
}

#[test]
fn register_copy_and_bitwise_ops() {
    let mut c = boot(&[
        0x60, 0x0C, 0x61, 0x0A, 0x82, 0x00, // V2 = V0 = 0x0C
        0x82, 0x11, // V2 |= V1 -> 0x0E
        0x82, 0x02, // V2 &= V0 -> 0x0C
        0x82, 0x13, // V2 ^= V1 -> 0x06
    ]);
    for _ in 0..6 {
        c.step().unwrap();
    }
    assert_eq!(c.v_reg[2], 0x06);
}

#[test]
fn add_with_carry_sets_flag_and_wraps() {
    let mut c = boot(&[0x6A, 0xFF, 0x6B, 0x01, 0x8A, 0xB4]);
    c.step().unwrap();
    c.step().unwrap();
    c.step().unwrap();
    assert_eq!(c.v_reg[10], 0x00);
    assert_eq!(c.v_reg[15], 1);
}

#[test]
fn add_without_carry_clears_flag() {
    let mut c = boot(&[0x6A, 0x10, 0x6B, 0x01, 0x8A, 0xB4]);
    c.v_reg[15] = 1;
    c.step().unwrap();
    c.step().unwrap();
    c.step().unwrap();
    assert_eq!(c.v_reg[10], 0x11);
    assert_eq!(c.v_reg[15], 0);
}

#[test]
fn subtract_with_borrow_clears_flag_and_wraps() {
    let mut c = boot(&[0x6A, 0x01, 0x6B, 0x02, 0x8A, 0xB5]);
    c.step().unwrap();
    c.step().unwrap();
    c.step().unwrap();
    assert_eq!(c.v_reg[10], 0xFF);
    assert_eq!(c.v_reg[15], 0);
}

#[test]
fn subtract_without_borrow_sets_flag() {
    let mut c = boot(&[0x6A, 0x07, 0x6B, 0x02, 0x8A, 0xB5]);
    c.step().unwrap();
    c.step().unwrap();
    c.step().unwrap();
    assert_eq!(c.v_reg[10], 0x05);
    assert_eq!(c.v_reg[15], 1);
}

#[test]
fn reverse_subtract_uses_vy_minus_vx() {
    let mut c = boot(&[0x6A, 0x02, 0x6B, 0x07, 0x8A, 0xB7]);
    c.step().unwrap();
    c.step().unwrap();
    c.step().unwrap();
    assert_eq!(c.v_reg[10], 0x05);
    assert_eq!(c.v_reg[15], 1);
}

#[test]
fn shift_right_reads_vy_and_keeps_low_bit() {
    let mut c = boot(&[0x61, 0x05, 0x80, 0x16]);
    c.step().unwrap();
    c.step().unwrap();
    assert_eq!(c.v_reg[0], 0x02);
    assert_eq!(c.v_reg[1], 0x05);
    assert_eq!(c.v_reg[15], 1);
}

#[test]
fn shift_left_reads_vy_and_keeps_high_bit() {
    let mut c = boot(&[0x61, 0x81, 0x80, 0x1E]);
    c.step().unwrap();
    c.step().unwrap();
    assert_eq!(c.v_reg[0], 0x02);
    assert_eq!(c.v_reg[1], 0x81);
    assert_eq!(c.v_reg[15], 1);
}

#[test]
fn set_index_register() {
    let mut c = boot(&[0xA7, 0x89]);
    c.step().unwrap();
    assert_eq!(c.i_reg, 0x789);
}

#[test]
fn add_to_index_wraps_modulo_65536() {
    let mut c = boot(&[0x60, 0x02, 0xF0, 0x1E]);
    c.step().unwrap();
    c.i_reg = 0xFFFF;
    c.step().unwrap();
    assert_eq!(c.i_reg, 1);
    assert_eq!(c.v_reg[15], 0, "the chosen convention leaves the flag alone");
}

#[test]
fn random_byte_is_masked_and_reproducible() {
    // From the fixed seed 0x2A the generator steps to
    // (0x2A * 25173 + 13849) % 65536 == 22539, whose high byte is 0x58.
    let mut c = boot(&[0xC5, 0xFF, 0xC6, 0x0F]);
    c.step().unwrap();
    assert_eq!(c.v_reg[5], 0x58);
    assert_eq!(c.rng, 22539);
    // next step draws a fresh byte and masks it with 0x0F
    let expected = {
        let next = (22539u32 * 25173 + 13849) % 65536;
        ((next / 256) as u8) & 0x0F
    };
    c.step().unwrap();
    assert_eq!(c.v_reg[6], expected);
}

#[test]
fn draw_lights_pixels_and_reports_no_collision_on_blank_grid() {
    // I = 0 (glyph "0"), draw 5 rows at (V0, V1) = (3, 2).
    let mut c = boot(&[0x60, 0x03, 0x61, 0x02, 0xA0, 0x00, 0xD0, 0x15]);
    for _ in 0..4 {
        c.step().unwrap();
    }
    assert_eq!(c.v_reg[15], 0);
    // glyph "0" row 0 is 0xF0: pixels at columns 3..7 of row 2
    for col in 3..7 {
        assert!(c.pixel(col, 2));
    }
    assert!(!c.pixel(7, 2));
    // row 1 is 0x90: pixels at columns 3 and 6 of row 3
    assert!(c.pixel(3, 3));
    assert!(!c.pixel(4, 3));
    assert!(!c.pixel(5, 3));
    assert!(c.pixel(6, 3));
}

#[test]
fn draw_wraps_around_both_edges() {
    // draw at (62, 30): columns and rows wrap around the grid
    let mut c = boot(&[0x60, 0x3E, 0x61, 0x1E, 0xA0, 0x00, 0xD0, 0x15]);
    for _ in 0..4 {
        c.step().unwrap();
    }
    // row 0 of glyph "0" (0xF0) lands on grid row 30, columns 62, 63, 0, 1
    assert!(c.pixel(62, 30));
    assert!(c.pixel(63, 30));
    assert!(c.pixel(0, 30));
    assert!(c.pixel(1, 30));
    // row 2 of the glyph lands on grid row 0
    assert!(c.pixel(62, 0));
}

#[test]
fn drawing_twice_restores_the_grid_and_reports_collision() {
    let mut c = boot(&[0x60, 0x03, 0x61, 0x02, 0xA0, 0x00, 0xD0, 0x15, 0xD0, 0x15]);
    for _ in 0..4 {
        c.step().unwrap();
    }
    let lit: Vec<usize> = (0..2048).filter(|&j| c.screen[j]).collect();
    assert!(!lit.is_empty());
    assert_eq!(c.v_reg[15], 0);
    c.step().unwrap();
    assert_eq!(c.v_reg[15], 1, "the second draw erases what the first lit");
    for j in 0..2048 {
        assert!(!c.screen[j], "double XOR must restore every pixel");
    }
}

#[test]
fn draw_past_end_of_memory_is_out_of_bounds() {
    let mut c = boot(&[0xAF, 0xFF, 0xD0, 0x02]);
    c.step().unwrap();
    assert_eq!(c.step(), Err(Chip8Error::OutOfBounds));
    assert_eq!(c.program_counter, 0x204);
    for j in 0..2048 {
        assert!(!c.screen[j]);
    }
}

#[test]
fn skip_if_key_pressed_and_not_pressed() {
    let mut c = boot(&[0x60, 0x07, 0xE0, 0x9E, 0xE0, 0xA1]);
    c.set_key(7, true);
    c.step().unwrap();
    c.step().unwrap();
    assert_eq!(c.program_counter, 0x206, "E09E skips when key 7 is down");
    c.step().unwrap();
    assert_eq!(c.program_counter, 0x208, "E0A1 does not skip when key 7 is down");
}

#[test]
fn read_and_write_timers() {
    let mut c = boot(&[0x60, 0x30, 0xF0, 0x15, 0xF0, 0x18, 0x61, 0x00, 0xF1, 0x07]);
    c.step().unwrap();
    c.step().unwrap();
    assert_eq!(c.delay_timer, 0x30);
    c.step().unwrap();
    assert_eq!(c.sound_timer, 0x30);
    assert!(c.sound_active());
    c.step().unwrap();
    c.step().unwrap();
    assert_eq!(c.v_reg[1], 0x30);
}

#[test]
fn wait_for_key_blocks_until_a_press_and_takes_the_lowest() {
    let mut c = boot(&[0xF5, 0x0A, 0x00, 0x00]);
    c.step().unwrap();
    assert_eq!(c.mode, Mode::AwaitingKey(5));
    // no key: further steps change nothing
    c.step().unwrap();
    c.step().unwrap();
    assert_eq!(c.program_counter, 0x202);
    assert_eq!(c.mode, Mode::AwaitingKey(5));
    c.set_key(9, true);
    c.set_key(3, true);
    c.step().unwrap();
    assert_eq!(c.v_reg[5], 3, "the lowest pressed key is taken");
    assert_eq!(c.mode, Mode::Running);
    assert_eq!(c.program_counter, 0x202);
}

#[test]
fn font_glyph_address_is_five_times_the_digit() {
    let mut c = boot(&[0x60, 0x0B, 0xF0, 0x29]);
    c.step().unwrap();
    c.step().unwrap();
    assert_eq!(c.i_reg, 55);
}

#[test]
fn binary_coded_decimal_of_vx() {
    let mut c = boot(&[0x60, 0xEA, 0xA4, 0x00, 0xF0, 0x33]);
    c.step().unwrap();
    c.step().unwrap();
    c.step().unwrap();
    assert_eq!(c.memory[0x400], 2);
    assert_eq!(c.memory[0x401], 3);
    assert_eq!(c.memory[0x402], 4);
}

#[test]
fn bcd_past_end_of_memory_is_out_of_bounds() {
    let mut c = boot(&[0xAF, 0xFE, 0xF0, 0x33]);
    c.step().unwrap();
    assert_eq!(c.step(), Err(Chip8Error::OutOfBounds));
}

#[test]
fn store_and_load_registers_round_trip() {
    let mut c = boot(&[
        0x60, 0x11, 0x61, 0x22, 0x62, 0x33, 0xA3, 0x00, 0xF2, 0x55, // store V0..=V2 at 0x300
        0x60, 0x00, 0x61, 0x00, 0x62, 0x00, 0x63, 0x77, // zero V0..=V2, V3 = 0x77
        0xF2, 0x65, // load V0..=V2 back
    ]);
    for _ in 0..10 {
        c.step().unwrap();
    }
    assert_eq!(c.memory[0x300], 0x11);
    assert_eq!(c.memory[0x301], 0x22);
    assert_eq!(c.memory[0x302], 0x33);
    assert_eq!(c.memory[0x303], 0x00, "only registers up to x are stored");
    assert_eq!(c.v_reg[0], 0x11);
    assert_eq!(c.v_reg[1], 0x22);
    assert_eq!(c.v_reg[2], 0x33);
    assert_eq!(c.v_reg[3], 0x77, "registers past x keep their value");
    assert_eq!(c.i_reg, 0x300, "the index register is left alone");
}

#[test]
fn store_registers_past_end_of_memory_is_out_of_bounds() {
    let mut c = boot(&[0xAF, 0xFF, 0xF1, 0x55, 0xAF, 0xFF, 0xF1, 0x65]);
    c.step().unwrap();
    assert_eq!(c.step(), Err(Chip8Error::OutOfBounds));
    c.step().unwrap();
    assert_eq!(c.step(), Err(Chip8Error::OutOfBounds));
    assert_eq!(c.memory[0xFFF], 0);
    assert_eq!(c.v_reg[1], 0);
}

#[test]
fn skip_wraps_the_program_counter() {
    let mut c = Chip8::new();
    c.v_reg[0] = 5;
    c.program_counter = 0xFFFF;
    c.execute_opcode(0x3005).unwrap();
    assert_eq!(c.program_counter, 1);
}
