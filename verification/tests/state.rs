//! Machine-state behaviour: construction, reset, program loading, timers,
//! the call stack and the key vector.

use chip8_core::Chip8;
use chip8_core::Chip8Error;
use chip8_core::Mode;

const FONT: [u8; 80] = [
    0xF0, 0x90, 0x90, 0x90, 0xF0, 0x20, 0x60, 0x20, 0x20, 0x70, 0xF0, 0x10, 0xF0, 0x80, 0xF0,
    0xF0, 0x10, 0xF0, 0x10, 0xF0, 0x90, 0x90, 0xF0, 0x10, 0x10, 0xF0, 0x80, 0xF0, 0x10, 0xF0,
    0xF0, 0x80, 0xF0, 0x90, 0xF0, 0xF0, 0x10, 0x20, 0x40, 0x40, 0xF0, 0x90, 0xF0, 0x90, 0xF0,
    0xF0, 0x90, 0xF0, 0x10, 0xF0, 0xF0, 0x90, 0xF0, 0x90, 0x90, 0xE0, 0x90, 0xE0, 0x90, 0xE0,
    0xF0, 0x80, 0x80, 0x80, 0xF0, 0xE0, 0x90, 0x90, 0x90, 0xE0, 0xF0, 0x80, 0xF0, 0x80, 0xF0,
    0xF0, 0x80, 0xF0, 0x80, 0x80,
];

#[test]
fn new_machine_has_font_and_clean_state() {
    let c = Chip8::new();
    assert_eq!(c.program_counter, 0x200);
    assert_eq!(c.i_reg, 0);
    assert_eq!(c.stack_pointer, 0);
    assert_eq!(c.delay_timer, 0);
    assert_eq!(c.sound_timer, 0);
    assert_eq!(c.mode, Mode::Running);
    for k in 0..80 {
        assert_eq!(c.memory[k], FONT[k]);
    }
    for k in 80..4096 {
        assert_eq!(c.memory[k], 0);
    }
    for k in 0..16 {
        assert_eq!(c.v_reg[k], 0);
        assert!(!c.keypad[k]);
        assert_eq!(c.stack[k], 0);
    }
    for j in 0..2048 {
        assert!(!c.pixel_grid()[j]);
    }
    assert!(!c.sound_active());
}

#[test]
fn reset_clears_every_cell_but_rewrites_font() {
    let mut c = Chip8::new();
    let program: Vec<u8> = vec![0x6A, 0x17, 0xA3, 0x00, 0x22, 0x08];
    c.load_program(&program).unwrap();
    c.step().unwrap();
    c.step().unwrap();
    c.step().unwrap();
    c.delay_timer = 9;
    c.sound_timer = 4;
    c.set_key(3, true);
    c.screen[77] = true;
    c.reset();
    assert_eq!(c.program_counter, 0x200);
    assert_eq!(c.i_reg, 0);
    assert_eq!(c.stack_pointer, 0);
    assert_eq!(c.delay_timer, 0);
    assert_eq!(c.sound_timer, 0);
    assert_eq!(c.mode, Mode::Running);
    for k in 0..80 {
        assert_eq!(c.memory[k], FONT[k]);
    }
    for k in 80..4096 {
        assert_eq!(c.memory[k], 0);
    }
    for k in 0..16 {
        assert_eq!(c.v_reg[k], 0);
        assert!(!c.keypad[k]);
        assert_eq!(c.stack[k], 0);
    }
    for j in 0..2048 {
        assert!(!c.pixel_grid()[j]);
    }
}

#[test]
fn load_program_writes_from_0x200() {
    let mut c = Chip8::new();
    let program: Vec<u8> = vec![0x12, 0x34, 0x56];
    assert_eq!(c.load_program(&program), Ok(()));
    assert_eq!(c.memory[0x200], 0x12);
    assert_eq!(c.memory[0x201], 0x34);
    assert_eq!(c.memory[0x202], 0x56);
    assert_eq!(c.memory[0x203], 0x00);
}

#[test]
fn load_program_of_maximal_size_fits() {
    let mut c = Chip8::new();
    let program: Vec<u8> = vec![0xAB; 4096 - 0x200];
    assert_eq!(c.load_program(&program), Ok(()));
    assert_eq!(c.memory[4095], 0xAB);
}

#[test]
fn load_program_too_large_fails_and_changes_nothing() {
    let mut c = Chip8::new();
    let program: Vec<u8> = vec![0xAB; 4096 - 0x200 + 1];
    assert_eq!(c.load_program(&program), Err(Chip8Error::ProgramTooLarge));
    for k in 0x200..4096 {
        assert_eq!(c.memory[k], 0);
    }
}

#[test]
fn timer_tick_decrements_but_stops_at_zero() {
    let mut c = Chip8::new();
    c.delay_timer = 2;
    c.sound_timer = 1;
    assert!(c.sound_active());
    c.timer_tick();
    assert_eq!(c.delay_timer, 1);
    assert_eq!(c.sound_timer, 0);
    assert!(!c.sound_active());
    c.timer_tick();
    assert_eq!(c.delay_timer, 0);
    assert_eq!(c.sound_timer, 0);
    c.timer_tick();
    assert_eq!(c.delay_timer, 0);
    assert_eq!(c.sound_timer, 0);
}

#[test]
fn push_and_pop_round_trip() {
    let mut c = Chip8::new();
    assert_eq!(c.push_to_stack(0x208), Ok(()));
    assert_eq!(c.push_to_stack(0x30A), Ok(()));
    assert_eq!(c.stack_pointer, 2);
    assert_eq!(c.pop_from_stack(), Ok(0x30A));
    assert_eq!(c.pop_from_stack(), Ok(0x208));
    assert_eq!(c.stack_pointer, 0);
}

#[test]
fn pop_on_empty_stack_underflows() {
    let mut c = Chip8::new();
    assert_eq!(c.pop_from_stack(), Err(Chip8Error::StackUnderflow));
    assert_eq!(c.stack_pointer, 0);
}

#[test]
fn push_on_full_stack_overflows() {
    let mut c = Chip8::new();
    for k in 0..16 {
        assert_eq!(c.push_to_stack(0x200 + k), Ok(()));
    }
    assert_eq!(c.push_to_stack(0x400), Err(Chip8Error::StackOverflow));
    assert_eq!(c.stack_pointer, 16);
    assert_eq!(c.stack[15], 0x20F);
}

#[test]
fn set_key_records_presses_and_releases() {
    let mut c = Chip8::new();
    c.set_key(5, true);
    assert!(c.keypad[5]);
    assert!(!c.keypad[4]);
    c.set_key(5, false);
    assert!(!c.keypad[5]);
}

#[test]
fn fetch_combines_big_endian_and_advances() {
    let mut c = Chip8::new();
    let program: Vec<u8> = vec![0x1A, 0xBC];
    c.load_program(&program).unwrap();
    assert_eq!(c.fetch_opcode(), Ok(0x1ABC));
    assert_eq!(c.program_counter, 0x202);
}

#[test]
fn fetch_at_end_of_memory_is_out_of_bounds() {
    let mut c = Chip8::new();
    c.program_counter = 4095;
    assert_eq!(c.fetch_opcode(), Err(Chip8Error::OutOfBounds));
    assert_eq!(c.program_counter, 4095);
    c.program_counter = 4096;
    assert_eq!(c.step(), Err(Chip8Error::OutOfBounds));
    assert_eq!(c.program_counter, 4096);
}
