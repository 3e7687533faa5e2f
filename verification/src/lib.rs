//! A verified interpreter core for the CHIP-8 virtual machine.
//!
//! The machine state (memory, registers, call stack, timers, key vector and
//! pixel grid) lives in [`machine::Chip8`]; the fetch/decode/execute cycle and
//! the exact semantics of every opcode are stated by the specification
//! functions in [`interp`] and proved of the executable code.  General
//! properties of the instruction set (skip behaviour, call/return round trips,
//! arithmetic flags, sprite drawing, error isolation) are proved in [`laws`].

pub mod font;
pub mod interp;
pub mod laws;
pub mod machine;

pub use machine::Chip8;
pub use machine::Chip8Error;
pub use machine::Chip8View;
pub use machine::Mode;
