//! A verified CHIP-8 virtual machine core: memory, registers, call stack,
//! timers, a monochrome framebuffer with XOR sprite blitting, a 16-key keypad,
//! and the fetch-decode-execute engine, each with a full functional contract.

pub mod cycle;
pub mod display;
pub mod instr;
pub mod keypad;
pub mod laws;
pub mod machine;

pub use cycle::CycleOutcome;
pub use instr::Instr;

pub use display::Display;
pub use keypad::Keypad;
pub use machine::Chip8;
pub use machine::Chip8Error;
