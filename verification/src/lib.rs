//! A verified CHIP-8 interpreter core.
//!
//! The machine model (memory, registers, timers, keypad, framebuffer) and the
//! fetch-decode-execute cycle live here; window, audio and file handling are
//! left to the host program.

pub mod chip8;
pub mod decode;
pub mod machine;
pub mod screen;
