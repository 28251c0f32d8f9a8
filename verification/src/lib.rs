//! A verified CHIP-8 interpreter core: a byte-addressed memory bus and a
//! fetch-decode-execute engine over CPU state (sixteen 8-bit registers, a
//! program counter, a call stack, an index register, two timers, a 64x32
//! monochrome framebuffer and a 16-key matrix). The surrounding driver owns
//! all I/O and timing; the core is pure state-transition logic.

pub mod bus;
pub mod cpu;
pub mod laws;
pub mod model;
