//! A virtual-machine core for an 8-bit fantasy computer: 16 registers,
//! 4KB of memory, a 16-level call stack, a 64x32 monochrome framebuffer,
//! a 16-key input device and two countdown timers. The host loads a program
//! image, then drives the machine one instruction at a time, feeding key
//! state and consuming the framebuffer.

pub mod laws;
pub mod machine;
pub mod opcodes;
mod rng;
pub mod semantics;

pub use machine::Chip8;
pub use opcodes::Opcode;
pub use semantics::Chip8Error;
