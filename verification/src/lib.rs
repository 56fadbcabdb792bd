//! A verified interpreter for a simple 8-bit virtual machine: sixteen
//! registers, 4096 bytes of memory, a sixteen-slot call stack, two countdown
//! timers, a sixteen-key keypad and a 64 x 32 monochrome framebuffer, driven
//! by a fetch-decode-execute cycle over a fixed instruction set.
pub mod emulator;
pub mod rng;
pub mod utils;
