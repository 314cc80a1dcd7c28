//! A CHIP-8 virtual machine: an 8-bit, 16-register computer with 4 KB of
//! memory, a 64x32 monochrome framebuffer and a 16-key pad.
//!
//! The crate covers the machine itself: the instruction decoder, which turns
//! a 16-bit word into one of the 36 operations, and the execution engine,
//! which applies an operation to the machine state. Loading programs,
//! presenting the framebuffer, emitting the tone and collecting key presses
//! are left to a driver around the library.

pub mod eval;
pub mod laws;
pub mod parser;
pub mod types;
