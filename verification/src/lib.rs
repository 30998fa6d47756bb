//! Guest/host boundary of a 32-bit MIPS-style emulator: a segmented, lazily
//! growing word memory and the decoding rules of the system-call interface.

pub mod errors;
pub mod memory;
pub mod packed;
pub mod words;
pub mod strings;
pub mod input;
pub mod text;
pub mod bridge;
pub mod syscalls;
pub mod docs;
