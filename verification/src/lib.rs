//! A code generator for a small stack machine. It decodes the textual form
//! of a program into instructions and writes them out as assembly text for
//! one of three backends: NASM for x86-64 on Linux or on macOS, and LLVM
//! assembly.
//!
//! The values of the stack live in registers. An instruction names no
//! operands: the depth of the stack at its place says which registers hold
//! them. Generation is one pass with that depth as its only state, and every
//! function of it is a function of its arguments alone.
//!
//! Everything runs on the calling thread, start to end. No state outlives a
//! call or is shared between calls, so there is nothing to synchronise.

pub mod decoder;
pub mod generator;
pub mod instruction;
pub mod target;
pub mod text;

pub use decoder::{decode, DecodeError, Dialect};
pub use generator::{generate, Compiler};
pub use instruction::Instruction;
pub use target::{GenerationError, Target};
