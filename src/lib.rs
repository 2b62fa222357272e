//! Statistics and toolchain inference over a decoded WebAssembly module.
//!
//! The module is described as plain values (see `module`); the library walks
//! it once, tallies instruction categories and proposal usage, resolves the
//! function and global index spaces, and guesses which toolchain produced it.

pub mod opcode;
pub mod classify;
pub mod module;
pub mod language;
pub mod stats;
