//! A disassembler for a subset of the 16-bit 8086 instruction set.
//!
//! The decoder consumes a raw byte stream and produces a NASM-dialect
//! assembly listing: a `bits 16` header, one instruction per line, and
//! synthesized labels inserted before the instructions that conditional
//! jumps target.

pub mod constants;
pub mod decoder;
pub mod error;
pub mod laws;
pub mod model;
pub mod render;
