//! A two-pass assembler backend for an 8-bit CPU: statements are turned into
//! an intermediate representation of address-addressed blocks, symbolic label
//! references are resolved to concrete values, and the result is serialized
//! into a memory image together with an address-to-source map.

pub mod assembler;
pub mod ast;
pub mod decimal;
pub mod error;
pub mod ir;
pub mod isa;
pub mod src_tag;
pub mod src_unit;

pub use assembler::{Assembler, AssemblerOutput};
