//! A minimal computing platform: a fixed-word instruction set shared by a
//! two-pass assembler and a virtual processor that executes the assembled
//! image.

pub mod bytes;
pub mod isa;
pub mod assembler;
pub mod vm;
