//! A two-pass assembler for a subset of the RV32I base instruction set.

pub mod assembler;
pub mod utils;
