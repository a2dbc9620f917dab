//! Types shared by every stage of the assembler.

pub mod exception;
