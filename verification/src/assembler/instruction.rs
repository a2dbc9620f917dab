//! The instruction model: one variant for each base format.

use vstd::prelude::*;

verus! {

/// One machine instruction, held as the fields of its format.
///
/// Registers are numbers `0..=31`; `opcode` and `funct7` have seven bits and
/// `funct3` three. An immediate is a signed number: of twelve bits in the
/// formats I, S and B, of twenty in U and J.
#[derive(Debug, Clone, Copy, PartialEq, Eq, Structural)]
pub enum Instruction {
    Itype { rd: u32, rs1: u32, imm: i32, opcode: u32, funct3: u32 },
    Rtype { rd: u32, rs1: u32, rs2: u32, opcode: u32, funct3: u32, funct7: u32 },
    Stype { rs1: u32, rs2: u32, imm: i32, opcode: u32, funct3: u32 },
    Btype { rs1: u32, rs2: u32, imm: i32, opcode: u32, funct3: u32 },
    Utype { rd: u32, imm: i32, opcode: u32 },
    Jtype { rd: u32, imm: i32, opcode: u32 },
}

/// Whether `r` numbers one of the thirty-two registers.
pub open spec fn is_register(r: u32) -> bool {
    r <= 31
}

/// Whether `imm` is a signed number of twelve bits.
pub open spec fn fits_12_bits(imm: int) -> bool {
    -2048 <= imm <= 2047
}

/// Whether `imm` is a signed number of twenty bits.
pub open spec fn fits_20_bits(imm: int) -> bool {
    -0x8_0000 <= imm <= 0x7_ffff
}

impl Instruction {
    /// Every field lies in the range that its width allows.
    pub open spec fn well_formed(self) -> bool {
        match self {
            Instruction::Itype { rd, rs1, imm, opcode, funct3 } => {
                &&& is_register(rd)
                &&& is_register(rs1)
                &&& fits_12_bits(imm as int)
                &&& opcode < 0x80
                &&& funct3 < 8
            },
            Instruction::Rtype { rd, rs1, rs2, opcode, funct3, funct7 } => {
                &&& is_register(rd)
                &&& is_register(rs1)
                &&& is_register(rs2)
                &&& opcode < 0x80
                &&& funct3 < 8
                &&& funct7 < 0x80
            },
            Instruction::Stype { rs1, rs2, imm, opcode, funct3 } => {
                &&& is_register(rs1)
                &&& is_register(rs2)
                &&& fits_12_bits(imm as int)
                &&& opcode < 0x80
                &&& funct3 < 8
            },
            Instruction::Btype { rs1, rs2, imm, opcode, funct3 } => {
                &&& is_register(rs1)
                &&& is_register(rs2)
                &&& fits_12_bits(imm as int)
                &&& opcode < 0x80
                &&& funct3 < 8
            },
            Instruction::Utype { rd, imm, opcode } => {
                &&& is_register(rd)
                &&& fits_20_bits(imm as int)
                &&& opcode < 0x80
            },
            Instruction::Jtype { rd, imm, opcode } => {
                &&& is_register(rd)
                &&& fits_20_bits(imm as int)
                &&& opcode < 0x80
            },
        }
    }
}

} // verus!
