//! The supported mnemonics, each with what it takes to build its
//! instruction.

use crate::assembler::strings::same_text;
use vstd::prelude::*;

verus! {

/// The opcode of the operations on a register and an immediate.
pub const OP_IMM: u32 = 0b0010011;

/// The opcode of the operations on two registers.
pub const OP: u32 = 0b0110011;

/// The opcode of the loads.
pub const LOAD: u32 = 0b0000011;

/// The opcode of the stores.
pub const STORE: u32 = 0b0100011;

/// The operands that a mnemonic asks for.
#[derive(Debug, Clone, Copy, PartialEq, Eq, Structural)]
pub enum OperandShape {
    /// `rd, rs1, imm`: the immediate is any number of twelve bits.
    Immediate,
    /// `rd, rs1, shamt`: the immediate is a shift amount `0..=31`.
    Shift,
    /// `rd, rs1, rs2`.
    Registers,
    /// `rd, imm(rs1)`.
    Load,
    /// `rs2, imm(rs1)`.
    Store,
}

/// What a mnemonic stands for: the shape of its operands and the constant
/// fields of its instruction. `funct7` is the field of that name for
/// `Registers`, the selector in bits 5 to 11 of the immediate for `Shift`,
/// and unused otherwise.
#[derive(Debug, Clone, Copy, PartialEq, Eq, Structural)]
pub struct Descriptor {
    pub shape: OperandShape,
    pub opcode: u32,
    pub funct3: u32,
    pub funct7: u32,
}

impl Descriptor {
    /// The constant fields fit their widths, and a shift selector leaves
    /// the immediate within twelve bits.
    pub open spec fn well_formed(self) -> bool {
        &&& self.opcode < 0x80
        &&& self.funct3 < 8
        &&& self.funct7 < 0x40
    }
}

/// The table of mnemonics: what `mnemonic` stands for, or `None` where it
/// is not supported. Mnemonics are written in small letters.
pub open spec fn descriptor_of(mnemonic: Seq<char>) -> Option<Descriptor> {
    if mnemonic == "addi"@ {
        Some(Descriptor { shape: OperandShape::Immediate, opcode: OP_IMM, funct3: 0, funct7: 0 })
    } else if mnemonic == "slti"@ {
        Some(Descriptor { shape: OperandShape::Immediate, opcode: OP_IMM, funct3: 2, funct7: 0 })
    } else if mnemonic == "sltiu"@ {
        Some(Descriptor { shape: OperandShape::Immediate, opcode: OP_IMM, funct3: 3, funct7: 0 })
    } else if mnemonic == "xori"@ {
        Some(Descriptor { shape: OperandShape::Immediate, opcode: OP_IMM, funct3: 4, funct7: 0 })
    } else if mnemonic == "ori"@ {
        Some(Descriptor { shape: OperandShape::Immediate, opcode: OP_IMM, funct3: 6, funct7: 0 })
    } else if mnemonic == "andi"@ {
        Some(Descriptor { shape: OperandShape::Immediate, opcode: OP_IMM, funct3: 7, funct7: 0 })
    } else if mnemonic == "slli"@ {
        Some(Descriptor { shape: OperandShape::Shift, opcode: OP_IMM, funct3: 1, funct7: 0 })
    } else if mnemonic == "srli"@ {
        Some(Descriptor { shape: OperandShape::Shift, opcode: OP_IMM, funct3: 5, funct7: 0 })
    } else if mnemonic == "srai"@ {
        Some(Descriptor { shape: OperandShape::Shift, opcode: OP_IMM, funct3: 5, funct7: 0x20 })
    } else if mnemonic == "add"@ {
        Some(Descriptor { shape: OperandShape::Registers, opcode: OP, funct3: 0, funct7: 0 })
    } else if mnemonic == "sub"@ {
        Some(Descriptor { shape: OperandShape::Registers, opcode: OP, funct3: 0, funct7: 0x20 })
    } else if mnemonic == "sll"@ {
        Some(Descriptor { shape: OperandShape::Registers, opcode: OP, funct3: 1, funct7: 0 })
    } else if mnemonic == "srl"@ {
        Some(Descriptor { shape: OperandShape::Registers, opcode: OP, funct3: 5, funct7: 0 })
    } else if mnemonic == "sra"@ {
        Some(Descriptor { shape: OperandShape::Registers, opcode: OP, funct3: 5, funct7: 0x20 })
    } else if mnemonic == "slt"@ {
        Some(Descriptor { shape: OperandShape::Registers, opcode: OP, funct3: 2, funct7: 0 })
    } else if mnemonic == "sltu"@ {
        Some(Descriptor { shape: OperandShape::Registers, opcode: OP, funct3: 3, funct7: 0 })
    } else if mnemonic == "xor"@ {
        Some(Descriptor { shape: OperandShape::Registers, opcode: OP, funct3: 4, funct7: 0 })
    } else if mnemonic == "or"@ {
        Some(Descriptor { shape: OperandShape::Registers, opcode: OP, funct3: 6, funct7: 0 })
    } else if mnemonic == "and"@ {
        Some(Descriptor { shape: OperandShape::Registers, opcode: OP, funct3: 7, funct7: 0 })
    } else if mnemonic == "lb"@ {
        Some(Descriptor { shape: OperandShape::Load, opcode: LOAD, funct3: 0, funct7: 0 })
    } else if mnemonic == "lh"@ {
        Some(Descriptor { shape: OperandShape::Load, opcode: LOAD, funct3: 1, funct7: 0 })
    } else if mnemonic == "lw"@ {
        Some(Descriptor { shape: OperandShape::Load, opcode: LOAD, funct3: 2, funct7: 0 })
    } else if mnemonic == "lbu"@ {
        Some(Descriptor { shape: OperandShape::Load, opcode: LOAD, funct3: 4, funct7: 0 })
    } else if mnemonic == "lhu"@ {
        Some(Descriptor { shape: OperandShape::Load, opcode: LOAD, funct3: 5, funct7: 0 })
    } else if mnemonic == "sb"@ {
        Some(Descriptor { shape: OperandShape::Store, opcode: STORE, funct3: 0, funct7: 0 })
    } else if mnemonic == "sh"@ {
        Some(Descriptor { shape: OperandShape::Store, opcode: STORE, funct3: 1, funct7: 0 })
    } else if mnemonic == "sw"@ {
        Some(Descriptor { shape: OperandShape::Store, opcode: STORE, funct3: 2, funct7: 0 })
    } else {
        None
    }
}

/// Every entry of the table is well formed.
pub proof fn lemma_descriptors_well_formed(mnemonic: Seq<char>)
    ensures
        (match descriptor_of(mnemonic) {
            Some(d) => d.well_formed(),
            None => true,
        }),
{
}

/// Looks `mnemonic` up in the table.
pub fn lookup_mnemonic(mnemonic: &[char]) -> (found: Option<Descriptor>)
    ensures
        found == descriptor_of(mnemonic@),
{
    if same_text(mnemonic, "addi") {
        Some(Descriptor { shape: OperandShape::Immediate, opcode: OP_IMM, funct3: 0, funct7: 0 })
    } else if same_text(mnemonic, "slti") {
        Some(Descriptor { shape: OperandShape::Immediate, opcode: OP_IMM, funct3: 2, funct7: 0 })
    } else if same_text(mnemonic, "sltiu") {
        Some(Descriptor { shape: OperandShape::Immediate, opcode: OP_IMM, funct3: 3, funct7: 0 })
    } else if same_text(mnemonic, "xori") {
        Some(Descriptor { shape: OperandShape::Immediate, opcode: OP_IMM, funct3: 4, funct7: 0 })
    } else if same_text(mnemonic, "ori") {
        Some(Descriptor { shape: OperandShape::Immediate, opcode: OP_IMM, funct3: 6, funct7: 0 })
    } else if same_text(mnemonic, "andi") {
        Some(Descriptor { shape: OperandShape::Immediate, opcode: OP_IMM, funct3: 7, funct7: 0 })
    } else if same_text(mnemonic, "slli") {
        Some(Descriptor { shape: OperandShape::Shift, opcode: OP_IMM, funct3: 1, funct7: 0 })
    } else if same_text(mnemonic, "srli") {
        Some(Descriptor { shape: OperandShape::Shift, opcode: OP_IMM, funct3: 5, funct7: 0 })
    } else if same_text(mnemonic, "srai") {
        Some(Descriptor { shape: OperandShape::Shift, opcode: OP_IMM, funct3: 5, funct7: 0x20 })
    } else if same_text(mnemonic, "add") {
        Some(Descriptor { shape: OperandShape::Registers, opcode: OP, funct3: 0, funct7: 0 })
    } else if same_text(mnemonic, "sub") {
        Some(Descriptor { shape: OperandShape::Registers, opcode: OP, funct3: 0, funct7: 0x20 })
    } else if same_text(mnemonic, "sll") {
        Some(Descriptor { shape: OperandShape::Registers, opcode: OP, funct3: 1, funct7: 0 })
    } else if same_text(mnemonic, "srl") {
        Some(Descriptor { shape: OperandShape::Registers, opcode: OP, funct3: 5, funct7: 0 })
    } else if same_text(mnemonic, "sra") {
        Some(Descriptor { shape: OperandShape::Registers, opcode: OP, funct3: 5, funct7: 0x20 })
    } else if same_text(mnemonic, "slt") {
        Some(Descriptor { shape: OperandShape::Registers, opcode: OP, funct3: 2, funct7: 0 })
    } else if same_text(mnemonic, "sltu") {
        Some(Descriptor { shape: OperandShape::Registers, opcode: OP, funct3: 3, funct7: 0 })
    } else if same_text(mnemonic, "xor") {
        Some(Descriptor { shape: OperandShape::Registers, opcode: OP, funct3: 4, funct7: 0 })
    } else if same_text(mnemonic, "or") {
        Some(Descriptor { shape: OperandShape::Registers, opcode: OP, funct3: 6, funct7: 0 })
    } else if same_text(mnemonic, "and") {
        Some(Descriptor { shape: OperandShape::Registers, opcode: OP, funct3: 7, funct7: 0 })
    } else if same_text(mnemonic, "lb") {
        Some(Descriptor { shape: OperandShape::Load, opcode: LOAD, funct3: 0, funct7: 0 })
    } else if same_text(mnemonic, "lh") {
        Some(Descriptor { shape: OperandShape::Load, opcode: LOAD, funct3: 1, funct7: 0 })
    } else if same_text(mnemonic, "lw") {
        Some(Descriptor { shape: OperandShape::Load, opcode: LOAD, funct3: 2, funct7: 0 })
    } else if same_text(mnemonic, "lbu") {
        Some(Descriptor { shape: OperandShape::Load, opcode: LOAD, funct3: 4, funct7: 0 })
    } else if same_text(mnemonic, "lhu") {
        Some(Descriptor { shape: OperandShape::Load, opcode: LOAD, funct3: 5, funct7: 0 })
    } else if same_text(mnemonic, "sb") {
        Some(Descriptor { shape: OperandShape::Store, opcode: STORE, funct3: 0, funct7: 0 })
    } else if same_text(mnemonic, "sh") {
        Some(Descriptor { shape: OperandShape::Store, opcode: STORE, funct3: 1, funct7: 0 })
    } else if same_text(mnemonic, "sw") {
        Some(Descriptor { shape: OperandShape::Store, opcode: STORE, funct3: 2, funct7: 0 })
    } else {
        None
    }
}

} // verus!
