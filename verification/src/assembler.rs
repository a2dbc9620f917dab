//! The assembler proper: from source text to machine code.
//!
//! This module holds the last stage, the encoder. It packs the fields of an
//! instruction into a word of 32 bits, format by format, and writes the
//! words out with the least significant byte first.

pub mod instruction;
pub mod mnemonic;
pub mod number;
pub mod parser;
pub mod program;
pub mod strings;
pub mod symbols;
pub mod text;

use self::instruction::Instruction;
use vstd::prelude::*;

verus! {

/// The field of `x` that starts at the bit worth `unit` and spans `span`
/// values, `x` read in two's complement. Both are powers of two: bits 5 to
/// 11, for one, are `field_bits(x, 0x20, 0x80)`.
pub open spec fn field_bits(x: int, unit: int, span: int) -> int {
    (x / unit) % span
}

/// The word that encodes `ins`. Each line below is one field, from the most
/// significant bits down: the bits taken from the instruction, times the
/// place they take in the word.
pub open spec fn word_of(ins: Instruction) -> int {
    match ins {
        // imm[11:0] | rs1 | funct3 | rd | opcode
        Instruction::Itype { rd, rs1, imm, opcode, funct3 } => {
            field_bits(imm as int, 1, 0x1000) * 0x10_0000
                + field_bits(rs1 as int, 1, 0x20) * 0x8000
                + field_bits(funct3 as int, 1, 8) * 0x1000
                + field_bits(rd as int, 1, 0x20) * 0x80
                + field_bits(opcode as int, 1, 0x80)
        },
        // funct7 | rs2 | rs1 | funct3 | rd | opcode
        Instruction::Rtype { rd, rs1, rs2, opcode, funct3, funct7 } => {
            field_bits(funct7 as int, 1, 0x80) * 0x200_0000
                + field_bits(rs2 as int, 1, 0x20) * 0x10_0000
                + field_bits(rs1 as int, 1, 0x20) * 0x8000
                + field_bits(funct3 as int, 1, 8) * 0x1000
                + field_bits(rd as int, 1, 0x20) * 0x80
                + field_bits(opcode as int, 1, 0x80)
        },
        // imm[11:5] | rs2 | rs1 | funct3 | imm[4:0] | opcode
        Instruction::Stype { rs1, rs2, imm, opcode, funct3 } => {
            field_bits(imm as int, 0x20, 0x80) * 0x200_0000
                + field_bits(rs2 as int, 1, 0x20) * 0x10_0000
                + field_bits(rs1 as int, 1, 0x20) * 0x8000
                + field_bits(funct3 as int, 1, 8) * 0x1000
                + field_bits(imm as int, 1, 0x20) * 0x80
                + field_bits(opcode as int, 1, 0x80)
        },
        // imm[12] | imm[10:5] | rs2 | rs1 | funct3 | imm[4:1] | imm[11] | opcode
        Instruction::Btype { rs1, rs2, imm, opcode, funct3 } => {
            field_bits(imm as int, 0x1000, 2) * 0x8000_0000
                + field_bits(imm as int, 0x20, 0x40) * 0x200_0000
                + field_bits(rs2 as int, 1, 0x20) * 0x10_0000
                + field_bits(rs1 as int, 1, 0x20) * 0x8000
                + field_bits(funct3 as int, 1, 8) * 0x1000
                + field_bits(imm as int, 2, 0x10) * 0x100
                + field_bits(imm as int, 0x800, 2) * 0x80
                + field_bits(opcode as int, 1, 0x80)
        },
        // imm[31:12] | rd | opcode
        Instruction::Utype { rd, imm, opcode } => {
            field_bits(imm as int, 0x1000, 0x10_0000) * 0x1000
                + field_bits(rd as int, 1, 0x20) * 0x80
                + field_bits(opcode as int, 1, 0x80)
        },
        // imm[20] | imm[10:1] | imm[11] | imm[19:12] | rd | opcode
        Instruction::Jtype { rd, imm, opcode } => {
            field_bits(imm as int, 0x10_0000, 2) * 0x8000_0000
                + field_bits(imm as int, 2, 0x400) * 0x20_0000
                + field_bits(imm as int, 0x800, 2) * 0x10_0000
                + field_bits(imm as int, 0x1000, 0x100) * 0x1000
                + field_bits(rd as int, 1, 0x20) * 0x80
                + field_bits(opcode as int, 1, 0x80)
        },
    }
}

/// Byte `k` of the word `w`, the least significant being byte 0.
pub open spec fn le_byte(w: int, k: int) -> u8 {
    if k == 0 {
        (w % 0x100) as u8
    } else if k == 1 {
        (w / 0x100 % 0x100) as u8
    } else if k == 2 {
        (w / 0x1_0000 % 0x100) as u8
    } else {
        (w / 0x100_0000 % 0x100) as u8
    }
}

/// The image of a program: four bytes for each instruction, in order, each
/// word with its least significant byte first.
pub open spec fn image_of(program: Seq<Instruction>) -> Seq<u8> {
    Seq::new(4 * program.len(), |i: int| le_byte(word_of(program[i / 4]), i % 4))
}

/// The twelve bits that stand for a signed number of twelve bits, as a
/// number `0..=4095`.
pub open spec fn twelve_bits_of(imm: int) -> int {
    if imm < 0 {
        imm + 0x1000
    } else {
        imm
    }
}

/// On a well-formed instruction no field loses a bit: every register and
/// function code goes into the word as it is, and the immediate of the
/// formats I and S with all its twelve bits. The word fits 32 bits.
pub proof fn lemma_word_of_well_formed(ins: Instruction)
    requires
        ins.well_formed(),
    ensures
        0 <= word_of(ins) <= 0xffff_ffff,
        (match ins {
            Instruction::Itype { rd, rs1, imm, opcode, funct3 } => {
                word_of(ins) == twelve_bits_of(imm as int) * 0x10_0000 + rs1 * 0x8000 + funct3
                    * 0x1000 + rd * 0x80 + opcode
            },
            Instruction::Rtype { rd, rs1, rs2, opcode, funct3, funct7 } => {
                word_of(ins) == funct7 * 0x200_0000 + rs2 * 0x10_0000 + rs1 * 0x8000 + funct3
                    * 0x1000 + rd * 0x80 + opcode
            },
            Instruction::Stype { rs1, rs2, imm, opcode, funct3 } => {
                word_of(ins) == (twelve_bits_of(imm as int) / 0x20) * 0x200_0000 + rs2
                    * 0x10_0000 + rs1 * 0x8000 + funct3 * 0x1000 + (twelve_bits_of(imm as int)
                    % 0x20) * 0x80 + opcode
            },
            _ => true,
        }),
{
}

/// Format I: the fields joined by shifts are the fields added at their
/// places.
proof fn lemma_pack_i(imm: u32, rs1: u32, funct3: u32, rd: u32, opcode: u32)
    by (bit_vector)
    ensures
        ((imm & 0xfff) << 20) | ((rs1 & 0x1f) << 15) | ((funct3 & 7) << 12) | ((rd & 0x1f) << 7) | (
        opcode & 0x7f) == (imm % 0x1000) * 0x10_0000 + (rs1 % 0x20) * 0x8000 + (funct3 % 8)
            * 0x1000 + (rd % 0x20) * 0x80 + (opcode % 0x80),
{
}

/// Format R: the fields joined by shifts are the fields added at their
/// places.
proof fn lemma_pack_r(funct7: u32, rs2: u32, rs1: u32, funct3: u32, rd: u32, opcode: u32)
    by (bit_vector)
    ensures
        ((funct7 & 0x7f) << 25) | ((rs2 & 0x1f) << 20) | ((rs1 & 0x1f) << 15) | ((funct3 & 7)
            << 12) | ((rd & 0x1f) << 7) | (opcode & 0x7f) == (funct7 % 0x80) * 0x200_0000 + (rs2
            % 0x20) * 0x10_0000 + (rs1 % 0x20) * 0x8000 + (funct3 % 8) * 0x1000 + (rd % 0x20)
            * 0x80 + (opcode % 0x80),
{
}

/// Format S: the fields joined by shifts are the fields added at their
/// places.
proof fn lemma_pack_s(imm: u32, rs2: u32, rs1: u32, funct3: u32, opcode: u32)
    by (bit_vector)
    ensures
        ((imm & 0xfe0) << 20) | ((rs2 & 0x1f) << 20) | ((rs1 & 0x1f) << 15) | ((funct3 & 7) << 12)
            | ((imm & 0x1f) << 7) | (opcode & 0x7f) == ((imm / 0x20) % 0x80) * 0x200_0000 + (rs2
            % 0x20) * 0x10_0000 + (rs1 % 0x20) * 0x8000 + (funct3 % 8) * 0x1000 + (imm % 0x20)
            * 0x80 + (opcode % 0x80),
{
}

/// Format B: the fields joined by shifts are the fields added at their
/// places.
proof fn lemma_pack_b(imm: u32, rs2: u32, rs1: u32, funct3: u32, opcode: u32)
    by (bit_vector)
    ensures
        ((imm & 0x1000) << 19) | ((imm & 0x7e0) << 20) | ((rs2 & 0x1f) << 20) | ((rs1 & 0x1f)
            << 15) | ((funct3 & 7) << 12) | ((imm & 0x1e) << 7) | ((imm & 0x800) >> 4) | (opcode
            & 0x7f) == ((imm / 0x1000) % 2) * 0x8000_0000 + ((imm / 0x20) % 0x40) * 0x200_0000 + (
        rs2 % 0x20) * 0x10_0000 + (rs1 % 0x20) * 0x8000 + (funct3 % 8) * 0x1000 + ((imm / 2)
            % 0x10) * 0x100 + ((imm / 0x800) % 2) * 0x80 + (opcode % 0x80),
{
}

/// Format U: the fields joined by shifts are the fields added at their
/// places.
proof fn lemma_pack_u(imm: u32, rd: u32, opcode: u32)
    by (bit_vector)
    ensures
        (imm & 0xffff_f000) | ((rd & 0x1f) << 7) | (opcode & 0x7f) == ((imm / 0x1000)
            % 0x10_0000) * 0x1000 + (rd % 0x20) * 0x80 + (opcode % 0x80),
{
}

/// Format J: the fields joined by shifts are the fields added at their
/// places.
proof fn lemma_pack_j(imm: u32, rd: u32, opcode: u32)
    by (bit_vector)
    ensures
        ((imm & 0x10_0000) << 11) | ((imm & 0x7fe) << 20) | ((imm & 0x800) << 9) | (imm
            & 0xf_f000) | ((rd & 0x1f) << 7) | (opcode & 0x7f) == ((imm / 0x10_0000) % 2)
            * 0x8000_0000 + ((imm / 2) % 0x400) * 0x20_0000 + ((imm / 0x800) % 2) * 0x10_0000 + ((
        imm / 0x1000) % 0x100) * 0x1000 + (rd % 0x20) * 0x80 + (opcode % 0x80),
{
}

/// A signed word and the unsigned word of the same bits differ by two to
/// the power of 32 where the signed one is negative.
proof fn lemma_twos_complement(imm: i32)
    by (bit_vector)
    ensures
        imm >= 0 ==> imm as u32 == imm,
        imm < 0 ==> imm as u32 == imm + 0x1_0000_0000,
{
}

/// A field that lies within the low 32 bits is the same in a negative
/// number and in the unsigned word that stands for it.
proof fn lemma_imm_bits(imm: i32, unit: int, span: int, rest: int)
    requires
        unit > 0,
        span > 0,
        unit * span * rest == 0x1_0000_0000,
    ensures
        field_bits((imm as u32) as int, unit, span) == field_bits(imm as int, unit, span),
{
    lemma_twos_complement(imm);
    if imm < 0 {
        let x = imm as int;
        vstd::arithmetic::div_mod::lemma_hoist_over_denominator(x, span * rest, unit as nat);
        assert(span * rest * unit == 0x1_0000_0000) by (nonlinear_arith)
            requires
                unit * span * rest == 0x1_0000_0000,
        ;
        vstd::arithmetic::div_mod::lemma_mod_multiples_vanish(rest, x / unit, span);
    }
}

/// The bytes of a word, cut out by shifts, are its digits in base 256.
proof fn lemma_bytes(w: u32)
    by (bit_vector)
    ensures
        w & 0xff == w % 0x100,
        (w >> 8) & 0xff == w / 0x100 % 0x100,
        (w >> 16) & 0xff == w / 0x1_0000 % 0x100,
        (w >> 24) & 0xff == w / 0x100_0000 % 0x100,
{
}

/// Packs one instruction into its word.
pub fn encode(ins: &Instruction) -> (word: u32)
    ensures
        word == word_of(*ins),
{
    match *ins {
        Instruction::Itype { rd, rs1, imm, opcode, funct3 } => {
            let bits: u32 = #[verifier::truncate] (imm as u32);
            proof {
                lemma_imm_bits(imm, 1, 0x1000, 0x10_0000);
                lemma_pack_i(bits, rs1, funct3, rd, opcode);
            }
            ((bits & 0xfff) << 20) | ((rs1 & 0x1f) << 15) | ((funct3 & 7) << 12) | ((rd & 0x1f)
                << 7) | (opcode & 0x7f)
        },
        Instruction::Rtype { rd, rs1, rs2, opcode, funct3, funct7 } => {
            proof {
                lemma_pack_r(funct7, rs2, rs1, funct3, rd, opcode);
            }
            ((funct7 & 0x7f) << 25) | ((rs2 & 0x1f) << 20) | ((rs1 & 0x1f) << 15) | ((funct3 & 7)
                << 12) | ((rd & 0x1f) << 7) | (opcode & 0x7f)
        },
        Instruction::Stype { rs1, rs2, imm, opcode, funct3 } => {
            let bits: u32 = #[verifier::truncate] (imm as u32);
            proof {
                lemma_imm_bits(imm, 0x20, 0x80, 0x10_0000);
                lemma_imm_bits(imm, 1, 0x20, 0x800_0000);
                lemma_pack_s(bits, rs2, rs1, funct3, opcode);
            }
            ((bits & 0xfe0) << 20) | ((rs2 & 0x1f) << 20) | ((rs1 & 0x1f) << 15) | ((funct3 & 7)
                << 12) | ((bits & 0x1f) << 7) | (opcode & 0x7f)
        },
        Instruction::Btype { rs1, rs2, imm, opcode, funct3 } => {
            let bits: u32 = #[verifier::truncate] (imm as u32);
            proof {
                lemma_imm_bits(imm, 0x1000, 2, 0x8_0000);
                lemma_imm_bits(imm, 0x20, 0x40, 0x20_0000);
                lemma_imm_bits(imm, 2, 0x10, 0x800_0000);
                lemma_imm_bits(imm, 0x800, 2, 0x10_0000);
                lemma_pack_b(bits, rs2, rs1, funct3, opcode);
            }
            ((bits & 0x1000) << 19) | ((bits & 0x7e0) << 20) | ((rs2 & 0x1f) << 20) | ((rs1
                & 0x1f) << 15) | ((funct3 & 7) << 12) | ((bits & 0x1e) << 7) | ((bits & 0x800)
                >> 4) | (opcode & 0x7f)
        },
        Instruction::Utype { rd, imm, opcode } => {
            let bits: u32 = #[verifier::truncate] (imm as u32);
            proof {
                lemma_imm_bits(imm, 0x1000, 0x10_0000, 1);
                lemma_pack_u(bits, rd, opcode);
            }
            (bits & 0xffff_f000) | ((rd & 0x1f) << 7) | (opcode & 0x7f)
        },
        Instruction::Jtype { rd, imm, opcode } => {
            let bits: u32 = #[verifier::truncate] (imm as u32);
            proof {
                lemma_imm_bits(imm, 0x10_0000, 2, 0x800);
                lemma_imm_bits(imm, 2, 0x400, 0x20_0000);
                lemma_imm_bits(imm, 0x800, 2, 0x10_0000);
                lemma_imm_bits(imm, 0x1000, 0x100, 0x1000);
                lemma_pack_j(bits, rd, opcode);
            }
            ((bits & 0x10_0000) << 11) | ((bits & 0x7fe) << 20) | ((bits & 0x800) << 9) | (bits
                & 0xf_f000) | ((rd & 0x1f) << 7) | (opcode & 0x7f)
        },
    }
}

/// Turns a program into its image: each instruction becomes the four bytes
/// of its word, least significant byte first, and the words follow each
/// other in the order of the program.
pub fn assembly(instructions: &Vec<Instruction>) -> (binary_contents: Vec<u8>)
    ensures
        binary_contents@ == image_of(instructions@),
{
    let mut binary_contents: Vec<u8> = Vec::new();
    let n: usize = instructions.len();
    let mut i: usize = 0;
    while i < n
        invariant
            n == instructions@.len(),
            i <= n,
            binary_contents@.len() == 4 * i,
            forall|j: int|
                0 <= j < 4 * i ==> #[trigger] binary_contents@[j] == le_byte(
                    word_of(instructions@[j / 4]),
                    j % 4,
                ),
        decreases n - i,
    {
        let word: u32 = encode(&instructions[i]);
        proof {
            lemma_bytes(word);
        }
        binary_contents.push((word & 0xff) as u8);
        binary_contents.push(((word >> 8) & 0xff) as u8);
        binary_contents.push(((word >> 16) & 0xff) as u8);
        binary_contents.push(((word >> 24) & 0xff) as u8);
        i += 1;
    }
    proof {
        assert(binary_contents@ =~= image_of(instructions@));
    }
    binary_contents
}

} // verus!
