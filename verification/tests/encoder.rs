use risc_v_assembler::assembler::assembly;
use risc_v_assembler::assembler::encode;
use risc_v_assembler::assembler::instruction::Instruction;

const OP_IMM: u32 = 0b0010011;
const OP: u32 = 0b0110011;
const LOAD: u32 = 0b0000011;
const STORE: u32 = 0b0100011;
const BRANCH: u32 = 0b1100011;
const LUI: u32 = 0b0110111;
const AUIPC: u32 = 0b0010111;
const JAL: u32 = 0b1101111;

#[test]
fn addi_is_encoded_least_significant_byte_first() {
    let program = vec![Instruction::Itype { rd: 1, rs1: 2, imm: 5, opcode: OP_IMM, funct3: 0 }];
    assert_eq!(assembly(&program), vec![0x93, 0x00, 0x51, 0x00]);
}

#[test]
fn empty_program_has_empty_image() {
    assert_eq!(assembly(&Vec::new()), Vec::<u8>::new());
}

#[test]
fn words_follow_each_other_in_program_order() {
    let program = vec![
        Instruction::Itype { rd: 1, rs1: 2, imm: 5, opcode: OP_IMM, funct3: 0 },
        Instruction::Rtype { rd: 3, rs1: 4, rs2: 5, opcode: OP, funct3: 0, funct7: 0x20 },
        Instruction::Stype { rs1: 2, rs2: 3, imm: -4, opcode: STORE, funct3: 2 },
    ];
    assert_eq!(
        assembly(&program),
        vec![0x93, 0x00, 0x51, 0x00, 0xb3, 0x01, 0x52, 0x40, 0x23, 0x2e, 0x31, 0xfe]
    );
}

#[test]
fn itype_words() {
    let word = |rd, rs1, imm, opcode, funct3| {
        encode(&Instruction::Itype { rd, rs1, imm, opcode, funct3 })
    };
    assert_eq!(word(1, 2, 5, OP_IMM, 0), 0x0051_0093);
    assert_eq!(word(1, 2, -1, OP_IMM, 0), 0xfff1_0093);
    assert_eq!(word(31, 31, -2048, OP_IMM, 0), 0x800f_8f93);
    assert_eq!(word(7, 8, 2047, OP_IMM, 7), 0x7ff4_7393);
    assert_eq!(word(1, 2, 31, OP_IMM, 1), 0x01f1_1093);
    assert_eq!(word(5, 6, 0x400 | 7, OP_IMM, 5), 0x4073_5293);
    assert_eq!(word(1, 2, 4, LOAD, 2), 0x0041_2083);
    assert_eq!(word(10, 11, -3, LOAD, 4), 0xffd5_c503);
}

#[test]
fn rtype_words() {
    let word = |rd, rs1, rs2, funct3, funct7| {
        encode(&Instruction::Rtype { rd, rs1, rs2, opcode: OP, funct3, funct7 })
    };
    assert_eq!(word(3, 4, 5, 0, 0), 0x0052_01b3);
    assert_eq!(word(3, 4, 5, 0, 0x20), 0x4052_01b3);
    assert_eq!(word(31, 30, 29, 5, 0x20), 0x41df_5fb3);
    assert_eq!(word(0, 0, 0, 0, 0), 0x0000_0033);
    assert_eq!(word(31, 31, 31, 7, 0x7f), 0xffff_ffb3);
}

#[test]
fn stype_words() {
    let word = |rs1, rs2, imm, funct3| {
        encode(&Instruction::Stype { rs1, rs2, imm, opcode: STORE, funct3 })
    };
    assert_eq!(word(2, 3, -4, 2), 0xfe31_2e23);
    assert_eq!(word(0, 31, 2047, 0), 0x7ff0_0fa3);
    assert_eq!(word(31, 1, -2048, 1), 0x801f_9023);
}

#[test]
fn btype_words() {
    let word = |rs1, rs2, imm, funct3| {
        encode(&Instruction::Btype { rs1, rs2, imm, opcode: BRANCH, funct3 })
    };
    assert_eq!(word(1, 2, -4, 0), 0xfe20_8ee3);
    assert_eq!(word(3, 4, 2046, 1), 0x7e41_9f63);
    assert_eq!(word(5, 6, -2048, 4), 0x8062_c0e3);
    // bit 0 of the displacement has no place in the word
    assert_eq!(word(3, 4, 2047, 1), 0x7e41_9f63);
}

#[test]
fn utype_words() {
    let word = |rd, imm, opcode| encode(&Instruction::Utype { rd, imm, opcode });
    assert_eq!(word(5, 0x1234_5000, LUI), 0x1234_52b7);
    assert_eq!(word(1, -4096, LUI), 0xffff_f0b7);
    // the low twelve bits of the immediate have no place in the word
    assert_eq!(word(1, 0x7_ffff, AUIPC), 0x0007_f097);
}

#[test]
fn jtype_words() {
    let word = |rd, imm| encode(&Instruction::Jtype { rd, imm, opcode: JAL });
    assert_eq!(word(1, 2048), 0x0010_00ef);
    assert_eq!(word(1, -2), 0xffff_f0ef);
    assert_eq!(word(0, 0x7_fffe), 0x7ff7_f06f);
    assert_eq!(word(0, -0x8_0000), 0x8008_006f);
}

#[test]
fn a_field_wider_than_its_place_gives_its_low_bits() {
    let wide = Instruction::Rtype { rd: 32 + 3, rs1: 64 + 4, rs2: 128 + 5, opcode: 0x80 + OP, funct3: 8, funct7: 0x80 };
    assert_eq!(encode(&wide), 0x0052_01b3);
}

#[test]
fn image_has_four_bytes_for_each_instruction() {
    let mut program = Vec::new();
    for k in 0..100u32 {
        program.push(Instruction::Itype { rd: k % 32, rs1: 0, imm: k as i32, opcode: OP_IMM, funct3: 0 });
    }
    let image = assembly(&program);
    assert_eq!(image.len(), 400);
    for (k, ins) in program.iter().enumerate() {
        assert_eq!(&image[4 * k..4 * k + 4], &encode(ins).to_le_bytes());
    }
}
