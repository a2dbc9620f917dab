//! The parser: from a line of source text to a label or an instruction.
//!
//! Each reader of a token is specified by a spec function of the same
//! meaning on character sequences, which says for every text whether it is
//! accepted, with what value, and with which error it is turned down.

use crate::assembler::instruction::fits_12_bits;
use crate::assembler::instruction::Instruction;
use crate::assembler::mnemonic::descriptor_of;
use crate::assembler::mnemonic::lemma_descriptors_well_formed;
use crate::assembler::mnemonic::lookup_mnemonic;
use crate::assembler::mnemonic::Descriptor;
use crate::assembler::mnemonic::OperandShape;
use crate::assembler::number::all_digits;
use crate::assembler::number::clamped;
use crate::assembler::number::decimal_digits;
use crate::assembler::number::decimal_text;
use crate::assembler::number::digit_value;
use crate::assembler::number::digits_value;
use crate::assembler::number::lemma_decimal_digits;
use crate::assembler::number::lemma_padded_digits;
use crate::assembler::number::lemma_sign_extend_by_shifts;
use crate::assembler::number::padded_digits;
use crate::assembler::number::power;
use crate::assembler::number::lemma_unsigned_value_bounds;
use crate::assembler::number::parse_signed;
use crate::assembler::number::parse_unsigned;
use crate::assembler::number::sign_extend_12;
use crate::assembler::number::signed_value;
use crate::assembler::number::unsigned_value;
use crate::assembler::strings::chars_of;
use crate::assembler::strings::lowercase;
use crate::assembler::strings::lowercase_of;
use crate::assembler::strings::string_of;
use crate::assembler::symbols::SymbolTable;
use crate::assembler::text::after_first;
use crate::assembler::text::before_first;
use crate::assembler::text::contains_blank;
use crate::assembler::text::field;
use crate::assembler::text::find;
use crate::assembler::text::has_char;
use crate::assembler::text::has_whitespace;
use crate::assembler::text::is_whitespace;
use crate::assembler::text::lemma_trimmed_fixed;
use crate::assembler::text::lemma_strip_trailing_keeps_head;
use crate::assembler::text::lemma_trimmed_keeps_head;
use crate::assembler::text::nth_field;
use crate::assembler::text::strip_trailing;
use crate::assembler::text::trim;
use crate::assembler::text::trim_end;
use crate::assembler::text::trim_end_matches;
use crate::assembler::text::trimmed;
use crate::utils::exception::AsmRiscVError;
use vstd::prelude::*;
use vstd::slice::slice_subrange;

verus! {

/// The text of a token, where there is a token.
pub open spec fn token_text(token: Option<&str>) -> Option<Seq<char>> {
    match token {
        Some(text) => Some(text@),
        None => None,
    }
}

/// The register that a register index names: the index is an unsigned
/// decimal literal, and its value at most 31.
pub open spec fn register_index(index: Seq<char>) -> Result<u32, AsmRiscVError> {
    match unsigned_value(index, 10) {
        None => Err(AsmRiscVError::SyntaxError),
        Some(v) => if v > 31 {
            Err(AsmRiscVError::NotExistRegister)
        } else {
            Ok(v as u32)
        },
    }
}

/// The register that a token names: blanks aside, the token is an `x` and
/// a register index.
pub open spec fn register_of(token: Option<Seq<char>>) -> Result<u32, AsmRiscVError> {
    match token {
        None => Err(AsmRiscVError::SyntaxError),
        Some(text) => {
            let name = trimmed(text);
            if name.len() == 0 || name[0] != 'x' {
                Err(AsmRiscVError::SyntaxError)
            } else {
                register_index(name.drop_first())
            }
        },
    }
}

/// The base in which a literal is written: 16, 2 or 8 behind the prefix
/// `0x`, `0b` or `0o`, and 10 without one.
pub open spec fn literal_base(text: Seq<char>) -> int {
    if text.len() >= 2 && text[0] == '0' && text[1] == 'x' {
        16
    } else if text.len() >= 2 && text[0] == '0' && text[1] == 'b' {
        2
    } else if text.len() >= 2 && text[0] == '0' && text[1] == 'o' {
        8
    } else {
        10
    }
}

/// The number that a literal stands for. A decimal literal is signed and
/// stands for its value. Behind a prefix stands an unsigned literal that
/// fits 32 bits, and it stands for its low twelve bits read in two's
/// complement.
pub open spec fn literal_value(text: Seq<char>) -> Option<int> {
    let base = literal_base(text);
    if base == 10 {
        signed_value(text)
    } else {
        match unsigned_value(text.skip(2), base) {
            Some(raw) => if raw <= 0xffff_ffff {
                Some(sign_extend_12(raw))
            } else {
                None
            },
            None => None,
        }
    }
}

/// The immediate that a token gives: blanks aside, the token is a literal
/// whose number fits twelve bits, and where `with_funct` is set, a shift
/// amount `0..=31`.
pub open spec fn immediate_of(token: Option<Seq<char>>, with_funct: bool) -> Result<
    i32,
    AsmRiscVError,
> {
    match token {
        None => Err(AsmRiscVError::SyntaxError),
        Some(text) => match literal_value(trimmed(text)) {
            None => Err(AsmRiscVError::SyntaxError),
            Some(v) => if (with_funct && !(0 <= v <= 31)) || !fits_12_bits(v) {
                Err(AsmRiscVError::ImmediateOverflow)
            } else {
                Ok(v as i32)
            },
        },
    }
}

/// The offset and the base register of an operand `imm(rx)`. The operand
/// is cut at its first `(`. In front of it stands a signed decimal literal
/// that fits twelve bits. Behind it stand an `x`, a register index, and one
/// `)` or more. Blanks may stand around each part.
pub open spec fn base_offset_of(token: Option<Seq<char>>) -> Result<(i32, u32), AsmRiscVError> {
    match token {
        None => Err(AsmRiscVError::SyntaxError),
        Some(text) => {
            let operand = trimmed(text);
            let offset = trimmed(before_first(operand, '('));
            let base = trimmed(after_first(operand, '('));
            if !has_char(operand, '(') || base.len() == 0 || base[0] != 'x' || base.last() != ')' {
                Err(AsmRiscVError::SyntaxError)
            } else {
                match signed_value(offset) {
                    None => Err(AsmRiscVError::SyntaxError),
                    Some(v) => if !fits_12_bits(v) {
                        Err(AsmRiscVError::ImmediateOverflow)
                    } else {
                        match register_index(trimmed(strip_trailing(base, ')')).drop_first()) {
                            Err(e) => Err(e),
                            Ok(reg) => Ok((v as i32, reg)),
                        }
                    },
                }
            }
        },
    }
}

/// Whether `d` is a signed number of ten bits.
pub open spec fn fits_10_bits(d: int) -> bool {
    -512 <= d <= 511
}

/// The displacement that a token gives, counted in halfwords. A signed
/// decimal literal is the displacement itself. Any other text is the name
/// of a label: the displacement leads from the instruction at `ins_count`
/// to the one the label stands in front of, two halfwords for each
/// instruction between them.
pub open spec fn displacement_of(
    token: Option<Seq<char>>,
    table: Map<Seq<char>, nat>,
    ins_count: nat,
) -> Result<i32, AsmRiscVError> {
    match token {
        None => Err(AsmRiscVError::SyntaxError),
        Some(text) => {
            let name = trimmed(text);
            let d = match signed_value(name) {
                Some(v) => v,
                None => (table[name] - ins_count) * 2,
            };
            if signed_value(name).is_none() && !table.contains_key(name) {
                Err(AsmRiscVError::SyntaxError)
            } else if !fits_10_bits(d) {
                Err(AsmRiscVError::ImmediateOverflow)
            } else {
                Ok(d as i32)
            }
        },
    }
}

/// The instruction that a descriptor and an operand text give. The
/// operands are the pieces of the text between commas, read from the left;
/// the first that cannot be read decides the error, and pieces beyond those
/// that the shape asks for are not looked at.
pub open spec fn instruction_of(d: Descriptor, operands: Seq<char>) -> Result<
    Instruction,
    AsmRiscVError,
> {
    let first = field(operands, ',', 0);
    let second = field(operands, ',', 1);
    let third = field(operands, ',', 2);
    match d.shape {
        OperandShape::Immediate => match (
            register_of(first),
            register_of(second),
            immediate_of(third, false),
        ) {
            (Err(e), _, _) => Err(e),
            (Ok(_), Err(e), _) => Err(e),
            (Ok(_), Ok(_), Err(e)) => Err(e),
            (Ok(rd), Ok(rs1), Ok(imm)) => Ok(
                Instruction::Itype { rd, rs1, imm, opcode: d.opcode, funct3: d.funct3 },
            ),
        },
        OperandShape::Shift => match (
            register_of(first),
            register_of(second),
            immediate_of(third, true),
        ) {
            (Err(e), _, _) => Err(e),
            (Ok(_), Err(e), _) => Err(e),
            (Ok(_), Ok(_), Err(e)) => Err(e),
            (Ok(rd), Ok(rs1), Ok(shamt)) => Ok(
                Instruction::Itype {
                    rd,
                    rs1,
                    imm: (d.funct7 * 32 + shamt) as i32,
                    opcode: d.opcode,
                    funct3: d.funct3,
                },
            ),
        },
        OperandShape::Registers => match (
            register_of(first),
            register_of(second),
            register_of(third),
        ) {
            (Err(e), _, _) => Err(e),
            (Ok(_), Err(e), _) => Err(e),
            (Ok(_), Ok(_), Err(e)) => Err(e),
            (Ok(rd), Ok(rs1), Ok(rs2)) => Ok(
                Instruction::Rtype {
                    rd,
                    rs1,
                    rs2,
                    opcode: d.opcode,
                    funct3: d.funct3,
                    funct7: d.funct7,
                },
            ),
        },
        OperandShape::Load => match (register_of(first), base_offset_of(second)) {
            (Err(e), _) => Err(e),
            (Ok(_), Err(e)) => Err(e),
            (Ok(rd), Ok((imm, rs1))) => Ok(
                Instruction::Itype { rd, rs1, imm, opcode: d.opcode, funct3: d.funct3 },
            ),
        },
        OperandShape::Store => match (register_of(first), base_offset_of(second)) {
            (Err(e), _) => Err(e),
            (Ok(_), Err(e)) => Err(e),
            (Ok(rs2), Ok((imm, rs1))) => Ok(
                Instruction::Stype { rs1, rs2, imm, opcode: d.opcode, funct3: d.funct3 },
            ),
        },
    }
}

/// What is left of a line once a label in front of it is taken away: the
/// line itself where it holds no `:`, else what stands behind the first
/// `:`, without the blanks around it.
pub open spec fn statement_body(line: Seq<char>) -> Seq<char> {
    if has_char(line, ':') {
        trimmed(after_first(line, ':'))
    } else {
        line
    }
}

/// The instruction that a line in its normal form gives. A label with
/// nothing behind it gives none, which is no fault. The mnemonic is what
/// stands before the first space of the body, the operands are what stands
/// behind it.
pub open spec fn statement_of(line: Seq<char>) -> Result<Instruction, AsmRiscVError> {
    let body = statement_body(line);
    if has_char(line, ':') && body.len() == 0 {
        Err(AsmRiscVError::ParseEmptyLine)
    } else if !has_char(body, ' ') {
        Err(AsmRiscVError::SyntaxError)
    } else {
        match descriptor_of(before_first(body, ' ')) {
            None => Err(AsmRiscVError::NotImplementedInstruction),
            Some(d) => instruction_of(d, after_first(body, ' ')),
        }
    }
}

/// The normal form of a line: the comment that `#` starts is cut off, the
/// letters are folded to lower case, and the blanks at both ends are gone.
pub open spec fn normalized(line: Seq<char>) -> Seq<char> {
    trimmed(lowercase_of(before_first(line, '#')))
}

/// The instruction that a line of source text gives.
pub open spec fn line_instruction(line: Seq<char>) -> Result<Instruction, AsmRiscVError> {
    if normalized(line).len() == 0 {
        Err(AsmRiscVError::ParseEmptyLine)
    } else {
        statement_of(normalized(line))
    }
}

/// Whether `c` is one of the ten decimal digits.
pub open spec fn is_decimal_digit(c: char) -> bool {
    '0' <= c <= '9'
}

/// The label that a line in its normal form defines: what stands before
/// its first `:`, without the blanks around it. A line without `:` defines
/// none, which is no fault. A label is not empty, holds no blank and does
/// not start with a digit.
pub open spec fn label_of(line: Seq<char>) -> Result<Option<Seq<char>>, AsmRiscVError> {
    let label = trimmed(before_first(line, ':'));
    if !has_char(line, ':') {
        Ok(None)
    } else if label.len() == 0 || has_whitespace(label) || is_decimal_digit(label[0]) {
        Err(AsmRiscVError::SyntaxError)
    } else {
        Ok(Some(label))
    }
}

/// The table after the first pass has seen a line in its normal form. The
/// label of the line is bound to `index`; a label that the table holds
/// already is turned down. A line without a label leaves the table as it
/// is.
pub open spec fn with_label(table: Map<Seq<char>, nat>, line: Seq<char>, index: nat) -> Result<
    Map<Seq<char>, nat>,
    AsmRiscVError,
> {
    match label_of(line) {
        Err(e) => Err(e),
        Ok(None) => Ok(table),
        Ok(Some(label)) => if table.contains_key(label) {
            Err(AsmRiscVError::UsedLabel)
        } else {
            Ok(table.insert(label, index))
        },
    }
}

/// The table after the first pass has seen a line of source text. A line
/// of which nothing is left once comment and blanks are gone is an empty
/// line.
pub open spec fn line_with_label(
    table: Map<Seq<char>, nat>,
    line: Seq<char>,
    index: nat,
) -> Result<Map<Seq<char>, nat>, AsmRiscVError> {
    if normalized(line).len() == 0 {
        Err(AsmRiscVError::ParseEmptyLine)
    } else {
        with_label(table, normalized(line), index)
    }
}

/// The first pass over a line keeps a finite table finite, and gives up on
/// a line in its normal form for two reasons only: a malformed label, or
/// one that is defined already.
pub proof fn lemma_with_label(table: Map<Seq<char>, nat>, line: Seq<char>, index: nat)
    ensures
        (match with_label(table, line, index) {
            Ok(next) => table.dom().finite() ==> next.dom().finite(),
            Err(e) => e == AsmRiscVError::SyntaxError || e == AsmRiscVError::UsedLabel,
        }),
{
}

/// What the readers of operands accept lies in range: a register is at
/// most 31, an immediate fits twelve bits and a shift amount five.
pub proof fn lemma_operand_ranges(token: Option<Seq<char>>)
    ensures
        (match register_of(token) {
            Ok(reg) => reg <= 31,
            Err(_) => true,
        }),
        (match immediate_of(token, false) {
            Ok(imm) => fits_12_bits(imm as int),
            Err(_) => true,
        }),
        (match immediate_of(token, true) {
            Ok(shamt) => 0 <= shamt <= 31,
            Err(_) => true,
        }),
        (match base_offset_of(token) {
            Ok((imm, reg)) => fits_12_bits(imm as int) && reg <= 31,
            Err(_) => true,
        }),
{
    match token {
        Some(text) => {
            lemma_unsigned_value_bounds(trimmed(text).drop_first(), 10);
            let base = trimmed(after_first(trimmed(text), '('));
            lemma_unsigned_value_bounds(trimmed(strip_trailing(base, ')')).drop_first(), 10);
        },
        None => {},
    }
}

/// Trimming a text that starts with `x` leaves the `x` and trims the end
/// of what follows it.
proof fn lemma_trimmed_name(suffix: Seq<char>)
    ensures
        trimmed(seq!['x'] + suffix) == seq!['x'] + trim_end(suffix),
    decreases suffix.len(),
{
    let token = seq!['x'] + suffix;
    if suffix.len() > 0 && is_whitespace(suffix.last()) {
        assert(token.drop_last() == seq!['x'] + suffix.drop_last());
        lemma_trimmed_name(suffix.drop_last());
    } else if suffix.len() == 0 {
        assert(token == seq!['x']);
        assert(seq!['x'] + trim_end(suffix) == seq!['x']);
    }
}

/// Register tokens: `x` followed by the decimal digits of `r` names the
/// register `r` where `r` is at most 31, and is turned down with
/// `NotExistRegister` for every larger `r`.
pub proof fn lemma_register_token(r: nat)
    ensures
        register_of(Some(seq!['x'] + decimal_digits(r))) == (if r <= 31 {
            Ok::<u32, AsmRiscVError>(r as u32)
        } else {
            Err::<u32, AsmRiscVError>(AsmRiscVError::NotExistRegister)
        }),
{
    let digits = decimal_digits(r);
    let token = seq!['x'] + digits;
    lemma_decimal_digits(r);
    assert('0' <= digits.last() <= '9');
    assert(token.last() == digits.last());
    lemma_trimmed_fixed(token);
    assert(token.drop_first() == digits);
}

/// Register tokens: behind the `x` stands an unsigned decimal literal and
/// at most blanks after it. With any other suffix the token is turned down
/// with `SyntaxError`.
pub proof fn lemma_register_suffix(suffix: Seq<char>)
    ensures
        register_of(Some(seq!['x'] + suffix)) == register_index(trim_end(suffix)),
        unsigned_value(trim_end(suffix), 10).is_none() ==> register_of(Some(seq!['x'] + suffix))
            == Err::<u32, AsmRiscVError>(AsmRiscVError::SyntaxError),
{
    lemma_trimmed_name(suffix);
    assert((seq!['x'] + trim_end(suffix)).drop_first() == trim_end(suffix));
}

/// Decimal immediates: a number printed in decimal is read back unchanged
/// where it fits twelve bits, and is turned down with `ImmediateOverflow`
/// where it does not. As a shift amount it is read back unchanged within
/// `0..=31` and turned down outside.
pub proof fn lemma_decimal_immediate(n: int)
    ensures
        immediate_of(Some(decimal_text(n)), false) == (if -2048 <= n <= 2047 {
            Ok::<i32, AsmRiscVError>(n as i32)
        } else {
            Err::<i32, AsmRiscVError>(AsmRiscVError::ImmediateOverflow)
        }),
        immediate_of(Some(decimal_text(n)), true) == (if 0 <= n <= 31 {
            Ok::<i32, AsmRiscVError>(n as i32)
        } else {
            Err::<i32, AsmRiscVError>(AsmRiscVError::ImmediateOverflow)
        }),
{
    let text = decimal_text(n);
    if n < 0 {
        let digits = decimal_digits((-n) as nat);
        lemma_decimal_digits((-n) as nat);
        assert('0' <= digits.last() <= '9');
        assert(text.last() == digits.last());
        assert(text.drop_first() == digits);
    } else {
        let digits = decimal_digits(n as nat);
        lemma_decimal_digits(n as nat);
        assert('0' <= digits.last() <= '9');
        assert('0' <= digits[0] <= '9');
        if digits.len() >= 2 {
            assert('0' <= digits[1] <= '9');
        }
    }
    lemma_trimmed_fixed(text);
}

/// A literal behind a prefix, written with digits of its base only, stands
/// for the low twelve bits of what the digits spell.
proof fn lemma_prefixed_literal(letter: char, base: int, digits: Seq<char>)
    requires
        (letter == 'x' && base == 16) || (letter == 'b' && base == 2) || (letter == 'o' && base
            == 8),
        digits.len() > 0,
        all_digits(digits, base),
        0 <= digits_value(digits, base) <= 0xffff_ffff,
    ensures
        immediate_of(Some(seq!['0', letter] + digits), false) == Ok::<i32, AsmRiscVError>(
            sign_extend_12(digits_value(digits, base)) as i32,
        ),
{
    let token = seq!['0', letter] + digits;
    assert(digit_value(digits.last()) < base);
    assert(digit_value(digits[0]) < base);
    assert(token.last() == digits.last());
    lemma_trimmed_fixed(token);
    assert(token.skip(2) == digits);
}

/// Prefixed immediates: a value of twelve bits printed with the prefix
/// `0x` and three hexadecimal digits, with `0o` and four octal digits, or
/// with `0b` and twelve binary digits is read back as the value in two's
/// complement. That is the value shifted left by twenty bits and back right
/// with its sign: unchanged below 2048, and less 4096 from there on.
pub proof fn lemma_prefixed_immediate(v: nat)
    requires
        v <= 4095,
    ensures
        immediate_of(Some(seq!['0', 'x'] + padded_digits(v, 16, 3)), false) == Ok::<
            i32,
            AsmRiscVError,
        >(sign_extend_12(v as int) as i32),
        immediate_of(Some(seq!['0', 'o'] + padded_digits(v, 8, 4)), false) == Ok::<
            i32,
            AsmRiscVError,
        >(sign_extend_12(v as int) as i32),
        immediate_of(Some(seq!['0', 'b'] + padded_digits(v, 2, 12)), false) == Ok::<
            i32,
            AsmRiscVError,
        >(sign_extend_12(v as int) as i32),
        sign_extend_12(v as int) == ((v as i32) << 20) >> 20,
        sign_extend_12(v as int) == (if v >= 2048 {
            v - 4096
        } else {
            v as int
        }),
{
    lemma_sign_extend_by_shifts(v as i32);
    reveal_with_fuel(power, 13);
    assert(power(16, 3) == 4096);
    assert(power(8, 4) == 4096);
    assert(power(2, 12) == 4096);
    lemma_padded_digits(v, 16, 3);
    lemma_padded_digits(v, 8, 4);
    lemma_padded_digits(v, 2, 12);
    lemma_prefixed_literal('x', 16, padded_digits(v, 16, 3));
    lemma_prefixed_literal('o', 8, padded_digits(v, 8, 4));
    lemma_prefixed_literal('b', 2, padded_digits(v, 2, 12));
}

/// References to a label: wherever the reference stands, the displacement
/// that a label gives leads to the instruction the label stands in front
/// of. Two halfwords make one instruction.
pub proof fn lemma_reference_target(name: Seq<char>, table: Map<Seq<char>, nat>, ins_count: nat)
    requires
        signed_value(trimmed(name)).is_none(),
        displacement_of(Some(name), table, ins_count) is Ok,
    ensures
        table.contains_key(trimmed(name)),
        (match displacement_of(Some(name), table, ins_count) {
            Ok(d) => 2 * ins_count + d == 2 * table[trimmed(name)],
            Err(_) => false,
        }),
{
}

/// An instruction that the parser builds is well formed.
pub proof fn lemma_instruction_well_formed(d: Descriptor, operands: Seq<char>)
    requires
        d.well_formed(),
    ensures
        (match instruction_of(d, operands) {
            Ok(ins) => ins.well_formed(),
            Err(_) => true,
        }),
{
    lemma_operand_ranges(field(operands, ',', 0));
    lemma_operand_ranges(field(operands, ',', 1));
    lemma_operand_ranges(field(operands, ',', 2));
}

/// Whatever the line, an instruction that it gives is well formed, and the
/// parser never reports a function code as missing.
pub proof fn lemma_statement_well_formed(line: Seq<char>)
    ensures
        (match statement_of(line) {
            Ok(ins) => ins.well_formed(),
            Err(e) => e != AsmRiscVError::ParseFunctError,
        }),
{
    let body = statement_body(line);
    lemma_descriptors_well_formed(before_first(body, ' '));
    match descriptor_of(before_first(body, ' ')) {
        Some(d) => {
            lemma_instruction_well_formed(d, after_first(body, ' '));
        },
        None => {},
    }
}

/// Reads a register index: what stands behind the `x`.
fn read_register_index(index: &[char]) -> (reg: Result<u32, AsmRiscVError>)
    ensures
        reg == register_index(index@),
{
    proof {
        lemma_unsigned_value_bounds(index@, 10);
    }
    match parse_unsigned(index, 10, 32) {
        None => Err(AsmRiscVError::SyntaxError),
        Some(v) => if v > 31 {
            Err(AsmRiscVError::NotExistRegister)
        } else {
            Ok(v as u32)
        },
    }
}

/// Tells the base of a literal by its prefix.
fn read_base(text: &[char]) -> (base: u32)
    ensures
        base == literal_base(text@),
        base == 16 || base == 2 || base == 8 || base == 10,
{
    if text.len() >= 2 && text[0] == '0' {
        if text[1] == 'x' {
            16
        } else if text[1] == 'b' {
            2
        } else if text[1] == 'o' {
            8
        } else {
            10
        }
    } else {
        10
    }
}

/// Reads a literal. Its number is clamped to `-4096..=4096`, which tells
/// every number of twelve bits from those that are too large.
fn read_literal(text: &[char]) -> (value: Option<i64>)
    ensures
        value == (match literal_value(text@) {
            Some(v) => Some(clamped(v, -4096, 4096) as i64),
            None => None,
        }),
{
    let base: u32 = read_base(text);
    if base == 10 {
        parse_signed(text, 4096)
    } else {
        proof {
            assert(text@.skip(2) == text@.subrange(2, text@.len() as int));
            lemma_unsigned_value_bounds(text@.skip(2), base as int);
        }
        match parse_unsigned(slice_subrange(text, 2, text.len()), base, 0x1_0000_0000) {
            Some(raw) => if raw <= 0xffff_ffff {
                let low: u64 = raw % 4096;
                if low >= 2048 {
                    Some(low as i64 - 4096)
                } else {
                    Some(low as i64)
                }
            } else {
                None
            },
            None => None,
        }
    }
}

/// Hands out the `k`-th operand, as a string of its own.
fn operand(operands: &[char], k: usize) -> (token: Option<String>)
    ensures
        (match token {
            Some(text) => field(operands@, ',', k as nat) == Some(text@),
            None => field(operands@, ',', k as nat).is_none(),
        }),
{
    match nth_field(operands, ',', k) {
        Some(piece) => Some(string_of(piece)),
        None => None,
    }
}

/// Lends an operand to a reader of tokens.
fn as_token(text: &Option<String>) -> (token: Option<&str>)
    ensures
        (match text {
            Some(t) => token_text(token) == Some(t@),
            None => token_text(token).is_none(),
        }),
{
    match text {
        Some(t) => Some(t.as_str()),
        None => None,
    }
}

/// Reads the operands that the descriptor asks for and builds the
/// instruction.
fn read_operands(d: Descriptor, operands: &[char]) -> (ins: Result<Instruction, AsmRiscVError>)
    requires
        d.well_formed(),
    ensures
        ins == instruction_of(d, operands@),
{
    let first: Option<String> = operand(operands, 0);
    let second: Option<String> = operand(operands, 1);
    let third: Option<String> = operand(operands, 2);
    match d.shape {
        OperandShape::Immediate => {
            let rd: u32 = parse_register(as_token(&first))?;
            let rs1: u32 = parse_register(as_token(&second))?;
            let imm: i32 = parse_immediate(as_token(&third), false)?;
            Ok(Instruction::Itype { rd, rs1, imm, opcode: d.opcode, funct3: d.funct3 })
        },
        OperandShape::Shift => {
            let rd: u32 = parse_register(as_token(&first))?;
            let rs1: u32 = parse_register(as_token(&second))?;
            let shamt: i32 = parse_immediate(as_token(&third), true)?;
            let imm: i32 = (d.funct7 * 32) as i32 + shamt;
            Ok(Instruction::Itype { rd, rs1, imm, opcode: d.opcode, funct3: d.funct3 })
        },
        OperandShape::Registers => {
            let rd: u32 = parse_register(as_token(&first))?;
            let rs1: u32 = parse_register(as_token(&second))?;
            let rs2: u32 = parse_register(as_token(&third))?;
            Ok(
                Instruction::Rtype {
                    rd,
                    rs1,
                    rs2,
                    opcode: d.opcode,
                    funct3: d.funct3,
                    funct7: d.funct7,
                },
            )
        },
        OperandShape::Load => {
            let rd: u32 = parse_register(as_token(&first))?;
            let (imm, rs1) = parse_ld_or_sd(as_token(&second))?;
            Ok(Instruction::Itype { rd, rs1, imm, opcode: d.opcode, funct3: d.funct3 })
        },
        OperandShape::Store => {
            let rs2: u32 = parse_register(as_token(&first))?;
            let (imm, rs1) = parse_ld_or_sd(as_token(&second))?;
            Ok(Instruction::Stype { rs1, rs2, imm, opcode: d.opcode, funct3: d.funct3 })
        },
    }
}

/// Reads the instruction of a line that is in its normal form already.
pub fn parse_statement(valid_line: &str) -> (ins: Result<Instruction, AsmRiscVError>)
    ensures
        ins == statement_of(valid_line@),
        (match ins {
            Ok(i) => i.well_formed(),
            Err(e) => e != AsmRiscVError::ParseFunctError,
        }),
{
    proof {
        lemma_statement_well_formed(valid_line@);
    }
    let chars: Vec<char> = chars_of(valid_line);
    let line: &[char] = chars.as_slice();
    let colon: usize = find(line, ':');
    let body: &[char] = if colon < line.len() {
        trim(slice_subrange(line, colon + 1, line.len()))
    } else {
        line
    };
    if colon < line.len() && body.len() == 0 {
        return Err(AsmRiscVError::ParseEmptyLine);
    }
    let space: usize = find(body, ' ');
    if space == body.len() {
        return Err(AsmRiscVError::SyntaxError);
    }
    match lookup_mnemonic(slice_subrange(body, 0, space)) {
        None => Err(AsmRiscVError::NotImplementedInstruction),
        Some(d) => {
            proof {
                lemma_descriptors_well_formed(before_first(body@, ' '));
            }
            read_operands(d, slice_subrange(body, space + 1, body.len()))
        },
    }
}

/// Cuts the blanks off both ends of a text, and tells a text with nothing
/// left apart from the others.
pub fn trimmed_line(text: &str) -> (line: Result<String, AsmRiscVError>)
    ensures
        (match line {
            Ok(kept) => kept@ == trimmed(text@) && kept@.len() > 0,
            Err(e) => e == AsmRiscVError::ParseEmptyLine && trimmed(text@).len() == 0,
        }),
{
    let chars: Vec<char> = chars_of(text);
    let kept: &[char] = trim(chars.as_slice());
    if kept.len() == 0 {
        Err(AsmRiscVError::ParseEmptyLine)
    } else {
        Ok(string_of(kept))
    }
}

/// Brings a line of source text into its normal form: without its comment,
/// in lower case, without blanks at either end. A line of which nothing is
/// left is reported as `ParseEmptyLine`.
pub fn line_pre_process(line: &str) -> (valid_line: Result<String, AsmRiscVError>)
    ensures
        (match valid_line {
            Ok(kept) => kept@ == normalized(line@) && kept@.len() > 0,
            Err(e) => e == AsmRiscVError::ParseEmptyLine && normalized(line@).len() == 0,
        }),
{
    let chars: Vec<char> = chars_of(line);
    let hash: usize = find(chars.as_slice(), '#');
    let code: String = string_of(slice_subrange(chars.as_slice(), 0, hash));
    let lower: String = lowercase(code.as_str());
    trimmed_line(lower.as_str())
}

/// First pass over a line that is in its normal form already: binds the
/// label that the line defines to `ins_line_num`. A line without `:`
/// defines none, and the table stays as it is. The table changes only
/// where a label is bound, and is finite before and after.
pub fn define_label(valid_line: &str, table: &mut SymbolTable, ins_line_num: usize) -> (done:
    Result<(), AsmRiscVError>)
    ensures
        (match with_label(old(table)@, valid_line@, ins_line_num as nat) {
            Ok(next) => done == Ok::<(), AsmRiscVError>(()) && final(table)@ == next,
            Err(e) => done == Err::<(), AsmRiscVError>(e) && final(table)@ == old(table)@,
        }),
        old(table)@.dom().finite(),
        final(table)@.dom().finite(),
{
    proof {
        use_type_invariant(&*table);
        table.lemma_finite();
        lemma_with_label(table@, valid_line@, ins_line_num as nat);
    }
    let chars: Vec<char> = chars_of(valid_line);
    let line: &[char] = chars.as_slice();
    let colon: usize = find(line, ':');
    if colon == line.len() {
        return Ok(());
    }
    let label: &[char] = trim(slice_subrange(line, 0, colon));
    if label.len() == 0 || contains_blank(label) || is_digit(label[0]) {
        return Err(AsmRiscVError::SyntaxError);
    }
    let name: String = string_of(label);
    if table.contains_key(name.as_str()) {
        return Err(AsmRiscVError::UsedLabel);
    }
    table.insert(name, ins_line_num);
    Ok(())
}

/// Tells a decimal digit from any other character.
fn is_digit(c: char) -> (digit: bool)
    ensures
        digit == is_decimal_digit(c),
{
    let u: u32 = c as u32;
    0x30 <= u && u <= 0x39
}

/// First pass over one line: binds the label that the line defines to
/// `ins_line_num`, the number of instructions in front of it. A line
/// without `:` defines none, which is no fault: the result is `Ok` and the
/// table stays as it is. A line of which nothing is left once comment and
/// blanks are gone is reported as `ParseEmptyLine`. The table changes only
/// where a label is bound, and is finite before and after.
pub fn parse_label(line: &str, table: &mut SymbolTable, ins_line_num: usize) -> (done: Result<
    (),
    AsmRiscVError,
>)
    ensures
        (match line_with_label(old(table)@, line@, ins_line_num as nat) {
            Ok(next) => done == Ok::<(), AsmRiscVError>(()) && final(table)@ == next,
            Err(e) => done == Err::<(), AsmRiscVError>(e) && final(table)@ == old(table)@,
        }),
        old(table)@.dom().finite(),
        final(table)@.dom().finite(),
{
    proof {
        use_type_invariant(&*table);
        table.lemma_finite();
    }
    match line_pre_process(line) {
        Ok(valid_line) => define_label(valid_line.as_str(), table, ins_line_num),
        Err(e) => Err(e),
    }
}

/// Second pass over one line: reads the instruction that the line holds.
/// A line that holds none, or a label only, is reported as
/// `ParseEmptyLine`. None of the supported mnemonics refers to a label, so
/// the result depends on neither `table` nor `ins_count`.
#[allow(unused_variables)]
pub fn parse_instruction(line: &str, table: &SymbolTable, ins_count: usize) -> (ins: Result<
    Instruction,
    AsmRiscVError,
>)
    ensures
        ins == line_instruction(line@),
        (match ins {
            Ok(i) => i.well_formed(),
            Err(e) => e != AsmRiscVError::ParseFunctError,
        }),
{
    match line_pre_process(line) {
        Ok(valid_line) => parse_statement(valid_line.as_str()),
        Err(e) => Err(e),
    }
}

/// Reads a register operand: `x` and an index `0..=31`.
pub fn parse_register(reg_token: Option<&str>) -> (reg: Result<u32, AsmRiscVError>)
    ensures
        reg == register_of(token_text(reg_token)),
{
    let chars: Vec<char> = match reg_token {
        Some(token) => chars_of(token),
        None => {
            return Err(AsmRiscVError::SyntaxError);
        },
    };
    let name: &[char] = trim(chars.as_slice());
    if name.len() == 0 || name[0] != 'x' {
        return Err(AsmRiscVError::SyntaxError);
    }
    read_register_index(slice_subrange(name, 1, name.len()))
}

/// Reads an immediate operand: a literal that fits twelve bits, and where
/// `with_funct` is set, a shift amount `0..=31`.
pub fn parse_immediate(imm_token: Option<&str>, with_funct: bool) -> (imm: Result<
    i32,
    AsmRiscVError,
>)
    ensures
        imm == immediate_of(token_text(imm_token), with_funct),
{
    let chars: Vec<char> = match imm_token {
        Some(token) => chars_of(token),
        None => {
            return Err(AsmRiscVError::SyntaxError);
        },
    };
    match read_literal(trim(chars.as_slice())) {
        None => Err(AsmRiscVError::SyntaxError),
        Some(v) => if (with_funct && !(0 <= v && v <= 31)) || !(-2048 <= v && v <= 2047) {
            Err(AsmRiscVError::ImmediateOverflow)
        } else {
            Ok(v as i32)
        },
    }
}

/// Reads the operand `imm(rx)` of a load or a store, and gives the offset
/// and the base register.
pub fn parse_ld_or_sd(token: Option<&str>) -> (pair: Result<(i32, u32), AsmRiscVError>)
    ensures
        pair == base_offset_of(token_text(token)),
{
    let chars: Vec<char> = match token {
        Some(token) => chars_of(token),
        None => {
            return Err(AsmRiscVError::SyntaxError);
        },
    };
    let operand: &[char] = trim(chars.as_slice());
    let open: usize = find(operand, '(');
    if open == operand.len() {
        return Err(AsmRiscVError::SyntaxError);
    }
    let offset: &[char] = trim(slice_subrange(operand, 0, open));
    let base: &[char] = trim(slice_subrange(operand, open + 1, operand.len()));
    if base.len() == 0 || base[0] != 'x' || base[base.len() - 1] != ')' {
        return Err(AsmRiscVError::SyntaxError);
    }
    let name: &[char] = trim(trim_end_matches(base, ')'));
    proof {
        lemma_strip_trailing_keeps_head(base@, ')');
        lemma_trimmed_keeps_head(strip_trailing(base@, ')'));
    }
    let imm: i32 = match parse_signed(offset, 4096) {
        None => {
            return Err(AsmRiscVError::SyntaxError);
        },
        Some(v) => if v < -2048 || v > 2047 {
            return Err(AsmRiscVError::ImmediateOverflow);
        } else {
            v as i32
        },
    };
    match read_register_index(slice_subrange(name, 1, name.len())) {
        Err(e) => Err(e),
        Ok(reg) => Ok((imm, reg)),
    }
}

/// Reads the operand of a pc-relative instruction: a displacement written
/// out, or the label of the instruction to reach. The result counts
/// halfwords and fits ten bits.
pub fn parse_label_imm(token: Option<&str>, table: &SymbolTable, ins_count: usize) -> (imm: Result<
    i32,
    AsmRiscVError,
>)
    ensures
        imm == displacement_of(token_text(token), table@, ins_count as nat),
{
    let chars: Vec<char> = match token {
        Some(token) => chars_of(token),
        None => {
            return Err(AsmRiscVError::SyntaxError);
        },
    };
    let name: &[char] = trim(chars.as_slice());
    match parse_signed(name, 1024) {
        Some(v) => if v < -512 || v > 511 {
            Err(AsmRiscVError::ImmediateOverflow)
        } else {
            Ok(v as i32)
        },
        None => {
            let key: String = string_of(name);
            match table.get(key.as_str()) {
                None => Err(AsmRiscVError::SyntaxError),
                Some(index) => if index >= ins_count {
                    let ahead: usize = index - ins_count;
                    if ahead > 255 {
                        Err(AsmRiscVError::ImmediateOverflow)
                    } else {
                        Ok((ahead * 2) as i32)
                    }
                } else {
                    let back: usize = ins_count - index;
                    if back > 256 {
                        Err(AsmRiscVError::ImmediateOverflow)
                    } else {
                        Ok(-((back * 2) as i32))
                    }
                },
            }
        },
    }
}

} // verus!
