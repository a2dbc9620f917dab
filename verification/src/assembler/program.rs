//! The two passes over a whole source text.
//!
//! The text is cut into statements. The first pass walks all of them and
//! binds each label to the number of instructions in front of it. The
//! second pass walks them again and reads the instructions. The first
//! fault that is met ends the work, and the first pass is done with every
//! statement before the second begins.

use crate::assembler::assembly;
use crate::assembler::image_of;
use crate::assembler::instruction::Instruction;
use crate::assembler::parser::define_label;
use crate::assembler::parser::label_of;
use crate::assembler::parser::lemma_statement_well_formed;
use crate::assembler::parser::lemma_with_label;
use crate::assembler::parser::line_instruction;
use crate::assembler::parser::line_pre_process;
use crate::assembler::parser::line_with_label;
use crate::assembler::parser::normalized;
use crate::assembler::parser::parse_instruction;
use crate::assembler::parser::statement_body;
use crate::assembler::parser::statement_of;
use crate::assembler::strings::chars_of;
use crate::assembler::strings::string_of;
use crate::assembler::symbols::SymbolTable;
use crate::assembler::text::after_first;
use crate::assembler::text::before_first;
use crate::assembler::text::find;
use crate::assembler::text::has_char;
use crate::assembler::text::lemma_first_index;
use crate::assembler::text::trim;
use crate::utils::exception::AsmRiscVError;
use vstd::prelude::*;
use vstd::slice::slice_subrange;

verus! {

/// The text with a line break in place of every `;`.
pub open spec fn expanded(text: Seq<char>) -> Seq<char> {
    Seq::new(
        text.len(),
        |i: int|
            if text[i] == ';' {
                '\n'
            } else {
                text[i]
            },
    )
}

/// The pieces into which the line breaks cut a text. There is one piece
/// more than there are line breaks.
pub open spec fn lines_of(text: Seq<char>) -> Seq<Seq<char>>
    decreases text.len(),
    via lines_of_decreases
{
    if has_char(text, '\n') {
        seq![before_first(text, '\n')] + lines_of(after_first(text, '\n'))
    } else {
        seq![text]
    }
}

#[via_fn]
proof fn lines_of_decreases(text: Seq<char>) {
    lemma_first_index(text, '\n');
}

/// The statements of a source text: what stands between its line breaks
/// and semicolons.
pub open spec fn statements(text: Seq<char>) -> Seq<Seq<char>> {
    lines_of(expanded(text))
}

/// The texts of a list of strings.
pub open spec fn texts(lines: Seq<String>) -> Seq<Seq<char>> {
    Seq::new(lines.len(), |i: int| lines[i]@)
}

/// Whether a line holds an instruction, well written or not: something is
/// left of it once comment, blanks and a label in front are taken away.
pub open spec fn holds_instruction(line: Seq<char>) -> bool {
    normalized(line).len() > 0 && statement_body(normalized(line)).len() > 0
}

/// The number of lines that hold an instruction.
pub open spec fn instruction_count(lines: Seq<Seq<char>>) -> nat
    decreases lines.len(),
{
    if lines.len() == 0 {
        0
    } else {
        instruction_count(lines.drop_last()) + if holds_instruction(lines.last()) {
            1nat
        } else {
            0nat
        }
    }
}

/// The symbol table that the first pass builds. Line by line, a label is
/// bound to the number of instructions in front of its line; a line without
/// a label, and one that holds nothing, changes nothing; any fault ends the
/// pass.
pub open spec fn symbols_of(lines: Seq<Seq<char>>) -> Result<Map<Seq<char>, nat>, AsmRiscVError>
    decreases lines.len(),
{
    if lines.len() == 0 {
        Ok(Map::empty())
    } else {
        match symbols_of(lines.drop_last()) {
            Err(e) => Err(e),
            Ok(table) => match line_with_label(
                table,
                lines.last(),
                instruction_count(lines.drop_last()),
            ) {
                Ok(next) => Ok(next),
                Err(AsmRiscVError::ParseEmptyLine) => Ok(table),
                Err(e) => Err(e),
            },
        }
    }
}

/// The program that the second pass reads. Line by line, an instruction is
/// added to the program; a line without one changes nothing; any fault ends
/// the pass.
pub open spec fn instructions_of(lines: Seq<Seq<char>>) -> Result<Seq<Instruction>, AsmRiscVError>
    decreases lines.len(),
{
    if lines.len() == 0 {
        Ok(Seq::empty())
    } else {
        match instructions_of(lines.drop_last()) {
            Err(e) => Err(e),
            Ok(program) => match line_instruction(lines.last()) {
                Ok(ins) => Ok(program.push(ins)),
                Err(AsmRiscVError::ParseEmptyLine) => Ok(program),
                Err(e) => Err(e),
            },
        }
    }
}

/// The image of a source text: the first pass over all its statements,
/// then the second, then the encoding of the program. A fault of the first
/// pass comes before any of the second.
pub open spec fn assembled(text: Seq<char>) -> Result<Seq<u8>, AsmRiscVError> {
    let lines = statements(text);
    match symbols_of(lines) {
        Err(e) => Err(e),
        Ok(_) => match instructions_of(lines) {
            Err(e) => Err(e),
            Ok(program) => Ok(image_of(program)),
        },
    }
}

/// A line holds an instruction exactly where the second pass does not skip
/// it.
pub proof fn lemma_holds_instruction(line: Seq<char>)
    ensures
        holds_instruction(line) <==> line_instruction(line) != Err::<Instruction, AsmRiscVError>(
            AsmRiscVError::ParseEmptyLine,
        ),
{
    let valid = normalized(line);
    if valid.len() > 0 {
        lemma_first_index(valid, ':');
        lemma_statement_operand_faults(valid);
    }
}

/// No operand is ever reported as an empty line.
proof fn lemma_statement_operand_faults(line: Seq<char>)
    ensures
        statement_of(line) == Err::<Instruction, AsmRiscVError>(AsmRiscVError::ParseEmptyLine)
            ==> has_char(line, ':') && statement_body(line).len() == 0,
{
}

/// A fault of the first pass stays: once the pass has failed on the first
/// `n` lines, it fails in the same way on all of them.
pub proof fn lemma_symbols_fault_stays(lines: Seq<Seq<char>>, n: int)
    requires
        0 <= n <= lines.len(),
        symbols_of(lines.take(n)) is Err,
    ensures
        symbols_of(lines) == symbols_of(lines.take(n)),
    decreases lines.len() - n,
{
    if n < lines.len() {
        assert(lines.take(n + 1).drop_last() == lines.take(n));
        lemma_symbols_fault_stays(lines, n + 1);
    } else {
        assert(lines.take(n) == lines);
    }
}

/// A fault of the second pass stays: once the pass has failed on the first
/// `n` lines, it fails in the same way on all of them.
pub proof fn lemma_instructions_fault_stays(lines: Seq<Seq<char>>, n: int)
    requires
        0 <= n <= lines.len(),
        instructions_of(lines.take(n)) is Err,
    ensures
        instructions_of(lines) == instructions_of(lines.take(n)),
    decreases lines.len() - n,
{
    if n < lines.len() {
        assert(lines.take(n + 1).drop_last() == lines.take(n));
        lemma_instructions_fault_stays(lines, n + 1);
    } else {
        assert(lines.take(n) == lines);
    }
}

/// The program has one instruction for each line that holds one, each of
/// them well formed, and the second pass never gives up with
/// `ParseEmptyLine` or `ParseFunctError`.
pub proof fn lemma_program(lines: Seq<Seq<char>>)
    ensures
        (match instructions_of(lines) {
            Ok(program) => {
                &&& program.len() == instruction_count(lines)
                &&& forall|k: int| 0 <= k < program.len() ==> (#[trigger] program[k]).well_formed()
            },
            Err(e) => e != AsmRiscVError::ParseEmptyLine && e != AsmRiscVError::ParseFunctError,
        }),
    decreases lines.len(),
{
    if lines.len() > 0 {
        lemma_program(lines.drop_last());
        lemma_holds_instruction(lines.last());
        lemma_statement_well_formed(normalized(lines.last()));
    }
}

/// The image has one word of four bytes for each line that holds an
/// instruction.
pub proof fn lemma_image_length(text: Seq<char>)
    ensures
        (match assembled(text) {
            Ok(image) => image.len() == 4 * instruction_count(statements(text)),
            Err(e) => e != AsmRiscVError::ParseEmptyLine && e != AsmRiscVError::ParseFunctError,
        }),
{
    lemma_program(statements(text));
    lemma_symbols_faults(statements(text));
}

/// Whether a line of source text defines `label`.
pub open spec fn defines(line: Seq<char>, label: Seq<char>) -> bool {
    label_of(normalized(line)) == Ok::<Option<Seq<char>>, AsmRiscVError>(Some(label))
}

/// Label resolution: where the first pass succeeds, a label stands for the
/// number of instructions in front of the line that defines it. What
/// follows that line has no part in it, so a reference in front of the
/// definition finds what a reference behind it finds.
pub proof fn lemma_label_resolution(lines: Seq<Seq<char>>, k: int, label: Seq<char>)
    requires
        0 <= k < lines.len(),
        defines(lines[k], label),
        symbols_of(lines) is Ok,
    ensures
        (match symbols_of(lines) {
            Ok(table) => table.contains_key(label) && table[label] == instruction_count(
                lines.take(k),
            ),
            Err(_) => false,
        }),
    decreases lines.len(),
{
    let front = lines.drop_last();
    if k == lines.len() - 1 {
        assert(lines.take(k) == front);
    } else {
        assert(front.take(k) == lines.take(k));
        lemma_label_resolution(front, k, label);
    }
}

/// The program of the first `n` lines is the front of the program of all
/// lines: as many instructions as the first `n` lines hold.
pub proof fn lemma_program_front(lines: Seq<Seq<char>>, n: int)
    requires
        0 <= n <= lines.len(),
        instructions_of(lines) is Ok,
    ensures
        (match (instructions_of(lines), instructions_of(lines.take(n))) {
            (Ok(program), Ok(front)) => {
                &&& front.len() == instruction_count(lines.take(n))
                &&& front.len() <= program.len()
                &&& front == program.take(front.len() as int)
            },
            _ => false,
        }),
    decreases lines.len(),
{
    lemma_program(lines);
    if n == lines.len() {
        assert(lines.take(n) == lines);
        let program = instructions_of(lines)->Ok_0;
        assert(program.take(program.len() as int) == program);
    } else {
        let shorter = lines.drop_last();
        assert(shorter.take(n) == lines.take(n));
        lemma_program_front(shorter, n);
        let program = instructions_of(lines)->Ok_0;
        let rest = instructions_of(shorter)->Ok_0;
        let front = instructions_of(lines.take(n))->Ok_0;
        assert(rest.take(front.len() as int) == program.take(front.len() as int));
    }
}

/// Label positions: where both passes succeed, the index of a label is
/// the place in the program of the first instruction behind the label. The
/// instructions in front of that place are those of the lines in front of
/// the label.
pub proof fn lemma_label_position(lines: Seq<Seq<char>>, k: int, label: Seq<char>)
    requires
        0 <= k < lines.len(),
        defines(lines[k], label),
        symbols_of(lines) is Ok,
        instructions_of(lines) is Ok,
    ensures
        (match (symbols_of(lines), instructions_of(lines), instructions_of(lines.take(k))) {
            (Ok(table), Ok(program), Ok(front)) => {
                &&& table.contains_key(label)
                &&& table[label] == front.len()
                &&& table[label] <= program.len()
                &&& front == program.take(table[label] as int)
            },
            _ => false,
        }),
{
    lemma_label_resolution(lines, k, label);
    lemma_program_front(lines, k);
}

/// Duplicate labels: a label defined by two lines makes the first pass
/// fail, however far the two are apart, and with it the assembly of a text
/// that holds them. The fault is `UsedLabel` unless the pass has met
/// another fault in front of the second definition.
pub proof fn lemma_duplicate_label(lines: Seq<Seq<char>>, i: int, j: int, label: Seq<char>)
    requires
        0 <= i < j < lines.len(),
        defines(lines[i], label),
        defines(lines[j], label),
    ensures
        symbols_of(lines) is Err,
        symbols_of(lines.take(j)) is Ok ==> symbols_of(lines) == Err::<
            Map<Seq<char>, nat>,
            AsmRiscVError,
        >(AsmRiscVError::UsedLabel),
        forall|text: Seq<char>| statements(text) == lines ==> #[trigger] assembled(text) is Err,
{
    let front = lines.take(j);
    assert(lines.take(j + 1).drop_last() == front);
    assert(lines.take(j + 1).last() == lines[j]);
    if symbols_of(front) is Ok {
        assert(front[i] == lines[i]);
        lemma_label_resolution(front, i, label);
        lemma_symbols_fault_stays(lines, j + 1);
    } else {
        lemma_symbols_fault_stays(lines, j);
    }
}

/// Assembly is a function of the text: the same text gives the same image,
/// or the same fault, every time.
pub proof fn lemma_assembly_repeats(first: Seq<char>, second: Seq<char>)
    requires
        first == second,
    ensures
        assembled(first) == assembled(second),
{
}

/// Cuts a source text into its statements.
pub fn split_statements(content: &str) -> (lines: Vec<String>)
    ensures
        texts(lines@) == statements(content@),
{
    let chars: Vec<char> = chars_of(content);
    let n: usize = chars.len();
    let mut flat: Vec<char> = Vec::new();
    let mut i: usize = 0;
    while i < n
        invariant
            n == chars@.len(),
            chars@ == content@,
            i <= n,
            flat@ == expanded(content@).take(i as int),
        decreases n - i,
    {
        let c: char = chars[i];
        flat.push(
            if c == ';' {
                '\n'
            } else {
                c
            },
        );
        i += 1;
    }
    let mut lines: Vec<String> = Vec::new();
    let mut rest: &[char] = flat.as_slice();
    let mut done: bool = false;
    proof {
        assert(flat@ == expanded(content@));
        assert(texts(lines@) + lines_of(rest@) == lines_of(rest@));
    }
    while !done
        invariant
            !done ==> statements(content@) == texts(lines@) + lines_of(rest@),
            done ==> statements(content@) == texts(lines@),
        decreases
                (if done {
                    0
                } else {
                    rest@.len() + 1
                }),
    {
        let cut: usize = find(rest, '\n');
        let ghost before = texts(lines@);
        lines.push(string_of(slice_subrange(rest, 0, cut)));
        proof {
            assert(texts(lines@) == before + seq![before_first(rest@, '\n')]);
        }
        if cut == rest.len() {
            proof {
                assert(before_first(rest@, '\n') == rest@);
            }
            done = true;
        } else {
            proof {
                assert(before + (seq![before_first(rest@, '\n')] + lines_of(
                    after_first(rest@, '\n'),
                )) == (before + seq![before_first(rest@, '\n')]) + lines_of(
                    after_first(rest@, '\n'),
                ));
            }
            rest = slice_subrange(rest, cut + 1, rest.len());
        }
    }
    lines
}

/// Tells whether a line in its normal form holds anything but a label.
pub fn has_statement(valid_line: &str) -> (found: bool)
    ensures
        found == (statement_body(valid_line@).len() > 0),
{
    let chars: Vec<char> = chars_of(valid_line);
    let line: &[char] = chars.as_slice();
    let colon: usize = find(line, ':');
    if colon < line.len() {
        trim(slice_subrange(line, colon + 1, line.len())).len() > 0
    } else {
        line.len() > 0
    }
}

/// The first pass: builds the symbol table of a list of lines. A line
/// without a label is no fault, and neither is a line that holds nothing.
pub fn first_pass(lines: &Vec<String>) -> (table: Result<SymbolTable, AsmRiscVError>)
    ensures
        (match table {
            Ok(symbols) => {
                &&& symbols_of(texts(lines@)) == Ok::<Map<Seq<char>, nat>, AsmRiscVError>(
                    symbols@,
                )
                &&& symbols@.dom().finite()
            },
            Err(e) => symbols_of(texts(lines@)) == Err::<Map<Seq<char>, nat>, AsmRiscVError>(e),
        }),
{
    let ghost all = texts(lines@);
    let mut table: SymbolTable = SymbolTable::new();
    let mut count: usize = 0;
    let n: usize = lines.len();
    let mut i: usize = 0;
    proof {
        assert(all.take(0) =~= Seq::<Seq<char>>::empty());
    }
    while i < n
        invariant
            n == lines@.len(),
            all == texts(lines@),
            i <= n,
            count <= i,
            count == instruction_count(all.take(i as int)),
            symbols_of(all.take(i as int)) == Ok::<Map<Seq<char>, nat>, AsmRiscVError>(table@),
        decreases n - i,
    {
        proof {
            assert(all.take(i + 1).drop_last() == all.take(i as int));
            assert(all.take(i + 1).last() == lines@[i as int]@);
        }
        match line_pre_process(lines[i].as_str()) {
            Err(_) => {},
            Ok(valid_line) => {
                proof {
                    lemma_with_label(table@, valid_line@, count as nat);
                }
                match define_label(valid_line.as_str(), &mut table, count) {
                    Ok(()) => {},
                    Err(e) => {
                        proof {
                            lemma_symbols_fault_stays(all, i + 1);
                        }
                        return Err(e);
                    },
                }
                if has_statement(valid_line.as_str()) {
                    count += 1;
                }
            },
        }
        i += 1;
    }
    proof {
        assert(all.take(n as int) == all);
        lemma_symbols_finite(all);
    }
    Ok(table)
}

/// The second pass: reads the program of a list of lines. Each line is
/// handed the symbol table and the index of the instruction it is to give.
pub fn second_pass(lines: &Vec<String>, table: &SymbolTable) -> (program: Result<
    Vec<Instruction>,
    AsmRiscVError,
>)
    ensures
        (match program {
            Ok(instructions) => instructions_of(texts(lines@)) == Ok::<
                Seq<Instruction>,
                AsmRiscVError,
            >(instructions@),
            Err(e) => instructions_of(texts(lines@)) == Err::<Seq<Instruction>, AsmRiscVError>(e),
        }),
{
    let ghost all = texts(lines@);
    let mut instructions: Vec<Instruction> = Vec::new();
    let n: usize = lines.len();
    let mut i: usize = 0;
    proof {
        assert(all.take(0) =~= Seq::<Seq<char>>::empty());
    }
    while i < n
        invariant
            n == lines@.len(),
            all == texts(lines@),
            i <= n,
            instructions_of(all.take(i as int)) == Ok::<Seq<Instruction>, AsmRiscVError>(
                instructions@,
            ),
        decreases n - i,
    {
        proof {
            assert(all.take(i + 1).drop_last() == all.take(i as int));
            assert(all.take(i + 1).last() == lines@[i as int]@);
        }
        match parse_instruction(lines[i].as_str(), table, instructions.len()) {
            Ok(ins) => {
                instructions.push(ins);
            },
            Err(e) => {
                if e.is_fatal() {
                    proof {
                        lemma_instructions_fault_stays(all, i + 1);
                    }
                    return Err(e);
                }
            },
        }
        i += 1;
    }
    proof {
        assert(all.take(n as int) == all);
    }
    Ok(instructions)
}

/// Assembles a source text into its image: one word of four bytes for each
/// instruction, in the order of the source. The first fault ends the work
/// and nothing is handed out; a text without instructions gives an empty
/// image.
pub fn assemble(content: &str) -> (binary_contents: Result<Vec<u8>, AsmRiscVError>)
    ensures
        (match binary_contents {
            Ok(bytes) => assembled(content@) == Ok::<Seq<u8>, AsmRiscVError>(bytes@),
            Err(e) => {
                &&& assembled(content@) == Err::<Seq<u8>, AsmRiscVError>(e)
                &&& e != AsmRiscVError::ParseEmptyLine
                &&& e != AsmRiscVError::ParseFunctError
            },
        }),
{
    let lines: Vec<String> = split_statements(content);
    proof {
        lemma_program(texts(lines@));
        lemma_symbols_faults(texts(lines@));
    }
    let table: SymbolTable = match first_pass(&lines) {
        Ok(table) => table,
        Err(e) => {
            return Err(e);
        },
    };
    match second_pass(&lines, &table) {
        Ok(instructions) => Ok(assembly(&instructions)),
        Err(e) => Err(e),
    }
}

/// The first pass gives up on a malformed label or on one defined twice,
/// and on nothing else.
pub proof fn lemma_symbols_faults(lines: Seq<Seq<char>>)
    ensures
        (match symbols_of(lines) {
            Ok(_) => true,
            Err(e) => e == AsmRiscVError::SyntaxError || e == AsmRiscVError::UsedLabel,
        }),
    decreases lines.len(),
{
    if lines.len() > 0 {
        lemma_symbols_faults(lines.drop_last());
    }
}

/// The table of the first pass holds finitely many labels: at most one for
/// each line.
pub proof fn lemma_symbols_finite(lines: Seq<Seq<char>>)
    ensures
        (match symbols_of(lines) {
            Ok(table) => table.dom().finite() && table.len() <= lines.len(),
            Err(_) => true,
        }),
    decreases lines.len(),
{
    if lines.len() > 0 {
        lemma_symbols_finite(lines.drop_last());
    }
}

} // verus!
