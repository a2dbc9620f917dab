use risc_v_assembler::assembler::instruction::Instruction;
use risc_v_assembler::assembler::parser::parse_label_imm;
use risc_v_assembler::assembler::program::assemble;
use risc_v_assembler::assembler::program::first_pass;
use risc_v_assembler::assembler::program::has_statement;
use risc_v_assembler::assembler::program::second_pass;
use risc_v_assembler::assembler::program::split_statements;
use risc_v_assembler::assembler::symbols::SymbolTable;
use risc_v_assembler::utils::exception::AsmRiscVError;

fn lines(text: &[&str]) -> Vec<String> {
    text.iter().map(|line| line.to_string()).collect()
}

fn table_of(text: &[&str]) -> SymbolTable {
    match first_pass(&lines(text)) {
        Ok(table) => table,
        Err(e) => panic!("{:?}", e),
    }
}

fn fault_of(text: &[&str]) -> AsmRiscVError {
    match first_pass(&lines(text)) {
        Ok(_) => panic!("no fault"),
        Err(e) => e,
    }
}

#[test]
fn statements_end_at_line_breaks_and_semicolons() {
    assert_eq!(split_statements("a\nb;c"), lines(&["a", "b", "c"]));
    assert_eq!(split_statements(""), lines(&[""]));
    assert_eq!(split_statements("a"), lines(&["a"]));
    assert_eq!(split_statements("a\n"), lines(&["a", ""]));
    assert_eq!(split_statements(";;"), lines(&["", "", ""]));
    assert_eq!(split_statements("a\r\nb"), lines(&["a\r", "b"]));
    assert_eq!(split_statements("# x; y\n z "), lines(&["# x", " y", " z "]));
}

#[test]
fn has_statement_looks_behind_the_label() {
    assert!(has_statement("addi x1, x2, 3"));
    assert!(has_statement("l: addi x1, x2, 3"));
    assert!(has_statement("l: x"));
    assert!(!has_statement("l:"));
    assert!(!has_statement("l:   "));
    assert!(!has_statement(""));
    assert!(has_statement("l: :"));
}

#[test]
fn a_label_stands_for_the_number_of_instructions_in_front_of_it() {
    let table = table_of(&[
        "# a program",
        "start: addi x1, x0, 1",
        "",
        "middle:",
        "   # nothing here",
        "addi x2, x0, 2",
        "addi x3, x0, 3   # three",
        "end:",
    ]);
    assert_eq!(table.len(), 3);
    assert_eq!(table.get("start"), Some(0));
    assert_eq!(table.get("middle"), Some(1));
    assert_eq!(table.get("end"), Some(3));
}

#[test]
fn a_label_on_the_line_of_an_instruction_counts_that_instruction_for_the_next() {
    let table = table_of(&["a: add x1, x2, x3", "b: add x1, x2, x3", "c: add x1, x2, x3", "d:"]);
    assert_eq!(table.get("a"), Some(0));
    assert_eq!(table.get("b"), Some(1));
    assert_eq!(table.get("c"), Some(2));
    assert_eq!(table.get("d"), Some(3));
}

#[test]
fn a_label_resolves_alike_from_before_and_from_behind() {
    let text = "addi x1, x0, 1\naddi x2, x0, 2\naddi x3, x0, 3\ntarget:\naddi x4, x0, 4\naddi x5, x0, 5";
    let statements = split_statements(text);
    let table = table_of(&statements.iter().map(|s| s.as_str()).collect::<Vec<&str>>());
    assert_eq!(table.get("target"), Some(3));
    // from the first instruction, in front of the definition
    assert_eq!(parse_label_imm(Some("target"), &table, 0), Ok(6));
    // from the last instruction, behind the definition
    assert_eq!(parse_label_imm(Some("target"), &table, 4), Ok(-2));
    // both lead to instruction 3
    assert_eq!(0 + 6 / 2, 3);
    assert_eq!(4 - 2 / 2, 3);
    let program = second_pass(&statements, &table).unwrap();
    assert_eq!(program.len(), 5);
    assert_eq!(program[3], Instruction::Itype { rd: 4, rs1: 0, imm: 4, opcode: 0b0010011, funct3: 0 });
}

#[test]
fn a_duplicate_label_is_used_at_any_distance() {
    assert_eq!(fault_of(&["a:", "a:"]), AsmRiscVError::UsedLabel);
    assert_eq!(fault_of(&["a: add x1, x2, x3", "A: add x1, x2, x3"]), AsmRiscVError::UsedLabel);
    let mut far: Vec<String> = vec!["loop:".to_string()];
    for k in 0..500 {
        far.push(format!("l{}: addi x1, x1, 1", k));
        far.push("# filler".to_string());
    }
    far.push("loop: addi x1, x1, 1".to_string());
    far.push("addi x1, x1, 1".to_string());
    match first_pass(&far) {
        Ok(_) => panic!("no fault"),
        Err(e) => assert_eq!(e, AsmRiscVError::UsedLabel),
    }
    let text = far.join("\n");
    assert_eq!(assemble(&text), Err(AsmRiscVError::UsedLabel));
}

#[test]
fn the_first_pass_stops_at_its_first_fault() {
    assert_eq!(fault_of(&["a:", "1b:", "a:"]), AsmRiscVError::SyntaxError);
    assert_eq!(fault_of(&["a:", "a:", "1b:"]), AsmRiscVError::UsedLabel);
}

#[test]
fn the_first_pass_does_not_read_instructions() {
    let table = table_of(&["a: bogus x1", "b: addi x99, x2, 3", "c: addi"]);
    assert_eq!(table.get("a"), Some(0));
    assert_eq!(table.get("b"), Some(1));
    assert_eq!(table.get("c"), Some(2));
}

#[test]
fn the_second_pass_reads_the_instructions_in_order() {
    let statements = lines(&["# start", "a: addi x1, x0, 1", "b:", "", "sub x3, x1, x2   # diff", "sw x3, 8(x2)"]);
    let table = SymbolTable::new();
    assert_eq!(
        second_pass(&statements, &table),
        Ok(vec![
            Instruction::Itype { rd: 1, rs1: 0, imm: 1, opcode: 0b0010011, funct3: 0 },
            Instruction::Rtype { rd: 3, rs1: 1, rs2: 2, opcode: 0b0110011, funct3: 0, funct7: 0b0100000 },
            Instruction::Stype { rs1: 2, rs2: 3, imm: 8, opcode: 0b0100011, funct3: 0b010 },
        ])
    );
}

#[test]
fn the_second_pass_stops_at_its_first_fault() {
    let table = SymbolTable::new();
    assert_eq!(
        second_pass(&lines(&["addi x1, x0, 1", "mul x1, x2, x3", "addi x1, x0, 5000"]), &table),
        Err(AsmRiscVError::NotImplementedInstruction)
    );
    assert_eq!(
        second_pass(&lines(&["addi x1, x0, 5000", "mul x1, x2, x3"]), &table),
        Err(AsmRiscVError::ImmediateOverflow)
    );
    assert_eq!(second_pass(&lines(&["", "# x", "l:"]), &table), Ok(Vec::new()));
}

#[test]
fn a_text_is_assembled_into_its_image() {
    let text = "# sum\nstart: addi x1, x0, 5   # five\n  ADD x3, x1, x1; sw x3, -4(x2)\n\nend:\nlw x1, 4(x2)\n";
    assert_eq!(
        assemble(text),
        Ok(vec![
            0x93, 0x00, 0x50, 0x00, 0xb3, 0x81, 0x10, 0x00, 0x23, 0x2e, 0x31, 0xfe, 0x83, 0x20, 0x41, 0x00
        ])
    );
}

#[test]
fn a_text_without_instructions_has_an_empty_image() {
    assert_eq!(assemble(""), Ok(Vec::new()));
    assert_eq!(assemble("\n\n  \n# nothing\n;;\nlabel:\n"), Ok(Vec::new()));
}

#[test]
fn a_semicolon_ends_a_comment() {
    assert_eq!(assemble("# note; addi x1, x2, 5"), Ok(vec![0x93, 0x00, 0x51, 0x00]));
    assert_eq!(assemble("addi x1, x2, 5 # note; # more"), Ok(vec![0x93, 0x00, 0x51, 0x00]));
}

#[test]
fn assembling_twice_gives_the_same_image() {
    let text = "loop: addi x1, x1, -1\n sub x2, x2, x1 ; srai x3, x2, 4\n sb x3, 0(x1)";
    let first = assemble(text);
    let second = assemble(text);
    assert!(first.is_ok());
    assert_eq!(first, second);
    assert_eq!(first.unwrap().len(), 16);
    let broken = "addi x1, x1\nloop:";
    assert_eq!(assemble(broken), assemble(broken));
    assert_eq!(assemble(broken), Err(AsmRiscVError::SyntaxError));
}

#[test]
fn a_fault_of_the_first_pass_comes_before_one_of_the_second() {
    assert_eq!(assemble("mul x1, x2, x3\na:\na:"), Err(AsmRiscVError::UsedLabel));
    assert_eq!(assemble("addi x1, x2, 9999\n9a:"), Err(AsmRiscVError::SyntaxError));
    assert_eq!(assemble("mul x1, x2, x3\na:\nb:"), Err(AsmRiscVError::NotImplementedInstruction));
}

#[test]
fn every_fatal_kind_ends_the_assembly() {
    assert_eq!(assemble("addi x1, x2, 3\nfoo x1, x2"), Err(AsmRiscVError::NotImplementedInstruction));
    assert_eq!(assemble("addi x1, x32, 3"), Err(AsmRiscVError::NotExistRegister));
    assert_eq!(assemble("addi x1, x2"), Err(AsmRiscVError::SyntaxError));
    assert_eq!(assemble("addi x1, x2, 2048"), Err(AsmRiscVError::ImmediateOverflow));
    assert_eq!(assemble("a: addi x1, x2, 3\na: addi x1, x2, 3"), Err(AsmRiscVError::UsedLabel));
}
