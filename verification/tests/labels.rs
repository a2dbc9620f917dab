use risc_v_assembler::assembler::parser::define_label;
use risc_v_assembler::assembler::parser::parse_label;
use risc_v_assembler::assembler::parser::parse_label_imm;
use risc_v_assembler::assembler::symbols::SymbolTable;
use risc_v_assembler::utils::exception::AsmRiscVError;

#[test]
fn a_new_table_is_empty() {
    let table = SymbolTable::new();
    assert_eq!(table.len(), 0);
    assert!(!table.contains_key("loop"));
    assert_eq!(table.get("loop"), None);
}

#[test]
fn insert_binds_a_label() {
    let mut table = SymbolTable::new();
    table.insert("loop".to_string(), 3);
    table.insert("end".to_string(), 9);
    assert_eq!(table.len(), 2);
    assert!(table.contains_key("loop"));
    assert_eq!(table.get("loop"), Some(3));
    assert_eq!(table.get("end"), Some(9));
    assert_eq!(table.get("lo"), None);
    table.insert("loop".to_string(), 4);
    assert_eq!(table.len(), 2);
    assert_eq!(table.get("loop"), Some(4));
}

#[test]
fn a_label_is_bound_to_the_given_index() {
    let mut table = SymbolTable::new();
    assert_eq!(parse_label("loop:", &mut table, 7), Ok(()));
    assert_eq!(table.get("loop"), Some(7));
    assert_eq!(table.len(), 1);
}

#[test]
fn a_label_may_stand_in_front_of_an_instruction() {
    let mut table = SymbolTable::new();
    assert_eq!(parse_label("  start:  addi x1, x0, 1  # first", &mut table, 0), Ok(()));
    assert_eq!(table.get("start"), Some(0));
}

#[test]
fn a_label_is_folded_to_lower_case() {
    let mut table = SymbolTable::new();
    assert_eq!(parse_label("Loop_1:", &mut table, 2), Ok(()));
    assert_eq!(table.get("loop_1"), Some(2));
    assert_eq!(table.get("Loop_1"), None);
    assert_eq!(parse_label("LOOP_1:", &mut table, 5), Err(AsmRiscVError::UsedLabel));
    assert_eq!(table.get("loop_1"), Some(2));
}

#[test]
fn a_label_is_cut_at_the_first_colon() {
    let mut table = SymbolTable::new();
    assert_eq!(parse_label("a: b: c", &mut table, 1), Ok(()));
    assert_eq!(table.get("a"), Some(1));
    assert!(!table.contains_key("b"));
    assert_eq!(table.len(), 1);
}

#[test]
fn a_label_defined_twice_is_used() {
    let mut table = SymbolTable::new();
    assert_eq!(parse_label("loop:", &mut table, 0), Ok(()));
    assert_eq!(parse_label("loop: addi x1, x1, 1", &mut table, 5), Err(AsmRiscVError::UsedLabel));
    assert_eq!(table.get("loop"), Some(0));
    assert_eq!(table.len(), 1);
}

#[test]
fn a_line_without_a_colon_is_no_fault_and_defines_nothing() {
    let mut table = SymbolTable::new();
    assert_eq!(parse_label("addi x1, x2, 5", &mut table, 0), Ok(()));
    assert_eq!(table.len(), 0);
    assert_eq!(parse_label("addi x1, x2, 3", &mut table, 4), Ok(()));
    assert_eq!(parse_label("nop # a: b", &mut table, 0), Ok(()));
    assert_eq!(parse_label("  not an instruction at all  ", &mut table, 0), Ok(()));
    assert_eq!(table.len(), 0);
    table.insert("loop".to_string(), 2);
    assert_eq!(parse_label("sub x1, x2, x3", &mut table, 7), Ok(()));
    assert_eq!(table.len(), 1);
    assert_eq!(table.get("loop"), Some(2));
}

#[test]
fn a_line_that_holds_nothing_is_an_empty_line_in_the_first_pass() {
    let mut table = SymbolTable::new();
    for line in ["", "   ", "\t", "#", "   # loop:", "# addi x1, x2, 3"] {
        assert_eq!(parse_label(line, &mut table, 0), Err(AsmRiscVError::ParseEmptyLine), "{:?}", line);
    }
    assert_eq!(table.len(), 0);
}

#[test]
fn a_new_label_makes_the_table_grow_by_one() {
    let mut table = SymbolTable::new();
    for k in 0..50usize {
        assert_eq!(table.len(), k);
        assert_eq!(parse_label(&format!("l{}: addi x1, x1, 1", k), &mut table, k), Ok(()));
        assert_eq!(table.len(), k + 1);
        assert_eq!(parse_label("addi x1, x1, 1", &mut table, k), Ok(()));
        assert_eq!(parse_label(&format!("l{}:", k), &mut table, k), Err(AsmRiscVError::UsedLabel));
        assert_eq!(parse_label("# note", &mut table, k), Err(AsmRiscVError::ParseEmptyLine));
        assert_eq!(table.len(), k + 1);
        for j in 0..=k {
            assert_eq!(table.get(&format!("l{}", j)), Some(j));
        }
    }
}

#[test]
fn a_malformed_label_is_a_syntax_error() {
    let mut table = SymbolTable::new();
    for line in ["1loop:", "9:", "my label:", "a\tb:", ":", "  : addi x1, x2, 3", "0x10: nop"] {
        assert_eq!(parse_label(line, &mut table, 0), Err(AsmRiscVError::SyntaxError), "{:?}", line);
    }
    assert_eq!(table.len(), 0);
}

#[test]
fn define_label_takes_the_line_as_it_stands() {
    let mut table = SymbolTable::new();
    assert_eq!(define_label("Loop:", &mut table, 1), Ok(()));
    assert_eq!(table.get("Loop"), Some(1));
    assert_eq!(define_label("  end  : x", &mut table, 2), Ok(()));
    assert_eq!(table.get("end"), Some(2));
    assert_eq!(define_label("#a:", &mut table, 3), Ok(()));
    assert_eq!(table.get("#a"), Some(3));
    assert_eq!(define_label("# a:", &mut table, 4), Err(AsmRiscVError::SyntaxError));
    assert_eq!(define_label("Loop: again", &mut table, 5), Err(AsmRiscVError::UsedLabel));
    assert_eq!(define_label("no label", &mut table, 6), Ok(()));
    assert_eq!(define_label("", &mut table, 7), Ok(()));
    assert_eq!(table.len(), 3);
    assert_eq!(table.get("Loop"), Some(1));
}

#[test]
fn a_written_displacement_is_taken_as_it_stands() {
    let table = SymbolTable::new();
    for d in -512..=511i32 {
        assert_eq!(parse_label_imm(Some(&format!("{}", d)), &table, 17), Ok(d));
    }
    assert_eq!(parse_label_imm(Some(" +8 "), &table, 0), Ok(8));
}

#[test]
fn a_written_displacement_outside_ten_bits_overflows() {
    let table = SymbolTable::new();
    for token in ["512", "513", "-513", "4096", "-4096", "99999999999999999999", "-99999999999999999999"] {
        assert_eq!(parse_label_imm(Some(token), &table, 0), Err(AsmRiscVError::ImmediateOverflow), "{}", token);
    }
}

#[test]
fn a_label_gives_two_halfwords_for_each_instruction() {
    let mut table = SymbolTable::new();
    table.insert("target".to_string(), 10);
    assert_eq!(parse_label_imm(Some("target"), &table, 10), Ok(0));
    assert_eq!(parse_label_imm(Some("target"), &table, 7), Ok(6));
    assert_eq!(parse_label_imm(Some("target"), &table, 13), Ok(-6));
    assert_eq!(parse_label_imm(Some("  target "), &table, 0), Ok(20));
}

#[test]
fn a_label_too_far_away_overflows() {
    let mut table = SymbolTable::new();
    table.insert("near".to_string(), 255);
    table.insert("far".to_string(), 256);
    table.insert("origin".to_string(), 0);
    table.insert("last".to_string(), usize::MAX);
    assert_eq!(parse_label_imm(Some("near"), &table, 0), Ok(510));
    assert_eq!(parse_label_imm(Some("far"), &table, 0), Err(AsmRiscVError::ImmediateOverflow));
    assert_eq!(parse_label_imm(Some("origin"), &table, 256), Ok(-512));
    assert_eq!(parse_label_imm(Some("origin"), &table, 257), Err(AsmRiscVError::ImmediateOverflow));
    assert_eq!(parse_label_imm(Some("origin"), &table, usize::MAX), Err(AsmRiscVError::ImmediateOverflow));
    assert_eq!(parse_label_imm(Some("last"), &table, 0), Err(AsmRiscVError::ImmediateOverflow));
    assert_eq!(parse_label_imm(Some("last"), &table, usize::MAX - 1), Ok(2));
}

#[test]
fn an_unknown_label_is_a_syntax_error() {
    let mut table = SymbolTable::new();
    table.insert("loop".to_string(), 1);
    assert_eq!(parse_label_imm(Some("lop"), &table, 0), Err(AsmRiscVError::SyntaxError));
    assert_eq!(parse_label_imm(Some("Loop"), &table, 0), Err(AsmRiscVError::SyntaxError));
    assert_eq!(parse_label_imm(Some(""), &table, 0), Err(AsmRiscVError::SyntaxError));
    assert_eq!(parse_label_imm(Some("0x10"), &table, 0), Err(AsmRiscVError::SyntaxError));
    assert_eq!(parse_label_imm(None, &table, 0), Err(AsmRiscVError::SyntaxError));
}
