use risc_v_assembler::utils::exception::AsmRiscVError;

#[test]
fn only_the_empty_line_is_not_fatal() {
    assert!(!AsmRiscVError::ParseEmptyLine.is_fatal());
    for e in [
        AsmRiscVError::NotImplementedInstruction,
        AsmRiscVError::NotExistRegister,
        AsmRiscVError::SyntaxError,
        AsmRiscVError::ImmediateOverflow,
        AsmRiscVError::ParseFunctError,
        AsmRiscVError::UsedLabel,
    ] {
        assert!(e.is_fatal(), "{:?}", e);
    }
}
