use vstd::prelude::*;

verus! {

/// Everything that can stop a line from becoming an instruction.
///
/// `ParseEmptyLine` is the one condition that is not fatal: it marks a line
/// that holds nothing to assemble and is skipped.
#[derive(Debug, Clone, Copy, PartialEq, Eq, Structural)]
pub enum AsmRiscVError {
    /// The mnemonic is not in the supported set.
    NotImplementedInstruction,
    /// A register index is a number outside `0..=31`.
    NotExistRegister,
    /// A token does not have the shape its position asks for.
    SyntaxError,
    /// Nothing is left of the line once comment and blanks are gone.
    ParseEmptyLine,
    /// A number does not fit the field it is meant for.
    ImmediateOverflow,
    /// A mnemonic matched a group but no function code of that group.
    ParseFunctError,
    /// A label is defined a second time.
    UsedLabel,
}

impl AsmRiscVError {
    /// Whether assembly of the file has to stop on this condition.
    pub fn is_fatal(&self) -> (fatal: bool)
        ensures
            fatal == !(*self == AsmRiscVError::ParseEmptyLine),
    {
        !matches!(self, AsmRiscVError::ParseEmptyLine)
    }
}

} // verus!
