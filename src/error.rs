use vstd::prelude::*;

verus! {

/// The fatal failures of compiling or running a program.
#[derive(Debug, Clone, Copy, PartialEq, Eq, Structural)]
pub enum ErrorKind {
    /// A malformed statement: a bad character, an unterminated string, a misplaced keyword.
    SyntaxError,
    /// A word that is neither a defined variable, a keyword nor a label.
    UnknownIdentifierError,
    /// An operator with fewer than two operands available.
    ArityError,
    /// Integer division or remainder by zero.
    DivisionByZeroError,
    /// An expression that yields both a number and a non-empty string.
    TypeConflictError,
    /// A jump to a label that was never declared.
    UndefinedLabelError,
    /// A closing parenthesis without its opening one, or the reverse.
    MismatchedParenthesesError,
    /// An assignment whose target names more than one variable.
    MultipleAssignmentError,
    /// A label declared a second time.
    DuplicateLabelError,
    /// An arithmetic result, or an integer literal, outside the signed 32-bit range.
    OverflowError,
}

/// A failure together with the number of the statement it came from (counted from 1).
#[derive(Debug, Clone, Copy, PartialEq, Eq, Structural)]
pub struct Error {
    pub kind: ErrorKind,
    pub line: usize,
}

} // verus!
