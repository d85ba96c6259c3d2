use vstd::prelude::*;

verus! {

/// The ways in which validation, construction, evaluation or search can fail.
#[derive(Debug, Clone, Copy, PartialEq, Eq, Structural)]
pub enum ErrorKind {
    /// The input does not hold exactly four characters.
    WrongLength,
    /// The input does not parse as an unsigned 16-bit integer, or holds a
    /// character that is not a decimal digit.
    ParseFailure,
    /// An operator found fewer than two values on the stack.
    InsufficientOperands,
    /// The evaluation ended with a stack that does not hold exactly one value.
    MalformedExpression,
    /// An operator slot decoded to no known symbol.
    UnknownOperator,
}

impl ErrorKind {
    /// A short human-readable description of the error.
    pub fn message(&self) -> (r: &'static str)
        ensures
            *self == ErrorKind::WrongLength ==> r@ == "Expected number to be of length 4"@,
            *self == ErrorKind::ParseFailure ==> r@ == "Could not parse number"@,
            *self == ErrorKind::InsufficientOperands ==> r@ == "Stack length is < 2"@,
            *self == ErrorKind::MalformedExpression ==> r@ == "Stack length != 1"@,
            *self == ErrorKind::UnknownOperator ==> r@ == "Unknown operator"@,
    {
        match self {
            ErrorKind::WrongLength => "Expected number to be of length 4",
            ErrorKind::ParseFailure => "Could not parse number",
            ErrorKind::InsufficientOperands => "Stack length is < 2",
            ErrorKind::MalformedExpression => "Stack length != 1",
            ErrorKind::UnknownOperator => "Unknown operator",
        }
    }
}

} // verus!
