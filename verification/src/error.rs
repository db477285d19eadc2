use vstd::prelude::*;

verus! {

/// Why an expression has no value.
#[derive(Clone, Copy, Debug, PartialEq, Eq, Structural)]
pub enum CalcError {
    /// Nothing is left of the text once it is cleaned.
    EmptyExpression,
    /// A run of digits and points is no decimal literal.
    InvalidNumberFormat,
    /// The divisor of a division is zero.
    DivisionByZero,
    /// An opening parenthesis is not closed where its expression ends.
    MissingClosingParenthesis,
    /// An operand is expected and the next token cannot start one.
    UnexpectedToken,
    /// An operand is expected and no token is left.
    UnexpectedEndOfExpression,
    /// A complete expression is followed by more tokens.
    TrailingTokens,
}

impl CalcError {
    /// The characters of the message shown for this error.
    pub open spec fn message_text(self) -> Seq<char> {
        match self {
            CalcError::EmptyExpression => "Empty expression"@,
            CalcError::InvalidNumberFormat => "Invalid number format"@,
            CalcError::DivisionByZero => "Division by zero"@,
            CalcError::MissingClosingParenthesis => "Missing closing parenthesis"@,
            CalcError::UnexpectedToken => "Unexpected token"@,
            CalcError::UnexpectedEndOfExpression => "Unexpected end of expression"@,
            CalcError::TrailingTokens => "Unexpected tokens at end of expression"@,
        }
    }

    /// The message shown for this error, as a string.
    pub fn message(&self) -> (text: String)
        ensures
            text@ == self.message_text(),
    {
        match self {
            CalcError::EmptyExpression => "Empty expression".to_owned(),
            CalcError::InvalidNumberFormat => "Invalid number format".to_owned(),
            CalcError::DivisionByZero => "Division by zero".to_owned(),
            CalcError::MissingClosingParenthesis => "Missing closing parenthesis".to_owned(),
            CalcError::UnexpectedToken => "Unexpected token".to_owned(),
            CalcError::UnexpectedEndOfExpression => "Unexpected end of expression".to_owned(),
            CalcError::TrailingTokens => "Unexpected tokens at end of expression".to_owned(),
        }
    }
}

} // verus!
