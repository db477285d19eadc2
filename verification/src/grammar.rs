use vstd::prelude::*;
use crate::error::CalcError;
use crate::instruction::{InstrView, Operator};
use crate::sanitizer::sanitized;
use crate::token::TokenView;
use crate::tokenizer::tokens_of;

verus! {

/// What reading one construct of the grammar from a position gives: the
/// instructions written while reading, in the order in which they were
/// written; the number of tokens read, where reading succeeded; and the
/// error that stopped it, if any. The instructions written before an error
/// are part of the result.
pub struct Descent {
    pub steps: Seq<InstrView>,
    pub consumed: nat,
    pub error: Option<CalcError>,
}

impl Descent {
    /// Reading that wrote nothing and stopped on `error`.
    pub open spec fn failed(error: CalcError) -> Descent {
        Descent { steps: Seq::empty(), consumed: 0, error: Some(error) }
    }

    /// Reading that read nothing and wrote nothing.
    pub open spec fn nothing() -> Descent {
        Descent { steps: Seq::empty(), consumed: 0, error: None }
    }

    /// This reading followed by `next`.
    pub open spec fn followed_by(self, next: Descent) -> Descent {
        Descent {
            steps: self.steps + next.steps,
            consumed: self.consumed + next.consumed,
            error: next.error,
        }
    }

    /// This reading with the token that introduced it, and with `instr`
    /// written at its end if it succeeded.
    pub open spec fn closed_by(self, instr: InstrView) -> Descent {
        if self.error is Some {
            self
        } else {
            Descent { steps: self.steps.push(instr), consumed: self.consumed + 1, error: None }
        }
    }
}

/// The number of tokens from `pos` on.
pub open spec fn remaining(tokens: Seq<TokenView>, pos: nat) -> nat {
    if pos < tokens.len() {
        (tokens.len() - pos) as nat
    } else {
        0
    }
}

/// The operation of `+` and `-`.
pub open spec fn additive(token: TokenView) -> Option<Operator> {
    match token {
        TokenView::Plus => Some(Operator::Add),
        TokenView::Minus => Some(Operator::Subtract),
        _ => None,
    }
}

/// The operation of `*` and `/`.
pub open spec fn multiplicative(token: TokenView) -> Option<Operator> {
    match token {
        TokenView::Multiply => Some(Operator::Multiply),
        TokenView::Divide => Some(Operator::Divide),
        _ => None,
    }
}

/// The token of an operation.
pub open spec fn operator_token(op: Operator) -> TokenView {
    match op {
        Operator::Add => TokenView::Plus,
        Operator::Subtract => TokenView::Minus,
        Operator::Multiply => TokenView::Multiply,
        Operator::Divide => TokenView::Divide,
    }
}

/// The additive operation that stands at `pos`, if one does.
pub open spec fn additive_at(tokens: Seq<TokenView>, pos: nat) -> Option<Operator> {
    if pos < tokens.len() {
        additive(tokens[pos as int])
    } else {
        None
    }
}

/// The multiplicative operation that stands at `pos`, if one does.
pub open spec fn multiplicative_at(tokens: Seq<TokenView>, pos: nat) -> Option<Operator> {
    if pos < tokens.len() {
        multiplicative(tokens[pos as int])
    } else {
        None
    }
}

/// `factor := NUMBER | '(' expression ')' | '-' factor`
///
/// A number writes the instruction that pushes it. A parenthesis writes
/// what its expression writes. A minus writes what its operand writes and
/// then the negation.
pub open spec fn factor(tokens: Seq<TokenView>, pos: nat) -> Descent
    decreases remaining(tokens, pos), 0nat,
{
    if pos >= tokens.len() {
        Descent::failed(CalcError::UnexpectedEndOfExpression)
    } else {
        match tokens[pos as int] {
            TokenView::Number(text) => Descent {
                steps: seq![InstrView::Push(text)],
                consumed: 1,
                error: None,
            },
            TokenView::LeftParen => {
                let inner = expression(tokens, pos + 1);
                let close = pos + 1 + inner.consumed;
                if inner.error is Some {
                    inner
                } else if close < tokens.len() && tokens[close as int] is RightParen {
                    Descent { steps: inner.steps, consumed: inner.consumed + 2, error: None }
                } else {
                    Descent {
                        steps: inner.steps,
                        consumed: 0,
                        error: Some(CalcError::MissingClosingParenthesis),
                    }
                }
            },
            TokenView::Minus => factor(tokens, pos + 1).closed_by(InstrView::Negate),
            _ => Descent::failed(CalcError::UnexpectedToken),
        }
    }
}

/// `(('*' | '/') factor)*`, read after the left operand: each factor
/// writes its instructions and then the operation.
pub open spec fn term_tail(tokens: Seq<TokenView>, pos: nat) -> Descent
    decreases remaining(tokens, pos), 0nat,
{
    if pos < tokens.len() && multiplicative(tokens[pos as int]) is Some {
        let op = multiplicative(tokens[pos as int])->Some_0;
        let right = factor(tokens, pos + 1).closed_by(InstrView::Apply(op));
        if right.error is Some {
            right
        } else {
            right.followed_by(term_tail(tokens, pos + right.consumed))
        }
    } else {
        Descent::nothing()
    }
}

/// `term := factor (('*' | '/') factor)*`, from left to right.
pub open spec fn term(tokens: Seq<TokenView>, pos: nat) -> Descent
    decreases remaining(tokens, pos), 1nat,
{
    let first = factor(tokens, pos);
    if first.error is Some {
        first
    } else {
        first.followed_by(term_tail(tokens, pos + first.consumed))
    }
}

/// `(('+' | '-') term)*`, read after the left operand: each term writes
/// its instructions and then the operation.
pub open spec fn expression_tail(tokens: Seq<TokenView>, pos: nat) -> Descent
    decreases remaining(tokens, pos), 0nat,
{
    if pos < tokens.len() && additive(tokens[pos as int]) is Some {
        let op = additive(tokens[pos as int])->Some_0;
        let right = term(tokens, pos + 1).closed_by(InstrView::Apply(op));
        if right.error is Some {
            right
        } else {
            right.followed_by(expression_tail(tokens, pos + right.consumed))
        }
    } else {
        Descent::nothing()
    }
}

/// `expression := term (('+' | '-') term)*`, from left to right.
pub open spec fn expression(tokens: Seq<TokenView>, pos: nat) -> Descent
    decreases remaining(tokens, pos), 2nat,
{
    let first = term(tokens, pos);
    if first.error is Some {
        first
    } else {
        first.followed_by(expression_tail(tokens, pos + first.consumed))
    }
}

/// What reading a whole text gives: the instructions to run, and the
/// error to report once they have run, if the text is no expression.
pub struct Plan {
    pub steps: Seq<InstrView>,
    pub ending: Option<CalcError>,
}

impl Plan {
    /// The plan of a text that is refused before anything is written.
    pub open spec fn rejected(error: CalcError) -> Plan {
        Plan { steps: Seq::empty(), ending: Some(error) }
    }
}

/// The plan of a token sequence: one expression that takes every token.
/// Tokens left over after the expression are an error.
pub open spec fn program(tokens: Seq<TokenView>) -> Plan {
    let whole = expression(tokens, 0);
    Plan {
        steps: whole.steps,
        ending: if whole.error is None && whole.consumed < tokens.len() {
            Some(CalcError::TrailingTokens)
        } else {
            whole.error
        },
    }
}

/// The plan of a text: that of the tokens of its arithmetic characters.
pub open spec fn plan_of(text: Seq<char>) -> Plan {
    if sanitized(text).len() == 0 {
        Plan::rejected(CalcError::EmptyExpression)
    } else {
        match tokens_of(sanitized(text)) {
            Ok(tokens) => program(tokens),
            Err(e) => Plan::rejected(e),
        }
    }
}

} // verus!
