use vstd::prelude::*;
use crate::error::CalcError;
use crate::binary64::{is_zero, negated};
use crate::evaluation::applied;
use crate::grammar::operator_token;
use crate::instruction::{InstrView, Operator};
use crate::token::TokenView;
use crate::tokenizer::is_decimal_literal;

verus! {

/// An expression as a tree: what the grammar derives, before it is
/// written as tokens or as instructions.
pub enum Expr {
    /// A literal, by its text.
    Number(Seq<char>),
    /// `- operand`
    Negation(Box<Expr>),
    /// `( inner )`
    Group(Box<Expr>),
    /// `left op right`
    Binary(Operator, Box<Expr>, Box<Expr>),
}

/// The character of an operation.
pub open spec fn operator_char(op: Operator) -> char {
    match op {
        Operator::Add => '+',
        Operator::Subtract => '-',
        Operator::Multiply => '*',
        Operator::Divide => '/',
    }
}

impl Expr {
    /// The tree written as text, with nothing between its tokens.
    pub open spec fn text(self) -> Seq<char>
        decreases self,
    {
        match self {
            Expr::Number(text) => text,
            Expr::Negation(operand) => seq!['-'] + operand.text(),
            Expr::Group(inner) => seq!['('] + inner.text() + seq![')'],
            Expr::Binary(op, left, right) => left.text() + seq![operator_char(op)] + right.text(),
        }
    }

    /// Every number of the tree is a decimal literal.
    pub open spec fn literals_valid(self) -> bool
        decreases self,
    {
        match self {
            Expr::Number(text) => is_decimal_literal(text),
            Expr::Negation(operand) => operand.literals_valid(),
            Expr::Group(inner) => inner.literals_valid(),
            Expr::Binary(_, left, right) => left.literals_valid() && right.literals_valid(),
        }
    }

    /// The tree written as tokens.
    pub open spec fn tokens(self) -> Seq<TokenView>
        decreases self,
    {
        match self {
            Expr::Number(text) => seq![TokenView::Number(text)],
            Expr::Negation(operand) => seq![TokenView::Minus] + operand.tokens(),
            Expr::Group(inner) => seq![TokenView::LeftParen] + inner.tokens()
                + seq![TokenView::RightParen],
            Expr::Binary(op, left, right) => left.tokens() + seq![operator_token(op)]
                + right.tokens(),
        }
    }

    /// The tree written as instructions: operands before their operation,
    /// the left operand before the right one.
    pub open spec fn steps(self) -> Seq<InstrView>
        decreases self,
    {
        match self {
            Expr::Number(text) => seq![InstrView::Push(text)],
            Expr::Negation(operand) => operand.steps().push(InstrView::Negate),
            Expr::Group(inner) => inner.steps(),
            Expr::Binary(op, left, right) => left.steps() + right.steps().push(
                InstrView::Apply(op),
            ),
        }
    }

    /// The value of the tree where `literal` gives each literal its value
    /// and `compute` gives each operation its result. The left operand is
    /// evaluated before the right one, and the first division by zero met
    /// is the outcome.
    pub open spec fn value(
        self,
        literal: spec_fn(Seq<char>) -> u64,
        compute: spec_fn(Operator, u64, u64) -> u64,
    ) -> Result<u64, CalcError>
        decreases self,
    {
        match self {
            Expr::Number(text) => Ok(literal(text)),
            Expr::Negation(operand) => match operand.value(literal, compute) {
                Ok(v) => Ok(negated(v)),
                Err(e) => Err(e),
            },
            Expr::Group(inner) => inner.value(literal, compute),
            Expr::Binary(op, left, right) => match left.value(literal, compute) {
                Ok(l) => match right.value(literal, compute) {
                    Ok(r) => applied(op, l, r, compute),
                    Err(e) => Err(e),
                },
                Err(e) => Err(e),
            },
        }
    }

    /// Some division in the tree has a right operand whose value is zero.
    pub open spec fn divides_by_zero(
        self,
        literal: spec_fn(Seq<char>) -> u64,
        compute: spec_fn(Operator, u64, u64) -> u64,
    ) -> bool
        decreases self,
    {
        match self {
            Expr::Number(_) => false,
            Expr::Negation(operand) => operand.divides_by_zero(literal, compute),
            Expr::Group(inner) => inner.divides_by_zero(literal, compute),
            Expr::Binary(op, left, right) => {
                ||| left.divides_by_zero(literal, compute)
                ||| right.divides_by_zero(literal, compute)
                ||| op == Operator::Divide && match right.value(literal, compute) {
                    Ok(r) => is_zero(r),
                    Err(_) => false,
                }
            },
        }
    }

    /// `factor := NUMBER | '(' expression ')' | '-' factor`
    pub open spec fn is_factor(self) -> bool
        decreases self, 0nat,
    {
        match self {
            Expr::Number(_) => true,
            Expr::Negation(operand) => operand.is_factor(),
            Expr::Group(inner) => inner.is_expression(),
            Expr::Binary(_, _, _) => false,
        }
    }

    /// `term := factor (('*' | '/') factor)*`, grouped to the left.
    pub open spec fn is_term(self) -> bool
        decreases self, 1nat,
    {
        match self {
            Expr::Binary(op, left, right) => (op == Operator::Multiply || op == Operator::Divide)
                && left.is_term() && right.is_factor(),
            _ => self.is_factor(),
        }
    }

    /// `expression := term (('+' | '-') term)*`, grouped to the left.
    pub open spec fn is_expression(self) -> bool
        decreases self, 2nat,
    {
        match self {
            Expr::Binary(op, left, right) => if op == Operator::Add || op == Operator::Subtract {
                left.is_expression() && right.is_term()
            } else {
                self.is_term()
            },
            _ => self.is_factor(),
        }
    }
}

/// A tree has a value unless one of its divisions has a right operand
/// whose value is zero, and then the division by zero is its outcome.
pub proof fn lemma_value_or_division_by_zero(
    tree: Expr,
    literal: spec_fn(Seq<char>) -> u64,
    compute: spec_fn(Operator, u64, u64) -> u64,
)
    ensures
        tree.divides_by_zero(literal, compute) <==> tree.value(literal, compute) is Err,
        tree.value(literal, compute) is Err ==> tree.value(literal, compute) == Err::<
            u64,
            CalcError,
        >(CalcError::DivisionByZero),
    decreases tree,
{
    match tree {
        Expr::Number(_) => {},
        Expr::Negation(operand) => {
            lemma_value_or_division_by_zero(*operand, literal, compute);
        },
        Expr::Group(inner) => {
            lemma_value_or_division_by_zero(*inner, literal, compute);
        },
        Expr::Binary(_, left, right) => {
            lemma_value_or_division_by_zero(*left, literal, compute);
            lemma_value_or_division_by_zero(*right, literal, compute);
        },
    }
}

} // verus!
