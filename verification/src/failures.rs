use vstd::prelude::*;
use crate::error::CalcError;
use crate::evaluation::{lemma_resumed_moves_on, ActionView, EvaluationView};
use crate::grammar::{
    expression, expression_tail, factor, plan_of, remaining, term, term_tail, Descent,
};
use crate::instruction::Operator;
use crate::rendering::lemma_scan_cuts_well;
use crate::sanitizer::sanitized;
use crate::token::TokenView;
use crate::tokenizer::tokens_of;

verus! {

/// The errors that reading tokens can stop on.
pub open spec fn is_reading_error(error: CalcError) -> bool {
    error == CalcError::MissingClosingParenthesis || error == CalcError::UnexpectedToken || error
        == CalcError::UnexpectedEndOfExpression
}

/// A reading that succeeded or stopped on one of the errors of reading.
pub open spec fn fails_by_reading(reading: Descent) -> bool {
    match reading.error {
        Some(e) => is_reading_error(e),
        None => true,
    }
}

/// Reading a factor stops on no other error than those of reading.
pub proof fn lemma_factor_failures(tokens: Seq<TokenView>, pos: nat)
    ensures
        fails_by_reading(factor(tokens, pos)),
    decreases remaining(tokens, pos), 0nat,
{
    if pos < tokens.len() {
        match tokens[pos as int] {
            TokenView::LeftParen => {
                lemma_expression_failures(tokens, pos + 1);
            },
            TokenView::Minus => {
                lemma_factor_failures(tokens, pos + 1);
            },
            _ => {},
        }
    }
}

/// Reading the operations after a factor stops on no other error than
/// those of reading.
pub proof fn lemma_term_tail_failures(tokens: Seq<TokenView>, pos: nat)
    ensures
        fails_by_reading(term_tail(tokens, pos)),
    decreases remaining(tokens, pos), 0nat,
{
    if pos < tokens.len() {
        lemma_factor_failures(tokens, pos + 1);
        let right = factor(tokens, pos + 1);
        if right.error is None {
            lemma_term_tail_failures(tokens, pos + 1 + right.consumed);
        }
    }
}

/// Reading a term stops on no other error than those of reading.
pub proof fn lemma_term_failures(tokens: Seq<TokenView>, pos: nat)
    ensures
        fails_by_reading(term(tokens, pos)),
    decreases remaining(tokens, pos), 1nat,
{
    lemma_factor_failures(tokens, pos);
    lemma_term_tail_failures(tokens, pos + factor(tokens, pos).consumed);
}

/// Reading the operations after a term stops on no other error than
/// those of reading.
pub proof fn lemma_expression_tail_failures(tokens: Seq<TokenView>, pos: nat)
    ensures
        fails_by_reading(expression_tail(tokens, pos)),
    decreases remaining(tokens, pos), 0nat,
{
    if pos < tokens.len() {
        lemma_term_failures(tokens, pos + 1);
        let right = term(tokens, pos + 1);
        if right.error is None {
            lemma_expression_tail_failures(tokens, pos + 1 + right.consumed);
        }
    }
}

/// Reading an expression stops on no other error than those of reading.
pub proof fn lemma_expression_failures(tokens: Seq<TokenView>, pos: nat)
    ensures
        fails_by_reading(expression(tokens, pos)),
    decreases remaining(tokens, pos), 2nat,
{
    lemma_term_failures(tokens, pos);
    lemma_expression_tail_failures(tokens, pos + term(tokens, pos).consumed);
}

/// Which error a plan ends in: the empty expression exactly where the
/// text has no arithmetic character; the bad number exactly where it has
/// some and they cannot be cut into tokens; the trailing tokens exactly
/// where an expression was read and tokens are left; else an error of
/// reading, or none. The division by zero is never the error of a plan.
pub proof fn lemma_plan_endings(text: Seq<char>)
    ensures
        plan_of(text).ending == Some(CalcError::EmptyExpression) <==> sanitized(text).len() == 0,
        plan_of(text).ending == Some(CalcError::InvalidNumberFormat) <==> sanitized(text).len() > 0
            && tokens_of(sanitized(text)) is Err,
        plan_of(text).ending == Some(CalcError::TrailingTokens) <==> sanitized(text).len() > 0 && (
        match tokens_of(sanitized(text)) {
            Ok(tokens) => expression(tokens, 0).error is None && expression(tokens, 0).consumed
                < tokens.len(),
            Err(_) => false,
        }),
        plan_of(text).ending != Some(CalcError::DivisionByZero),
        plan_of(text).ending is Some && sanitized(text).len() > 0 && tokens_of(
            sanitized(text),
        ) is Ok ==> plan_of(text).ending == Some(CalcError::TrailingTokens) || is_reading_error(
            plan_of(text).ending->Some_0,
        ),
{
    lemma_scan_cuts_well(Seq::empty(), sanitized(text));
    if let Ok(tokens) = tokens_of(sanitized(text)) {
        lemma_expression_failures(tokens, 0);
    }
}

/// How a run ends: in a value only if the plan has no error; in an error
/// only if it is the error of the plan or the division by zero.
pub proof fn lemma_run_endings(
    state: EvaluationView,
    literal: spec_fn(Seq<char>) -> u64,
    compute: spec_fn(Operator, u64, u64) -> u64,
)
    ensures
        match state.run(literal, compute) {
            Ok(_) => state.ending is None,
            Err(e) => e == CalcError::DivisionByZero || state.ending == Some(e),
        },
    decreases state.steps.len() - state.next,
{
    match state.action() {
        ActionView::Finished(_) => {},
        ActionView::Convert(text) => {
            lemma_resumed_moves_on(state, literal(text));
            lemma_run_endings(state.resumed(literal(text)), literal, compute);
        },
        ActionView::Compute(op, left, right) => {
            lemma_resumed_moves_on(state, compute(op, left, right));
            lemma_run_endings(state.resumed(compute(op, left, right)), literal, compute);
        },
    }
}

} // verus!
