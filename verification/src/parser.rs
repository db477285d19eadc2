use vstd::prelude::*;
use crate::error::CalcError;
use crate::grammar::{
    additive_at, expression, expression_tail, factor, multiplicative_at, remaining, term,
    term_tail, Descent,
};
use crate::instruction::{instr_views, Instr, InstrView, Operator};
use crate::token::{token_views, Token};

verus! {

/// What a parsing function reports of the reading `descent` that it
/// performed from `pos`: the position after it, or its error.
pub open spec fn reports(
    result: Result<usize, CalcError>,
    pos: usize,
    descent: Descent,
) -> bool {
    match result {
        Ok(next) => descent.error is None && next == pos + descent.consumed,
        Err(e) => descent.error == Some(e),
    }
}

fn peek_additive(tokens: &Vec<Token>, pos: usize) -> (op: Option<Operator>)
    ensures
        op == additive_at(token_views(tokens@), pos as nat),
{
    if pos >= tokens.len() {
        return None;
    }
    assert(token_views(tokens@)[pos as int] == tokens@[pos as int]@);
    match &tokens[pos] {
        Token::Plus => Some(Operator::Add),
        Token::Minus => Some(Operator::Subtract),
        _ => None,
    }
}

fn peek_multiplicative(tokens: &Vec<Token>, pos: usize) -> (op: Option<Operator>)
    ensures
        op == multiplicative_at(token_views(tokens@), pos as nat),
{
    if pos >= tokens.len() {
        return None;
    }
    assert(token_views(tokens@)[pos as int] == tokens@[pos as int]@);
    match &tokens[pos] {
        Token::Multiply => Some(Operator::Multiply),
        Token::Divide => Some(Operator::Divide),
        _ => None,
    }
}

fn emit(steps: &mut Vec<Instr>, instr: Instr)
    ensures
        instr_views(final(steps)@) == instr_views(old(steps)@).push(instr@),
{
    steps.push(instr);
    assert(instr_views(steps@) =~= instr_views(old(steps)@).push(instr@));
}

/// Reads a factor at `pos` and appends its instructions to `steps`.
pub fn parse_factor(tokens: &Vec<Token>, pos: usize, steps: &mut Vec<Instr>) -> (result: Result<
    usize,
    CalcError,
>)
    ensures
        instr_views(final(steps)@) == instr_views(old(steps)@) + factor(
            token_views(tokens@),
            pos as nat,
        ).steps,
        reports(result, pos, factor(token_views(tokens@), pos as nat)),
        result is Ok ==> result->Ok_0 <= tokens.len(),
    decreases remaining(token_views(tokens@), pos as nat), 0nat,
{
    let ghost before = instr_views(steps@);
    if pos >= tokens.len() {
        assert(before + Seq::<InstrView>::empty() =~= before);
        return Err(CalcError::UnexpectedEndOfExpression);
    }
    assert(token_views(tokens@)[pos as int] == tokens@[pos as int]@);
    match &tokens[pos] {
        Token::Number(text) => {
            emit(steps, Instr::Push(text.clone()));
            assert(before.push(InstrView::Push(text@)) =~= before + seq![InstrView::Push(text@)]);
            Ok(pos + 1)
        },
        Token::LeftParen => {
            match parse_expression(tokens, pos + 1, steps) {
                Ok(close) => {
                    if close < tokens.len() {
                        assert(token_views(tokens@)[close as int] == tokens@[close as int]@);
                        if let Token::RightParen = &tokens[close] {
                            return Ok(close + 1);
                        }
                    }
                    Err(CalcError::MissingClosingParenthesis)
                },
                Err(e) => Err(e),
            }
        },
        Token::Minus => {
            let ghost operand = factor(token_views(tokens@), (pos + 1) as nat);
            match parse_factor(tokens, pos + 1, steps) {
                Ok(next) => {
                    emit(steps, Instr::Negate);
                    assert((before + operand.steps).push(InstrView::Negate) =~= before
                        + operand.steps.push(InstrView::Negate));
                    Ok(next)
                },
                Err(e) => Err(e),
            }
        },
        _ => {
            assert(before + Seq::<InstrView>::empty() =~= before);
            Err(CalcError::UnexpectedToken)
        },
    }
}

/// Reads a term at `pos` and appends its instructions to `steps`.
pub fn parse_term(tokens: &Vec<Token>, pos: usize, steps: &mut Vec<Instr>) -> (result: Result<
    usize,
    CalcError,
>)
    ensures
        instr_views(final(steps)@) == instr_views(old(steps)@) + term(
            token_views(tokens@),
            pos as nat,
        ).steps,
        reports(result, pos, term(token_views(tokens@), pos as nat)),
        result is Ok ==> result->Ok_0 <= tokens.len(),
    decreases remaining(token_views(tokens@), pos as nat), 1nat,
{
    let ghost before = instr_views(steps@);
    let ghost views = token_views(tokens@);
    let ghost first = factor(views, pos as nat);
    let mut at = match parse_factor(tokens, pos, steps) {
        Ok(next) => next,
        Err(e) => { return Err(e); },
    };
    assert(first.steps + Seq::<InstrView>::empty() =~= first.steps);
    let mut ahead = peek_multiplicative(tokens, at);
    while ahead.is_some()
        invariant
            pos <= at <= tokens.len(),
            views == token_views(tokens@),
            before == instr_views(old(steps)@),
            ahead == multiplicative_at(views, at as nat),
            term(views, pos as nat).error == term_tail(views, at as nat).error,
            term(views, pos as nat).consumed == (at - pos) + term_tail(views, at as nat).consumed,
            before + term(views, pos as nat).steps == instr_views(steps@) + term_tail(
                views,
                at as nat,
            ).steps,
        decreases tokens.len() - at,
    {
        let op = ahead.unwrap();
        let ghost written = instr_views(steps@);
        let ghost right = factor(views, (at + 1) as nat);
        match parse_factor(tokens, at + 1, steps) {
            Ok(next) => {
                emit(steps, Instr::Apply(op));
                proof {
                    let closed = right.closed_by(InstrView::Apply(op));
                    let rest = term_tail(views, next as nat);
                    assert(instr_views(steps@) =~= written + closed.steps);
                    assert(written + (closed.steps + rest.steps) =~= (written + closed.steps)
                        + rest.steps);
                }
                at = next;
                ahead = peek_multiplicative(tokens, at);
            },
            Err(e) => { return Err(e); },
        }
    }
    assert(instr_views(steps@) + Seq::<InstrView>::empty() =~= instr_views(steps@));
    Ok(at)
}

/// Reads an expression at `pos` and appends its instructions to `steps`.
pub fn parse_expression(tokens: &Vec<Token>, pos: usize, steps: &mut Vec<Instr>) -> (result:
    Result<usize, CalcError>)
    ensures
        instr_views(final(steps)@) == instr_views(old(steps)@) + expression(
            token_views(tokens@),
            pos as nat,
        ).steps,
        reports(result, pos, expression(token_views(tokens@), pos as nat)),
        result is Ok ==> result->Ok_0 <= tokens.len(),
    decreases remaining(token_views(tokens@), pos as nat), 2nat,
{
    let ghost before = instr_views(steps@);
    let ghost views = token_views(tokens@);
    let ghost first = term(views, pos as nat);
    let mut at = match parse_term(tokens, pos, steps) {
        Ok(next) => next,
        Err(e) => { return Err(e); },
    };
    assert(first.steps + Seq::<InstrView>::empty() =~= first.steps);
    let mut ahead = peek_additive(tokens, at);
    while ahead.is_some()
        invariant
            pos <= at <= tokens.len(),
            views == token_views(tokens@),
            before == instr_views(old(steps)@),
            ahead == additive_at(views, at as nat),
            expression(views, pos as nat).error == expression_tail(views, at as nat).error,
            expression(views, pos as nat).consumed == (at - pos) + expression_tail(
                views,
                at as nat,
            ).consumed,
            before + expression(views, pos as nat).steps == instr_views(steps@) + expression_tail(
                views,
                at as nat,
            ).steps,
        decreases tokens.len() - at,
    {
        let op = ahead.unwrap();
        let ghost written = instr_views(steps@);
        let ghost right = term(views, (at + 1) as nat);
        match parse_term(tokens, at + 1, steps) {
            Ok(next) => {
                emit(steps, Instr::Apply(op));
                proof {
                    let closed = right.closed_by(InstrView::Apply(op));
                    let rest = expression_tail(views, next as nat);
                    assert(instr_views(steps@) =~= written + closed.steps);
                    assert(written + (closed.steps + rest.steps) =~= (written + closed.steps)
                        + rest.steps);
                }
                at = next;
                ahead = peek_additive(tokens, at);
            },
            Err(e) => { return Err(e); },
        }
    }
    assert(instr_views(steps@) + Seq::<InstrView>::empty() =~= instr_views(steps@));
    Ok(at)
}

} // verus!
