use vstd::prelude::*;
use crate::grammar::{
    additive_at, expression, expression_tail, factor, multiplicative_at, program, remaining,
    term, term_tail,
};
use crate::instruction::InstrView;
use crate::stack::{lemma_expression_tail_stack, lemma_factor_stack, lemma_term_tail_stack};
use crate::places::between;
use crate::token::TokenView;
use crate::tree::Expr;

verus! {

/// Where reading a factor succeeds, the tokens it took are those of a
/// tree that is a factor, and the instructions written are those of the
/// tree.
pub proof fn lemma_factor_derives(tokens: Seq<TokenView>, pos: nat) -> (tree: Expr)
    requires
        factor(tokens, pos).error is None,
    ensures
        tree.is_factor(),
        pos + factor(tokens, pos).consumed <= tokens.len(),
        tree.tokens() == between(tokens, pos, pos + factor(tokens, pos).consumed),
        tree.steps() == factor(tokens, pos).steps,
    decreases remaining(tokens, pos), 0nat,
{
    lemma_factor_stack(tokens, pos, 0);
    let end = pos + factor(tokens, pos).consumed;
    match tokens[pos as int] {
        TokenView::Number(text) => {
            let tree = Expr::Number(text);
            assert(tree.tokens() =~= between(tokens, pos, end));
            tree
        },
        TokenView::LeftParen => {
            let inner = lemma_expression_derives(tokens, pos + 1);
            let tree = Expr::Group(Box::new(inner));
            assert(tree.tokens() =~= between(tokens, pos, end));
            tree
        },
        TokenView::Minus => {
            let operand = lemma_factor_derives(tokens, pos + 1);
            let tree = Expr::Negation(Box::new(operand));
            assert(tree.tokens() =~= between(tokens, pos, end));
            tree
        },
        _ => Expr::Number(Seq::empty()),
    }
}

/// Where reading the operations after a term succeeds, the tokens from
/// the start of the term on are those of a tree that is a term.
pub proof fn lemma_term_tail_derives(
    tokens: Seq<TokenView>,
    pos: nat,
    left: Expr,
    start: nat,
) -> (tree: Expr)
    requires
        term_tail(tokens, pos).error is None,
        left.is_term(),
        start <= pos <= tokens.len(),
        left.tokens() == between(tokens, start, pos),
    ensures
        tree.is_term(),
        pos + term_tail(tokens, pos).consumed <= tokens.len(),
        tree.tokens() == between(tokens, start, pos + term_tail(tokens, pos).consumed),
        tree.steps() == left.steps() + term_tail(tokens, pos).steps,
    decreases remaining(tokens, pos), 0nat,
{
    lemma_term_tail_stack(tokens, pos, 1);
    if let Some(op) = multiplicative_at(tokens, pos) {
        let operand = factor(tokens, pos + 1);
        let right = lemma_factor_derives(tokens, pos + 1);
        let node = Expr::Binary(op, Box::new(left), Box::new(right));
        let at = pos + 1 + operand.consumed;
        assert(node.tokens() =~= between(tokens, start, at));
        let tree = lemma_term_tail_derives(tokens, at as nat, node, start);
        let rest = term_tail(tokens, at as nat);
        assert(left.steps() + (operand.steps.push(InstrView::Apply(op)) + rest.steps) =~= (
        left.steps() + right.steps().push(InstrView::Apply(op))) + rest.steps);
        tree
    } else {
        assert(left.steps() + Seq::<InstrView>::empty() =~= left.steps());
        left
    }
}

/// Where reading a term succeeds, the tokens it took are those of a tree
/// that is a term, and the instructions written are those of the tree.
pub proof fn lemma_term_derives(tokens: Seq<TokenView>, pos: nat) -> (tree: Expr)
    requires
        term(tokens, pos).error is None,
    ensures
        tree.is_term(),
        pos + term(tokens, pos).consumed <= tokens.len(),
        tree.tokens() == between(tokens, pos, pos + term(tokens, pos).consumed),
        tree.steps() == term(tokens, pos).steps,
    decreases remaining(tokens, pos), 1nat,
{
    let first = lemma_factor_derives(tokens, pos);
    lemma_term_tail_derives(tokens, pos + factor(tokens, pos).consumed, first, pos)
}

/// Where reading the operations after an expression succeeds, the tokens
/// from the start of the expression on are those of a tree that is an
/// expression.
pub proof fn lemma_expression_tail_derives(
    tokens: Seq<TokenView>,
    pos: nat,
    left: Expr,
    start: nat,
) -> (tree: Expr)
    requires
        expression_tail(tokens, pos).error is None,
        left.is_expression(),
        start <= pos <= tokens.len(),
        left.tokens() == between(tokens, start, pos),
    ensures
        tree.is_expression(),
        pos + expression_tail(tokens, pos).consumed <= tokens.len(),
        tree.tokens() == between(tokens, start, pos + expression_tail(tokens, pos).consumed),
        tree.steps() == left.steps() + expression_tail(tokens, pos).steps,
    decreases remaining(tokens, pos), 0nat,
{
    lemma_expression_tail_stack(tokens, pos, 1);
    if let Some(op) = additive_at(tokens, pos) {
        let operand = term(tokens, pos + 1);
        let right = lemma_term_derives(tokens, pos + 1);
        let node = Expr::Binary(op, Box::new(left), Box::new(right));
        let at = pos + 1 + operand.consumed;
        assert(node.tokens() =~= between(tokens, start, at));
        let tree = lemma_expression_tail_derives(tokens, at as nat, node, start);
        let rest = expression_tail(tokens, at as nat);
        assert(left.steps() + (operand.steps.push(InstrView::Apply(op)) + rest.steps) =~= (
        left.steps() + right.steps().push(InstrView::Apply(op))) + rest.steps);
        tree
    } else {
        assert(left.steps() + Seq::<InstrView>::empty() =~= left.steps());
        left
    }
}

/// Where reading an expression succeeds, the tokens it took are those of
/// a tree that is an expression, and the instructions written are those
/// of the tree.
pub proof fn lemma_expression_derives(tokens: Seq<TokenView>, pos: nat) -> (tree: Expr)
    requires
        expression(tokens, pos).error is None,
    ensures
        tree.is_expression(),
        pos + expression(tokens, pos).consumed <= tokens.len(),
        tree.tokens() == between(tokens, pos, pos + expression(tokens, pos).consumed),
        tree.steps() == expression(tokens, pos).steps,
    decreases remaining(tokens, pos), 2nat,
{
    let first = lemma_term_derives(tokens, pos);
    lemma_expression_tail_derives(tokens, pos + term(tokens, pos).consumed, first, pos)
}

/// Tokens whose plan has no error are the tokens of an expression, and
/// the plan is the instructions of its tree.
pub proof fn lemma_accepted_is_expression(tokens: Seq<TokenView>) -> (tree: Expr)
    requires
        program(tokens).ending is None,
    ensures
        tree.is_expression(),
        tree.tokens() == tokens,
        tree.steps() == program(tokens).steps,
{
    let tree = lemma_expression_derives(tokens, 0);
    assert(tokens.subrange(0, tokens.len() as int) =~= tokens);
    tree
}

} // verus!
