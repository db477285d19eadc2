use vstd::prelude::*;
use crate::grammar::{
    expression, expression_tail, factor, multiplicative_at, operator_token, program, term,
    term_tail, Descent, Plan,
};
use crate::instruction::{InstrView, Operator};
use crate::token::TokenView;
use crate::places::{lemma_stands_at_parts, stands_at};
use crate::tree::Expr;

verus! {

/// The reading that takes the tokens of `tree` and writes its instructions.
pub open spec fn reading_of(tree: Expr) -> Descent {
    Descent { steps: tree.steps(), consumed: tree.tokens().len(), error: None }
}

/// Where the tokens of a factor stand, reading a factor takes exactly
/// them and writes the instructions of the tree.
pub proof fn lemma_factor_reads(tree: Expr, tokens: Seq<TokenView>, pos: nat)
    requires
        tree.is_factor(),
        stands_at(tree.tokens(), tokens, pos),
    ensures
        factor(tokens, pos) == reading_of(tree),
    decreases tree, 0nat,
{
    match tree {
        Expr::Number(text) => {
            assert(tree.tokens()[0] == TokenView::Number(text));
        },
        Expr::Negation(operand) => {
            let head = seq![TokenView::Minus];
            lemma_stands_at_parts(head, operand.tokens(), tokens, pos);
            assert(head[0] == TokenView::Minus);
            lemma_factor_reads(*operand, tokens, pos + 1);
        },
        Expr::Group(inner) => {
            let head = seq![TokenView::LeftParen];
            let close = seq![TokenView::RightParen];
            lemma_stands_at_parts(head + inner.tokens(), close, tokens, pos);
            lemma_stands_at_parts(head, inner.tokens(), tokens, pos);
            assert(head[0] == TokenView::LeftParen);
            assert(close[0] == TokenView::RightParen);
            let end = pos + 1 + inner.tokens().len();
            assert(tokens[end as int] == TokenView::RightParen);
            lemma_expression_reads(*inner, tokens, pos + 1);
            assert(expression_tail(tokens, end as nat) == Descent::nothing());
            assert(inner.steps() + Seq::<InstrView>::empty() =~= inner.steps());
        },
        Expr::Binary(_, _, _) => {},
    }
}

/// Where the tokens of a term stand, reading a term takes them, writes
/// the instructions of the tree, and goes on with the operations that
/// follow.
pub proof fn lemma_term_reads(tree: Expr, tokens: Seq<TokenView>, pos: nat)
    requires
        tree.is_term(),
        stands_at(tree.tokens(), tokens, pos),
    ensures
        term(tokens, pos) == reading_of(tree).followed_by(
            term_tail(tokens, pos + tree.tokens().len()),
        ),
    decreases tree, 1nat,
{
    match tree {
        Expr::Binary(op, left, right) => {
            let sign = seq![operator_token(op)];
            lemma_stands_at_parts(left.tokens() + sign, right.tokens(), tokens, pos);
            lemma_stands_at_parts(left.tokens(), sign, tokens, pos);
            assert(sign[0] == operator_token(op));
            let at = pos + left.tokens().len();
            assert(tokens[at as int] == operator_token(op));
            lemma_term_reads(*left, tokens, pos);
            lemma_factor_reads(*right, tokens, (at + 1) as nat);
            let closed = reading_of(*right).closed_by(InstrView::Apply(op));
            let rest = term_tail(tokens, pos + tree.tokens().len());
            assert(term_tail(tokens, at as nat) == closed.followed_by(rest));
            assert(left.steps() + (closed.steps + rest.steps) =~= (left.steps() + closed.steps)
                + rest.steps);
        },
        _ => {
            lemma_factor_reads(tree, tokens, pos);
        },
    }
}

/// Where the tokens of an expression stand and no `*` or `/` follows
/// them, reading an expression takes them, writes the instructions of the
/// tree, and goes on with the operations that follow.
pub proof fn lemma_expression_reads(tree: Expr, tokens: Seq<TokenView>, pos: nat)
    requires
        tree.is_expression(),
        stands_at(tree.tokens(), tokens, pos),
        multiplicative_at(tokens, pos + tree.tokens().len()) is None,
    ensures
        expression(tokens, pos) == reading_of(tree).followed_by(
            expression_tail(tokens, pos + tree.tokens().len()),
        ),
    decreases tree, 2nat,
{
    let end = pos + tree.tokens().len();
    match tree {
        Expr::Binary(op, left, right) if op == Operator::Add || op == Operator::Subtract => {
            let sign = seq![operator_token(op)];
            lemma_stands_at_parts(left.tokens() + sign, right.tokens(), tokens, pos);
            lemma_stands_at_parts(left.tokens(), sign, tokens, pos);
            assert(sign[0] == operator_token(op));
            let at = pos + left.tokens().len();
            assert(tokens[at as int] == operator_token(op));
            lemma_expression_reads(*left, tokens, pos);
            lemma_term_reads(*right, tokens, (at + 1) as nat);
            assert(term_tail(tokens, end as nat) == Descent::nothing());
            assert(right.steps() + Seq::<InstrView>::empty() =~= right.steps());
            let closed = reading_of(*right).closed_by(InstrView::Apply(op));
            let rest = expression_tail(tokens, end as nat);
            assert(expression_tail(tokens, at as nat) == closed.followed_by(rest));
            assert(left.steps() + (closed.steps + rest.steps) =~= (left.steps() + closed.steps)
                + rest.steps);
        },
        _ => {
            lemma_term_reads(tree, tokens, pos);
            assert(term_tail(tokens, end as nat) == Descent::nothing());
            assert(tree.steps() + Seq::<InstrView>::empty() =~= tree.steps());
        },
    }
}

/// The plan of the tokens of an expression is the instructions of its
/// tree, with no error.
pub proof fn lemma_program_of_tree(tree: Expr)
    requires
        tree.is_expression(),
    ensures
        program(tree.tokens()) == (Plan { steps: tree.steps(), ending: None }),
{
    let tokens = tree.tokens();
    lemma_expression_reads(tree, tokens, 0);
    assert(expression_tail(tokens, tokens.len()) == Descent::nothing());
    assert(tree.steps() + Seq::<InstrView>::empty() =~= tree.steps());
}

} // verus!
