use vstd::prelude::*;
use crate::error::CalcError;
use crate::grammar::operator_token;
use crate::rendering::{
    lemma_prefixed_twice, lemma_rendered_concat, lemma_rendered_one, lemma_scan_number,
    lemma_scan_symbol, numbers_valid, rendered, token_text,
};
use crate::sanitizer::{is_arithmetic, is_symbol};
use crate::token::TokenView;
use crate::tokenizer::{is_decimal_literal, prefixed, scan, symbol_token, tokens_of};
use crate::tree::{operator_char, Expr};

verus! {

/// The text of a tree, followed by nothing or by a symbol, is cut into
/// the tokens of the tree, and then into those of what follows.
pub proof fn lemma_scan_tree(tree: Expr, rest: Seq<char>)
    requires
        tree.literals_valid(),
        rest.len() == 0 || is_symbol(rest[0]),
    ensures
        scan(Seq::empty(), tree.text() + rest) == prefixed(
            tree.tokens(),
            scan(Seq::empty(), rest),
        ),
    decreases tree,
{
    let after = scan(Seq::empty(), rest);
    match tree {
        Expr::Number(text) => {
            lemma_scan_number(text, rest);
        },
        Expr::Negation(operand) => {
            assert(tree.text() + rest =~= seq!['-'] + (operand.text() + rest));
            lemma_scan_symbol('-', operand.text() + rest);
            lemma_scan_tree(*operand, rest);
            lemma_prefixed_twice(seq![TokenView::Minus], operand.tokens(), after);
        },
        Expr::Group(inner) => {
            let closed = seq![')'] + rest;
            assert(tree.text() + rest =~= seq!['('] + (inner.text() + closed));
            lemma_scan_symbol('(', inner.text() + closed);
            assert(closed[0] == ')');
            lemma_scan_tree(*inner, closed);
            lemma_scan_symbol(')', rest);
            lemma_prefixed_twice(inner.tokens(), seq![TokenView::RightParen], after);
            lemma_prefixed_twice(
                seq![TokenView::LeftParen],
                inner.tokens() + seq![TokenView::RightParen],
                after,
            );
            assert(seq![TokenView::LeftParen] + (inner.tokens() + seq![TokenView::RightParen])
                =~= tree.tokens());
        },
        Expr::Binary(op, left, right) => {
            let c = operator_char(op);
            let second = seq![c] + (right.text() + rest);
            assert(tree.text() + rest =~= left.text() + second);
            assert(second[0] == c);
            lemma_scan_tree(*left, second);
            lemma_scan_symbol(c, right.text() + rest);
            lemma_scan_tree(*right, rest);
            assert(symbol_token(c) == operator_token(op));
            lemma_prefixed_twice(seq![operator_token(op)], right.tokens(), after);
            lemma_prefixed_twice(left.tokens(), seq![operator_token(op)] + right.tokens(), after);
            assert(left.tokens() + (seq![operator_token(op)] + right.tokens())
                =~= tree.tokens());
        },
    }
}

/// The text of a tree is made of arithmetic characters, and has some.
pub proof fn lemma_text_is_arithmetic(tree: Expr)
    requires
        tree.literals_valid(),
    ensures
        tree.text().len() >= 1,
        forall|i: int| 0 <= i < tree.text().len() ==> is_arithmetic(#[trigger] tree.text()[i]),
    decreases tree,
{
    match tree {
        Expr::Number(text) => {},
        Expr::Negation(operand) => {
            lemma_text_is_arithmetic(*operand);
        },
        Expr::Group(inner) => {
            lemma_text_is_arithmetic(*inner);
        },
        Expr::Binary(op, left, right) => {
            lemma_text_is_arithmetic(*left);
            lemma_text_is_arithmetic(*right);
        },
    }
}

/// The tokens of the text of a tree are the tokens of the tree.
pub proof fn lemma_tokens_of_text(tree: Expr)
    requires
        tree.literals_valid(),
    ensures
        tokens_of(tree.text()) == Ok::<Seq<TokenView>, CalcError>(tree.tokens()),
{
    lemma_scan_tree(tree, Seq::empty());
    assert(tree.text() + Seq::<char>::empty() =~= tree.text());
    assert(tree.tokens() + Seq::<TokenView>::empty() =~= tree.tokens());
}

/// The tokens of a tree, written out, are the text of the tree.
pub proof fn lemma_rendered_tree(tree: Expr)
    ensures
        rendered(tree.tokens()) == tree.text(),
    decreases tree,
{
    match tree {
        Expr::Number(text) => {
            lemma_rendered_one(TokenView::Number(text));
        },
        Expr::Negation(operand) => {
            lemma_rendered_tree(*operand);
            lemma_rendered_concat(seq![TokenView::Minus], operand.tokens());
            lemma_rendered_one(TokenView::Minus);
        },
        Expr::Group(inner) => {
            lemma_rendered_tree(*inner);
            lemma_rendered_concat(
                seq![TokenView::LeftParen] + inner.tokens(),
                seq![TokenView::RightParen],
            );
            lemma_rendered_concat(seq![TokenView::LeftParen], inner.tokens());
            lemma_rendered_one(TokenView::LeftParen);
            lemma_rendered_one(TokenView::RightParen);
        },
        Expr::Binary(op, left, right) => {
            lemma_rendered_tree(*left);
            lemma_rendered_tree(*right);
            lemma_rendered_concat(left.tokens() + seq![operator_token(op)], right.tokens());
            lemma_rendered_concat(left.tokens(), seq![operator_token(op)]);
            lemma_rendered_one(operator_token(op));
            assert(token_text(operator_token(op)) =~= seq![operator_char(op)]);
        },
    }
}

/// Where the numbers of two sequences together are valid, those of each
/// are.
pub proof fn lemma_numbers_valid_parts(first: Seq<TokenView>, second: Seq<TokenView>)
    requires
        numbers_valid(first + second),
    ensures
        numbers_valid(first),
        numbers_valid(second),
{
    let both = first + second;
    assert forall|i: int|
        0 <= i < first.len() && (#[trigger] first[i]) is Number implies is_decimal_literal(
        first[i]->Number_0,
    ) by {
        assert(both[i] == first[i]);
    }
    assert forall|i: int|
        0 <= i < second.len() && (#[trigger] second[i]) is Number implies is_decimal_literal(
        second[i]->Number_0,
    ) by {
        assert(both[first.len() + i] == second[i]);
    }
}

/// A tree whose number tokens are decimal literals has valid literals.
pub proof fn lemma_literals_of_tokens(tree: Expr)
    requires
        numbers_valid(tree.tokens()),
    ensures
        tree.literals_valid(),
    decreases tree,
{
    match tree {
        Expr::Number(text) => {
            assert(tree.tokens()[0] == TokenView::Number(text));
        },
        Expr::Negation(operand) => {
            lemma_numbers_valid_parts(seq![TokenView::Minus], operand.tokens());
            lemma_literals_of_tokens(*operand);
        },
        Expr::Group(inner) => {
            lemma_numbers_valid_parts(
                seq![TokenView::LeftParen] + inner.tokens(),
                seq![TokenView::RightParen],
            );
            lemma_numbers_valid_parts(seq![TokenView::LeftParen], inner.tokens());
            lemma_literals_of_tokens(*inner);
        },
        Expr::Binary(op, left, right) => {
            lemma_numbers_valid_parts(left.tokens() + seq![operator_token(op)], right.tokens());
            lemma_numbers_valid_parts(left.tokens(), seq![operator_token(op)]);
            lemma_literals_of_tokens(*left);
            lemma_literals_of_tokens(*right);
        },
    }
}

} // verus!
