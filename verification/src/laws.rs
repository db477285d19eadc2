use vstd::prelude::*;
use crate::binary64::{is_zero, lemma_negated_twice, negated};
use crate::completeness::lemma_program_of_tree;
use crate::error::CalcError;
use crate::evaluation::{applied, EvaluationView};
use crate::execution::lemma_run_of_tree;
use crate::grammar::{plan_of, Plan};
use crate::instruction::{InstrView, Operator};
use crate::rendering::lemma_tokens_render_the_text;
use crate::sanitizer::{
    is_arithmetic, lemma_sanitized_idempotent, lemma_sanitized_ignores_noise, sanitized,
};
use crate::soundness::lemma_accepted_is_expression;
use crate::tokenizer::{is_decimal_literal, tokens_of};
use crate::tree::{lemma_value_or_division_by_zero, operator_char, Expr};
use crate::writing::{
    lemma_literals_of_tokens, lemma_rendered_tree, lemma_text_is_arithmetic,
    lemma_tokens_of_text,
};

verus! {

/// A text and its cleaned form have the same plan.
pub proof fn lemma_plan_of_sanitized(text: Seq<char>)
    ensures
        plan_of(sanitized(text)) == plan_of(text),
{
    lemma_sanitized_idempotent(text);
}

/// Characters that are not arithmetic, put anywhere into a text, do not
/// change its plan, and so not the outcome of any run of it.
pub proof fn lemma_plan_ignores_noise(before: Seq<char>, noise: Seq<char>, after: Seq<char>)
    requires
        forall|i: int| 0 <= i < noise.len() ==> !is_arithmetic(#[trigger] noise[i]),
    ensures
        plan_of(before + noise + after) == plan_of(before + after),
{
    lemma_sanitized_ignores_noise(before, noise, after);
}

/// Texts with the same arithmetic characters have the same plan, and so
/// every run of the one ends as the same run of the other.
pub proof fn lemma_same_characters_same_outcome(
    first: Seq<char>,
    second: Seq<char>,
    literal: spec_fn(Seq<char>) -> u64,
    compute: spec_fn(Operator, u64, u64) -> u64,
)
    requires
        sanitized(first) == sanitized(second),
    ensures
        plan_of(first) == plan_of(second),
        EvaluationView::start(plan_of(first)).run(literal, compute) == EvaluationView::start(
            plan_of(second),
        ).run(literal, compute),
{
}

/// A text whose arithmetic characters are the text of an expression has
/// the instructions of the expression for its plan, and no error.
pub proof fn lemma_plan_of_expression(tree: Expr, text: Seq<char>)
    requires
        tree.is_expression(),
        tree.literals_valid(),
        sanitized(text) == tree.text(),
    ensures
        plan_of(text) == (Plan { steps: tree.steps(), ending: None }),
{
    lemma_text_is_arithmetic(tree);
    lemma_tokens_of_text(tree);
    lemma_program_of_tree(tree);
}

/// A text whose arithmetic characters are the text of an expression is
/// evaluated to the value of the expression: every run of it applies the
/// operations as the grammar groups them, from left to right, and ends in
/// the first division by zero that it meets, if it meets one.
pub proof fn lemma_evaluation_of_expression(
    tree: Expr,
    text: Seq<char>,
    literal: spec_fn(Seq<char>) -> u64,
    compute: spec_fn(Operator, u64, u64) -> u64,
)
    requires
        tree.is_expression(),
        tree.literals_valid(),
        sanitized(text) == tree.text(),
    ensures
        EvaluationView::start(plan_of(text)).run(literal, compute) == tree.value(literal, compute),
{
    lemma_plan_of_expression(tree, text);
    lemma_run_of_tree(tree, literal, compute);
}

/// A text whose plan has no error is, but for its noise, the text of an
/// expression with valid literals, and its plan is the instructions of
/// that expression.
pub proof fn lemma_accepted_text_is_expression(text: Seq<char>) -> (tree: Expr)
    requires
        plan_of(text).ending is None,
    ensures
        tree.is_expression(),
        tree.literals_valid(),
        tree.text() == sanitized(text),
        tree.steps() == plan_of(text).steps,
{
    let clean = sanitized(text);
    let tokens = tokens_of(clean)->Ok_0;
    let tree = lemma_accepted_is_expression(tokens);
    lemma_tokens_render_the_text(clean);
    lemma_sanitized_idempotent(text);
    lemma_rendered_tree(tree);
    lemma_literals_of_tokens(tree);
    tree
}

/// Every run of a text whose plan has no error ends in the value of the
/// expression that the text is, but for its noise.
pub proof fn lemma_evaluation_of_accepted_text(
    text: Seq<char>,
    literal: spec_fn(Seq<char>) -> u64,
    compute: spec_fn(Operator, u64, u64) -> u64,
) -> (tree: Expr)
    requires
        plan_of(text).ending is None,
    ensures
        tree.is_expression(),
        tree.literals_valid(),
        tree.text() == sanitized(text),
        EvaluationView::start(plan_of(text)).run(literal, compute) == tree.value(literal, compute),
{
    let tree = lemma_accepted_text_is_expression(text);
    lemma_evaluation_of_expression(tree, text, literal, compute);
    tree
}

/// The operation that one of the characters `+ - * /` stands for.
pub open spec fn binary_operator(c: char) -> Option<Operator> {
    if c == '+' {
        Some(Operator::Add)
    } else if c == '-' {
        Some(Operator::Subtract)
    } else if c == '*' {
        Some(Operator::Multiply)
    } else if c == '/' {
        Some(Operator::Divide)
    } else {
        None
    }
}

/// For two decimal literals with one of `+ - * /` between them, and
/// noise anywhere, every run ends in the result of that operation on the
/// values of the literals, the left one first, unless it is a division by
/// zero.
pub proof fn lemma_two_operands(
    left: Seq<char>,
    c: char,
    right: Seq<char>,
    text: Seq<char>,
    literal: spec_fn(Seq<char>) -> u64,
    compute: spec_fn(Operator, u64, u64) -> u64,
)
    requires
        is_decimal_literal(left),
        is_decimal_literal(right),
        binary_operator(c) is Some,
        sanitized(text) == left + seq![c] + right,
    ensures
        EvaluationView::start(plan_of(text)).run(literal, compute) == applied(
            binary_operator(c)->Some_0,
            literal(left),
            literal(right),
            compute,
        ),
{
    let op = binary_operator(c)->Some_0;
    let tree = Expr::Binary(op, Box::new(Expr::Number(left)), Box::new(Expr::Number(right)));
    assert(Expr::Number(left).is_factor() && Expr::Number(right).is_factor());
    assert(Expr::Number(left).is_term() && Expr::Number(right).is_term());
    assert(Expr::Number(left).is_expression());
    assert(tree.is_term() || op == Operator::Add || op == Operator::Subtract);
    assert(tree.is_expression());
    assert(operator_char(op) == c);
    assert(Expr::Number(left).literals_valid() && Expr::Number(right).literals_valid());
    assert(tree.literals_valid());
    assert(tree.text() == left + seq![c] + right) by {
        assert(Expr::Number(left).text() == left && Expr::Number(right).text() == right);
    }
    assert(tree.value(literal, compute) == applied(op, literal(left), literal(right), compute))
        by {
        assert(Expr::Number(left).value(literal, compute) == Ok::<u64, CalcError>(literal(left)));
        assert(Expr::Number(right).value(literal, compute) == Ok::<u64, CalcError>(
            literal(right),
        ));
    }
    lemma_evaluation_of_expression(tree, text, literal, compute);
}

/// A division whose right operand is zero ends every run in the division
/// by zero, whatever the left operand is, whatever produced the two, and
/// whatever follows in the plan.
pub proof fn lemma_zero_divisor_ends_run(
    state: EvaluationView,
    literal: spec_fn(Seq<char>) -> u64,
    compute: spec_fn(Operator, u64, u64) -> u64,
)
    requires
        state.next < state.steps.len(),
        state.steps[state.next as int] == InstrView::Apply(Operator::Divide),
        is_zero(state.stack.last()),
    ensures
        state.run(literal, compute) == Err::<u64, CalcError>(CalcError::DivisionByZero),
{
}

/// A division whose right operand has the value zero gives the division
/// by zero, whatever its left operand is and however deep in parentheses
/// the right one stands.
pub proof fn lemma_division_by_zero(
    left: Expr,
    right: Expr,
    text: Seq<char>,
    literal: spec_fn(Seq<char>) -> u64,
    compute: spec_fn(Operator, u64, u64) -> u64,
)
    requires
        left.is_term(),
        right.is_factor(),
        left.literals_valid(),
        right.literals_valid(),
        sanitized(text) == left.text() + seq!['/'] + right.text(),
        right.value(literal, compute) is Ok,
        is_zero(right.value(literal, compute)->Ok_0),
    ensures
        EvaluationView::start(plan_of(text)).run(literal, compute) == Err::<u64, CalcError>(
            CalcError::DivisionByZero,
        ),
{
    let tree = Expr::Binary(Operator::Divide, Box::new(left), Box::new(right));
    assert(tree.is_term());
    assert(tree.divides_by_zero(literal, compute));
    lemma_value_or_division_by_zero(tree, literal, compute);
    lemma_evaluation_of_expression(tree, text, literal, compute);
}

/// Where some division of an expression, at any depth, has a right
/// operand whose value is zero, every run of its text ends in the
/// division by zero; where none has, every run ends in a value.
pub proof fn lemma_division_by_zero_anywhere(
    tree: Expr,
    text: Seq<char>,
    literal: spec_fn(Seq<char>) -> u64,
    compute: spec_fn(Operator, u64, u64) -> u64,
)
    requires
        tree.is_expression(),
        tree.literals_valid(),
        sanitized(text) == tree.text(),
    ensures
        tree.divides_by_zero(literal, compute) ==> EvaluationView::start(plan_of(text)).run(
            literal,
            compute,
        ) == Err::<u64, CalcError>(CalcError::DivisionByZero),
        !tree.divides_by_zero(literal, compute) ==> EvaluationView::start(plan_of(text)).run(
            literal,
            compute,
        ) is Ok,
{
    lemma_value_or_division_by_zero(tree, literal, compute);
    lemma_evaluation_of_expression(tree, text, literal, compute);
}

/// Two minus signs in front of an operand, with or without parentheses
/// between them, leave its value as it is; so do parentheses around it.
pub proof fn lemma_double_negation(
    operand: Expr,
    literal: spec_fn(Seq<char>) -> u64,
    compute: spec_fn(Operator, u64, u64) -> u64,
)
    ensures
        Expr::Group(Box::new(operand)).value(literal, compute) == operand.value(literal, compute),
        Expr::Negation(Box::new(Expr::Negation(Box::new(operand)))).value(literal, compute)
            == operand.value(literal, compute),
        Expr::Negation(
            Box::new(Expr::Group(Box::new(Expr::Negation(Box::new(operand))))),
        ).value(literal, compute) == operand.value(literal, compute),
{
    let inner = Expr::Negation(Box::new(operand));
    let group = Expr::Group(Box::new(inner));
    assert(group.value(literal, compute) == inner.value(literal, compute));
    if let Ok(v) = operand.value(literal, compute) {
        lemma_negated_twice(v);
        assert(inner.value(literal, compute) == Ok::<u64, CalcError>(negated(v)));
    }
}

} // verus!
