use vstd::prelude::*;
use crate::binary64::negated;
use crate::evaluation::EvaluationView;
use crate::grammar::{program, Plan};
use crate::instruction::{InstrView, Operator};
use crate::completeness::lemma_program_of_tree;
use crate::places::{lemma_stands_at_parts, stands_at};
use crate::tree::Expr;

verus! {

/// The instructions of a tree begin with a push.
pub proof fn lemma_steps_begin_with_push(tree: Expr)
    ensures
        tree.steps().len() >= 1,
        tree.steps()[0] is Push,
    decreases tree,
{
    match tree {
        Expr::Number(_) => {},
        Expr::Negation(operand) => {
            lemma_steps_begin_with_push(*operand);
        },
        Expr::Group(inner) => {
            lemma_steps_begin_with_push(*inner);
        },
        Expr::Binary(_, left, right) => {
            lemma_steps_begin_with_push(*left);
        },
    }
}

/// The state in which `value` has been put on the stack of `state` and
/// `count` instructions more have run.
pub open spec fn advanced(state: EvaluationView, count: nat, value: u64) -> EvaluationView {
    EvaluationView { next: state.next + count, stack: state.stack.push(value), ..state }
}

/// From a state in which the instructions of a tree stand next, a run
/// goes on as from the state in which they have run and the value of the
/// tree is on the stack; where the tree has no value, the run ends in the
/// error of the tree.
pub proof fn lemma_run_through(
    tree: Expr,
    state: EvaluationView,
    literal: spec_fn(Seq<char>) -> u64,
    compute: spec_fn(Operator, u64, u64) -> u64,
)
    requires
        stands_at(tree.steps(), state.steps, state.next),
    ensures
        state.run(literal, compute) == match tree.value(literal, compute) {
            Ok(value) => advanced(state, tree.steps().len(), value).settled().run(
                literal,
                compute,
            ),
            Err(e) => Err(e),
        },
    decreases tree,
{
    match tree {
        Expr::Number(text) => {
            assert(tree.steps()[0] == InstrView::Push(text));
            assert(state.steps[state.next as int] == InstrView::Push(text));
        },
        Expr::Negation(operand) => {
            let sign = seq![InstrView::Negate];
            assert(tree.steps() =~= operand.steps() + sign);
            lemma_stands_at_parts(operand.steps(), sign, state.steps, state.next);
            assert(sign[0] == InstrView::Negate);
            lemma_run_through(*operand, state, literal, compute);
            if let Ok(value) = operand.value(literal, compute) {
                let before = advanced(state, operand.steps().len(), value);
                let after = advanced(state, tree.steps().len(), negated(value));
                assert(state.steps[before.next as int] == InstrView::Negate);
                assert(before.stack.drop_last().push(negated(before.stack.last()))
                    =~= after.stack);
                assert(before.settled() == after.settled());
            }
        },
        Expr::Group(inner) => {
            lemma_run_through(*inner, state, literal, compute);
        },
        Expr::Binary(op, left, right) => {
            let sign = seq![InstrView::Apply(op)];
            assert(tree.steps() =~= left.steps() + right.steps() + sign);
            lemma_stands_at_parts(left.steps() + right.steps(), sign, state.steps, state.next);
            lemma_stands_at_parts(left.steps(), right.steps(), state.steps, state.next);
            assert(sign[0] == InstrView::Apply(op));
            lemma_run_through(*left, state, literal, compute);
            if let Ok(l) = left.value(literal, compute) {
                let first = advanced(state, left.steps().len(), l);
                lemma_steps_begin_with_push(*right);
                assert(state.steps[first.next as int] == right.steps()[0]);
                assert(first.settled() == first);
                lemma_run_through(*right, first, literal, compute);
                if let Ok(r) = right.value(literal, compute) {
                    let second = advanced(first, right.steps().len(), r);
                    assert(state.steps[second.next as int] == InstrView::Apply(op));
                    assert(second.settled() == second);
                    assert(second.stack.last() == r);
                    assert(second.stack[second.stack.len() - 2] == l);
                    if let Ok(value) = tree.value(literal, compute) {
                        let last = advanced(state, tree.steps().len(), value);
                        assert(second.stack.drop_last().drop_last().push(value) =~= last.stack);
                        assert(second.resumed(value) == last.settled());
                    }
                }
            }
        },
    }
}

/// Every run of the instructions of a tree ends in the value of the tree.
pub proof fn lemma_run_of_tree(
    tree: Expr,
    literal: spec_fn(Seq<char>) -> u64,
    compute: spec_fn(Operator, u64, u64) -> u64,
)
    ensures
        EvaluationView::start(Plan { steps: tree.steps(), ending: None }).run(literal, compute)
            == tree.value(literal, compute),
{
    let state = EvaluationView::start(Plan { steps: tree.steps(), ending: None });
    lemma_run_through(tree, state, literal, compute);
    if let Ok(value) = tree.value(literal, compute) {
        let end = advanced(state, tree.steps().len(), value);
        assert(end.settled() == end);
        assert(end.stack.last() == value);
    }
}

/// Every run of the plan of an expression ends in the value of its tree:
/// the operations are applied as the grammar groups them, from left to
/// right, and the first division by zero ends the run.
pub proof fn lemma_evaluation_of_tree(
    tree: Expr,
    literal: spec_fn(Seq<char>) -> u64,
    compute: spec_fn(Operator, u64, u64) -> u64,
)
    requires
        tree.is_expression(),
    ensures
        EvaluationView::start(program(tree.tokens())).run(literal, compute) == tree.value(
            literal,
            compute,
        ),
{
    lemma_program_of_tree(tree);
    lemma_run_of_tree(tree, literal, compute);
}

} // verus!
