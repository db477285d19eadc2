use vstd::prelude::*;
use crate::grammar::{
    additive, expression, expression_tail, factor, multiplicative, remaining, term, term_tail,
    Descent,
};
use crate::instruction::InstrView;
use crate::token::TokenView;

verus! {

/// The height of the stack after one instruction that finds `depth` values
/// on it, or `None` where the instruction needs more values than that.
pub open spec fn depth_after_one(instr: InstrView, depth: nat) -> Option<nat> {
    match instr {
        InstrView::Push(_) => Some(depth + 1),
        InstrView::Negate => if depth >= 1 {
            Some(depth)
        } else {
            None
        },
        InstrView::Apply(_) => if depth >= 2 {
            Some((depth - 1) as nat)
        } else {
            None
        },
    }
}

/// The height of the stack after `steps`, begun on `depth` values, or
/// `None` where one of them finds too few values.
pub open spec fn depth_after(steps: Seq<InstrView>, depth: nat) -> Option<nat>
    decreases steps.len(),
{
    if steps.len() == 0 {
        Some(depth)
    } else {
        match depth_after(steps.drop_last(), depth) {
            Some(below) => depth_after_one(steps.last(), below),
            None => None,
        }
    }
}

/// Instructions that run to their end on a stack of `depth` values and
/// leave `height` values.
pub open spec fn runs_from_to(steps: Seq<InstrView>, depth: nat, height: nat) -> bool {
    depth_after(steps, depth) == Some(height)
}

/// Running `first + second` is running `first` and then `second`.
pub proof fn lemma_depth_after_concat(first: Seq<InstrView>, second: Seq<InstrView>, depth: nat)
    ensures
        depth_after(first + second, depth) == match depth_after(first, depth) {
            Some(middle) => depth_after(second, middle),
            None => None,
        },
    decreases second.len(),
{
    if second.len() == 0 {
        assert(first + second =~= first);
    } else {
        assert((first + second).drop_last() =~= first + second.drop_last());
        lemma_depth_after_concat(first, second.drop_last(), depth);
    }
}

/// Instructions that run to their end do so up to any point.
pub proof fn lemma_depth_after_prefix(steps: Seq<InstrView>, depth: nat, n: int)
    requires
        depth_after(steps, depth) is Some,
        0 <= n <= steps.len(),
    ensures
        depth_after(steps.take(n), depth) is Some,
    decreases steps.len(),
{
    if n == steps.len() {
        assert(steps.take(n) =~= steps);
    } else {
        assert(steps.drop_last().take(n) =~= steps.take(n));
        lemma_depth_after_prefix(steps.drop_last(), depth, n);
    }
}

/// What holds of a reading that begins on a stack of `depth` values: if it
/// succeeds, it read at least `least` tokens, none beyond the last, and its
/// instructions leave `gain` values more than they found; if it fails,
/// the instructions written up to there leave no fewer than they found.
pub open spec fn well_stacked(
    reading: Descent,
    tokens: Seq<TokenView>,
    pos: nat,
    depth: nat,
    least: nat,
    gain: nat,
) -> bool {
    if reading.error is None {
        &&& least <= reading.consumed
        &&& pos + reading.consumed <= tokens.len()
        &&& runs_from_to(reading.steps, depth, depth + gain)
    } else {
        exists|height: nat| height >= depth && #[trigger] runs_from_to(reading.steps, depth, height)
    }
}

/// A factor puts one value on the stack.
pub proof fn lemma_factor_stack(tokens: Seq<TokenView>, pos: nat, depth: nat)
    ensures
        well_stacked(factor(tokens, pos), tokens, pos, depth, 1, 1),
    decreases remaining(tokens, pos), 0nat,
{
    if pos >= tokens.len() {
        assert(runs_from_to(Seq::empty(), depth, depth));
    } else {
        match tokens[pos as int] {
            TokenView::Number(text) => {
                let steps = seq![InstrView::Push(text)];
                assert(steps.drop_last() =~= Seq::empty());
                assert(depth_after(steps.drop_last(), depth) == Some(depth));
            },
            TokenView::LeftParen => {
                lemma_expression_stack(tokens, pos + 1, depth);
                let inner = expression(tokens, pos + 1);
                if inner.error is None {
                    assert(runs_from_to(inner.steps, depth, depth + 1));
                }
            },
            TokenView::Minus => {
                lemma_factor_stack(tokens, pos + 1, depth);
                let operand = factor(tokens, pos + 1);
                if operand.error is None {
                    assert(operand.steps.push(InstrView::Negate).drop_last() =~= operand.steps);
                }
            },
            _ => {
                assert(runs_from_to(Seq::empty(), depth, depth));
            },
        }
    }
}

/// The operations that follow a factor leave the height as it is.
pub proof fn lemma_term_tail_stack(tokens: Seq<TokenView>, pos: nat, depth: nat)
    requires
        depth >= 1,
        pos <= tokens.len(),
    ensures
        well_stacked(term_tail(tokens, pos), tokens, pos, depth, 0, 0),
    decreases remaining(tokens, pos), 0nat,
{
    let tail = term_tail(tokens, pos);
    if pos < tokens.len() && multiplicative(tokens[pos as int]) is Some {
        let op = multiplicative(tokens[pos as int])->Some_0;
        lemma_factor_stack(tokens, pos + 1, depth);
        let operand = factor(tokens, pos + 1);
        let right = operand.closed_by(InstrView::Apply(op));
        if operand.error is None {
            assert(right.steps.drop_last() =~= operand.steps);
            assert(runs_from_to(right.steps, depth, depth));
            lemma_term_tail_stack(tokens, pos + right.consumed, depth);
            let rest = term_tail(tokens, pos + right.consumed);
            lemma_depth_after_concat(right.steps, rest.steps, depth);
            if rest.error is Some {
                let height = choose|height: nat|
                    height >= depth && #[trigger] runs_from_to(rest.steps, depth, height);
                assert(runs_from_to(tail.steps, depth, height));
            }
        }
    } else {
        assert(runs_from_to(Seq::empty(), depth, depth));
    }
}

/// A term puts one value on the stack.
pub proof fn lemma_term_stack(tokens: Seq<TokenView>, pos: nat, depth: nat)
    ensures
        well_stacked(term(tokens, pos), tokens, pos, depth, 1, 1),
    decreases remaining(tokens, pos), 1nat,
{
    lemma_factor_stack(tokens, pos, depth);
    let first = factor(tokens, pos);
    if first.error is None {
        lemma_term_tail_stack(tokens, pos + first.consumed, depth + 1);
        let rest = term_tail(tokens, pos + first.consumed);
        lemma_depth_after_concat(first.steps, rest.steps, depth);
        if rest.error is Some {
            let height = choose|height: nat|
                height >= depth + 1 && #[trigger] runs_from_to(rest.steps, depth + 1, height);
            assert(runs_from_to(term(tokens, pos).steps, depth, height));
        }
    }
}

/// The operations that follow a term leave the height as it is.
pub proof fn lemma_expression_tail_stack(tokens: Seq<TokenView>, pos: nat, depth: nat)
    requires
        depth >= 1,
        pos <= tokens.len(),
    ensures
        well_stacked(expression_tail(tokens, pos), tokens, pos, depth, 0, 0),
    decreases remaining(tokens, pos), 0nat,
{
    let tail = expression_tail(tokens, pos);
    if pos < tokens.len() && additive(tokens[pos as int]) is Some {
        let op = additive(tokens[pos as int])->Some_0;
        lemma_term_stack(tokens, pos + 1, depth);
        let operand = term(tokens, pos + 1);
        let right = operand.closed_by(InstrView::Apply(op));
        if operand.error is None {
            assert(right.steps.drop_last() =~= operand.steps);
            assert(runs_from_to(right.steps, depth, depth));
            lemma_expression_tail_stack(tokens, pos + right.consumed, depth);
            let rest = expression_tail(tokens, pos + right.consumed);
            lemma_depth_after_concat(right.steps, rest.steps, depth);
            if rest.error is Some {
                let height = choose|height: nat|
                    height >= depth && #[trigger] runs_from_to(rest.steps, depth, height);
                assert(runs_from_to(tail.steps, depth, height));
            }
        }
    } else {
        assert(runs_from_to(Seq::empty(), depth, depth));
    }
}

/// An expression puts one value on the stack.
pub proof fn lemma_expression_stack(tokens: Seq<TokenView>, pos: nat, depth: nat)
    ensures
        well_stacked(expression(tokens, pos), tokens, pos, depth, 1, 1),
    decreases remaining(tokens, pos), 2nat,
{
    lemma_term_stack(tokens, pos, depth);
    let first = term(tokens, pos);
    if first.error is None {
        lemma_expression_tail_stack(tokens, pos + first.consumed, depth + 1);
        let rest = expression_tail(tokens, pos + first.consumed);
        lemma_depth_after_concat(first.steps, rest.steps, depth);
        if rest.error is Some {
            let height = choose|height: nat|
                height >= depth + 1 && #[trigger] runs_from_to(rest.steps, depth + 1, height);
            assert(runs_from_to(expression(tokens, pos).steps, depth, height));
        }
    }
}

} // verus!
