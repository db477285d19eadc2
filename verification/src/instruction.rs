use vstd::prelude::*;

verus! {

/// The four binary operations.
#[derive(Clone, Copy, Debug, PartialEq, Eq, Structural)]
pub enum Operator {
    Add,
    Subtract,
    Multiply,
    Divide,
}

/// An instruction as contracts see it: a literal by its characters.
pub enum InstrView {
    Push(Seq<char>),
    Negate,
    Apply(Operator),
}

/// One step of an evaluation on a stack of values.
#[derive(Debug, PartialEq, Eq)]
pub enum Instr {
    /// Puts the value of a literal on the stack.
    Push(String),
    /// Replaces the top of the stack by its negation.
    Negate,
    /// Replaces the two values on top of the stack, the left operand
    /// below the right one, by the result of the operation.
    Apply(Operator),
}

impl View for Instr {
    type V = InstrView;

    open spec fn view(&self) -> InstrView {
        match self {
            Instr::Push(text) => InstrView::Push(text@),
            Instr::Negate => InstrView::Negate,
            Instr::Apply(op) => InstrView::Apply(*op),
        }
    }
}

/// The views of the instructions of a sequence, in its order.
pub open spec fn instr_views(steps: Seq<Instr>) -> Seq<InstrView> {
    steps.map_values(|i: Instr| i@)
}

} // verus!
