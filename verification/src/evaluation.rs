use vstd::prelude::*;
use crate::binary64::{is_zero, is_zero_value, negate, negated};
use crate::error::CalcError;
use crate::grammar::{plan_of, Plan};
use crate::instruction::{instr_views, Instr, InstrView, Operator};
use crate::sanitizer::sanitized;
use crate::stack::{depth_after, lemma_depth_after_prefix, lemma_expression_stack};
use crate::tokenizer::tokens_of;

verus! {

/// The result of an operation on two values, or the division by zero
/// where a division has a zero on its right.
pub open spec fn applied(
    op: Operator,
    left: u64,
    right: u64,
    compute: spec_fn(Operator, u64, u64) -> u64,
) -> Result<u64, CalcError> {
    if op == Operator::Divide && is_zero(right) {
        Err(CalcError::DivisionByZero)
    } else {
        Ok(compute(op, left, right))
    }
}

/// An action as contracts see it.
pub enum ActionView {
    Convert(Seq<char>),
    Compute(Operator, u64, u64),
    Finished(Result<u64, CalcError>),
}

/// What an evaluation waits for.
#[derive(Debug, PartialEq, Eq)]
pub enum Action {
    /// The value of this decimal literal.
    Convert(String),
    /// The result of the operation on the left and the right operand.
    Compute(Operator, u64, u64),
    /// Nothing: the evaluation has ended with this value or error.
    Finished(Result<u64, CalcError>),
}

impl View for Action {
    type V = ActionView;

    open spec fn view(&self) -> ActionView {
        match self {
            Action::Convert(text) => ActionView::Convert(text@),
            Action::Compute(op, left, right) => ActionView::Compute(*op, *left, *right),
            Action::Finished(outcome) => ActionView::Finished(*outcome),
        }
    }
}

/// The state of an evaluation: the plan, the number of instructions that
/// have run, and the stack, its top last.
pub struct EvaluationView {
    pub steps: Seq<InstrView>,
    pub ending: Option<CalcError>,
    pub next: nat,
    pub stack: Seq<u64>,
}

impl EvaluationView {
    /// The state in which no instruction of the plan has run.
    pub open spec fn start(plan: Plan) -> EvaluationView {
        EvaluationView { steps: plan.steps, ending: plan.ending, next: 0, stack: Seq::empty() }
    }

    /// The state after the negations that stand next have run.
    pub open spec fn settled(self) -> EvaluationView
        decreases self.steps.len() - self.next,
    {
        if self.next < self.steps.len() && self.steps[self.next as int] is Negate
            && self.stack.len() >= 1 {
            EvaluationView {
                next: self.next + 1,
                stack: self.stack.drop_last().push(negated(self.stack.last())),
                ..self
            }.settled()
        } else {
            self
        }
    }

    /// The plan never finds too few values on the stack, it leaves one
    /// value unless it ends in an error, and the stack is as high as the
    /// instructions that have run make it.
    pub open spec fn balanced(self) -> bool {
        &&& self.next <= self.steps.len()
        &&& depth_after(self.steps, 0) is Some
        &&& self.ending is None ==> depth_after(self.steps, 0) == Some(1nat)
        &&& depth_after(self.steps.take(self.next as int), 0) == Some(self.stack.len())
    }

    /// A state that the evaluation of a text can be in: it is balanced,
    /// and no negation stands next.
    pub open spec fn well_formed(self) -> bool {
        &&& self.balanced()
        &&& self.next < self.steps.len() ==> !(self.steps[self.next as int] is Negate)
    }

    /// The outcome once every instruction has run: the error of the plan,
    /// or else the value on top of the stack.
    pub open spec fn outcome(self) -> Result<u64, CalcError> {
        match self.ending {
            Some(e) => Err(e),
            None => Ok(self.stack.last()),
        }
    }

    /// What the evaluation waits for. A division whose right operand is
    /// zero ends it.
    pub open spec fn action(self) -> ActionView {
        if self.next >= self.steps.len() {
            ActionView::Finished(self.outcome())
        } else {
            match self.steps[self.next as int] {
                InstrView::Push(text) => ActionView::Convert(text),
                instr => {
                    let right = self.stack.last();
                    let left = self.stack[self.stack.len() - 2];
                    if instr->Apply_0 == Operator::Divide && is_zero(right) {
                        ActionView::Finished(Err(CalcError::DivisionByZero))
                    } else {
                        ActionView::Compute(instr->Apply_0, left, right)
                    }
                },
            }
        }
    }

    /// The state after `value` has been handed in for the action: the
    /// value of the literal goes on the stack, the result of an operation
    /// takes the place of its operands, and the negations that follow
    /// run. An evaluation that has ended stays as it is.
    pub open spec fn resumed(self, value: u64) -> EvaluationView {
        match self.action() {
            ActionView::Finished(_) => self,
            ActionView::Convert(_) => EvaluationView {
                next: self.next + 1,
                stack: self.stack.push(value),
                ..self
            }.settled(),
            ActionView::Compute(_, _, _) => EvaluationView {
                next: self.next + 1,
                stack: self.stack.drop_last().drop_last().push(value),
                ..self
            }.settled(),
        }
    }

    /// The outcome of the run from this state on in which `literal` gives
    /// each literal its value and `compute` gives each operation its
    /// result.
    pub open spec fn run(
        self,
        literal: spec_fn(Seq<char>) -> u64,
        compute: spec_fn(Operator, u64, u64) -> u64,
    ) -> Result<u64, CalcError>
        decreases self.steps.len() - self.next,
    {
        match self.action() {
            ActionView::Finished(outcome) => outcome,
            ActionView::Convert(text) => {
                let then = self.resumed(literal(text));
                proof {
                    lemma_resumed_moves_on(self, literal(text));
                }
                then.run(literal, compute)
            },
            ActionView::Compute(op, left, right) => {
                let then = self.resumed(compute(op, left, right));
                proof {
                    lemma_resumed_moves_on(self, compute(op, left, right));
                }
                then.run(literal, compute)
            },
        }
    }
}

/// Running negations moves on in the same plan and never past its end.
pub proof fn lemma_settled_moves_on(state: EvaluationView)
    ensures
        state.settled().steps == state.steps,
        state.settled().ending == state.ending,
        state.settled().next >= state.next,
        state.next <= state.steps.len() ==> state.settled().next <= state.steps.len(),
    decreases state.steps.len() - state.next,
{
    if state.next < state.steps.len() && state.steps[state.next as int] is Negate
        && state.stack.len() >= 1 {
        lemma_settled_moves_on(
            EvaluationView {
                next: state.next + 1,
                stack: state.stack.drop_last().push(negated(state.stack.last())),
                ..state
            },
        );
    }
}

/// Handing in a value moves an evaluation on, unless it has ended.
pub proof fn lemma_resumed_moves_on(state: EvaluationView, value: u64)
    ensures
        state.resumed(value).steps == state.steps,
        state.resumed(value).ending == state.ending,
        state.action() is Finished ==> state.resumed(value) == state,
        !(state.action() is Finished) ==> state.next < state.resumed(value).next
            <= state.steps.len(),
{
    if !(state.action() is Finished) {
        let stack = if state.action() is Convert {
            state.stack.push(value)
        } else {
            state.stack.drop_last().drop_last().push(value)
        };
        lemma_settled_moves_on(EvaluationView { next: state.next + 1, stack, ..state });
    }
}

/// Running the negations that stand next leaves a balanced state well
/// formed.
pub proof fn lemma_settled_well_formed(state: EvaluationView)
    requires
        state.balanced(),
    ensures
        state.settled().well_formed(),
    decreases state.steps.len() - state.next,
{
    if state.next < state.steps.len() && state.steps[state.next as int] is Negate {
        lemma_depth_after_prefix(state.steps, 0, (state.next + 1) as int);
        assert(state.steps.take((state.next + 1) as int).drop_last() =~= state.steps.take(
            state.next as int,
        ));
        lemma_settled_well_formed(
            EvaluationView {
                next: state.next + 1,
                stack: state.stack.drop_last().push(negated(state.stack.last())),
                ..state
            },
        );
    }
}

/// Handing in a value leaves a well formed state well formed.
pub proof fn lemma_resumed_well_formed(state: EvaluationView, value: u64)
    requires
        state.well_formed(),
    ensures
        state.resumed(value).well_formed(),
{
    if !(state.action() is Finished) {
        lemma_depth_after_prefix(state.steps, 0, (state.next + 1) as int);
        assert(state.steps.take((state.next + 1) as int).drop_last() =~= state.steps.take(
            state.next as int,
        ));
        let stack = if state.action() is Convert {
            state.stack.push(value)
        } else {
            state.stack.drop_last().drop_last().push(value)
        };
        lemma_settled_well_formed(EvaluationView { next: state.next + 1, stack, ..state });
    }
}

/// The evaluation of every text begins in a well formed state.
pub proof fn lemma_start_well_formed(text: Seq<char>)
    ensures
        EvaluationView::start(plan_of(text)).well_formed(),
{
    let plan = plan_of(text);
    assert(plan.steps.take(0) =~= Seq::<InstrView>::empty());
    if let Ok(tokens) = tokens_of(sanitized(text)) {
        lemma_expression_stack(tokens, 0, 0);
    }
    if plan.steps.len() > 0 {
        lemma_depth_after_prefix(plan.steps, 0, 1);
        assert(plan.steps.take(1).drop_last() =~= Seq::<InstrView>::empty());
    }
}

/// An evaluation in progress.
pub struct Evaluation {
    steps: Vec<Instr>,
    ending: Option<CalcError>,
    next: usize,
    stack: Vec<u64>,
}

impl View for Evaluation {
    type V = EvaluationView;

    closed spec fn view(&self) -> EvaluationView {
        EvaluationView {
            steps: instr_views(self.steps@),
            ending: self.ending,
            next: self.next as nat,
            stack: self.stack@,
        }
    }
}

fn is_negation(steps: &Vec<Instr>, at: usize) -> (r: bool)
    ensures
        r == (at < steps.len() && instr_views(steps@)[at as int] is Negate),
{
    if at >= steps.len() {
        return false;
    }
    assert(instr_views(steps@)[at as int] == steps@[at as int]@);
    match &steps[at] {
        Instr::Negate => true,
        _ => false,
    }
}

impl Evaluation {
    #[verifier::type_invariant]
    spec fn sound(self) -> bool {
        self@.well_formed()
    }

    /// Runs the negations that stand next.
    fn settle(steps: Vec<Instr>, ending: Option<CalcError>, next: usize, stack: Vec<u64>) -> (r:
        Evaluation)
        requires
            next <= steps.len(),
            depth_after(instr_views(steps@), 0) is Some,
            ending is None ==> depth_after(instr_views(steps@), 0) == Some(1nat),
            depth_after(instr_views(steps@).take(next as int), 0) == Some(stack@.len()),
        ensures
            r@ == (EvaluationView {
                steps: instr_views(steps@),
                ending,
                next: next as nat,
                stack: stack@,
            }).settled(),
            r@.well_formed(),
    {
        let ghost all = instr_views(steps@);
        let ghost begun = EvaluationView { steps: all, ending, next: next as nat, stack: stack@ };
        let mut next = next;
        let mut stack = stack;
        while is_negation(&steps, next)
            invariant
                all == instr_views(steps@),
                next <= steps.len(),
                depth_after(all, 0) is Some,
                depth_after(all.take(next as int), 0) == Some(stack@.len()),
                begun.settled() == (EvaluationView {
                    steps: all,
                    ending,
                    next: next as nat,
                    stack: stack@,
                }).settled(),
            decreases steps.len() - next,
        {
            proof {
                lemma_depth_after_prefix(all, 0, next + 1);
                assert(all.take(next + 1).drop_last() =~= all.take(next as int));
            }
            let top = stack.pop().unwrap();
            stack.push(negate(top));
            next = next + 1;
        }
        Evaluation { steps, ending, next, stack }
    }

    /// The evaluation of a plan, before any of its instructions has run.
    fn begin(steps: Vec<Instr>, ending: Option<CalcError>) -> (r: Evaluation)
        requires
            depth_after(instr_views(steps@), 0) is Some,
            ending is None ==> depth_after(instr_views(steps@), 0) == Some(1nat),
        ensures
            r@ == EvaluationView::start(Plan { steps: instr_views(steps@), ending }),
            r@.well_formed(),
    {
        let ghost all = instr_views(steps@);
        proof {
            assert(all.take(0) =~= Seq::empty());
            if all.len() > 0 {
                lemma_depth_after_prefix(all, 0, 1);
                assert(all.take(1).drop_last() =~= Seq::empty());
            }
        }
        Evaluation { steps, ending, next: 0, stack: Vec::new() }
    }

    /// The instructions of the plan.
    pub fn steps(&self) -> (steps: &Vec<Instr>)
        ensures
            instr_views(steps@) == self@.steps,
    {
        &self.steps
    }

    /// The error that the plan ends in, if it ends in one.
    pub fn ending(&self) -> (ending: Option<CalcError>)
        ensures
            ending == self@.ending,
    {
        self.ending
    }

    /// What the evaluation waits for.
    pub fn pending(&self) -> (action: Action)
        ensures
            action@ == self@.action(),
    {
        proof {
            use_type_invariant(self);
        }
        let ghost all = instr_views(self.steps@);
        if self.next >= self.steps.len() {
            return Action::Finished(
                match self.ending {
                    Some(e) => Err(e),
                    None => {
                        proof {
                            assert(all.take(self.next as int) =~= all);
                        }
                        Ok(self.stack[self.stack.len() - 1])
                    },
                },
            );
        }
        proof {
            lemma_depth_after_prefix(all, 0, self.next + 1);
            assert(all.take(self.next + 1).drop_last() =~= all.take(self.next as int));
            assert(all[self.next as int] == self.steps@[self.next as int]@);
        }
        match &self.steps[self.next] {
            Instr::Push(text) => Action::Convert(text.clone()),
            Instr::Apply(op) => {
                let right = self.stack[self.stack.len() - 1];
                let left = self.stack[self.stack.len() - 2];
                match op {
                    Operator::Divide => if is_zero_value(right) {
                        Action::Finished(Err(CalcError::DivisionByZero))
                    } else {
                        Action::Compute(*op, left, right)
                    },
                    _ => Action::Compute(*op, left, right),
                }
            },
            Instr::Negate => vstd::pervasive::unreached(),
        }
    }

    /// Hands in the value that the pending action asked for.
    pub fn resume(self, value: u64) -> (r: Evaluation)
        ensures
            r@ == self@.resumed(value),
            r@.well_formed(),
    {
        proof {
            use_type_invariant(&self);
        }
        let ghost all = instr_views(self.steps@);
        let ghost before = self@;
        if self.next >= self.steps.len() {
            return self;
        }
        proof {
            lemma_depth_after_prefix(all, 0, self.next + 1);
            assert(all.take(self.next + 1).drop_last() =~= all.take(self.next as int));
            assert(all[self.next as int] == self.steps@[self.next as int]@);
        }
        let divides = match &self.steps[self.next] {
            Instr::Apply(Operator::Divide) => true,
            _ => false,
        };
        let pushes = match &self.steps[self.next] {
            Instr::Push(_) => true,
            _ => false,
        };
        if divides && is_zero_value(self.stack[self.stack.len() - 1]) {
            return self;
        }
        let Evaluation { steps, ending, next, mut stack } = self;
        if pushes {
            stack.push(value);
        } else {
            stack.pop();
            stack.pop();
            stack.push(value);
        }
        Evaluation::settle(steps, ending, next + 1, stack)
    }
}

/// Begins the evaluation of a text: cleans it, cuts it into tokens and
/// reads them into a plan, of which nothing has run yet.
pub fn evaluate_math_expression(expression: &str) -> (evaluation: Evaluation)
    ensures
        evaluation@ == EvaluationView::start(plan_of(expression@)),
        evaluation@.well_formed(),
{
    let cleaned = crate::sanitizer::sanitize(expression);
    assert(instr_views(Seq::<Instr>::empty()) =~= Seq::<InstrView>::empty());
    if cleaned.as_str().is_empty() {
        return Evaluation::begin(Vec::new(), Some(CalcError::EmptyExpression));
    }
    let tokens = match crate::tokenizer::tokenize(cleaned.as_str()) {
        Ok(tokens) => tokens,
        Err(e) => { return Evaluation::begin(Vec::new(), Some(e)); },
    };
    let mut steps: Vec<Instr> = Vec::new();
    let ending = match crate::parser::parse_expression(&tokens, 0, &mut steps) {
        Ok(end) => if end < tokens.len() {
            Some(CalcError::TrailingTokens)
        } else {
            None
        },
        Err(e) => Some(e),
    };
    proof {
        crate::stack::lemma_expression_stack(crate::token::token_views(tokens@), 0, 0);
    }
    Evaluation::begin(steps, ending)
}

} // verus!
