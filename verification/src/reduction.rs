//! What an evaluation does at each kind of token, told in reductions of
//! the operator stack.

use crate::arithmetic::Arithmetic;
use crate::error::ErrorView;
use crate::evaluator::{EvaluationView, Pending, StepView};
use vstd::prelude::*;

verus! {

impl EvaluationView {
    /// The stacks after every operator on top that binds at least as tightly
    /// as `floor` has been reduced, with `arithmetic` computing each
    /// operation; the error of the first reduction that fails.
    pub open spec fn settle(self, floor: u8, arithmetic: Arithmetic) -> Result<
        EvaluationView,
        ErrorView,
    >
        decreases self.operators.len(),
    {
        if self.reduces_at(floor) {
            match self.pop().reduce(self.operators.last()) {
                StepView::Compute(operation, waiting) => waiting.supply(
                    (arithmetic.compute)(operation),
                ).settle(floor, arithmetic),
                StepView::Finished(Err(error)) => Err(error),
                _ => Ok(self),
            }
        } else {
            Ok(self)
        }
    }
}

/// Reading a number asks for its conversion and goes on with the value on the
/// operand stack.
pub proof fn lemma_run_number(evaluation: EvaluationView, arithmetic: Arithmetic)
    requires
        evaluation.position < evaluation.tokens.len(),
        evaluation.tokens[evaluation.position as int] is Number,
    ensures
        evaluation.run(arithmetic) == evaluation.consume().supply(
            (arithmetic.convert)(evaluation.tokens[evaluation.position as int]->Number_0),
        ).run(arithmetic),
{
}

/// Reading an opening parenthesis pushes it.
pub proof fn lemma_run_left_paren(evaluation: EvaluationView, arithmetic: Arithmetic)
    requires
        evaluation.position < evaluation.tokens.len(),
        evaluation.tokens[evaluation.position as int] is LeftParen,
    ensures
        evaluation.run(arithmetic) == evaluation.push(Pending::LeftParen).consume().run(
            arithmetic,
        ),
{
}

/// Reading an operator settles the stack at its precedence and pushes it.
pub proof fn lemma_run_operator(evaluation: EvaluationView, arithmetic: Arithmetic)
    requires
        evaluation.position < evaluation.tokens.len(),
        evaluation.tokens[evaluation.position as int] is Operator,
    ensures
        ({
            let operator = evaluation.tokens[evaluation.position as int]->Operator_0;
            evaluation.run(arithmetic) == match evaluation.settle(
                operator.precedence(),
                arithmetic,
            ) {
                Ok(settled) => settled.push(Pending::Operator(operator)).consume().run(
                    arithmetic,
                ),
                Err(error) => Err(error),
            }
        }),
    decreases evaluation.operators.len(),
{
    let operator = evaluation.tokens[evaluation.position as int]->Operator_0;
    let step = evaluation.advance();
    if evaluation.reduces_at(operator.precedence()) {
        match step {
            StepView::Compute(operation, waiting) => {
                let next = waiting.supply((arithmetic.compute)(operation));
                lemma_run_operator(next, arithmetic);
            },
            _ => {},
        }
    }
}

/// Reading a closing parenthesis settles the stack down to the nearest
/// opening parenthesis and removes that one, if there is one.
pub proof fn lemma_run_right_paren(evaluation: EvaluationView, arithmetic: Arithmetic)
    requires
        evaluation.position < evaluation.tokens.len(),
        evaluation.tokens[evaluation.position as int] is RightParen,
    ensures
        evaluation.run(arithmetic) == match evaluation.settle(0, arithmetic) {
            Ok(settled) => if settled.operators.len() == 0 {
                settled.consume().run(arithmetic)
            } else {
                settled.pop().consume().run(arithmetic)
            },
            Err(error) => Err(error),
        },
    decreases evaluation.operators.len(),
{
    let step = evaluation.advance();
    if evaluation.reduces_at(0) {
        match step {
            StepView::Compute(operation, waiting) => {
                let next = waiting.supply((arithmetic.compute)(operation));
                lemma_run_right_paren(next, arithmetic);
            },
            _ => {},
        }
    }
}

/// After the last token the stack is settled down to the bottom, where no
/// parenthesis may be left, and the top of the operand stack is the result.
pub proof fn lemma_run_end(evaluation: EvaluationView, arithmetic: Arithmetic)
    requires
        evaluation.position >= evaluation.tokens.len(),
    ensures
        evaluation.run(arithmetic) == match evaluation.settle(0, arithmetic) {
            Ok(settled) => if settled.operators.len() > 0 {
                Err(ErrorView::expected_operator())
            } else if settled.numbers.len() > 0 {
                Ok(settled.numbers.last())
            } else {
                Err(ErrorView::empty_expression())
            },
            Err(error) => Err(error),
        },
    decreases evaluation.operators.len(),
{
    let step = evaluation.advance();
    if evaluation.reduces_at(0) {
        match step {
            StepView::Compute(operation, waiting) => {
                let next = waiting.supply((arithmetic.compute)(operation));
                lemma_run_end(next, arithmetic);
            },
            _ => {},
        }
    }
}

} // verus!
