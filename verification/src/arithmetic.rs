//! Evaluations seen whole: what an evaluation finishes with when all its
//! steps are answered, and how many steps that takes.

use crate::error::ErrorView;
use crate::evaluator::{EvaluationView, Pending, StepView};
use crate::number::Double;
use crate::token::{Operation, TokenView};
use vstd::prelude::*;

verus! {

/// The arithmetic that an evaluation relies on and does not do itself: the
/// value of a number as written, and the result of an operation.
pub struct Arithmetic {
    pub convert: spec_fn(Seq<char>) -> Double,
    pub compute: spec_fn(Operation) -> Double,
}

impl EvaluationView {
    /// How many tokens have not been consumed yet.
    pub open spec fn tokens_left(self) -> nat {
        if self.position <= self.tokens.len() {
            (self.tokens.len() - self.position) as nat
        } else {
            0
        }
    }

    /// The work that is left: the tokens to consume and the operator stack
    /// to empty.
    pub open spec fn work_left(self) -> nat {
        self.tokens_left() + self.operators.len()
    }

    /// What the evaluation finishes with from here when `arithmetic` answers
    /// every step.
    pub open spec fn run(self, arithmetic: Arithmetic) -> Result<Double, ErrorView> {
        self.advance().outcome(arithmetic)
    }
}

impl StepView {
    /// The evaluation that waits for the answer to this step, unless it is
    /// over.
    pub open spec fn waiting(self) -> Option<EvaluationView> {
        match self {
            StepView::Convert(_, evaluation) => Some(evaluation),
            StepView::Compute(_, evaluation) => Some(evaluation),
            StepView::Finished(_) => None,
        }
    }

    /// The work that is left: the answer to this step and the work of the
    /// evaluation that waits for it, and none when the evaluation is over.
    pub open spec fn work_left(self) -> nat {
        match self.waiting() {
            Some(evaluation) => evaluation.work_left() + 1,
            None => 0,
        }
    }

    /// The step that follows this one when `arithmetic` answers it.
    pub open spec fn answered(self, arithmetic: Arithmetic) -> StepView {
        match self {
            StepView::Convert(text, evaluation) => evaluation.supply(
                (arithmetic.convert)(text),
            ).advance(),
            StepView::Compute(operation, evaluation) => evaluation.supply(
                (arithmetic.compute)(operation),
            ).advance(),
            StepView::Finished(_) => self,
        }
    }

    /// What the evaluation finishes with when `arithmetic` answers this step
    /// and every step after it. There is always an end: the steps cannot go
    /// on for ever, whatever the answers are.
    pub open spec fn outcome(self, arithmetic: Arithmetic) -> Result<Double, ErrorView>
        decreases self.work_left(),
        via Self::outcome_terminates
    {
        match self {
            StepView::Finished(result) => result,
            _ => self.answered(arithmetic).outcome(arithmetic),
        }
    }

    #[via_fn]
    proof fn outcome_terminates(self, arithmetic: Arithmetic) {
        if !(self is Finished) {
            lemma_answer_progresses(self, arithmetic);
        }
    }

    /// How many answers the evaluation takes from this step to its end.
    pub open spec fn answers(self, arithmetic: Arithmetic) -> nat
        decreases self.work_left(),
        via Self::answers_terminates
    {
        match self {
            StepView::Finished(_) => 0,
            _ => 1 + self.answered(arithmetic).answers(arithmetic),
        }
    }

    #[via_fn]
    proof fn answers_terminates(self, arithmetic: Arithmetic) {
        if !(self is Finished) {
            lemma_answer_progresses(self, arithmetic);
        }
    }
}

/// A step leaves no more work than there was: it consumes a token for each
/// operator or parenthesis that it pushes, and for the number that it hands
/// out, and it pops the operator that it hands out.
pub proof fn lemma_advance_progresses(evaluation: EvaluationView)
    ensures
        evaluation.advance().work_left() <= evaluation.work_left(),
    decreases evaluation.tokens.len() - evaluation.position,
{
    if evaluation.position < evaluation.tokens.len() {
        match evaluation.tokens[evaluation.position as int] {
            TokenView::Number(_) => {},
            TokenView::Operator(operator) => {
                if !evaluation.reduces_at(operator.precedence()) {
                    lemma_advance_progresses(
                        evaluation.push(Pending::Operator(operator)).consume(),
                    );
                }
            },
            TokenView::LeftParen => {
                lemma_advance_progresses(evaluation.push(Pending::LeftParen).consume());
            },
            TokenView::RightParen => {
                if evaluation.operators.len() == 0 {
                    lemma_advance_progresses(evaluation.consume());
                } else if evaluation.operators.last() is LeftParen {
                    lemma_advance_progresses(evaluation.pop().consume());
                }
            },
        }
    }
}

/// Every answer makes progress: less work is left after it.
pub proof fn lemma_answer_progresses(step: StepView, arithmetic: Arithmetic)
    requires
        !(step is Finished),
    ensures
        step.answered(arithmetic).work_left() < step.work_left(),
{
    match step {
        StepView::Convert(text, evaluation) => {
            lemma_advance_progresses(evaluation.supply((arithmetic.convert)(text)));
        },
        StepView::Compute(operation, evaluation) => {
            lemma_advance_progresses(evaluation.supply((arithmetic.compute)(operation)));
        },
        StepView::Finished(_) => {},
    }
}

/// An evaluation takes no more answers than work is left, whatever the
/// answers are.
pub proof fn lemma_answers_are_bounded(step: StepView, arithmetic: Arithmetic)
    ensures
        step.answers(arithmetic) <= step.work_left(),
    decreases step.work_left(),
{
    if !(step is Finished) {
        lemma_answer_progresses(step, arithmetic);
        lemma_answers_are_bounded(step.answered(arithmetic), arithmetic);
    }
}

/// An evaluation takes at most one answer for each of its tokens.
pub proof fn lemma_one_answer_for_each_token(tokens: Seq<TokenView>, arithmetic: Arithmetic)
    ensures
        EvaluationView::initial(tokens).advance().answers(arithmetic) <= tokens.len(),
{
    let first = EvaluationView::initial(tokens).advance();
    lemma_advance_progresses(EvaluationView::initial(tokens));
    lemma_answers_are_bounded(first, arithmetic);
}

} // verus!
