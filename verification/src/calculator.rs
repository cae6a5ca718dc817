//! The calculator: evaluation of a text, and the memory of the last value.

use crate::arithmetic::{lemma_answer_progresses, Arithmetic};
use crate::error::ErrorView;
use crate::evaluator::{
    lemma_no_value_without_operand, lemma_step_converts_a_token, Evaluation, EvaluationView, Step,
    StepView,
};
use crate::number::Double;
use crate::parser::{
    apart, is_number_literal, lemma_blank_text_has_no_tokens, lemma_literal_is_one_token,
    lemma_space_is_ignored, lemma_tokens_hold_literals, numbers_are_literals, tokenize, Parser,
};
use crate::token::TokenView;
use vstd::prelude::*;

verus! {

/// The first step of the evaluation of a text: the error of its tokens, or
/// the evaluation of its tokens up to the first thing to convert or compute.
pub open spec fn first_step(text: Seq<char>) -> StepView {
    match tokenize(text) {
        Ok(tokens) => EvaluationView::initial(tokens).advance(),
        Err(error) => StepView::Finished(Err(error)),
    }
}

/// What the evaluation of a text finishes with when `arithmetic` answers
/// every step.
pub open spec fn value_of_text(text: Seq<char>, arithmetic: Arithmetic) -> Result<
    Double,
    ErrorView,
> {
    first_step(text).outcome(arithmetic)
}

/// The result that a calculator remembers after `step`, having remembered
/// `previous` before: the value that an evaluation finished with, and
/// `previous` after any other step.
pub open spec fn remembered(previous: Double, step: StepView) -> Double {
    match step {
        StepView::Finished(Ok(value)) => value,
        _ => previous,
    }
}

/// A calculator that remembers the value of the last expression whose
/// evaluation succeeded.
#[derive(Debug)]
pub struct Calculator {
    result: Double,
}

impl View for Calculator {
    type V = Double;

    /// The remembered result.
    closed spec fn view(&self) -> Double {
        self.result
    }
}

impl Calculator {
    /// A calculator that remembers positive zero.
    pub fn new() -> (calculator: Calculator)
        ensures
            calculator@ == Double::zero(),
    {
        Calculator { result: Double::zero() }
    }

    /// Begins the evaluation of `expression` and runs it up to its first
    /// step. That step is never a value, so the remembered result stays.
    pub fn evaluate(&mut self, expression: &str) -> (step: Step)
        ensures
            step@ == first_step(expression@),
            final(self)@ == old(self)@,
    {
        let step = match Parser::parse(expression) {
            Ok(tokens) => Evaluation::start(tokens),
            Err(error) => Step::Finished(Err(error)),
        };
        proof {
            lemma_first_step_has_no_value(expression@);
        }
        self.remember(&step);
        step
    }

    /// Goes on with `evaluation`, handing it the `value` that it was waiting
    /// for, up to its next step.
    pub fn resume(&mut self, evaluation: Evaluation, value: Double) -> (step: Step)
        ensures
            step@ == evaluation@.supply(value).advance(),
            final(self)@ == remembered(old(self)@, step@),
    {
        let step = evaluation.resume(value);
        self.remember(&step);
        step
    }

    /// The value of the last expression whose evaluation succeeded, positive
    /// zero before the first.
    pub fn get_result(&self) -> (result: Double)
        ensures
            result == self@,
    {
        self.result
    }

    fn remember(&mut self, step: &Step)
        ensures
            final(self)@ == remembered(old(self)@, step@),
    {
        match step {
            Step::Finished(Ok(value)) => {
                self.result = *value;
            },
            _ => {},
        }
    }
}

impl StepView {
    /// What a calculator remembers when the evaluation is over, `memory`
    /// being what it remembers now that this step has been taken, and
    /// `arithmetic` answering this step and every step after it.
    pub open spec fn remembered_at_end(self, memory: Double, arithmetic: Arithmetic) -> Double
        decreases self.work_left(),
        via Self::remembered_at_end_terminates
    {
        match self {
            StepView::Finished(_) => memory,
            _ => {
                let next = self.answered(arithmetic);
                next.remembered_at_end(remembered(memory, next), arithmetic)
            },
        }
    }

    #[via_fn]
    proof fn remembered_at_end_terminates(self, memory: Double, arithmetic: Arithmetic) {
        if !(self is Finished) {
            lemma_answer_progresses(self, arithmetic);
        }
    }
}

/// A failure is not remembered. At the end of an evaluation a calculator
/// remembers the value of the expression, and where the evaluation failed,
/// what it remembered before: the last value that there was, or zero.
pub proof fn lemma_failure_is_not_remembered(
    step: StepView,
    previous: Double,
    arithmetic: Arithmetic,
)
    ensures
        step.remembered_at_end(remembered(previous, step), arithmetic) == match step.outcome(
            arithmetic,
        ) {
            Ok(value) => value,
            Err(_) => previous,
        },
    decreases step.work_left(),
{
    if !(step is Finished) {
        lemma_answer_progresses(step, arithmetic);
        lemma_failure_is_not_remembered(step.answered(arithmetic), previous, arithmetic);
    }
}

/// The first step of an evaluation is never a value: before there is one, a
/// number has to be converted.
pub proof fn lemma_first_step_has_no_value(text: Seq<char>)
    ensures
        !(first_step(text) matches StepView::Finished(Ok(_))),
{
    if let Ok(tokens) = tokenize(text) {
        lemma_no_value_without_operand(EvaluationView::initial(tokens));
    }
}

/// What the first step of the evaluation of a text hands out to be converted
/// is a number literal, and so is every number among the tokens that the
/// evaluation goes on with.
pub proof fn lemma_first_step_converts_a_literal(text: Seq<char>)
    ensures
        match first_step(text) {
            StepView::Convert(literal, next) => is_number_literal(literal) && numbers_are_literals(
                next.tokens,
            ),
            StepView::Compute(_, next) => numbers_are_literals(next.tokens),
            StepView::Finished(_) => true,
        },
{
    lemma_tokens_hold_literals(text);
    if let Ok(tokens) = tokenize(text) {
        lemma_step_converts_a_token(EvaluationView::initial(tokens));
    }
}

/// What a later step hands out to be converted is a number literal, as long
/// as every number among the tokens is one; and the tokens stay as they are.
pub proof fn lemma_next_step_converts_a_literal(evaluation: EvaluationView, value: Double)
    requires
        numbers_are_literals(evaluation.tokens),
    ensures
        match evaluation.supply(value).advance() {
            StepView::Convert(literal, next) => is_number_literal(literal) && numbers_are_literals(
                next.tokens,
            ),
            StepView::Compute(_, next) => numbers_are_literals(next.tokens),
            StepView::Finished(_) => true,
        },
{
    lemma_step_converts_a_token(evaluation.supply(value));
}

/// An empty text, or one of nothing but spaces, is an empty expression.
pub proof fn lemma_blank_text_is_empty_expression(text: Seq<char>, arithmetic: Arithmetic)
    requires
        forall|i: int| 0 <= i < text.len() ==> #[trigger] text[i] == ' ',
    ensures
        value_of_text(text, arithmetic) == Err::<Double, ErrorView>(
            ErrorView::empty_expression(),
        ),
{
    lemma_blank_text_has_no_tokens(text);
}

/// A space that does not split a number changes nothing about the
/// evaluation of a text.
pub proof fn lemma_space_keeps_value(left: Seq<char>, right: Seq<char>, arithmetic: Arithmetic)
    requires
        apart(left, right),
    ensures
        first_step(left + seq![' '] + right) == first_step(left + right),
        value_of_text(left + seq![' '] + right, arithmetic) == value_of_text(
            left + right,
            arithmetic,
        ),
{
    lemma_space_is_ignored(left, right);
}

/// The value of an expression that is a single number is that number: what
/// the arithmetic converts its text to, whatever the text.
pub proof fn lemma_single_number(text: Seq<char>, arithmetic: Arithmetic)
    requires
        is_number_literal(text),
    ensures
        value_of_text(text, arithmetic) == Ok::<Double, ErrorView>((arithmetic.convert)(text)),
{
    lemma_literal_is_one_token(text);
    let tokens = seq![TokenView::Number(text)];
    let start = EvaluationView::initial(tokens);
    let first = start.advance();
    let second = first.answered(arithmetic);
    assert(first.outcome(arithmetic) == second.outcome(arithmetic));
}

} // verus!
