//! The evaluator: from tokens to a value, by way of two stacks and of the
//! steps that are handed out to be answered.

use crate::error::{CalculatorError, ErrorView};
use crate::number::Double;
use crate::token::{token_views, Operation, Operator, Token, TokenView};
use vstd::prelude::*;

verus! {

/// What waits on the operator stack: an operator that has not been applied
/// yet, or a parenthesis that has not been closed yet.
#[derive(Debug, Clone, Copy, PartialEq, Eq, Structural)]
pub enum Pending {
    Operator(Operator),
    LeftParen,
}

/// An evaluation between two steps: the tokens, how many of them have been
/// consumed, and the two stacks, each with its top at the end.
pub struct EvaluationView {
    pub tokens: Seq<TokenView>,
    pub position: nat,
    pub numbers: Seq<Double>,
    pub operators: Seq<Pending>,
}

/// A `Step` with its texts as sequences of characters.
pub enum StepView {
    Convert(Seq<char>, EvaluationView),
    Compute(Operation, EvaluationView),
    Finished(Result<Double, ErrorView>),
}

impl EvaluationView {
    /// Nothing consumed, both stacks empty.
    pub open spec fn initial(tokens: Seq<TokenView>) -> EvaluationView {
        EvaluationView { tokens, position: 0, numbers: Seq::empty(), operators: Seq::empty() }
    }

    /// With `value` pushed on the operand stack.
    pub open spec fn supply(self, value: Double) -> EvaluationView {
        EvaluationView { numbers: self.numbers.push(value), ..self }
    }

    /// With the current token consumed.
    pub open spec fn consume(self) -> EvaluationView {
        EvaluationView { position: self.position + 1, ..self }
    }

    /// With `item` pushed on the operator stack.
    pub open spec fn push(self, item: Pending) -> EvaluationView {
        EvaluationView { operators: self.operators.push(item), ..self }
    }

    /// With the top of the operator stack removed.
    pub open spec fn pop(self) -> EvaluationView {
        EvaluationView { operators: self.operators.drop_last(), ..self }
    }

    /// The reduction by `item`, which has just been popped from the operator
    /// stack.
    ///
    /// A parenthesis cannot be reduced. An operator needs two operands: it
    /// takes the top of the stack as its right operand and the one below as
    /// its left. Where the operation is defined, it is handed out to be
    /// computed, and the evaluation waits for its result without the two
    /// operands.
    pub open spec fn reduce(self, item: Pending) -> StepView {
        match item {
            Pending::LeftParen => StepView::Finished(Err(ErrorView::expected_operator())),
            Pending::Operator(operator) => {
                let count: int = self.numbers.len() as int;
                if count < 2 {
                    StepView::Finished(Err(ErrorView::not_enough_operands()))
                } else {
                    match operator.spec_apply(self.numbers[count - 2], self.numbers[count - 1]) {
                        Ok(operation) => StepView::Compute(
                            operation,
                            EvaluationView { numbers: self.numbers.take(count - 2), ..self },
                        ),
                        Err(error) => StepView::Finished(Err(error)),
                    }
                }
            },
        }
    }

    /// The evaluation from here to the next thing that it cannot do itself.
    ///
    /// A number is consumed and handed out to be converted. An operator first
    /// reduces the operator on top of the stack while that one binds at
    /// least as tightly, and is then pushed. An opening parenthesis is
    /// pushed. A closing parenthesis reduces the operators down to the
    /// nearest opening parenthesis, which it removes; where there is none, it
    /// empties the stack and is consumed. After the last token the operators
    /// that are left are reduced, and the top of the operand stack is the
    /// result.
    pub open spec fn advance(self) -> StepView
        decreases self.tokens.len() - self.position,
    {
        if self.position >= self.tokens.len() {
            if self.operators.len() > 0 {
                self.pop().reduce(self.operators.last())
            } else if self.numbers.len() > 0 {
                StepView::Finished(Ok(self.numbers.last()))
            } else {
                StepView::Finished(Err(ErrorView::empty_expression()))
            }
        } else {
            match self.tokens[self.position as int] {
                TokenView::Number(text) => StepView::Convert(text, self.consume()),
                TokenView::Operator(operator) => {
                    if self.reduces_at(operator.precedence()) {
                        self.pop().reduce(self.operators.last())
                    } else {
                        self.push(Pending::Operator(operator)).consume().advance()
                    }
                },
                TokenView::LeftParen => self.push(Pending::LeftParen).consume().advance(),
                TokenView::RightParen => {
                    if self.operators.len() == 0 {
                        self.consume().advance()
                    } else {
                        match self.operators.last() {
                            Pending::LeftParen => self.pop().consume().advance(),
                            Pending::Operator(_) => self.pop().reduce(self.operators.last()),
                        }
                    }
                },
            }
        }
    }

    /// Whether the top of the operator stack is an operator that binds at
    /// least as tightly as `floor`.
    pub open spec fn reduces_at(self, floor: u8) -> bool {
        self.operators.len() > 0 && match self.operators.last() {
            Pending::Operator(top) => top.precedence() >= floor,
            Pending::LeftParen => false,
        }
    }
}

/// An evaluation that is waiting for a number: the value of a literal, or the
/// result of an operation.
#[derive(Debug)]
pub struct Evaluation {
    tokens: Vec<Token>,
    position: usize,
    numbers: Vec<Double>,
    operators: Vec<Pending>,
}

impl View for Evaluation {
    type V = EvaluationView;

    closed spec fn view(&self) -> EvaluationView {
        EvaluationView {
            tokens: token_views(self.tokens@),
            position: self.position as nat,
            numbers: self.numbers@,
            operators: self.operators@,
        }
    }
}

/// How far an evaluation got.
#[derive(Debug)]
pub enum Step {
    /// The text of a number is to be converted; the evaluation goes on with
    /// its value.
    Convert(String, Evaluation),
    /// An operation is to be computed; the evaluation goes on with its
    /// result.
    Compute(Operation, Evaluation),
    /// The evaluation is over, with the value of the expression or the reason
    /// why it has none.
    Finished(Result<Double, CalculatorError>),
}

impl View for Step {
    type V = StepView;

    open spec fn view(&self) -> StepView {
        match self {
            Step::Convert(text, evaluation) => StepView::Convert(text@, evaluation@),
            Step::Compute(operation, evaluation) => StepView::Compute(*operation, evaluation@),
            Step::Finished(Ok(value)) => StepView::Finished(Ok(*value)),
            Step::Finished(Err(error)) => StepView::Finished(Err(error@)),
        }
    }
}

impl Evaluation {
    /// Begins the evaluation of `tokens` and runs it up to its first step.
    pub fn start(tokens: Vec<Token>) -> (step: Step)
        ensures
            step@ == EvaluationView::initial(token_views(tokens@)).advance(),
    {
        let evaluation = Evaluation {
            tokens,
            position: 0,
            numbers: Vec::new(),
            operators: Vec::new(),
        };
        evaluation.advance()
    }

    /// Goes on with `value`, the number that the evaluation was waiting for,
    /// up to the next step.
    pub fn resume(self, value: Double) -> (step: Step)
        ensures
            step@ == self@.supply(value).advance(),
    {
        let mut evaluation = self;
        evaluation.numbers.push(value);
        evaluation.advance()
    }

    fn advance(self) -> (step: Step)
        ensures
            step@ == self@.advance(),
    {
        let mut state = self;
        loop
            invariant
                state@.advance() == self@.advance(),
            decreases state.tokens.len() - state.position,
        {
            if state.position >= state.tokens.len() {
                match state.operators.pop() {
                    Some(item) => {
                        return state.apply_operator(item);
                    },
                    None => {
                        return match state.numbers.pop() {
                            Some(value) => Step::Finished(Ok(value)),
                            None => Step::Finished(Err(CalculatorError::empty_expression())),
                        };
                    },
                }
            }
            match &state.tokens[state.position] {
                Token::Number(text) => {
                    let literal = text.clone();
                    state.position = state.position + 1;
                    return Step::Convert(literal, state);
                },
                Token::Operator(operator) => {
                    let operator = *operator;
                    let depth: usize = state.operators.len();
                    let yields = depth > 0 && match state.operators[depth - 1] {
                        Pending::Operator(top) => top.precedence() >= operator.precedence(),
                        Pending::LeftParen => false,
                    };
                    if yields {
                        let top = state.operators.pop();
                        return state.apply_operator(top.unwrap());
                    }
                    state.operators.push(Pending::Operator(operator));
                    state.position = state.position + 1;
                },
                Token::LeftParen => {
                    state.operators.push(Pending::LeftParen);
                    state.position = state.position + 1;
                },
                Token::RightParen => {
                    match state.operators.pop() {
                        Some(Pending::Operator(operator)) => {
                            return state.apply_operator(Pending::Operator(operator));
                        },
                        Some(Pending::LeftParen) => {
                            state.position = state.position + 1;
                        },
                        None => {
                            state.position = state.position + 1;
                        },
                    }
                },
            }
        }
    }

    /// The reduction: applies `item`, which has just left the operator
    /// stack, to the two operands on top of the operand stack.
    fn apply_operator(self, item: Pending) -> (step: Step)
        ensures
            step@ == self@.reduce(item),
    {
        let mut state = self;
        match item {
            Pending::LeftParen => Step::Finished(Err(CalculatorError::expected_operator())),
            Pending::Operator(operator) => {
                let count: usize = state.numbers.len();
                if count < 2 {
                    return Step::Finished(Err(CalculatorError::not_enough_operands()));
                }
                let right = state.numbers[count - 1];
                let left = state.numbers[count - 2];
                match operator.apply(left, right) {
                    Ok(operation) => {
                        state.numbers.truncate(count - 2);
                        Step::Compute(operation, state)
                    },
                    Err(error) => Step::Finished(Err(error)),
                }
            },
        }
    }
}

/// A step leaves the tokens as they are, and what it hands out to be
/// converted is the text of one of them: a number literal, where the tokens
/// are those of a text.
pub proof fn lemma_step_converts_a_token(evaluation: EvaluationView)
    ensures
        match evaluation.advance() {
            StepView::Convert(text, next) => {
                &&& next.tokens == evaluation.tokens
                &&& exists|i: int|
                    0 <= i < evaluation.tokens.len() && #[trigger] evaluation.tokens[i]
                        == TokenView::Number(text)
            },
            StepView::Compute(_, next) => next.tokens == evaluation.tokens,
            StepView::Finished(_) => true,
        },
    decreases evaluation.tokens.len() - evaluation.position,
{
    if evaluation.position < evaluation.tokens.len() {
        let here: int = evaluation.position as int;
        match evaluation.tokens[here] {
            TokenView::Number(_) => {},
            TokenView::Operator(operator) => {
                if !evaluation.reduces_at(operator.precedence()) {
                    lemma_step_converts_a_token(
                        evaluation.push(Pending::Operator(operator)).consume(),
                    );
                }
            },
            TokenView::LeftParen => {
                lemma_step_converts_a_token(evaluation.push(Pending::LeftParen).consume());
            },
            TokenView::RightParen => {
                if evaluation.operators.len() == 0 {
                    lemma_step_converts_a_token(evaluation.consume());
                } else if evaluation.operators.last() is LeftParen {
                    lemma_step_converts_a_token(evaluation.pop().consume());
                }
            },
        }
    }
}

/// An evaluation fails with an invalid expression or a division by zero,
/// never with a parse error.
pub proof fn lemma_step_fails_without_parse_error(evaluation: EvaluationView)
    ensures
        match evaluation.advance() {
            StepView::Finished(Err(error)) => !(error is ParseError),
            _ => true,
        },
    decreases evaluation.tokens.len() - evaluation.position,
{
    if evaluation.position < evaluation.tokens.len() {
        match evaluation.tokens[evaluation.position as int] {
            TokenView::Number(_) => {},
            TokenView::Operator(operator) => {
                if !evaluation.reduces_at(operator.precedence()) {
                    lemma_step_fails_without_parse_error(
                        evaluation.push(Pending::Operator(operator)).consume(),
                    );
                }
            },
            TokenView::LeftParen => {
                lemma_step_fails_without_parse_error(
                    evaluation.push(Pending::LeftParen).consume(),
                );
            },
            TokenView::RightParen => {
                if evaluation.operators.len() == 0 {
                    lemma_step_fails_without_parse_error(evaluation.consume());
                } else if evaluation.operators.last() is LeftParen {
                    lemma_step_fails_without_parse_error(evaluation.pop().consume());
                }
            },
        }
    }
}

/// While the operand stack is empty, an evaluation cannot finish with a
/// value.
pub proof fn lemma_no_value_without_operand(evaluation: EvaluationView)
    requires
        evaluation.numbers.len() == 0,
    ensures
        !(evaluation.advance() matches StepView::Finished(Ok(_))),
    decreases evaluation.tokens.len() - evaluation.position,
{
    if evaluation.position < evaluation.tokens.len() {
        match evaluation.tokens[evaluation.position as int] {
            TokenView::Number(_) => {},
            TokenView::Operator(operator) => {
                if !evaluation.reduces_at(operator.precedence()) {
                    lemma_no_value_without_operand(
                        evaluation.push(Pending::Operator(operator)).consume(),
                    );
                }
            },
            TokenView::LeftParen => {
                lemma_no_value_without_operand(evaluation.push(Pending::LeftParen).consume());
            },
            TokenView::RightParen => {
                if evaluation.operators.len() == 0 {
                    lemma_no_value_without_operand(evaluation.consume());
                } else if evaluation.operators.last() is LeftParen {
                    lemma_no_value_without_operand(evaluation.pop().consume());
                }
            },
        }
    }
}

} // verus!
