//! A calculator for arithmetic expressions over double-precision numbers.
//!
//! An expression is text: decimal numbers, the operators `+ - * /`,
//! parentheses and spaces. [`Parser::parse`] splits it into tokens, and an
//! [`Evaluation`] computes its value from the tokens with two stacks, one of
//! operands and one of operators: `*` and `/` bind more tightly than `+` and
//! `-`, operators that bind alike are applied from left to right, and
//! parentheses group. A [`Calculator`] does both and remembers the last value.
//!
//! The library decides everything about an evaluation but does none of the
//! arithmetic. A number is a [`Double`], the bit pattern of a double, which
//! the library stores, hands out and tests for zero, and a number token
//! holds the text that was written. So an evaluation runs in steps. Each
//! [`Step`] is a request to whoever drives it: convert this literal, or
//! compute this operation, and resume with the result. The steps of one
//! evaluation come in the order in which the two stacks call for them, a
//! division by zero is found before the division is handed out, and the last
//! step is the value of the expression or the error that ended it.
//!
//! What such a run yields is pinned down by the contracts: the tokens
//! of a text by [`parser::tokenize`], each step by
//! [`EvaluationView::advance`], and the whole by [`StepView::outcome`] for
//! any [`Arithmetic`] that answers the steps. For the tokens of an expression
//! that is written as the rules of precedence read it, that outcome is the
//! value of the expression as a tree, [`Expression::value`].
//!
//! Only a space separates tokens. A tab or a line break is an invalid
//! character, like a letter.

pub mod arithmetic;
pub mod calculator;
pub mod error;
pub mod evaluator;
pub mod expression;
pub mod number;
pub mod parser;
pub mod reduction;
pub mod text;
pub mod token;

pub use arithmetic::Arithmetic;
pub use calculator::Calculator;
pub use error::{CalculatorError, ErrorView};
pub use evaluator::{Evaluation, EvaluationView, Pending, Step, StepView};
pub use expression::Expression;
pub use number::Double;
pub use parser::Parser;
pub use token::{Operation, Operator, Token, TokenView};
