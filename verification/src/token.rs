//! Operators and tokens.

use crate::error::{CalculatorError, ErrorView};
use crate::number::Double;
use vstd::prelude::*;

verus! {

/// One of the four binary operators.
#[derive(Debug, Clone, Copy, PartialEq, Eq, Structural)]
pub enum Operator {
    Add,
    Subtract,
    Multiply,
    Divide,
}

/// An operator with its two operands, the left one first: arithmetic that is
/// defined and still has to be carried out.
#[derive(Debug, Clone, Copy, PartialEq, Eq, Structural)]
pub struct Operation {
    pub operator: Operator,
    pub left: Double,
    pub right: Double,
}

impl Operator {
    /// How tightly the operator binds: 2 for `*` and `/`, 1 for `+` and `-`.
    pub open spec fn spec_precedence(&self) -> u8 {
        match self {
            Operator::Add | Operator::Subtract => 1,
            Operator::Multiply | Operator::Divide => 2,
        }
    }

    /// How tightly the operator binds; the higher level is applied first.
    #[verifier::when_used_as_spec(spec_precedence)]
    pub fn precedence(&self) -> (level: u8)
        ensures
            level == self.spec_precedence(),
    {
        match self {
            Operator::Add | Operator::Subtract => 1,
            Operator::Multiply | Operator::Divide => 2,
        }
    }

    /// Applying the operator to `a` and `b` is refused when it is a division
    /// and `b` is a zero; otherwise it is the operation `a OP b`.
    pub open spec fn spec_apply(&self, a: Double, b: Double) -> Result<Operation, ErrorView> {
        if *self == Operator::Divide && b.is_zero() {
            Err(ErrorView::DivisionByZero)
        } else {
            Ok(Operation { operator: *self, left: a, right: b })
        }
    }

    /// Applies the operator to `a` on its left and `b` on its right: the
    /// operation to compute, or the error of a division by a zero.
    pub fn apply(&self, a: Double, b: Double) -> (outcome: Result<Operation, CalculatorError>)
        ensures
            match outcome {
                Ok(operation) => self.spec_apply(a, b) == Ok::<Operation, ErrorView>(operation),
                Err(error) => self.spec_apply(a, b) == Err::<Operation, ErrorView>(error@),
            },
    {
        match self {
            Operator::Divide => {
                if b.is_zero() {
                    return Err(CalculatorError::DivisionByZero);
                }
            },
            _ => {},
        }
        Ok(Operation { operator: *self, left: a, right: b })
    }
}

/// A lexical unit of an expression. A number is held as the text that was
/// written, a run of digits and decimal points.
#[derive(Debug, PartialEq)]
pub enum Token {
    Number(String),
    Operator(Operator),
    LeftParen,
    RightParen,
}

/// A `Token` with the text of a number as a sequence of characters.
pub enum TokenView {
    Number(Seq<char>),
    Operator(Operator),
    LeftParen,
    RightParen,
}

impl View for Token {
    type V = TokenView;

    open spec fn view(&self) -> TokenView {
        match self {
            Token::Number(text) => TokenView::Number(text@),
            Token::Operator(operator) => TokenView::Operator(*operator),
            Token::LeftParen => TokenView::LeftParen,
            Token::RightParen => TokenView::RightParen,
        }
    }
}

impl Clone for Token {
    fn clone(&self) -> (copy: Token)
        ensures
            copy@ == self@,
    {
        match self {
            Token::Number(text) => Token::Number(text.clone()),
            Token::Operator(operator) => Token::Operator(*operator),
            Token::LeftParen => Token::LeftParen,
            Token::RightParen => Token::RightParen,
        }
    }
}

/// The views of a sequence of tokens, in order.
pub open spec fn token_views(tokens: Seq<Token>) -> Seq<TokenView> {
    tokens.map_values(|token: Token| token@)
}

} // verus!
