//! The errors of the calculator and their texts.

use vstd::prelude::*;
use vstd::string::*;

verus! {

/// Why an expression could not be evaluated.
#[derive(Debug, PartialEq)]
pub enum CalculatorError {
    /// The tokens do not form an expression; the text says what is wrong.
    InvalidExpression(String),
    /// The right operand of a division is a zero.
    DivisionByZero,
    /// The text holds a malformed number or a character that is not allowed.
    ParseError(String),
}

/// A `CalculatorError` with its texts as sequences of characters.
pub enum ErrorView {
    InvalidExpression(Seq<char>),
    DivisionByZero,
    ParseError(Seq<char>),
}

impl View for CalculatorError {
    type V = ErrorView;

    open spec fn view(&self) -> ErrorView {
        match self {
            CalculatorError::InvalidExpression(detail) => ErrorView::InvalidExpression(detail@),
            CalculatorError::DivisionByZero => ErrorView::DivisionByZero,
            CalculatorError::ParseError(detail) => ErrorView::ParseError(detail@),
        }
    }
}

impl ErrorView {
    /// Nothing is left on the operand stack at the end.
    pub open spec fn empty_expression() -> ErrorView {
        ErrorView::InvalidExpression("Empty expression"@)
    }

    /// An operator finds fewer than two operands.
    pub open spec fn not_enough_operands() -> ErrorView {
        ErrorView::InvalidExpression("Not enough operands"@)
    }

    /// A parenthesis is reduced where an operator was due.
    pub open spec fn expected_operator() -> ErrorView {
        ErrorView::InvalidExpression("Expected operator"@)
    }

    /// The text holds `literal`, a run of digits and points that is not a
    /// number.
    pub open spec fn invalid_number(literal: Seq<char>) -> ErrorView {
        ErrorView::ParseError("Invalid number: "@ + literal)
    }

    /// The text holds `c`, which no token starts with.
    pub open spec fn invalid_character(c: char) -> ErrorView {
        ErrorView::ParseError("Invalid character: "@.push(c))
    }

    /// The error as one line of text.
    pub open spec fn message(self) -> Seq<char> {
        match self {
            ErrorView::InvalidExpression(detail) => "Invalid expression: "@ + detail,
            ErrorView::DivisionByZero => "Division by zero"@,
            ErrorView::ParseError(detail) => "Parse error: "@ + detail,
        }
    }
}

impl CalculatorError {
    /// The error of an expression without a value.
    pub fn empty_expression() -> (e: CalculatorError)
        ensures
            e@ == ErrorView::empty_expression(),
    {
        CalculatorError::InvalidExpression(String::from_str("Empty expression"))
    }

    /// The error of an operator that finds fewer than two operands.
    pub fn not_enough_operands() -> (e: CalculatorError)
        ensures
            e@ == ErrorView::not_enough_operands(),
    {
        CalculatorError::InvalidExpression(String::from_str("Not enough operands"))
    }

    /// The error of a parenthesis that was never closed.
    pub fn expected_operator() -> (e: CalculatorError)
        ensures
            e@ == ErrorView::expected_operator(),
    {
        CalculatorError::InvalidExpression(String::from_str("Expected operator"))
    }

    /// The error of a run of digits and points that is not a number.
    pub fn invalid_number(literal: &str) -> (e: CalculatorError)
        ensures
            e@ == ErrorView::invalid_number(literal@),
    {
        CalculatorError::ParseError(String::from_str("Invalid number: ").concat(literal))
    }

    /// The error of a character that no token starts with.
    pub fn invalid_character(c: char) -> (e: CalculatorError)
        ensures
            e@ == ErrorView::invalid_character(c),
    {
        let mut detail = String::from_str("Invalid character: ");
        detail.push(c);
        CalculatorError::ParseError(detail)
    }

    /// The error as one line of text: what kind it is, then its detail.
    pub fn message(&self) -> (text: String)
        ensures
            text@ == self@.message(),
    {
        match self {
            CalculatorError::InvalidExpression(detail) => {
                String::from_str("Invalid expression: ").concat(detail.as_str())
            },
            CalculatorError::DivisionByZero => String::from_str("Division by zero"),
            CalculatorError::ParseError(detail) => {
                String::from_str("Parse error: ").concat(detail.as_str())
            },
        }
    }
}

} // verus!
