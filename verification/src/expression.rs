//! Expressions as trees, and the proof that evaluating the tokens of an
//! expression yields its value.

use crate::arithmetic::Arithmetic;
use crate::calculator::value_of_text;
use crate::error::ErrorView;
use crate::evaluator::{EvaluationView, Pending};
use crate::number::Double;
use crate::parser::{
    is_number_literal, lemma_literal_is_one_token, lemma_tokenize_concatenation, tokenize,
};
use crate::reduction::{
    lemma_run_end, lemma_run_left_paren, lemma_run_number, lemma_run_operator,
    lemma_run_right_paren,
};
use crate::token::{Operator, TokenView};
use vstd::prelude::*;

verus! {

/// An arithmetic expression as a tree: what the tokens of a well-written
/// expression mean.
pub enum Expression {
    /// A number, by its text.
    Number(Seq<char>),
    /// An expression in parentheses.
    Group(Box<Expression>),
    /// An operator between its left and its right operand.
    Binary(Operator, Box<Expression>, Box<Expression>),
}

impl Expression {
    /// How tightly the expression holds together: as its operator binds, and
    /// more tightly than any operator where it is a number or a group.
    pub open spec fn level(self) -> u8 {
        match self {
            Expression::Binary(operator, _, _) => operator.precedence(),
            _ => 3,
        }
    }

    /// Whether the tree is the one that precedence and left associativity
    /// give to its tokens: no left operand binds less tightly than its
    /// operator, and every right operand binds more tightly.
    pub open spec fn follows_precedence(self) -> bool
        decreases self,
    {
        match self {
            Expression::Number(_) => true,
            Expression::Group(inner) => inner.follows_precedence(),
            Expression::Binary(operator, left, right) => {
                &&& left.follows_precedence()
                &&& right.follows_precedence()
                &&& left.level() >= operator.precedence()
                &&& right.level() > operator.precedence()
            },
        }
    }

    /// The tokens that the expression is written with.
    pub open spec fn written(self) -> Seq<TokenView>
        decreases self,
    {
        match self {
            Expression::Number(text) => seq![TokenView::Number(text)],
            Expression::Group(inner) => seq![TokenView::LeftParen] + inner.written()
                + seq![TokenView::RightParen],
            Expression::Binary(operator, left, right) => left.written() + seq![
                TokenView::Operator(operator),
            ] + right.written(),
        }
    }

    /// The value of the expression: that of a number is its conversion, that
    /// of a group is the value inside, and that of an operator is computed
    /// from the values of its operands, the left one first. A division whose
    /// right operand is a zero has no value, nor has anything around it.
    pub open spec fn value(self, arithmetic: Arithmetic) -> Result<Double, ErrorView>
        decreases self,
    {
        match self {
            Expression::Number(text) => Ok((arithmetic.convert)(text)),
            Expression::Group(inner) => inner.value(arithmetic),
            Expression::Binary(operator, left, right) => match left.value(arithmetic) {
                Err(error) => Err(error),
                Ok(a) => match right.value(arithmetic) {
                    Err(error) => Err(error),
                    Ok(b) => match operator.spec_apply(a, b) {
                        Err(error) => Err(error),
                        Ok(operation) => Ok((arithmetic.compute)(operation)),
                    },
                },
            },
        }
    }
}

/// The character that an operator is written with.
pub open spec fn operator_char(operator: Operator) -> char {
    match operator {
        Operator::Add => '+',
        Operator::Subtract => '-',
        Operator::Multiply => '*',
        Operator::Divide => '/',
    }
}

impl Expression {
    /// Whether every number in the expression is written as a number
    /// literal.
    pub open spec fn holds_literals(self) -> bool
        decreases self,
    {
        match self {
            Expression::Number(text) => is_number_literal(text),
            Expression::Group(inner) => inner.holds_literals(),
            Expression::Binary(_, left, right) => left.holds_literals()
                && right.holds_literals(),
        }
    }

    /// The expression as text, without a space.
    pub open spec fn text(self) -> Seq<char>
        decreases self,
    {
        match self {
            Expression::Number(text) => text,
            Expression::Group(inner) => seq!['('] + inner.text() + seq![')'],
            Expression::Binary(operator, left, right) => left.text() + seq![
                operator_char(operator),
            ] + right.text(),
        }
    }
}

/// The tokens of the text of an expression are the tokens that the
/// expression is written with.
pub proof fn lemma_text_has_written_tokens(expression: Expression)
    requires
        expression.holds_literals(),
    ensures
        tokenize(expression.text()) == Ok::<Seq<TokenView>, ErrorView>(expression.written()),
    decreases expression,
{
    let nothing = Seq::<TokenView>::empty();
    assert(tokenize(Seq::<char>::empty()) == Ok::<Seq<TokenView>, ErrorView>(nothing));
    match expression {
        Expression::Number(text) => {
            lemma_literal_is_one_token(text);
        },
        Expression::Group(inner) => {
            let closing = seq![')'];
            let rest = inner.text() + closing;
            lemma_text_has_written_tokens(*inner);
            assert(closing.skip(1) =~= Seq::<char>::empty());
            lemma_tokenize_concatenation(inner.text(), closing);
            assert(expression.text() =~= seq!['('] + rest);
            assert(expression.text().skip(1) =~= rest);
            assert(expression.text()[0] == '(');
            assert(expression.written() =~= seq![TokenView::LeftParen] + (inner.written() + seq![
                TokenView::RightParen,
            ]));
        },
        Expression::Binary(operator, left, right) => {
            let rest = seq![operator_char(operator)] + right.text();
            lemma_text_has_written_tokens(*left);
            lemma_text_has_written_tokens(*right);
            assert(rest.skip(1) =~= right.text());
            lemma_tokenize_concatenation(left.text(), rest);
            assert(expression.text() =~= left.text() + rest);
            assert(expression.written() =~= left.written() + (seq![
                TokenView::Operator(operator),
            ] + right.written()));
        },
    }
}

/// The only failure of an expression is a division by zero.
pub proof fn lemma_value_fails_by_division(expression: Expression, arithmetic: Arithmetic)
    ensures
        expression.value(arithmetic) is Err ==> expression.value(arithmetic) == Err::<
            Double,
            ErrorView,
        >(ErrorView::DivisionByZero),
    decreases expression,
{
    match expression {
        Expression::Number(_) => {},
        Expression::Group(inner) => lemma_value_fails_by_division(*inner, arithmetic),
        Expression::Binary(_, left, right) => {
            lemma_value_fails_by_division(*left, arithmetic);
            lemma_value_fails_by_division(*right, arithmetic);
        },
    }
}

/// The evaluation of the tokens of an expression yields the value of the
/// expression: operators that bind more tightly are applied first, operators
/// that bind alike from left to right, and what stands in parentheses before
/// what stands around them. Where the expression has no value, because it
/// divides by zero, the evaluation fails with that error.
pub proof fn theorem_evaluation_yields_value(expression: Expression, arithmetic: Arithmetic)
    requires
        expression.follows_precedence(),
    ensures
        EvaluationView::initial(expression.written()).run(arithmetic) == expression.value(
            arithmetic,
        ),
{
    let start = EvaluationView::initial(expression.written());
    lemma_run_reads_expression(expression, start, arithmetic);
    lemma_value_reads_through(expression, arithmetic);
    lemma_value_fails_by_division(expression, arithmetic);
    if expression.reads_through(arithmetic) {
        let read = expression.read_from(start, arithmetic);
        lemma_read_from_position(expression, start, arithmetic);
        lemma_run_end(read, arithmetic);
        lemma_settle_after_reading(expression, start, 0, arithmetic);
    }
}

/// The evaluation of a text whose tokens are those of an expression yields
/// the value of the expression, however the text is spaced.
pub proof fn theorem_text_yields_value(
    text: Seq<char>,
    expression: Expression,
    arithmetic: Arithmetic,
)
    requires
        tokenize(text) == Ok::<Seq<TokenView>, ErrorView>(expression.written()),
        expression.follows_precedence(),
    ensures
        value_of_text(text, arithmetic) == expression.value(arithmetic),
{
    theorem_evaluation_yields_value(expression, arithmetic);
}

/// The evaluation of an expression as it is written yields its value.
pub proof fn theorem_written_expression_yields_value(
    expression: Expression,
    arithmetic: Arithmetic,
)
    requires
        expression.holds_literals(),
        expression.follows_precedence(),
    ensures
        value_of_text(expression.text(), arithmetic) == expression.value(arithmetic),
{
    lemma_text_has_written_tokens(expression);
    theorem_text_yields_value(expression.text(), expression, arithmetic);
}

/// `evaluation` with `length` more tokens consumed and `value` pushed on the
/// operand stack.
spec fn valued(evaluation: EvaluationView, length: nat, value: Double) -> EvaluationView {
    EvaluationView {
        position: evaluation.position + length,
        numbers: evaluation.numbers.push(value),
        ..evaluation
    }
}

/// Whether `written` stands in `tokens` from `position` on.
spec fn stands_at(tokens: Seq<TokenView>, written: Seq<TokenView>, position: nat) -> bool {
    &&& position + written.len() <= tokens.len()
    &&& forall|i: int|
        0 <= i < written.len() ==> tokens[position + i] == #[trigger] written[i]
}

impl Expression {
    /// Whether the tokens of the expression are read without a failure: every
    /// value that is computed before its last token has been consumed
    /// exists. Those are the values of the groups and of the left operands;
    /// the operators down the right-hand side are still on the stack then.
    spec fn reads_through(self, arithmetic: Arithmetic) -> bool
        decreases self,
    {
        match self {
            Expression::Number(_) => true,
            Expression::Group(inner) => inner.value(arithmetic) is Ok,
            Expression::Binary(_, left, right) => left.value(arithmetic) is Ok
                && right.reads_through(arithmetic),
        }
    }

    /// The evaluation after the tokens of the expression have been read from
    /// `start`, where they are read without a failure.
    spec fn read_from(self, start: EvaluationView, arithmetic: Arithmetic) -> EvaluationView
        decreases self,
    {
        match self {
            Expression::Number(text) => valued(start, 1, (arithmetic.convert)(text)),
            Expression::Group(inner) => valued(
                start,
                self.written().len(),
                inner.value(arithmetic)->Ok_0,
            ),
            Expression::Binary(operator, left, right) => right.read_from(
                valued(start, left.written().len(), left.value(arithmetic)->Ok_0).push(
                    Pending::Operator(operator),
                ).consume(),
                arithmetic,
            ),
        }
    }
}

/// An expression that has a value is read without a failure.
proof fn lemma_value_reads_through(expression: Expression, arithmetic: Arithmetic)
    ensures
        expression.value(arithmetic) is Ok ==> expression.reads_through(arithmetic),
    decreases expression,
{
    match expression {
        Expression::Binary(_, _, right) => lemma_value_reads_through(*right, arithmetic),
        _ => {},
    }
}

/// Reading an expression consumes its tokens and leaves the tokens as they
/// are.
proof fn lemma_read_from_position(
    expression: Expression,
    start: EvaluationView,
    arithmetic: Arithmetic,
)
    ensures
        expression.read_from(start, arithmetic).tokens == start.tokens,
        expression.read_from(start, arithmetic).position == start.position
            + expression.written().len(),
    decreases expression,
{
    match expression {
        Expression::Binary(operator, left, right) => {
            let middle = valued(start, left.written().len(), left.value(arithmetic)->Ok_0).push(
                Pending::Operator(operator),
            ).consume();
            lemma_read_from_position(*right, middle, arithmetic);
        },
        _ => {},
    }
}

/// Settling the stack after an expression has been read is settling it with
/// the value of the expression in place of what the expression left there,
/// as long as nothing is kept back that binds more loosely than the
/// expression itself.
proof fn lemma_settle_after_reading(
    expression: Expression,
    start: EvaluationView,
    floor: u8,
    arithmetic: Arithmetic,
)
    requires
        expression.follows_precedence(),
        expression.reads_through(arithmetic),
        floor <= expression.level(),
    ensures
        expression.read_from(start, arithmetic).settle(floor, arithmetic) == match expression.value(
            arithmetic,
        ) {
            Ok(value) => valued(start, expression.written().len(), value).settle(
                floor,
                arithmetic,
            ),
            Err(error) => Err(error),
        },
    decreases expression,
{
    match expression {
        Expression::Number(_) => {},
        Expression::Group(_) => {},
        Expression::Binary(operator, left, right) => {
            let a = left.value(arithmetic)->Ok_0;
            let middle = valued(start, left.written().len(), a).push(Pending::Operator(operator))
                .consume();
            lemma_settle_after_reading(*right, middle, floor, arithmetic);
            match right.value(arithmetic) {
                Ok(b) => {
                    let both = valued(middle, right.written().len(), b);
                    let count: int = both.numbers.len() as int;
                    match operator.spec_apply(a, b) {
                        Ok(operation) => {
                            let waiting = EvaluationView {
                                numbers: both.numbers.take(count - 2),
                                ..both.pop()
                            };
                            let value = (arithmetic.compute)(operation);
                            let whole = valued(start, expression.written().len(), value);
                            assert(waiting.operators =~= start.operators);
                            assert(waiting.supply(value).numbers =~= whole.numbers);
                        },
                        Err(_) => {},
                    }
                },
                Err(_) => {},
            }
        },
    }
}

/// Reading the tokens of an expression, where they stand next and the top of
/// the operator stack binds more loosely than the expression, either fails
/// with a division by zero or leaves the evaluation as `read_from` says.
proof fn lemma_run_reads_expression(
    expression: Expression,
    start: EvaluationView,
    arithmetic: Arithmetic,
)
    requires
        expression.follows_precedence(),
        stands_at(start.tokens, expression.written(), start.position),
        !start.reduces_at(expression.level()),
    ensures
        start.run(arithmetic) == if expression.reads_through(arithmetic) {
            expression.read_from(start, arithmetic).run(arithmetic)
        } else {
            Err(ErrorView::DivisionByZero)
        },
    decreases expression,
{
    let tokens = start.tokens;
    let written = expression.written();
    match expression {
        Expression::Number(text) => {
            assert(tokens[start.position as int] == written[0]);
            lemma_run_number(start, arithmetic);
        },
        Expression::Group(inner) => {
            let inside = inner.written();
            assert(tokens[start.position as int] == written[0]);
            lemma_run_left_paren(start, arithmetic);
            let opened = start.push(Pending::LeftParen).consume();
            assert forall|i: int| 0 <= i < inside.len() implies tokens[opened.position + i]
                == #[trigger] inside[i] by {
                assert(tokens[start.position + (i + 1)] == written[i + 1]);
            }
            lemma_run_reads_expression(*inner, opened, arithmetic);
            lemma_value_reads_through(*inner, arithmetic);
            if inner.reads_through(arithmetic) {
                let read = inner.read_from(opened, arithmetic);
                lemma_read_from_position(*inner, opened, arithmetic);
                let last: int = inside.len() as int + 1;
                assert(tokens[start.position + last] == written[last]);
                lemma_run_right_paren(read, arithmetic);
                lemma_settle_after_reading(*inner, opened, 0, arithmetic);
                lemma_value_fails_by_division(*inner, arithmetic);
                match inner.value(arithmetic) {
                    Ok(value) => {
                        let closed = valued(opened, inside.len(), value);
                        let whole = valued(start, written.len(), value);
                        assert(closed.pop().consume().operators =~= whole.operators);
                    },
                    Err(_) => {},
                }
            }
        },
        Expression::Binary(operator, left, right) => {
            let before = left.written();
            let behind = right.written();
            assert forall|i: int| 0 <= i < before.len() implies tokens[start.position + i]
                == #[trigger] before[i] by {
                assert(tokens[start.position + i] == written[i]);
            }
            lemma_run_reads_expression(*left, start, arithmetic);
            lemma_value_reads_through(*left, arithmetic);
            if left.reads_through(arithmetic) {
                let read = left.read_from(start, arithmetic);
                lemma_read_from_position(*left, start, arithmetic);
                let between: int = before.len() as int;
                assert(tokens[start.position + between] == written[between]);
                lemma_run_operator(read, arithmetic);
                lemma_settle_after_reading(*left, start, operator.precedence(), arithmetic);
                lemma_value_fails_by_division(*left, arithmetic);
                match left.value(arithmetic) {
                    Ok(a) => {
                        let settled = valued(start, before.len(), a);
                        let middle = settled.push(Pending::Operator(operator)).consume();
                        assert forall|i: int| 0 <= i < behind.len() implies tokens[middle.position
                            + i] == #[trigger] behind[i] by {
                            assert(tokens[start.position + (before.len() + 1 + i)] == written[
                                before.len() + 1 + i
                            ]);
                        }
                        lemma_run_reads_expression(*right, middle, arithmetic);
                    },
                    Err(_) => {},
                }
            }
        },
    }
}

} // verus!
