//! The lexer: from text to tokens.

use crate::error::{CalculatorError, ErrorView};
use crate::token::{token_views, Operator, Token, TokenView};
use vstd::prelude::*;

verus! {

/// A decimal digit.
pub open spec fn is_digit(c: char) -> bool {
    '0' <= c <= '9'
}

/// A character that a number is written with: a digit or the decimal point.
pub open spec fn is_number_char(c: char) -> bool {
    is_digit(c) || c == '.'
}

/// How many characters at the start of `text` a number may be written with.
pub open spec fn number_run(text: Seq<char>) -> nat
    decreases text.len(),
{
    if text.len() > 0 && is_number_char(text[0]) {
        1 + number_run(text.skip(1))
    } else {
        0
    }
}

/// A number as it may be written: digits and at most one decimal point, with
/// at least one digit. The point may come first or last.
pub open spec fn is_number_literal(text: Seq<char>) -> bool {
    &&& forall|i: int| 0 <= i < text.len() ==> is_number_char(#[trigger] text[i])
    &&& exists|i: int| 0 <= i < text.len() && is_digit(#[trigger] text[i])
    &&& forall|i: int, j: int|
        0 <= i < j < text.len() ==> !(#[trigger] text[i] == '.' && #[trigger] text[j] == '.')
}

/// The token that a character is by itself, if it is one.
pub open spec fn symbol(c: char) -> Option<TokenView> {
    if c == '+' {
        Some(TokenView::Operator(Operator::Add))
    } else if c == '-' {
        Some(TokenView::Operator(Operator::Subtract))
    } else if c == '*' {
        Some(TokenView::Operator(Operator::Multiply))
    } else if c == '/' {
        Some(TokenView::Operator(Operator::Divide))
    } else if c == '(' {
        Some(TokenView::LeftParen)
    } else if c == ')' {
        Some(TokenView::RightParen)
    } else {
        None
    }
}

/// `first`, then what `rest` holds; the error of `rest` where it is one.
pub open spec fn followed_by(
    first: Seq<TokenView>,
    rest: Result<Seq<TokenView>, ErrorView>,
) -> Result<Seq<TokenView>, ErrorView> {
    match rest {
        Ok(tokens) => Ok(first + tokens),
        Err(error) => Err(error),
    }
}

/// The tokens of a text, from left to right, or the first thing in it that is
/// no token.
///
/// A number takes every digit and point that follows it, and must then be a
/// number literal. Each operator and parenthesis is one token. A space is
/// skipped, and only a space: a tab or a line break is an invalid character
/// like any other.
pub open spec fn tokenize(text: Seq<char>) -> Result<Seq<TokenView>, ErrorView>
    decreases text.len(),
    via tokenize_terminates
{
    if text.len() == 0 {
        Ok(Seq::empty())
    } else if is_number_char(text[0]) {
        let length = number_run(text);
        let literal = text.take(length as int);
        if is_number_literal(literal) {
            followed_by(seq![TokenView::Number(literal)], tokenize(text.skip(length as int)))
        } else {
            Err(ErrorView::invalid_number(literal))
        }
    } else if text[0] == ' ' {
        tokenize(text.skip(1))
    } else {
        match symbol(text[0]) {
            Some(token) => followed_by(seq![token], tokenize(text.skip(1))),
            None => Err(ErrorView::invalid_character(text[0])),
        }
    }
}

#[via_fn]
proof fn tokenize_terminates(text: Seq<char>) {
    lemma_number_run_holds(text);
}

/// The tokens of `first`, then those of `rest`; the first error where there is
/// one.
pub open spec fn joined(
    first: Result<Seq<TokenView>, ErrorView>,
    rest: Result<Seq<TokenView>, ErrorView>,
) -> Result<Seq<TokenView>, ErrorView> {
    match first {
        Ok(tokens) => followed_by(tokens, rest),
        Err(error) => Err(error),
    }
}

/// Whether `left` and `right` can be put together without two numbers
/// running into one: not both a digit or point at the end of `left` and one at
/// the start of `right`.
pub open spec fn apart(left: Seq<char>, right: Seq<char>) -> bool {
    ||| left.len() == 0
    ||| right.len() == 0
    ||| !is_number_char(left.last())
    ||| !is_number_char(right[0])
}

/// The characters of a text, in order.
fn characters(input: &str) -> (chars: Vec<char>)
    ensures
        chars@ == input@,
{
    let mut chars: Vec<char> = Vec::new();
    for c in it: input.chars()
        invariant
            chars@ == it.seq().take(it.index()),
    {
        chars.push(c);
    }
    chars
}

fn number_char(c: char) -> (number: bool)
    ensures
        number == is_number_char(c),
{
    ('0' <= c && c <= '9') || c == '.'
}

/// Where the run of digits and points that starts at `from` ends.
fn run_end(chars: &Vec<char>, from: usize) -> (end: usize)
    requires
        from <= chars.len(),
    ensures
        from <= end <= chars.len(),
        end - from == number_run(chars@.skip(from as int)),
        forall|i: int| from <= i < end ==> is_number_char(#[trigger] chars@[i]),
{
    let mut end: usize = from;
    while end < chars.len() && number_char(chars[end])
        invariant
            from <= end <= chars.len(),
            forall|i: int| from <= i < end ==> is_number_char(#[trigger] chars@[i]),
        decreases chars.len() - end,
    {
        end += 1;
    }
    proof {
        lemma_number_run_is(chars@.skip(from as int), end - from);
    }
    end
}

/// The text between `from` and `end`, and whether it is a number literal.
fn literal(chars: &Vec<char>, from: usize, end: usize) -> (found: (String, bool))
    requires
        from <= end <= chars.len(),
        forall|i: int| from <= i < end ==> is_number_char(#[trigger] chars@[i]),
    ensures
        found.0@ == chars@.subrange(from as int, end as int),
        found.1 == is_number_literal(found.0@),
{
    let ghost run = chars@.subrange(from as int, end as int);
    let mut text = String::new();
    let mut digit = false;
    let mut points: u8 = 0;
    let mut at: usize = from;
    while at < end
        invariant
            from <= at <= end <= chars.len(),
            run == chars@.subrange(from as int, end as int),
            forall|i: int| from <= i < end ==> is_number_char(#[trigger] chars@[i]),
            text@ == chars@.subrange(from as int, at as int),
            digit <==> exists|i: int| 0 <= i < at - from && is_digit(#[trigger] run[i]),
            points <= 2,
            points == 0 ==> forall|i: int| 0 <= i < at - from ==> #[trigger] run[i] != '.',
            points == 1 ==> forall|i: int, j: int|
                0 <= i < j < at - from ==> !(#[trigger] run[i] == '.' && #[trigger] run[j] == '.'),
            points == 1 ==> exists|i: int| 0 <= i < at - from && #[trigger] run[i] == '.',
            points == 2 ==> exists|i: int, j: int|
                0 <= i < j < at - from && #[trigger] run[i] == '.' && #[trigger] run[j] == '.',
        decreases end - at,
    {
        let c = chars[at];
        let ghost here: int = at - from;
        assert(run[here] == c && is_number_char(c));
        if c == '.' {
            if points < 2 {
                points += 1;
            }
        } else {
            digit = true;
        }
        text.push(c);
        at += 1;
    }
    (text, digit && points <= 1)
}

/// The lexer: text in, tokens out.
pub struct Parser;

impl Parser {
    /// Splits `input` into its tokens, or reports the first malformed number
    /// or invalid character in it. Spaces separate tokens and are dropped.
    pub fn parse(input: &str) -> (outcome: Result<Vec<Token>, CalculatorError>)
        ensures
            match outcome {
                Ok(tokens) => tokenize(input@) == Ok::<Seq<TokenView>, ErrorView>(
                    token_views(tokens@),
                ),
                Err(error) => tokenize(input@) == Err::<Seq<TokenView>, ErrorView>(error@),
            },
    {
        let chars = characters(input);
        let mut tokens: Vec<Token> = Vec::new();
        let mut at: usize = 0;
        proof {
            assert(chars@.skip(0) =~= chars@);
            match tokenize(chars@) {
                Ok(all) => assert(Seq::<TokenView>::empty() + all =~= all),
                Err(_) => {},
            }
        }
        while at < chars.len()
            invariant
                at <= chars.len(),
                chars@ == input@,
                tokenize(chars@) == followed_by(
                    token_views(tokens@),
                    tokenize(chars@.skip(at as int)),
                ),
            decreases chars.len() - at,
        {
            let ghost rest = chars@.skip(at as int);
            let ghost before = token_views(tokens@);
            let c = chars[at];
            let next: usize;
            if number_char(c) {
                let end: usize = run_end(&chars, at);
                assert(rest.take(end - at) =~= chars@.subrange(at as int, end as int));
                assert(rest.skip(end - at) =~= chars@.skip(end as int));
                let (text, number) = literal(&chars, at, end);
                if !number {
                    return Err(CalculatorError::invalid_number(text.as_str()));
                }
                tokens.push(Token::Number(text));
                next = end;
            } else {
                assert(rest.skip(1) =~= chars@.skip(at + 1));
                if c == '+' {
                    tokens.push(Token::Operator(Operator::Add));
                } else if c == '-' {
                    tokens.push(Token::Operator(Operator::Subtract));
                } else if c == '*' {
                    tokens.push(Token::Operator(Operator::Multiply));
                } else if c == '/' {
                    tokens.push(Token::Operator(Operator::Divide));
                } else if c == '(' {
                    tokens.push(Token::LeftParen);
                } else if c == ')' {
                    tokens.push(Token::RightParen);
                } else if c != ' ' {
                    return Err(CalculatorError::invalid_character(c));
                }
                next = at + 1;
            }
            proof {
                let after = token_views(tokens@);
                if c != ' ' {
                    match tokenize(chars@.skip(next as int)) {
                        Ok(more) => {
                            assert(before + (seq![tokens@.last()@] + more) =~= after + more);
                        },
                        Err(_) => {},
                    }
                }
            }
            at = next;
        }
        Ok(tokens)
    }
}

/// A run holds digits and points only, and what follows it is neither.
pub proof fn lemma_number_run_holds(text: Seq<char>)
    ensures
        number_run(text) <= text.len(),
        forall|i: int| 0 <= i < number_run(text) ==> is_number_char(#[trigger] text[i]),
        number_run(text) == text.len() || !is_number_char(text[number_run(text) as int]),
    decreases text.len(),
{
    if text.len() > 0 && is_number_char(text[0]) {
        let rest = text.skip(1);
        lemma_number_run_holds(rest);
        assert forall|i: int| 0 <= i < number_run(text) implies is_number_char(
            #[trigger] text[i],
        ) by {
            if i > 0 {
                assert(text[i] == rest[i - 1]);
            }
        }
    }
}

/// A run ends where the text ends, or before the first character that is
/// neither a digit nor a point.
pub proof fn lemma_number_run_is(text: Seq<char>, length: int)
    requires
        0 <= length <= text.len(),
        forall|i: int| 0 <= i < length ==> is_number_char(#[trigger] text[i]),
        length == text.len() || !is_number_char(text[length]),
    ensures
        number_run(text) == length,
    decreases length,
{
    if length > 0 {
        let rest = text.skip(1);
        lemma_number_run_is(rest, length - 1);
    }
}

/// A text of nothing but spaces has no tokens.
pub proof fn lemma_blank_text_has_no_tokens(text: Seq<char>)
    requires
        forall|i: int| 0 <= i < text.len() ==> #[trigger] text[i] == ' ',
    ensures
        tokenize(text) == Ok::<Seq<TokenView>, ErrorView>(Seq::empty()),
    decreases text.len(),
{
    if text.len() > 0 {
        let rest = text.skip(1);
        lemma_blank_text_has_no_tokens(rest);
    }
}

/// A text that is one number literal is one token.
pub proof fn lemma_literal_is_one_token(text: Seq<char>)
    requires
        is_number_literal(text),
    ensures
        tokenize(text) == Ok::<Seq<TokenView>, ErrorView>(seq![TokenView::Number(text)]),
{
    lemma_number_run_is(text, text.len() as int);
    assert(text.take(text.len() as int) =~= text);
    assert(text.skip(text.len() as int) =~= Seq::<char>::empty());
    assert(tokenize(Seq::<char>::empty()) == Ok::<Seq<TokenView>, ErrorView>(Seq::empty()));
}

/// Whether every number among `tokens` is written as a number literal.
pub open spec fn numbers_are_literals(tokens: Seq<TokenView>) -> bool {
    forall|i: int|
        0 <= i < tokens.len() && #[trigger] tokens[i] is Number ==> is_number_literal(
            tokens[i]->Number_0,
        )
}

/// Every number among the tokens of a text is a number literal: it can be
/// converted.
pub proof fn lemma_tokens_hold_literals(text: Seq<char>)
    ensures
        match tokenize(text) {
            Ok(tokens) => numbers_are_literals(tokens),
            Err(_) => true,
        },
    decreases text.len(),
{
    if text.len() > 0 {
        lemma_number_run_holds(text);
        let length: int = if is_number_char(text[0]) {
            number_run(text) as int
        } else {
            1
        };
        lemma_tokens_hold_literals(text.skip(length));
    }
}

/// Whatever is wrong with a text is a parse error.
pub proof fn lemma_text_fails_by_parse_error(text: Seq<char>)
    ensures
        match tokenize(text) {
            Ok(_) => true,
            Err(error) => error is ParseError,
        },
    decreases text.len(),
{
    if text.len() > 0 {
        lemma_number_run_holds(text);
        let length: int = if is_number_char(text[0]) {
            number_run(text) as int
        } else {
            1
        };
        lemma_text_fails_by_parse_error(text.skip(length));
    }
}

/// The tokens of two texts put together are the tokens of the first and then
/// those of the second, unless a number at the end of the first runs into one
/// at the start of the second.
pub proof fn lemma_tokenize_concatenation(left: Seq<char>, right: Seq<char>)
    requires
        apart(left, right),
    ensures
        tokenize(left + right) == joined(tokenize(left), tokenize(right)),
    decreases left.len(),
{
    let text = left + right;
    if left.len() == 0 {
        match tokenize(right) {
            Ok(tokens) => assert(Seq::<TokenView>::empty() + tokens =~= tokens),
            Err(_) => {},
        }
    } else {
        let length: int = if is_number_char(left[0]) {
            number_run(left) as int
        } else {
            1
        };
        lemma_number_run_holds(left);
        let remainder = left.skip(length);
        if is_number_char(left[0]) {
            lemma_number_run_is(text, length);
            assert(text.take(length) =~= left.take(length));
        }
        assert(text.skip(length) =~= remainder + right);
        lemma_tokenize_concatenation(remainder, right);
        let head: Seq<TokenView> = if is_number_char(left[0]) {
            seq![TokenView::Number(left.take(length))]
        } else {
            match symbol(left[0]) {
                Some(token) => seq![token],
                None => Seq::empty(),
            }
        };
        match (tokenize(remainder), tokenize(right)) {
            (Ok(first), Ok(second)) => {
                assert(head + (first + second) =~= (head + first) + second);
            },
            _ => {},
        }
    }
}

/// The first character of a text that cannot be part of a token is named in
/// the error, whatever follows it, as long as what stands before it has
/// tokens.
pub proof fn lemma_invalid_character_is_named(left: Seq<char>, c: char, right: Seq<char>)
    requires
        tokenize(left) is Ok,
        !is_number_char(c),
        c != ' ',
        symbol(c) is None,
    ensures
        tokenize(left + seq![c] + right) == Err::<Seq<TokenView>, ErrorView>(
            ErrorView::invalid_character(c),
        ),
{
    let rest = seq![c] + right;
    lemma_tokenize_concatenation(left, rest);
    assert(left + seq![c] + right =~= left + rest);
}

/// A space between two texts keeps their tokens apart and adds none.
pub proof fn lemma_space_separates(left: Seq<char>, right: Seq<char>)
    ensures
        tokenize(left + seq![' '] + right) == joined(tokenize(left), tokenize(right)),
{
    let spaced = seq![' '] + right;
    assert(spaced.skip(1) =~= right);
    lemma_tokenize_concatenation(left, spaced);
    assert(left + seq![' '] + right =~= left + spaced);
}

/// A space changes nothing where it does not split a number: at the start,
/// at the end, beside an operator or a parenthesis, beside another space.
pub proof fn lemma_space_is_ignored(left: Seq<char>, right: Seq<char>)
    requires
        apart(left, right),
    ensures
        tokenize(left + seq![' '] + right) == tokenize(left + right),
{
    lemma_space_separates(left, right);
    lemma_tokenize_concatenation(left, right);
}

} // verus!
