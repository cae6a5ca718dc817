use calculator::{
    Calculator, CalculatorError, Double, Evaluation, Operation, Operator, Parser, Step,
};

fn double(value: f64) -> Double {
    Double::from_bits(value.to_bits())
}

fn float(value: Double) -> f64 {
    f64::from_bits(value.to_bits())
}

fn convert(text: &str) -> Double {
    double(text.parse::<f64>().unwrap())
}

fn compute(operation: &Operation) -> Double {
    let left = float(operation.left);
    let right = float(operation.right);
    double(match operation.operator {
        Operator::Add => left + right,
        Operator::Subtract => left - right,
        Operator::Multiply => left * right,
        Operator::Divide => left / right,
    })
}

fn run(calculator: &mut Calculator, expression: &str) -> Result<f64, CalculatorError> {
    let mut step = calculator.evaluate(expression);
    loop {
        step = match step {
            Step::Convert(text, evaluation) => calculator.resume(evaluation, convert(&text)),
            Step::Compute(operation, evaluation) => {
                calculator.resume(evaluation, compute(&operation))
            }
            Step::Finished(outcome) => return outcome.map(float),
        };
    }
}

fn evaluate(expression: &str) -> Result<f64, CalculatorError> {
    run(&mut Calculator::new(), expression)
}

fn invalid_expression(detail: &str) -> CalculatorError {
    CalculatorError::InvalidExpression(detail.to_string())
}

fn parse_error(detail: &str) -> CalculatorError {
    CalculatorError::ParseError(detail.to_string())
}

#[test]
fn a_single_number_is_its_own_value() {
    assert_eq!(evaluate("42"), Ok(42.0));
    assert_eq!(evaluate("3.14"), Ok(3.14));
    assert_eq!(evaluate("0"), Ok(0.0));
    assert_eq!(evaluate("007"), Ok(7.0));
    assert_eq!(evaluate("123456789.125"), Ok(123456789.125));
}

#[test]
fn a_point_may_come_first_or_last() {
    assert_eq!(evaluate(".5"), Ok(0.5));
    assert_eq!(evaluate("5."), Ok(5.0));
    assert_eq!(evaluate(".5 + 5."), Ok(5.5));
}

#[test]
fn a_number_too_large_for_a_double_is_infinite() {
    let mut text = String::from("1");
    for _ in 0..400 {
        text.push('0');
    }
    assert_eq!(evaluate(&text), Ok(f64::INFINITY));
}

#[test]
fn multiplication_binds_tighter_than_addition() {
    assert_eq!(evaluate("2 + 3 * 4"), Ok(14.0));
    assert_eq!(evaluate("2 * 3 + 4"), Ok(10.0));
    assert_eq!(evaluate("10 - 6 / 3"), Ok(8.0));
}

#[test]
fn subtraction_associates_to_the_left() {
    assert_eq!(evaluate("8 - 3 - 2"), Ok(3.0));
}

#[test]
fn division_associates_to_the_left() {
    assert_eq!(evaluate("64 / 4 / 2"), Ok(8.0));
    assert_eq!(evaluate("2 * 6 / 4"), Ok(3.0));
}

#[test]
fn parentheses_override_precedence() {
    assert_eq!(evaluate("(2 + 3) * 4"), Ok(20.0));
    assert_eq!(evaluate("8 - (3 - 2)"), Ok(7.0));
    assert_eq!(evaluate("((7))"), Ok(7.0));
    assert_eq!(evaluate("2 * (3 + 4) - 5 / (1 + 1)"), Ok(11.5));
}

#[test]
fn each_operator_computes_left_then_right() {
    assert_eq!(evaluate("7 + 2"), Ok(9.0));
    assert_eq!(evaluate("7 - 2"), Ok(5.0));
    assert_eq!(evaluate("7 * 2"), Ok(14.0));
    assert_eq!(evaluate("7 / 2"), Ok(3.5));
    assert_eq!(evaluate("2 - 7"), Ok(-5.0));
    assert_eq!(evaluate("2 / 8"), Ok(0.25));
}

#[test]
fn arithmetic_is_that_of_doubles() {
    assert_eq!(evaluate("0.1 + 0.2"), Ok(0.1 + 0.2));
    assert_ne!(evaluate("0.1 + 0.2"), Ok(0.3));
    assert_eq!(evaluate("1 / 3"), Ok(1.0 / 3.0));
}

#[test]
fn division_by_zero_is_an_error() {
    assert_eq!(evaluate("5 / 0"), Err(CalculatorError::DivisionByZero));
    assert_eq!(evaluate("5 / 0.0"), Err(CalculatorError::DivisionByZero));
    assert_eq!(evaluate("0 / 0"), Err(CalculatorError::DivisionByZero));
    assert_eq!(evaluate("1 + 4 / (2 - 2)"), Err(CalculatorError::DivisionByZero));
}

#[test]
fn division_by_negative_zero_is_an_error() {
    assert_eq!(evaluate("0 * (0 - 1)").map(f64::to_bits), Ok((-0.0f64).to_bits()));
    assert_eq!(evaluate("1 / (0 * (0 - 1))"), Err(CalculatorError::DivisionByZero));
}

#[test]
fn division_of_zero_is_no_error() {
    assert_eq!(evaluate("0 / 5"), Ok(0.0));
}

#[test]
fn an_invalid_character_is_named() {
    assert_eq!(evaluate("2 + a"), Err(parse_error("Invalid character: a")));
    assert_eq!(evaluate("2 ^ 3"), Err(parse_error("Invalid character: ^")));
    assert_eq!(evaluate("2 + é"), Err(parse_error("Invalid character: é")));
}

#[test]
fn a_tab_or_a_line_break_is_an_invalid_character() {
    assert_eq!(evaluate("2\t+ 3"), Err(parse_error("Invalid character: \t")));
    assert_eq!(evaluate("2 + 3\n"), Err(parse_error("Invalid character: \n")));
}

#[test]
fn a_malformed_number_is_a_parse_error() {
    assert_eq!(evaluate("1.2.3"), Err(parse_error("Invalid number: 1.2.3")));
    assert_eq!(evaluate("."), Err(parse_error("Invalid number: .")));
    assert_eq!(evaluate("1 + .."), Err(parse_error("Invalid number: ..")));
    assert_eq!(evaluate("(1..5)"), Err(parse_error("Invalid number: 1..5")));
}

#[test]
fn the_first_lexical_error_is_reported() {
    assert_eq!(evaluate("1.2.3 + a"), Err(parse_error("Invalid number: 1.2.3")));
    assert_eq!(evaluate("a + 1.2.3"), Err(parse_error("Invalid character: a")));
}

#[test]
fn a_lexical_error_comes_before_any_other() {
    assert_eq!(evaluate("5 / 0 + a"), Err(parse_error("Invalid character: a")));
    assert_eq!(evaluate("+ a"), Err(parse_error("Invalid character: a")));
}

#[test]
fn empty_input_is_an_empty_expression() {
    assert_eq!(evaluate(""), Err(invalid_expression("Empty expression")));
    assert_eq!(evaluate("   "), Err(invalid_expression("Empty expression")));
}

#[test]
fn parentheses_around_nothing_are_an_empty_expression() {
    assert_eq!(evaluate("()"), Err(invalid_expression("Empty expression")));
    assert_eq!(evaluate(")"), Err(invalid_expression("Empty expression")));
}

#[test]
fn an_operator_without_operands_is_invalid() {
    assert_eq!(evaluate("+"), Err(invalid_expression("Not enough operands")));
    assert_eq!(evaluate("2 +"), Err(invalid_expression("Not enough operands")));
    assert_eq!(evaluate("* 2"), Err(invalid_expression("Not enough operands")));
    assert_eq!(evaluate("2 + * 3"), Err(invalid_expression("Not enough operands")));
}

#[test]
fn a_parenthesis_left_open_is_invalid() {
    assert_eq!(evaluate("(1 + 2"), Err(invalid_expression("Expected operator")));
    assert_eq!(evaluate("("), Err(invalid_expression("Expected operator")));
    assert_eq!(evaluate("2 * (3"), Err(invalid_expression("Expected operator")));
}

#[test]
fn a_closing_parenthesis_without_an_opening_one_is_passed_over() {
    assert_eq!(evaluate("1 + 2)"), Ok(3.0));
    assert_eq!(evaluate("1 + 2) * 4"), Ok(12.0));
}

#[test]
fn of_several_operands_left_over_the_last_is_the_result() {
    assert_eq!(evaluate("1 2"), Ok(2.0));
    assert_eq!(evaluate("(1)(2)"), Ok(2.0));
}

#[test]
fn operators_may_follow_their_operands() {
    assert_eq!(evaluate("2 3 +"), Ok(5.0));
    assert_eq!(evaluate("8 2 /"), Ok(4.0));
}

#[test]
fn the_first_failing_reduction_is_reported() {
    assert_eq!(evaluate("1 / 0 +"), Err(CalculatorError::DivisionByZero));
    assert_eq!(evaluate("+ 1 / 0"), Err(CalculatorError::DivisionByZero));
    assert_eq!(evaluate("+ + 1 / 2"), Err(invalid_expression("Not enough operands")));
    assert_eq!(evaluate("(1 / 0"), Err(CalculatorError::DivisionByZero));
}

#[test]
fn spaces_are_tolerated() {
    assert_eq!(evaluate("2+3"), Ok(5.0));
    assert_eq!(evaluate(" 2 + 3 "), Ok(5.0));
    assert_eq!(evaluate("  ( 2+3 )*4  "), Ok(20.0));
}

#[test]
fn a_space_splits_a_number() {
    assert_eq!(evaluate("1 2 + 3"), Ok(5.0));
    assert_eq!(evaluate("12 + 3"), Ok(15.0));
}

#[test]
fn a_new_calculator_remembers_zero() {
    let calculator = Calculator::new();
    assert_eq!(calculator.get_result().to_bits(), 0.0f64.to_bits());
}

#[test]
fn a_success_is_remembered() {
    let mut calculator = Calculator::new();
    assert_eq!(run(&mut calculator, "2 + 3 * 4"), Ok(14.0));
    assert_eq!(float(calculator.get_result()), 14.0);
    assert_eq!(run(&mut calculator, "1 / 4"), Ok(0.25));
    assert_eq!(float(calculator.get_result()), 0.25);
}

#[test]
fn a_failure_leaves_the_remembered_result() {
    let mut calculator = Calculator::new();
    assert_eq!(run(&mut calculator, "5 / 0"), Err(CalculatorError::DivisionByZero));
    assert_eq!(float(calculator.get_result()), 0.0);
    assert_eq!(run(&mut calculator, "6 * 7"), Ok(42.0));
    assert_eq!(run(&mut calculator, "5 / 0"), Err(CalculatorError::DivisionByZero));
    assert_eq!(float(calculator.get_result()), 42.0);
    assert_eq!(run(&mut calculator, "2 + a"), Err(parse_error("Invalid character: a")));
    assert_eq!(float(calculator.get_result()), 42.0);
    assert_eq!(run(&mut calculator, ""), Err(invalid_expression("Empty expression")));
    assert_eq!(float(calculator.get_result()), 42.0);
    assert_eq!(run(&mut calculator, "+"), Err(invalid_expression("Not enough operands")));
    assert_eq!(float(calculator.get_result()), 42.0);
}

#[test]
fn an_unfinished_evaluation_changes_nothing() {
    let mut calculator = Calculator::new();
    assert_eq!(run(&mut calculator, "9"), Ok(9.0));
    let step = calculator.evaluate("1 + 2");
    assert!(matches!(step, Step::Convert(_, _)));
    assert_eq!(float(calculator.get_result()), 9.0);
}

#[test]
fn an_evaluation_asks_for_each_number_and_each_operation_in_turn() {
    let mut calculator = Calculator::new();
    let evaluation = match calculator.evaluate("2 + 3 * 4") {
        Step::Convert(text, evaluation) => {
            assert_eq!(text, "2");
            evaluation
        }
        other => panic!("{:?}", other),
    };
    let evaluation = match calculator.resume(evaluation, double(2.0)) {
        Step::Convert(text, evaluation) => {
            assert_eq!(text, "3");
            evaluation
        }
        other => panic!("{:?}", other),
    };
    let evaluation = match calculator.resume(evaluation, double(3.0)) {
        Step::Convert(text, evaluation) => {
            assert_eq!(text, "4");
            evaluation
        }
        other => panic!("{:?}", other),
    };
    let evaluation = match calculator.resume(evaluation, double(4.0)) {
        Step::Compute(operation, evaluation) => {
            assert_eq!(
                operation,
                Operation { operator: Operator::Multiply, left: double(3.0), right: double(4.0) }
            );
            evaluation
        }
        other => panic!("{:?}", other),
    };
    let evaluation = match calculator.resume(evaluation, double(12.0)) {
        Step::Compute(operation, evaluation) => {
            assert_eq!(
                operation,
                Operation { operator: Operator::Add, left: double(2.0), right: double(12.0) }
            );
            evaluation
        }
        other => panic!("{:?}", other),
    };
    assert_eq!(float(calculator.get_result()), 0.0);
    match calculator.resume(evaluation, double(14.0)) {
        Step::Finished(outcome) => assert_eq!(outcome, Ok(double(14.0))),
        other => panic!("{:?}", other),
    }
    assert_eq!(float(calculator.get_result()), 14.0);
}

#[test]
fn operators_that_bind_alike_are_computed_as_soon_as_the_next_is_read() {
    let tokens = Parser::parse("8 - 3 - 2").unwrap();
    let evaluation = match Evaluation::start(tokens) {
        Step::Convert(_, evaluation) => evaluation,
        other => panic!("{:?}", other),
    };
    let evaluation = match evaluation.resume(double(8.0)) {
        Step::Convert(_, evaluation) => evaluation,
        other => panic!("{:?}", other),
    };
    match evaluation.resume(double(3.0)) {
        Step::Compute(operation, _) => assert_eq!(
            operation,
            Operation { operator: Operator::Subtract, left: double(8.0), right: double(3.0) }
        ),
        other => panic!("{:?}", other),
    }
}

#[test]
fn the_value_supplied_is_the_value_used() {
    let tokens = Parser::parse("1 + 1").unwrap();
    let evaluation = match Evaluation::start(tokens) {
        Step::Convert(_, evaluation) => evaluation,
        other => panic!("{:?}", other),
    };
    let evaluation = match evaluation.resume(double(10.0)) {
        Step::Convert(_, evaluation) => evaluation,
        other => panic!("{:?}", other),
    };
    let evaluation = match evaluation.resume(double(20.0)) {
        Step::Compute(operation, evaluation) => {
            assert_eq!(float(operation.left), 10.0);
            assert_eq!(float(operation.right), 20.0);
            evaluation
        }
        other => panic!("{:?}", other),
    };
    match evaluation.resume(double(-1.5)) {
        Step::Finished(outcome) => assert_eq!(outcome.map(float), Ok(-1.5)),
        other => panic!("{:?}", other),
    }
}

#[test]
fn no_tokens_are_an_empty_expression() {
    match Evaluation::start(Vec::new()) {
        Step::Finished(outcome) => {
            assert_eq!(outcome, Err(invalid_expression("Empty expression")))
        }
        other => panic!("{:?}", other),
    }
}

#[test]
fn a_long_expression_comes_to_an_end() {
    let mut sum = String::from("1");
    for _ in 0..999 {
        sum.push_str(" + 1");
    }
    assert_eq!(evaluate(&sum), Ok(1000.0));
    let mut nested = String::new();
    for _ in 0..200 {
        nested.push('(');
    }
    nested.push_str("2 * 3");
    for _ in 0..200 {
        nested.push(')');
    }
    assert_eq!(evaluate(&nested), Ok(6.0));
}

#[test]
fn an_evaluation_ends_whatever_it_is_answered() {
    let tokens = Parser::parse("1 + 2 * (3 - 4) / 5 - 6").unwrap();
    let mut step = Evaluation::start(tokens);
    let mut steps = 0;
    loop {
        step = match step {
            Step::Convert(_, evaluation) => evaluation.resume(double(f64::NAN)),
            Step::Compute(_, evaluation) => evaluation.resume(double(f64::NAN)),
            Step::Finished(outcome) => {
                assert!(outcome.map(float).unwrap().is_nan());
                break;
            }
        };
        steps += 1;
    }
    assert_eq!(steps, 11);
}

#[test]
fn a_zero_that_is_supplied_stops_a_division() {
    let tokens = Parser::parse("1 / 2").unwrap();
    let evaluation = match Evaluation::start(tokens) {
        Step::Convert(_, evaluation) => evaluation,
        other => panic!("{:?}", other),
    };
    let evaluation = match evaluation.resume(double(1.0)) {
        Step::Convert(_, evaluation) => evaluation,
        other => panic!("{:?}", other),
    };
    match evaluation.resume(double(-0.0)) {
        Step::Finished(outcome) => assert_eq!(outcome, Err(CalculatorError::DivisionByZero)),
        other => panic!("{:?}", other),
    }
}

#[test]
fn an_evaluation_takes_at_most_one_answer_for_each_token() {
    for text in ["1", "1 + 2", "(1 + 2) * 3", "1 2 3", "((((", "1 + + +", ")))", "2 3 + 4 *", ""] {
        let tokens = Parser::parse(text).unwrap();
        let count = tokens.len();
        let mut step = Evaluation::start(tokens);
        let mut answers = 0;
        loop {
            step = match step {
                Step::Convert(text, evaluation) => evaluation.resume(convert(&text)),
                Step::Compute(operation, evaluation) => evaluation.resume(compute(&operation)),
                Step::Finished(_) => break,
            };
            answers += 1;
        }
        assert!(answers <= count);
    }
}
