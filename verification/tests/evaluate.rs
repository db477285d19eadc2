use calculator::{evaluate_math_expression, Action, CalcError, Evaluation, Instr, Operator};

fn compute(op: Operator, left: u64, right: u64) -> u64 {
    let a = f64::from_bits(left);
    let b = f64::from_bits(right);
    let r = match op {
        Operator::Add => a + b,
        Operator::Subtract => a - b,
        Operator::Multiply => a * b,
        Operator::Divide => a / b,
    };
    r.to_bits()
}

fn run(mut evaluation: Evaluation) -> Result<f64, CalcError> {
    loop {
        match evaluation.pending() {
            Action::Finished(Ok(bits)) => return Ok(f64::from_bits(bits)),
            Action::Finished(Err(e)) => return Err(e),
            Action::Convert(text) => {
                let value: f64 = text.parse().unwrap();
                evaluation = evaluation.resume(value.to_bits());
            }
            Action::Compute(op, left, right) => {
                evaluation = evaluation.resume(compute(op, left, right));
            }
        }
    }
}

fn value(expression: &str) -> f64 {
    run(evaluate_math_expression(expression)).unwrap()
}

fn failure(expression: &str) -> CalcError {
    run(evaluate_math_expression(expression)).unwrap_err()
}

#[test]
fn test_simple_addition() {
    assert_eq!(run(evaluate_math_expression("2+3")).unwrap(), 5.0);
}

#[test]
fn test_multiplication() {
    assert_eq!(run(evaluate_math_expression("3*4")).unwrap(), 12.0);
}

#[test]
fn test_division() {
    assert_eq!(run(evaluate_math_expression("10/2")).unwrap(), 5.0);
}

#[test]
fn test_complex_expression() {
    assert_eq!(run(evaluate_math_expression("(3+2)*(8/4)")).unwrap(), 10.0);
}

#[test]
fn test_division_by_zero() {
    assert!(run(evaluate_math_expression("5/0")).is_err());
}

#[test]
fn two_operands_give_the_floating_point_result() {
    assert_eq!(value("7-10"), 7.0 - 10.0);
    assert_eq!(value("0.1+0.2"), 0.1 + 0.2);
    assert_eq!(value("0.1+0.2").to_bits(), 0.30000000000000004f64.to_bits());
    assert_eq!(value("1.5*2.25"), 3.375);
    assert_eq!(value("1/3"), 1.0 / 3.0);
    assert_eq!(value("5./.5"), 10.0);
}

#[test]
fn operators_of_one_level_associate_to_the_left() {
    assert_eq!(value("2-3-4"), -5.0);
    assert_eq!(value("8/4/2"), 1.0);
    assert_eq!(value("0.1+0.2+0.3"), (0.1 + 0.2) + 0.3);
    assert_ne!(value("0.1+0.2+0.3"), 0.1 + (0.2 + 0.3));
}

#[test]
fn multiplication_binds_tighter_than_addition() {
    assert_eq!(value("2+3*4"), 14.0);
    assert_eq!(value("2*3+4"), 10.0);
    assert_eq!(value("(2+3)*4"), 20.0);
    assert_eq!(value("10-8/4"), 8.0);
}

#[test]
fn unary_minus_nests() {
    assert_eq!(value("--5"), 5.0);
    assert_eq!(value("-(-5)"), 5.0);
    assert_eq!(value("-5"), -5.0);
    assert_eq!(value("---5"), -5.0);
    assert_eq!(value("2*-3"), -6.0);
    assert_eq!(value("2--3"), 5.0);
    assert_eq!(value("-2*3"), -6.0);
    assert_eq!(value("-(2+3)*2"), -10.0);
}

#[test]
fn negating_zero_gives_negative_zero() {
    assert_eq!(value("-0").to_bits(), (-0.0f64).to_bits());
    assert_eq!(value("--0").to_bits(), 0.0f64.to_bits());
}

#[test]
fn noise_does_not_change_the_result() {
    assert_eq!(value("2 + 3"), 5.0);
    assert_eq!(value("2+3"), 5.0);
    assert_eq!(value("2x+y3"), 5.0);
    assert_eq!(value("  (3 + 2)\t* (8 / 4)\n"), 10.0);
    assert_eq!(value("2\u{1F600}+\u{e9}3"), 5.0);
}

#[test]
fn digits_around_noise_form_one_number() {
    assert_eq!(value("2 3"), 23.0);
    assert_eq!(value("1 . 5"), 1.5);
}

#[test]
fn empty_expression_is_reported() {
    assert_eq!(failure(""), CalcError::EmptyExpression);
    assert_eq!(failure("   "), CalcError::EmptyExpression);
    assert_eq!(failure("abc"), CalcError::EmptyExpression);
}

#[test]
fn invalid_number_format_is_reported() {
    assert_eq!(failure("1.2.3"), CalcError::InvalidNumberFormat);
    assert_eq!(failure("."), CalcError::InvalidNumberFormat);
    assert_eq!(failure("1..2"), CalcError::InvalidNumberFormat);
    assert_eq!(failure("2+.."), CalcError::InvalidNumberFormat);
}

#[test]
fn invalid_number_comes_before_every_other_error() {
    assert_eq!(failure("5/0+1.2.3"), CalcError::InvalidNumberFormat);
    assert_eq!(failure(")+1..2"), CalcError::InvalidNumberFormat);
}

#[test]
fn division_by_zero_is_reported() {
    assert_eq!(failure("5/0"), CalcError::DivisionByZero);
    assert_eq!(failure("5/0.0"), CalcError::DivisionByZero);
    assert_eq!(failure("5/(2-2)"), CalcError::DivisionByZero);
    assert_eq!(failure("5/((((0))))"), CalcError::DivisionByZero);
    assert_eq!(failure("5/-0"), CalcError::DivisionByZero);
    assert_eq!(failure("0/0"), CalcError::DivisionByZero);
    assert_eq!(failure("1+2*(3/(4-4))-1"), CalcError::DivisionByZero);
}

#[test]
fn division_by_a_small_number_is_no_error() {
    assert_eq!(value("1/0.5"), 2.0);
    assert!(value("1/(0.1+0.2-0.3)").is_finite());
    assert_eq!(value("0/5"), 0.0);
}

#[test]
fn the_first_error_met_is_the_one_reported() {
    assert_eq!(failure("1/0+"), CalcError::DivisionByZero);
    assert_eq!(failure("(1/0"), CalcError::DivisionByZero);
    assert_eq!(failure("1/0)"), CalcError::DivisionByZero);
    assert_eq!(failure("1/(0"), CalcError::MissingClosingParenthesis);
    assert_eq!(failure("(+1)/0"), CalcError::UnexpectedToken);
    assert_eq!(failure("1/0*"), CalcError::DivisionByZero);
}

#[test]
fn missing_closing_parenthesis_is_reported() {
    assert_eq!(failure("(2+3"), CalcError::MissingClosingParenthesis);
    assert_eq!(failure("((2+3)"), CalcError::MissingClosingParenthesis);
    assert_eq!(failure("(2+3(4)"), CalcError::MissingClosingParenthesis);
}

#[test]
fn unexpected_token_is_reported() {
    assert_eq!(failure(")2+3("), CalcError::UnexpectedToken);
    assert_eq!(failure("*2"), CalcError::UnexpectedToken);
    assert_eq!(failure("2++3"), CalcError::UnexpectedToken);
    assert_eq!(failure("+2"), CalcError::UnexpectedToken);
    assert_eq!(failure("()"), CalcError::UnexpectedToken);
    assert_eq!(failure("2*/3"), CalcError::UnexpectedToken);
}

#[test]
fn unexpected_end_is_reported() {
    assert_eq!(failure("2+"), CalcError::UnexpectedEndOfExpression);
    assert_eq!(failure("-"), CalcError::UnexpectedEndOfExpression);
    assert_eq!(failure("("), CalcError::UnexpectedEndOfExpression);
    assert_eq!(failure("2*(3-"), CalcError::UnexpectedEndOfExpression);
}

#[test]
fn trailing_tokens_are_reported() {
    assert_eq!(failure("2+3)"), CalcError::TrailingTokens);
    assert_eq!(failure("2(3)"), CalcError::TrailingTokens);
    assert_eq!(failure("(2)3"), CalcError::TrailingTokens);
}

#[test]
fn the_same_text_gives_the_same_bits() {
    for text in ["0.1+0.2", "1/3*3", "-(2.5*4)/7", "5/0", "(2+3"] {
        let first = run(evaluate_math_expression(text));
        let second = run(evaluate_math_expression(text));
        assert_eq!(first.map(f64::to_bits), second.map(f64::to_bits));
    }
}

#[test]
fn large_and_small_literals_have_values() {
    assert_eq!(value("123456789012345678901234567890"), 123456789012345678901234567890.0);
    assert_eq!(value("0.000001"), 0.000001);
    assert_eq!(value("007"), 7.0);
}

#[test]
fn the_requests_come_in_the_order_of_evaluation() {
    let evaluation = evaluate_math_expression("2+3");
    assert_eq!(evaluation.pending(), Action::Convert("2".to_string()));
    let evaluation = evaluation.resume(2.0f64.to_bits());
    assert_eq!(evaluation.pending(), Action::Convert("3".to_string()));
    let evaluation = evaluation.resume(3.0f64.to_bits());
    assert_eq!(
        evaluation.pending(),
        Action::Compute(Operator::Add, 2.0f64.to_bits(), 3.0f64.to_bits())
    );
    let evaluation = evaluation.resume(5.0f64.to_bits());
    assert_eq!(evaluation.pending(), Action::Finished(Ok(5.0f64.to_bits())));
}

#[test]
fn a_finished_evaluation_stays_finished() {
    let evaluation = evaluate_math_expression("7");
    let evaluation = evaluation.resume(7.0f64.to_bits());
    assert_eq!(evaluation.pending(), Action::Finished(Ok(7.0f64.to_bits())));
    let evaluation = evaluation.resume(1.0f64.to_bits());
    assert_eq!(evaluation.pending(), Action::Finished(Ok(7.0f64.to_bits())));
    let failed = evaluate_math_expression("").resume(1.0f64.to_bits());
    assert_eq!(failed.pending(), Action::Finished(Err(CalcError::EmptyExpression)));
}

#[test]
fn a_zero_divisor_ends_the_evaluation_before_the_division() {
    let evaluation = evaluate_math_expression("5/0*2");
    let evaluation = evaluation.resume(5.0f64.to_bits());
    let evaluation = evaluation.resume(0.0f64.to_bits());
    assert_eq!(evaluation.pending(), Action::Finished(Err(CalcError::DivisionByZero)));
    let evaluation = evaluation.resume(9.0f64.to_bits());
    assert_eq!(evaluation.pending(), Action::Finished(Err(CalcError::DivisionByZero)));
}

#[test]
fn negations_run_without_a_request() {
    let evaluation = evaluate_math_expression("--5+1");
    assert_eq!(evaluation.pending(), Action::Convert("5".to_string()));
    let evaluation = evaluation.resume(5.0f64.to_bits());
    assert_eq!(evaluation.pending(), Action::Convert("1".to_string()));
    let evaluation = evaluate_math_expression("-5");
    let evaluation = evaluation.resume(5.0f64.to_bits());
    assert_eq!(evaluation.pending(), Action::Finished(Ok((-5.0f64).to_bits())));
}

#[test]
fn the_plan_of_an_expression_is_its_postfix_form() {
    let evaluation = evaluate_math_expression("(1+2)*-3");
    assert_eq!(
        evaluation.steps(),
        &vec![
            Instr::Push("1".to_string()),
            Instr::Push("2".to_string()),
            Instr::Apply(Operator::Add),
            Instr::Push("3".to_string()),
            Instr::Negate,
            Instr::Apply(Operator::Multiply),
        ]
    );
    assert_eq!(evaluation.ending(), None);
}

#[test]
fn the_plan_of_a_refused_text_is_empty() {
    let evaluation = evaluate_math_expression("");
    assert!(evaluation.steps().is_empty());
    assert_eq!(evaluation.ending(), Some(CalcError::EmptyExpression));
    let evaluation = evaluate_math_expression("1+2..3");
    assert!(evaluation.steps().is_empty());
    assert_eq!(evaluation.ending(), Some(CalcError::InvalidNumberFormat));
}

#[test]
fn the_plan_keeps_what_was_read_before_an_error() {
    let evaluation = evaluate_math_expression("4/2)");
    assert_eq!(
        evaluation.steps(),
        &vec![
            Instr::Push("4".to_string()),
            Instr::Push("2".to_string()),
            Instr::Apply(Operator::Divide),
        ]
    );
    assert_eq!(evaluation.ending(), Some(CalcError::TrailingTokens));
    assert_eq!(failure("4/2)"), CalcError::TrailingTokens);
}

#[test]
fn texts_with_the_same_arithmetic_characters_have_the_same_plan() {
    let plain = evaluate_math_expression("(3+2)*(8/4)");
    let noisy = evaluate_math_expression(" ( 3 + 2 ) * (8 / 4) = ?");
    assert_eq!(plain.steps(), noisy.steps());
    assert_eq!(plain.ending(), noisy.ending());
}

#[test]
fn parentheses_do_not_change_a_value() {
    assert_eq!(value("((2))"), 2.0);
    assert_eq!(value("(2+3)"), value("2+3"));
    assert_eq!(value("2+(3*4)"), value("2+3*4"));
    assert_eq!(
        evaluate_math_expression("2+(3*4)").steps(),
        evaluate_math_expression("2+3*4").steps()
    );
}

#[test]
fn division_by_zero_comes_from_any_depth() {
    assert_eq!(failure("1+(2*(3-(4/(5-5))))"), CalcError::DivisionByZero);
    assert_eq!(failure("(1/0)/0"), CalcError::DivisionByZero);
    assert_eq!(failure("-(1/(0))"), CalcError::DivisionByZero);
    assert_eq!(failure("1/(0*5)"), CalcError::DivisionByZero);
    assert_eq!(failure("1/0.000"), CalcError::DivisionByZero);
}

#[test]
fn overflow_and_invalid_operations_are_values() {
    let huge = "9".repeat(400);
    assert_eq!(value(&huge), f64::INFINITY);
    assert!(value(&format!("{}-{}", huge, huge)).is_nan());
    assert_eq!(value(&format!("1/{}", huge)), 0.0);
    assert_eq!(failure(&format!("1/(1/{})", huge)), CalcError::DivisionByZero);
    let tiny = format!("0.{}1", "0".repeat(400));
    assert_eq!(failure(&format!("1/{}", tiny)), CalcError::DivisionByZero);
}
