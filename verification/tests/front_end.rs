use calculator::binary64::{is_zero_value, negate};
use calculator::parser::{parse_expression, parse_factor, parse_term};
use calculator::tokenizer::is_literal;
use calculator::{sanitize, tokenize, CalcError, CalculatorResult, Instr, Operator, Token};

fn number(text: &str) -> Token {
    Token::Number(text.to_string())
}

fn push(text: &str) -> Instr {
    Instr::Push(text.to_string())
}

#[test]
fn sanitize_keeps_the_arithmetic_characters() {
    assert_eq!(sanitize("2+3"), "2+3");
    assert_eq!(sanitize("2 + 3"), "2+3");
    assert_eq!(sanitize("2x+y3"), "2+3");
    assert_eq!(sanitize("0123456789.+-*/()"), "0123456789.+-*/()");
    assert_eq!(sanitize("a1b.c2d(e)f*g/h-i+j"), "1.2()*/-+");
}

#[test]
fn sanitize_drops_everything_else() {
    assert_eq!(sanitize(""), "");
    assert_eq!(sanitize("hello world"), "");
    assert_eq!(sanitize("1e5"), "15");
    assert_eq!(sanitize("2^3%4,5"), "2345");
    assert_eq!(sanitize("\u{663}+\u{ff11}"), "+");
    assert_eq!(sanitize("2\u{1F600}\u{00d7}3"), "23");
}

#[test]
fn sanitize_twice_is_sanitize_once() {
    for text in ["2 + 3", "(a+b)*c", "", "1.5e3 / x", "\u{1F600}7"] {
        let once = sanitize(text);
        assert_eq!(sanitize(&once), once);
    }
}

#[test]
fn literals_are_digits_with_at_most_one_point() {
    assert!(is_literal("0"));
    assert!(is_literal("42"));
    assert!(is_literal("3.14"));
    assert!(is_literal("5."));
    assert!(is_literal(".5"));
    assert!(is_literal("000.000"));
    assert!(!is_literal(""));
    assert!(!is_literal("."));
    assert!(!is_literal(".."));
    assert!(!is_literal("1.2.3"));
    assert!(!is_literal("1..2"));
    assert!(!is_literal("-1"));
    assert!(!is_literal("1e5"));
    assert!(!is_literal("1 "));
    assert!(!is_literal("\u{663}"));
}

#[test]
fn literals_are_what_the_standard_parser_takes() {
    for text in ["0", "42", "3.14", "5.", ".5", ".", "..", "1.2.3", "1..2", "", "12.", ".0."] {
        assert_eq!(is_literal(text), text.parse::<f64>().is_ok(), "{}", text);
    }
}

#[test]
fn tokenize_cuts_numbers_and_symbols() {
    assert_eq!(
        tokenize("(3+2)*(8/4)").unwrap(),
        vec![
            Token::LeftParen,
            number("3"),
            Token::Plus,
            number("2"),
            Token::RightParen,
            Token::Multiply,
            Token::LeftParen,
            number("8"),
            Token::Divide,
            number("4"),
            Token::RightParen,
        ]
    );
    assert_eq!(tokenize("12.5-.5").unwrap(), vec![number("12.5"), Token::Minus, number(".5")]);
    assert_eq!(tokenize("").unwrap(), Vec::<Token>::new());
    assert_eq!(tokenize("7").unwrap(), vec![number("7")]);
}

#[test]
fn tokenize_accepts_any_order_of_symbols() {
    assert_eq!(tokenize("++").unwrap(), vec![Token::Plus, Token::Plus]);
    assert_eq!(tokenize("*2").unwrap(), vec![Token::Multiply, number("2")]);
    assert_eq!(tokenize(")(").unwrap(), vec![Token::RightParen, Token::LeftParen]);
}

#[test]
fn tokenize_passes_over_other_characters() {
    assert_eq!(tokenize("1a2").unwrap(), vec![number("12")]);
    assert_eq!(tokenize("2 + 3").unwrap(), vec![number("2"), Token::Plus, number("3")]);
    assert_eq!(tokenize("x").unwrap(), Vec::<Token>::new());
}

#[test]
fn tokenize_refuses_bad_literals() {
    assert_eq!(tokenize("1.2.3"), Err(CalcError::InvalidNumberFormat));
    assert_eq!(tokenize("."), Err(CalcError::InvalidNumberFormat));
    assert_eq!(tokenize("1+..+2"), Err(CalcError::InvalidNumberFormat));
    assert_eq!(tokenize("(1.)+(.)"), Err(CalcError::InvalidNumberFormat));
}

#[test]
fn parse_factor_reads_one_operand() {
    let tokens = tokenize("-(2+3)*4").unwrap();
    let mut steps = Vec::new();
    assert_eq!(parse_factor(&tokens, 0, &mut steps), Ok(6));
    assert_eq!(
        steps,
        vec![push("2"), push("3"), Instr::Apply(Operator::Add), Instr::Negate]
    );
}

#[test]
fn parse_term_stops_before_an_additive_operator() {
    let tokens = tokenize("2*3/4+5").unwrap();
    let mut steps = Vec::new();
    assert_eq!(parse_term(&tokens, 0, &mut steps), Ok(5));
    assert_eq!(
        steps,
        vec![
            push("2"),
            push("3"),
            Instr::Apply(Operator::Multiply),
            push("4"),
            Instr::Apply(Operator::Divide),
        ]
    );
}

#[test]
fn parse_expression_writes_operands_before_operators() {
    let tokens = tokenize("1+2*3-4").unwrap();
    let mut steps = vec![Instr::Negate];
    assert_eq!(parse_expression(&tokens, 0, &mut steps), Ok(7));
    assert_eq!(
        steps,
        vec![
            Instr::Negate,
            push("1"),
            push("2"),
            push("3"),
            Instr::Apply(Operator::Multiply),
            Instr::Apply(Operator::Add),
            push("4"),
            Instr::Apply(Operator::Subtract),
        ]
    );
}

#[test]
fn parse_expression_stops_at_what_it_cannot_read() {
    let tokens = tokenize("2+3)").unwrap();
    let mut steps = Vec::new();
    assert_eq!(parse_expression(&tokens, 0, &mut steps), Ok(3));
    let tokens = tokenize("2 3").unwrap();
    let mut steps = Vec::new();
    assert_eq!(parse_expression(&tokens, 0, &mut steps), Ok(1));
    assert_eq!(steps, vec![push("23")]);
}

#[test]
fn parsing_keeps_what_was_written_before_an_error() {
    let tokens = tokenize("1/0+").unwrap();
    let mut steps = Vec::new();
    assert_eq!(
        parse_expression(&tokens, 0, &mut steps),
        Err(CalcError::UnexpectedEndOfExpression)
    );
    assert_eq!(steps, vec![push("1"), push("0"), Instr::Apply(Operator::Divide)]);
    let tokens = tokenize("(1").unwrap();
    let mut steps = Vec::new();
    assert_eq!(
        parse_factor(&tokens, 0, &mut steps),
        Err(CalcError::MissingClosingParenthesis)
    );
    assert_eq!(steps, vec![push("1")]);
}

#[test]
fn parsing_from_the_end_finds_nothing() {
    let tokens = tokenize("1").unwrap();
    let mut steps = Vec::new();
    assert_eq!(parse_factor(&tokens, 1, &mut steps), Err(CalcError::UnexpectedEndOfExpression));
    assert_eq!(parse_factor(&tokens, 9, &mut steps), Err(CalcError::UnexpectedEndOfExpression));
    assert!(steps.is_empty());
}

#[test]
fn zero_has_two_bit_patterns() {
    assert!(is_zero_value(0.0f64.to_bits()));
    assert!(is_zero_value((-0.0f64).to_bits()));
    assert!(!is_zero_value(1.0f64.to_bits()));
    assert!(!is_zero_value(f64::MIN_POSITIVE.to_bits()));
    assert!(!is_zero_value(5e-324f64.to_bits()));
    assert!(!is_zero_value(f64::NAN.to_bits()));
    for x in [0.0f64, -0.0, 1.0, -3.5, 5e-324, f64::INFINITY, f64::NAN, 1e300] {
        assert_eq!(is_zero_value(x.to_bits()), x == 0.0);
    }
}

#[test]
fn negate_reverses_the_sign() {
    for x in [0.0f64, -0.0, 1.0, -3.5, 5e-324, f64::INFINITY, f64::NEG_INFINITY, 1e300, f64::NAN] {
        assert_eq!(negate(x.to_bits()), (-x).to_bits());
        assert_eq!(negate(negate(x.to_bits())), x.to_bits());
    }
    assert_eq!(negate(0), 0x8000_0000_0000_0000);
    assert_eq!(negate(u64::MAX), 0x7fff_ffff_ffff_ffff);
}

#[test]
fn messages_are_those_of_the_errors() {
    assert_eq!(CalcError::EmptyExpression.message(), "Empty expression");
    assert_eq!(CalcError::InvalidNumberFormat.message(), "Invalid number format");
    assert_eq!(CalcError::DivisionByZero.message(), "Division by zero");
    assert_eq!(CalcError::MissingClosingParenthesis.message(), "Missing closing parenthesis");
    assert_eq!(CalcError::UnexpectedToken.message(), "Unexpected token");
    assert_eq!(CalcError::UnexpectedEndOfExpression.message(), "Unexpected end of expression");
    assert_eq!(CalcError::TrailingTokens.message(), "Unexpected tokens at end of expression");
}

#[test]
fn a_report_holds_the_value_or_the_message() {
    let done = CalculatorResult::from_outcome(Ok(5.0f64.to_bits()));
    assert_eq!(f64::from_bits(done.result), 5.0);
    assert_eq!(done.error, None);
    let failed = CalculatorResult::from_outcome(Err(CalcError::DivisionByZero));
    assert_eq!(f64::from_bits(failed.result), 0.0);
    assert_eq!(failed.result, 0);
    assert_eq!(failed.error, Some("Division by zero".to_string()));
}

fn written(tokens: &[Token]) -> String {
    let mut text = String::new();
    for token in tokens {
        match token {
            Token::Number(literal) => text.push_str(literal),
            Token::Plus => text.push('+'),
            Token::Minus => text.push('-'),
            Token::Multiply => text.push('*'),
            Token::Divide => text.push('/'),
            Token::LeftParen => text.push('('),
            Token::RightParen => text.push(')'),
        }
    }
    text
}

#[test]
fn tokens_written_out_are_the_cleaned_text() {
    for text in ["(3+2)*(8/4)", " 1 2 + x3.5 ", "--5", ")2+3(", "", "7*", "1.5.+2"] {
        if let Ok(tokens) = tokenize(text) {
            assert_eq!(written(&tokens), sanitize(text));
        }
    }
}

#[test]
fn tokens_written_out_are_cut_into_themselves() {
    for text in ["(3+2)*(8/4)", "1.5--.5", ")(", "2*(3+4)-5/6"] {
        let tokens = tokenize(text).unwrap();
        assert_eq!(tokenize(&written(&tokens)).unwrap(), tokens);
    }
}

#[test]
fn a_text_and_its_cleaned_form_have_the_same_tokens() {
    for text in ["2 + 3", "a1b2c+d3", "1 . 5 * ( 2 )", "x", "1.2.3", "1 . . 2"] {
        assert_eq!(tokenize(text), tokenize(&sanitize(text)));
    }
}

#[test]
fn no_number_follows_a_number() {
    for text in ["12 34", "1a2b3", "((1)2)", "1.5 2.5"] {
        if let Ok(tokens) = tokenize(text) {
            for pair in tokens.windows(2) {
                assert!(!(matches!(pair[0], Token::Number(_)) && matches!(pair[1], Token::Number(_))));
            }
        }
    }
}
