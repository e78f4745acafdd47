use fin::calculator::number::Number;
use fin::calculator::token::operand::Operand;
use fin::calculator::token::operator::Operator;
use fin::calculator::token::Token;
use fin::calculator::{CalculatorPlugin, ComputationError};

/// Double-precision numbers as a numeric domain.
#[derive(Debug, Clone, Copy, PartialEq)]
struct Real(f64);

impl Number for Real {
    fn parse(text: &str) -> Option<Real> {
        text.parse::<f64>().ok().map(Real)
    }

    fn apply(op: Operator, a: Real, b: Real) -> Option<Real> {
        match op {
            Operator::Addition => Some(Real(a.0 + b.0)),
            Operator::Subtraction => Some(Real(a.0 - b.0)),
            Operator::Multiplication => Some(Real(a.0 * b.0)),
            Operator::Division => Some(Real(a.0 / b.0)),
            Operator::Exponent => Some(Real(a.0.powf(b.0))),
            _ => None,
        }
    }

    fn render(&self) -> String {
        format!("{}", self.0)
    }
}

fn value(input: &str) -> Result<f64, ComputationError> {
    CalculatorPlugin::<Real>::calculate(input).map(|real| real.0)
}

#[test]
fn precedence_orders_the_operators() {
    assert_eq!(Operator::Addition.precedence(), 1);
    assert_eq!(Operator::Subtraction.precedence(), 1);
    assert_eq!(Operator::Multiplication.precedence(), 2);
    assert_eq!(Operator::Division.precedence(), 2);
    assert_eq!(Operator::Exponent.precedence(), 3);
    assert_eq!(Operator::OpenParanthesis.precedence(), 0);
    assert_eq!(Operator::Unknown.precedence(), 0);
}

#[test]
fn multiplication_binds_tighter_than_addition() {
    assert_eq!(value("3+4*2"), Ok(11.0));
}

#[test]
fn brackets_group() {
    assert_eq!(value("(1+2)**2"), Ok(9.0));
}

#[test]
fn exponent_groups_to_the_right() {
    assert_eq!(value("2**3**2"), Ok(512.0));
}

#[test]
fn unbalanced_brackets_are_a_typed_error() {
    assert_eq!(value("(1+2"), Err(ComputationError::Unbalanced));
    assert_eq!(value("1+2)"), Err(ComputationError::Unbalanced));
    assert_eq!(value("(1+2}"), Err(ComputationError::Unbalanced));
    assert_eq!(value("{1+(2}*3)"), Err(ComputationError::Unbalanced));
}

#[test]
fn tokenize_reads_numbers_operators_and_brackets() {
    let tokens = Token::<Real>::tokenize("12.5 + (3*x)").unwrap();
    assert_eq!(tokens.len(), 6);
    assert!(matches!(tokens[0], Token::Operand(Operand::Number(Real(n))) if n == 12.5));
    assert!(matches!(tokens[1], Token::Operator(Operator::Addition)));
    assert!(matches!(tokens[2], Token::Operator(Operator::OpenParanthesis)));
    assert!(matches!(tokens[3], Token::Operand(Operand::Number(Real(n))) if n == 3.0));
    assert!(matches!(tokens[4], Token::Operator(Operator::Multiplication)));
    assert!(matches!(tokens[5], Token::Operator(Operator::CloseParanthesis)));
}

fn whole(input: &str) -> Result<i64, ComputationError> {
    CalculatorPlugin::<i64>::calculate(input)
}

#[test]
fn whole_numbers_follow_the_same_grammar() {
    assert_eq!(whole("3+4*2"), Ok(11));
    assert_eq!(whole("(1+2)**2"), Ok(9));
    assert_eq!(whole("2**3**2"), Ok(512));
    assert_eq!(whole("{2+3}*(4+1)"), Ok(25));
    assert_eq!(whole("7/2"), Ok(3));
    assert_eq!(whole("10 - 4 - 3"), Ok(3));
}

#[test]
fn whole_number_arithmetic_is_exact_or_undefined() {
    assert_eq!(whole("9223372036854775807+1"), Err(ComputationError::Arithmetic));
    assert_eq!(whole("1/0"), Err(ComputationError::Arithmetic));
    assert_eq!(whole("2**64"), Err(ComputationError::Arithmetic));
    assert_eq!(whole("2**62"), Ok(4611686018427387904));
    assert_eq!(whole("(0-2)**63"), Ok(i64::MIN));
    assert_eq!(whole("0-2**2"), Ok(-4));
    assert_eq!(whole("(0-1)**9223372036854775807"), Ok(-1));
    assert_eq!(whole("1**9223372036854775807"), Ok(1));
    assert_eq!(whole("0**0"), Ok(1));
    assert_eq!(whole("2**(0-1)"), Err(ComputationError::Arithmetic));
}

#[test]
fn whole_numbers_read_and_show_decimal_digits() {
    assert_eq!(<i64 as Number>::parse("0"), Some(0));
    assert_eq!(<i64 as Number>::parse("-17"), Some(-17));
    assert_eq!(<i64 as Number>::parse("9223372036854775807"), Some(i64::MAX));
    assert_eq!(<i64 as Number>::parse("-9223372036854775808"), Some(i64::MIN));
    assert_eq!(<i64 as Number>::parse("9223372036854775808"), None);
    assert_eq!(<i64 as Number>::parse("-9223372036854775809"), None);
    assert_eq!(<i64 as Number>::parse("99999999999999999999999999"), None);
    assert_eq!(<i64 as Number>::parse(""), None);
    assert_eq!(<i64 as Number>::parse("-"), None);
    assert_eq!(<i64 as Number>::parse("1.5"), None);
    assert_eq!(<i64 as Number>::parse("12a"), None);
    assert_eq!(<i64 as Number>::parse("+3"), None);
    assert_eq!(Number::render(&0i64), "0");
    assert_eq!(Number::render(&-17i64), "-17");
    assert_eq!(Number::render(&1234567890i64), "1234567890");
    assert_eq!(Number::render(&i64::MAX), "9223372036854775807");
    assert_eq!(Number::render(&i64::MIN), "-9223372036854775808");
}

#[test]
fn a_minus_between_operands_subtracts() {
    let tokens = Token::<i64>::tokenize("3-5").unwrap();
    assert_eq!(tokens.len(), 3);
    assert!(matches!(tokens[0], Token::Operand(Operand::Number(3))));
    assert!(matches!(tokens[1], Token::Operator(Operator::Subtraction)));
    assert!(matches!(tokens[2], Token::Operand(Operand::Number(5))));
    assert_eq!(whole("3-2"), Ok(1));
    assert_eq!(whole("3-5"), Ok(-2));
    assert_eq!(whole("3 - 5"), Ok(-2));
    assert_eq!(whole("(1+2)-4"), Ok(-1));
    assert_eq!(whole("10-4-3"), Ok(3));
    assert_eq!(value("3-2"), Ok(1.0));
    assert_eq!(value("1.5-0.25"), Ok(1.25));
}

#[test]
fn a_minus_where_an_operand_begins_is_a_sign() {
    let tokens = Token::<i64>::tokenize("-3*(-5)").unwrap();
    assert_eq!(tokens.len(), 5);
    assert!(matches!(tokens[0], Token::Operand(Operand::Number(-3))));
    assert!(matches!(tokens[1], Token::Operator(Operator::Multiplication)));
    assert!(matches!(tokens[2], Token::Operator(Operator::OpenParanthesis)));
    assert!(matches!(tokens[3], Token::Operand(Operand::Number(-5))));
    assert!(matches!(tokens[4], Token::Operator(Operator::CloseParanthesis)));
    assert_eq!(whole("-5"), Ok(-5));
    assert_eq!(whole("-3*(-5)"), Ok(15));
    assert_eq!(whole("2*-3"), Ok(-6));
    assert_eq!(whole("3--2"), Ok(5));
    assert_eq!(whole("3 - -2"), Ok(5));
    assert_eq!(whole("{-2}**3"), Ok(-8));
    assert_eq!(whole("(-2)**63"), Ok(i64::MIN));
    assert_eq!(whole("-9223372036854775808"), Ok(i64::MIN));
    assert_eq!(whole("2**-1"), Err(ComputationError::Arithmetic));
    assert_eq!(whole("--2"), Err(ComputationError::Incomplete));
    assert_eq!(whole("2-"), Err(ComputationError::Incomplete));
    assert_eq!(whole("-"), Err(ComputationError::Incomplete));
    assert_eq!(value("-1.5*2"), Ok(-3.0));
}

#[test]
fn signs_are_joined_to_their_numbers() {
    let texts: Vec<String> =
        ["-", "1", "-", "2", "*", "-", "3", ")", "-", "4", "-", "-", "x"].iter().map(|t| t.to_string()).collect();
    let joined = Token::<i64>::sign_numbers(&texts);
    assert_eq!(joined, vec!["-1", "-", "2", "*", "-3", ")", "-", "4", "-", "-", "x"]);
    assert!(Token::<i64>::sign_numbers(&Vec::new()).is_empty());
    assert!(Token::<i64>::may_open_operand("+"));
    assert!(Token::<i64>::may_open_operand("**"));
    assert!(Token::<i64>::may_open_operand("("));
    assert!(Token::<i64>::may_open_operand("{"));
    assert!(!Token::<i64>::may_open_operand(")"));
    assert!(!Token::<i64>::may_open_operand("}"));
    assert!(!Token::<i64>::may_open_operand("7"));
    assert!(!Token::<i64>::may_open_operand("?"));
}

#[test]
fn text_that_is_no_token_is_skipped_or_unknown() {
    let tokens = Token::<i64>::tokenize("abc 1 | 2 xyz").unwrap();
    assert_eq!(tokens.len(), 3);
    assert!(matches!(tokens[0], Token::Operand(Operand::Number(1))));
    assert!(matches!(tokens[1], Token::Unknown));
    assert!(matches!(tokens[2], Token::Operand(Operand::Number(2))));
    assert!(Token::<i64>::tokenize("").unwrap().is_empty());
    assert_eq!(whole(""), Err(ComputationError::Incomplete));
    assert_eq!(whole("hello"), Err(ComputationError::Incomplete));
}

#[test]
fn classify_reads_each_text() {
    let texts = vec!["**".to_string(), "{".to_string(), "42".to_string(), "?".to_string()];
    let tokens = Token::<i64>::classify(&texts);
    assert_eq!(tokens.len(), 4);
    assert!(matches!(tokens[0], Token::Operator(Operator::Exponent)));
    assert!(matches!(tokens[1], Token::Operator(Operator::OpenBrace)));
    assert!(matches!(tokens[2], Token::Operand(Operand::Number(42))));
    assert!(matches!(tokens[3], Token::Unknown));
}

#[test]
fn operators_are_read_from_their_symbols() {
    assert_eq!(Operator::from("+"), Operator::Addition);
    assert_eq!(Operator::from("-"), Operator::Subtraction);
    assert_eq!(Operator::from("*"), Operator::Multiplication);
    assert_eq!(Operator::from("/"), Operator::Division);
    assert_eq!(Operator::from("**"), Operator::Exponent);
    assert_eq!(Operator::from("("), Operator::OpenParanthesis);
    assert_eq!(Operator::from(")"), Operator::CloseParanthesis);
    assert_eq!(Operator::from("{"), Operator::OpenBrace);
    assert_eq!(Operator::from("}"), Operator::CloseBrace);
    assert_eq!(Operator::from("***"), Operator::Unknown);
    assert_eq!(Operator::from(""), Operator::Unknown);
}

fn number(value: i64) -> Token<i64> {
    Token::Operand(Operand::Number(value))
}

fn shape(tokens: &[Token<i64>]) -> String {
    let mut out = String::new();
    for token in tokens {
        match token {
            Token::Operand(Operand::Number(value)) => out.push_str(&format!("{} ", value)),
            Token::Operand(Operand::Invalid) => out.push_str("! "),
            Token::Operator(op) => out.push_str(&format!("{:?} ", op)),
            Token::Unknown => out.push_str("? "),
        }
    }
    out.trim_end().to_string()
}

#[test]
fn postfix_puts_each_operator_behind_its_operands() {
    let infix = vec![
        number(3),
        Token::Operator(Operator::Addition),
        number(4),
        Token::Operator(Operator::Multiplication),
        number(2),
    ];
    let postfix = Token::convert_infix_to_postfix(infix);
    assert_eq!(shape(&postfix), "3 4 2 Multiplication Addition");
}

#[test]
fn postfix_keeps_exponents_waiting() {
    let infix = vec![
        number(2),
        Token::Operator(Operator::Exponent),
        number(3),
        Token::Operator(Operator::Exponent),
        number(2),
        Token::Operator(Operator::Subtraction),
        number(1),
    ];
    let postfix = Token::convert_infix_to_postfix(infix);
    assert_eq!(shape(&postfix), "2 3 2 Exponent Exponent 1 Subtraction");
}

#[test]
fn postfix_of_unpaired_brackets_is_still_defined() {
    let open = vec![Token::Operator(Operator::OpenParanthesis), number(1)];
    assert_eq!(shape(&Token::convert_infix_to_postfix(open)), "1 OpenParanthesis");
    let close = vec![
        number(1),
        Token::Operator(Operator::Addition),
        number(2),
        Token::Operator(Operator::CloseBrace),
    ];
    assert_eq!(shape(&Token::convert_infix_to_postfix(close)), "1 2 Addition");
    let unknown: Vec<Token<i64>> = vec![Token::Unknown, number(7), Token::Unknown];
    assert_eq!(shape(&Token::convert_infix_to_postfix(unknown)), "7");
}

#[test]
fn brackets_are_balanced_only_in_matching_pairs() {
    let paired = Token::<i64>::tokenize("{(1)}()").unwrap();
    assert!(Token::is_balanced(&paired));
    let crossed = Token::<i64>::tokenize("{(1})").unwrap();
    assert!(!Token::is_balanced(&crossed));
    let early = Token::<i64>::tokenize(")(").unwrap();
    assert!(!Token::is_balanced(&early));
    let none = Token::<i64>::tokenize("1+2").unwrap();
    assert!(Token::is_balanced(&none));
}

#[test]
fn a_malformed_postfix_expression_has_no_value() {
    let lone = vec![number(1), Token::Operator(Operator::Addition)];
    assert_eq!(
        Token::evaluate_postfix_expression(lone),
        Err(ComputationError::Incomplete)
    );
    let spare = vec![number(5), number(1), number(2), Token::Operator(Operator::Addition)];
    assert_eq!(
        Token::evaluate_postfix_expression(spare),
        Err(ComputationError::Incomplete)
    );
    let invalid = vec![
        number(1),
        Token::Operand(Operand::Invalid),
        number(2),
        Token::Operator(Operator::Addition),
        number(9),
    ];
    assert_eq!(
        Token::evaluate_postfix_expression(invalid),
        Err(ComputationError::Incomplete)
    );
    let only_invalid: Vec<Token<i64>> = vec![Token::Operand(Operand::Invalid)];
    assert_eq!(
        Token::evaluate_postfix_expression(only_invalid),
        Err(ComputationError::Incomplete)
    );
    let bracket = vec![number(1), number(2), Token::Operator(Operator::OpenBrace), number(4)];
    assert_eq!(
        Token::evaluate_postfix_expression(bracket),
        Err(ComputationError::Incomplete)
    );
    let empty: Vec<Token<i64>> = Vec::new();
    assert_eq!(
        Token::evaluate_postfix_expression(empty),
        Err(ComputationError::Incomplete)
    );
    let sound = vec![number(1), Token::Unknown, number(2), Token::Operator(Operator::Addition)];
    assert_eq!(Token::evaluate_postfix_expression(sound), Ok(3));
    let single = vec![number(7)];
    assert_eq!(Token::evaluate_postfix_expression(single), Ok(7));
    assert_eq!(whole("1 2"), Err(ComputationError::Incomplete));
    assert_eq!(whole("1+"), Err(ComputationError::Incomplete));
    assert_eq!(whole("()"), Err(ComputationError::Incomplete));
}

#[test]
fn errors_describe_themselves() {
    assert_eq!(ComputationError::Unbalanced.message(), "Unbalanced brackets");
    assert_eq!(ComputationError::Incomplete.message(), "Unable to compute result");
    assert_eq!(ComputationError::Arithmetic.message(), "Undefined arithmetic");
    assert_eq!(ComputationError::Pattern.message(), "Invalid token pattern");
}
