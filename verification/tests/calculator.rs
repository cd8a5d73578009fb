use calculator::expression::{
    tokenize, Expression, ExpressionCalculationError, ExpressionConversionError,
};
use calculator::operator::{ArithmeticOperator, Associativity, Operator};
use calculator::rpn::{EvalStep, RpnEvaluation};

/// Decode each token as an IEEE-754 double, keeping its bit pattern.
fn decode(tokens: &Vec<String>) -> Vec<Option<u64>> {
    tokens.iter().map(|t| t.parse::<f64>().ok().map(f64::to_bits)).collect()
}

/// Native floating-point semantics of one arithmetic operator.
fn apply(op: ArithmeticOperator, a: f64, b: f64) -> f64 {
    match op {
        ArithmeticOperator::Plus => a + b,
        ArithmeticOperator::Minus => a - b,
        ArithmeticOperator::Asterisk => a * b,
        ArithmeticOperator::ForwardSlash => a / b,
        ArithmeticOperator::Power => a.powf(b),
    }
}

fn parse(input: &str) -> Result<Expression, ExpressionConversionError> {
    let tokens = tokenize(input);
    let decoded = decode(&tokens);
    Expression::from_tokens(&tokens, &decoded)
}

fn evaluate(expression: &Expression) -> Result<f64, ExpressionCalculationError> {
    let rpn = expression.to_rpn()?;
    let mut machine = RpnEvaluation::new(rpn);
    loop {
        match machine.advance() {
            EvalStep::Proceed => {}
            EvalStep::Apply(op, a, b) => {
                machine.supply(apply(op, f64::from_bits(a), f64::from_bits(b)).to_bits());
            }
            EvalStep::Done(bits) => return Ok(f64::from_bits(bits)),
            EvalStep::Error(e) => return Err(e),
        }
    }
}

fn eval_str(input: &str) -> f64 {
    evaluate(&parse(input).unwrap()).unwrap()
}

#[test]
fn multiplication_binds_before_addition() {
    assert_eq!(eval_str("1 + 2 * 3"), 7.0);
}

#[test]
fn power_is_right_associative() {
    assert_eq!(eval_str("2 ^ 3 ^ 2"), 512.0);
}

#[test]
fn division_is_left_associative() {
    assert_eq!(eval_str("8 / 4 / 2"), 1.0);
}

#[test]
fn subtraction_is_left_associative() {
    assert_eq!(eval_str("5 - 2 - 1"), 2.0);
}

#[test]
fn parentheses_override_precedence() {
    assert_eq!(eval_str("( 1 + 2 ) * 3"), 9.0);
}

#[test]
fn nested_parentheses_and_power() {
    assert_eq!(eval_str("( 2 + 3 ) * ( 4 - 1 ) ^ 2"), 45.0);
}

#[test]
fn unmatched_closing_parenthesis_fails() {
    let expression = parse("1 + 2 )").unwrap();
    assert_eq!(
        evaluate(&expression),
        Err(ExpressionCalculationError::MismatchedParenthesis)
    );
}

#[test]
fn unmatched_opening_parenthesis_fails_in_reduction() {
    // An unmatched opening parenthesis is flushed into the postfix
    // sequence and rejected only there, as a structural error.
    let expression = parse("( 1 + 2").unwrap();
    assert!(expression.to_rpn().is_ok());
    assert_eq!(
        evaluate(&expression),
        Err(ExpressionCalculationError::RPNCalculation)
    );
}

#[test]
fn lone_operator_lacks_operands() {
    let expression = parse("+").unwrap();
    assert_eq!(
        evaluate(&expression),
        Err(ExpressionCalculationError::RPNCalculation)
    );
}

#[test]
fn two_disconnected_values_fail() {
    let expression = parse("1 2").unwrap();
    assert_eq!(
        evaluate(&expression),
        Err(ExpressionCalculationError::RPNCalculation)
    );
}

#[test]
fn illegal_token_is_reported() {
    assert_eq!(
        parse("1 + x").unwrap_err(),
        ExpressionConversionError::IllegalArgument("x".to_string())
    );
}

#[test]
fn empty_input_is_illegal() {
    assert_eq!(
        parse("").unwrap_err(),
        ExpressionConversionError::IllegalArgument(String::new())
    );
}

#[test]
fn consecutive_spaces_yield_an_empty_token() {
    assert_eq!(
        parse("1  + 2").unwrap_err(),
        ExpressionConversionError::IllegalArgument(String::new())
    );
}

#[test]
fn negative_literal_is_a_single_token() {
    assert_eq!(eval_str("-5 + 3"), -2.0);
}

#[test]
fn scientific_notation_parses() {
    assert_eq!(eval_str("1e3 + 1"), 1001.0);
}

#[test]
fn tokens_are_trimmed_of_other_whitespace() {
    // Tabs survive the split on spaces and must be trimmed away before
    // the tokens are classified.
    assert_eq!(eval_str("\t1 + 2\t"), 3.0);
}

#[test]
fn decimal_literals_parse() {
    assert_eq!(eval_str("1.5 + 2.5"), 4.0);
}

#[test]
fn negative_exponent_literal() {
    assert_eq!(eval_str("2 ^ -1"), 0.5);
}

#[test]
fn doubly_nested_parentheses() {
    assert_eq!(eval_str("( ( 1 + 2 ) )"), 3.0);
}

#[test]
fn bare_number_evaluates_to_itself() {
    assert_eq!(eval_str("42"), 42.0);
}

#[test]
fn division_by_zero_is_positive_infinity() {
    let result = eval_str("1 / 0");
    assert!(result.is_infinite());
    assert!(result.is_sign_positive());
}

#[test]
fn evaluation_is_deterministic() {
    let expression = parse("2 ^ 0.5 * ( 7 / 3 )").unwrap();
    let first = evaluate(&expression).unwrap();
    let second = evaluate(&expression).unwrap();
    assert_eq!(first.to_bits(), second.to_bits());
}

#[test]
fn operator_attributes_match_the_fixed_table() {
    assert_eq!(ArithmeticOperator::Plus.precedence(), 2);
    assert_eq!(ArithmeticOperator::Minus.precedence(), 2);
    assert_eq!(ArithmeticOperator::Asterisk.precedence(), 3);
    assert_eq!(ArithmeticOperator::ForwardSlash.precedence(), 3);
    assert_eq!(ArithmeticOperator::Power.precedence(), 4);
    assert_eq!(ArithmeticOperator::Plus.associativity(), Associativity::Left);
    assert_eq!(ArithmeticOperator::Minus.associativity(), Associativity::Left);
    assert_eq!(ArithmeticOperator::Asterisk.associativity(), Associativity::Left);
    assert_eq!(
        ArithmeticOperator::ForwardSlash.associativity(),
        Associativity::Left
    );
    assert_eq!(ArithmeticOperator::Power.associativity(), Associativity::Right);
}

#[test]
fn machine_hands_out_operands_in_order() {
    let rpn = vec![
        calculator::expression::ExpressionComponent::Number(8.0f64.to_bits()),
        calculator::expression::ExpressionComponent::Number(2.0f64.to_bits()),
        calculator::expression::ExpressionComponent::Operator(Operator::ArithmeticOperator(
            ArithmeticOperator::ForwardSlash,
        )),
    ];
    let mut machine = RpnEvaluation::new(rpn);
    assert_eq!(machine.advance(), EvalStep::Proceed);
    assert_eq!(machine.advance(), EvalStep::Proceed);
    match machine.advance() {
        EvalStep::Apply(op, a, b) => {
            assert_eq!(op, ArithmeticOperator::ForwardSlash);
            assert_eq!(f64::from_bits(a), 8.0);
            assert_eq!(f64::from_bits(b), 2.0);
            assert!(machine.is_awaiting());
            machine.supply((f64::from_bits(a) / f64::from_bits(b)).to_bits());
            assert!(!machine.is_awaiting());
        }
        step => panic!("expected an application, got {:?}", step),
    }
    match machine.advance() {
        EvalStep::Done(bits) => assert_eq!(f64::from_bits(bits), 4.0),
        step => panic!("expected completion, got {:?}", step),
    }
}
