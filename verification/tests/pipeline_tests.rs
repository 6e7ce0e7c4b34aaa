use expreval::error::EvalError;
use expreval::Parser;

fn eval(text: &str) -> Result<i32, EvalError> {
    let mut parser = Parser::new(text.to_string());
    parser.parse()
}

#[test]
fn single_literal_evaluates_to_itself() {
    assert_eq!(eval("42"), Ok(42));
    assert_eq!(eval("0"), Ok(0));
    assert_eq!(eval("007"), Ok(7));
    assert_eq!(eval("2147483647"), Ok(2147483647));
}

#[test]
fn precedence_multiplication_before_addition() {
    assert_eq!(eval("1+2*3"), Ok(7));
}

#[test]
fn precedence_parentheses_first() {
    assert_eq!(eval("(1+2)*3"), Ok(9));
}

#[test]
fn precedence_nested_parentheses() {
    assert_eq!(eval("2-(5+(3*2))/1"), Ok(-9));
}

#[test]
fn unary_not_binds_tighter_than_binary_operators() {
    assert_eq!(eval("not 1 + 2"), Ok(0));
}

#[test]
fn not_of_zero_is_minus_one() {
    assert_eq!(eval("not 0"), Ok(-1));
}

#[test]
fn arithmetic_shift_right_preserves_the_sign() {
    assert_eq!(eval("-8 asr 1"), Ok(-4));
    assert_eq!(eval("(0-8) asr 1"), Ok(-4));
}

#[test]
fn logical_shift_right_does_not_preserve_the_sign() {
    assert_eq!(eval("(0-8) lsr 1"), Ok(2147483644));
}

#[test]
fn shift_binds_tighter_than_a_leading_minus() {
    // A leading minus is the subtraction `0 - ...`, and the shift tier
    // binds tighter, so the shift here acts on 8, not on -8.
    assert_eq!(eval("-8 lsr 1"), Ok(-4));
}

#[test]
fn juxtaposition_multiplies() {
    assert_eq!(eval("2(3+4)"), Ok(14));
}

#[test]
fn juxtaposed_groups_multiply() {
    assert_eq!(eval("(1+2)(3)"), Ok(9));
}

#[test]
fn trailing_operator_is_an_unexpected_end() {
    assert_eq!(eval("5 +"), Err(EvalError::UnexpectedEndOfExpression));
}

#[test]
fn unclosed_parenthesis_is_an_unexpected_end() {
    assert_eq!(eval("(5+3"), Err(EvalError::UnexpectedEndOfExpression));
}

#[test]
fn doubly_unclosed_parentheses_are_unmatched() {
    assert_eq!(eval("((5"), Err(EvalError::UnmatchedParenthesis));
}

#[test]
fn two_numbers_in_a_row_are_rejected() {
    assert_eq!(eval("5 3"), Err(EvalError::TwoNumbersInARow));
}

#[test]
fn division_by_zero_is_an_arithmetic_error() {
    assert_eq!(eval("5 / 0"), Err(EvalError::ArithmeticError));
}

#[test]
fn modulo_by_zero_is_an_arithmetic_error() {
    assert_eq!(eval("5 % 0"), Err(EvalError::ArithmeticError));
}

#[test]
fn re_evaluating_the_same_parser_yields_the_same_result() {
    let mut parser = Parser::new("2-(5+(3*2))/1".to_string());
    let first = parser.parse();
    let second = parser.parse();
    assert_eq!(first, Ok(-9));
    assert_eq!(first, second);

    let mut failing = Parser::new("5 / 0".to_string());
    let first = failing.parse();
    let second = failing.parse();
    assert_eq!(first, Err(EvalError::ArithmeticError));
    assert_eq!(first, second);
}

#[test]
fn upper_case_input_is_lower_cased() {
    assert_eq!(eval("NOT 1 + 2"), Ok(0));
    assert_eq!(eval("1 AND 3"), Ok(1));
}

#[test]
fn keyword_operators_compute_bitwise_results() {
    assert_eq!(eval("1 and 2"), Ok(0));
    assert_eq!(eval("1 or 2"), Ok(3));
    assert_eq!(eval("1 xor 3"), Ok(2));
    assert_eq!(eval("2 lsl 3"), Ok(16));
    assert_eq!(eval("1 asl 4"), Ok(16));
    assert_eq!(eval("16 lsr 2"), Ok(4));
}

#[test]
fn precedence_shift_before_multiplication() {
    // The shift tier binds tighter than the multiplicative tier.
    assert_eq!(eval("2 * 1 lsl 3"), Ok(16));
}

#[test]
fn precedence_and_xor_or_tiers() {
    // and before xor before or: 1 or (2 xor (4 and 4)).
    assert_eq!(eval("1 or 2 xor 4 and 4"), Ok(7));
}

#[test]
fn division_and_modulo_truncate_toward_zero() {
    assert_eq!(eval("7 / 2"), Ok(3));
    assert_eq!(eval("0 - 7 / 2"), Ok(-3));
    assert_eq!(eval("7 % 3"), Ok(1));
    assert_eq!(eval("0 - (7 % 3)"), Ok(-1));
}

#[test]
fn leading_signs_set_the_sign_of_the_first_operand() {
    assert_eq!(eval("-5"), Ok(-5));
    assert_eq!(eval("+5"), Ok(5));
    assert_eq!(eval("- 5 + 3"), Ok(-2));
}

#[test]
fn literal_beyond_the_signed_range_is_an_invalid_number() {
    assert_eq!(
        eval("2147483648"),
        Err(EvalError::InvalidNumber {
            lexeme: b"2147483648".to_vec()
        })
    );
    // A minus sign is a separate token, so the minimum value cannot be
    // written as one literal either.
    assert_eq!(
        eval("-2147483648"),
        Err(EvalError::InvalidNumber {
            lexeme: b"2147483648".to_vec()
        })
    );
}

#[test]
fn minimum_value_is_reachable_by_subtraction() {
    assert_eq!(eval("0-2147483647-1"), Ok(-2147483648));
}

#[test]
fn dividing_the_minimum_value_by_minus_one_wraps() {
    assert_eq!(eval("(0-2147483647-1)/(0-1)"), Ok(-2147483648));
    assert_eq!(eval("(0-2147483647-1)%(0-1)"), Ok(0));
}

#[test]
fn addition_wraps_on_overflow() {
    assert_eq!(eval("2147483647+1"), Ok(-2147483648));
}

#[test]
fn shift_counts_are_masked_to_five_bits() {
    assert_eq!(eval("1 lsl 35"), Ok(8));
}

#[test]
fn unknown_character_is_a_lexical_error() {
    assert_eq!(
        eval("5 # 3"),
        Err(EvalError::UnexpectedCharacter {
            character: b'#',
            position: 2
        })
    );
}

#[test]
fn operator_cannot_open_an_expression() {
    assert_eq!(eval("*5"), Err(EvalError::UnexpectedOperator { position: 0 }));
}

#[test]
fn close_parenthesis_cannot_open_an_expression() {
    assert_eq!(eval(")5"), Err(EvalError::UnexpectedToken { position: 0 }));
}

#[test]
fn two_operators_in_a_row_are_rejected() {
    assert_eq!(
        eval("1+*2"),
        Err(EvalError::TwoOperatorsInARow { position: 2 })
    );
}

#[test]
fn stray_close_parenthesis_is_rejected() {
    assert_eq!(
        eval("5)3"),
        Err(EvalError::UnexpectedParenthesisClose { position: 1 })
    );
}

#[test]
fn empty_parentheses_are_an_unexpected_end() {
    assert_eq!(eval("()"), Err(EvalError::UnexpectedEndOfExpression));
}

#[test]
fn not_after_an_operand_leaves_the_expression_unresolved() {
    assert_eq!(
        eval("5 not 3"),
        Err(EvalError::UnresolvedExpression { expression: 0 })
    );
}

#[test]
fn not_after_not_is_two_operators_in_a_row() {
    assert_eq!(
        eval("not not 5"),
        Err(EvalError::TwoOperatorsInARow { position: 1 })
    );
}
