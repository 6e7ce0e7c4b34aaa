use expreval::element::{Element, Operator as Op};
use expreval::error::EvalError;
use expreval::operator::Operator;

#[test]
fn execute_binary_operator_collapses_three_elements() {
    let mut elements = vec![
        Element::Number(6),
        Element::Operator(Op::Mul),
        Element::Number(7),
    ];
    let values: Vec<Option<i32>> = vec![];
    let op = Operator::new(1, Op::Mul);
    assert_eq!(op.execute(&mut elements, &values).unwrap(), Some(2));
    assert_eq!(elements, vec![Element::Number(42)]);
}

#[test]
fn execute_not_consumes_only_its_right_operand() {
    let mut elements = vec![Element::Operator(Op::Not), Element::Number(1)];
    let values: Vec<Option<i32>> = vec![];
    let op = Operator::new(0, Op::Not);
    assert_eq!(op.execute(&mut elements, &values).unwrap(), Some(1));
    assert_eq!(elements, vec![Element::Number(-2)]);
}

#[test]
fn execute_skips_an_unresolved_operand_and_leaves_the_buffer() {
    let mut elements = vec![
        Element::Number(1),
        Element::Operator(Op::Add),
        Element::SubExpression(0),
    ];
    let values: Vec<Option<i32>> = vec![None];
    let op = Operator::new(1, Op::Add);
    assert_eq!(op.execute(&mut elements, &values).unwrap(), None);
    assert_eq!(
        elements,
        vec![
            Element::Number(1),
            Element::Operator(Op::Add),
            Element::SubExpression(0),
        ]
    );
}

#[test]
fn execute_resolves_a_recorded_sub_expression_value() {
    let mut elements = vec![
        Element::Number(40),
        Element::Operator(Op::Add),
        Element::SubExpression(0),
    ];
    let values: Vec<Option<i32>> = vec![Some(2)];
    let op = Operator::new(1, Op::Add);
    assert_eq!(op.execute(&mut elements, &values).unwrap(), Some(2));
    assert_eq!(elements, vec![Element::Number(42)]);
}

#[test]
fn execute_reports_division_by_zero() {
    let mut elements = vec![
        Element::Number(1),
        Element::Operator(Op::Div),
        Element::Number(0),
    ];
    let values: Vec<Option<i32>> = vec![];
    let op = Operator::new(1, Op::Div);
    assert_eq!(
        op.execute(&mut elements, &values),
        Err(EvalError::ArithmeticError)
    );
}

#[test]
fn pending_operator_position_can_be_read_and_shifted() {
    let mut op = Operator::new(5, Op::Add);
    assert_eq!(op.get_index(), 5);
    op.set_index(3);
    assert_eq!(op.get_index(), 3);
}

#[test]
fn operator_tiers_run_from_not_down_to_or() {
    assert_eq!(Op::Not.tier(), 1);
    assert_eq!(Op::Lsl.tier(), 2);
    assert_eq!(Op::Lsr.tier(), 2);
    assert_eq!(Op::Asl.tier(), 2);
    assert_eq!(Op::Asr.tier(), 2);
    assert_eq!(Op::Mul.tier(), 3);
    assert_eq!(Op::Div.tier(), 3);
    assert_eq!(Op::Mod.tier(), 3);
    assert_eq!(Op::Add.tier(), 4);
    assert_eq!(Op::Sub.tier(), 4);
    assert_eq!(Op::And.tier(), 5);
    assert_eq!(Op::Xor.tier(), 6);
    assert_eq!(Op::Or.tier(), 7);
}
