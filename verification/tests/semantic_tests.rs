use expreval::element::{Element, Operator as Op};
use expreval::error::EvalError;
use expreval::semantic::SemanticAnalyzer;

#[test]
fn test_semantic_analyzer() {
    let elements = vec![
        vec![
            Element::Number(1),
            Element::Operator(Op::Add),
            Element::Number(2),
            Element::Operator(Op::Mul),
            Element::Number(3),
            Element::Operator(Op::Div),
            Element::Number(2),
            Element::Operator(Op::Sub),
            Element::SubExpression(1),
        ],
        vec![
            Element::Number(1),
            Element::Operator(Op::Add),
            Element::Number(2),
        ],
    ];

    let mut semantic_analyzer = SemanticAnalyzer::new(elements);
    let result = semantic_analyzer.calculate();

    assert_eq!(result.unwrap(), 1);
}

#[test]
fn calculate_reports_division_by_zero() {
    let elements = vec![vec![
        Element::Number(5),
        Element::Operator(Op::Div),
        Element::Number(0),
    ]];

    let mut semantic_analyzer = SemanticAnalyzer::new(elements);
    let result = semantic_analyzer.calculate();

    assert_eq!(result, Err(EvalError::ArithmeticError));
}

#[test]
fn calculate_reports_unresolved_expression_with_its_id() {
    // Expression 1 never reduces: its operator keeps a reference to an
    // expression that does not exist, so its operand never resolves.
    let elements = vec![
        vec![
            Element::Number(0),
            Element::Operator(Op::Add),
            Element::SubExpression(1),
        ],
        vec![
            Element::Number(1),
            Element::Operator(Op::Add),
            Element::SubExpression(7),
        ],
    ];

    let mut semantic_analyzer = SemanticAnalyzer::new(elements);
    let result = semantic_analyzer.calculate();

    assert_eq!(result, Err(EvalError::UnresolvedExpression { expression: 1 }));
}

#[test]
fn calculate_leaves_the_table_reusable() {
    let elements = vec![vec![
        Element::Number(4),
        Element::Operator(Op::Mul),
        Element::Number(6),
    ]];

    let mut semantic_analyzer = SemanticAnalyzer::new(elements);
    assert_eq!(semantic_analyzer.calculate().unwrap(), 24);
    assert_eq!(semantic_analyzer.calculate().unwrap(), 24);
}
