use expreval::element::{Element, Operator};
use expreval::syntax::SyntaxAnalyzer;
use expreval::token::Token;

#[test]
fn test_analyze_tokens_single_number() {
    let tokens = vec![Token::Number(b"42".to_vec())];

    let analyzer = SyntaxAnalyzer::new(tokens);
    let result = analyzer.analyze();

    assert!(result.is_ok());

    let expressions = result.unwrap();

    assert_eq!(expressions.len(), 1);
    assert_eq!(
        expressions[0],
        vec![
            Element::Number(0),
            Element::Operator(Operator::Add),
            Element::Number(42)
        ]
    );
}

#[test]
fn test_analyze_tokens_simple_addition() {
    let tokens = vec![
        Token::Number(b"1".to_vec()),
        Token::Operator(b"+".to_vec()),
        Token::Number(b"2".to_vec()),
    ];

    let analyzer = SyntaxAnalyzer::new(tokens);

    let result = analyzer.analyze();
    assert!(result.is_ok());
    let expressions = result.unwrap();
    assert_eq!(expressions.len(), 1);
    assert_eq!(
        expressions[0],
        vec![
            Element::Number(0),
            Element::Operator(Operator::Add),
            Element::Number(1),
            Element::Operator(Operator::Add),
            Element::Number(2)
        ]
    );
}

#[test]
fn test_analyze_tokens_simple_subtraction() {
    let tokens = vec![
        Token::Number(b"5".to_vec()),
        Token::Operator(b"-".to_vec()),
        Token::Number(b"3".to_vec()),
    ];

    let analyzer = SyntaxAnalyzer::new(tokens);

    let result = analyzer.analyze();
    assert!(result.is_ok());
    let expressions = result.unwrap();
    assert_eq!(expressions.len(), 1);
    assert_eq!(
        expressions[0],
        vec![
            Element::Number(0),
            Element::Operator(Operator::Add),
            Element::Number(5),
            Element::Operator(Operator::Sub),
            Element::Number(3)
        ]
    );
}

#[test]
fn test_analyze_tokens_unexpected_token() {
    let tokens = vec![Token::Number(b"5".to_vec()), Token::Operator(b"*".to_vec())];

    let analyzer = SyntaxAnalyzer::new(tokens);

    let result = analyzer.analyze();
    assert!(result.is_err());
}

#[test]
fn test_analyze_tokens_unmatched_parenthesis() {
    let tokens = vec![
        Token::ParenthesisOpen,
        Token::Number(b"5".to_vec()),
        Token::Operator(b"+".to_vec()),
        Token::Number(b"3".to_vec()),
    ];

    let analyzer = SyntaxAnalyzer::new(tokens);

    let result = analyzer.analyze();
    assert!(result.is_err());
}

#[test]
fn test_analyze_tokens_multiple_unmatched_parenthesis() {
    let tokens = vec![
        Token::ParenthesisOpen,
        Token::ParenthesisOpen,
        Token::Number(b"5".to_vec()),
        Token::Operator(b"+".to_vec()),
        Token::Number(b"3".to_vec()),
        Token::ParenthesisClose,
    ];

    let analyzer = SyntaxAnalyzer::new(tokens);

    let result = analyzer.analyze();
    assert!(result.is_err());
}

#[test]
fn test_analyze_tokens_nested_parenthesis() {
    let tokens = vec![
        Token::ParenthesisOpen,
        Token::Number(b"5".to_vec()),
        Token::Operator(b"+".to_vec()),
        Token::ParenthesisOpen,
        Token::Number(b"3".to_vec()),
        Token::Operator(b"*".to_vec()),
        Token::Number(b"2".to_vec()),
        Token::ParenthesisClose,
        Token::ParenthesisClose,
    ];

    let analyzer = SyntaxAnalyzer::new(tokens);

    let result = analyzer.analyze();
    assert!(result.is_ok());
    let expressions = result.unwrap();
    assert_eq!(expressions.len(), 3);
    assert_eq!(
        expressions[0],
        vec![
            Element::Number(0),
            Element::Operator(Operator::Add),
            Element::SubExpression(1)
        ]
    );

    assert_eq!(
        expressions[1],
        vec![
            Element::Number(0),
            Element::Operator(Operator::Add),
            Element::Number(5),
            Element::Operator(Operator::Add),
            Element::SubExpression(2)
        ]
    );

    assert_eq!(
        expressions[2],
        vec![
            Element::Number(0),
            Element::Operator(Operator::Add),
            Element::Number(3),
            Element::Operator(Operator::Mul),
            Element::Number(2)
        ]
    );
}

#[test]
fn test_analyze_tokens_multiple_samelevel_parenthesis() {
    let tokens = vec![
        Token::Number(b"2".to_vec()),
        Token::Operator(b"-".to_vec()),
        Token::ParenthesisOpen,
        Token::Number(b"5".to_vec()),
        Token::Operator(b"+".to_vec()),
        Token::ParenthesisOpen,
        Token::Number(b"3".to_vec()),
        Token::Operator(b"*".to_vec()),
        Token::Number(b"2".to_vec()),
        Token::ParenthesisClose,
        Token::ParenthesisClose,
        Token::Operator(b"/".to_vec()),
        Token::ParenthesisOpen,
        Token::Number(b"4".to_vec()),
        Token::Operator(b"+".to_vec()),
        Token::Number(b"2".to_vec()),
        Token::ParenthesisClose,
    ];

    let analyzer = SyntaxAnalyzer::new(tokens);

    let result = analyzer.analyze();
    assert!(result.is_ok());
    let expressions = result.unwrap();
    assert_eq!(expressions.len(), 4);
    assert_eq!(
        expressions[0],
        vec![
            Element::Number(0),
            Element::Operator(Operator::Add),
            Element::Number(2),
            Element::Operator(Operator::Sub),
            Element::SubExpression(1),
            Element::Operator(Operator::Div),
            Element::SubExpression(2)
        ]
    );

    assert_eq!(
        expressions[1],
        vec![
            Element::Number(0),
            Element::Operator(Operator::Add),
            Element::Number(5),
            Element::Operator(Operator::Add),
            Element::SubExpression(3)
        ]
    );

    assert_eq!(
        expressions[2],
        vec![
            Element::Number(0),
            Element::Operator(Operator::Add),
            Element::Number(4),
            Element::Operator(Operator::Add),
            Element::Number(2)
        ]
    );

    assert_eq!(
        expressions[3],
        vec![
            Element::Number(0),
            Element::Operator(Operator::Add),
            Element::Number(3),
            Element::Operator(Operator::Mul),
            Element::Number(2)
        ]
    );
}
