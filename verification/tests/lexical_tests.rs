use expreval::element::{Element, Operator};
use expreval::error::EvalError;
use expreval::lexical::LexicalAnalyzer;
use expreval::syntax::SyntaxAnalyzer;
use expreval::token::Token;

fn tokenize(text: &str) -> Result<Vec<Token>, EvalError> {
    let analyzer = LexicalAnalyzer::new(text.as_bytes().to_vec());
    analyzer.tokenize()
}

#[test]
fn tokenize_numbers_operators_and_parentheses() {
    let tokens = tokenize("12+(34*5)").unwrap();
    assert_eq!(
        tokens,
        vec![
            Token::Number(b"12".to_vec()),
            Token::Operator(b"+".to_vec()),
            Token::ParenthesisOpen,
            Token::Number(b"34".to_vec()),
            Token::Operator(b"*".to_vec()),
            Token::Number(b"5".to_vec()),
            Token::ParenthesisClose,
        ]
    );
}

#[test]
fn tokenize_keyword_operators() {
    let tokens = tokenize("1 lsl 2 or 3 and 4 xor 5 asr 6 not 7 lsr 8 asl 9").unwrap();
    let lexemes: Vec<&[u8]> = tokens
        .iter()
        .filter_map(|t| match t {
            Token::Operator(lexeme) => Some(lexeme.as_slice()),
            _ => None,
        })
        .collect();
    assert_eq!(
        lexemes,
        vec![
            b"lsl".as_slice(),
            b"or".as_slice(),
            b"and".as_slice(),
            b"xor".as_slice(),
            b"asr".as_slice(),
            b"not".as_slice(),
            b"lsr".as_slice(),
            b"asl".as_slice(),
        ]
    );
}

#[test]
fn tokenize_skips_whitespace() {
    let tokens = tokenize("  7 \t +\t8  ").unwrap();
    assert_eq!(
        tokens,
        vec![
            Token::Number(b"7".to_vec()),
            Token::Operator(b"+".to_vec()),
            Token::Number(b"8".to_vec()),
        ]
    );
}

#[test]
fn tokenize_keyword_consumes_its_exact_length() {
    // No word-boundary check: `nota` reads as `not` followed by the
    // unrecognized byte `a`.
    assert_eq!(
        tokenize("nota"),
        Err(EvalError::UnexpectedCharacter {
            character: b'a',
            position: 3
        })
    );
}

#[test]
fn tokenize_skips_the_one_byte_unicode_whitespace_code_points() {
    // 0x85 and 0xa0 are whitespace as one-byte code points.
    let analyzer = LexicalAnalyzer::new(vec![0x85, b'9', 0xa0]);
    assert_eq!(analyzer.tokenize().unwrap(), vec![Token::Number(b"9".to_vec())]);
}

#[test]
fn tokenize_rejects_an_unknown_byte_with_its_position() {
    assert_eq!(
        tokenize("12?3"),
        Err(EvalError::UnexpectedCharacter {
            character: b'?',
            position: 2
        })
    );
}

#[test]
fn operator_lexemes_map_to_their_operators() {
    assert_eq!(Operator::from_str(b"not"), Some(Operator::Not));
    assert_eq!(Operator::from_str(b"lsl"), Some(Operator::Lsl));
    assert_eq!(Operator::from_str(b"lsr"), Some(Operator::Lsr));
    assert_eq!(Operator::from_str(b"asl"), Some(Operator::Asl));
    assert_eq!(Operator::from_str(b"asr"), Some(Operator::Asr));
    assert_eq!(Operator::from_str(b"*"), Some(Operator::Mul));
    assert_eq!(Operator::from_str(b"/"), Some(Operator::Div));
    assert_eq!(Operator::from_str(b"%"), Some(Operator::Mod));
    assert_eq!(Operator::from_str(b"+"), Some(Operator::Add));
    assert_eq!(Operator::from_str(b"-"), Some(Operator::Sub));
    assert_eq!(Operator::from_str(b"and"), Some(Operator::And));
    assert_eq!(Operator::from_str(b"xor"), Some(Operator::Xor));
    assert_eq!(Operator::from_str(b"or"), Some(Operator::Or));
    assert_eq!(Operator::from_str(b"abc"), None);
    assert_eq!(Operator::from_str(b""), None);
}

#[test]
fn analyze_rejects_an_unrecognized_operator_lexeme() {
    let tokens = vec![
        Token::Number(b"1".to_vec()),
        Token::Operator(b"zz".to_vec()),
        Token::Number(b"2".to_vec()),
    ];
    let analyzer = SyntaxAnalyzer::new(tokens);
    assert_eq!(
        analyzer.analyze(),
        Err(EvalError::UnrecognizedOperator {
            lexeme: b"zz".to_vec()
        })
    );
}

#[test]
fn analyzed_sub_expression_references_point_forward() {
    // Every reference inside expression i names a later expression k > i,
    // directly on the table, without evaluating it.
    let tokens = tokenize("2-(5+(3*2))/((4)+2)").unwrap();
    let analyzer = SyntaxAnalyzer::new(tokens);
    let expressions = analyzer.analyze().unwrap();
    assert!(expressions.len() > 1);
    for (i, expression) in expressions.iter().enumerate() {
        for element in expression {
            if let Element::SubExpression(k) = element {
                assert!(*k > i);
            }
        }
    }
}
