//! The error taxonomy of the evaluation pipeline.
//!
//! Every stage returns a `Result` whose error is [`EvalError`]; no stage
//! recovers from another stage's error, so each value reaches the caller
//! unchanged. `SpecError` is the specification-level twin: positions are
//! unbounded integers and the offending lexeme is a byte sequence.

use vstd::prelude::*;

verus! {

/// An error raised by the lexer, the syntax analyzer or the evaluator.
#[derive(Debug, PartialEq, Eq)]
pub enum EvalError {
    /// The lexer met a byte that starts no token (with its byte position).
    UnexpectedCharacter { character: u8, position: usize },
    /// A numeric lexeme does not fit the 32-bit signed integer type.
    InvalidNumber { lexeme: Vec<u8> },
    /// An operator other than a sign or `not` opened an expression.
    UnexpectedOperator { position: usize },
    /// An operator lexeme that names no known operator.
    UnrecognizedOperator { lexeme: Vec<u8> },
    /// A token that cannot open an expression.
    UnexpectedToken { position: usize },
    /// Two number tokens with no operator between them.
    TwoNumbersInARow,
    /// Two operator tokens with no operand between them.
    TwoOperatorsInARow { position: usize },
    /// A closing parenthesis with no matching opening one.
    UnexpectedParenthesisClose { position: usize },
    /// An opening parenthesis whose scope never closes.
    UnmatchedParenthesis,
    /// The token stream ended where an operand was still owed.
    UnexpectedEndOfExpression,
    /// Division or modulo by zero.
    ArithmeticError,
    /// The expression with this id failed to reduce to a single number.
    UnresolvedExpression { expression: usize },
}

/// The mathematical shape of an [`EvalError`].
pub enum SpecError {
    UnexpectedCharacter { character: u8, position: int },
    InvalidNumber { lexeme: Seq<u8> },
    UnexpectedOperator { position: int },
    UnrecognizedOperator { lexeme: Seq<u8> },
    UnexpectedToken { position: int },
    TwoNumbersInARow,
    TwoOperatorsInARow { position: int },
    UnexpectedParenthesisClose { position: int },
    UnmatchedParenthesis,
    UnexpectedEndOfExpression,
    ArithmeticError,
    UnresolvedExpression { expression: int },
}

impl View for EvalError {
    type V = SpecError;

    open spec fn view(&self) -> SpecError {
        match self {
            EvalError::UnexpectedCharacter { character, position } => {
                SpecError::UnexpectedCharacter {
                    character: *character,
                    position: *position as int,
                }
            },
            EvalError::InvalidNumber { lexeme } => {
                SpecError::InvalidNumber { lexeme: lexeme@ }
            },
            EvalError::UnexpectedOperator { position } => {
                SpecError::UnexpectedOperator { position: *position as int }
            },
            EvalError::UnrecognizedOperator { lexeme } => {
                SpecError::UnrecognizedOperator { lexeme: lexeme@ }
            },
            EvalError::UnexpectedToken { position } => {
                SpecError::UnexpectedToken { position: *position as int }
            },
            EvalError::TwoNumbersInARow => SpecError::TwoNumbersInARow,
            EvalError::TwoOperatorsInARow { position } => {
                SpecError::TwoOperatorsInARow { position: *position as int }
            },
            EvalError::UnexpectedParenthesisClose { position } => {
                SpecError::UnexpectedParenthesisClose { position: *position as int }
            },
            EvalError::UnmatchedParenthesis => SpecError::UnmatchedParenthesis,
            EvalError::UnexpectedEndOfExpression => SpecError::UnexpectedEndOfExpression,
            EvalError::ArithmeticError => SpecError::ArithmeticError,
            EvalError::UnresolvedExpression { expression } => {
                SpecError::UnresolvedExpression { expression: *expression as int }
            },
        }
    }
}

} // verus!
