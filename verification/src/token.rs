//! Tokens, the output of the lexer.

use vstd::prelude::*;

verus! {

/// One lexical unit of the input line. Number and operator tokens carry
/// their lexeme as the bytes that were read, unparsed.
#[derive(Debug, PartialEq, Eq)]
pub enum Token {
    Number(Vec<u8>),
    Operator(Vec<u8>),
    ParenthesisOpen,
    ParenthesisClose,
}

/// The mathematical shape of a [`Token`]: lexemes are byte sequences.
pub enum SpecToken {
    Number(Seq<u8>),
    Operator(Seq<u8>),
    ParenthesisOpen,
    ParenthesisClose,
}

impl View for Token {
    type V = SpecToken;

    open spec fn view(&self) -> SpecToken {
        match self {
            Token::Number(lexeme) => SpecToken::Number(lexeme@),
            Token::Operator(lexeme) => SpecToken::Operator(lexeme@),
            Token::ParenthesisOpen => SpecToken::ParenthesisOpen,
            Token::ParenthesisClose => SpecToken::ParenthesisClose,
        }
    }
}

/// The views of a sequence of tokens, element by element.
pub open spec fn tokens_view(tokens: Seq<Token>) -> Seq<SpecToken> {
    Seq::new(tokens.len(), |i: int| tokens[i]@)
}

} // verus!
