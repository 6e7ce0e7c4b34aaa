//! The lexer: a single left-to-right scan that turns a line of bytes into
//! tokens.
//!
//! Whitespace is skipped. Mnemonic keyword operators (`not`, `lsl`, `lsr`,
//! `asl`, `asr`, `and`, `xor`, `or`) are recognized wherever the slice of
//! their exact length matches, with no word-boundary check. Decimal digit
//! runs are taken greedily and emitted unparsed. `+ - * / %` and the two
//! parentheses are one-byte tokens. Any other byte is a lexical error
//! carrying the byte and its position.

use vstd::prelude::*;

use crate::error::{EvalError, SpecError};
use crate::numbers::is_digit_byte;
use crate::token::{tokens_view, SpecToken, Token};

verus! {

/// The bytes the lexer skips as whitespace: exactly the one-byte code
/// points that `char::is_whitespace` accepts.
pub open spec fn is_space_byte(b: u8) -> bool {
    b == 0x20 || b == 0x09 || b == 0x0a || b == 0x0b || b == 0x0c || b == 0x0d || b == 0x85
        || b == 0xa0
}

/// True when the three bytes `a`, `b`, `c` stand at position `i` of `s`.
pub open spec fn spec_match3(s: Seq<u8>, i: int, a: u8, b: u8, c: u8) -> bool {
    i + 3 <= s.len() && s[i] == a && s[i + 1] == b && s[i + 2] == c
}

/// True when the two bytes `a`, `b` stand at position `i` of `s`.
pub open spec fn spec_match2(s: Seq<u8>, i: int, a: u8, b: u8) -> bool {
    i + 2 <= s.len() && s[i] == a && s[i + 1] == b
}

/// The length of the keyword operator that stands at position `i` of `s`,
/// or `None` when none does.
pub open spec fn spec_keyword_len_at(s: Seq<u8>, i: int) -> Option<int> {
    if spec_match3(s, i, 'l' as u8, 's' as u8, 'l' as u8) || spec_match3(
        s,
        i,
        'l' as u8,
        's' as u8,
        'r' as u8,
    ) || spec_match3(s, i, 'a' as u8, 's' as u8, 'l' as u8) || spec_match3(
        s,
        i,
        'a' as u8,
        's' as u8,
        'r' as u8,
    ) || spec_match3(s, i, 'a' as u8, 'n' as u8, 'd' as u8) || spec_match3(
        s,
        i,
        'x' as u8,
        'o' as u8,
        'r' as u8,
    ) || spec_match3(s, i, 'n' as u8, 'o' as u8, 't' as u8) {
        Some(3)
    } else if spec_match2(s, i, 'o' as u8, 'r' as u8) {
        Some(2)
    } else {
        None
    }
}

/// The length of the maximal run of decimal digits starting at `i`.
pub open spec fn digit_run_len(s: Seq<u8>, i: int) -> nat
    decreases s.len() - i,
{
    if 0 <= i < s.len() && is_digit_byte(s[i]) {
        1 + digit_run_len(s, i + 1)
    } else {
        0
    }
}

/// The tokens of `s` from position `i` on, appended to `acc`; or the first
/// lexical error at or after `i`.
pub open spec fn spec_tokenize_from(s: Seq<u8>, i: int, acc: Seq<SpecToken>) -> Result<
    Seq<SpecToken>,
    SpecError,
>
    decreases s.len() - i,
    via spec_tokenize_from_decreases
{
    if i < 0 || i >= s.len() {
        Ok(acc)
    } else {
        let b = s[i];
        if is_space_byte(b) {
            spec_tokenize_from(s, i + 1, acc)
        } else {
            match spec_keyword_len_at(s, i) {
                Some(l) => spec_tokenize_from(
                    s,
                    i + l,
                    acc.push(SpecToken::Operator(s.subrange(i, i + l))),
                ),
                None => {
                    if is_digit_byte(b) {
                        let j = i + digit_run_len(s, i);
                        spec_tokenize_from(s, j, acc.push(SpecToken::Number(s.subrange(i, j))))
                    } else if b == ('+' as u8) || b == ('-' as u8) || b == ('*' as u8) || b == (
                    '/' as u8) || b == ('%' as u8) {
                        spec_tokenize_from(s, i + 1, acc.push(SpecToken::Operator(seq![b])))
                    } else if b == ('(' as u8) {
                        spec_tokenize_from(s, i + 1, acc.push(SpecToken::ParenthesisOpen))
                    } else if b == (')' as u8) {
                        spec_tokenize_from(s, i + 1, acc.push(SpecToken::ParenthesisClose))
                    } else {
                        Err(SpecError::UnexpectedCharacter { character: b, position: i })
                    }
                },
            }
        }
    }
}

/// A digit run starting inside the sequence stays inside it.
proof fn lemma_digit_run_len_le(s: Seq<u8>, i: int)
    requires
        0 <= i <= s.len(),
    ensures
        digit_run_len(s, i) <= s.len() - i,
    decreases s.len() - i,
{
    if i < s.len() && is_digit_byte(s[i]) {
        lemma_digit_run_len_le(s, i + 1);
    }
}

#[via_fn]
proof fn spec_tokenize_from_decreases(s: Seq<u8>, i: int, acc: Seq<SpecToken>) {
    if 0 <= i < s.len() && !is_space_byte(s[i]) && spec_keyword_len_at(s, i) is None
        && is_digit_byte(s[i]) {
        assert(digit_run_len(s, i) >= 1);
        lemma_digit_run_len_le(s, i);
    }
}

/// The token sequence of a whole line of bytes, or its first lexical error.
pub open spec fn spec_tokenize(s: Seq<u8>) -> Result<Seq<SpecToken>, SpecError> {
    spec_tokenize_from(s, 0, Seq::empty())
}

/// The view of a lexer result: token views on success, the error's view on
/// failure.
pub open spec fn lex_result_view(r: Result<Vec<Token>, EvalError>) -> Result<
    Seq<SpecToken>,
    SpecError,
> {
    match r {
        Ok(tokens) => Ok(tokens_view(tokens@)),
        Err(e) => Err(e@),
    }
}

/// A digit run that ends at `j` (the first non-digit, or the end) has
/// length `j - i`.
pub proof fn lemma_digit_run_end(s: Seq<u8>, i: int, j: int)
    requires
        0 <= i <= j <= s.len(),
        forall|k: int| i <= k < j ==> is_digit_byte(#[trigger] s[k]),
        j == s.len() || !is_digit_byte(s[j]),
    ensures
        digit_run_len(s, i) == j - i,
    decreases j - i,
{
    if i < j {
        lemma_digit_run_end(s, i + 1, j);
    }
}

/// True when `b` is a whitespace byte.
fn is_space(b: u8) -> (r: bool)
    ensures
        r == is_space_byte(b),
{
    b == 0x20 || b == 0x09 || b == 0x0a || b == 0x0b || b == 0x0c || b == 0x0d || b == 0x85
        || b == 0xa0
}

/// True when the three bytes `a`, `b`, `c` stand at position `i` of `v`.
fn match3(v: &Vec<u8>, i: usize, a: u8, b: u8, c: u8) -> (r: bool)
    requires
        i < v@.len(),
    ensures
        r == spec_match3(v@, i as int, a, b, c),
{
    v.len() - i >= 3 && v[i] == a && v[i + 1] == b && v[i + 2] == c
}

/// True when the two bytes `a`, `b` stand at position `i` of `v`.
fn match2(v: &Vec<u8>, i: usize, a: u8, b: u8) -> (r: bool)
    requires
        i < v@.len(),
    ensures
        r == spec_match2(v@, i as int, a, b),
{
    v.len() - i >= 2 && v[i] == a && v[i + 1] == b
}

/// The length of the keyword operator standing at position `i`, if any.
fn keyword_len_at(v: &Vec<u8>, i: usize) -> (r: Option<usize>)
    requires
        i < v@.len(),
    ensures
        match r {
            Some(l) => spec_keyword_len_at(v@, i as int) == Some(l as int) && i + l <= v@.len(),
            None => spec_keyword_len_at(v@, i as int) is None,
        },
{
    if match3(v, i, 'l' as u8, 's' as u8, 'l' as u8) || match3(v, i, 'l' as u8, 's' as u8, 'r' as u8)
        || match3(v, i, 'a' as u8, 's' as u8, 'l' as u8) || match3(
        v,
        i,
        'a' as u8,
        's' as u8,
        'r' as u8,
    ) || match3(v, i, 'a' as u8, 'n' as u8, 'd' as u8) || match3(v, i, 'x' as u8, 'o' as u8, 'r' as u8)
        || match3(v, i, 'n' as u8, 'o' as u8, 't' as u8) {
        Some(3)
    } else if match2(v, i, 'o' as u8, 'r' as u8) {
        Some(2)
    } else {
        None
    }
}

/// Copy the bytes of `v` in `[a, b)` into a fresh vector.
pub fn copy_range(v: &Vec<u8>, a: usize, b: usize) -> (r: Vec<u8>)
    requires
        a <= b <= v@.len(),
    ensures
        r@ == v@.subrange(a as int, b as int),
{
    let mut r: Vec<u8> = Vec::new();
    let mut k = a;
    while k < b
        invariant
            a <= k <= b <= v@.len(),
            r@ == v@.subrange(a as int, k as int),
        decreases b - k,
    {
        r.push(v[k]);
        k += 1;
        proof {
            assert(r@ =~= v@.subrange(a as int, k as int));
        }
    }
    r
}

/// Appending a token appends its view.
proof fn lemma_tokens_view_push(tokens: Seq<Token>, t: Token)
    ensures
        tokens_view(tokens.push(t)) == tokens_view(tokens).push(t@),
{
    assert(tokens_view(tokens.push(t)) =~= tokens_view(tokens).push(t@));
}

/// The lexer. It owns the bytes of the line it analyzes.
pub struct LexicalAnalyzer {
    operation_bytes: Vec<u8>,
}

impl View for LexicalAnalyzer {
    type V = Seq<u8>;

    closed spec fn view(&self) -> Seq<u8> {
        self.operation_bytes@
    }
}

impl LexicalAnalyzer {
    /// A lexer over the given line of bytes.
    pub fn new(operation_bytes: Vec<u8>) -> (r: LexicalAnalyzer)
        ensures
            r@ == operation_bytes@,
    {
        LexicalAnalyzer { operation_bytes }
    }

    /// Scan the line into tokens. Returns exactly the tokens that
    /// [`spec_tokenize`] maps the line to, or its first lexical error.
    #[verifier::loop_isolation(false)]
    pub fn tokenize(&self) -> (r: Result<Vec<Token>, EvalError>)
        ensures
            lex_result_view(r) == spec_tokenize(self@),
    {
        let mut tokens: Vec<Token> = Vec::new();
        proof {
            assert(tokens_view(tokens@) =~= Seq::<SpecToken>::empty());
        }
        let n = self.operation_bytes.len();
        let mut i: usize = 0;
        while i < n
            invariant
                i <= n,
                spec_tokenize(self@) == spec_tokenize_from(
                    self@,
                    i as int,
                    tokens_view(tokens@),
                ),
            decreases n - i,
        {
            let b = self.operation_bytes[i];
            if is_space(b) {
                i += 1;
            } else {
                match keyword_len_at(&self.operation_bytes, i) {
                    Some(l) => {
                        let lexeme = copy_range(&self.operation_bytes, i, i + l);
                        proof {
                            lemma_tokens_view_push(tokens@, Token::Operator(lexeme));
                        }
                        tokens.push(Token::Operator(lexeme));
                        i += l;
                    },
                    None => {
                        if b >= ('0' as u8) && b <= ('9' as u8) {
                            let mut j = i + 1;
                            while j < n && self.operation_bytes[j] >= ('0' as u8)
                                && self.operation_bytes[j] <= ('9' as u8)
                                invariant
                                    i < j <= n,
                                    forall|k: int|
                                        i <= k < j ==> is_digit_byte(#[trigger] self@[k]),
                                decreases n - j,
                            {
                                j += 1;
                            }
                            proof {
                                lemma_digit_run_end(self@, i as int, j as int);
                            }
                            let lexeme = copy_range(&self.operation_bytes, i, j);
                            proof {
                                lemma_tokens_view_push(tokens@, Token::Number(lexeme));
                            }
                            tokens.push(Token::Number(lexeme));
                            i = j;
                        } else if b == ('+' as u8) || b == ('-' as u8) || b == ('*' as u8) || b
                            == ('/' as u8) || b == ('%' as u8) {
                            let mut lexeme: Vec<u8> = Vec::new();
                            lexeme.push(b);
                            proof {
                                assert(lexeme@ =~= seq![b]);
                                lemma_tokens_view_push(tokens@, Token::Operator(lexeme));
                            }
                            tokens.push(Token::Operator(lexeme));
                            i += 1;
                        } else if b == ('(' as u8) {
                            proof {
                                lemma_tokens_view_push(tokens@, Token::ParenthesisOpen);
                            }
                            tokens.push(Token::ParenthesisOpen);
                            i += 1;
                        } else if b == (')' as u8) {
                            proof {
                                lemma_tokens_view_push(tokens@, Token::ParenthesisClose);
                            }
                            tokens.push(Token::ParenthesisClose);
                            i += 1;
                        } else {
                            return Err(
                                EvalError::UnexpectedCharacter { character: b, position: i },
                            );
                        }
                    },
                }
            }
        }
        Ok(tokens)
    }
}

} // verus!
