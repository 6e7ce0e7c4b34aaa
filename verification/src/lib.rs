//! An evaluator for textual arithmetic and bitwise integer expressions.
//!
//! The pipeline has three stages. The lexer turns a line of bytes into
//! tokens. The syntax analyzer turns tokens into a table of flat element
//! sequences, one per parenthesized scope, linked by sub-expression
//! references. The semantic analyzer reduces the table in place, one
//! precedence tier at a time, to a single 32-bit signed integer.
//!
//! Every stage has a specification-level twin (`spec_tokenize`,
//! `spec_analyze`, `spec_calculate`), and each executable stage is proved
//! to return exactly what its twin describes, so the whole evaluation is a
//! mathematical function of the input text.

use vstd::prelude::*;

pub mod element;
pub mod error;
pub mod lexical;
pub mod numbers;
pub mod operator;
pub mod semantic;
pub mod syntax;
pub mod token;

use crate::element::{Element, Operator as OperatorKind};
use crate::error::{EvalError, SpecError};
use crate::lexical::{
    copy_range, lemma_digit_run_end, spec_tokenize, spec_tokenize_from, LexicalAnalyzer,
};
use crate::numbers::{all_digits, digits_value, lemma_digits_value_nonneg, spec_parse_i32};
use crate::operator::{spec_apply, spec_execute, spec_resolve, OpOutcome};
use crate::semantic::{
    calc_result_view, spec_calculate, spec_collect_ops, spec_collect_upto, spec_eval_from,
    spec_run_ops, spec_shift_ops, spec_tier_ops, SemanticAnalyzer,
};
use crate::syntax::{
    sign_operator, spec_analyze, spec_run_queue, spec_run_slice, ParserState, Sign, SyntaxAnalyzer,
};
use crate::token::SpecToken;

verus! {

/// An ASCII upper-case letter mapped to lower case; any other byte kept.
pub open spec fn lower_byte(b: u8) -> u8 {
    if ('A' as u8) <= b && b <= ('Z' as u8) {
        (b + 32) as u8
    } else {
        b
    }
}

/// A byte sequence with its ASCII letters mapped to lower case.
pub open spec fn spec_lower(s: Seq<u8>) -> Seq<u8> {
    s.map_values(|b: u8| lower_byte(b))
}

/// The value of an already lower-cased line of bytes: its tokens analyzed
/// into an expression table and the table evaluated; or the first error of
/// whichever stage failed.
pub open spec fn spec_evaluate(bytes: Seq<u8>) -> Result<i32, SpecError> {
    match spec_tokenize(bytes) {
        Err(e) => Err(e),
        Ok(tokens) => match spec_analyze(tokens) {
            Err(e) => Err(e),
            Ok(table) => spec_calculate(table),
        },
    }
}

/// The value of a line of text: its bytes lower-cased, then evaluated.
pub open spec fn spec_evaluate_expression(text: Seq<u8>) -> Result<i32, SpecError> {
    spec_evaluate(spec_lower(text))
}

/// Map the ASCII letters of a byte slice to lower case.
fn lower_bytes(v: &[u8]) -> (r: Vec<u8>)
    ensures
        r@ == spec_lower(v@),
{
    let mut r: Vec<u8> = Vec::new();
    let mut k: usize = 0;
    while k < v.len()
        invariant
            k <= v@.len(),
            r@.len() == k,
            forall|m: int| 0 <= m < k ==> r@[m] == lower_byte(v@[m]),
        decreases v@.len() - k,
    {
        let b = v[k];
        if b >= ('A' as u8) && b <= ('Z' as u8) {
            r.push(b + 32);
        } else {
            r.push(b);
        }
        k += 1;
    }
    proof {
        assert(r@ =~= spec_lower(v@));
    }
    r
}

/// The front of the pipeline: it lower-cases one line of text and runs the
/// three stages over it.
pub struct Parser {
    operation_bytes: Vec<u8>,
}

impl View for Parser {
    type V = Seq<u8>;

    closed spec fn view(&self) -> Seq<u8> {
        self.operation_bytes@
    }
}

impl Parser {
    /// A parser over one line of text, lower-cased on entry.
    pub fn new(operation_string: String) -> (r: Parser)
        ensures
            r@ == spec_lower(vstd::utf8::encode_utf8(operation_string@)),
    {
        let lowered = lower_bytes(operation_string.as_str().as_bytes());
        Parser { operation_bytes: lowered }
    }

    /// Evaluate the line. Returns exactly what [`spec_evaluate`] maps the
    /// lower-cased bytes to, and leaves the parser unchanged, so parsing
    /// the same line again returns the same result.
    pub fn parse(&mut self) -> (r: Result<i32, EvalError>)
        ensures
            final(self)@ == old(self)@,
            calc_result_view(r) == spec_evaluate(old(self)@),
    {
        let bytes = copy_range(&self.operation_bytes, 0, self.operation_bytes.len());
        proof {
            assert(bytes@ =~= self@);
        }
        let lexical_analyzer = LexicalAnalyzer::new(bytes);
        let tokens = match lexical_analyzer.tokenize() {
            Ok(tokens) => tokens,
            Err(e) => {
                return Err(e);
            },
        };
        let syntax_analyzer = SyntaxAnalyzer::new(tokens);
        let operators = match syntax_analyzer.analyze() {
            Ok(operators) => operators,
            Err(e) => {
                return Err(e);
            },
        };
        let mut semantic_analyzer = SemanticAnalyzer::new(operators);
        let result = semantic_analyzer.calculate();
        match result {
            Ok(v) => Ok(v),
            Err(e) => Err(e),
        }
    }
}


/// Evaluating a line that is one plain decimal literal whose value fits
/// the 32-bit signed range yields exactly that value.
pub proof fn lemma_single_literal(text: Seq<u8>)
    requires
        text.len() > 0,
        all_digits(text),
        digits_value(text) <= i32::MAX,
    ensures
        spec_evaluate_expression(text) == Ok::<i32, SpecError>(digits_value(text) as i32),
{
    lemma_digits_value_nonneg(text);
    let v = digits_value(text) as i32;
    assert(spec_lower(text) =~= text) by {
        assert(forall|k: int|
            0 <= k < text.len() ==> lower_byte(#[trigger] text[k]) == text[k]);
    }
    lemma_digit_run_end(text, 0, text.len() as int);
    let toks = seq![SpecToken::Number(text)];
    assert(text.subrange(0, text.len() as int) =~= text);
    assert(Seq::<SpecToken>::empty().push(SpecToken::Number(text)) =~= toks);
    assert(spec_tokenize_from(text, 0, Seq::empty()) == spec_tokenize_from(
        text,
        text.len() as int,
        toks,
    ));
    assert(spec_tokenize(text) == Ok::<Seq<SpecToken>, SpecError>(toks));
    assert(spec_parse_i32(text) == Some(v));
    let row = seq![
        Element::Number(0),
        Element::Operator(OperatorKind::Add),
        Element::Number(v),
    ];
    assert(Seq::<Element>::empty() + seq![
        Element::Number(0),
        Element::Operator(sign_operator(Sign::Positive)),
        Element::Number(v),
    ] =~= row);
    assert(spec_run_slice(
        toks,
        0,
        ParserState::Initial(Sign::Positive),
        Seq::empty(),
        Seq::empty(),
        1,
    ) == spec_run_slice(toks, 1, ParserState::Operand, row, Seq::empty(), 1));
    assert(spec_run_slice(toks, 1, ParserState::Operand, row, Seq::empty(), 1) == Ok::<
        (Seq<Element>, Seq<Seq<SpecToken>>),
        SpecError,
    >((row, Seq::empty())));
    let table = seq![row];
    assert(seq![toks].drop_first() + Seq::<Seq<SpecToken>>::empty() =~= Seq::<
        Seq<SpecToken>,
    >::empty());
    assert(Seq::<Seq<Element>>::empty().push(row) =~= table);
    assert(spec_run_queue(Seq::<Seq<SpecToken>>::empty(), table, 1) == Ok::<
        Seq<Seq<Element>>,
        SpecError,
    >(table));
    assert(spec_analyze(toks) == Ok::<Seq<Seq<Element>>, SpecError>(table));
    assert forall|t: u32| 1 <= t <= 7 && t != 4 implies spec_tier_ops(row, t, 0) == Seq::<
        (int, OperatorKind),
    >::empty() by {
        assert(spec_tier_ops(row, t, 3) == Seq::<(int, OperatorKind)>::empty());
        assert(spec_tier_ops(row, t, 2) == Seq::<(int, OperatorKind)>::empty());
        assert(spec_tier_ops(row, t, 1) == Seq::<(int, OperatorKind)>::empty());
        assert(spec_tier_ops(row, t, 0) == Seq::<(int, OperatorKind)>::empty());
    }
    let ops = seq![(1int, OperatorKind::Add)];
    assert(spec_tier_ops(row, 4, 0) =~= ops) by {
        assert(spec_tier_ops(row, 4, 3) == Seq::<(int, OperatorKind)>::empty());
        assert(spec_tier_ops(row, 4, 2) == Seq::<(int, OperatorKind)>::empty());
        assert(spec_tier_ops(row, 4, 1) =~= seq![(1int, OperatorKind::Add)] + Seq::<
            (int, OperatorKind),
        >::empty());
        assert(seq![(1int, OperatorKind::Add)] + Seq::<(int, OperatorKind)>::empty() =~= ops);
    }
    assert(spec_collect_ops(row) =~= ops) by {
        assert(spec_collect_upto(row, 0) == Seq::<(int, OperatorKind)>::empty());
        assert(spec_collect_upto(row, 1) =~= Seq::<(int, OperatorKind)>::empty());
        assert(spec_collect_upto(row, 2) =~= Seq::<(int, OperatorKind)>::empty());
        assert(spec_collect_upto(row, 3) =~= Seq::<(int, OperatorKind)>::empty());
        assert(spec_collect_upto(row, 4) =~= ops);
        assert(spec_collect_upto(row, 5) =~= ops);
        assert(spec_collect_upto(row, 6) =~= ops);
        assert(spec_collect_upto(row, 7) =~= ops);
    }
    let values = Seq::new(1nat, |k: int| None::<i32>);
    assert(spec_resolve(row[0], values) == Some(0i32));
    assert(spec_resolve(row[2], values) == Some(v));
    assert(spec_apply(OperatorKind::Add, 0, v) == v);
    let after = row.update(0, Element::Number(v)).remove(1).remove(1);
    assert(after =~= seq![Element::Number(v)]);
    assert(spec_execute(1, OperatorKind::Add, row, values) == OpOutcome::Done(after, 2));
    assert(spec_shift_ops(ops.drop_first(), 1, 2) =~= Seq::<(int, OperatorKind)>::empty()) by {
        assert(ops.drop_first() =~= Seq::<(int, OperatorKind)>::empty());
    }
    assert(spec_run_ops(after, Seq::empty(), values) == Ok::<Seq<Element>, SpecError>(after));
    assert(spec_run_ops(row, ops, values) == Ok::<Seq<Element>, SpecError>(after));
    assert(spec_run_ops(row, spec_collect_ops(row), values) == Ok::<Seq<Element>, SpecError>(
        after,
    ));
    assert(spec_eval_from(table, 0, values) == spec_eval_from(
        table,
        -1,
        values.update(0, Some(v)),
    ));
    assert(spec_calculate(table) == Ok::<i32, SpecError>(v));
    assert(spec_evaluate(text) == Ok::<i32, SpecError>(v));
}

} // verus!
