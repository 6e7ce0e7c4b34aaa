//! The structural analyzer: tokens to a table of flat element sequences.
//!
//! A work queue of token slices is processed breadth-first, starting with
//! the whole token sequence as expression 0. A finite-state machine walks
//! each slice. Every expression is given an implicit leading `0 <sign>`
//! pair so that a leading sign (or none) needs no special case later; a
//! leading `not` additionally keeps its `0 +` placeholder. A parenthesized
//! span is not descended into: it is pushed onto the queue, given the next
//! free id, and recorded as a [`Element::SubExpression`] reference, so every
//! reference inside expression `i` points to some expression `k > i`.
//! An opening parenthesis straight after an operand multiplies
//! (juxtaposition), so `2(3+4)` reads as `2*(3+4)`.

use vstd::prelude::*;

use crate::element::{spec_operator_from_lexeme, Element, Operator};
use crate::error::{EvalError, SpecError};
use crate::lexical::copy_range;
use crate::numbers::{parse_number, spec_parse_i32};
use crate::token::{tokens_view, SpecToken, Token};

verus! {

/// The sign carried by the initial state of the expression grammar.
#[derive(Debug, Clone, Copy, PartialEq, Eq, Structural)]
pub enum Sign {
    Positive,
    Negative,
}

/// The states of the expression grammar's finite-state machine.
#[derive(Debug, Clone, Copy, PartialEq, Eq, Structural)]
pub enum ParserState {
    /// Nothing read yet but signs; carries the sign read so far.
    Initial(Sign),
    /// An operand was just completed.
    Operand,
    /// A unary operator was just read.
    UnaryOperator,
    /// A binary operator was just read.
    BinaryOperator,
    /// An opening parenthesis was just read; its span is being located.
    SubExpressionOpen,
}

/// The operator that a sign contributes to the implicit leading pair.
pub open spec fn sign_operator(sign: Sign) -> Operator {
    match sign {
        Sign::Positive => Operator::Add,
        Sign::Negative => Operator::Sub,
    }
}

/// Scan from `i` for the closing parenthesis that brings `depth` to zero.
/// `Ok(j)` is its position; `Err(d)` is the depth left when tokens ran out.
pub open spec fn spec_scan_close(toks: Seq<SpecToken>, i: int, depth: int) -> Result<int, int>
    decreases toks.len() - i,
{
    if i < 0 || i >= toks.len() {
        Err(depth)
    } else {
        match toks[i] {
            SpecToken::ParenthesisClose => {
                if depth == 1 {
                    Ok(i)
                } else {
                    spec_scan_close(toks, i + 1, depth - 1)
                }
            },
            SpecToken::ParenthesisOpen => spec_scan_close(toks, i + 1, depth + 1),
            _ => spec_scan_close(toks, i + 1, depth),
        }
    }
}

/// A found closing parenthesis lies between the scan start and the end.
proof fn lemma_scan_close_bounds(toks: Seq<SpecToken>, i: int, depth: int)
    requires
        0 <= i,
        spec_scan_close(toks, i, depth) is Ok,
    ensures
        i <= spec_scan_close(toks, i, depth)->Ok_0 < toks.len(),
    decreases toks.len() - i,
{
    if i < toks.len() {
        match toks[i] {
            SpecToken::ParenthesisClose => {
                if depth != 1 {
                    lemma_scan_close_bounds(toks, i + 1, depth - 1);
                }
            },
            SpecToken::ParenthesisOpen => {
                lemma_scan_close_bounds(toks, i + 1, depth + 1);
            },
            _ => {
                lemma_scan_close_bounds(toks, i + 1, depth);
            },
        }
    }
}

/// Run the grammar's state machine over `toks` from position `i` in state
/// `state`. `elems` and `subs` accumulate the elements built so far and the
/// parenthesized spans discovered so far; `next_id` is the id the next
/// discovered span receives. Returns the completed element sequence and the
/// discovered spans, or the first grammar error (positions are relative to
/// the slice).
pub open spec fn spec_run_slice(
    toks: Seq<SpecToken>,
    i: int,
    state: ParserState,
    elems: Seq<Element>,
    subs: Seq<Seq<SpecToken>>,
    next_id: int,
) -> Result<(Seq<Element>, Seq<Seq<SpecToken>>), SpecError>
    decreases toks.len() - i,
    via spec_run_slice_decreases
{
    if i < 0 || i >= toks.len() {
        if state is Operand {
            Ok((elems, subs))
        } else {
            Err(SpecError::UnexpectedEndOfExpression)
        }
    } else {
        match state {
            ParserState::Initial(sign) => match toks[i] {
                SpecToken::Number(lexeme) => match spec_parse_i32(lexeme) {
                    Some(v) => spec_run_slice(
                        toks,
                        i + 1,
                        ParserState::Operand,
                        elems + seq![
                            Element::Number(0),
                            Element::Operator(sign_operator(sign)),
                            Element::Number(v),
                        ],
                        subs,
                        next_id,
                    ),
                    None => Err(SpecError::InvalidNumber { lexeme }),
                },
                SpecToken::Operator(lexeme) => match spec_operator_from_lexeme(lexeme) {
                    Some(Operator::Add) => spec_run_slice(
                        toks,
                        i + 1,
                        ParserState::Initial(sign),
                        elems,
                        subs,
                        next_id,
                    ),
                    Some(Operator::Sub) => spec_run_slice(
                        toks,
                        i + 1,
                        ParserState::Initial(Sign::Negative),
                        elems,
                        subs,
                        next_id,
                    ),
                    Some(Operator::Not) => spec_run_slice(
                        toks,
                        i + 1,
                        ParserState::UnaryOperator,
                        elems + seq![
                            Element::Number(0),
                            Element::Operator(sign_operator(sign)),
                            Element::Operator(Operator::Not),
                        ],
                        subs,
                        next_id,
                    ),
                    _ => Err(SpecError::UnexpectedOperator { position: i }),
                },
                SpecToken::ParenthesisOpen => spec_run_slice(
                    toks,
                    i + 1,
                    ParserState::SubExpressionOpen,
                    elems + seq![Element::Number(0), Element::Operator(sign_operator(sign))],
                    subs,
                    next_id,
                ),
                SpecToken::ParenthesisClose => Err(SpecError::UnexpectedToken { position: i }),
            },
            ParserState::Operand => match toks[i] {
                SpecToken::Number(_) => Err(SpecError::TwoNumbersInARow),
                SpecToken::Operator(lexeme) => match spec_operator_from_lexeme(lexeme) {
                    Some(op) => spec_run_slice(
                        toks,
                        i + 1,
                        ParserState::BinaryOperator,
                        elems.push(Element::Operator(op)),
                        subs,
                        next_id,
                    ),
                    None => Err(SpecError::UnrecognizedOperator { lexeme }),
                },
                SpecToken::ParenthesisOpen => spec_run_slice(
                    toks,
                    i + 1,
                    ParserState::SubExpressionOpen,
                    elems.push(Element::Operator(Operator::Mul)),
                    subs,
                    next_id,
                ),
                SpecToken::ParenthesisClose => Err(
                    SpecError::UnexpectedParenthesisClose { position: i },
                ),
            },
            ParserState::UnaryOperator | ParserState::BinaryOperator => match toks[i] {
                SpecToken::Number(lexeme) => match spec_parse_i32(lexeme) {
                    Some(v) => spec_run_slice(
                        toks,
                        i + 1,
                        ParserState::Operand,
                        elems.push(Element::Number(v)),
                        subs,
                        next_id,
                    ),
                    None => Err(SpecError::InvalidNumber { lexeme }),
                },
                SpecToken::Operator(_) => Err(SpecError::TwoOperatorsInARow { position: i }),
                SpecToken::ParenthesisOpen => spec_run_slice(
                    toks,
                    i + 1,
                    ParserState::SubExpressionOpen,
                    elems,
                    subs,
                    next_id,
                ),
                SpecToken::ParenthesisClose => Err(
                    SpecError::UnexpectedParenthesisClose { position: i },
                ),
            },
            ParserState::SubExpressionOpen => match spec_scan_close(toks, i, 1) {
                Ok(j) => spec_run_slice(
                    toks,
                    j + 1,
                    ParserState::Operand,
                    elems.push(Element::SubExpression(next_id as usize)),
                    subs.push(toks.subrange(i, j)),
                    next_id + 1,
                ),
                Err(depth) => {
                    if depth == 1 {
                        Err(SpecError::UnexpectedEndOfExpression)
                    } else {
                        Err(SpecError::UnmatchedParenthesis)
                    }
                },
            },
        }
    }
}

#[via_fn]
proof fn spec_run_slice_decreases(
    toks: Seq<SpecToken>,
    i: int,
    state: ParserState,
    elems: Seq<Element>,
    subs: Seq<Seq<SpecToken>>,
    next_id: int,
) {
    if 0 <= i < toks.len() && state is SubExpressionOpen {
        if spec_scan_close(toks, i, 1) is Ok {
            lemma_scan_close_bounds(toks, i, 1);
        }
    }
}

/// The number of tokens a queue of slices holds, plus one per slice.
pub open spec fn total_len(queue: Seq<Seq<SpecToken>>) -> nat
    decreases queue.len(),
{
    if queue.len() == 0 {
        0
    } else {
        (queue[0].len() + 1 + total_len(queue.drop_first())) as nat
    }
}

/// `total_len` distributes over concatenation.
proof fn lemma_total_len_concat(a: Seq<Seq<SpecToken>>, b: Seq<Seq<SpecToken>>)
    ensures
        total_len(a + b) == total_len(a) + total_len(b),
    decreases a.len(),
{
    if a.len() == 0 {
        assert(a + b =~= b);
    } else {
        assert((a + b).drop_first() =~= a.drop_first() + b);
        lemma_total_len_concat(a.drop_first(), b);
    }
}

/// `total_len` of a queue with one more slice at its back.
proof fn lemma_total_len_push(queue: Seq<Seq<SpecToken>>, s: Seq<SpecToken>)
    ensures
        total_len(queue.push(s)) == total_len(queue) + s.len() + 1,
{
    assert(queue.push(s) =~= queue + seq![s]);
    lemma_total_len_concat(queue, seq![s]);
    assert(seq![s].drop_first() =~= Seq::<Seq<SpecToken>>::empty());
    assert(total_len(Seq::<Seq<SpecToken>>::empty()) == 0);
    assert(total_len(seq![s]) == s.len() + 1 + total_len(seq![s].drop_first()));
}

/// The spans a slice contributes to the queue are, with their bookkeeping
/// margin, no longer than the part of the slice that was still unread: each
/// discovered span fits strictly inside its parentheses.
proof fn lemma_run_slice_total(
    toks: Seq<SpecToken>,
    i: int,
    state: ParserState,
    elems: Seq<Element>,
    subs: Seq<Seq<SpecToken>>,
    next_id: int,
)
    requires
        0 <= i <= toks.len(),
        spec_run_slice(toks, i, state, elems, subs, next_id) is Ok,
    ensures
        total_len((spec_run_slice(toks, i, state, elems, subs, next_id)->Ok_0).1) <= total_len(
            subs,
        ) + (toks.len() - i) + (if state is SubExpressionOpen {
            1int
        } else {
            0int
        }),
    decreases toks.len() - i,
{
    if i < toks.len() {
        match state {
            ParserState::Initial(sign) => match toks[i] {
                SpecToken::Number(lexeme) => {
                    lemma_run_slice_total(
                        toks,
                        i + 1,
                        ParserState::Operand,
                        elems + seq![
                            Element::Number(0),
                            Element::Operator(sign_operator(sign)),
                            Element::Number(spec_parse_i32(lexeme)->Some_0),
                        ],
                        subs,
                        next_id,
                    );
                },
                SpecToken::Operator(lexeme) => {
                    match spec_operator_from_lexeme(lexeme) {
                        Some(Operator::Add) => {
                            lemma_run_slice_total(
                                toks,
                                i + 1,
                                ParserState::Initial(sign),
                                elems,
                                subs,
                                next_id,
                            );
                        },
                        Some(Operator::Sub) => {
                            lemma_run_slice_total(
                                toks,
                                i + 1,
                                ParserState::Initial(Sign::Negative),
                                elems,
                                subs,
                                next_id,
                            );
                        },
                        Some(Operator::Not) => {
                            lemma_run_slice_total(
                                toks,
                                i + 1,
                                ParserState::UnaryOperator,
                                elems + seq![
                                    Element::Number(0),
                                    Element::Operator(sign_operator(sign)),
                                    Element::Operator(Operator::Not),
                                ],
                                subs,
                                next_id,
                            );
                        },
                        _ => {},
                    }
                },
                SpecToken::ParenthesisOpen => {
                    lemma_run_slice_total(
                        toks,
                        i + 1,
                        ParserState::SubExpressionOpen,
                        elems + seq![Element::Number(0), Element::Operator(sign_operator(sign))],
                        subs,
                        next_id,
                    );
                },
                SpecToken::ParenthesisClose => {},
            },
            ParserState::Operand => match toks[i] {
                SpecToken::Number(_) => {},
                SpecToken::Operator(lexeme) => {
                    match spec_operator_from_lexeme(lexeme) {
                        Some(op) => {
                            lemma_run_slice_total(
                                toks,
                                i + 1,
                                ParserState::BinaryOperator,
                                elems.push(Element::Operator(op)),
                                subs,
                                next_id,
                            );
                        },
                        None => {},
                    }
                },
                SpecToken::ParenthesisOpen => {
                    lemma_run_slice_total(
                        toks,
                        i + 1,
                        ParserState::SubExpressionOpen,
                        elems.push(Element::Operator(Operator::Mul)),
                        subs,
                        next_id,
                    );
                },
                SpecToken::ParenthesisClose => {},
            },
            ParserState::UnaryOperator | ParserState::BinaryOperator => match toks[i] {
                SpecToken::Number(lexeme) => {
                    if spec_parse_i32(lexeme) is Some {
                        lemma_run_slice_total(
                            toks,
                            i + 1,
                            ParserState::Operand,
                            elems.push(Element::Number(spec_parse_i32(lexeme)->Some_0)),
                            subs,
                            next_id,
                        );
                    }
                },
                SpecToken::Operator(_) => {},
                SpecToken::ParenthesisOpen => {
                    lemma_run_slice_total(
                        toks,
                        i + 1,
                        ParserState::SubExpressionOpen,
                        elems,
                        subs,
                        next_id,
                    );
                },
                SpecToken::ParenthesisClose => {},
            },
            ParserState::SubExpressionOpen => match spec_scan_close(toks, i, 1) {
                Ok(j) => {
                    lemma_scan_close_bounds(toks, i, 1);
                    lemma_total_len_push(subs, toks.subrange(i, j));
                    lemma_run_slice_total(
                        toks,
                        j + 1,
                        ParserState::Operand,
                        elems.push(Element::SubExpression(next_id as usize)),
                        subs.push(toks.subrange(i, j)),
                        next_id + 1,
                    );
                },
                Err(_) => {},
            },
        }
    }
}

/// Process every slice of the queue in order, appending each completed
/// element sequence to `done` and each newly discovered span to the queue.
/// `next_id` is the id the next discovered span receives.
pub open spec fn spec_run_queue(
    queue: Seq<Seq<SpecToken>>,
    done: Seq<Seq<Element>>,
    next_id: int,
) -> Result<Seq<Seq<Element>>, SpecError>
    decreases total_len(queue),
    via spec_run_queue_decreases
{
    if queue.len() == 0 {
        Ok(done)
    } else {
        match spec_run_slice(
            queue[0],
            0,
            ParserState::Initial(Sign::Positive),
            Seq::empty(),
            Seq::empty(),
            next_id,
        ) {
            Err(e) => Err(e),
            Ok((elems, subs)) => spec_run_queue(
                queue.drop_first() + subs,
                done.push(elems),
                next_id + subs.len(),
            ),
        }
    }
}

#[via_fn]
proof fn spec_run_queue_decreases(
    queue: Seq<Seq<SpecToken>>,
    done: Seq<Seq<Element>>,
    next_id: int,
) {
    if queue.len() > 0 {
        let r = spec_run_slice(
            queue[0],
            0,
            ParserState::Initial(Sign::Positive),
            Seq::empty(),
            Seq::empty(),
            next_id,
        );
        if r is Ok {
            let subs = r->Ok_0.1;
            lemma_run_slice_total(
                queue[0],
                0,
                ParserState::Initial(Sign::Positive),
                Seq::empty(),
                Seq::empty(),
                next_id,
            );
            lemma_total_len_concat(queue.drop_first(), subs);
            assert(total_len(queue) == queue[0].len() + 1 + total_len(queue.drop_first()));
        }
    }
}

/// The expression table of a token sequence: expression 0 is the whole
/// sequence; parenthesized spans get ids 1, 2, ... in breadth-first
/// discovery order. Or the first grammar error.
pub open spec fn spec_analyze(tokens: Seq<SpecToken>) -> Result<Seq<Seq<Element>>, SpecError> {
    spec_run_queue(seq![tokens], Seq::empty(), 1)
}

/// The views of the rows of an expression table.
pub open spec fn table_view(table: Seq<Vec<Element>>) -> Seq<Seq<Element>> {
    Seq::new(table.len(), |i: int| table[i]@)
}

/// The view of an analyzer result.
pub open spec fn syn_result_view(r: Result<Vec<Vec<Element>>, EvalError>) -> Result<
    Seq<Seq<Element>>,
    SpecError,
> {
    match r {
        Ok(table) => Ok(table_view(table@)),
        Err(e) => Err(e@),
    }
}

/// The token slices named by a sequence of index ranges.
pub open spec fn ranges_view(toks: Seq<SpecToken>, ranges: Seq<(usize, usize)>) -> Seq<
    Seq<SpecToken>,
> {
    Seq::new(ranges.len(), |k: int| toks.subrange(ranges[k].0 as int, ranges[k].1 as int))
}

/// Appending a row appends its view to the table's views.
proof fn lemma_table_view_push(table: Seq<Vec<Element>>, row: Vec<Element>)
    ensures
        table_view(table.push(row)) == table_view(table).push(row@),
{
    assert(table_view(table.push(row)) =~= table_view(table).push(row@));
}

/// The structural analyzer. It owns the token sequence it analyzes.
pub struct SyntaxAnalyzer {
    tokens: Vec<Token>,
}

impl View for SyntaxAnalyzer {
    type V = Seq<SpecToken>;

    closed spec fn view(&self) -> Seq<SpecToken> {
        tokens_view(self.tokens@)
    }
}

impl SyntaxAnalyzer {
    /// An analyzer over the given token sequence.
    pub fn new(tokens: Vec<Token>) -> (r: SyntaxAnalyzer)
        ensures
            r@ == tokens_view(tokens@),
    {
        SyntaxAnalyzer { tokens }
    }

    /// Build the expression table. Returns exactly the table that
    /// [`spec_analyze`] maps the tokens to, or its first grammar error; on
    /// success, every sub-expression reference inside expression `i` points
    /// to a later expression `k > i`.
    #[verifier::loop_isolation(false)]
    #[verifier::rlimit(60)]
    pub fn analyze(&self) -> (r: Result<Vec<Vec<Element>>, EvalError>)
        ensures
            syn_result_view(r) == spec_analyze(self@),
            (r matches Ok(table) ==> forall|ei: int, ej: int|
                0 <= ei < table@.len() && 0 <= ej < table@[ei]@.len() ==> ((
                #[trigger] table@[ei]@[ej]) matches Element::SubExpression(k) ==> k > ei)),
    {
        let n = self.tokens.len();
        let mut queue: Vec<(usize, usize)> = Vec::new();
        queue.push((0, n));
        let mut table: Vec<Vec<Element>> = Vec::new();
        let mut qi: usize = 0;
        proof {
            assert(self@.subrange(0, n as int) =~= self@);
            assert(ranges_view(self@, queue@.skip(0)) =~= seq![self@]);
            assert(table_view(table@) =~= Seq::<Seq<Element>>::empty());
        }
        while qi < queue.len()
            invariant
                qi <= queue@.len(),
                table@.len() == qi,
                n == self@.len(),
                forall|k: int|
                    0 <= k < queue@.len() ==> (#[trigger] queue@[k]).0 <= queue@[k].1 <= n,
                spec_analyze(self@) == spec_run_queue(
                    ranges_view(self@, queue@.skip(qi as int)),
                    table_view(table@),
                    queue@.len() as int,
                ),
                forall|ei: int, ej: int|
                    0 <= ei < table@.len() && 0 <= ej < table@[ei]@.len() ==> ((
                    #[trigger] table@[ei]@[ej]) matches Element::SubExpression(k) ==> k > ei),
            decreases total_len(ranges_view(self@, queue@.skip(qi as int))),
        {
            let pair = queue[qi];
            let a = pair.0;
            let b = pair.1;
            let ghost slice = self@.subrange(a as int, b as int);
            let ghost q0 = queue@;
            let ghost rem0 = ranges_view(self@, q0.skip(qi as int));
            proof {
                assert(rem0[0] == slice);
            }
            let mut state = ParserState::Initial(Sign::Positive);
            let mut elems: Vec<Element> = Vec::new();
            let mut i: usize = a;
            proof {
                assert(queue@.skip(q0.len() as int) =~= Seq::<(usize, usize)>::empty());
                assert(ranges_view(self@, queue@.skip(q0.len() as int)) =~= Seq::<
                    Seq<SpecToken>,
                >::empty());
                assert(elems@ =~= Seq::<Element>::empty());
            }
            while i < b
                invariant
                    a <= i <= b,
                    state is SubExpressionOpen ==> i > a,
                    q0.len() <= queue@.len(),
                    queue@.subrange(0, q0.len() as int) == q0,
                    forall|k: int|
                        0 <= k < queue@.len() ==> (#[trigger] queue@[k]).0 <= queue@[k].1 <= n,
                    spec_run_slice(
                        slice,
                        0,
                        ParserState::Initial(Sign::Positive),
                        Seq::empty(),
                        Seq::empty(),
                        q0.len() as int,
                    ) == spec_run_slice(
                        slice,
                        i - a,
                        state,
                        elems@,
                        ranges_view(self@, queue@.skip(q0.len() as int)),
                        queue@.len() as int,
                    ),
                    forall|ej: int|
                        0 <= ej < elems@.len() ==> ((#[trigger] elems@[ej]) matches
                            Element::SubExpression(k) ==> k > qi),
                decreases b - i,
            {
                let t = &self.tokens[i];
                proof {
                    assert(slice[i - a] == self.tokens@[i as int]@);
                }
                match state {
                    ParserState::Initial(sign) => {
                        match t {
                            Token::Number(lexeme) => {
                                match parse_number(lexeme) {
                                    Some(v) => {
                                        let so = match sign {
                                            Sign::Positive => Operator::Add,
                                            Sign::Negative => Operator::Sub,
                                        };
                                        let ghost elems0 = elems@;
                                        elems.push(Element::Number(0));
                                        elems.push(Element::Operator(so));
                                        elems.push(Element::Number(v));
                                        state = ParserState::Operand;
                                        i = i + 1;
                                        proof {
                                            assert(elems@ =~= elems0 + seq![
                                                Element::Number(0),
                                                Element::Operator(sign_operator(sign)),
                                                Element::Number(v),
                                            ]);
                                        }
                                    },
                                    None => {
                                        let lex = copy_range(lexeme, 0, lexeme.len());
                                        proof {
                                            assert(lex@ =~= lexeme@);
                                            assert(spec_analyze(self@) == Err::<
                                                Seq<Seq<Element>>,
                                                SpecError,
                                            >(SpecError::InvalidNumber { lexeme: lexeme@ }));
                                        }
                                        return Err(EvalError::InvalidNumber { lexeme: lex });
                                    },
                                }
                            },
                            Token::Operator(lexeme) => {
                                match Operator::from_str(lexeme.as_slice()) {
                                    Some(Operator::Add) => {
                                        state = ParserState::Initial(sign);
                                        i = i + 1;
                                    },
                                    Some(Operator::Sub) => {
                                        state = ParserState::Initial(Sign::Negative);
                                        i = i + 1;
                                    },
                                    Some(Operator::Not) => {
                                        let so = match sign {
                                            Sign::Positive => Operator::Add,
                                            Sign::Negative => Operator::Sub,
                                        };
                                        let ghost elems0 = elems@;
                                        elems.push(Element::Number(0));
                                        elems.push(Element::Operator(so));
                                        elems.push(Element::Operator(Operator::Not));
                                        state = ParserState::UnaryOperator;
                                        i = i + 1;
                                        proof {
                                            assert(elems@ =~= elems0 + seq![
                                                Element::Number(0),
                                                Element::Operator(sign_operator(sign)),
                                                Element::Operator(Operator::Not),
                                            ]);
                                        }
                                    },
                                    _ => {
                                        proof {
                                            assert(spec_analyze(self@) == Err::<
                                                Seq<Seq<Element>>,
                                                SpecError,
                                            >(SpecError::UnexpectedOperator {
                                                position: i - a,
                                            }));
                                        }
                                        return Err(
                                            EvalError::UnexpectedOperator { position: i - a },
                                        );
                                    },
                                }
                            },
                            Token::ParenthesisOpen => {
                                let so = match sign {
                                    Sign::Positive => Operator::Add,
                                    Sign::Negative => Operator::Sub,
                                };
                                let ghost elems0 = elems@;
                                elems.push(Element::Number(0));
                                elems.push(Element::Operator(so));
                                state = ParserState::SubExpressionOpen;
                                i = i + 1;
                                proof {
                                    assert(elems@ =~= elems0 + seq![
                                        Element::Number(0),
                                        Element::Operator(sign_operator(sign)),
                                    ]);
                                }
                            },
                            Token::ParenthesisClose => {
                                proof {
                                    assert(spec_analyze(self@) == Err::<
                                        Seq<Seq<Element>>,
                                        SpecError,
                                    >(SpecError::UnexpectedToken { position: i - a }));
                                }
                                return Err(EvalError::UnexpectedToken { position: i - a });
                            },
                        }
                    },
                    ParserState::Operand => {
                        match t {
                            Token::Number(_) => {
                                proof {
                                    assert(spec_analyze(self@) == Err::<
                                        Seq<Seq<Element>>,
                                        SpecError,
                                    >(SpecError::TwoNumbersInARow));
                                }
                                return Err(EvalError::TwoNumbersInARow);
                            },
                            Token::Operator(lexeme) => {
                                match Operator::from_str(lexeme.as_slice()) {
                                    Some(op) => {
                                        elems.push(Element::Operator(op));
                                        state = ParserState::BinaryOperator;
                                        i = i + 1;
                                    },
                                    None => {
                                        let lex = copy_range(lexeme, 0, lexeme.len());
                                        proof {
                                            assert(lex@ =~= lexeme@);
                                            assert(spec_analyze(self@) == Err::<
                                                Seq<Seq<Element>>,
                                                SpecError,
                                            >(SpecError::UnrecognizedOperator {
                                                lexeme: lexeme@,
                                            }));
                                        }
                                        return Err(
                                            EvalError::UnrecognizedOperator { lexeme: lex },
                                        );
                                    },
                                }
                            },
                            Token::ParenthesisOpen => {
                                elems.push(Element::Operator(Operator::Mul));
                                state = ParserState::SubExpressionOpen;
                                i = i + 1;
                            },
                            Token::ParenthesisClose => {
                                proof {
                                    assert(spec_analyze(self@) == Err::<
                                        Seq<Seq<Element>>,
                                        SpecError,
                                    >(SpecError::UnexpectedParenthesisClose {
                                        position: i - a,
                                    }));
                                }
                                return Err(
                                    EvalError::UnexpectedParenthesisClose { position: i - a },
                                );
                            },
                        }
                    },
                    ParserState::UnaryOperator | ParserState::BinaryOperator => {
                        match t {
                            Token::Number(lexeme) => {
                                match parse_number(lexeme) {
                                    Some(v) => {
                                        elems.push(Element::Number(v));
                                        state = ParserState::Operand;
                                        i = i + 1;
                                    },
                                    None => {
                                        let lex = copy_range(lexeme, 0, lexeme.len());
                                        proof {
                                            assert(lex@ =~= lexeme@);
                                            assert(spec_analyze(self@) == Err::<
                                                Seq<Seq<Element>>,
                                                SpecError,
                                            >(SpecError::InvalidNumber { lexeme: lexeme@ }));
                                        }
                                        return Err(EvalError::InvalidNumber { lexeme: lex });
                                    },
                                }
                            },
                            Token::Operator(_) => {
                                proof {
                                    assert(spec_analyze(self@) == Err::<
                                        Seq<Seq<Element>>,
                                        SpecError,
                                    >(SpecError::TwoOperatorsInARow { position: i - a }));
                                }
                                return Err(EvalError::TwoOperatorsInARow { position: i - a });
                            },
                            Token::ParenthesisOpen => {
                                state = ParserState::SubExpressionOpen;
                                i = i + 1;
                            },
                            Token::ParenthesisClose => {
                                proof {
                                    assert(spec_analyze(self@) == Err::<
                                        Seq<Seq<Element>>,
                                        SpecError,
                                    >(SpecError::UnexpectedParenthesisClose {
                                        position: i - a,
                                    }));
                                }
                                return Err(
                                    EvalError::UnexpectedParenthesisClose { position: i - a },
                                );
                            },
                        }
                    },
                    ParserState::SubExpressionOpen => {
                        let start = i;
                        let mut depth: usize = 1;
                        let mut found = false;
                        let mut j: usize = 0;
                        while i < b && !found
                            invariant
                                a < start <= i <= b,
                                1 <= depth,
                                depth <= 1 + (i - start),
                                !found ==> spec_scan_close(slice, start - a, 1)
                                    == spec_scan_close(slice, i - a, depth as int),
                                found ==> spec_scan_close(slice, start - a, 1) == Ok::<int, int>(
                                    j - a,
                                ) && start <= j < b && i == j,
                            decreases b - i + (if found { 0int } else { 1int }),
                        {
                            let tk = &self.tokens[i];
                            proof {
                                assert(slice[i - a] == self.tokens@[i as int]@);
                            }
                            match tk {
                                Token::ParenthesisClose => {
                                    if depth == 1 {
                                        found = true;
                                        j = i;
                                    } else {
                                        depth = depth - 1;
                                        i = i + 1;
                                    }
                                },
                                Token::ParenthesisOpen => {
                                    depth = depth + 1;
                                    i = i + 1;
                                },
                                _ => {
                                    i = i + 1;
                                },
                            }
                        }
                        if found {
                            let id = queue.len();
                            let ghost subs0 = ranges_view(self@, queue@.skip(q0.len() as int));
                            let ghost elems0 = elems@;
                            elems.push(Element::SubExpression(id));
                            queue.push((start, j));
                            state = ParserState::Operand;
                            i = j + 1;
                            proof {
                                assert(queue@.subrange(0, q0.len() as int) =~= q0);
                                assert(slice.subrange(start - a, j - a) =~= self@.subrange(
                                    start as int,
                                    j as int,
                                ));
                                assert(ranges_view(self@, queue@.skip(q0.len() as int)) =~= subs0
                                    .push(slice.subrange(start - a, j - a)));
                                assert(elems@ =~= elems0.push(
                                    Element::SubExpression(id as usize),
                                ));
                                assert(spec_run_slice(
                                    slice,
                                    start - a,
                                    ParserState::SubExpressionOpen,
                                    elems0,
                                    subs0,
                                    id as int,
                                ) == spec_run_slice(
                                    slice,
                                    j - a + 1,
                                    ParserState::Operand,
                                    elems0.push(Element::SubExpression(id as usize)),
                                    subs0.push(slice.subrange(start - a, j - a)),
                                    id as int + 1,
                                ));
                            }
                        } else {
                            if depth != 1 {
                                proof {
                                    assert(spec_scan_close(slice, start - a, 1) == Err::<
                                        int,
                                        int,
                                    >(depth as int));
                                    assert(spec_analyze(self@) == Err::<
                                        Seq<Seq<Element>>,
                                        SpecError,
                                    >(SpecError::UnmatchedParenthesis));
                                }
                                return Err(EvalError::UnmatchedParenthesis);
                            } else {
                                proof {
                                    assert(spec_scan_close(slice, start - a, 1) == Err::<
                                        int,
                                        int,
                                    >(1));
                                    assert(spec_analyze(self@) == Err::<
                                        Seq<Seq<Element>>,
                                        SpecError,
                                    >(SpecError::UnexpectedEndOfExpression));
                                }
                                return Err(EvalError::UnexpectedEndOfExpression);
                            }
                        }
                    },
                }
            }
            if matches!(state, ParserState::Operand) {
                let ghost subsv = ranges_view(self@, queue@.skip(q0.len() as int));
                let ghost row = elems@;
                let ghost tv0 = table_view(table@);
                proof {
                    assert(spec_run_slice(
                        slice,
                        0,
                        ParserState::Initial(Sign::Positive),
                        Seq::empty(),
                        Seq::empty(),
                        q0.len() as int,
                    ) == Ok::<(Seq<Element>, Seq<Seq<SpecToken>>), SpecError>((row, subsv)));
                    assert(spec_run_queue(rem0, tv0, q0.len() as int) == spec_run_queue(
                        rem0.drop_first() + subsv,
                        tv0.push(row),
                        q0.len() + subsv.len() as int,
                    ));
                    assert forall|m: int| 0 <= m < q0.len() implies queue@[m] == q0[m] by {
                        assert(queue@.subrange(0, q0.len() as int)[m] == queue@[m]);
                    }
                    assert(rem0.drop_first() + subsv =~= ranges_view(
                        self@,
                        queue@.skip(qi + 1),
                    ));
                    assert(q0.len() + subsv.len() as int == queue@.len());
                    lemma_table_view_push(table@, elems);
                    lemma_run_slice_total(
                        slice,
                        0,
                        ParserState::Initial(Sign::Positive),
                        Seq::empty(),
                        Seq::empty(),
                        q0.len() as int,
                    );
                    assert(total_len(Seq::<Seq<SpecToken>>::empty()) == 0);
                    lemma_total_len_concat(rem0.drop_first(), subsv);
                    assert(total_len(rem0) == rem0[0].len() + 1 + total_len(rem0.drop_first()));
                }
                table.push(elems);
                qi = qi + 1;
            } else {
                proof {
                    assert(spec_run_slice(
                        slice,
                        b - a,
                        state,
                        elems@,
                        ranges_view(self@, queue@.skip(q0.len() as int)),
                        queue@.len() as int,
                    ) == Err::<(Seq<Element>, Seq<Seq<SpecToken>>), SpecError>(
                        SpecError::UnexpectedEndOfExpression,
                    ));
                    assert(spec_analyze(self@) == Err::<Seq<Seq<Element>>, SpecError>(
                        SpecError::UnexpectedEndOfExpression,
                    ));
                }
                return Err(EvalError::UnexpectedEndOfExpression);
            }
        }
        proof {
            assert(ranges_view(self@, queue@.skip(qi as int)) =~= Seq::<Seq<SpecToken>>::empty());
        }
        Ok(table)
    }
}


} // verus!
