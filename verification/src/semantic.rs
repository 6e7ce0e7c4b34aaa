//! The evaluator: precedence-tiered in-place reduction of the expression
//! table.
//!
//! Expressions are processed from the highest id down to 0, so that every
//! sub-expression reference resolves to a value recorded earlier. Inside
//! one expression, every operator occurrence is bucketed by precedence
//! tier; tiers run tightest-binding first and, within a tier, operators
//! run left to right. Each execution shrinks the buffer, and every pending
//! position beyond the executed operator is shifted down by the number of
//! elements removed, so the recorded positions stay valid throughout. An
//! expression that fails to reduce to a single number is reported at once
//! as unresolved, with its id; division or modulo by zero stops the whole
//! evaluation.

use vstd::prelude::*;

use crate::element::{spec_tier, Element, Operator as OperatorType};
use crate::error::{EvalError, SpecError};
use crate::operator::{spec_execute, OpOutcome, Operator};
use crate::syntax::table_view;

verus! {

/// The pending operators of tier `t` at positions `i` and beyond, in
/// left-to-right order.
pub open spec fn spec_tier_ops(elems: Seq<Element>, t: u32, i: int) -> Seq<(int, OperatorType)>
    decreases elems.len() - i,
{
    if i < 0 || i >= elems.len() {
        Seq::empty()
    } else {
        let rest = spec_tier_ops(elems, t, i + 1);
        match elems[i] {
            Element::Operator(op) => {
                if spec_tier(op) == t {
                    seq![(i, op)] + rest
                } else {
                    rest
                }
            },
            _ => rest,
        }
    }
}

/// The pending operators of all tiers up to `t`, tier by tier.
pub open spec fn spec_collect_upto(elems: Seq<Element>, t: int) -> Seq<(int, OperatorType)>
    decreases t,
{
    if t <= 0 {
        Seq::empty()
    } else {
        spec_collect_upto(elems, t - 1) + spec_tier_ops(elems, t as u32, 0)
    }
}

/// Every pending operator of the buffer, ordered by tier first and
/// position second: the order in which they execute.
pub open spec fn spec_collect_ops(elems: Seq<Element>) -> Seq<(int, OperatorType)> {
    spec_collect_upto(elems, 7)
}

/// Shift every recorded position beyond `p` down by `d`.
pub open spec fn spec_shift_ops(ops: Seq<(int, OperatorType)>, p: int, d: int) -> Seq<
    (int, OperatorType),
> {
    ops.map_values(
        |q: (int, OperatorType)|
            if q.0 > p {
                (q.0 - d, q.1)
            } else {
                q
            },
    )
}

/// Run the pending operators over the buffer in order. A skipped operator
/// leaves the buffer unchanged; an executed one shrinks it and shifts the
/// positions still pending; division or modulo by zero stops everything.
pub open spec fn spec_run_ops(
    elems: Seq<Element>,
    ops: Seq<(int, OperatorType)>,
    values: Seq<Option<i32>>,
) -> Result<Seq<Element>, SpecError>
    decreases ops.len(),
{
    if ops.len() == 0 {
        Ok(elems)
    } else {
        let p = ops[0].0;
        let op = ops[0].1;
        match spec_execute(p, op, elems, values) {
            OpOutcome::Skipped => spec_run_ops(elems, ops.drop_first(), values),
            OpOutcome::DivisionByZero => Err(SpecError::ArithmeticError),
            OpOutcome::Done(after, d) => spec_run_ops(
                after,
                spec_shift_ops(ops.drop_first(), p, d),
                values,
            ),
        }
    }
}

/// Reduce the expressions with ids `i` down to 0, recording each one's
/// value, and return the recorded values; or the first error: division or
/// modulo by zero, or the id of an expression that did not reduce to a
/// single number.
pub open spec fn spec_eval_from(
    table: Seq<Seq<Element>>,
    i: int,
    values: Seq<Option<i32>>,
) -> Result<Seq<Option<i32>>, SpecError>
    decreases i + 1,
{
    if i < 0 {
        Ok(values)
    } else {
        match spec_run_ops(table[i], spec_collect_ops(table[i]), values) {
            Err(e) => Err(e),
            Ok(reduced) => {
                if reduced.len() == 1 {
                    match reduced[0] {
                        Element::Number(v) => spec_eval_from(
                            table,
                            i - 1,
                            values.update(i, Some(v)),
                        ),
                        _ => Err(SpecError::UnresolvedExpression { expression: i }),
                    }
                } else {
                    Err(SpecError::UnresolvedExpression { expression: i })
                }
            },
        }
    }
}

/// The value of expression 0 of a table: every expression reduced from the
/// highest id down, references resolving to recorded values.
pub open spec fn spec_calculate(table: Seq<Seq<Element>>) -> Result<i32, SpecError> {
    if table.len() == 0 {
        Err(SpecError::UnresolvedExpression { expression: 0 })
    } else {
        match spec_eval_from(table, table.len() - 1, Seq::new(table.len(), |k: int| None)) {
            Err(e) => Err(e),
            Ok(values) => match values[0] {
                Some(v) => Ok(v),
                None => Err(SpecError::UnresolvedExpression { expression: 0 }),
            },
        }
    }
}

/// The view of an evaluator result.
pub open spec fn calc_result_view(r: Result<i32, EvalError>) -> Result<i32, SpecError> {
    match r {
        Ok(v) => Ok(v),
        Err(e) => Err(e@),
    }
}

/// The views of a sequence of pending operators.
pub open spec fn pending_view(pending: Seq<Operator>) -> Seq<(int, OperatorType)> {
    Seq::new(pending.len(), |k: int| pending[k]@)
}

/// Copy an element buffer into a fresh vector.
fn copy_elements(v: &Vec<Element>) -> (r: Vec<Element>)
    ensures
        r@ == v@,
{
    let mut r: Vec<Element> = Vec::new();
    let mut k: usize = 0;
    while k < v.len()
        invariant
            k <= v@.len(),
            r@ == v@.subrange(0, k as int),
        decreases v@.len() - k,
    {
        r.push(v[k]);
        k += 1;
        proof {
            assert(r@ =~= v@.subrange(0, k as int));
        }
    }
    proof {
        assert(v@.subrange(0, v@.len() as int) =~= v@);
    }
    r
}

/// The evaluator. It owns the expression table it reduces.
pub struct SemanticAnalyzer {
    elements: Vec<Vec<Element>>,
}

impl View for SemanticAnalyzer {
    type V = Seq<Seq<Element>>;

    closed spec fn view(&self) -> Seq<Seq<Element>> {
        table_view(self.elements@)
    }
}

impl SemanticAnalyzer {
    /// An evaluator over the given expression table.
    pub fn new(elements: Vec<Vec<Element>>) -> (r: SemanticAnalyzer)
        ensures
            r@ == table_view(elements@),
    {
        SemanticAnalyzer { elements }
    }

    /// Evaluate the table to the value of expression 0. Returns exactly
    /// what [`spec_calculate`] maps the table to, and leaves the table as
    /// it was, so evaluating again returns the same value.
    #[verifier::loop_isolation(false)]
    #[verifier::rlimit(60)]
    pub fn calculate(&mut self) -> (r: Result<i32, EvalError>)
        ensures
            final(self)@ == old(self)@,
            calc_result_view(r) == spec_calculate(old(self)@),
    {
        let ghost table0 = self@;
        let len = self.elements.len();
        if len == 0 {
            return Err(EvalError::UnresolvedExpression { expression: 0 });
        }
        let mut sub_expr_values: Vec<Option<i32>> = Vec::new();
        let mut z: usize = 0;
        while z < len
            invariant
                z <= len,
                sub_expr_values@.len() == z,
                forall|k: int| 0 <= k < z ==> sub_expr_values@[k] is None,
            decreases len - z,
        {
            sub_expr_values.push(None);
            z += 1;
        }
        proof {
            assert(sub_expr_values@ =~= Seq::new(table0.len(), |k: int| None::<i32>));
        }
        let mut idx = len;
        while idx > 0
            invariant
                idx <= len,
                len == table0.len(),
                self@ == table0,
                sub_expr_values@.len() == len,
                spec_eval_from(table0, len - 1, Seq::new(table0.len(), |k: int| None))
                    == spec_eval_from(table0, idx - 1, sub_expr_values@),
            decreases idx,
        {
            let i = idx - 1;
            let mut row = copy_elements(&self.elements[i]);
            proof {
                assert(row@ == table0[i as int]);
            }
            let ghost row0 = row@;
            let mut pending: Vec<Operator> = Vec::new();
            proof {
                assert(pending_view(pending@) =~= Seq::<(int, OperatorType)>::empty());
            }
            let mut t: u32 = 1;
            while t <= 7
                invariant
                    1 <= t <= 8,
                    row@ == row0,
                    pending_view(pending@) == spec_collect_upto(row0, t - 1),
                decreases 8 - t,
            {
                let mut e: usize = 0;
                while e < row.len()
                    invariant
                        e <= row@.len(),
                        row@ == row0,
                        1 <= t <= 7,
                        pending_view(pending@) + spec_tier_ops(row0, t, e as int)
                            == spec_collect_upto(row0, t as int),
                    decreases row@.len() - e,
                {
                    match row[e] {
                        Element::Operator(op) => {
                            if op.tier() == t {
                                let ghost pv = pending_view(pending@);
                                pending.push(Operator::new(e, op));
                                proof {
                                    assert(pending_view(pending@) =~= pv.push((e as int, op)));
                                    assert(pv.push((e as int, op)) + spec_tier_ops(
                                        row0,
                                        t,
                                        e as int + 1,
                                    ) =~= pv + (seq![(e as int, op)] + spec_tier_ops(
                                        row0,
                                        t,
                                        e as int + 1,
                                    )));
                                }
                            }
                        },
                        _ => {},
                    }
                    e += 1;
                }
                t += 1;
            }
            proof {
                assert(pending_view(pending@) == spec_collect_ops(row0));
            }
            let mut jj: usize = 0;
            proof {
                assert(pending_view(pending@.skip(0)) =~= pending_view(pending@));
            }
            while jj < pending.len()
                invariant
                    jj <= pending@.len(),
                    sub_expr_values@.len() == len,
                    spec_run_ops(row0, spec_collect_ops(row0), sub_expr_values@)
                        == spec_run_ops(
                        row@,
                        pending_view(pending@.skip(jj as int)),
                        sub_expr_values@,
                    ),
                decreases pending@.len() - jj,
            {
                let op = pending[jj];
                let ghost pend0 = pending@;
                let ghost ops_rest = pending_view(pend0.skip(jj as int));
                let ghost row_before = row@;
                proof {
                    assert(ops_rest[0] == op@);
                    assert(ops_rest.drop_first() =~= pending_view(pend0.skip(jj as int + 1)));
                }
                let res = op.execute(&mut row, &sub_expr_values);
                match res {
                    Err(_) => {
                        proof {
                            assert(spec_run_ops(row0, spec_collect_ops(row0), sub_expr_values@)
                                == Err::<Seq<Element>, SpecError>(SpecError::ArithmeticError));
                            assert(spec_calculate(table0) == Err::<i32, SpecError>(
                                SpecError::ArithmeticError,
                            ));
                        }
                        return Err(EvalError::ArithmeticError);
                    },
                    Ok(Some(d)) => {
                        let p = op.get_index();
                        proof {
                            assert(spec_execute(op@.0, op@.1, row_before, sub_expr_values@)
                                matches OpOutcome::Done(after, dd) && after == row@ && dd
                                == d as int);
                        }
                        let mut k = jj + 1;
                        while k < pending.len()
                            invariant
                                jj + 1 <= k <= pending@.len(),
                                pending@.len() == pend0.len(),
                                forall|m: int|
                                    0 <= m < jj + 1 ==> pending@[m] == pend0[m],
                                forall|m: int|
                                    jj + 1 <= m < k ==> (#[trigger] pending@[m])@ == (
                                    if pend0[m]@.0 > p {
                                        (pend0[m]@.0 - d, pend0[m]@.1)
                                    } else {
                                        pend0[m]@
                                    }),
                                forall|m: int|
                                    k <= m < pending@.len() ==> pending@[m] == pend0[m],
                            decreases pending@.len() - k,
                        {
                            let mut o = pending[k];
                            if o.get_index() > p {
                                let ni = o.get_index() - d;
                                o.set_index(ni);
                                pending[k] = o;
                            }
                            k += 1;
                        }
                        jj += 1;
                        proof {
                            assert(pending_view(pending@.skip(jj as int)) =~= spec_shift_ops(
                                pending_view(pend0.skip(jj as int)),
                                p as int,
                                d as int,
                            ));
                        }
                    },
                    Ok(None) => {
                        jj += 1;
                    },
                }
            }
            proof {
                assert(pending_view(pending@.skip(pending@.len() as int)) =~= Seq::<
                    (int, OperatorType),
                >::empty());
                assert(spec_run_ops(row0, spec_collect_ops(row0), sub_expr_values@) == Ok::<
                    Seq<Element>,
                    SpecError,
                >(row@));
            }
            if row.len() == 1 {
                match row[0] {
                    Element::Number(v) => {
                        let ghost vals0 = sub_expr_values@;
                        sub_expr_values[i] = Some(v);
                        idx = i;
                        proof {
                            assert(sub_expr_values@ == vals0.update(i as int, Some(v)));
                        }
                    },
                    _ => {
                        proof {
                            assert(spec_calculate(table0) == Err::<i32, SpecError>(
                                SpecError::UnresolvedExpression { expression: i as int },
                            ));
                        }
                        return Err(EvalError::UnresolvedExpression { expression: i });
                    },
                }
            } else {
                proof {
                    assert(spec_calculate(table0) == Err::<i32, SpecError>(
                        SpecError::UnresolvedExpression { expression: i as int },
                    ));
                }
                return Err(EvalError::UnresolvedExpression { expression: i });
            }
        }
        match sub_expr_values[0] {
            Some(v) => Ok(v),
            None => Err(EvalError::UnresolvedExpression { expression: 0 }),
        }
    }
}

} // verus!
