//! A pending operator: one operator occurrence awaiting execution inside a
//! flat expression buffer, together with the in-place reduction it performs.
//!
//! Arithmetic uses two's-complement wrapping semantics on 32 bits: `lsl`
//! and `lsr` shift the unsigned reinterpretation of the left operand, `asl`
//! and `asr` shift the signed value itself, and every shift count is masked
//! to its low five bits. Division and modulo truncate toward zero; dividing
//! the minimum value by minus one wraps. Division or modulo by zero is an
//! arithmetic error.

use vstd::prelude::*;

use crate::element::{Element, Operator as OperatorType};
use crate::error::EvalError;

verus! {

/// The unsigned reinterpretation of a 32-bit signed value.
pub open spec fn to_unsigned(v: i32) -> u32 {
    if v >= 0 {
        v as u32
    } else {
        (v + 0x1_0000_0000) as u32
    }
}

/// The signed reinterpretation of a 32-bit unsigned value.
pub open spec fn to_signed(v: u32) -> i32 {
    if v <= 0x7fff_ffff {
        v as i32
    } else {
        (v - 0x1_0000_0000) as i32
    }
}

/// The value a binary operator computes from its two operands. For `Div`
/// and `Mod` the right operand must not be zero (that case is reported as
/// an error before any value is computed); `Not` does not use its left
/// operand.
pub open spec fn spec_apply(op: OperatorType, l: i32, r: i32) -> i32 {
    match op {
        OperatorType::Not => !r,
        OperatorType::Lsl => to_signed(
            vstd::wrapping::u32_specs::wrapping_shl(to_unsigned(l), (r & 31) as u32),
        ),
        OperatorType::Lsr => to_signed(
            vstd::wrapping::u32_specs::wrapping_shr(to_unsigned(l), (r & 31) as u32),
        ),
        OperatorType::Asl => vstd::wrapping::i32_specs::wrapping_shl(l, (r & 31) as u32),
        OperatorType::Asr => vstd::wrapping::i32_specs::wrapping_shr(l, (r & 31) as u32),
        OperatorType::Mul => vstd::wrapping::i32_specs::wrapping_mul(l, r),
        OperatorType::Div => {
            if r == 0 {
                0
            } else {
                match l.checked_div(r) {
                    Some(v) => v,
                    None => i32::MIN,
                }
            }
        },
        OperatorType::Mod => {
            if r == 0 {
                0
            } else {
                match l.checked_rem(r) {
                    Some(v) => v,
                    None => 0,
                }
            }
        },
        OperatorType::Add => vstd::wrapping::i32_specs::wrapping_add(l, r),
        OperatorType::Sub => vstd::wrapping::i32_specs::wrapping_sub(l, r),
        OperatorType::And => l & r,
        OperatorType::Xor => l ^ r,
        OperatorType::Or => l | r,
    }
}

/// The value an element stands for: a number itself, or the recorded value
/// of the expression a reference points to. Operators, references to
/// expressions without a recorded value, and references out of range stand
/// for nothing.
pub open spec fn spec_resolve(e: Element, values: Seq<Option<i32>>) -> Option<i32> {
    match e {
        Element::Number(v) => Some(v),
        Element::SubExpression(k) => {
            if k < values.len() {
                values[k as int]
            } else {
                None
            }
        },
        Element::Operator(_) => None,
    }
}

/// What executing one operator at position `p` does to an element buffer.
pub enum OpOutcome {
    /// An operand was missing or unresolved: the buffer is unchanged and
    /// the operator stays in place.
    Skipped,
    /// Division or modulo by zero: the reduction stops.
    DivisionByZero,
    /// The buffer after the reduction, and how many elements it lost.
    Done(Seq<Element>, int),
}

/// Execute the operator `op` recorded at position `p`. `Not` consumes the
/// element to its right; a binary operator consumes itself and its right
/// neighbour, leaving its result where its left neighbour stood.
pub open spec fn spec_execute(
    p: int,
    op: OperatorType,
    elems: Seq<Element>,
    values: Seq<Option<i32>>,
) -> OpOutcome {
    if op is Not {
        if 0 <= p && p + 1 < elems.len() {
            match spec_resolve(elems[p + 1], values) {
                Some(v) => OpOutcome::Done(
                    elems.update(p + 1, Element::Number(!v)).remove(p),
                    1,
                ),
                None => OpOutcome::Skipped,
            }
        } else {
            OpOutcome::Skipped
        }
    } else {
        if 1 <= p && p + 1 < elems.len() {
            match (spec_resolve(elems[p - 1], values), spec_resolve(elems[p + 1], values)) {
                (Some(l), Some(r)) => {
                    if (op is Div || op is Mod) && r == 0 {
                        OpOutcome::DivisionByZero
                    } else {
                        OpOutcome::Done(
                            elems.update(p - 1, Element::Number(spec_apply(op, l, r))).remove(
                                p,
                            ).remove(p),
                            2,
                        )
                    }
                },
                _ => OpOutcome::Skipped,
            }
        } else {
            OpOutcome::Skipped
        }
    }
}

/// The unsigned reinterpretation of a signed value.
fn to_unsigned_exec(v: i32) -> (r: u32)
    ensures
        r == to_unsigned(v),
{
    if v >= 0 {
        v as u32
    } else {
        ((v as i64) + 0x1_0000_0000) as u32
    }
}

/// The signed reinterpretation of an unsigned value.
fn to_signed_exec(v: u32) -> (r: i32)
    ensures
        r == to_signed(v),
{
    if v <= 0x7fff_ffff {
        v as i32
    } else {
        ((v as i64) - 0x1_0000_0000) as i32
    }
}

/// The low five bits of a shift count, as an unsigned shift amount.
fn shift_amount(r: i32) -> (sh: u32)
    ensures
        sh == (r & 31) as u32,
        sh < 32,
{
    proof {
        assert(0 <= (r & 31) < 32) by (bit_vector);
    }
    (r & 31) as u32
}

/// The value a binary operator computes from its two operands.
fn apply_operator(op: OperatorType, l: i32, r: i32) -> (v: i32)
    requires
        (op is Div || op is Mod) ==> r != 0,
    ensures
        v == spec_apply(op, l, r),
{
    match op {
        OperatorType::Not => !r,
        OperatorType::Lsl => to_signed_exec(to_unsigned_exec(l).wrapping_shl(shift_amount(r))),
        OperatorType::Lsr => to_signed_exec(to_unsigned_exec(l).wrapping_shr(shift_amount(r))),
        OperatorType::Asl => l.wrapping_shl(shift_amount(r)),
        OperatorType::Asr => l.wrapping_shr(shift_amount(r)),
        OperatorType::Mul => l.wrapping_mul(r),
        OperatorType::Div => {
            match l.checked_div(r) {
                Some(v) => v,
                None => i32::MIN,
            }
        },
        OperatorType::Mod => {
            match l.checked_rem(r) {
                Some(v) => v,
                None => 0,
            }
        },
        OperatorType::Add => l.wrapping_add(r),
        OperatorType::Sub => l.wrapping_sub(r),
        OperatorType::And => l & r,
        OperatorType::Xor => l ^ r,
        OperatorType::Or => l | r,
    }
}

/// One operator occurrence awaiting execution: its position inside the
/// expression buffer it belongs to, and which operator it is. The position
/// is kept up to date as executed operators shrink the buffer.
#[derive(Debug, Clone, Copy)]
pub struct Operator {
    index: usize,
    op_type: OperatorType,
}

impl View for Operator {
    type V = (int, OperatorType);

    closed spec fn view(&self) -> (int, OperatorType) {
        (self.index as int, self.op_type)
    }
}

impl Operator {
    /// A pending operator of kind `op_type` recorded at position `index`.
    pub fn new(index: usize, op_type: OperatorType) -> (r: Operator)
        ensures
            r@ == (index as int, op_type),
    {
        Operator { index, op_type }
    }

    /// The recorded position of this operator.
    pub fn get_index(&self) -> (r: usize)
        ensures
            r == self@.0,
    {
        self.index
    }

    /// Replace the recorded position of this operator.
    pub fn set_index(&mut self, index: usize)
        ensures
            final(self)@ == (index as int, old(self)@.1),
    {
        self.index = index;
    }

    /// The value standing left of this operator, if it resolves.
    fn get_left_operand(
        &self,
        elements: &Vec<Element>,
        subexpression_values: &Vec<Option<i32>>,
    ) -> (r: Option<i32>)
        requires
            1 <= self@.0 < elements@.len(),
        ensures
            r == spec_resolve(elements@[self@.0 - 1], subexpression_values@),
    {
        proof {
            assert(self@.0 == self.index as int);
        }
        match elements[self.index - 1] {
            Element::Number(num) => Some(num),
            Element::SubExpression(k) => {
                if k < subexpression_values.len() {
                    subexpression_values[k]
                } else {
                    None
                }
            },
            Element::Operator(_) => None,
        }
    }

    /// The value standing right of this operator, if it resolves.
    fn get_right_operand(
        &self,
        elements: &Vec<Element>,
        subexpression_values: &Vec<Option<i32>>,
    ) -> (r: Option<i32>)
        requires
            self@.0 + 1 < elements@.len(),
        ensures
            r == spec_resolve(elements@[self@.0 + 1], subexpression_values@),
    {
        proof {
            vstd::std_specs::vec::axiom_spec_len(elements);
            assert(self@.0 == self.index as int);
        }
        match elements[self.index + 1] {
            Element::Number(num) => Some(num),
            Element::SubExpression(k) => {
                if k < subexpression_values.len() {
                    subexpression_values[k]
                } else {
                    None
                }
            },
            Element::Operator(_) => None,
        }
    }

    /// Execute this operator on the buffer, in place. Returns how many
    /// elements the buffer lost, `None` when the operator was skipped
    /// because an operand was missing or unresolved, or the arithmetic
    /// error for division or modulo by zero; exactly as [`spec_execute`]
    /// describes.
    pub fn execute(
        &self,
        elements: &mut Vec<Element>,
        subexpression_values: &Vec<Option<i32>>,
    ) -> (r: Result<Option<usize>, EvalError>)
        ensures
            match spec_execute(self@.0, self@.1, old(elements)@, subexpression_values@) {
                OpOutcome::Skipped => r == Ok::<Option<usize>, EvalError>(None::<usize>)
                    && final(elements)@ == old(elements)@,
                OpOutcome::DivisionByZero => r == Err::<Option<usize>, EvalError>(
                    EvalError::ArithmeticError,
                ) && final(elements)@ == old(elements)@,
                OpOutcome::Done(after, d) => r == Ok::<Option<usize>, EvalError>(
                    Some(d as usize),
                ) && final(elements)@ == after,
            },
    {
        let p = self.index;
        if matches!(self.op_type, OperatorType::Not) {
            if p >= elements.len() || p + 1 >= elements.len() {
                return Ok(None);
            }
            match self.get_right_operand(elements, subexpression_values) {
                Some(v) => {
                    elements[p + 1] = Element::Number(!v);
                    elements.remove(p);
                    Ok(Some(1))
                },
                None => Ok(None),
            }
        } else {
            if p < 1 || p >= elements.len() || p + 1 >= elements.len() {
                return Ok(None);
            }
            let left = match self.get_left_operand(elements, subexpression_values) {
                Some(l) => l,
                None => {
                    return Ok(None);
                },
            };
            let right = match self.get_right_operand(elements, subexpression_values) {
                Some(r) => r,
                None => {
                    return Ok(None);
                },
            };
            if matches!(self.op_type, OperatorType::Div | OperatorType::Mod) && right == 0 {
                return Err(EvalError::ArithmeticError);
            }
            let value = apply_operator(self.op_type, left, right);
            elements[p - 1] = Element::Number(value);
            elements.remove(p);
            elements.remove(p);
            Ok(Some(2))
        }
    }
}

} // verus!
