//! Expression elements: the unit of the flat expression buffer.

use vstd::prelude::*;

verus! {

/// One entry of a flat expression buffer: a literal number, a reference to
/// another expression of the table (by id), or an operator.
#[derive(Debug, Clone, Copy, PartialEq, Eq, Structural)]
pub enum Element {
    Number(i32),
    SubExpression(usize),
    Operator(Operator),
}

/// The closed set of operators, named after their lexemes.
#[derive(Debug, Clone, Copy, PartialEq, Eq, Structural)]
pub enum Operator {
    Not,
    Lsl,
    Lsr,
    Asl,
    Asr,
    Mul,
    Div,
    Mod,
    Add,
    Sub,
    And,
    Xor,
    Or,
}

/// The total map from an operator lexeme to its operator, `None` for any
/// byte sequence that names no operator.
pub open spec fn spec_operator_from_lexeme(lexeme: Seq<u8>) -> Option<Operator> {
    if lexeme == seq![('n' as u8), ('o' as u8), ('t' as u8)] {
        Some(Operator::Not)
    } else if lexeme == seq![('l' as u8), ('s' as u8), ('l' as u8)] {
        Some(Operator::Lsl)
    } else if lexeme == seq![('l' as u8), ('s' as u8), ('r' as u8)] {
        Some(Operator::Lsr)
    } else if lexeme == seq![('a' as u8), ('s' as u8), ('l' as u8)] {
        Some(Operator::Asl)
    } else if lexeme == seq![('a' as u8), ('s' as u8), ('r' as u8)] {
        Some(Operator::Asr)
    } else if lexeme == seq![('*' as u8)] {
        Some(Operator::Mul)
    } else if lexeme == seq![('/' as u8)] {
        Some(Operator::Div)
    } else if lexeme == seq![('%' as u8)] {
        Some(Operator::Mod)
    } else if lexeme == seq![('+' as u8)] {
        Some(Operator::Add)
    } else if lexeme == seq![('-' as u8)] {
        Some(Operator::Sub)
    } else if lexeme == seq![('a' as u8), ('n' as u8), ('d' as u8)] {
        Some(Operator::And)
    } else if lexeme == seq![('x' as u8), ('o' as u8), ('r' as u8)] {
        Some(Operator::Xor)
    } else if lexeme == seq![('o' as u8), ('r' as u8)] {
        Some(Operator::Or)
    } else {
        None
    }
}

/// The precedence tier of an operator, 1 the tightest-binding, 7 the
/// loosest. Tiers are processed in ascending order by the evaluator.
pub open spec fn spec_tier(op: Operator) -> u32 {
    match op {
        Operator::Not => 1,
        Operator::Lsl | Operator::Lsr | Operator::Asl | Operator::Asr => 2,
        Operator::Mul | Operator::Div | Operator::Mod => 3,
        Operator::Add | Operator::Sub => 4,
        Operator::And => 5,
        Operator::Xor => 6,
        Operator::Or => 7,
    }
}

/// True when the slice holds exactly the single byte `a`.
fn lexeme_is1(lexeme: &[u8], a: u8) -> (r: bool)
    ensures
        r == (lexeme@ == seq![a]),
{
    let r = lexeme.len() == 1 && lexeme[0] == a;
    proof {
        if r {
            assert(lexeme@ =~= seq![a]);
        }
    }
    r
}

/// True when the slice holds exactly the two bytes `a`, `b`.
fn lexeme_is2(lexeme: &[u8], a: u8, b: u8) -> (r: bool)
    ensures
        r == (lexeme@ == seq![a, b]),
{
    let r = lexeme.len() == 2 && lexeme[0] == a && lexeme[1] == b;
    proof {
        if r {
            assert(lexeme@ =~= seq![a, b]);
        }
    }
    r
}

/// True when the slice holds exactly the three bytes `a`, `b`, `c`.
fn lexeme_is3(lexeme: &[u8], a: u8, b: u8, c: u8) -> (r: bool)
    ensures
        r == (lexeme@ == seq![a, b, c]),
{
    let r = lexeme.len() == 3 && lexeme[0] == a && lexeme[1] == b && lexeme[2] == c;
    proof {
        if r {
            assert(lexeme@ =~= seq![a, b, c]);
        }
    }
    r
}

impl Operator {
    /// Map an operator lexeme to its operator.
    pub fn from_str(op: &[u8]) -> (r: Option<Operator>)
        ensures
            r == spec_operator_from_lexeme(op@),
    {
        if lexeme_is3(op, ('n' as u8), ('o' as u8), ('t' as u8)) {
            Some(Operator::Not)
        } else if lexeme_is3(op, ('l' as u8), ('s' as u8), ('l' as u8)) {
            Some(Operator::Lsl)
        } else if lexeme_is3(op, ('l' as u8), ('s' as u8), ('r' as u8)) {
            Some(Operator::Lsr)
        } else if lexeme_is3(op, ('a' as u8), ('s' as u8), ('l' as u8)) {
            Some(Operator::Asl)
        } else if lexeme_is3(op, ('a' as u8), ('s' as u8), ('r' as u8)) {
            Some(Operator::Asr)
        } else if lexeme_is1(op, ('*' as u8)) {
            Some(Operator::Mul)
        } else if lexeme_is1(op, ('/' as u8)) {
            Some(Operator::Div)
        } else if lexeme_is1(op, ('%' as u8)) {
            Some(Operator::Mod)
        } else if lexeme_is1(op, ('+' as u8)) {
            Some(Operator::Add)
        } else if lexeme_is1(op, ('-' as u8)) {
            Some(Operator::Sub)
        } else if lexeme_is3(op, ('a' as u8), ('n' as u8), ('d' as u8)) {
            Some(Operator::And)
        } else if lexeme_is3(op, ('x' as u8), ('o' as u8), ('r' as u8)) {
            Some(Operator::Xor)
        } else if lexeme_is2(op, ('o' as u8), ('r' as u8)) {
            Some(Operator::Or)
        } else {
            None
        }
    }

    /// The precedence tier of this operator.
    pub fn tier(self) -> (t: u32)
        ensures
            t == spec_tier(self),
    {
        match self {
            Operator::Not => 1,
            Operator::Lsl | Operator::Lsr | Operator::Asl | Operator::Asr => 2,
            Operator::Mul | Operator::Div | Operator::Mod => 3,
            Operator::Add | Operator::Sub => 4,
            Operator::And => 5,
            Operator::Xor => 6,
            Operator::Or => 7,
        }
    }
}

} // verus!
