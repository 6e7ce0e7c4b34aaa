//! Parsing of decimal numeric lexemes into 32-bit signed integers.
//!
//! A lexeme is accepted exactly when the standard library's integer parser
//! would accept it: an optional sign, then one or more decimal digits, and
//! a value within the 32-bit signed range.

use vstd::prelude::*;

verus! {

/// True for the ASCII decimal digits.
pub open spec fn is_digit_byte(b: u8) -> bool {
    ('0' as u8) <= b && b <= ('9' as u8)
}

/// True when every byte of the sequence is an ASCII decimal digit.
pub open spec fn all_digits(s: Seq<u8>) -> bool {
    forall|i: int| 0 <= i < s.len() ==> is_digit_byte(#[trigger] s[i])
}

/// The value of a sequence of ASCII decimal digits, most significant first.
pub open spec fn digits_value(s: Seq<u8>) -> int
    decreases s.len(),
{
    if s.len() == 0 {
        0
    } else {
        digits_value(s.drop_last()) * 10 + (s.last() - ('0' as u8))
    }
}

/// The value a numeric lexeme denotes as a 32-bit signed integer, or `None`
/// when the lexeme is malformed or its value does not fit.
pub open spec fn spec_parse_i32(s: Seq<u8>) -> Option<i32> {
    let digits = if s.len() > 0 && (s[0] == ('+' as u8) || s[0] == ('-' as u8)) {
        s.drop_first()
    } else {
        s
    };
    let negative = s.len() > 0 && s[0] == ('-' as u8);
    if digits.len() == 0 || !all_digits(digits) {
        None
    } else {
        let v = digits_value(digits);
        if negative {
            if v <= 0x8000_0000 {
                Some((-v) as i32)
            } else {
                None
            }
        } else {
            if v <= 0x7fff_ffff {
                Some(v as i32)
            } else {
                None
            }
        }
    }
}

/// A sequence of digits denotes a non-negative value.
pub proof fn lemma_digits_value_nonneg(s: Seq<u8>)
    requires
        all_digits(s),
    ensures
        digits_value(s) >= 0,
    decreases s.len(),
{
    if s.len() > 0 {
        lemma_digits_value_nonneg(s.drop_last());
    }
}

/// Extending a digit sequence to the right never shrinks its value.
proof fn lemma_digits_value_prefix_le(s: Seq<u8>, k: int)
    requires
        all_digits(s),
        0 <= k <= s.len(),
    ensures
        digits_value(s.take(k)) <= digits_value(s),
    decreases s.len() - k,
{
    if k < s.len() {
        let t = s.take(k + 1);
        assert(t.drop_last() =~= s.take(k));
        lemma_digits_value_nonneg(s.take(k));
        lemma_digits_value_prefix_le(s, k + 1);
        assert(s.take(k + 1) =~= t);
    } else {
        assert(s.take(k) =~= s);
    }
}

/// Parse a numeric lexeme. Returns exactly what [`spec_parse_i32`] maps the
/// lexeme to.
#[verifier::loop_isolation(false)]
pub fn parse_number(s: &Vec<u8>) -> (r: Option<i32>)
    ensures
        r == spec_parse_i32(s@),
{
    let len = s.len();
    let mut idx: usize = 0;
    let mut negative = false;
    if len > 0 && (s[0] == ('+' as u8) || s[0] == ('-' as u8)) {
        negative = s[0] == ('-' as u8);
        idx = 1;
    }
    let ghost digits = if s@.len() > 0 && (s@[0] == ('+' as u8) || s@[0] == ('-' as u8)) {
        s@.drop_first()
    } else {
        s@
    };
    proof {
        assert(digits =~= s@.subrange(idx as int, len as int));
    }
    if idx == len {
        return None;
    }
    let mut acc: u64 = 0;
    let mut i = idx;
    while i < len
        invariant
            idx <= i <= len,
            idx < len,
            len == s@.len(),
            digits == s@.subrange(idx as int, len as int),
            all_digits(s@.subrange(idx as int, i as int)),
            acc == digits_value(s@.subrange(idx as int, i as int)),
            acc <= 0x8000_0000,
        decreases len - i,
    {
        let b = s[i];
        let ghost pre = s@.subrange(idx as int, i as int);
        if b < ('0' as u8) || b > ('9' as u8) {
            proof {
                assert(digits[i - idx] == b);
                assert(!is_digit_byte(digits[i - idx]));
                assert(!all_digits(digits));
                assert(spec_parse_i32(s@) == None::<i32>);
            }
            return None;
        }
        acc = acc * 10 + ((b - ('0' as u8)) as u64);
        i += 1;
        proof {
            let cur = s@.subrange(idx as int, i as int);
            assert(cur.drop_last() =~= pre);
            assert(cur.last() == b);
        }
        if acc > 0x8000_0000 {
            proof {
                if all_digits(digits) {
                    let cur = s@.subrange(idx as int, i as int);
                    assert(cur =~= digits.take(i - idx));
                    lemma_digits_value_prefix_le(digits, i - idx);
                    assert(digits_value(digits) > 0x8000_0000);
                }
                assert(spec_parse_i32(s@) == None::<i32>);
            }
            return None;
        }
    }
    proof {
        assert(s@.subrange(idx as int, i as int) =~= digits);
    }
    if negative {
        let v: i64 = -(acc as i64);
        Some(v as i32)
    } else {
        if acc <= 0x7fff_ffff {
            Some(acc as i32)
        } else {
            None
        }
    }
}

} // verus!
