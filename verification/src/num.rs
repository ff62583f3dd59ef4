use vstd::prelude::*;

verus! {

// A runtime number is the bit pattern of an IEEE 754 binary32 value, kept as
// a `u32`. The standard fixes sign, magnitude, NaN and zero entirely by the
// pattern, so equality, ordering, negation and the zero test are decided here
// by integer code. Only the rounding operations (+ - * /) and the conversions
// between patterns and decimal numerals depend on the host's float unit; the
// evaluator states those as `NumQuery` values for its host to answer.

/// An arithmetic operation whose rounding the host must perform.
#[derive(Clone, Copy, PartialEq, Eq, Structural, Debug)]
pub enum NumOp {
    Add,
    Sub,
    Mul,
    Div,
}

/// A numeric computation the evaluator cannot decide from bit patterns alone.
#[derive(Clone, PartialEq, Debug)]
pub enum NumQuery {
    /// Round `op` applied to the two operand patterns.
    Arith(NumOp, u32, u32),
    /// The pattern nearest to the given decimal numeral.
    FromDecimal(String),
    /// The decimal rendering of the given pattern.
    ToDecimal(u32),
}

/// The host's answer to one `NumQuery`: a pattern for `Arith` and
/// `FromDecimal`, a numeral for `ToDecimal`.
#[derive(Clone, PartialEq, Debug)]
pub enum NumAnswer {
    Bits(u32),
    Text(String),
}

/// The mathematical reading of a `NumQuery`.
pub enum QueryV {
    Arith(NumOp, u32, u32),
    FromDec(Seq<char>),
    ToDec(u32),
}

/// The mathematical reading of a `NumAnswer`.
pub enum AnswerV {
    Bits(u32),
    Text(Seq<char>),
}

impl View for NumQuery {
    type V = QueryV;

    open spec fn view(&self) -> QueryV {
        match self {
            NumQuery::Arith(op, a, b) => QueryV::Arith(*op, *a, *b),
            NumQuery::FromDecimal(s) => QueryV::FromDec(s@),
            NumQuery::ToDecimal(b) => QueryV::ToDec(*b),
        }
    }
}

impl View for NumAnswer {
    type V = AnswerV;

    open spec fn view(&self) -> AnswerV {
        match self {
            NumAnswer::Bits(b) => AnswerV::Bits(*b),
            NumAnswer::Text(s) => AnswerV::Text(s@),
        }
    }
}

/// The answer at position `ti` of the answer tape, if the tape reaches it.
pub open spec fn answer_at(tape: Seq<AnswerV>, ti: int) -> Option<AnswerV> {
    if 0 <= ti < tape.len() {
        Some(tape[ti])
    } else {
        None
    }
}

/// A pattern with all exponent bits set and a nonzero mantissa is NaN.
pub open spec fn nan_bits(b: u32) -> bool {
    (b & 0x7fff_ffffu32) > 0x7f80_0000u32
}

/// Positive and negative zero.
pub open spec fn zero_bits(b: u32) -> bool {
    b == 0u32 || b == 0x8000_0000u32
}

pub open spec fn sign_bits(b: u32) -> bool {
    (b & 0x8000_0000u32) != 0u32
}

/// The magnitude: everything but the sign bit.
pub open spec fn mag_bits(b: u32) -> u32 {
    b & 0x7fff_ffffu32
}

/// Negation flips the sign bit and nothing else.
pub open spec fn flip_sign(b: u32) -> u32 {
    b ^ 0x8000_0000u32
}

/// Float equality: false on NaN, both zeros equal, otherwise same pattern.
pub open spec fn num_eq(a: u32, b: u32) -> bool {
    &&& !nan_bits(a)
    &&& !nan_bits(b)
    &&& (a == b || (zero_bits(a) && zero_bits(b)))
}

/// Float strict order: false on NaN; otherwise sign-magnitude order, with the
/// two zeros equal.
pub open spec fn num_lt(a: u32, b: u32) -> bool {
    &&& !nan_bits(a)
    &&& !nan_bits(b)
    &&& !(zero_bits(a) && zero_bits(b))
    &&& if sign_bits(a) != sign_bits(b) {
        sign_bits(a)
    } else if !sign_bits(a) {
        mag_bits(a) < mag_bits(b)
    } else {
        mag_bits(a) > mag_bits(b)
    }
}

pub open spec fn num_le(a: u32, b: u32) -> bool {
    num_lt(a, b) || num_eq(a, b)
}

pub fn is_nan(b: u32) -> (r: bool)
    ensures
        r == nan_bits(b),
{
    (b & 0x7fff_ffff) > 0x7f80_0000
}

pub fn is_zero(b: u32) -> (r: bool)
    ensures
        r == zero_bits(b),
{
    b == 0 || b == 0x8000_0000
}

pub fn negate(b: u32) -> (r: u32)
    ensures
        r == flip_sign(b),
{
    b ^ 0x8000_0000
}

pub fn eq_bits(a: u32, b: u32) -> (r: bool)
    ensures
        r == num_eq(a, b),
{
    !is_nan(a) && !is_nan(b) && (a == b || (is_zero(a) && is_zero(b)))
}

pub fn lt_bits(a: u32, b: u32) -> (r: bool)
    ensures
        r == num_lt(a, b),
{
    if is_nan(a) || is_nan(b) {
        false
    } else if is_zero(a) && is_zero(b) {
        false
    } else {
        let sa: bool = (a & 0x8000_0000) != 0;
        let sb: bool = (b & 0x8000_0000) != 0;
        if sa != sb {
            sa
        } else if !sa {
            (a & 0x7fff_ffff) < (b & 0x7fff_ffff)
        } else {
            (a & 0x7fff_ffff) > (b & 0x7fff_ffff)
        }
    }
}

pub fn le_bits(a: u32, b: u32) -> (r: bool)
    ensures
        r == num_le(a, b),
{
    lt_bits(a, b) || eq_bits(a, b)
}

} // verus!
