//! Floating-point numbers as bit patterns, and the host's floating-point unit.
//!
//! A float is held as the 64 bits of its IEEE-754 binary64 encoding. The
//! library itself only moves such patterns around and tests them for zero.
//! Whatever needs floating-point hardware is asked of the host through two
//! function values that every caller hands in:
//!
//! * the *arithmetic unit*, from a [`FloatOp`] to the bits of its result;
//! * the *printer*, from bits to their decimal text.
//!
//! The library assumes nothing of what these return. Its contracts speak of
//! a [`FloatModel`]: a pair of mathematical functions that stands for a
//! floating-point unit. They promise two things:
//!
//! * whatever the host's two function values return, a result is like the
//!   one that the specification gives, for any model: the same but for the
//!   bits of floats and for text that renders floats;
//! * wherever the host's two function values compute a model, a result is
//!   the one that the specification gives for that model.

use vstd::prelude::*;

verus! {

/// The bits of positive zero.
pub const ZERO_BITS: u64 = 0;

/// The bits of negative zero.
pub const NEG_ZERO_BITS: u64 = 0x8000_0000_0000_0000;

/// The bits of `1.0`.
pub const ONE_BITS: u64 = 0x3ff0_0000_0000_0000;

/// The bits of `-1.0`.
pub const NEG_ONE_BITS: u64 = 0xbff0_0000_0000_0000;

/// The bits of the binary64 number nearest to pi.
pub const PI_BITS: u64 = 0x4009_21fb_5444_2d18;

/// A request to the host's arithmetic unit. Operands and results are bit
/// patterns.
#[derive(Debug, PartialEq, Eq)]
pub enum FloatOp {
    /// The float nearest to an integer.
    FromInt(i64),
    /// The sum of two floats.
    Add(u64, u64),
    /// The product of two floats.
    Mul(u64, u64),
    /// The quotient of the first float by the second.
    Div(u64, u64),
    /// The float nearest to the number that a float literal denotes. The
    /// reader takes a text for a float literal only where it has the form of
    /// one; for any other text the answer is the host's choice.
    Parse(String),
}

/// A request to the arithmetic unit as a mathematical value.
pub enum FloatOpView {
    FromInt(i64),
    Add(u64, u64),
    Mul(u64, u64),
    Div(u64, u64),
    Parse(Seq<char>),
}

impl View for FloatOp {
    type V = FloatOpView;

    open spec fn view(&self) -> FloatOpView {
        match self {
            FloatOp::FromInt(i) => FloatOpView::FromInt(*i),
            FloatOp::Add(a, b) => FloatOpView::Add(*a, *b),
            FloatOp::Mul(a, b) => FloatOpView::Mul(*a, *b),
            FloatOp::Div(a, b) => FloatOpView::Div(*a, *b),
            FloatOp::Parse(s) => FloatOpView::Parse(s@),
        }
    }
}

/// What a floating-point unit computes, as mathematical functions.
pub struct FloatModel {
    /// The result of each request to the arithmetic unit.
    pub op: spec_fn(FloatOpView) -> u64,
    /// The decimal text of each bit pattern.
    pub text: spec_fn(u64) -> Seq<char>,
}

impl FloatModel {
    /// The float nearest to an integer.
    pub open spec fn from_int(self, i: i64) -> u64 {
        (self.op)(FloatOpView::FromInt(i))
    }

    /// The sum of two floats.
    pub open spec fn sum(self, a: u64, b: u64) -> u64 {
        (self.op)(FloatOpView::Add(a, b))
    }

    /// The product of two floats.
    pub open spec fn product(self, a: u64, b: u64) -> u64 {
        (self.op)(FloatOpView::Mul(a, b))
    }

    /// The quotient of `a` by `b`.
    pub open spec fn quotient(self, a: u64, b: u64) -> u64 {
        (self.op)(FloatOpView::Div(a, b))
    }

    /// The float that a literal denotes.
    pub open spec fn parse(self, s: Seq<char>) -> u64 {
        (self.op)(FloatOpView::Parse(s))
    }

    /// The decimal text of a float.
    pub open spec fn render(self, bits: u64) -> Seq<char> {
        (self.text)(bits)
    }

    /// Every result that `arith` can return is the one this model gives.
    pub open spec fn computed_by<A: Fn(FloatOp) -> u64>(self, arith: &A) -> bool {
        forall|op: FloatOp, r: u64| #[trigger] arith.ensures((op,), r) ==> r == (self.op)(op@)
    }

    /// Every text that `show` can return is the one this model gives.
    pub open spec fn rendered_by<S: Fn(u64) -> String>(self, show: &S) -> bool {
        forall|bits: u64, r: String| #[trigger] show.ensures((bits,), r) ==> r@ == (self.text)(bits)
    }

    /// `arith` and `show` together compute this model.
    pub open spec fn describes<A: Fn(FloatOp) -> u64, S: Fn(u64) -> String>(
        self,
        arith: &A,
        show: &S,
    ) -> bool {
        self.computed_by(arith) && self.rendered_by(show)
    }
}

/// `arith` may be called with every request.
pub open spec fn serves<A: Fn(FloatOp) -> u64>(arith: &A) -> bool {
    forall|op: FloatOp| #[trigger] arith.requires((op,))
}

/// `show` may be called with every bit pattern.
pub open spec fn prints<S: Fn(u64) -> String>(show: &S) -> bool {
    forall|bits: u64| #[trigger] show.requires((bits,))
}

/// The bit pattern is one of the two zeros.
pub open spec fn is_zero_bits(bits: u64) -> bool {
    bits == ZERO_BITS || bits == NEG_ZERO_BITS
}

/// Whether a float compares equal to zero: whether it is positive or
/// negative zero.
pub fn is_zero(bits: u64) -> (r: bool)
    ensures
        r == is_zero_bits(bits),
{
    bits == ZERO_BITS || bits == NEG_ZERO_BITS
}

} // verus!
