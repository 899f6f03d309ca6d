//! Integer arithmetic on 64-bit two's-complement numbers, stated over the
//! mathematical integers.

use vstd::prelude::*;
use vstd::arithmetic::div_mod::{lemma_add_mod_noop, lemma_mul_mod_noop_left};
use vstd::wrapping::i64_specs::{wrapping_add, wrapping_mul};

verus! {

/// The number of 64-bit patterns.
pub open spec fn modulus() -> int {
    0x1_0000_0000_0000_0000
}

/// The 64-bit signed integer that is congruent to `x` modulo 2^64: what is
/// left of `x` where only its low 64 bits are kept.
pub open spec fn wrap(x: int) -> i64 {
    if (x % modulus()) > (i64::MAX as int) {
        ((x % modulus()) - modulus()) as i64
    } else {
        (x % modulus()) as i64
    }
}

/// A number that fits in 64 bits is left as it is.
pub proof fn lemma_wrap_fits(x: int)
    requires
        i64::MIN <= x <= i64::MAX,
    ensures
        wrap(x) == x,
{
}

/// Wrapping leaves the residue modulo 2^64 as it is.
pub proof fn lemma_wrap_residue(x: int)
    ensures
        (wrap(x) as int) % modulus() == x % modulus(),
{
}

/// Adding with wrap-around to a wrapped number is adding, then wrapping.
pub proof fn lemma_wrap_add(a: int, b: i64)
    ensures
        wrapping_add(wrap(a), b) == wrap(a + b),
{
    let p = wrap(a) as int;
    lemma_wrap_residue(a);
    lemma_add_mod_noop(p, b as int, modulus());
    lemma_add_mod_noop(a, b as int, modulus());
    assert((p + b) % modulus() == (a + b) % modulus());
    assert(wrapping_add(wrap(a), b) == wrap(p + b));
}

/// Multiplying with wrap-around by a wrapped number is multiplying, then
/// wrapping.
pub proof fn lemma_wrap_mul(a: int, b: i64)
    ensures
        wrapping_mul(wrap(a), b) == wrap(a * b),
{
    let p = wrap(a) as int;
    lemma_wrap_residue(a);
    lemma_mul_mod_noop_left(p, b as int, modulus());
    lemma_mul_mod_noop_left(a, b as int, modulus());
    assert((p * b) % modulus() == (a * b) % modulus());
}

} // verus!
