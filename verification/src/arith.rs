//! Floor division and remainder on signed machine integers.
//!
//! Rust's `/` and `%` truncate towards zero; calendar arithmetic on day
//! counts before the epoch needs the quotient rounded down and a remainder
//! that is never negative, which is what `/` and `%` mean in specifications.

use vstd::arithmetic::div_mod::{
    lemma_fundamental_div_mod, lemma_fundamental_div_mod_converse, lemma_mod_bound,
    lemma_mod_multiples_vanish,
};
use vstd::arithmetic::mul::lemma_mul_is_commutative;
use vstd::prelude::*;

verus! {

/// Integers that differ by a multiple of `m` leave the same remainder.
pub proof fn lemma_same_remainder(a: int, b: int, k: int, m: int)
    requires
        m > 0,
        a == b + k * m,
    ensures
        a % m == b % m,
{
    lemma_mul_is_commutative(k, m);
    lemma_mod_multiples_vanish(k, b, m);
}

/// The quotient and the remainder of a negative `a`, from those of the
/// number `-(a + 1)`, which is not negative.
proof fn lemma_floor_of_negative(a: int, b: int)
    requires
        a < 0,
        b > 0,
    ensures
        a / b == -((-(a + 1)) / b) - 1,
        a % b == b - 1 - (-(a + 1)) % b,
{
    let mirror = -(a + 1);
    let q = mirror / b;
    let r = mirror % b;
    lemma_fundamental_div_mod(mirror, b);
    lemma_mod_bound(mirror, b);
    assert(a == (-q - 1) * b + (b - 1 - r)) by (nonlinear_arith)
        requires
            mirror == b * q + r,
            mirror == -(a + 1),
    ;
    lemma_fundamental_div_mod_converse(a, b, -q - 1, b - 1 - r);
}

/// Quotient of `a` by a positive `b`, rounded towards negative infinity.
pub fn div_floor(a: i64, b: i64) -> (q: i64)
    requires
        b > 0,
    ensures
        q == a as int / b as int,
{
    if a >= 0 {
        a / b
    } else {
        proof {
            lemma_floor_of_negative(a as int, b as int);
        }
        let mirror: i64 = -(a + 1);
        -(mirror / b) - 1
    }
}

/// Remainder of `a` by a positive `b`, in `0..b`.
pub fn mod_floor(a: i64, b: i64) -> (r: i64)
    requires
        b > 0,
    ensures
        r == a as int % b as int,
        0 <= r < b,
{
    if a >= 0 {
        a % b
    } else {
        proof {
            lemma_floor_of_negative(a as int, b as int);
        }
        let mirror: i64 = -(a + 1);
        b - 1 - mirror % b
    }
}

} // verus!
