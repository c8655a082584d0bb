//! Arithmetic on fixed-point numbers: quotients rounded in a stated direction.

use vstd::arithmetic::div_mod::*;
use vstd::arithmetic::mul::*;
use vstd::prelude::*;

verus! {

/// `(-x) / d` rounds towards negative infinity, so it is the negated ceiling of `x / d`.
pub proof fn lemma_floor_of_negative(x: int, d: int)
    requires
        x >= 0,
        d > 0,
    ensures
        (-x) / d == -((x + d - 1) / d),
{
    let q = (x + d - 1) / d;
    let r = (x + d - 1) % d;
    lemma_fundamental_div_mod(x + d - 1, d);
    lemma_mod_bound(x + d - 1, d);
    assert(-x == (-q) * d + (d - 1 - r)) by (nonlinear_arith)
        requires
            x + d - 1 == d * q + r,
    ;
    lemma_fundamental_div_mod_converse(-x, d, -q, d - 1 - r);
}

/// A quotient is at most `k` when the dividend is at most `k * d`.
pub proof fn lemma_quotient_bound(x: int, d: int, k: int)
    requires
        0 <= x <= k * d,
        d > 0,
    ensures
        0 <= x / d <= k,
{
    lemma_div_pos_is_pos(x, d);
    lemma_div_is_ordered(x, k * d, d);
    lemma_div_multiples_vanish(k, d);
    lemma_mul_is_commutative(k, d);
}

/// The ceiling of `x / d`.
pub fn ceil_div(x: u128, d: u64) -> (q: u128)
    requires
        d > 0,
        x + d <= u128::MAX,
    ensures
        q == (x + d - 1) / (d as int),
{
    (x + (d as u128 - 1)) / (d as u128)
}

/// The quotient of `x` by a positive `d`, rounded towards negative infinity.
pub fn floor_div(x: i128, d: u64) -> (q: i128)
    requires
        d > 0,
        -i128::MAX <= x,
    ensures
        q == (x as int) / (d as int),
{
    if x >= 0 {
        x / (d as i128)
    } else {
        let magnitude: u128 = (-x) as u128;
        proof {
            lemma_floor_of_negative(magnitude as int, d as int);
            lemma_div_pos_is_pos(magnitude + d - 1, d as int);
            assert(magnitude + d - 1 <= magnitude * d) by (nonlinear_arith)
                requires
                    magnitude >= 1,
                    d >= 1,
            ;
            lemma_div_is_ordered(magnitude + d - 1, magnitude * d, d as int);
            lemma_div_multiples_vanish(magnitude as int, d as int);
            lemma_mul_is_commutative(magnitude as int, d as int);
        }
        -(((magnitude + (d as u128 - 1)) / (d as u128)) as i128)
    }
}

} // verus!
