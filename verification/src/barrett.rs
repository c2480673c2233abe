//! The Barrett reduction parameter: `floor(4^bitlen(N) / N)` for a modulus
//! `N > 1`, and the proof that it reduces correctly.

use vstd::prelude::*;
use num_bigint::BigUint;
use crate::bigint::{big_value, big_bits, big_div, big_pow2};
use crate::arith::bitlen;
use crate::BnError;
use vstd::arithmetic::power2::{pow2, lemma_pow2_pos};
use vstd::arithmetic::div_mod::{
    lemma_fundamental_div_mod, lemma_fundamental_div_mod_converse_mod,
    lemma_mod_division_less_than_divisor, lemma_div_pos_is_pos,
};

verus! {

/// Widest modulus accepted, in bits.
pub const MAX_MODULUS_BITS: u64 = 1048576;

/// The Barrett reduction parameter of a modulus `n > 1`:
/// `floor(b / n)` for `b = 2^(2*bitlen(n)) = 4^bitlen(n)`.
pub open spec fn barrett_parameter(n: nat) -> nat
    recommends
        n >= 2,
{
    pow2(2 * bitlen(n)) / n
}

/// A modulus needs at least two bits exactly when it exceeds 1.
pub proof fn lemma_bitlen_two(n: nat)
    ensures
        bitlen(n) >= 2 <==> n >= 2,
{
    if n >= 2 {
        crate::arith::lemma_bitlen_monotonic(1, n / 2);
        assert(bitlen(1) == 1);
    } else {
        assert(bitlen(0) == 0);
        assert(bitlen(1) == 1);
    }
}

/// Compute the Barrett reduction parameter of `modulus`.
///
/// Fails with `InvalidModulus` if and only if the modulus is 0 or 1 (for
/// which Barrett reduction is undefined) or wider than `MAX_MODULUS_BITS`
/// bits; otherwise returns exactly `floor(4^bitlen(modulus) / modulus)`.
pub fn compute_barrett_reduction_parameter(modulus: &BigUint) -> (r: Result<BigUint, BnError>)
    ensures
        r is Ok <==> (2 <= big_value(*modulus) && bitlen(big_value(*modulus))
            <= MAX_MODULUS_BITS),
        r is Err ==> r->Err_0 == BnError::InvalidModulus,
        r is Ok ==> big_value(r->Ok_0) == barrett_parameter(big_value(*modulus)),
{
    proof {
        lemma_bitlen_two(big_value(*modulus));
    }
    let k = big_bits(modulus);
    if k < 2 || k > MAX_MODULUS_BITS {
        return Err(BnError::InvalidModulus);
    }
    let b = big_pow2(2 * k);
    let p = big_div(&b, modulus);
    Ok(p)
}

/// Barrett reduction bound: for a modulus `n > 1`, `b = 4^bitlen(n)` and
/// `p = floor(b/n)`, every `x` below `b` satisfies
/// `0 <= x - floor(x*p/b)*n < 2n`, and one conditional subtraction of `n`
/// turns that quantity into `x % n`.
pub proof fn lemma_barrett_reduction(n: nat, x: nat)
    requires
        n >= 2,
        x < pow2(2 * bitlen(n)),
    ensures
        ({
            let b = pow2(2 * bitlen(n));
            let q = (x * barrett_parameter(n)) / b;
            &&& q * n <= x
            &&& x < q * n + 2 * n
            &&& (if x - q * n < n {
                x % n == x - q * n
            } else {
                x % n == x - q * n - n
            })
        }),
{
    let b = pow2(2 * bitlen(n)) as int;
    let ni = n as int;
    let xi = x as int;
    lemma_pow2_pos(2 * bitlen(n));
    let p = b / ni;
    lemma_div_pos_is_pos(b, ni);
    assert(barrett_parameter(n) == p);
    let q = (xi * p) / b;
    assert(xi * p >= 0) by (nonlinear_arith)
        requires
            xi >= 0,
            p >= 0,
    ;
    lemma_div_pos_is_pos(xi * p, b);

    lemma_fundamental_div_mod(b, ni);
    lemma_mod_division_less_than_divisor(b, ni);
    let r0 = b % ni;
    assert(b == ni * p + r0);

    lemma_fundamental_div_mod(xi * p, b);
    lemma_mod_division_less_than_divisor(xi * p, b);
    let r1 = (xi * p) % b;
    assert(xi * p == b * q + r1);

    // q * n <= x: multiply x*p >= b*q by n, and n*p <= b by x.
    assert(q * ni <= xi) by (nonlinear_arith)
        requires
            xi * p == b * q + r1,
            r1 >= 0,
            b == ni * p + r0,
            r0 >= 0,
            b > 0,
            ni > 0,
            xi >= 0,
            q >= 0,
    ;

    // x < q*n + 2n: from x*p < b*q + b, n*p > b - n, and x < b.
    assert(xi < q * ni + 2 * ni) by (nonlinear_arith)
        requires
            xi * p == b * q + r1,
            r1 < b,
            b == ni * p + r0,
            r0 < ni,
            b > 0,
            ni > 0,
            0 <= xi < b,
    ;

    let e = xi - q * ni;
    if e < ni {
        lemma_fundamental_div_mod_converse_mod(xi, ni, q, e);
    } else {
        assert(xi == (q + 1) * ni + (e - ni)) by (nonlinear_arith)
            requires
                e == xi - q * ni,
        ;
        lemma_fundamental_div_mod_converse_mod(xi, ni, q + 1, e - ni);
    }
}

} // verus!
