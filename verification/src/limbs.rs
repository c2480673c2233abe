//! Splitting an arbitrary-precision integer into 120-bit limbs.

use vstd::prelude::*;
use num_bigint::BigUint;
use crate::bigint::{big_value, big_clone, big_div, big_rem, big_pow2};
use crate::arith::{bitlen, limb_at, limb_count, limbs_of, limbs_value, lemma_split_round_trip};
use vstd::arithmetic::power2::{pow2, lemma_pow2_adds, lemma_pow2_pos};
use vstd::arithmetic::div_mod::{
    lemma_div_denominator, lemma_mod_division_less_than_divisor,
};

verus! {

/// The values held by a sequence of arbitrary-precision integers.
pub open spec fn big_values(s: Seq<BigUint>) -> Seq<nat> {
    s.map_values(|b: BigUint| big_value(b))
}

/// Split `input` into its 120-bit limbs, least-significant limb first.
///
/// `num_bits` must be the true bit length of `input`; the result has
/// `max(1, ceil(num_bits / 120))` limbs (the value 0 yields one zero limb,
/// never an empty sequence), each limb is below 2^120, and limb `i` holds
/// `(input >> (120*i)) & (2^120 - 1)`, so that the weighted limb sum
/// reconstructs `input` exactly.
pub fn split_into_120_bit_limbs(input: &BigUint, num_bits: u64) -> (r: Vec<BigUint>)
    requires
        num_bits as nat == bitlen(big_value(*input)),
    ensures
        big_values(r@) =~= limbs_of(big_value(*input), limb_count(big_value(*input))),
        r@.len() == limb_count(big_value(*input)),
        forall|i: int| 0 <= i < r@.len() ==> big_value(r@[i]) < pow2(120),
        limbs_value(big_values(r@)) == big_value(*input),
{
    let ghost v = big_value(*input);
    let num_limbs_wide: u128 = (num_bits as u128 + 119) / 120;
    let num_limbs: u64 = if num_bits == 0 {
        1
    } else {
        num_limbs_wide as u64
    };
    assert(num_limbs as nat == limb_count(v));
    let limb_radix = big_pow2(120);
    proof {
        lemma_pow2_pos(120);
        assert(pow2(0) == 1) by {
            vstd::arithmetic::power2::lemma2_to64();
        }
        vstd::arithmetic::div_mod::lemma_div_basics_2(v as int);
        assert(120 * 0 == 0) by (nonlinear_arith);
    }
    let mut cur = big_clone(input);
    let mut r: Vec<BigUint> = Vec::new();
    let mut i: u64 = 0;
    while i < num_limbs
        invariant
            num_limbs as nat == limb_count(v),
            big_value(limb_radix) == pow2(120),
            pow2(120) > 0,
            0 <= i <= num_limbs,
            r@.len() == i as nat,
            forall|j: int| 0 <= j < i ==> big_value(#[trigger] r@[j]) == limb_at(v, j as nat),
            big_value(cur) == v / pow2((120 * i) as nat),
        decreases num_limbs - i,
    {
        let limb = big_rem(&cur, &limb_radix);
        proof {
            assert(big_value(limb) == limb_at(v, i as nat));
            lemma_mod_division_less_than_divisor(
                (v / pow2((120 * i) as nat)) as int,
                pow2(120) as int,
            );
            lemma_pow2_adds((120 * i) as nat, 120);
            lemma_pow2_pos((120 * i) as nat);
            lemma_div_denominator(v as int, pow2((120 * i) as nat) as int, pow2(120) as int);
            assert(120 * (i + 1) == 120 * i + 120) by (nonlinear_arith);
        }
        cur = big_div(&cur, &limb_radix);
        r.push(limb);
        i = i + 1;
    }
    proof {
        assert(big_values(r@) =~= limbs_of(v, limb_count(v)));
        lemma_split_round_trip(v);
        assert forall|k: int| 0 <= k < r@.len() implies big_value(r@[k]) < pow2(120) by {
            lemma_mod_division_less_than_divisor(
                (v / pow2((120 * k) as nat)) as int,
                pow2(120) as int,
            );
        }
    }
    r
}

} // verus!
