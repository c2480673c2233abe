//! Mathematical model of the limb decomposition: bit length, the value of a
//! limb sequence, and the limbs of a value.

use vstd::prelude::*;
use vstd::arithmetic::power2::{pow2, lemma_pow2_adds, lemma_pow2_pos, lemma_pow2_strictly_increases};
use vstd::arithmetic::div_mod::{
    lemma_div_denominator, lemma_fundamental_div_mod, lemma_mod_division_less_than_divisor,
};

verus! {

/// Number of bits needed to write `n` in binary; 0 for `n == 0`.
pub open spec fn bitlen(n: nat) -> nat
    decreases n,
{
    if n == 0 {
        0
    } else {
        1 + bitlen(n / 2)
    }
}

/// The `i`-th 120-bit limb of `v`, least-significant limb first.
pub open spec fn limb_at(v: nat, i: nat) -> nat {
    (v / pow2(120 * i)) % pow2(120)
}

/// How many limbs the decomposition of `v` has: `max(1, ceil(bitlen(v)/120))`.
/// The value 0 still yields one (zero) limb.
pub open spec fn limb_count(v: nat) -> nat {
    if v == 0 {
        1
    } else {
        (bitlen(v) + 119) / 120
    }
}

/// The value a sequence of limbs denotes: `sum limbs[i] * 2^(120*i)`,
/// least-significant limb first.
pub open spec fn limbs_value(limbs: Seq<nat>) -> nat
    decreases limbs.len(),
{
    if limbs.len() == 0 {
        0
    } else {
        limbs[0] + pow2(120) * limbs_value(limbs.drop_first())
    }
}

/// The limb decomposition of `v` as a sequence of `count` values.
pub open spec fn limbs_of(v: nat, count: nat) -> Seq<nat> {
    Seq::new(count, |i: int| limb_at(v, i as nat))
}

/// The minimal big-endian byte representation of `v`: no leading zero byte,
/// except that the value 0 is written as the single byte 0.
pub open spec fn min_be_bytes(v: nat) -> Seq<u8>
    decreases v,
{
    if v < 256 {
        seq![v as u8]
    } else {
        min_be_bytes(v / 256).push((v % 256) as u8)
    }
}

/// `n` fits in `bitlen(n)` bits.
pub proof fn lemma_bitlen_upper(n: nat)
    ensures
        n < pow2(bitlen(n)),
    decreases n,
{
    if n == 0 {
        assert(pow2(0) == 1) by {
            vstd::arithmetic::power2::lemma2_to64();
        }
    } else {
        lemma_bitlen_upper(n / 2);
        assert(pow2(bitlen(n)) == 2 * pow2(bitlen(n / 2))) by {
            lemma_pow2_adds(1, bitlen(n / 2));
            vstd::arithmetic::power2::lemma2_to64();
        }
        assert(n < 2 * pow2(bitlen(n / 2))) by {
            lemma_fundamental_div_mod(n as int, 2);
        }
    }
}

/// No fewer than `bitlen(n)` bits suffice: `n >= 2^(bitlen(n)-1)` for `n > 0`.
pub proof fn lemma_bitlen_lower(n: nat)
    requires
        n > 0,
    ensures
        pow2((bitlen(n) - 1) as nat) <= n,
    decreases n,
{
    if n / 2 == 0 {
        assert(bitlen(0) == 0);
        assert(bitlen(n) == 1);
        assert(pow2(0) == 1) by {
            vstd::arithmetic::power2::lemma2_to64();
        }
    } else {
        lemma_bitlen_lower(n / 2);
        assert(pow2((bitlen(n) - 1) as nat) == 2 * pow2((bitlen(n / 2) - 1) as nat)) by {
            lemma_pow2_adds(1, (bitlen(n / 2) - 1) as nat);
            vstd::arithmetic::power2::lemma2_to64();
        }
        assert(2 * pow2((bitlen(n / 2) - 1) as nat) <= n) by {
            lemma_fundamental_div_mod(n as int, 2);
        }
    }
}

/// `bitlen` grows with its argument.
pub proof fn lemma_bitlen_monotonic(a: nat, b: nat)
    requires
        a <= b,
    ensures
        bitlen(a) <= bitlen(b),
    decreases b,
{
    if a > 0 {
        lemma_bitlen_monotonic(a / 2, b / 2);
    }
}

/// A value below `2^k` has bit length at most `k`.
pub proof fn lemma_bitlen_at_most(n: nat, k: nat)
    requires
        n < pow2(k),
    ensures
        bitlen(n) <= k,
{
    if bitlen(n) > k {
        lemma_bitlen_lower(n);
        assert(pow2(k) <= pow2((bitlen(n) - 1) as nat)) by {
            if k < bitlen(n) - 1 {
                lemma_pow2_strictly_increases(k, (bitlen(n) - 1) as nat);
            }
        }
        assert(false);
    }
}

/// Any value fits in the limbs its decomposition allots to it.
pub proof fn lemma_value_fits_limbs(v: nat)
    ensures
        v < pow2(120 * limb_count(v)),
{
    lemma_pow2_pos(120 * limb_count(v));
    if v > 0 {
        let b = bitlen(v);
        let count = (b + 119) / 120;
        assert(b <= 120 * count) by {
            lemma_fundamental_div_mod(b as int + 119, 120);
            lemma_mod_division_less_than_divisor(b as int + 119, 120);
        }
        lemma_bitlen_upper(v);
        if b < 120 * count {
            lemma_pow2_strictly_increases(b, 120 * count);
        }
    }
}

/// Reconstruction: the weighted sum of the first `count` limbs of a value
/// that fits in `count` limbs gives that value back exactly.
pub proof fn lemma_limbs_reconstruct(v: nat, count: nat)
    requires
        v < pow2(120 * count),
    ensures
        limbs_value(limbs_of(v, count)) == v,
    decreases count,
{
    lemma_pow2_pos(120);
    if count == 0 {
        assert(pow2(0) == 1) by {
            vstd::arithmetic::power2::lemma2_to64();
        }
        assert(limbs_of(v, 0).len() == 0);
    } else {
        let p = pow2(120);
        let v1 = v / p;
        let whole = limbs_of(v, count);
        let tail = whole.drop_first();
        assert forall|j: int| 0 <= j < count - 1 implies tail[j] == limb_at(
            v1,
            j as nat,
        ) by {
            lemma_pow2_adds(120, (120 * j) as nat);
            lemma_pow2_pos((120 * j) as nat);
            lemma_div_denominator(v as int, p as int, pow2((120 * j) as nat) as int);
            assert(120 * (j + 1) == 120 + 120 * j) by (nonlinear_arith);
        }
        assert(tail =~= limbs_of(v1, (count - 1) as nat));
        assert(v1 < pow2(120 * (count - 1) as nat)) by {
            lemma_pow2_adds(120, 120 * (count - 1) as nat);
            assert(120 * count == 120 + 120 * (count - 1)) by (nonlinear_arith);
            vstd::arithmetic::div_mod::lemma_multiply_divide_lt(
                v as int,
                p as int,
                pow2(120 * (count - 1) as nat) as int,
            );
        }
        lemma_limbs_reconstruct(v1, (count - 1) as nat);
        assert(limb_at(v, 0) == v % p) by {
            assert(pow2(0) == 1) by {
                vstd::arithmetic::power2::lemma2_to64();
            }
            assert(120 * 0 == 0);
            vstd::arithmetic::div_mod::lemma_div_basics_1(v as int);
        }
        lemma_fundamental_div_mod(v as int, p as int);
        assert(limbs_value(whole) == limb_at(v, 0) + p * limbs_value(tail));
    }
}

/// Round-trip law: splitting a value into its `limb_count` limbs and
/// summing `limb[i] * 2^(120*i)` yields the value back, for every value.
pub proof fn lemma_split_round_trip(v: nat)
    ensures
        limbs_value(limbs_of(v, limb_count(v))) == v,
{
    lemma_value_fits_limbs(v);
    lemma_limbs_reconstruct(v, limb_count(v));
}

} // verus!
