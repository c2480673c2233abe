//! Decomposition of arbitrary-precision unsigned integers into 120-bit limbs,
//! and derivation of the Barrett reduction parameter for a modulus.
//!
//! The crate parses a numeral (decimal, or hexadecimal with a `0x` prefix)
//! into an arbitrary-precision integer, splits such an integer into an
//! ordered sequence of 120-bit limbs (least-significant limb first), and
//! computes `floor(4^bitlen(N) / N)`, the constant that lets a fixed-width
//! circuit reduce values modulo `N` without dividing.

use vstd::prelude::*;

pub mod arith;
pub mod barrett;
pub mod bigint;
pub mod limbs;
pub mod parse;
pub mod render;

verus! {

use crate::arith::{bitlen, limb_at, limb_count};
use crate::barrett::{barrett_parameter, MAX_MODULUS_BITS};
use crate::bigint::{big_value, big_bits};
use crate::limbs::split_into_120_bit_limbs;
use crate::parse::{is_well_formed_numeral, numeral_value, parse_bignum};
use crate::render::{hex_limb_string, limbs_to_hex_strings};

/// The ways a request can fail.
///
/// `InternalArithmeticError` is reserved for defensive checks on arithmetic
/// postconditions; the verified functions of this crate prove those
/// postconditions, so no function of the crate ever returns it.
#[derive(Clone, Copy, Debug, PartialEq, Eq, Structural)]
pub enum BnError {
    /// The input string is not a well-formed numeral for its base.
    ParseError,
    /// The modulus is 0 or 1, or wider than `MAX_MODULUS_BITS` bits.
    InvalidModulus,
    /// A defensive arithmetic check failed.
    InternalArithmeticError,
}

/// Parse `bn_str` as an arbitrary-precision unsigned integer and return its
/// 120-bit limb decomposition as `0x`-prefixed lowercase hexadecimal
/// strings, least-significant limb first.
///
/// Fails with `ParseError` if and only if `bn_str` is not a well-formed
/// numeral (nonempty decimal, or `0x` followed by nonempty hexadecimal).
pub fn bn_limbs_from_string(bn_str: String) -> (r: Result<Vec<String>, BnError>)
    ensures
        r is Ok <==> is_well_formed_numeral(bn_str@),
        r is Err ==> r->Err_0 == BnError::ParseError,
        r is Ok ==> ({
            let v = numeral_value(bn_str@);
            &&& r->Ok_0@.len() == limb_count(v)
            &&& forall|i: int| 0 <= i < r->Ok_0@.len() ==> r->Ok_0@[i]@ == hex_limb_string(
                limb_at(v, i as nat),
            )
        }),
{
    let bn = match parse_bignum(bn_str.as_str()) {
        Ok(bn) => bn,
        Err(e) => {
            return Err(e);
        },
    };
    let num_bits = big_bits(&bn);
    let limbs = split_into_120_bit_limbs(&bn, num_bits);
    let strings = limbs_to_hex_strings(&limbs);
    proof {
        let v = numeral_value(bn_str@);
        assert forall|i: int| 0 <= i < strings@.len() implies strings@[i]@ == hex_limb_string(
            limb_at(v, i as nat),
        ) by {
            assert(crate::limbs::big_values(limbs@)[i] == big_value(limbs@[i]));
            assert(crate::arith::limbs_of(v, limb_count(v))[i] == limb_at(v, i as nat));
        }
    }
    Ok(strings)
}

/// Parse `bn_str` as a modulus, compute its Barrett reduction parameter
/// `floor(4^bitlen(N) / N)`, and return the parameter's 120-bit limb
/// decomposition as `0x`-prefixed lowercase hexadecimal strings,
/// least-significant limb first.
///
/// Fails with `ParseError` if and only if `bn_str` is not a well-formed
/// numeral, and with `InvalidModulus` if and only if the numeral is
/// well-formed but denotes 0, 1, or a value wider than `MAX_MODULUS_BITS`
/// bits.
pub fn redc_limbs_from_string(bn_str: String) -> (r: Result<Vec<String>, BnError>)
    ensures
        r is Ok <==> (is_well_formed_numeral(bn_str@) && 2 <= numeral_value(bn_str@)
            && bitlen(numeral_value(bn_str@)) <= MAX_MODULUS_BITS),
        !is_well_formed_numeral(bn_str@) ==> r is Err && r->Err_0 == BnError::ParseError,
        is_well_formed_numeral(bn_str@) && r is Err ==> r->Err_0 == BnError::InvalidModulus,
        r is Ok ==> ({
            let p = barrett_parameter(numeral_value(bn_str@));
            &&& r->Ok_0@.len() == limb_count(p)
            &&& forall|i: int| 0 <= i < r->Ok_0@.len() ==> r->Ok_0@[i]@ == hex_limb_string(
                limb_at(p, i as nat),
            )
        }),
{
    let bn = match parse_bignum(bn_str.as_str()) {
        Ok(bn) => bn,
        Err(e) => {
            return Err(e);
        },
    };
    let redc_param = match crate::barrett::compute_barrett_reduction_parameter(&bn) {
        Ok(p) => p,
        Err(e) => {
            return Err(e);
        },
    };
    let param_bits = big_bits(&redc_param);
    let limbs = split_into_120_bit_limbs(&redc_param, param_bits);
    let strings = limbs_to_hex_strings(&limbs);
    proof {
        let p = barrett_parameter(numeral_value(bn_str@));
        assert forall|i: int| 0 <= i < strings@.len() implies strings@[i]@ == hex_limb_string(
            limb_at(p, i as nat),
        ) by {
            assert(crate::limbs::big_values(limbs@)[i] == big_value(limbs@[i]));
            assert(crate::arith::limbs_of(p, limb_count(p))[i] == limb_at(p, i as nat));
        }
    }
    Ok(strings)
}

} // verus!
