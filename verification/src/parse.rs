//! Parsing a numeral string into an arbitrary-precision unsigned integer.
//!
//! A numeral is decimal by convention; a `0x` prefix selects hexadecimal,
//! whose digits may be of either case. No sign, separator, or other
//! character is accepted.

use vstd::prelude::*;
use vstd::string::StrSliceExecFns;
use num_bigint::BigUint;
use crate::bigint::{big_value, big_from_u64, big_mul_u64, big_add_u64};
use crate::BnError;

verus! {

/// Is `c` a decimal digit?
pub open spec fn is_dec_digit(c: char) -> bool {
    '0' as int <= c as int <= '9' as int
}

/// The value of a decimal digit.
pub open spec fn dec_digit(c: char) -> nat {
    (c as int - '0' as int) as nat
}

/// Is `c` a hexadecimal digit (either case)?
pub open spec fn is_hex_digit(c: char) -> bool {
    is_dec_digit(c)
    || 'a' as int <= c as int <= 'f' as int
    || 'A' as int <= c as int <= 'F' as int
}

/// The value of a hexadecimal digit.
pub open spec fn hex_digit(c: char) -> nat {
    if is_dec_digit(c) {
        dec_digit(c)
    } else if 'a' as int <= c as int <= 'f' as int {
        (c as int - 'a' as int + 10) as nat
    } else {
        (c as int - 'A' as int + 10) as nat
    }
}

/// The value of a sequence of decimal digits, most significant first.
pub open spec fn dec_val(s: Seq<char>) -> nat
    decreases s.len(),
{
    if s.len() == 0 {
        0
    } else {
        dec_val(s.drop_last()) * 10 + dec_digit(s.last())
    }
}

/// The value of a sequence of hexadecimal digits, most significant first.
pub open spec fn hex_val(s: Seq<char>) -> nat
    decreases s.len(),
{
    if s.len() == 0 {
        0
    } else {
        hex_val(s.drop_last()) * 16 + hex_digit(s.last())
    }
}

/// Does `s` start with the hexadecimal marker `0x`?
pub open spec fn has_hex_prefix(s: Seq<char>) -> bool {
    s.len() >= 2 && s[0] == '0' && s[1] == 'x'
}

/// Is `s` a well-formed numeral: a nonempty all-decimal-digit string, or
/// `0x` followed by a nonempty all-hexadecimal-digit string?
pub open spec fn is_well_formed_numeral(s: Seq<char>) -> bool {
    if has_hex_prefix(s) {
        s.len() > 2 && forall|i: int| 2 <= i < s.len() ==> is_hex_digit(#[trigger] s[i])
    } else {
        s.len() > 0 && forall|i: int| 0 <= i < s.len() ==> is_dec_digit(#[trigger] s[i])
    }
}

/// The value a well-formed numeral denotes.
pub open spec fn numeral_value(s: Seq<char>) -> nat {
    if has_hex_prefix(s) {
        hex_val(s.skip(2))
    } else {
        dec_val(s)
    }
}

/// The value of one digit character, in the base selected by `hex`.
fn digit_of(c: char, hex: bool) -> (r: Option<u64>)
    ensures
        hex ==> (r is Some <==> is_hex_digit(c)),
        !hex ==> (r is Some <==> is_dec_digit(c)),
        r is Some ==> r->0 as nat == (if hex { hex_digit(c) } else { dec_digit(c) }),
{
    let cu = c as u32;
    if 48 <= cu && cu <= 57 {
        Some((cu - 48) as u64)
    } else if hex && 97 <= cu && cu <= 102 {
        Some((cu - 87) as u64)
    } else if hex && 65 <= cu && cu <= 70 {
        Some((cu - 55) as u64)
    } else {
        None
    }
}

/// Parse a numeral string into the exact arbitrary-precision unsigned
/// integer it denotes. Returns `ParseError` if and only if the string is
/// not a well-formed numeral.
pub fn parse_bignum(s: &str) -> (r: Result<BigUint, BnError>)
    ensures
        r is Ok <==> is_well_formed_numeral(s@),
        r is Err ==> r->Err_0 == BnError::ParseError,
        r is Ok ==> big_value(r->Ok_0) == numeral_value(s@),
{
    let len = s.unicode_len();
    let hex = len >= 2 && s.get_char(0) == '0' && s.get_char(1) == 'x';
    let start: usize = if hex { 2 } else { 0 };
    if len == start {
        return Err(BnError::ParseError);
    }
    let base: u64 = if hex { 16 } else { 10 };
    let mut acc = big_from_u64(0);
    let mut i: usize = start;
    while i < len
        invariant
            hex == has_hex_prefix(s@),
            start == (if hex { 2int } else { 0int }),
            base == (if hex { 16int } else { 10int }),
            len == s@.len(),
            start <= i <= len,
            len > start,
            forall|j: int| start <= j < i ==> (if hex {
                is_hex_digit(#[trigger] s@[j])
            } else {
                is_dec_digit(#[trigger] s@[j])
            }),
            big_value(acc) == (if hex {
                hex_val(s@.subrange(start as int, i as int))
            } else {
                dec_val(s@.subrange(start as int, i as int))
            }),
        decreases len - i,
    {
        let c = s.get_char(i);
        let d = match digit_of(c, hex) {
            Some(d) => d,
            None => {
                return Err(BnError::ParseError);
            },
        };
        let shifted = big_mul_u64(&acc, base);
        acc = big_add_u64(&shifted, d);
        proof {
            let pre = s@.subrange(start as int, i as int);
            let post = s@.subrange(start as int, i + 1);
            assert(post.drop_last() =~= pre);
            assert(post.last() == s@[i as int]);
        }
        i = i + 1;
    }
    proof {
        if hex {
            assert(s@.subrange(start as int, len as int) =~= s@.skip(2));
        } else {
            assert(s@.subrange(start as int, len as int) =~= s@);
        }
    }
    Ok(acc)
}

} // verus!
