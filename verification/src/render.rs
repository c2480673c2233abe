//! Rendering limbs as `0x`-prefixed lowercase hexadecimal strings, two
//! digits per byte of the minimal big-endian byte representation.

use vstd::prelude::*;
use vstd::string::StringExecFns;
use num_bigint::BigUint;
use crate::bigint::{big_value, big_to_bytes_be};
use crate::arith::min_be_bytes;

verus! {

/// The lowercase hexadecimal digit of a value below 16.
pub open spec fn hex_char(d: nat) -> char
    recommends
        d < 16,
{
    if d == 0 {
        '0'
    } else if d == 1 {
        '1'
    } else if d == 2 {
        '2'
    } else if d == 3 {
        '3'
    } else if d == 4 {
        '4'
    } else if d == 5 {
        '5'
    } else if d == 6 {
        '6'
    } else if d == 7 {
        '7'
    } else if d == 8 {
        '8'
    } else if d == 9 {
        '9'
    } else if d == 10 {
        'a'
    } else if d == 11 {
        'b'
    } else if d == 12 {
        'c'
    } else if d == 13 {
        'd'
    } else if d == 14 {
        'e'
    } else {
        'f'
    }
}

/// The lowercase hexadecimal writing of a byte sequence: two digits per
/// byte, high nibble first.
pub open spec fn hex_of(bytes: Seq<u8>) -> Seq<char>
    decreases bytes.len(),
{
    if bytes.len() == 0 {
        Seq::<char>::empty()
    } else {
        hex_of(bytes.drop_last()) + seq![
            hex_char(bytes.last() as nat / 16),
            hex_char(bytes.last() as nat % 16),
        ]
    }
}

/// The rendering of one limb value: `0x`, then the lowercase hexadecimal
/// digits of its minimal big-endian bytes.
pub open spec fn hex_limb_string(v: nat) -> Seq<char> {
    seq!['0', 'x'] + hex_of(min_be_bytes(v))
}

/// Relies on `hex::encode`: the lowercase hexadecimal digits of the bytes,
/// two per byte, high nibble first.
#[verifier::external_body]
fn hex_encode(bytes: &Vec<u8>) -> (r: String)
    ensures
        r@ == hex_of(bytes@),
{
    hex::encode(bytes)
}

/// Render one limb as its `0x`-prefixed lowercase hexadecimal string.
pub fn limb_to_hex_string(limb: &BigUint) -> (r: String)
    ensures
        r@ == hex_limb_string(big_value(*limb)),
{
    let bytes = big_to_bytes_be(limb);
    let digits = hex_encode(&bytes);
    proof {
        reveal_strlit("0x");
        assert("0x"@ =~= seq!['0', 'x']);
    }
    let mut s = String::from_str("0x");
    s.append(digits.as_str());
    proof {
        assert(s@ =~= hex_limb_string(big_value(*limb)));
    }
    s
}

/// Render every limb of a sequence, keeping the order.
pub fn limbs_to_hex_strings(limbs: &Vec<BigUint>) -> (r: Vec<String>)
    ensures
        r@.len() == limbs@.len(),
        forall|i: int| 0 <= i < r@.len() ==> r@[i]@ == hex_limb_string(
            big_value(limbs@[i]),
        ),
{
    let mut r: Vec<String> = Vec::new();
    let mut i: usize = 0;
    while i < limbs.len()
        invariant
            0 <= i <= limbs@.len(),
            r@.len() == i as nat,
            forall|j: int| 0 <= j < i ==> r@[j]@ == hex_limb_string(big_value(limbs@[j])),
        decreases limbs@.len() - i,
    {
        let s = limb_to_hex_string(&limbs[i]);
        r.push(s);
        i = i + 1;
    }
    r
}

} // verus!
