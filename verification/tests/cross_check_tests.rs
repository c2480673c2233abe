//! Cross-checks against an independent implementation of the same limb
//! decomposition.

use bn_limbs::bn_limbs_from_string;

/// Write a limb-string sequence the way the independent implementation
/// formats its limb arrays.
fn as_array_literal(limbs: &[String]) -> String {
    let mut r = String::from("[");
    for (i, s) in limbs.iter().enumerate() {
        r += s;
        if i + 1 < limbs.len() {
            r += ", ";
        }
    }
    r + "]"
}

#[test]
fn limb_decomposition_matches_independent_implementation() {
    let samples = [
        "1",
        "255",
        "123456789012345678901234567890",
        "1329227995784915872903807060280344576",
        "21888242871839275222246405745257275088548364400416034343698204186575808495617",
        "0xdeadbeefdeadbeefdeadbeefdeadbeefdeadbeefdeadbeefdeadbeefdeadbeef",
    ];
    for s in samples {
        let mine = as_array_literal(&bn_limbs_from_string(s.to_string()).unwrap());
        let theirs = noir_bignum_paramgen::bn_limbs_from_string(s.to_string());
        assert_eq!(mine, theirs, "decomposition of {} differs", s);
    }
}
