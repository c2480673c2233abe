use bn_limbs::{bn_limbs_from_string, redc_limbs_from_string, BnError};
use num_bigint::BigUint;

/// Reconstruct the value a limb-string sequence denotes:
/// `sum(limb[i] * 2^(120*i))`, least-significant limb first.
fn reconstruct(limbs: &[String]) -> BigUint {
    let mut v = BigUint::from(0u64);
    for (i, s) in limbs.iter().enumerate() {
        assert!(s.starts_with("0x"), "limb {} lacks the 0x prefix: {}", i, s);
        let limb = BigUint::parse_bytes(s[2..].as_bytes(), 16).expect("limb must be valid hex");
        v = v + (limb << (120 * i));
    }
    v
}

fn dec(s: &str) -> BigUint {
    BigUint::parse_bytes(s.as_bytes(), 10).expect("valid decimal")
}

#[test]
fn zero_gives_one_zero_limb() {
    let limbs = bn_limbs_from_string("0".to_string()).unwrap();
    assert_eq!(limbs.len(), 1);
    assert_eq!(limbs[0], "0x00");
    assert_eq!(reconstruct(&limbs), BigUint::from(0u64));
}

#[test]
fn two_pow_120_gives_two_limbs_least_significant_first() {
    // 1329227995784915872903807060280344576 == 2^120
    let limbs =
        bn_limbs_from_string("1329227995784915872903807060280344576".to_string()).unwrap();
    assert_eq!(limbs, vec!["0x00".to_string(), "0x01".to_string()]);
    assert_eq!(reconstruct(&limbs), BigUint::from(1u64) << 120usize);
}

#[test]
fn small_values_render_exactly() {
    assert_eq!(bn_limbs_from_string("1".to_string()).unwrap(), vec!["0x01".to_string()]);
    assert_eq!(bn_limbs_from_string("255".to_string()).unwrap(), vec!["0xff".to_string()]);
    assert_eq!(bn_limbs_from_string("256".to_string()).unwrap(), vec!["0x0100".to_string()]);
    assert_eq!(
        bn_limbs_from_string("48879".to_string()).unwrap(),
        vec!["0xbeef".to_string()]
    );
    // 664613997892457936451903530140172288 == 2^119: fifteen bytes, no
    // extraneous leading zero byte.
    assert_eq!(
        bn_limbs_from_string("664613997892457936451903530140172288".to_string()).unwrap(),
        vec!["0x800000000000000000000000000000".to_string()]
    );
}

#[test]
fn hex_input_is_parsed() {
    assert_eq!(bn_limbs_from_string("0xff".to_string()).unwrap(), vec!["0xff".to_string()]);
    assert_eq!(bn_limbs_from_string("0xFF".to_string()).unwrap(), vec!["0xff".to_string()]);
    assert_eq!(
        bn_limbs_from_string("0xdeadBEEF".to_string()).unwrap(),
        vec!["0xdeadbeef".to_string()]
    );
    // Same value written in both bases decomposes identically.
    let a = bn_limbs_from_string("1329227995784915872903807060280344576".to_string()).unwrap();
    let b = bn_limbs_from_string("0x1000000000000000000000000000000".to_string()).unwrap();
    assert_eq!(a, b);
}

#[test]
fn limb_counts_follow_bit_length() {
    // bit lengths 0, 1, 119, 120, 121 and a multi-thousand-bit value
    let one = BigUint::from(1u64);
    let cases: Vec<(BigUint, usize)> = vec![
        (BigUint::from(0u64), 1),
        (BigUint::from(1u64), 1),
        (one.clone() << 118usize, 1), // 119 bits
        (one.clone() << 119usize, 1), // 120 bits
        (one.clone() << 120usize, 2), // 121 bits
        ((one.clone() << 240usize) - one.clone(), 2),
        (one.clone() << 240usize, 3),
        (one.clone() << 3000usize, 26), // 3001 bits
    ];
    for (v, count) in cases {
        let limbs = bn_limbs_from_string(v.to_str_radix(10)).unwrap();
        assert_eq!(limbs.len(), count, "wrong limb count for {}", v);
        assert_eq!(reconstruct(&limbs), v);
    }
}

#[test]
fn every_limb_is_below_2_pow_120() {
    let one = BigUint::from(1u64);
    let bound = one.clone() << 120usize;
    let samples = vec![
        dec("123456789012345678901234567890"),
        (one.clone() << 1021usize) - one.clone(),
        dec("999999999999999999999999999999999999999999999999999999999999999999999999"),
    ];
    for v in samples {
        for s in bn_limbs_from_string(v.to_str_radix(10)).unwrap() {
            let limb = BigUint::parse_bytes(s[2..].as_bytes(), 16).unwrap();
            assert!(limb < bound);
        }
    }
}

#[test]
fn round_trip_over_many_bit_lengths() {
    let one = BigUint::from(1u64);
    for bits in [1usize, 2, 7, 63, 119, 120, 121, 239, 240, 241, 360, 1000, 2048, 4099] {
        // largest value of that bit length, and one in the middle of it
        let top = (one.clone() << bits) - one.clone();
        let mid = one.clone() << (bits - 1);
        for v in [top, mid] {
            let limbs = bn_limbs_from_string(v.to_str_radix(10)).unwrap();
            assert_eq!(reconstruct(&limbs), v, "round trip failed at {} bits", bits);
        }
    }
}

#[test]
fn parser_exactness_cross_checked() {
    let s = "123456789012345678901234567890";
    let limbs = bn_limbs_from_string(s.to_string()).unwrap();
    assert_eq!(reconstruct(&limbs), dec(s));
}

#[test]
fn malformed_numerals_are_rejected() {
    for bad in ["", "0x", " 1", "1 ", "+1", "-1", "12a3", "0xg1", "1_000", "0x12 ", "0X12"] {
        assert_eq!(
            bn_limbs_from_string(bad.to_string()),
            Err(BnError::ParseError),
            "{:?} should not parse",
            bad
        );
        assert_eq!(redc_limbs_from_string(bad.to_string()), Err(BnError::ParseError));
    }
}
