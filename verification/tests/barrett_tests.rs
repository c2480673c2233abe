use bn_limbs::{redc_limbs_from_string, BnError};
use num_bigint::BigUint;

fn reconstruct(limbs: &[String]) -> BigUint {
    let mut v = BigUint::from(0u64);
    for (i, s) in limbs.iter().enumerate() {
        let limb = BigUint::parse_bytes(s[2..].as_bytes(), 16).expect("limb must be valid hex");
        v = v + (limb << (120 * i));
    }
    v
}

fn dec(s: &str) -> BigUint {
    BigUint::parse_bytes(s.as_bytes(), 10).expect("valid decimal")
}

#[test]
fn degenerate_moduli_are_rejected() {
    assert_eq!(redc_limbs_from_string("0".to_string()), Err(BnError::InvalidModulus));
    assert_eq!(redc_limbs_from_string("1".to_string()), Err(BnError::InvalidModulus));
    assert_eq!(redc_limbs_from_string("0x1".to_string()), Err(BnError::InvalidModulus));
    assert_eq!(redc_limbs_from_string("0x0".to_string()), Err(BnError::InvalidModulus));
}

#[test]
fn parameter_of_small_modulus_is_exact() {
    // N = 3: bitlen 2, b = 4^2 = 16, parameter = floor(16/3) = 5.
    assert_eq!(redc_limbs_from_string("3".to_string()).unwrap(), vec!["0x05".to_string()]);
    // N = 255: bitlen 8, b = 4^8 = 65536, parameter = floor(65536/255) = 257.
    assert_eq!(
        redc_limbs_from_string("255".to_string()).unwrap(),
        vec!["0x0101".to_string()]
    );
}

#[test]
fn parameter_equals_floor_b_over_n() {
    let samples = [
        "2",
        "97",
        "65537",
        "123456789012345678901234567890123456789",
        // the BN254 scalar field modulus
        "21888242871839275222246405745257275088548364400416034343698204186575808495617",
    ];
    for s in samples {
        let n = dec(s);
        let k = n.bits();
        let b = BigUint::from(1u64) << (2 * k) as usize;
        let expected = b / n.clone();
        let got = reconstruct(&redc_limbs_from_string(s.to_string()).unwrap());
        assert_eq!(got, expected, "wrong parameter for N = {}", s);
    }
}

#[test]
fn barrett_reduction_error_is_bounded() {
    let moduli = [
        "3",
        "97",
        "1000003",
        "21888242871839275222246405745257275088548364400416034343698204186575808495617",
    ];
    for s in moduli {
        let n = dec(s);
        let k = n.bits();
        let b = BigUint::from(1u64) << (2 * k) as usize;
        let p = reconstruct(&redc_limbs_from_string(s.to_string()).unwrap());
        let one = BigUint::from(1u64);
        let xs = vec![
            BigUint::from(0u64),
            one.clone(),
            n.clone() - one.clone(),
            n.clone(),
            n.clone() + one.clone(),
            n.clone() * BigUint::from(7u64) + BigUint::from(5u64),
            n.clone() * n.clone() - one.clone(),
            b.clone() - one.clone(),
        ];
        for x in xs {
            if x >= b {
                continue;
            }
            let q = (x.clone() * p.clone()) / b.clone();
            let e = x.clone() - q * n.clone();
            assert!(e < n.clone() * BigUint::from(2u64), "error not below 2N for x = {}", x);
            let reduced = if e >= n { e - n.clone() } else { e };
            assert_eq!(reduced, x.clone() % n.clone(), "wrong residue for x = {}", x);
        }
    }
}
