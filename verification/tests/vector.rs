use qubits::complex::{wide_capacity_of, Complex, Wide};
use qubits::error::Error;
use qubits::number::gcd_u128;
use qubits::vector::{content_of, normalize, primitive_of};

#[test]
fn gcd_of_known_pairs() {
    assert_eq!(gcd_u128(12, 18), 6);
    assert_eq!(gcd_u128(18, 12), 6);
    assert_eq!(gcd_u128(17, 5), 1);
    assert_eq!(gcd_u128(0, 9), 9);
    assert_eq!(gcd_u128(9, 0), 9);
    assert_eq!(gcd_u128(0, 0), 0);
    assert_eq!(gcd_u128(u128::MAX, u128::MAX), u128::MAX);
    assert_eq!(gcd_u128(1 << 100, 1 << 64), 1 << 64);
}

#[test]
fn gcd_divides_and_is_greatest() {
    for a in 0u128..40 {
        for b in 0u128..40 {
            let g = gcd_u128(a, b);
            if a == 0 && b == 0 {
                assert_eq!(g, 0);
                continue;
            }
            assert!(g > 0 && a % g == 0 && b % g == 0);
            for d in 1..=40u128 {
                if a % d == 0 && b % d == 0 {
                    assert_eq!(g % d, 0);
                }
            }
        }
    }
}

#[test]
fn squared_magnitude_of_known_numbers() {
    assert_eq!(Complex::new(3, 4).norm_sqr(), 25);
    assert_eq!(Complex::new(-3, 4).norm_sqr(), 25);
    assert_eq!(Complex::new(0, 0).norm_sqr(), 0);
    assert_eq!(Complex::new(i32::MIN, i32::MIN).norm_sqr(), 1u64 << 63);
    assert_eq!(Complex::zero(), Complex::new(0, 0));
    assert_eq!(Complex::one(), Complex::new(1, 0));
}

#[test]
fn content_of_known_vectors() {
    assert_eq!(content_of(&vec![]), 0);
    assert_eq!(content_of(&vec![Wide { re: 0, im: 0 }]), 0);
    assert_eq!(content_of(&vec![Wide { re: 6, im: -4 }, Wide { re: 0, im: 10 }]), 2);
    assert_eq!(content_of(&vec![Wide { re: -9, im: 0 }]), 9);
    assert_eq!(content_of(&vec![Wide { re: 6, im: 10 }, Wide { re: 15, im: 0 }]), 1);
    assert_eq!(content_of(&vec![Wide { re: i128::MIN, im: 0 }]), 1u128 << 127);
}

#[test]
fn normalize_divides_by_the_content() {
    let v = vec![Wide { re: 6, im: -4 }, Wide { re: 0, im: 10 }];
    assert_eq!(normalize(&v), Ok(vec![Complex::new(3, -2), Complex::new(0, 5)]));
    let v = vec![Wide { re: -9, im: 0 }, Wide { re: 0, im: 0 }];
    assert_eq!(normalize(&v), Ok(vec![Complex::new(-1, 0), Complex::new(0, 0)]));
}

#[test]
fn normalize_brings_wide_parts_into_range() {
    let big = 1i128 << 100;
    let v = vec![Wide { re: big, im: -big }, Wide { re: 3 * big, im: 0 }];
    assert_eq!(normalize(&v), Ok(vec![Complex::new(1, -1), Complex::new(3, 0)]));
    let v = vec![Wide { re: i128::MIN, im: 0 }];
    assert_eq!(normalize(&v), Ok(vec![Complex::new(-1, 0)]));
}

#[test]
fn normalize_keeps_the_bounds_of_the_range() {
    let v = vec![Wide { re: i32::MAX as i128, im: i32::MIN as i128 }, Wide { re: 1, im: 0 }];
    assert_eq!(
        normalize(&v),
        Ok(vec![Complex::new(i32::MAX, i32::MIN), Complex::new(1, 0)])
    );
}

#[test]
fn normalize_reports_parts_out_of_range() {
    let v = vec![Wide { re: i32::MAX as i128 + 1, im: 0 }, Wide { re: 1, im: 0 }];
    assert_eq!(normalize(&v), Err(Error::Overflow));
    let v = vec![Wide { re: 1, im: i32::MIN as i128 - 1 }];
    assert_eq!(normalize(&v), Err(Error::Overflow));
}

#[test]
fn normalize_rejects_zero_and_empty() {
    assert_eq!(normalize(&vec![]), Err(Error::ZeroVector));
    let v = vec![Wide { re: 0, im: 0 }, Wide { re: 0, im: 0 }];
    assert_eq!(normalize(&v), Err(Error::ZeroVector));
}

#[test]
fn normalize_is_idempotent_and_ignores_positive_factors() {
    let v = vec![Wide { re: 4, im: 6 }, Wide { re: -2, im: 8 }];
    let once = normalize(&v).unwrap();
    let again = primitive_of(&once).unwrap();
    assert_eq!(once, again);
    for k in 1..20i128 {
        let scaled: Vec<Wide> = v.iter().map(|c| Wide { re: k * c.re, im: k * c.im }).collect();
        assert_eq!(normalize(&scaled).unwrap(), once);
    }
}

#[test]
fn primitive_of_divides_by_the_content() {
    let v = [Complex::new(10, 0), Complex::new(0, -15)];
    assert_eq!(primitive_of(&v), Ok(vec![Complex::new(2, 0), Complex::new(0, -3)]));
    assert_eq!(primitive_of(&[]), Err(Error::ZeroVector));
    assert_eq!(primitive_of(&[Complex::zero()]), Err(Error::ZeroVector));
}

#[test]
fn the_capacity_is_a_thirty_second_of_the_address_range() {
    assert_eq!(wide_capacity_of(), isize::MAX as usize / 32);
}
