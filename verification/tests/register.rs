use qubits::complex::Complex;
use qubits::error::Error;
use qubits::qubit::Qubit;
use qubits::register::Register;

#[test]
fn test_register_init_qubit() {
    let r: Register = Qubit::zero().into();

    assert_eq!(r.amplitude(0), Complex::one());
    assert_eq!(r.amplitude(1), Complex::zero());
}

#[test]
fn test_register_init_int() {
    let r: Register = Register::from_int(3, 4).unwrap();

    assert_eq!(r.amplitude(0), Complex::zero());
    assert_eq!(r.amplitude(1), Complex::zero());
    assert_eq!(r.amplitude(2), Complex::zero());
    assert_eq!(r.amplitude(3), Complex::zero());
    assert_eq!(r.amplitude(4), Complex::one());
    assert_eq!(r.amplitude(5), Complex::zero());
    assert_eq!(r.amplitude(6), Complex::zero());
    assert_eq!(r.amplitude(7), Complex::zero());
}

#[test]
fn test_register_tensor_product() {
    let b1: Register = Qubit::one().into();
    let b0: Register = Qubit::zero().into();

    let r = b1.tensor_product(&b0).unwrap();
    assert_eq!(r.amplitude(0), Complex::zero());
    assert_eq!(r.amplitude(1), Complex::zero());
    assert_eq!(r.amplitude(2), Complex::one());
    assert_eq!(r.amplitude(3), Complex::zero());
    assert_eq!(r, Register::from_int(2, 2).unwrap());

    let r2 = b1.tensor_product(&b0).unwrap().tensor_product(&b0).unwrap();
    assert_eq!(r2, Register::from_int(3, 4).unwrap());
}

#[test]
fn from_int_checks_the_index() {
    assert_eq!(Register::from_int(3, 8).err(), Some(Error::IndexOutOfRange));
    assert_eq!(Register::from_int(0, 1).err(), Some(Error::IndexOutOfRange));
    assert_eq!(Register::from_int(2, u32::MAX).err(), Some(Error::IndexOutOfRange));
    assert!(Register::from_int(3, 7).is_ok());
}

#[test]
fn from_int_checks_the_number_of_qubits() {
    assert_eq!(Register::from_int(32, 0).err(), Some(Error::Overflow));
    assert_eq!(Register::from_int(u32::MAX, 5).err(), Some(Error::Overflow));
}

#[test]
fn from_int_of_no_qubit_has_one_amplitude() {
    let r = Register::from_int(0, 0).unwrap();
    assert_eq!(r.dim(), 1);
    assert_eq!(r.amplitude(0), Complex::one());
}

#[test]
fn from_int_has_two_to_the_n_amplitudes() {
    for n in 0..10 {
        let r = Register::from_int(n, 0).unwrap();
        assert_eq!(r.dim(), 1usize << n);
    }
}

#[test]
fn from_slice_normalizes() {
    let r = Register::from_slice(&[
        Complex::new(2, 0),
        Complex::new(0, 4),
        Complex::new(-6, 2),
        Complex::new(0, 0),
    ])
    .unwrap();
    assert_eq!(
        r.amplitudes(),
        &vec![
            Complex::new(1, 0),
            Complex::new(0, 2),
            Complex::new(-3, 1),
            Complex::new(0, 0)
        ]
    );
}

#[test]
fn from_slice_rejects_zero_and_empty() {
    assert_eq!(Register::from_slice(&[]).err(), Some(Error::ZeroVector));
    assert_eq!(
        Register::from_slice(&[Complex::zero(), Complex::zero()]).err(),
        Some(Error::ZeroVector)
    );
}

#[test]
fn from_slice_takes_any_length() {
    let r = Register::from_slice(&[Complex::new(3, 0), Complex::new(3, 0), Complex::new(3, 0)])
        .unwrap();
    assert_eq!(r.dim(), 3);
    assert_eq!(r.amplitude(2), Complex::one());
}

#[test]
fn a_qubit_becomes_a_register_of_its_amplitudes() {
    let q = Qubit::from_complex(Complex::new(1, 2), Complex::new(3, -4)).unwrap();
    let r = Register::from(q);
    assert_eq!(r.dim(), 2);
    assert_eq!(r.amplitude(0), Complex::new(1, 2));
    assert_eq!(r.amplitude(1), Complex::new(3, -4));
    assert_eq!(
        r,
        Register::from_slice(&[Complex::new(1, 2), Complex::new(3, -4)]).unwrap()
    );
}

#[test]
fn tensor_product_multiplies_the_dimensions() {
    let a = Register::from_int(2, 1).unwrap();
    let b = Register::from_int(3, 5).unwrap();
    let c = Register::from_slice(&[Complex::new(1, 0), Complex::new(1, 0), Complex::new(1, 0)])
        .unwrap();
    assert_eq!(a.tensor_product(&b).unwrap().dim(), 32);
    assert_eq!(a.tensor_product(&c).unwrap().dim(), 12);
    assert_eq!(c.tensor_product(&c).unwrap().dim(), 9);
}

#[test]
fn tensor_product_puts_the_left_index_high() {
    let a = Register::from_slice(&[Complex::new(1, 0), Complex::new(2, 0)]).unwrap();
    let b = Register::from_slice(&[Complex::new(0, 1), Complex::new(3, 0), Complex::new(5, 0)])
        .unwrap();
    let ab = a.tensor_product(&b).unwrap();
    assert_eq!(
        ab.amplitudes(),
        &vec![
            Complex::new(0, 1),
            Complex::new(3, 0),
            Complex::new(5, 0),
            Complex::new(0, 2),
            Complex::new(6, 0),
            Complex::new(10, 0)
        ]
    );
    let ba = b.tensor_product(&a).unwrap();
    assert_eq!(
        ba.amplitudes(),
        &vec![
            Complex::new(0, 1),
            Complex::new(0, 2),
            Complex::new(3, 0),
            Complex::new(6, 0),
            Complex::new(5, 0),
            Complex::new(10, 0)
        ]
    );
    assert_ne!(ab, ba);
}

#[test]
fn tensor_product_multiplies_complex_amplitudes_and_normalizes() {
    // (1 + i) * (1 + i) = 2i and (1 + i) * (1 - i) = 2: the product has the
    // common divisor two.
    let a = Register::from_slice(&[Complex::new(1, 1)]).unwrap();
    let b = Register::from_slice(&[Complex::new(1, 1), Complex::new(1, -1)]).unwrap();
    let ab = a.tensor_product(&b).unwrap();
    assert_eq!(ab.amplitudes(), &vec![Complex::new(0, 1), Complex::new(1, 0)]);
}

#[test]
fn tensor_product_of_basis_states_is_the_basis_state_of_the_joined_index() {
    for bits in 0u32..16 {
        let mut r = Register::from_int(0, 0).unwrap();
        for k in (0..4).rev() {
            let q = if (bits >> k) & 1 == 1 { Qubit::one() } else { Qubit::zero() };
            r = r.tensor_product(&Register::from(q)).unwrap();
        }
        assert_eq!(r, Register::from_int(4, bits).unwrap());
    }
}

#[test]
fn tensor_product_is_associative() {
    let a = Register::from_slice(&[Complex::new(1, 2), Complex::new(3, 0)]).unwrap();
    let b = Register::from_slice(&[Complex::new(0, 1), Complex::new(1, 1)]).unwrap();
    let c = Register::from_slice(&[Complex::new(2, 0), Complex::new(0, -5)]).unwrap();
    let left = a.tensor_product(&b).unwrap().tensor_product(&c).unwrap();
    let right = a.tensor_product(&b.tensor_product(&c).unwrap()).unwrap();
    assert_eq!(left, right);
}

#[test]
fn tensor_product_reports_an_amplitude_out_of_range() {
    let a = Register::from_slice(&[Complex::new(i32::MAX, 0), Complex::new(1, 0)]).unwrap();
    assert_eq!(a.tensor_product(&a).err(), Some(Error::Overflow));
}

#[test]
fn registers_of_other_lengths_differ() {
    let a = Register::from_int(1, 0).unwrap();
    let b = Register::from_int(2, 0).unwrap();
    assert_ne!(a, b);
    assert_eq!(a, Register::from(Qubit::zero()));
}

#[test]
fn the_amplitudes_of_a_register_have_unit_norm() {
    let a = Register::from_slice(&[Complex::new(1, 2), Complex::new(3, 0)]).unwrap();
    let b = Register::from_slice(&[Complex::new(0, 1), Complex::new(1, 1)]).unwrap();
    let r = a.tensor_product(&b).unwrap();
    let total: f64 = r.amplitudes().iter().map(|c| c.norm_sqr() as f64).sum();
    let sum: f64 = r
        .amplitudes()
        .iter()
        .map(|c| {
            let re = c.re as f64 / total.sqrt();
            let im = c.im as f64 / total.sqrt();
            re * re + im * im
        })
        .sum();
    assert!((sum - 1.0).abs() < 1e-12);
}
