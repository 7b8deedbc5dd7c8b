use qubits::complex::Complex;
use qubits::error::Error;
use qubits::gate::{Gate, MatrixOperator};
use qubits::qubit::Qubit;
use qubits::register::Register;
use std::f64::consts::FRAC_1_SQRT_2;

fn unit_amplitudes(r: &Register) -> Vec<(f64, f64)> {
    let total: f64 = r.amplitudes().iter().map(|c| c.norm_sqr() as f64).sum();
    r.amplitudes()
        .iter()
        .map(|c| (c.re as f64 / total.sqrt(), c.im as f64 / total.sqrt()))
        .collect()
}

fn close(a: f64, b: f64) -> bool {
    (a - b).abs() < 1e-12
}

#[test]
pub fn test_hadamard_0() {
    let mut q: Register = Qubit::zero().into();
    let h = Gate::hadamard();

    h.apply_mut(&mut q).unwrap();
    assert_eq!(q, Qubit::from_re(1, 1).unwrap().into());
    let amplitudes = unit_amplitudes(&q);
    assert!(close(amplitudes[0].0, FRAC_1_SQRT_2) && close(amplitudes[0].1, 0.0));
    assert!(close(amplitudes[1].0, FRAC_1_SQRT_2) && close(amplitudes[1].1, 0.0));
    h.apply_mut(&mut q).unwrap();
    assert_eq!(q, Qubit::zero().into());
}

#[test]
pub fn test_hadamard_1() {
    let mut q: Register = Qubit::one().into();
    let h = Gate::hadamard();

    h.apply_mut(&mut q).unwrap();
    assert_eq!(q, Qubit::from_re(1, -1).unwrap().into());
    let amplitudes = unit_amplitudes(&q);
    assert!(close(amplitudes[0].0, FRAC_1_SQRT_2) && close(amplitudes[0].1, 0.0));
    assert!(close(amplitudes[1].0, -FRAC_1_SQRT_2) && close(amplitudes[1].1, 0.0));
    h.apply_mut(&mut q).unwrap();
    assert_eq!(q, Qubit::one().into());
}

#[test]
pub fn test_not() {
    let mut q: Register = Qubit::zero().into();
    let x = Gate::not();

    x.apply_mut(&mut q).unwrap();
    assert_eq!(q, Qubit::one().into());
    x.apply_mut(&mut q).unwrap();
    assert_eq!(q, Qubit::zero().into());
}

#[test]
fn apply_returns_the_new_state_and_keeps_the_old() {
    let r: Register = Qubit::zero().into();
    let s = Gate::not().apply(&r).unwrap();
    assert_eq!(s, Qubit::one().into());
    assert_eq!(r, Qubit::zero().into());
    let t = Gate::hadamard().apply(&r).unwrap();
    assert_eq!(t, Qubit::from_re(1, 1).unwrap().into());
}

#[test]
fn apply_multiplies_rows_with_the_state() {
    // The matrix 1 2 / 3 4 on (5, 6) gives (17, 39).
    let m = MatrixOperator::new_normalize(
        2,
        &[Complex::new(1, 0), Complex::new(2, 0), Complex::new(3, 0), Complex::new(4, 0)],
    )
    .unwrap();
    let r = Register::from_slice(&[Complex::new(5, 0), Complex::new(6, 0)]).unwrap();
    let s = Gate::from(m).apply(&r).unwrap();
    assert_eq!(s.amplitudes(), &vec![Complex::new(17, 0), Complex::new(39, 0)]);
}

#[test]
fn apply_multiplies_complex_entries() {
    // The matrix i 0 / 0 1 on (1 + i, 2) gives (-1 + i, 2).
    let m = MatrixOperator::new_normalize(
        2,
        &[Complex::new(0, 1), Complex::new(0, 0), Complex::new(0, 0), Complex::new(1, 0)],
    )
    .unwrap();
    let r = Register::from_slice(&[Complex::new(1, 1), Complex::new(2, 0)]).unwrap();
    let s = Gate::from(m).apply(&r).unwrap();
    assert_eq!(s.amplitudes(), &vec![Complex::new(-1, 1), Complex::new(2, 0)]);
}

#[test]
fn apply_normalizes_the_product() {
    // Hadamard on (1, 1) gives (2, 0), which is |0>.
    let r = Register::from_slice(&[Complex::new(1, 0), Complex::new(1, 0)]).unwrap();
    let s = Gate::hadamard().apply(&r).unwrap();
    assert_eq!(s.amplitudes(), &vec![Complex::new(1, 0), Complex::new(0, 0)]);
}

#[test]
fn a_gate_of_another_dimension_is_refused() {
    let mut r = Register::from_int(2, 1).unwrap();
    assert_eq!(Gate::hadamard().apply(&r).err(), Some(Error::DimensionMismatch));
    assert_eq!(Gate::not().apply_mut(&mut r), Err(Error::DimensionMismatch));
    assert_eq!(r, Register::from_int(2, 1).unwrap());
}

#[test]
fn a_gate_that_sends_the_state_to_zero_is_reported() {
    let m = MatrixOperator::new_normalize(
        2,
        &[Complex::new(1, 0), Complex::new(1, 0), Complex::new(1, 0), Complex::new(1, 0)],
    )
    .unwrap();
    let g = Gate::from(m);
    let mut r = Register::from_slice(&[Complex::new(1, 0), Complex::new(-1, 0)]).unwrap();
    assert_eq!(g.apply(&r).err(), Some(Error::ZeroVector));
    assert_eq!(g.apply_mut(&mut r), Err(Error::ZeroVector));
    assert_eq!(
        r,
        Register::from_slice(&[Complex::new(1, 0), Complex::new(-1, 0)]).unwrap()
    );
}

#[test]
fn an_amplitude_out_of_range_is_reported() {
    let big = Complex::new(i32::MAX, 0);
    let m = MatrixOperator::new_normalize(
        2,
        &[big, Complex::new(1, 0), Complex::new(1, 0), Complex::new(1, 0)],
    )
    .unwrap();
    let r = Register::from_slice(&[big, Complex::new(1, 0)]).unwrap();
    assert_eq!(Gate::from(m).apply(&r).err(), Some(Error::Overflow));
}

#[test]
fn a_matrix_must_be_square_and_nonzero() {
    let one = Complex::new(1, 0);
    assert_eq!(
        MatrixOperator::new_normalize(2, &[one, one, one]).err(),
        Some(Error::DimensionMismatch)
    );
    assert_eq!(
        MatrixOperator::new_normalize(usize::MAX, &[one]).err(),
        Some(Error::DimensionMismatch)
    );
    assert_eq!(
        MatrixOperator::new_normalize(1, &[Complex::new(0, 0)]).err(),
        Some(Error::ZeroVector)
    );
    assert!(MatrixOperator::new_normalize(1, &[one]).is_ok());
}

#[test]
fn a_gate_on_two_qubits_acts_on_the_whole_register() {
    // The swap of two qubits.
    let o = Complex::new(0, 0);
    let l = Complex::new(1, 0);
    let m = MatrixOperator::new_normalize(
        4,
        &[l, o, o, o, o, o, l, o, o, l, o, o, o, o, o, l],
    )
    .unwrap();
    let swap = Gate::from(m);
    let r = Register::from_int(2, 1).unwrap();
    assert_eq!(swap.apply(&r).unwrap(), Register::from_int(2, 2).unwrap());
    let r = Register::from_int(2, 3).unwrap();
    assert_eq!(swap.apply(&r).unwrap(), Register::from_int(2, 3).unwrap());
}

#[test]
fn hadamard_twice_returns_every_state() {
    let h = Gate::hadamard();
    for (x, y) in [(1, 0), (0, 1), (1, 1), (3, -4), (-5, 12), (7, 1)] {
        let r: Register = Qubit::from_re(x, y).unwrap().into();
        let twice = h.apply(&h.apply(&r).unwrap()).unwrap();
        assert_eq!(twice, r);
    }
}

#[test]
fn not_twice_returns_every_state() {
    let x = Gate::not();
    for (a, b) in [(1, 0), (0, 1), (1, 1), (3, -4), (-5, 12), (7, 1)] {
        let r: Register = Qubit::from_re(a, b).unwrap().into();
        let twice = x.apply(&x.apply(&r).unwrap()).unwrap();
        assert_eq!(twice, r);
    }
}

#[test]
fn a_gate_keeps_the_unit_norm() {
    let h = Gate::hadamard();
    let r: Register = Qubit::from_re(3, -4).unwrap().into();
    let s = h.apply(&r).unwrap();
    let sum: f64 = unit_amplitudes(&s).iter().map(|(re, im)| re * re + im * im).sum();
    assert!(close(sum, 1.0));
}

#[test]
fn the_matrices_of_the_named_gates() {
    let h = Gate::hadamard();
    assert_eq!(h.matrix().dim(), 2);
    assert_eq!(
        h.matrix().as_slice(),
        &[Complex::new(1, 0), Complex::new(1, 0), Complex::new(1, 0), Complex::new(-1, 0)]
    );
    let x = Gate::not();
    assert_eq!(x.matrix().dim(), 2);
    assert_eq!(
        x.matrix().as_slice(),
        &[Complex::new(0, 0), Complex::new(1, 0), Complex::new(1, 0), Complex::new(0, 0)]
    );
}

#[test]
fn a_matrix_is_normalized() {
    let two = Complex::new(2, 0);
    let m = MatrixOperator::new_normalize(2, &[two, two, two, Complex::new(-2, 0)]).unwrap();
    assert_eq!(m.dim(), 2);
    assert_eq!(m.as_slice(), Gate::hadamard().matrix().as_slice());
}

#[test]
fn hadamard_on_zero_has_the_amplitudes_of_an_equal_superposition() {
    let r: Register = Qubit::zero().into();
    let s = Gate::hadamard().apply(&r).unwrap();
    assert_eq!(s.amplitudes(), &vec![Complex::new(1, 0), Complex::new(1, 0)]);
    let mut q = Qubit::from_complex(s.amplitude(0), s.amplitude(1)).unwrap();
    assert_eq!(q, Qubit::from_re(1, 1).unwrap());
    let bit = q.measure();
    assert_eq!(q, if bit { Qubit::one() } else { Qubit::zero() });
}
