//! The tensor product of states: the Kronecker product of their vectors,
//! normalized.

use crate::complex::{
    lemma_norm_sqr_times, lemma_times_associative, lemma_times_scaled, values, wide_capacity,
    wide_values, Complex, Gaussian, Wide,
};
use crate::number::lemma_quotient_below;
use crate::vector::{
    basis, content, is_state, is_zero_vector, lemma_basis_is_state, lemma_content_zero,
    lemma_primitive_direction, lemma_primitive_is_state, lemma_primitive_scaled,
    lemma_state_is_primitive, primitive, scaled,
};
use vstd::arithmetic::div_mod::{lemma_fundamental_div_mod, lemma_fundamental_div_mod_converse};
use vstd::arithmetic::power2::{lemma2_to64, lemma_pow2_unfold, pow2};
use vstd::prelude::*;

verus! {

/// The Kronecker product of two vectors: entry `i * b.len() + j` is `a[i] * b[j]`,
/// so that the index into `a` takes the high-order position.
pub open spec fn kronecker(a: Seq<Gaussian>, b: Seq<Gaussian>) -> Seq<Gaussian> {
    Seq::new(a.len() * b.len(), |k: int| a[k / (b.len() as int)].times(b[k % (b.len() as int)]))
}

/// The tensor product of two states: their Kronecker product, normalized.
pub open spec fn tensor(a: Seq<Gaussian>, b: Seq<Gaussian>) -> Seq<Gaussian> {
    primitive(kronecker(a, b))
}

/// The index that a sequence of classical bits names, the first bit in the
/// highest-order position.
pub open spec fn joined_index(bits: Seq<bool>) -> nat
    decreases bits.len(),
{
    if bits.len() == 0 {
        0
    } else {
        2 * joined_index(bits.drop_last()) + (if bits.last() { 1nat } else { 0nat })
    }
}

/// The state of a sequence of qubits, each in the basis state that its bit names:
/// the tensor product of the states from left to right, normalized at each step.
pub open spec fn joined_state(bits: Seq<bool>) -> Seq<Gaussian>
    decreases bits.len(),
{
    if bits.len() == 0 {
        basis(1, 0)
    } else {
        tensor(joined_state(bits.drop_last()), basis(2, if bits.last() { 1 } else { 0 }))
    }
}

/// Entry `i * b.len() + j` of the Kronecker product is `a[i] * b[j]`.
pub proof fn lemma_kronecker_entry(a: Seq<Gaussian>, b: Seq<Gaussian>, i: int, j: int)
    requires
        0 <= i < a.len(),
        0 <= j < b.len(),
    ensures
        0 <= i * b.len() + j < a.len() * b.len(),
        kronecker(a, b)[i * b.len() + j] == a[i].times(b[j]),
{
    let d = b.len() as int;
    assert(0 <= i * d + j < a.len() * d) by (nonlinear_arith)
        requires
            0 <= i < a.len(),
            0 <= j < d,
    ;
    lemma_fundamental_div_mod_converse(i * d + j, d, i, j);
}

/// The Kronecker product of two nonzero vectors is not zero.
pub proof fn lemma_kronecker_nonzero(a: Seq<Gaussian>, b: Seq<Gaussian>)
    requires
        !is_zero_vector(a),
        !is_zero_vector(b),
    ensures
        !is_zero_vector(kronecker(a, b)),
{
    let i = choose|i: int| 0 <= i < a.len() && #[trigger] a[i] != Gaussian::zero();
    let j = choose|j: int| 0 <= j < b.len() && #[trigger] b[j] != Gaussian::zero();
    lemma_kronecker_entry(a, b, i, j);
    lemma_norm_sqr_times(a[i], b[j]);
    assert(kronecker(a, b)[i * b.len() + j] != Gaussian::zero());
}

/// A real factor can be taken out of either side of a Kronecker product.
pub proof fn lemma_kronecker_scaled(a: Seq<Gaussian>, b: Seq<Gaussian>, k: int)
    ensures
        kronecker(scaled(a, k), b) == scaled(kronecker(a, b), k),
        kronecker(a, scaled(b, k)) == scaled(kronecker(a, b), k),
{
    let p = kronecker(a, b);
    let lb = b.len() as int;
    assert forall|t: int| 0 <= t < p.len() implies kronecker(scaled(a, k), b)[t] == scaled(p, k)[t]
        && kronecker(a, scaled(b, k))[t] == scaled(p, k)[t] by {
        assert(lb > 0) by (nonlinear_arith)
            requires
                0 <= t < a.len() * lb,
                lb >= 0,
        ;
        lemma_quotient_below(t, a.len() as int, lb);
        lemma_times_scaled(a[t / lb], b[t % lb], k);
    }
    assert(kronecker(scaled(a, k), b) =~= scaled(p, k));
    assert(kronecker(a, scaled(b, k)) =~= scaled(p, k));
}

/// The Kronecker product is associative.
pub proof fn lemma_kronecker_is_associative(a: Seq<Gaussian>, b: Seq<Gaussian>, c: Seq<Gaussian>)
    ensures
        kronecker(kronecker(a, b), c) == kronecker(a, kronecker(b, c)),
{
    let (la, lb, lc) = (a.len() as int, b.len() as int, c.len() as int);
    let left = kronecker(kronecker(a, b), c);
    let right = kronecker(a, kronecker(b, c));
    assert((la * lb) * lc == la * (lb * lc)) by (nonlinear_arith);
    assert forall|t: int| 0 <= t < left.len() implies left[t] == right[t] by {
        assert(lb * lc > 0 && lc > 0) by (nonlinear_arith)
            requires
                0 <= t < la * (lb * lc),
                la >= 0,
                lb >= 0,
                lc >= 0,
        ;
        let i = t / (lb * lc);
        let r = t % (lb * lc);
        lemma_quotient_below(t, la, lb * lc);
        lemma_fundamental_div_mod(t, lb * lc);
        let j = r / lc;
        let k = r % lc;
        lemma_quotient_below(r, lb, lc);
        lemma_fundamental_div_mod(r, lc);
        let s = i * lb + j;
        assert(t == s * lc + k && t == i * (lb * lc) + (j * lc + k)) by (nonlinear_arith)
            requires
                t == (lb * lc) * i + r,
                r == lc * j + k,
                s == i * lb + j,
        ;
        lemma_kronecker_entry(a, b, i, j);
        lemma_kronecker_entry(kronecker(a, b), c, s, k);
        lemma_kronecker_entry(b, c, j, k);
        lemma_kronecker_entry(a, kronecker(b, c), i, j * lc + k);
        lemma_times_associative(a[i], b[j], c[k]);
    }
    assert(left =~= right);
}

/// The tensor product of states is associative.
pub proof fn lemma_tensor_is_associative(a: Seq<Gaussian>, b: Seq<Gaussian>, c: Seq<Gaussian>)
    requires
        is_state(a),
        is_state(b),
        is_state(c),
    ensures
        tensor(tensor(a, b), c) == tensor(a, tensor(b, c)),
{
    lemma_content_zero(a);
    lemma_content_zero(b);
    lemma_content_zero(c);
    let ab = kronecker(a, b);
    let bc = kronecker(b, c);
    lemma_kronecker_nonzero(a, b);
    lemma_kronecker_nonzero(b, c);
    lemma_primitive_direction(ab);
    lemma_primitive_direction(bc);
    lemma_primitive_is_state(ab);
    lemma_primitive_is_state(bc);
    lemma_content_zero(primitive(ab));
    lemma_content_zero(primitive(bc));
    // The left side is the primitive vector of `(a x b) x c`.
    lemma_kronecker_scaled(primitive(ab), c, content(ab) as int);
    lemma_kronecker_nonzero(primitive(ab), c);
    lemma_primitive_scaled(kronecker(primitive(ab), c), content(ab));
    // The right side is the primitive vector of `a x (b x c)`.
    lemma_kronecker_scaled(a, primitive(bc), content(bc) as int);
    lemma_kronecker_nonzero(a, primitive(bc));
    lemma_primitive_scaled(kronecker(a, primitive(bc)), content(bc));
    lemma_kronecker_is_associative(a, b, c);
}

/// The Kronecker product of two basis vectors is the basis vector of the joined
/// index, with the left index in the high-order position.
pub proof fn lemma_kronecker_of_basis(d1: nat, i: nat, d2: nat, j: nat)
    requires
        i < d1,
        j < d2,
    ensures
        i * d2 + j < d1 * d2,
        kronecker(basis(d1, i), basis(d2, j)) == basis(d1 * d2, i * d2 + j),
        tensor(basis(d1, i), basis(d2, j)) == basis(d1 * d2, i * d2 + j),
{
    let a = basis(d1, i);
    let b = basis(d2, j);
    let k = kronecker(a, b);
    let e = basis(d1 * d2, i * d2 + j);
    lemma_kronecker_entry(a, b, i as int, j as int);
    assert forall|t: int| 0 <= t < k.len() implies k[t] == e[t] by {
        let q = t / (d2 as int);
        let r = t % (d2 as int);
        lemma_fundamental_div_mod(t, d2 as int);
        assert(d2 * q == q * d2) by (nonlinear_arith);
        lemma_quotient_below(t, d1 as int, d2 as int);
        if q == i && r == j {
            assert(t == i * d2 + j);
        } else {
            assert(t != i * d2 + j) by {
                if t == i * d2 + j {
                    lemma_fundamental_div_mod_converse(t, d2 as int, i as int, j as int);
                }
            }
        }
    }
    assert(k =~= e);
    lemma_basis_is_state(d1 * d2, i * d2 + j);
    lemma_state_is_primitive(e);
}

/// The tensor product of `n` qubits in basis states is the basis state of `n`
/// qubits at the index that their bits form.
pub proof fn lemma_joined_state_is_basis(bits: Seq<bool>)
    ensures
        joined_index(bits) < pow2(bits.len()),
        joined_state(bits) == basis(pow2(bits.len()), joined_index(bits)),
    decreases bits.len(),
{
    if bits.len() == 0 {
        lemma2_to64();
    } else {
        let head = bits.drop_last();
        let bit: nat = if bits.last() { 1 } else { 0 };
        lemma_joined_state_is_basis(head);
        lemma_pow2_unfold(bits.len());
        lemma_kronecker_of_basis(pow2(head.len()), joined_index(head), 2, bit);
        assert(pow2(head.len()) * 2 == 2 * pow2(head.len())) by (nonlinear_arith);
        assert(joined_index(head) * 2 + bit == joined_index(bits)) by (nonlinear_arith)
            requires
                joined_index(bits) == 2 * joined_index(head) + bit,
        ;
    }
}

/// The Kronecker product of two vectors, computed by nalgebra's `Matrix::kronecker`
/// on column vectors of complex numbers with 128-bit parts.
///
/// The contract states the product entry by entry. The bounds keep each of the three
/// vectors within one allocation; with 32-bit parts no product of two entries leaves
/// the range of the 128-bit parts.
#[verifier::external_body]
pub(crate) fn kronecker_of(a: &Vec<Complex>, b: &Vec<Complex>) -> (out: Vec<Wide>)
    requires
        a.len() <= wide_capacity(),
        b.len() <= wide_capacity(),
        a.len() * b.len() <= wide_capacity(),
    ensures
        wide_values(out@) == kronecker(values(a@), values(b@)),
{
    let lhs = nalgebra::DVector::from_iterator(
        a.len(),
        a.iter().map(|c| nalgebra::Complex::new(i128::from(c.re), i128::from(c.im))),
    );
    let rhs = nalgebra::DVector::from_iterator(
        b.len(),
        b.iter().map(|c| nalgebra::Complex::new(i128::from(c.re), i128::from(c.im))),
    );
    lhs.kronecker(&rhs).iter().map(|c| Wide { re: c.re, im: c.im }).collect()
}

} // verus!
