//! The product of a square matrix with a vector.

use crate::complex::{values, wide_capacity, wide_values, Complex, Gaussian, Wide};
use vstd::prelude::*;

verus! {

/// The sum of `row[j] * v[j]` over the indices of `row`.
pub open spec fn dot(row: Seq<Gaussian>, v: Seq<Gaussian>) -> Gaussian
    decreases row.len(),
{
    if row.len() == 0 {
        Gaussian::zero()
    } else {
        dot(row.drop_last(), v).plus(row.last().times(v[row.len() - 1]))
    }
}

/// Row `i` of the square matrix that `m` holds row by row, for vectors of length `d`.
pub open spec fn row(m: Seq<Gaussian>, d: nat, i: int) -> Seq<Gaussian> {
    m.subrange(i * d, (i + 1) * d)
}

/// The product of the square matrix `m`, held row by row, with the vector `v`.
pub open spec fn matrix_product(m: Seq<Gaussian>, v: Seq<Gaussian>) -> Seq<Gaussian> {
    Seq::new(v.len(), |i: int| dot(row(m, v.len(), i), v))
}

/// The dot product of two pairs.
pub proof fn lemma_dot_of_two(r: Seq<Gaussian>, v: Seq<Gaussian>)
    requires
        r.len() == 2,
    ensures
        dot(r, v) == r[0].times(v[0]).plus(r[1].times(v[1])),
{
    let head = r.drop_last();
    assert(head.len() == 1 && head.last() == r[0]);
    assert(head.drop_last().len() == 0);
    assert(dot(head.drop_last(), v) == Gaussian::zero());
    assert(dot(head, v) == Gaussian::zero().plus(r[0].times(v[0])));
    assert(dot(head, v) == r[0].times(v[0]));
}

/// The product of a matrix of dimension two with a pair.
pub proof fn lemma_matrix_product_of_two(m: Seq<Gaussian>, v: Seq<Gaussian>)
    requires
        m.len() == 4,
        v.len() == 2,
    ensures
        matrix_product(m, v) == seq![
            m[0].times(v[0]).plus(m[1].times(v[1])),
            m[2].times(v[0]).plus(m[3].times(v[1])),
        ],
{
    let top = row(m, 2, 0);
    let bottom = row(m, 2, 1);
    assert(top =~= seq![m[0], m[1]]);
    assert(bottom =~= seq![m[2], m[3]]);
    lemma_dot_of_two(top, v);
    lemma_dot_of_two(bottom, v);
    assert(matrix_product(m, v) =~= seq![
        m[0].times(v[0]).plus(m[1].times(v[1])),
        m[2].times(v[0]).plus(m[3].times(v[1])),
    ]);
}

/// The product of a square matrix, given row by row, with a vector, computed by
/// nalgebra's `Mul` for a matrix and a vector of complex numbers with 128-bit parts.
///
/// The contract states each entry of the product as the dot product of a row with
/// the vector. The bound keeps the matrix within one allocation; with 32-bit parts
/// and at most that many terms no partial sum leaves the range of the 128-bit parts.
#[verifier::external_body]
pub(crate) fn matrix_product_of(m: &Vec<Complex>, v: &Vec<Complex>) -> (out: Vec<Wide>)
    requires
        m.len() == v.len() * v.len(),
        v.len() <= wide_capacity(),
        m.len() <= wide_capacity(),
    ensures
        wide_values(out@) == matrix_product(values(m@), values(v@)),
{
    let matrix = nalgebra::DMatrix::from_row_iterator(
        v.len(),
        v.len(),
        m.iter().map(|c| nalgebra::Complex::new(i128::from(c.re), i128::from(c.im))),
    );
    let vector = nalgebra::DVector::from_iterator(
        v.len(),
        v.iter().map(|c| nalgebra::Complex::new(i128::from(c.re), i128::from(c.im))),
    );
    (&matrix * &vector).iter().map(|c| Wide { re: c.re, im: c.im }).collect()
}

} // verus!
