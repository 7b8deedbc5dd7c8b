//! Gates: square matrices that act on registers.

use crate::complex::{
    lemma_times_units, values, wide_capacity, wide_capacity_of, Complex, Gaussian,
};
use crate::error::Error;
use crate::matrix::{lemma_matrix_product_of_two, matrix_product, matrix_product_of};
use crate::number::lemma_mutual_divisors;
use crate::register::Register;
use crate::vector::{
    content, divides_all, fits, is_state, is_zero_vector, lemma_content_divides,
    lemma_content_greatest, lemma_content_zero, lemma_primitive_direction,
    lemma_primitive_scaled, lemma_state_is_primitive, lemma_unit_entry_is_state, normalize,
    primitive, primitive_of, scaled,
};
use vstd::prelude::*;

verus! {

/// A square matrix of amplitudes, held row by row, not all zero and without a common
/// divisor: the matrix of its direction that a gate applies.
pub struct MatrixOperator {
    dim: usize,
    entries: Vec<Complex>,
}

impl MatrixOperator {
    /// The number of rows, which is the number of columns.
    pub closed spec fn dimension(&self) -> nat {
        self.dim as nat
    }

    /// The entries, row by row.
    pub closed spec fn entries(&self) -> Seq<Gaussian> {
        values(self.entries@)
    }

    /// Every matrix operator is square, small enough to be multiplied, and
    /// normalized.
    #[verifier::type_invariant]
    pub open spec fn well_formed(&self) -> bool {
        &&& self.entries().len() == self.dimension() * self.dimension()
        &&& self.entries().len() <= wide_capacity()
        &&& is_state(self.entries())
    }

    /// The normalized matrix of dimension `dim` in the direction of the given
    /// entries, which are taken row by row.
    ///
    /// Fails with `DimensionMismatch` unless there are `dim * dim` entries, with
    /// `Overflow` when they are more than one allocation of wide amplitudes holds,
    /// and with `ZeroVector` when no entry is nonzero.
    pub fn new_normalize(dim: usize, entries: &[Complex]) -> (r: Result<MatrixOperator, Error>)
        ensures
            match r {
                Ok(m) => {
                    &&& entries@.len() == dim * dim
                    &&& entries@.len() <= wide_capacity()
                    &&& !is_zero_vector(values(entries@))
                    &&& m.dimension() == dim
                    &&& m.entries() == primitive(values(entries@))
                    &&& m.well_formed()
                },
                Err(Error::DimensionMismatch) => entries@.len() != dim * dim,
                Err(Error::Overflow) => entries@.len() == dim * dim && entries@.len()
                    > wide_capacity(),
                Err(Error::ZeroVector) => {
                    &&& entries@.len() == dim * dim
                    &&& entries@.len() <= wide_capacity()
                    &&& is_zero_vector(values(entries@))
                },
                Err(_) => false,
            },
    {
        let len = entries.len();
        let square = match dim.checked_mul(dim) {
            Some(n) => n == len,
            None => false,
        };
        if !square {
            return Err(Error::DimensionMismatch);
        }
        if len > wide_capacity_of() {
            return Err(Error::Overflow);
        }
        match primitive_of(entries) {
            Ok(normalized) => Ok(MatrixOperator { dim, entries: normalized }),
            Err(e) => Err(e),
        }
    }

    /// The number of rows, which is the number of columns.
    pub fn dim(&self) -> (d: usize)
        ensures
            d == self.dimension(),
    {
        self.dim
    }

    /// The entries, row by row.
    pub fn as_slice(&self) -> (s: &[Complex])
        ensures
            values(s@) == self.entries(),
    {
        self.entries.as_slice()
    }
}

/// A gate: a normalized square matrix, applied to a register by multiplying its
/// amplitudes and normalizing the product.
pub struct Gate {
    matrix: MatrixOperator,
}

/// The entries of the Hadamard matrix, row by row: `1 1 / 1 -1`, which stands for
/// that matrix divided by the square root of two.
pub open spec fn hadamard_entries() -> Seq<Gaussian> {
    seq![
        Gaussian { re: 1, im: 0 },
        Gaussian { re: 1, im: 0 },
        Gaussian { re: 1, im: 0 },
        Gaussian { re: -1, im: 0 },
    ]
}

/// The entries of the NOT matrix, row by row: `0 1 / 1 0`.
pub open spec fn not_entries() -> Seq<Gaussian> {
    seq![
        Gaussian { re: 0, im: 0 },
        Gaussian { re: 1, im: 0 },
        Gaussian { re: 1, im: 0 },
        Gaussian { re: 0, im: 0 },
    ]
}

impl Gate {
    /// The dimension of the registers that this gate applies to.
    pub closed spec fn dimension(&self) -> nat {
        self.matrix.dimension()
    }

    /// The entries of the matrix, row by row.
    pub closed spec fn entries(&self) -> Seq<Gaussian> {
        self.matrix.entries()
    }

    /// The matrix of this gate.
    pub fn matrix(&self) -> (m: &MatrixOperator)
        ensures
            m.dimension() == self.dimension(),
            m.entries() == self.entries(),
    {
        &self.matrix
    }

    /// A gate with the given normalized matrix. Nothing asks that the matrix be unitary.
    pub fn from(matrix: MatrixOperator) -> (g: Gate)
        ensures
            g.dimension() == matrix.dimension(),
            g.entries() == matrix.entries(),
    {
        Gate { matrix }
    }

    /// A gate of dimension two with the given four entries, one of which has real
    /// part one.
    fn of_four(a: Complex, b: Complex, c: Complex, d: Complex) -> (g: Gate)
        requires
            b.re == 1,
        ensures
            g.dimension() == 2,
            g.entries() == seq![a@, b@, c@, d@],
    {
        let mut entries: Vec<Complex> = Vec::new();
        entries.push(a);
        entries.push(b);
        entries.push(c);
        entries.push(d);
        proof {
            let v = values(entries@);
            assert(v =~= seq![a@, b@, c@, d@]);
            lemma_unit_entry_is_state(v, 1);
            lemma_state_is_primitive(v);
            lemma_content_zero(v);
        }
        let matrix = MatrixOperator::new_normalize(2, entries.as_slice());
        Gate::from(matrix.unwrap())
    }

    /// The Hadamard gate.
    pub fn hadamard() -> (g: Gate)
        ensures
            g.dimension() == 2,
            g.entries() == hadamard_entries(),
    {
        let one = Complex::new(1, 0);
        let g = Gate::of_four(one, one, one, Complex::new(-1, 0));
        proof {
            assert(g.entries() =~= hadamard_entries());
        }
        g
    }

    /// The NOT gate, also known as Pauli X.
    pub fn not() -> (g: Gate)
        ensures
            g.dimension() == 2,
            g.entries() == not_entries(),
    {
        let one = Complex::new(1, 0);
        let zero = Complex::new(0, 0);
        let g = Gate::of_four(zero, one, one, zero);
        proof {
            assert(g.entries() =~= not_entries());
        }
        g
    }

    /// What applying this gate to the state `v` gives: the primitive vector of the
    /// product of the matrix with `v`.
    pub open spec fn image(&self, v: Seq<Gaussian>) -> Seq<Gaussian> {
        primitive(matrix_product(self.entries(), v))
    }

    /// Why this gate cannot be applied to the state `v`, if it cannot.
    pub open spec fn failure(&self, v: Seq<Gaussian>) -> Option<Error> {
        if self.dimension() != v.len() {
            Some(Error::DimensionMismatch)
        } else if is_zero_vector(matrix_product(self.entries(), v)) {
            Some(Error::ZeroVector)
        } else if !fits(self.image(v)) {
            Some(Error::Overflow)
        } else {
            None
        }
    }

    /// Multiplies the matrix with the amplitudes of `r` and normalizes the product.
    fn apply_and_get(&self, r: &Register) -> (out: Result<Vec<Complex>, Error>)
        ensures
            match out {
                Ok(v) => self.failure(r@) is None && values(v@) == self.image(r@) && is_state(
                    values(v@),
                ),
                Err(e) => self.failure(r@) == Some(e),
            },
    {
        proof {
            use_type_invariant(&self.matrix);
        }
        let v = r.amplitudes();
        if self.matrix.dim != v.len() {
            return Err(Error::DimensionMismatch);
        }
        proof {
            let d = v.len() as int;
            assert(d <= d * d) by (nonlinear_arith)
                requires
                    d >= 0,
            ;
        }
        let product = matrix_product_of(&self.matrix.entries, v);
        normalize(&product)
    }

    /// Applies this gate to `r` in place.
    ///
    /// Fails with `DimensionMismatch` when the register has another dimension than
    /// this gate, with `ZeroVector` when the matrix sends the state to zero, and with
    /// `Overflow` when an amplitude of the result is outside the range of `i32`. A
    /// register that this gate could not be applied to is left as it was.
    pub fn apply_mut(&self, r: &mut Register) -> (out: Result<(), Error>)
        ensures
            match out {
                Ok(_) => self.failure(old(r)@) is None && final(r)@ == self.image(old(r)@)
                    && final(r).well_formed(),
                Err(e) => self.failure(old(r)@) == Some(e) && final(r)@ == old(r)@,
            },
    {
        match self.apply_and_get(r) {
            Ok(data) => {
                r.set_state(data);
                Ok(())
            },
            Err(e) => Err(e),
        }
    }

    /// Applies this gate to `r` and returns the new state; `r` is left as it was.
    ///
    /// Fails as `apply_mut` does.
    pub fn apply(&self, r: &Register) -> (out: Result<Register, Error>)
        ensures
            match out {
                Ok(s) => self.failure(r@) is None && s@ == self.image(r@) && s.well_formed(),
                Err(e) => self.failure(r@) == Some(e),
            },
    {
        match self.apply_and_get(r) {
            Ok(data) => Ok(Register::from_state(data)),
            Err(e) => Err(e),
        }
    }
}

/// The NOT gate exchanges the two amplitudes of a qubit state, and can be applied
/// to every register of dimension two.
pub proof fn lemma_not_exchanges(g: &Gate, v: Seq<Gaussian>)
    requires
        g.entries() == not_entries(),
        v.len() == 2,
        is_state(v),
    ensures
        g.image(v) == seq![v[1], v[0]],
        is_state(g.image(v)),
        g.dimension() == 2 && fits(v) ==> g.failure(v) is None,
{
    let w = seq![v[1], v[0]];
    if fits(v) {
        assert(v[0].fits() && v[1].fits());
    }
    lemma_matrix_product_of_two(not_entries(), v);
    lemma_times_units(v[0]);
    lemma_times_units(v[1]);
    assert(matrix_product(not_entries(), v) =~= w);
    // Both vectors have the same divisors, hence the same content.
    lemma_content_zero(v);
    lemma_content_zero(w);
    assert(!is_zero_vector(w)) by {
        if is_zero_vector(w) {
            assert(w[0] == Gaussian::zero() && w[1] == Gaussian::zero());
            assert(is_zero_vector(v));
        }
    }
    lemma_content_divides(v);
    lemma_content_divides(w);
    assert(divides_all(content(v) as int, w)) by {
        assert(v[0].re % (content(v) as int) == 0 && v[1].re % (content(v) as int) == 0);
    }
    assert(divides_all(content(w) as int, v)) by {
        assert(w[0].re % (content(w) as int) == 0 && w[1].re % (content(w) as int) == 0);
    }
    lemma_content_greatest(w, content(v) as int);
    lemma_content_greatest(v, content(w) as int);
    lemma_mutual_divisors(content(v), content(w));
    lemma_state_is_primitive(w);
}

/// Applying the NOT gate twice returns every qubit state.
pub proof fn lemma_not_is_involution(g: &Gate, v: Seq<Gaussian>)
    requires
        g.entries() == not_entries(),
        v.len() == 2,
        is_state(v),
    ensures
        g.image(g.image(v)) == v,
{
    lemma_not_exchanges(g, v);
    let w = g.image(v);
    lemma_not_exchanges(g, w);
    assert(seq![w[1], w[0]] =~= v);
}

/// The product of the Hadamard matrix with a pair: the sum and the difference of
/// its entries.
pub proof fn lemma_hadamard_product(v: Seq<Gaussian>)
    requires
        v.len() == 2,
    ensures
        matrix_product(hadamard_entries(), v) == seq![
            Gaussian { re: v[0].re + v[1].re, im: v[0].im + v[1].im },
            Gaussian { re: v[0].re - v[1].re, im: v[0].im - v[1].im },
        ],
{
    lemma_matrix_product_of_two(hadamard_entries(), v);
    lemma_times_units(v[0]);
    lemma_times_units(v[1]);
    assert(hadamard_entries()[3] == Gaussian::minus_one());
    assert(matrix_product(hadamard_entries(), v) =~= seq![
        Gaussian { re: v[0].re + v[1].re, im: v[0].im + v[1].im },
        Gaussian { re: v[0].re - v[1].re, im: v[0].im - v[1].im },
    ]);
}

/// Applying the Hadamard gate twice returns every qubit state.
pub proof fn lemma_hadamard_is_involution(g: &Gate, v: Seq<Gaussian>)
    requires
        g.entries() == hadamard_entries(),
        v.len() == 2,
        is_state(v),
    ensures
        g.image(g.image(v)) == v,
{
    let h = hadamard_entries();
    let w = matrix_product(h, v);
    lemma_hadamard_product(v);
    lemma_content_zero(v);
    assert(!is_zero_vector(w)) by {
        if is_zero_vector(w) {
            assert(w[0] == Gaussian::zero() && w[1] == Gaussian::zero());
            assert(v[0] == Gaussian::zero() && v[1] == Gaussian::zero());
            assert(is_zero_vector(v));
        }
    }
    lemma_primitive_direction(w);
    let c = content(w) as int;
    let u = primitive(w);
    let p = matrix_product(h, u);
    lemma_hadamard_product(u);
    // `c * p` is `2 * v`.
    assert(w[0].re == c * u[0].re && w[1].re == c * u[1].re && w[0].im == c * u[0].im && w[1].im
        == c * u[1].im);
    assert(c * (u[0].re + u[1].re) == 2 * v[0].re && c * (u[0].re - u[1].re) == 2 * v[1].re)
        by (nonlinear_arith)
        requires
            v[0].re + v[1].re == c * u[0].re,
            v[0].re - v[1].re == c * u[1].re,
    ;
    assert(c * (u[0].im + u[1].im) == 2 * v[0].im && c * (u[0].im - u[1].im) == 2 * v[1].im)
        by (nonlinear_arith)
        requires
            v[0].im + v[1].im == c * u[0].im,
            v[0].im - v[1].im == c * u[1].im,
    ;
    assert(scaled(p, c) =~= scaled(v, 2));
    assert(!is_zero_vector(p)) by {
        if is_zero_vector(p) {
            assert(p[0] == Gaussian::zero() && p[1] == Gaussian::zero());
            assert(scaled(v, 2)[0] == scaled(p, c)[0] && scaled(v, 2)[1] == scaled(p, c)[1]);
            assert(c * 0 == 0) by (nonlinear_arith);
            assert(v[0] == Gaussian::zero() && v[1] == Gaussian::zero());
            assert(is_zero_vector(v));
        }
    }
    lemma_primitive_scaled(p, c as nat);
    lemma_primitive_scaled(v, 2);
    lemma_state_is_primitive(v);
}

} // verus!
