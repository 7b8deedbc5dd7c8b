//! A single qubit: a state of dimension two.

use crate::complex::{lemma_norm_sqr_zero, values, Complex, Gaussian};
use crate::error::Error;
use crate::vector::{
    basis, is_state, is_zero_vector, lemma_basis_is_state, lemma_content_zero,
    lemma_primitive_scaled, lemma_state_is_primitive, primitive, primitive_of, scaled,
};
use vstd::prelude::*;

verus! {

/// A qubit: two amplitudes `(x, y)`, not both zero and without a common divisor,
/// standing for the unit vector `(x, y) / sqrt(|x|^2 + |y|^2)`.
#[derive(Debug, PartialEq, Eq, Structural)]
pub struct Qubit {
    x: Complex,
    y: Complex,
}

/// A uniform sample below `bound`, drawn by rand's `Rng::gen_range` from the
/// generator of the current thread.
///
/// The sample differs from call to call; the contract states only that it lies in the
/// half-open range that was asked for. An empty range is left out.
#[verifier::external_body]
fn sample_below(bound: u128) -> (sample: u128)
    requires
        bound > 0,
    ensures
        sample < bound,
{
    rand::Rng::gen_range(&mut rand::thread_rng(), 0..bound)
}

impl View for Qubit {
    type V = Seq<Gaussian>;

    closed spec fn view(&self) -> Seq<Gaussian> {
        seq![self.x@, self.y@]
    }
}

impl Qubit {
    /// Every qubit is a state: its two amplitudes are not both zero and have no
    /// common divisor.
    #[verifier::type_invariant]
    pub open spec fn well_formed(&self) -> bool {
        is_state(self@)
    }

    /// Two qubits are equal exactly when their amplitudes are.
    pub proof fn lemma_equal_by_amplitudes(&self, other: &Qubit)
        ensures
            (*self == *other) <==> (self@ == other@),
    {
        if self@ == other@ {
            assert(self@[0] == other@[0] && self@[1] == other@[1]);
        }
    }

    /// A qubit whose second amplitude is not zero is not `|0>`.
    pub proof fn lemma_differs_from_zero(&self)
        requires
            self@[1] != Gaussian::zero(),
        ensures
            self@ != basis(2, 0),
    {
    }

    /// Every pair `(x, 0)` with a positive `x` gives `|0>`, and every pair `(0, x)`
    /// gives `|1>`.
    pub proof fn lemma_axis_pairs(x: int)
        requires
            x > 0,
        ensures
            primitive(seq![Gaussian { re: x, im: 0 }, Gaussian::zero()]) == basis(2, 0),
            primitive(seq![Gaussian::zero(), Gaussian { re: x, im: 0 }]) == basis(2, 1),
    {
        assert(x * 1 == x && x * 0 == 0) by (nonlinear_arith);
        assert(seq![Gaussian { re: x, im: 0 }, Gaussian::zero()] =~= scaled(basis(2, 0), x));
        assert(seq![Gaussian::zero(), Gaussian { re: x, im: 0 }] =~= scaled(basis(2, 1), x));
        lemma_basis_is_state(2, 0);
        lemma_basis_is_state(2, 1);
        lemma_content_zero(basis(2, 0));
        lemma_content_zero(basis(2, 1));
        lemma_primitive_scaled(basis(2, 0), x as nat);
        lemma_primitive_scaled(basis(2, 1), x as nat);
        lemma_state_is_primitive(basis(2, 0));
        lemma_state_is_primitive(basis(2, 1));
    }

    /// A qubit has two amplitudes.
    pub proof fn lemma_dimension(&self)
        ensures
            self@.len() == 2,
    {
    }

    /// The basis state `|0>`, with amplitudes `(1, 0)`.
    pub fn zero() -> (q: Qubit)
        ensures
            q@ == basis(2, 0),
            q.well_formed(),
    {
        let x = Complex::one();
        let y = Complex::zero();
        proof {
            assert(seq![x@, y@] =~= basis(2, 0));
            lemma_basis_is_state(2, 0);
        }
        Qubit { x, y }
    }

    /// The basis state `|1>`, with amplitudes `(0, 1)`.
    pub fn one() -> (q: Qubit)
        ensures
            q@ == basis(2, 1),
            q.well_formed(),
    {
        let x = Complex::zero();
        let y = Complex::one();
        proof {
            assert(seq![x@, y@] =~= basis(2, 1));
            lemma_basis_is_state(2, 1);
        }
        Qubit { x, y }
    }

    /// The qubit in the direction of the complex pair `(x, y)`.
    ///
    /// Fails with `ZeroVector` when both are zero: the zero vector has no direction.
    pub fn from_complex(x: Complex, y: Complex) -> (r: Result<Qubit, Error>)
        ensures
            match r {
                Ok(q) => !is_zero_vector(seq![x@, y@]) && q@ == primitive(seq![x@, y@])
                    && q.well_formed(),
                Err(Error::ZeroVector) => is_zero_vector(seq![x@, y@]),
                Err(_) => false,
            },
    {
        let mut pair: Vec<Complex> = Vec::new();
        pair.push(x);
        pair.push(y);
        proof {
            assert(values(pair@) =~= seq![x@, y@]);
        }
        match primitive_of(pair.as_slice()) {
            Ok(v) => {
                proof {
                    assert(values(v@).len() == 2);
                    assert(seq![v[0]@, v[1]@] =~= values(v@));
                }
                Ok(Qubit { x: v[0], y: v[1] })
            },
            Err(e) => Err(e),
        }
    }

    /// The qubit in the direction of the real pair `(x, y)`.
    ///
    /// Fails with `ZeroVector` when both are zero.
    pub fn from_re(x: i32, y: i32) -> (r: Result<Qubit, Error>)
        ensures
            match r {
                Ok(q) => !(x == 0 && y == 0) && q@ == primitive(
                    seq![Gaussian { re: x as int, im: 0 }, Gaussian { re: y as int, im: 0 }],
                ) && q.well_formed(),
                Err(Error::ZeroVector) => x == 0 && y == 0,
                Err(_) => false,
            },
    {
        let ghost v = seq![Gaussian { re: x as int, im: 0 }, Gaussian { re: y as int, im: 0 }];
        proof {
            if is_zero_vector(v) {
                assert(v[0] == Gaussian::zero() && v[1] == Gaussian::zero());
            }
        }
        Qubit::from_complex(Complex { re: x, im: 0 }, Complex { re: y, im: 0 })
    }

    /// The amplitude of `|0>`.
    pub fn x(&self) -> (c: Complex)
        ensures
            c@ == self@[0],
    {
        self.x
    }

    /// The amplitude of `|1>`.
    pub fn y(&self) -> (c: Complex)
        ensures
            c@ == self@[1],
    {
        self.y
    }

    /// The weight of the outcome `|0>`: the squared magnitude of its amplitude.
    pub open spec fn weight_zero(&self) -> nat {
        self@[0].norm_sqr()
    }

    /// The weight of the outcome `|1>`.
    pub open spec fn weight_one(&self) -> nat {
        self@[1].norm_sqr()
    }

    /// Collapses the qubit with a given sample: to `|0>`, returning `false`, when the
    /// sample is below the weight of `|0>`, and to `|1>`, returning `true`, otherwise.
    ///
    /// With a sample that is uniform below the sum of both weights, `|0>` comes out
    /// with probability `|x|^2 / (|x|^2 + |y|^2)`.
    pub fn collapse(&mut self, sample: u128) -> (bit: bool)
        ensures
            bit == (sample >= old(self).weight_zero()),
            final(self)@ == (if bit { basis(2, 1) } else { basis(2, 0) }),
            final(self).well_formed(),
    {
        let weight = self.x.norm_sqr() as u128;
        if sample >= weight {
            *self = Qubit::one();
            true
        } else {
            *self = Qubit::zero();
            false
        }
    }

    /// Measures the qubit: draws a sample below the sum of both weights and collapses
    /// with it.
    ///
    /// The outcome is random unless one weight is zero: `|0>` always gives `false` and
    /// `|1>` always gives `true`.
    pub fn measure(&mut self) -> (bit: bool)
        ensures
            final(self)@ == (if bit { basis(2, 1) } else { basis(2, 0) }),
            final(self).well_formed(),
            old(self).weight_one() == 0 ==> !bit,
            old(self).weight_zero() == 0 ==> bit,
            old(self)@ == basis(2, 0) ==> !bit,
            old(self)@ == basis(2, 1) ==> bit,
    {
        proof {
            use_type_invariant(&*self);
            lemma_content_zero(self@);
            lemma_norm_sqr_zero(self@[0]);
            lemma_norm_sqr_zero(self@[1]);
        }
        let total = self.x.norm_sqr() as u128 + self.y.norm_sqr() as u128;
        let sample = sample_below(total);
        self.collapse(sample)
    }
}

} // verus!
