//! A register: the joint state of several qubits.

use crate::complex::{values, wide_capacity, wide_capacity_of, Complex, Gaussian};
use crate::error::Error;
use crate::qubit::Qubit;
use crate::tensor::{kronecker_of, lemma_kronecker_nonzero, tensor};
use crate::vector::{
    basis, fits, is_state, is_zero_vector, lemma_basis_is_state, lemma_content_zero, normalize,
    primitive, primitive_of,
};
use vstd::arithmetic::power2::{
    lemma2_to64, lemma_pow2_strictly_increases, lemma_pow2_unfold, pow2,
};
use vstd::prelude::*;
use vstd::std_specs::cmp::PartialEqSpecImpl;
use vstd::std_specs::convert::FromSpecImpl;

verus! {

/// A register: a vector of amplitudes, not all zero and without a common divisor,
/// standing for the unit vector of its direction. A register of `n` qubits has
/// `2^n` amplitudes.
#[derive(Debug)]
pub struct Register {
    data: Vec<Complex>,
}

impl View for Register {
    type V = Seq<Gaussian>;

    closed spec fn view(&self) -> Seq<Gaussian> {
        values(self.data@)
    }
}

impl Register {
    /// Every register is a state: its amplitudes are not all zero and have no
    /// common divisor.
    #[verifier::type_invariant]
    pub open spec fn well_formed(&self) -> bool {
        is_state(self@)
    }

    /// The register in the direction of the given amplitudes.
    ///
    /// Fails with `ZeroVector` when no amplitude is nonzero.
    pub fn from_slice(amplitudes: &[Complex]) -> (r: Result<Register, Error>)
        ensures
            match r {
                Ok(reg) => !is_zero_vector(values(amplitudes@)) && reg@ == primitive(
                    values(amplitudes@),
                ) && reg.well_formed(),
                Err(Error::ZeroVector) => is_zero_vector(values(amplitudes@)),
                Err(_) => false,
            },
    {
        match primitive_of(amplitudes) {
            Ok(data) => Ok(Register { data }),
            Err(e) => Err(e),
        }
    }

    /// The basis register `|i>` of `n` qubits: a one at index `i` among `2^n`
    /// amplitudes.
    ///
    /// Fails with `IndexOutOfRange` when `i` is not below `2^n`, and with `Overflow`
    /// when `n` is above 31, where `2^n` has left the range of the index type.
    pub fn from_int(n: u32, i: u32) -> (r: Result<Register, Error>)
        ensures
            match r {
                Ok(reg) => n < 32 && i < pow2(n as nat) && reg@ == basis(pow2(n as nat), i as nat)
                    && reg.well_formed(),
                Err(Error::Overflow) => n >= 32,
                Err(Error::IndexOutOfRange) => n < 32 && i >= pow2(n as nat),
                Err(_) => false,
            },
    {
        if n >= 32 {
            return Err(Error::Overflow);
        }
        let mut dim: u32 = 1;
        let mut k: u32 = 0;
        proof {
            lemma2_to64();
        }
        while k < n
            invariant
                k <= n < 32,
                dim == pow2(k as nat),
                pow2(31) == 0x8000_0000,
            decreases n - k,
        {
            proof {
                lemma_pow2_unfold(k as nat + 1);
                if k + 1 < 31 {
                    lemma_pow2_strictly_increases(k as nat + 1, 31);
                }
            }
            dim = dim * 2;
            k += 1;
        }
        if i >= dim {
            return Err(Error::IndexOutOfRange);
        }
        let mut data: Vec<Complex> = Vec::new();
        let mut j: u32 = 0;
        while j < dim
            invariant
                j <= dim,
                data.len() == j,
                forall|t: int|
                    0 <= t < j ==> (#[trigger] data[t])@ == basis(dim as nat, i as nat)[t],
            decreases dim - j,
        {
            if j == i {
                data.push(Complex::one());
            } else {
                data.push(Complex::zero());
            }
            j += 1;
        }
        proof {
            assert(values(data@) =~= basis(dim as nat, i as nat));
            lemma_basis_is_state(dim as nat, i as nat);
        }
        Ok(Register { data })
    }

    /// The joint state of `self` and `other`: the Kronecker product of the two
    /// vectors, normalized. The index into `self` takes the high-order position.
    ///
    /// The dimension of the result is the product of the two dimensions. Fails with
    /// `Overflow` when that product is above what one allocation holds, or when an
    /// amplitude of the result is outside the range of `i32`.
    pub fn tensor_product(&self, other: &Self) -> (r: Result<Register, Error>)
        ensures
            match r {
                Ok(reg) => {
                    &&& self@.len() * other@.len() <= wide_capacity()
                    &&& reg@ == tensor(self@, other@)
                    &&& reg@.len() == self@.len() * other@.len()
                    &&& reg.well_formed()
                },
                Err(Error::Overflow) => {
                    ||| self@.len() * other@.len() > wide_capacity()
                    ||| !fits(tensor(self@, other@))
                },
                Err(_) => false,
            },
    {
        proof {
            use_type_invariant(self);
            use_type_invariant(other);
            lemma_content_zero(self@);
            lemma_content_zero(other@);
            lemma_kronecker_nonzero(self@, other@);
        }
        let cap = wide_capacity_of();
        let d1 = self.data.len();
        let d2 = other.data.len();
        let wide = match d1.checked_mul(d2) {
            Some(d) if d <= cap => {
                proof {
                    assert(d1 <= d1 * d2 && d2 <= d1 * d2) by (nonlinear_arith)
                        requires
                            d1 >= 1,
                            d2 >= 1,
                    ;
                }
                kronecker_of(&self.data, &other.data)
            },
            _ => {
                return Err(Error::Overflow);
            },
        };
        match normalize(&wide) {
            Ok(data) => {
                proof {
                    assert(values(data@).len() == d1 * d2);
                }
                Ok(Register { data })
            },
            _ => Err(Error::Overflow),
        }
    }

    /// The register with the given amplitudes, which form a state.
    pub(crate) fn from_state(data: Vec<Complex>) -> (r: Register)
        requires
            is_state(values(data@)),
        ensures
            r@ == values(data@),
    {
        Register { data }
    }

    /// Replaces the amplitudes by the given ones, which form a state.
    pub(crate) fn set_state(&mut self, data: Vec<Complex>)
        requires
            is_state(values(data@)),
        ensures
            final(self)@ == values(data@),
    {
        self.data = data;
    }

    /// The amplitudes, in the order of their indices.
    pub fn amplitudes(&self) -> (data: &Vec<Complex>)
        ensures
            values(data@) == self@,
    {
        &self.data
    }

    /// The number of amplitudes.
    pub fn dim(&self) -> (d: usize)
        ensures
            d == self@.len(),
    {
        self.data.len()
    }

    /// The amplitude at index `i`.
    pub fn amplitude(&self, i: usize) -> (c: Complex)
        requires
            i < self@.len(),
        ensures
            c@ == self@[i as int],
    {
        self.data[i]
    }
}

impl From<Qubit> for Register {
    /// The register of one qubit with the amplitudes of `q`.
    fn from(q: Qubit) -> (r: Register)
        ensures
            r@ == q@,
            r.well_formed(),
    {
        let mut data: Vec<Complex> = Vec::new();
        data.push(q.x());
        data.push(q.y());
        proof {
            use_type_invariant(&q);
            q.lemma_dimension();
            assert(values(data@) =~= q@);
        }
        Register { data }
    }
}

impl FromSpecImpl<Qubit> for Register {
    open spec fn obeys_from_spec() -> bool {
        false
    }

    open spec fn from_spec(q: Qubit) -> Register {
        arbitrary()
    }
}

impl PartialEq for Register {
    /// Whether both registers have the same amplitudes, exactly.
    fn eq(&self, other: &Register) -> (r: bool) {
        if self.data.len() != other.data.len() {
            proof {
                assert(self@.len() != other@.len());
            }
            return false;
        }
        let mut i: usize = 0;
        while i < self.data.len()
            invariant
                i <= self.data.len(),
                self.data.len() == other.data.len(),
                forall|j: int| 0 <= j < i ==> self@[j] == other@[j],
            decreases self.data.len() - i,
        {
            if self.data[i] != other.data[i] {
                proof {
                    assert(self@[i as int] != other@[i as int]);
                }
                return false;
            }
            i += 1;
        }
        proof {
            assert(self@ =~= other@);
        }
        true
    }
}

impl PartialEqSpecImpl for Register {
    open spec fn obeys_eq_spec() -> bool {
        true
    }

    open spec fn eq_spec(&self, other: &Register) -> bool {
        self@ == other@
    }
}

} // verus!
