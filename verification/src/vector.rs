//! Vectors of Gaussian integers, and the normalization that picks one vector for
//! each direction.
//!
//! A nonzero vector `v` stands for the unit vector `v / |v|`. Two vectors stand for
//! the same unit vector when one is a positive multiple of the other, and dividing a
//! vector by the greatest common divisor of all its parts gives the smallest vector
//! of its direction: its primitive vector.

use crate::complex::{lemma_norm_sqr_zero, values, wide_values, Complex, Gaussian, Wide};
use crate::error::Error;
use crate::number::{
    gcd, gcd_u128, lemma_exact_quotient, lemma_gcd_divides, lemma_gcd_greatest,
    lemma_gcd_scales, lemma_gcd_zero, lemma_magnitude_divisible, lemma_magnitude_scales,
    lemma_quotient_between, lemma_scaled_divisor, lemma_scaled_quotient, lemma_divisor_chain,
    magnitude,
};
use vstd::arithmetic::div_mod::{lemma_mod_multiples_basic, lemma_small_mod};
use vstd::prelude::*;

verus! {

/// The greatest common divisor of the two parts of `c`.
pub open spec fn part_gcd(c: Gaussian) -> nat {
    gcd(magnitude(c.re), magnitude(c.im))
}

/// The greatest common divisor of all the real and imaginary parts of `v`;
/// zero for the zero vector and for the empty one.
pub open spec fn content(v: Seq<Gaussian>) -> nat
    decreases v.len(),
{
    if v.len() == 0 {
        0
    } else {
        gcd(content(v.drop_last()), part_gcd(v.last()))
    }
}

/// Whether `d` divides both parts of every entry of `v`.
pub open spec fn divides_all(d: int, v: Seq<Gaussian>) -> bool {
    forall|i: int| 0 <= i < v.len() ==> (#[trigger] v[i]).re % d == 0 && v[i].im % d == 0
}

/// Whether every entry of `v` is zero.
pub open spec fn is_zero_vector(v: Seq<Gaussian>) -> bool {
    forall|i: int| 0 <= i < v.len() ==> #[trigger] v[i] == Gaussian::zero()
}

/// `v` with every part divided by `d`.
pub open spec fn divided(v: Seq<Gaussian>, d: int) -> Seq<Gaussian> {
    Seq::new(v.len(), |i: int| Gaussian { re: v[i].re / d, im: v[i].im / d })
}

/// The primitive vector of the direction of `v`: `v` divided by its content.
pub open spec fn primitive(v: Seq<Gaussian>) -> Seq<Gaussian> {
    divided(v, content(v) as int)
}

/// `v` with every part multiplied by `k`.
pub open spec fn scaled(v: Seq<Gaussian>, k: int) -> Seq<Gaussian> {
    Seq::new(v.len(), |i: int| Gaussian { re: k * v[i].re, im: k * v[i].im })
}

/// Whether every entry of `v` has parts within the range of `i32`.
pub open spec fn fits(v: Seq<Gaussian>) -> bool {
    forall|i: int| 0 <= i < v.len() ==> (#[trigger] v[i]).fits()
}

/// The squared length of `v`: the sum of the squared magnitudes of its entries.
pub open spec fn norm_sqr(v: Seq<Gaussian>) -> nat
    decreases v.len(),
{
    if v.len() == 0 {
        0
    } else {
        norm_sqr(v.drop_last()) + v.last().norm_sqr()
    }
}

/// A vector is a state when it is primitive: nonzero, with no common divisor
/// above one.
pub open spec fn is_state(v: Seq<Gaussian>) -> bool {
    content(v) == 1
}

/// The basis vector of dimension `d` with a one at index `i` and zeros elsewhere.
pub open spec fn basis(d: nat, i: nat) -> Seq<Gaussian> {
    Seq::new(d, |k: int| if k == i { Gaussian::one() } else { Gaussian::zero() })
}

/// The content of a vector is zero exactly when the vector is.
pub proof fn lemma_content_zero(v: Seq<Gaussian>)
    ensures
        content(v) == 0 <==> is_zero_vector(v),
    decreases v.len(),
{
    if v.len() > 0 {
        let head = v.drop_last();
        lemma_content_zero(head);
        lemma_gcd_zero(content(head), part_gcd(v.last()));
        lemma_gcd_zero(magnitude(v.last().re), magnitude(v.last().im));
        if content(v) == 0 {
            assert forall|i: int| 0 <= i < v.len() implies #[trigger] v[i] == Gaussian::zero() by {
                if i < v.len() - 1 {
                    assert(head[i] == v[i]);
                }
            }
        }
        if is_zero_vector(v) {
            assert(v.last() == v[v.len() - 1]);
            assert forall|i: int| 0 <= i < head.len() implies #[trigger] head[i]
                == Gaussian::zero() by {
                assert(head[i] == v[i]);
            }
        }
    }
}

/// The content of a nonzero vector divides every part of it.
pub proof fn lemma_content_divides(v: Seq<Gaussian>)
    requires
        content(v) > 0,
    ensures
        divides_all(content(v) as int, v),
    decreases v.len(),
{
    let c = content(v);
    let head = v.drop_last();
    let last = v.last();
    lemma_gcd_divides(content(head), part_gcd(last));
    assert forall|i: int| 0 <= i < v.len() implies (#[trigger] v[i]).re % (c as int) == 0
        && v[i].im % (c as int) == 0 by {
        if i < v.len() - 1 {
            assert(head[i] == v[i]);
            if content(head) > 0 {
                lemma_content_divides(head);
                lemma_divisor_chain(v[i].re, content(head) as int, c as int);
                lemma_divisor_chain(v[i].im, content(head) as int, c as int);
            } else {
                lemma_content_zero(head);
            }
        } else {
            if part_gcd(last) > 0 {
                lemma_gcd_divides(magnitude(last.re), magnitude(last.im));
                lemma_magnitude_divisible(last.re, part_gcd(last) as int);
                lemma_magnitude_divisible(last.im, part_gcd(last) as int);
                lemma_divisor_chain(last.re, part_gcd(last) as int, c as int);
                lemma_divisor_chain(last.im, part_gcd(last) as int, c as int);
            } else {
                lemma_gcd_zero(magnitude(last.re), magnitude(last.im));
            }
        }
    }
}

/// Whatever divides every part of a vector divides its content.
pub proof fn lemma_content_greatest(v: Seq<Gaussian>, d: int)
    requires
        d > 0,
        divides_all(d, v),
    ensures
        content(v) as int % d == 0,
    decreases v.len(),
{
    if v.len() == 0 {
        lemma_mod_multiples_basic(0, d);
    } else {
        let head = v.drop_last();
        let last = v.last();
        assert forall|i: int| 0 <= i < head.len() implies (#[trigger] head[i]).re % d == 0
            && head[i].im % d == 0 by {
            assert(head[i] == v[i]);
        }
        lemma_content_greatest(head, d);
        assert(last == v[v.len() - 1]);
        lemma_magnitude_divisible(last.re, d);
        lemma_magnitude_divisible(last.im, d);
        lemma_gcd_greatest(magnitude(last.re), magnitude(last.im), d as nat);
        lemma_gcd_greatest(content(head), part_gcd(last), d as nat);
    }
}

/// Multiplying a vector by a positive number multiplies its content by it.
pub proof fn lemma_content_scales(v: Seq<Gaussian>, k: nat)
    requires
        k > 0,
    ensures
        content(scaled(v, k as int)) == k * content(v),
    decreases v.len(),
{
    let w = scaled(v, k as int);
    if v.len() == 0 {
        assert(k * 0 == 0) by (nonlinear_arith);
    } else {
        assert(w.drop_last() =~= scaled(v.drop_last(), k as int));
        lemma_content_scales(v.drop_last(), k);
        let c = v.last();
        assert(w.last() == Gaussian { re: k * c.re, im: k * c.im });
        lemma_magnitude_scales(c.re, k);
        lemma_magnitude_scales(c.im, k);
        lemma_gcd_scales(magnitude(c.re), magnitude(c.im), k);
        lemma_gcd_scales(content(v.drop_last()), part_gcd(c), k);
    }
}

/// Dividing a nonzero vector by its content leaves a vector of content one.
pub proof fn lemma_primitive_is_state(v: Seq<Gaussian>)
    requires
        content(v) > 0,
    ensures
        is_state(primitive(v)),
{
    let g = content(v) as int;
    let w = primitive(v);
    let h = content(w) as int;
    lemma_content_divides(v);
    lemma_content_zero(v);
    lemma_content_zero(w);
    // The primitive vector is not zero.
    let k = choose|k: int| 0 <= k < v.len() && #[trigger] v[k] != Gaussian::zero();
    lemma_exact_quotient(v[k].re, g);
    lemma_exact_quotient(v[k].im, g);
    assert(v[k].re != 0 || v[k].im != 0);
    assert(w[k].re == v[k].re / g && w[k].im == v[k].im / g);
    assert(w[k].re != 0 || w[k].im != 0);
    assert(w[k] != Gaussian::zero());
    assert(h > 0);
    // Its content times `g` divides `v`, hence divides `g`.
    lemma_content_divides(w);
    assert(h * g > 0) by (nonlinear_arith)
        requires
            h > 0,
            g > 0,
    ;
    assert forall|i: int| 0 <= i < v.len() implies (#[trigger] v[i]).re % (h * g) == 0 && v[i].im
        % (h * g) == 0 by {
        assert(w[i].re == v[i].re / g);
        assert(w[i].im == v[i].im / g);
        lemma_scaled_divisor(v[i].re, g, h);
        lemma_scaled_divisor(v[i].im, g, h);
    }
    lemma_content_greatest(v, h * g);
    if h > 1 {
        assert(h * g > g) by (nonlinear_arith)
            requires
                h > 1,
                g > 0,
        ;
        lemma_small_mod(g as nat, (h * g) as nat);
    }
}

/// A vector of content one is its own primitive vector.
pub proof fn lemma_state_is_primitive(v: Seq<Gaussian>)
    requires
        is_state(v),
    ensures
        primitive(v) == v,
{
    assert(divided(v, 1) =~= v);
}

/// A nonzero vector is its primitive vector times its content: normalization keeps
/// the direction.
pub proof fn lemma_primitive_direction(v: Seq<Gaussian>)
    requires
        !is_zero_vector(v),
    ensures
        content(v) > 0,
        v == scaled(primitive(v), content(v) as int),
{
    lemma_content_zero(v);
    lemma_content_divides(v);
    let g = content(v) as int;
    let w = scaled(primitive(v), g);
    assert forall|i: int| 0 <= i < v.len() implies v[i] == w[i] by {
        lemma_exact_quotient(v[i].re, g);
        lemma_exact_quotient(v[i].im, g);
        assert(g * (v[i].re / g) == (v[i].re / g) * g) by (nonlinear_arith);
        assert(g * (v[i].im / g) == (v[i].im / g) * g) by (nonlinear_arith);
    }
    assert(v =~= w);
}

/// A positive multiple of a vector has the same primitive vector: the state of a
/// direction does not depend on the length of the vector that gives it.
pub proof fn lemma_primitive_scaled(v: Seq<Gaussian>, k: nat)
    requires
        k > 0,
        !is_zero_vector(v),
    ensures
        primitive(scaled(v, k as int)) == primitive(v),
{
    lemma_content_zero(v);
    lemma_content_divides(v);
    lemma_content_scales(v, k);
    let g = content(v) as int;
    let kv = scaled(v, k as int);
    assert(k * g > 0) by (nonlinear_arith)
        requires
            k > 0,
            g > 0,
    ;
    assert forall|i: int| 0 <= i < v.len() implies primitive(kv)[i] == primitive(v)[i] by {
        lemma_scaled_quotient(v[i].re, g, k as int);
        lemma_scaled_quotient(v[i].im, g, k as int);
    }
    assert(primitive(kv) =~= primitive(v));
}

/// Two nonzero vectors of the same direction, that is with a common positive
/// multiple, have the same primitive vector: each direction has exactly one state.
pub proof fn lemma_same_direction(v: Seq<Gaussian>, w: Seq<Gaussian>, p: nat, q: nat)
    requires
        p > 0,
        q > 0,
        !is_zero_vector(v),
        !is_zero_vector(w),
        scaled(v, p as int) == scaled(w, q as int),
    ensures
        primitive(v) == primitive(w),
{
    lemma_primitive_scaled(v, p);
    lemma_primitive_scaled(w, q);
}

/// The primitive vector of a vector with parts in the range of `i32` has its parts
/// in that range too.
pub proof fn lemma_primitive_fits(v: Seq<Gaussian>)
    requires
        fits(v),
        !is_zero_vector(v),
    ensures
        fits(primitive(v)),
{
    lemma_content_zero(v);
    lemma_content_divides(v);
    let g = content(v) as int;
    assert forall|i: int| 0 <= i < v.len() implies (#[trigger] primitive(v)[i]).fits() by {
        assert(v[i].fits());
        lemma_quotient_between(v[i].re, g);
        lemma_quotient_between(v[i].im, g);
    }
}

/// A vector with an entry whose real part is one or minus one is a state.
pub proof fn lemma_unit_entry_is_state(v: Seq<Gaussian>, i: int)
    requires
        0 <= i < v.len(),
        v[i].re == 1 || v[i].re == -1,
    ensures
        is_state(v),
{
    lemma_content_zero(v);
    lemma_content_divides(v);
    let c = content(v) as int;
    lemma_magnitude_divisible(v[i].re, c);
    if c > 1 {
        lemma_small_mod(1, c as nat);
    }
}

/// Every basis vector is a state.
pub proof fn lemma_basis_is_state(d: nat, i: nat)
    requires
        i < d,
    ensures
        is_state(basis(d, i)),
{
    lemma_unit_entry_is_state(basis(d, i), i as int);
}

/// A nonzero vector has a positive squared length.
pub proof fn lemma_norm_sqr_positive(v: Seq<Gaussian>)
    requires
        !is_zero_vector(v),
    ensures
        norm_sqr(v) > 0,
    decreases v.len(),
{
    if v.len() > 0 {
        let head = v.drop_last();
        lemma_norm_sqr_zero(v.last());
        if v.last() == Gaussian::zero() {
            assert(!is_zero_vector(head)) by {
                if is_zero_vector(head) {
                    assert forall|i: int| 0 <= i < v.len() implies #[trigger] v[i]
                        == Gaussian::zero() by {
                        if i < v.len() - 1 {
                            assert(head[i] == v[i]);
                        }
                    }
                }
            }
            lemma_norm_sqr_positive(head);
        }
    }
}

/// The squared length `n` of a state is positive. So the unit vector that the state
/// stands for exists: its amplitudes `v[i] / sqrt(n)` have the squared magnitudes
/// `|v[i]|^2 / n`, whose sum is `n / n`.
pub proof fn lemma_state_norm_sqr_positive(v: Seq<Gaussian>)
    requires
        is_state(v),
    ensures
        norm_sqr(v) > 0,
{
    lemma_content_zero(v);
    lemma_norm_sqr_positive(v);
}

/// The absolute value of `x`, which always fits in `u128`.
fn magnitude_of(x: i128) -> (m: u128)
    ensures
        m == magnitude(x as int),
{
    if x >= 0 {
        x as u128
    } else if x == i128::MIN {
        0x8000_0000_0000_0000_0000_0000_0000_0000u128
    } else {
        (-x) as u128
    }
}

/// Computes the content of a vector: zero for a zero vector, and otherwise the
/// positive number that divides every part and that every such number divides.
pub fn content_of(v: &Vec<Wide>) -> (g: u128)
    ensures
        g == content(wide_values(v@)),
        g == 0 <==> is_zero_vector(wide_values(v@)),
        g > 0 ==> divides_all(g as int, wide_values(v@)),
        forall|d: int| d > 0 && #[trigger] divides_all(d, wide_values(v@)) ==> g as int % d == 0,
{
    let ghost w = wide_values(v@);
    proof {
        lemma_content_zero(w);
        if content(w) > 0 {
            lemma_content_divides(w);
        }
        assert forall|d: int| d > 0 && #[trigger] divides_all(d, w) implies content(w) as int % d
            == 0 by {
            lemma_content_greatest(w, d);
        }
    }
    let mut g: u128 = 0;
    let mut i: usize = 0;
    while i < v.len()
        invariant
            i <= v.len(),
            w == wide_values(v@),
            g == content(w.take(i as int)),
        decreases v.len() - i,
    {
        let c = v[i];
        let p = gcd_u128(magnitude_of(c.re), magnitude_of(c.im));
        g = gcd_u128(g, p);
        proof {
            assert(w.take(i + 1).drop_last() =~= w.take(i as int));
            assert(w.take(i + 1).last() == w[i as int]);
        }
        i += 1;
    }
    proof {
        assert(w.take(v.len() as int) =~= w);
    }
    g
}

/// The quotient of `x` by its divisor `g`, unless it is outside the range of `i32`.
fn exact_quotient(x: i128, g: u128) -> (q: Option<i32>)
    requires
        g > 0,
        (x as int) % (g as int) == 0,
    ensures
        q is Some <==> i32::MIN <= (x as int) / (g as int) <= i32::MAX,
        q is Some ==> q->0 == (x as int) / (g as int),
{
    let m = magnitude_of(x);
    let k: u128 = m / g;
    proof {
        lemma_magnitude_divisible(x as int, g as int);
        lemma_exact_quotient(x as int, g as int);
        lemma_exact_quotient(m as int, g as int);
        let q = (x as int) / (g as int);
        if x < 0 {
            assert(q == -(k as int)) by (nonlinear_arith)
                requires
                    g > 0,
                    x as int == q * (g as int),
                    -(x as int) == (k as int) * (g as int),
            ;
        }
    }
    if x >= 0 {
        if k <= 0x7fff_ffff {
            Some(k as i32)
        } else {
            None
        }
    } else {
        if k <= 0x8000_0000 {
            Some((-(k as i64)) as i32)
        } else {
            None
        }
    }
}

/// Brings a vector to the primitive vector of its direction.
///
/// Fails with `ZeroVector` on a vector without a nonzero entry, which has no
/// direction, and with `Overflow` when the primitive vector has a part outside the
/// range of `i32`.
pub fn normalize(v: &Vec<Wide>) -> (r: Result<Vec<Complex>, Error>)
    ensures
        match r {
            Ok(s) => !is_zero_vector(wide_values(v@)) && values(s@) == primitive(wide_values(v@))
                && is_state(values(s@)),
            Err(Error::ZeroVector) => is_zero_vector(wide_values(v@)),
            Err(Error::Overflow) => !is_zero_vector(wide_values(v@)) && !fits(
                primitive(wide_values(v@)),
            ),
            Err(_) => false,
        },
{
    let ghost w = wide_values(v@);
    let g = content_of(v);
    if g == 0 {
        return Err(Error::ZeroVector);
    }
    proof {
        lemma_primitive_is_state(w);
    }
    let mut out: Vec<Complex> = Vec::new();
    let mut i: usize = 0;
    while i < v.len()
        invariant
            i <= v.len(),
            out.len() == i,
            w == wide_values(v@),
            g == content(w),
            g > 0,
            divides_all(g as int, w),
            forall|j: int| 0 <= j < i ==> (#[trigger] out[j])@ == primitive(w)[j],
        decreases v.len() - i,
    {
        let c = v[i];
        proof {
            assert(w[i as int] == c@);
        }
        let re = exact_quotient(c.re, g);
        let im = exact_quotient(c.im, g);
        match (re, im) {
            (Some(re), Some(im)) => {
                out.push(Complex { re, im });
            },
            _ => {
                proof {
                    assert(!primitive(w)[i as int].fits());
                }
                return Err(Error::Overflow);
            },
        }
        i += 1;
    }
    proof {
        assert(values(out@) =~= primitive(w));
    }
    Ok(out)
}

/// The primitive vector of the direction of the given amplitudes.
///
/// Fails with `ZeroVector` when no amplitude is nonzero. A vector with parts in the
/// range of `i32` has its primitive vector there too, so nothing else can fail.
pub fn primitive_of(amplitudes: &[Complex]) -> (r: Result<Vec<Complex>, Error>)
    ensures
        match r {
            Ok(s) => !is_zero_vector(values(amplitudes@)) && values(s@) == primitive(
                values(amplitudes@),
            ) && is_state(values(s@)),
            Err(Error::ZeroVector) => is_zero_vector(values(amplitudes@)),
            Err(_) => false,
        },
{
    let mut wide: Vec<Wide> = Vec::new();
    let mut i: usize = 0;
    while i < amplitudes.len()
        invariant
            i <= amplitudes.len(),
            wide.len() == i,
            forall|j: int| 0 <= j < i ==> (#[trigger] wide[j])@ == amplitudes[j]@,
        decreases amplitudes.len() - i,
    {
        let c = amplitudes[i];
        wide.push(Wide { re: c.re as i128, im: c.im as i128 });
        i += 1;
    }
    proof {
        assert(wide_values(wide@) =~= values(amplitudes@));
        assert(fits(values(amplitudes@)));
        if !is_zero_vector(values(amplitudes@)) {
            lemma_primitive_fits(values(amplitudes@));
        }
    }
    normalize(&wide)
}

} // verus!
