//! Gaussian integers: the exact complex numbers that amplitudes are made of.

use vstd::arithmetic::mul::lemma_mul_is_associative;
use vstd::prelude::*;

verus! {

/// A Gaussian integer `re + im*i`: the mathematical value of an amplitude.
pub struct Gaussian {
    pub re: int,
    pub im: int,
}

impl Gaussian {
    /// The product of two Gaussian integers.
    pub open spec fn times(self, other: Gaussian) -> Gaussian {
        Gaussian {
            re: self.re * other.re - self.im * other.im,
            im: self.re * other.im + self.im * other.re,
        }
    }

    /// The sum of two Gaussian integers.
    pub open spec fn plus(self, other: Gaussian) -> Gaussian {
        Gaussian { re: self.re + other.re, im: self.im + other.im }
    }

    /// The squared magnitude `re^2 + im^2`.
    pub open spec fn norm_sqr(self) -> nat {
        (self.re * self.re + self.im * self.im) as nat
    }

    pub open spec fn zero() -> Gaussian {
        Gaussian { re: 0, im: 0 }
    }

    pub open spec fn one() -> Gaussian {
        Gaussian { re: 1, im: 0 }
    }

    pub open spec fn minus_one() -> Gaussian {
        Gaussian { re: -1, im: 0 }
    }

    /// Whether both parts are within the range of `i32`.
    pub open spec fn fits(self) -> bool {
        i32::MIN <= self.re <= i32::MAX && i32::MIN <= self.im <= i32::MAX
    }
}

/// Products with zero, one and minus one.
pub proof fn lemma_times_units(c: Gaussian)
    ensures
        Gaussian::zero().times(c) == Gaussian::zero(),
        Gaussian::one().times(c) == c,
        Gaussian::minus_one().times(c) == (Gaussian { re: -c.re, im: -c.im }),
{
    assert(0 * c.re == 0 && 0 * c.im == 0 && 1 * c.re == c.re && 1 * c.im == c.im && (-1) * c.re
        == -c.re && (-1) * c.im == -c.im) by (nonlinear_arith);
}

/// Multiplication is associative.
pub proof fn lemma_times_associative(a: Gaussian, b: Gaussian, c: Gaussian)
    ensures
        a.times(b).times(c) == a.times(b.times(c)),
{
    let (x, y, u, v, s, t) = (a.re, a.im, b.re, b.im, c.re, c.im);
    let (xu, yv, xv, yu) = (x * u, y * v, x * v, y * u);
    lemma_mul_is_associative(x, u, s);
    lemma_mul_is_associative(x, u, t);
    lemma_mul_is_associative(x, v, s);
    lemma_mul_is_associative(x, v, t);
    lemma_mul_is_associative(y, u, s);
    lemma_mul_is_associative(y, u, t);
    lemma_mul_is_associative(y, v, s);
    lemma_mul_is_associative(y, v, t);
    assert((xu - yv) * s == xu * s - yv * s && (xv + yu) * t == xv * t + yu * t) by (nonlinear_arith);
    assert((xu - yv) * t == xu * t - yv * t && (xv + yu) * s == xv * s + yu * s) by (nonlinear_arith);
    assert(x * (u * s - v * t) == x * (u * s) - x * (v * t) && y * (u * t + v * s) == y * (u * t)
        + y * (v * s)) by (nonlinear_arith);
    assert(x * (u * t + v * s) == x * (u * t) + x * (v * s) && y * (u * s - v * t) == y * (u * s)
        - y * (v * t)) by (nonlinear_arith);
}

/// A real factor can be taken out of either side of a product.
pub proof fn lemma_times_scaled(a: Gaussian, b: Gaussian, k: int)
    ensures
        (Gaussian { re: k * a.re, im: k * a.im }).times(b) == (Gaussian {
            re: k * a.times(b).re,
            im: k * a.times(b).im,
        }),
        a.times(Gaussian { re: k * b.re, im: k * b.im }) == (Gaussian {
            re: k * a.times(b).re,
            im: k * a.times(b).im,
        }),
{
    let (x, y, u, v) = (a.re, a.im, b.re, b.im);
    assert((k * x) * u - (k * y) * v == k * (x * u - y * v)) by (nonlinear_arith);
    assert((k * x) * v + (k * y) * u == k * (x * v + y * u)) by (nonlinear_arith);
    assert(x * (k * u) - y * (k * v) == k * (x * u - y * v)) by (nonlinear_arith);
    assert(x * (k * v) + y * (k * u) == k * (x * v + y * u)) by (nonlinear_arith);
}

/// Only zero has squared magnitude zero.
pub proof fn lemma_norm_sqr_zero(c: Gaussian)
    ensures
        c.norm_sqr() == 0 <==> c == Gaussian::zero(),
        c.norm_sqr() == c.re * c.re + c.im * c.im,
{
    assert(c.re * c.re >= 0 && c.im * c.im >= 0 && (c.re * c.re == 0 ==> c.re == 0) && (c.im
        * c.im == 0 ==> c.im == 0)) by (nonlinear_arith);
}

/// The squared magnitude of a product is the product of the squared magnitudes, so
/// a product of two nonzero numbers is not zero.
pub proof fn lemma_norm_sqr_times(a: Gaussian, b: Gaussian)
    ensures
        a.times(b).norm_sqr() == a.norm_sqr() * b.norm_sqr(),
        a != Gaussian::zero() && b != Gaussian::zero() ==> a.times(b) != Gaussian::zero(),
{
    lemma_norm_sqr_zero(a);
    lemma_norm_sqr_zero(b);
    lemma_norm_sqr_zero(a.times(b));
    let (x, y, u, v) = (a.re, a.im, b.re, b.im);
    let (xu, yv, xv, yu) = (x * u, y * v, x * v, y * u);
    let (xx, yy, uu, vv) = (x * x, y * y, u * u, v * v);
    let p = xx + yy;
    let q = uu + vv;
    assert(xu * yv == xv * yu) by (nonlinear_arith)
        requires
            xu == x * u,
            yv == y * v,
            xv == x * v,
            yu == y * u,
    ;
    assert(xu * xu == xx * uu && yv * yv == yy * vv && xv * xv == xx * vv && yu * yu == yy * uu)
        by (nonlinear_arith)
        requires
            xu == x * u,
            yv == y * v,
            xv == x * v,
            yu == y * u,
            xx == x * x,
            yy == y * y,
            uu == u * u,
            vv == v * v,
    ;
    assert((xu - yv) * (xu - yv) + (xv + yu) * (xv + yu) == xu * xu + yv * yv + xv * xv + yu
        * yu - 2 * (xu * yv) + 2 * (xv * yu)) by (nonlinear_arith);
    assert(p * q == xx * uu + xx * vv + yy * uu + yy * vv) by (nonlinear_arith)
        requires
            p == xx + yy,
            q == uu + vv,
    ;
    assert(a.times(b).re == xu - yv && a.times(b).im == xv + yu);
    assert(p > 0 && q > 0 ==> p * q > 0) by (nonlinear_arith);
}

/// A complex number with 32-bit integer parts: one amplitude of a state, up to the
/// positive factor that the whole state shares.
#[derive(Clone, Copy, Debug, PartialEq, Eq, Structural)]
pub struct Complex {
    pub re: i32,
    pub im: i32,
}

impl View for Complex {
    type V = Gaussian;

    open spec fn view(&self) -> Gaussian {
        Gaussian { re: self.re as int, im: self.im as int }
    }
}

impl Complex {
    pub fn new(re: i32, im: i32) -> (c: Complex)
        ensures
            c.re == re,
            c.im == im,
    {
        Complex { re, im }
    }

    pub fn zero() -> (c: Complex)
        ensures
            c@ == Gaussian::zero(),
    {
        Complex { re: 0, im: 0 }
    }

    pub fn one() -> (c: Complex)
        ensures
            c@ == Gaussian::one(),
    {
        Complex { re: 1, im: 0 }
    }

    /// The squared magnitude, which always fits in 64 bits.
    pub fn norm_sqr(&self) -> (n: u64)
        ensures
            n == self@.norm_sqr(),
    {
        let re: i64 = self.re as i64;
        let im: i64 = self.im as i64;
        assert(0 <= re * re <= 0x4000_0000_0000_0000) by (nonlinear_arith)
            requires
                -0x8000_0000 <= re <= 0x7fff_ffff,
        ;
        assert(0 <= im * im <= 0x4000_0000_0000_0000) by (nonlinear_arith)
            requires
                -0x8000_0000 <= im <= 0x7fff_ffff,
        ;
        let a: u64 = (re * re) as u64;
        let b: u64 = (im * im) as u64;
        a + b
    }
}

/// A complex number with 128-bit integer parts: an amplitude before normalization.
#[derive(Clone, Copy, Debug, PartialEq, Eq, Structural)]
pub struct Wide {
    pub re: i128,
    pub im: i128,
}

impl View for Wide {
    type V = Gaussian;

    open spec fn view(&self) -> Gaussian {
        Gaussian { re: self.re as int, im: self.im as int }
    }
}

/// The mathematical values of a sequence of amplitudes.
pub open spec fn values(s: Seq<Complex>) -> Seq<Gaussian> {
    Seq::new(s.len(), |i: int| s[i]@)
}

/// The mathematical values of a sequence of wide amplitudes.
pub open spec fn wide_values(s: Seq<Wide>) -> Seq<Gaussian> {
    Seq::new(s.len(), |i: int| s[i]@)
}

/// The largest number of wide amplitudes that one allocation can hold.
pub open spec fn wide_capacity() -> nat {
    (isize::MAX / 32) as nat
}

/// Computes the largest number of wide amplitudes that one allocation can hold.
pub fn wide_capacity_of() -> (n: usize)
    ensures
        n == wide_capacity(),
{
    (isize::MAX / 32) as usize
}

} // verus!
