//! Divisibility and greatest common divisors of integers.

use vstd::arithmetic::div_mod::{
    lemma_fundamental_div_mod, lemma_fundamental_div_mod_converse, lemma_mod_multiples_basic,
    lemma_truncate_middle,
};
use vstd::prelude::*;

verus! {

/// The absolute value of an integer.
pub open spec fn magnitude(x: int) -> nat {
    if x < 0 {
        (-x) as nat
    } else {
        x as nat
    }
}

/// The greatest common divisor of `a` and `b`; `gcd(0, 0)` is `0`.
pub open spec fn gcd(a: nat, b: nat) -> nat
    decreases b,
{
    if b == 0 {
        a
    } else {
        gcd(b, a % b)
    }
}

/// A number whose remainder by `d` is zero is its quotient by `d`, times `d`.
pub proof fn lemma_exact_quotient(n: int, d: int)
    requires
        d > 0,
        n % d == 0,
    ensures
        n == (n / d) * d,
{
    lemma_fundamental_div_mod(n, d);
    assert(d * (n / d) == (n / d) * d) by (nonlinear_arith);
}

/// What divides `x` and `y` divides `x * q + y`.
pub proof fn lemma_divides_combination(x: int, y: int, q: int, d: int)
    requires
        d > 0,
        x % d == 0,
        y % d == 0,
    ensures
        (x * q + y) % d == 0,
{
    lemma_exact_quotient(x, d);
    lemma_exact_quotient(y, d);
    let s = x / d;
    let t = y / d;
    assert(x * q + y == (s * q + t) * d) by (nonlinear_arith)
        requires
            x == s * d,
            y == t * d,
    ;
    lemma_mod_multiples_basic(s * q + t, d);
}

/// What divides a divisor of `n` divides `n`.
pub proof fn lemma_divisor_chain(n: int, d: int, e: int)
    requires
        d > 0,
        e > 0,
        n % d == 0,
        d % e == 0,
    ensures
        n % e == 0,
{
    lemma_exact_quotient(n, d);
    lemma_exact_quotient(d, e);
    let s = n / d;
    let t = d / e;
    assert(n == (s * t) * e) by (nonlinear_arith)
        requires
            n == s * d,
            d == t * e,
    ;
    lemma_mod_multiples_basic(s * t, e);
}

/// If `g` divides `n` and `h` divides the quotient, then `h * g` divides `n`.
pub proof fn lemma_scaled_divisor(n: int, g: int, h: int)
    requires
        g > 0,
        h > 0,
        n % g == 0,
        (n / g) % h == 0,
    ensures
        n % (h * g) == 0,
{
    lemma_exact_quotient(n, g);
    lemma_exact_quotient(n / g, h);
    let s = n / g;
    let t = s / h;
    assert(n == t * (h * g)) by (nonlinear_arith)
        requires
            n == s * g,
            s == t * h,
    ;
    assert(h * g > 0) by (nonlinear_arith)
        requires
            h > 0,
            g > 0,
    ;
    lemma_mod_multiples_basic(t, h * g);
}

/// An exact quotient by a positive number lies between zero and the dividend.
pub proof fn lemma_quotient_between(x: int, g: int)
    requires
        g > 0,
        x % g == 0,
    ensures
        x >= 0 ==> 0 <= x / g <= x,
        x <= 0 ==> x <= x / g <= 0,
{
    lemma_exact_quotient(x, g);
    let q = x / g;
    assert((x >= 0 ==> 0 <= q <= x) && (x <= 0 ==> x <= q <= 0)) by (nonlinear_arith)
        requires
            g > 0,
            x == q * g,
    ;
}

/// Multiplying a number and its divisor by the same positive number keeps the
/// quotient.
pub proof fn lemma_scaled_quotient(x: int, g: int, k: int)
    requires
        g > 0,
        k > 0,
        x % g == 0,
    ensures
        (k * x) / (k * g) == x / g,
{
    lemma_exact_quotient(x, g);
    let q = x / g;
    assert(k * x == q * (k * g) + 0 && k * g > 0) by (nonlinear_arith)
        requires
            x == q * g,
            k > 0,
            g > 0,
    ;
    lemma_fundamental_div_mod_converse(k * x, k * g, q, 0);
}

/// The quotient by `d2` of an index below `d1 * d2` is an index below `d1`.
pub proof fn lemma_quotient_below(t: int, d1: int, d2: int)
    requires
        0 <= t < d1 * d2,
        d2 > 0,
    ensures
        0 <= t / d2 < d1,
        0 <= t % d2 < d2,
{
    lemma_fundamental_div_mod(t, d2);
    let q = t / d2;
    let r = t % d2;
    assert(0 <= q < d1) by (nonlinear_arith)
        requires
            t == d2 * q + r,
            0 <= r < d2,
            0 <= t < d1 * d2,
            d2 > 0,
    ;
}

/// The sign of a number does not change what divides it.
pub proof fn lemma_magnitude_divisible(x: int, d: int)
    requires
        d > 0,
    ensures
        (magnitude(x) as int % d == 0) <==> (x % d == 0),
{
    if x < 0 {
        if x % d == 0 {
            lemma_divides_combination(x, 0, -1, d);
            assert(x * (-1) + 0 == -x);
        }
        if (-x) % d == 0 {
            lemma_divides_combination(-x, 0, -1, d);
            assert((-x) * (-1) + 0 == x);
        }
    }
}

/// The magnitude of a multiple is the multiple of the magnitude.
pub proof fn lemma_magnitude_scales(x: int, k: nat)
    ensures
        magnitude(k * x) == k * magnitude(x),
{
    assert(x < 0 ==> k * x <= 0 && -(k * x) == k * (-x)) by (nonlinear_arith);
    assert(x >= 0 ==> k * x >= 0) by (nonlinear_arith);
}

/// The greatest common divisor is zero only for two zeros.
pub proof fn lemma_gcd_zero(a: nat, b: nat)
    ensures
        gcd(a, b) == 0 <==> (a == 0 && b == 0),
    decreases b,
{
    if b != 0 {
        lemma_gcd_zero(b, a % b);
    }
}

/// The greatest common divisor divides both numbers.
pub proof fn lemma_gcd_divides(a: nat, b: nat)
    requires
        gcd(a, b) > 0,
    ensures
        a % gcd(a, b) == 0,
        b % gcd(a, b) == 0,
    decreases b,
{
    let g = gcd(a, b) as int;
    if b == 0 {
        lemma_mod_multiples_basic(1, g);
    } else {
        let r = a % b;
        lemma_gcd_divides(b, r);
        lemma_fundamental_div_mod(a as int, b as int);
        lemma_divides_combination(b as int, r as int, a as int / b as int, g);
    }
}

/// Every common divisor of two numbers divides their greatest common divisor.
pub proof fn lemma_gcd_greatest(a: nat, b: nat, d: nat)
    requires
        d > 0,
        a % d == 0,
        b % d == 0,
    ensures
        gcd(a, b) % d == 0,
    decreases b,
{
    if b != 0 {
        let r = a % b;
        let q = a as int / b as int;
        lemma_fundamental_div_mod(a as int, b as int);
        lemma_divides_combination(b as int, a as int, -q, d as int);
        assert(b as int * (-q) + a as int == r as int) by (nonlinear_arith)
            requires
                a as int == b as int * q + r as int,
        ;
        lemma_gcd_greatest(b, r, d);
    }
}

/// A common factor of two numbers is a factor of their greatest common divisor.
pub proof fn lemma_gcd_scales(a: nat, b: nat, k: nat)
    requires
        k > 0,
    ensures
        gcd(k * a, k * b) == k * gcd(a, b),
    decreases b,
{
    if b == 0 {
        assert(k * b == 0) by (nonlinear_arith)
            requires
                b == 0,
        ;
    } else {
        lemma_truncate_middle(a as int, k as int, b as int);
        lemma_gcd_scales(b, a % b, k);
        assert(k * b > 0) by (nonlinear_arith)
            requires
                k > 0,
                b > 0,
        ;
        assert(((k * a) % (k * b)) as int == (k as int * a as int) % (k as int * b as int));
        assert((k * a) % (k * b) == k * (a % b));
    }
}

/// Two positive numbers that divide each other are equal.
pub proof fn lemma_mutual_divisors(a: nat, b: nat)
    requires
        a > 0,
        b > 0,
        a % b == 0,
        b % a == 0,
    ensures
        a == b,
{
    lemma_exact_quotient(a as int, b as int);
    lemma_exact_quotient(b as int, a as int);
    let s = a as int / b as int;
    let t = b as int / a as int;
    assert(a == b) by (nonlinear_arith)
        requires
            a > 0,
            b > 0,
            a == s * b,
            b == t * a,
    ;
}

/// Whether `g` is the greatest common divisor of `a` and `b`: zero when both are
/// zero, and otherwise the positive common divisor that every common divisor
/// divides.
pub open spec fn is_gcd(g: nat, a: nat, b: nat) -> bool {
    if a == 0 && b == 0 {
        g == 0
    } else {
        &&& g > 0
        &&& a % g == 0
        &&& b % g == 0
        &&& forall|d: nat| d > 0 && #[trigger] (a % d) == 0 && b % d == 0 ==> g % d == 0
    }
}

/// `gcd` gives the greatest common divisor.
pub proof fn lemma_gcd_is_gcd(a: nat, b: nat)
    ensures
        is_gcd(gcd(a, b), a, b),
{
    lemma_gcd_zero(a, b);
    if a != 0 || b != 0 {
        lemma_gcd_divides(a, b);
        assert forall|d: nat| d > 0 && #[trigger] (a % d) == 0 && b % d == 0 implies gcd(a, b) % d
            == 0 by {
            lemma_gcd_greatest(a, b, d);
        }
    }
}

/// Computes the greatest common divisor by Euclid's algorithm.
pub fn gcd_u128(a: u128, b: u128) -> (g: u128)
    ensures
        g == gcd(a as nat, b as nat),
        is_gcd(g as nat, a as nat, b as nat),
{
    proof {
        lemma_gcd_is_gcd(a as nat, b as nat);
    }
    let mut x: u128 = a;
    let mut y: u128 = b;
    while y != 0
        invariant
            gcd(x as nat, y as nat) == gcd(a as nat, b as nat),
        decreases y,
    {
        let r: u128 = x % y;
        x = y;
        y = r;
    }
    x
}

} // verus!
