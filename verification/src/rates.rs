//! Greatest common divisor of sample rates, and the reduced rate ratio that
//! the polyphase resampler works with.
use vstd::prelude::*;
use vstd::arithmetic::div_mod::{lemma_fundamental_div_mod, lemma_mod_multiples_basic};

verus! {

/// Euclid's greatest common divisor; `gcd_of(a, 0) == a`.
pub open spec fn gcd_of(a: nat, b: nat) -> nat
    decreases b,
{
    if b == 0 {
        a
    } else {
        gcd_of(b, a % b)
    }
}

/// `d` divides `a` (for a positive `d`).
pub open spec fn divides(d: nat, a: nat) -> bool {
    d > 0 && a % d == 0
}

proof fn lemma_divides_linear(d: nat, b: nat, r: nat, q: nat, a: nat)
    requires
        divides(d, b),
        divides(d, r),
        a == b * q + r,
    ensures
        divides(d, a),
{
    lemma_fundamental_div_mod(b as int, d as int);
    lemma_fundamental_div_mod(r as int, d as int);
    let m = b / d;
    let n = r / d;
    assert(a == d * (m * q + n)) by (nonlinear_arith)
        requires
            b == d * m,
            r == d * n,
            a == b * q + r,
    ;
    lemma_mod_multiples_basic((m * q + n) as int, d as int);
    assert((m * q + n) * d == d * (m * q + n)) by (nonlinear_arith);
}

proof fn lemma_divides_difference(d: nat, a: nat, b: nat, q: nat, r: nat)
    requires
        divides(d, a),
        divides(d, b),
        a == b * q + r,
    ensures
        divides(d, r),
{
    lemma_fundamental_div_mod(a as int, d as int);
    lemma_fundamental_div_mod(b as int, d as int);
    let m = a / d;
    let n = b / d;
    assert(r == d * (m - n * q)) by (nonlinear_arith)
        requires
            a == d * m,
            b == d * n,
            a == b * q + r,
    ;
    assert(m - n * q >= 0) by (nonlinear_arith)
        requires
            r == d * (m - n * q),
            d > 0,
            r >= 0,
    ;
    lemma_mod_multiples_basic(m - n * q, d as int);
    assert((m - n * q) * d == d * (m - n * q)) by (nonlinear_arith);
}

/// The greatest common divisor divides both arguments.
pub proof fn lemma_gcd_divides(a: nat, b: nat)
    requires
        a > 0 || b > 0,
    ensures
        gcd_of(a, b) > 0,
        divides(gcd_of(a, b), a),
        divides(gcd_of(a, b), b),
    decreases b,
{
    if b == 0 {
        lemma_mod_multiples_basic(1, a as int);
    } else {
        let r = a % b;
        lemma_gcd_divides(b, r);
        lemma_fundamental_div_mod(a as int, b as int);
        lemma_divides_linear(gcd_of(b, r), b, r, a / b, a);
    }
}

/// Every common divisor of `a` and `b` divides their greatest common divisor.
pub proof fn lemma_common_divisor_divides_gcd(a: nat, b: nat, d: nat)
    requires
        divides(d, a),
        divides(d, b),
    ensures
        divides(d, gcd_of(a, b)),
    decreases b,
{
    if b != 0 {
        let r = a % b;
        lemma_fundamental_div_mod(a as int, b as int);
        lemma_divides_difference(d, a, b, a / b, r);
        lemma_common_divisor_divides_gcd(b, r, d);
    }
}

proof fn lemma_divisor_not_larger(d: nat, a: nat)
    requires
        divides(d, a),
        a > 0,
    ensures
        d <= a,
{
    lemma_fundamental_div_mod(a as int, d as int);
    assert(d <= a) by (nonlinear_arith)
        requires
            a == d * (a / d),
            a > 0,
            d > 0,
            a / d >= 0,
    ;
}

/// Dividing two positive numbers by their greatest common divisor leaves
/// two numbers whose greatest common divisor is one.
pub proof fn lemma_reduced_coprime(a: nat, b: nat)
    requires
        a > 0,
        b > 0,
    ensures
        gcd_of(a / gcd_of(a, b), b / gcd_of(a, b)) == 1,
{
    let g = gcd_of(a, b);
    lemma_gcd_divides(a, b);
    lemma_fundamental_div_mod(a as int, g as int);
    lemma_fundamental_div_mod(b as int, g as int);
    let a1 = a / g;
    let b1 = b / g;
    assert(a1 > 0) by (nonlinear_arith)
        requires
            a == g * a1,
            a > 0,
    ;
    let h = gcd_of(a1, b1);
    lemma_gcd_divides(a1, b1);
    lemma_fundamental_div_mod(a1 as int, h as int);
    lemma_fundamental_div_mod(b1 as int, h as int);
    let gh = g * h;
    assert(gh > 0) by (nonlinear_arith)
        requires
            g > 0,
            h > 0,
            gh == g * h,
    ;
    assert(a == gh * (a1 / h)) by (nonlinear_arith)
        requires
            a == g * a1,
            a1 == h * (a1 / h),
            gh == g * h,
    ;
    assert(b == gh * (b1 / h)) by (nonlinear_arith)
        requires
            b == g * b1,
            b1 == h * (b1 / h),
            gh == g * h,
    ;
    lemma_mod_multiples_basic((a1 / h) as int, gh as int);
    lemma_mod_multiples_basic((b1 / h) as int, gh as int);
    assert((a1 / h) * gh == gh * (a1 / h)) by (nonlinear_arith);
    assert((b1 / h) * gh == gh * (b1 / h)) by (nonlinear_arith);
    lemma_common_divisor_divides_gcd(a, b, gh);
    lemma_divisor_not_larger(gh, g);
    assert(h <= 1) by (nonlinear_arith)
        requires
            gh == g * h,
            gh <= g,
            g > 0,
    ;
}

/// Scaling both arguments scales their greatest common divisor.
pub proof fn lemma_gcd_scale(a: nat, b: nat, c: nat)
    requires
        c > 0,
    ensures
        gcd_of(c * a, c * b) == c * gcd_of(a, b),
    decreases b,
{
    if b == 0 {
        assert(c * b == 0) by (nonlinear_arith)
            requires
                b == 0,
        ;
    } else {
        let r = a % b;
        lemma_fundamental_div_mod(a as int, b as int);
        assert(c * a == (a / b) * (c * b) + c * r) by (nonlinear_arith)
            requires
                a == b * (a / b) + r,
        ;
        assert(0 <= c * r < c * b) by (nonlinear_arith)
            requires
                0 <= r < b,
                c > 0,
        ;
        assert(c * b > 0) by (nonlinear_arith)
            requires
                b > 0,
                c > 0,
        ;
        vstd::arithmetic::div_mod::lemma_fundamental_div_mod_converse(
            (c * a) as int,
            (c * b) as int,
            (a / b) as int,
            (c * r) as int,
        );
        assert((c * a) % (c * b) == c * r);
        lemma_gcd_scale(b, r, c);
    }
}

/// Greatest common divisor of two sample rates, by Euclid's algorithm.
pub fn gcd(a: usize, b: usize) -> (g: usize)
    ensures
        g == gcd_of(a as nat, b as nat),
{
    let mut x: usize = a;
    let mut y: usize = b;
    while y != 0
        invariant
            gcd_of(x as nat, y as nat) == gcd_of(a as nat, b as nat),
        decreases y,
    {
        let t: usize = x % y;
        x = y;
        y = t;
    }
    x
}

} // verus!
