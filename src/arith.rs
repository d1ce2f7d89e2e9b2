//! Integer helpers: greatest common divisor, reduction to lowest terms,
//! least common multiple and sign-magnitude subtraction.
use vstd::prelude::*;
use vstd::arithmetic::div_mod::{
    lemma_fundamental_div_mod, lemma_mod_multiples_basic,
    lemma_div_is_ordered, lemma_div_by_multiple,
};

verus! {

/// Greatest common divisor, by Euclid's recurrence; `gcd(0, 0) == 0`.
pub open spec fn gcd(a: nat, b: nat) -> nat
    decreases b,
{
    if b == 0 {
        a
    } else {
        gcd(b, a % b)
    }
}

/// `k` divides `n` (with `k > 0`).
pub open spec fn divides(k: nat, n: nat) -> bool {
    k > 0 && n % k == 0
}

pub(crate) proof fn lemma_multiple_divides(k: nat, q: nat, n: nat)
    requires
        k > 0,
        n == q * k,
    ensures
        divides(k, n),
{
    lemma_mod_multiples_basic(q as int, k as int);
}

pub(crate) proof fn lemma_divides_witness(k: nat, n: nat)
    requires
        divides(k, n),
    ensures
        n == (n / k) * k,
{
    lemma_fundamental_div_mod(n as int, k as int);
}

/// The greatest common divisor of two numbers, not both zero, is positive
/// and divides both.
pub proof fn lemma_gcd_divides(a: nat, b: nat)
    requires
        a > 0 || b > 0,
    ensures
        gcd(a, b) > 0,
        divides(gcd(a, b), a),
        divides(gcd(a, b), b),
    decreases b,
{
    if b == 0 {
        lemma_multiple_divides(a, 1, a);
        lemma_multiple_divides(a, 0, 0);
    } else {
        let r = a % b;
        lemma_gcd_divides(b, r);
        let g = gcd(b, r);
        let q = a / b;
        lemma_fundamental_div_mod(a as int, b as int);
        lemma_divides_witness(g, b);
        lemma_divides_witness(g, r);
        let x = b / g;
        let y = r / g;
        assert(a == (x * q + y) * g) by (nonlinear_arith)
            requires
                a == b * q + r,
                b == x * g,
                r == y * g,
        ;
        lemma_multiple_divides(g, x * q + y, a);
    }
}

/// Every common divisor of `a` and `b` divides their greatest common divisor.
pub proof fn lemma_common_divisor_divides_gcd(a: nat, b: nat, k: nat)
    requires
        divides(k, a),
        divides(k, b),
    ensures
        divides(k, gcd(a, b)),
    decreases b,
{
    if b != 0 {
        let r = a % b;
        let q = a / b;
        lemma_fundamental_div_mod(a as int, b as int);
        lemma_divides_witness(k, a);
        lemma_divides_witness(k, b);
        let x = a / k;
        let y = b / k;
        assert(r == (x - y * q) * k) by (nonlinear_arith)
            requires
                a == b * q + r,
                a == x * k,
                b == y * k,
        ;
        assert(x - y * q >= 0) by (nonlinear_arith)
            requires
                r == (x - y * q) * k,
                r >= 0,
                k > 0,
        ;
        lemma_multiple_divides(k, (x - y * q) as nat, r);
        lemma_common_divisor_divides_gcd(b, r, k);
    }
}

/// A positive multiple of `k` is at least `k`.
proof fn lemma_divides_bound(k: nat, n: nat)
    requires
        divides(k, n),
        n > 0,
    ensures
        k <= n,
{
    lemma_divides_witness(k, n);
    let q = n / k;
    assert(k <= n) by (nonlinear_arith)
        requires
            n == q * k,
            n > 0,
            k > 0,
    ;
}

/// Dividing two positive numbers by their greatest common divisor leaves a
/// pair whose greatest common divisor is 1.
pub proof fn lemma_reduced_coprime(a: nat, b: nat)
    requires
        a > 0,
        b > 0,
    ensures
        gcd(a / gcd(a, b), b / gcd(a, b)) == 1,
{
    let g = gcd(a, b);
    lemma_gcd_divides(a, b);
    lemma_divides_witness(g, a);
    lemma_divides_witness(g, b);
    let x = a / g;
    let y = b / g;
    assert(x > 0 && y > 0) by (nonlinear_arith)
        requires
            a == x * g,
            b == y * g,
            a > 0,
            b > 0,
    ;
    lemma_gcd_divides(x, y);
    let h = gcd(x, y);
    lemma_divides_witness(h, x);
    lemma_divides_witness(h, y);
    let u = x / h;
    let v = y / h;
    assert(a == u * (h * g) && b == v * (h * g)) by (nonlinear_arith)
        requires
            a == x * g,
            b == y * g,
            x == u * h,
            y == v * h,
    ;
    assert(h * g > 0) by (nonlinear_arith)
        requires
            h > 0,
            g > 0,
    ;
    lemma_multiple_divides(h * g, u, a);
    lemma_multiple_divides(h * g, v, b);
    lemma_common_divisor_divides_gcd(a, b, h * g);
    lemma_divides_bound(h * g, g);
    assert(h <= 1) by (nonlinear_arith)
        requires
            h * g <= g,
            g > 0,
    ;
}

/// Greatest common divisor by Euclid's algorithm.
pub fn euclid(a: u64, b: u64) -> (r: u64)
    ensures
        r as nat == gcd(a as nat, b as nat),
{
    let mut x: u64 = a;
    let mut y: u64 = b;
    while y != 0
        invariant
            gcd(x as nat, y as nat) == gcd(a as nat, b as nat),
        decreases y,
    {
        let t: u64 = x % y;
        x = y;
        y = t;
    }
    x
}

/// The pair `(n, d)` in lowest terms. A pair with a zero member is left as it
/// is: those pairs are the zero, not-a-number and infinity forms.
pub open spec fn reduced(n: nat, d: nat) -> (nat, nat) {
    if n == 0 || d == 0 {
        (n, d)
    } else {
        (n / gcd(n, d), d / gcd(n, d))
    }
}

/// Least common multiple; zero when either argument is zero.
pub open spec fn least_common_multiple(a: nat, b: nat) -> nat {
    if a == 0 || b == 0 {
        0
    } else {
        a * b / gcd(a, b)
    }
}

/// Reduces `(numer, denom)` to lowest terms; pairs with a zero member pass
/// through unchanged.
pub fn simplify(numer: u64, denom: u64) -> (r: (u64, u64))
    ensures
        (r.0 as nat, r.1 as nat) == reduced(numer as nat, denom as nat),
{
    if numer == 0 || denom == 0 {
        (numer, denom)
    } else {
        let g = euclid(numer, denom);
        proof {
            lemma_gcd_divides(numer as nat, denom as nat);
        }
        (numer / g, denom / g)
    }
}

/// The larger member of the reduced pair times the smaller of `a` and `b`
/// is their least common multiple.
proof fn lemma_lcm_from_reduced(a: nat, b: nat)
    ensures
        ({
            let (x, y) = reduced(a, b);
            let hi = if x >= y { x } else { y };
            let lo = if a <= b { a } else { b };
            hi * lo == least_common_multiple(a, b)
        }),
{
    let (x, y) = reduced(a, b);
    if a == 0 || b == 0 {
        let lo = if a <= b { a } else { b };
        assert(lo == 0);
        assert(x * lo == 0 && y * lo == 0);
    } else {
        let g = gcd(a, b);
        lemma_gcd_divides(a, b);
        lemma_divides_witness(g, a);
        lemma_divides_witness(g, b);
        if a >= b {
            lemma_div_is_ordered(b as int, a as int, g as int);
            assert(a * b == (x * b) * g) by (nonlinear_arith)
                requires
                    a == x * g,
            ;
            lemma_div_by_multiple((x * b) as int, g as int);
        } else {
            lemma_div_is_ordered(a as int, b as int, g as int);
            assert(a * b == (y * a) * g) by (nonlinear_arith)
                requires
                    b == y * g,
            ;
            lemma_div_by_multiple((y * a) as int, g as int);
        }
    }
}

/// Least common multiple, found as the larger member of the reduced pair
/// times the smaller of the two arguments.
pub fn lcm(a: u64, b: u64) -> (r: u64)
    requires
        least_common_multiple(a as nat, b as nat) <= u64::MAX,
    ensures
        r as nat == least_common_multiple(a as nat, b as nat),
{
    let (x, y) = simplify(a, b);
    let hi: u64 = if x >= y { x } else { y };
    let lo: u64 = if a <= b { a } else { b };
    proof {
        lemma_lcm_from_reduced(a as nat, b as nat);
    }
    hi * lo
}

/// The least common multiple, or `None` when it does not fit in a `u64`.
pub fn checked_lcm(a: u64, b: u64) -> (r: Option<u64>)
    ensures
        r == (if least_common_multiple(a as nat, b as nat) <= u64::MAX {
            Some(least_common_multiple(a as nat, b as nat) as u64)
        } else {
            None
        }),
{
    let (x, y) = simplify(a, b);
    let hi: u64 = if x >= y { x } else { y };
    let lo: u64 = if a <= b { a } else { b };
    proof {
        lemma_lcm_from_reduced(a as nat, b as nat);
    }
    hi.checked_mul(lo)
}

/// The least common multiple of two positive numbers is positive and a
/// multiple of each.
pub proof fn lemma_lcm_multiple(a: nat, b: nat)
    requires
        a > 0,
        b > 0,
    ensures
        least_common_multiple(a, b) > 0,
        least_common_multiple(a, b) == a * (least_common_multiple(a, b) / a),
        least_common_multiple(a, b) == b * (least_common_multiple(a, b) / b),
{
    let g = gcd(a, b);
    lemma_gcd_divides(a, b);
    lemma_divides_witness(g, a);
    lemma_divides_witness(g, b);
    let x = a / g;
    let y = b / g;
    assert(a * b == (x * y * g) * g && x * y * g == a * y && x * y * g == x * b && x * y * g > 0)
        by (nonlinear_arith)
        requires
            a == x * g,
            b == y * g,
            a > 0,
            b > 0,
            g > 0,
    ;
    lemma_div_by_multiple((x * y * g) as int, g as int);
    let l = x * y * g;
    assert(l == least_common_multiple(a, b));
    lemma_div_by_multiple(y as int, a as int);
    lemma_div_by_multiple(x as int, b as int);
    assert(l / a == y && l / b == x) by (nonlinear_arith)
        requires
            l == a * y,
            l == x * b,
            (y * a) / a == y,
            (x * b) / b == x,
    ;
}

/// The distance between `a` and `b`, with `true` when `a >= b`.
pub fn sign_sub(a: u64, b: u64) -> (r: (u64, bool))
    ensures
        r.1 == (a >= b),
        r.0 as int == if a >= b { a - b } else { b - a },
{
    if a >= b {
        (a - b, true)
    } else {
        (b - a, false)
    }
}

} // verus!
