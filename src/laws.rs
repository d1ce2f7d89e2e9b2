//! Laws that relate the operations of `Fraction`.
use vstd::prelude::*;
use crate::arith::{gcd, lemma_multiple_divides, lemma_lcm_multiple};
use crate::fraction::{Fraction, lemma_normalized_facts};

verus! {

/// Lowest terms: every fraction that construction yields (and so every
/// result of `new`, `pos`, `neg`, `add`, `sub`, `mul` and `div`) whose
/// numerator and denominator are both positive has a greatest common divisor
/// of 1.
pub proof fn normal_form(sign: bool, n: u64, d: u64)
    ensures
        ({
            let f = Fraction::normalized(sign, n as nat, d as nat);
            f.numerator > 0 && f.denominator > 0 ==> gcd(f.numerator as nat, f.denominator as nat)
                == 1
        }),
{
    lemma_normalized_facts(sign, n as nat, d as nat);
}

/// Negating twice gives back the same sign, numerator and denominator.
pub proof fn negate_involution(f: Fraction)
    ensures
        f.negated().negated() == f,
{
}

/// A fraction divided by itself has equal numerator and denominator; for a
/// non-zero finite fraction both are 1.
pub proof fn divide_by_self(f: Fraction)
    requires
        f.product_fits(f.inverted()),
    ensures
        f.quotient(f).numerator == f.quotient(f).denominator,
        f.numerator > 0 && f.denominator > 0 ==> f.quotient(f).numerator == 1,
{
    let m = (f.numerator as nat) * (f.denominator as nat);
    assert((f.denominator as nat) * (f.numerator as nat) == m) by (nonlinear_arith)
        requires
            m == (f.numerator as nat) * (f.denominator as nat),
    ;
    if f.numerator > 0 && f.denominator > 0 {
        assert(m > 0) by (nonlinear_arith)
            requires
                m == (f.numerator as nat) * (f.denominator as nat),
                f.numerator > 0,
                f.denominator > 0,
        ;
        lemma_multiple_divides(m, 1, m);
        assert(gcd(m, 0) == m);
        assert(gcd(m, m) == m);
        assert(m / m == 1) by (nonlinear_arith)
            requires
                m > 0,
        ;
    } else {
        assert(m == 0) by (nonlinear_arith)
            requires
                m == (f.numerator as nat) * (f.denominator as nat),
                f.numerator == 0 || f.denominator == 0,
        ;
    }
}

/// Addition is exact: for positive denominators, the sum's signed numerator
/// over its denominator equals `a/b + c/d` with `a`, `c` the operands' signed
/// numerators, compared by cross-multiplication.
pub proof fn sum_is_exact(x: Fraction, y: Fraction)
    requires
        x.sum_fits(y),
    ensures
        ({
            let r = x.sum(y);
            r.signed_numerator() * ((x.denominator as int) * (y.denominator as int)) == (
            x.signed_numerator() * y.denominator + y.signed_numerator() * x.denominator)
                * r.denominator
        }),
{
    let d1 = x.denominator as nat;
    let d2 = y.denominator as nat;
    let l = x.common_denominator(y);
    lemma_lcm_multiple(d1, d2);
    let p = l / d1;
    let q = l / d2;
    let sn1 = x.signed_numerator();
    let sn2 = y.signed_numerator();
    let s: int = sn1 * p + sn2 * q;
    let left = x.scaled_numerator(l);
    let right = y.scaled_numerator(l);
    assert(left == x.numerator * p && right == y.numerator * q);
    assert(sn1 * p == if x.sign { left as int } else { -left }) by (nonlinear_arith)
        requires
            sn1 == (if x.sign { x.numerator as int } else { -(x.numerator as int) }),
            left == x.numerator * p,
    ;
    assert(sn2 * q == if y.sign { right as int } else { -right }) by (nonlinear_arith)
        requires
            sn2 == (if y.sign { y.numerator as int } else { -(y.numerator as int) }),
            right == y.numerator * q,
    ;
    let m: nat = if s >= 0 { s as nat } else { (-s) as nat };
    let r = x.sum(y);
    assert(r == Fraction::normalized(r.sign, m, l));
    assert(s == 0 || (r.sign <==> s > 0));
    lemma_normalized_facts(r.sign, m, l);
    let rn = r.numerator as int;
    let rd = r.denominator as int;
    let rs = r.signed_numerator();
    assert(rs * l == s * rd) by (nonlinear_arith)
        requires
            rn * l == m * rd,
            rs == (if r.sign { rn } else { -rn }),
            m == (if s >= 0 { s } else { -s }),
            s == 0 || (r.sign <==> s > 0),
    ;
    let e = sn1 * d2 + sn2 * d1;
    assert(s * (d1 * d2) == l * e) by (nonlinear_arith)
        requires
            s == sn1 * p + sn2 * q,
            l == d1 * p,
            l == d2 * q,
            e == sn1 * d2 + sn2 * d1,
    ;
    assert(rs * (d1 * d2) == e * rd) by (nonlinear_arith)
        requires
            rs * l == s * rd,
            s * (d1 * d2) == l * e,
            l > 0,
    ;
}

/// Multiplication is exact: the product's signed numerator over its
/// denominator equals the product of the operands' values, compared by
/// cross-multiplication.
pub proof fn product_is_exact(x: Fraction, y: Fraction)
    requires
        x.product_fits(y),
    ensures
        ({
            let r = x.product(y);
            r.signed_numerator() * ((x.denominator as int) * (y.denominator as int)) == (
            x.signed_numerator() * y.signed_numerator()) * r.denominator
        }),
{
    let n = (x.numerator as nat) * (y.numerator as nat);
    let d = (x.denominator as nat) * (y.denominator as nat);
    let r = x.product(y);
    lemma_normalized_facts(x.sign == y.sign, n, d);
    let rn = r.numerator as int;
    let rd = r.denominator as int;
    let sn1 = x.signed_numerator();
    let sn2 = y.signed_numerator();
    assert(sn1 * sn2 == if x.sign == y.sign { n as int } else { -n }) by (nonlinear_arith)
        requires
            sn1 == (if x.sign { x.numerator as int } else { -(x.numerator as int) }),
            sn2 == (if y.sign { y.numerator as int } else { -(y.numerator as int) }),
            n == x.numerator * y.numerator,
    ;
    assert(r.signed_numerator() * d == (sn1 * sn2) * rd) by (nonlinear_arith)
        requires
            rn * d == n * rd,
            r.signed_numerator() == (if x.sign == y.sign { rn } else { -rn }),
            sn1 * sn2 == (if x.sign == y.sign { n as int } else { -n }),
    ;
}

} // verus!
