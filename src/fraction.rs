//! The fraction type: construction, negation, reciprocal and the four
//! arithmetic operations, each returning a new value in lowest terms.
use vstd::prelude::*;
use crate::arith::{
    gcd, reduced, least_common_multiple, simplify, lcm, checked_lcm, sign_sub, lemma_reduced_coprime,
    lemma_gcd_divides, lemma_divides_witness,
};

verus! {

/// A signed fraction in sign-magnitude form; `sign` is `true` for
/// non-negative values.
///
/// Besides ordinary ratios a fraction takes three special forms: zero is
/// `0/1`, not-a-number is `0/0` and infinity is `1/0`, signed by `sign`.
#[derive(Debug, Clone, Copy, PartialEq, Eq, Structural)]
pub struct Fraction {
    pub sign: bool,
    pub numerator: u64,
    pub denominator: u64,
}

/// What a floating-point number was found to be, in integers: zero,
/// not-a-number, a signed infinity, or a signed ratio.
#[derive(Debug, Clone, Copy, PartialEq, Eq, Structural)]
pub enum DecimalClass {
    Zero,
    NotANumber,
    Infinite { positive: bool },
    Ratio { positive: bool, numerator: u64, denominator: u64 },
}

impl Fraction {
    /// The fraction with the given sign and the pair `(n, d)` reduced to
    /// lowest terms.
    pub open spec fn normalized(sign: bool, n: nat, d: nat) -> Fraction {
        Fraction { sign, numerator: reduced(n, d).0 as u64, denominator: reduced(n, d).1 as u64 }
    }

    /// The numerator with the fraction's sign applied.
    pub open spec fn signed_numerator(self) -> int {
        if self.sign {
            self.numerator as int
        } else {
            -(self.numerator as int)
        }
    }

    /// The same magnitude with the other sign.
    pub open spec fn negated(self) -> Fraction {
        Fraction { sign: !self.sign, ..self }
    }

    /// Numerator and denominator swapped, sign kept.
    pub open spec fn inverted(self) -> Fraction {
        Fraction { sign: self.sign, numerator: self.denominator, denominator: self.numerator }
    }

    /// Both products of `self * rhs` fit in a `u64`.
    pub open spec fn product_fits(self, rhs: Fraction) -> bool {
        self.numerator * rhs.numerator <= u64::MAX && self.denominator * rhs.denominator
            <= u64::MAX
    }

    /// `self * rhs`: products of numerators and of denominators, positive
    /// exactly when the signs agree, in lowest terms.
    pub open spec fn product(self, rhs: Fraction) -> Fraction {
        Fraction::normalized(
            self.sign == rhs.sign,
            (self.numerator as nat) * (rhs.numerator as nat),
            (self.denominator as nat) * (rhs.denominator as nat),
        )
    }

    /// `self / rhs`: `self` times the reciprocal of `rhs`.
    pub open spec fn quotient(self, rhs: Fraction) -> Fraction {
        self.product(rhs.inverted())
    }

    /// The denominator that `self + rhs` is computed over.
    pub open spec fn common_denominator(self, rhs: Fraction) -> nat {
        least_common_multiple(self.denominator as nat, rhs.denominator as nat)
    }

    /// The numerator of `self` rescaled to the denominator `denom`.
    pub open spec fn scaled_numerator(self, denom: nat) -> nat {
        (self.numerator as nat) * (denom / (self.denominator as nat))
    }

    /// Both denominators are positive and every intermediate of `self + rhs`
    /// fits in a `u64`.
    pub open spec fn sum_fits(self, rhs: Fraction) -> bool {
        let denom = self.common_denominator(rhs);
        let left = self.scaled_numerator(denom);
        let right = rhs.scaled_numerator(denom);
        &&& self.denominator > 0
        &&& rhs.denominator > 0
        &&& denom <= u64::MAX
        &&& left <= u64::MAX
        &&& right <= u64::MAX
        &&& self.sign == rhs.sign ==> left + right <= u64::MAX
    }

    /// `self + rhs` over the least common denominator, the rescaled
    /// numerators combined in sign-magnitude form, in lowest terms.
    pub open spec fn sum(self, rhs: Fraction) -> Fraction {
        let denom = self.common_denominator(rhs);
        let left = self.scaled_numerator(denom);
        let right = rhs.scaled_numerator(denom);
        if self.sign && rhs.sign {
            Fraction::normalized(true, left + right, denom)
        } else if self.sign {
            if left >= right {
                Fraction::normalized(true, (left - right) as nat, denom)
            } else {
                Fraction::normalized(false, (right - left) as nat, denom)
            }
        } else if rhs.sign {
            if right >= left {
                Fraction::normalized(true, (right - left) as nat, denom)
            } else {
                Fraction::normalized(false, (left - right) as nat, denom)
            }
        } else {
            Fraction::normalized(false, left + right, denom)
        }
    }

    /// The fraction that a classified floating-point number stands for.
    pub open spec fn of_class(c: DecimalClass) -> Fraction {
        match c {
            DecimalClass::Zero => Fraction { sign: true, numerator: 0, denominator: 1 },
            DecimalClass::NotANumber => Fraction { sign: true, numerator: 0, denominator: 0 },
            DecimalClass::Infinite { positive } => Fraction {
                sign: positive,
                numerator: 1,
                denominator: 0,
            },
            DecimalClass::Ratio { positive, numerator, denominator } => Fraction::normalized(
                positive,
                numerator as nat,
                denominator as nat,
            ),
        }
    }

    /// Builds `numerator / denominator` with the given sign, reduced to
    /// lowest terms.
    pub fn new(sign: bool, numerator: u64, denominator: u64) -> (r: Fraction)
        ensures
            r == Fraction::normalized(sign, numerator as nat, denominator as nat),
            numerator > 0 && denominator > 0 ==> gcd(r.numerator as nat, r.denominator as nat)
                == 1,
            r.numerator * denominator == numerator * r.denominator,
    {
        let (n, d) = simplify(numerator, denominator);
        proof {
            lemma_normalized_facts(sign, numerator as nat, denominator as nat);
        }
        Fraction { sign, numerator: n, denominator: d }
    }

    /// The non-negative fraction `numerator / denominator`.
    pub fn pos(numerator: u64, denominator: u64) -> (r: Fraction)
        ensures
            r == Fraction::normalized(true, numerator as nat, denominator as nat),
    {
        Fraction::new(true, numerator, denominator)
    }

    /// The negative fraction `-(numerator / denominator)`.
    pub fn neg(numerator: u64, denominator: u64) -> (r: Fraction)
        ensures
            r == Fraction::normalized(false, numerator as nat, denominator as nat),
    {
        Fraction::new(false, numerator, denominator)
    }

    /// The fraction that a classified floating-point number stands for:
    /// the zero, not-a-number or infinity form, or the ratio in lowest terms.
    pub fn from_class(c: DecimalClass) -> (r: Fraction)
        ensures
            r == Fraction::of_class(c),
    {
        match c {
            DecimalClass::Zero => Fraction { sign: true, numerator: 0, denominator: 1 },
            DecimalClass::NotANumber => Fraction { sign: true, numerator: 0, denominator: 0 },
            DecimalClass::Infinite { positive } => Fraction {
                sign: positive,
                numerator: 1,
                denominator: 0,
            },
            DecimalClass::Ratio { positive, numerator, denominator } => Fraction::new(
                positive,
                numerator,
                denominator,
            ),
        }
    }

    /// Swaps numerator and denominator and keeps the sign; the reciprocal of
    /// zero is the infinity of the same sign.
    pub fn reciprocal(&self) -> (r: Fraction)
        ensures
            r == self.inverted(),
    {
        Fraction { sign: self.sign, numerator: self.denominator, denominator: self.numerator }
    }

    /// The same magnitude with the other sign.
    pub fn negate(self) -> (r: Fraction)
        ensures
            r == self.negated(),
    {
        Fraction { sign: !self.sign, numerator: self.numerator, denominator: self.denominator }
    }

    /// `self + rhs`, in lowest terms.
    pub fn add(self, rhs: Fraction) -> (r: Fraction)
        requires
            self.sum_fits(rhs),
        ensures
            r == self.sum(rhs),
    {
        let denom = lcm(self.denominator, rhs.denominator);
        let numer_left = self.numerator * (denom / self.denominator);
        let numer_right = rhs.numerator * (denom / rhs.denominator);
        let (numer, sign) = match (self.sign, rhs.sign) {
            (true, true) => (numer_left + numer_right, true),
            (true, false) => sign_sub(numer_left, numer_right),
            (false, true) => sign_sub(numer_right, numer_left),
            (false, false) => (numer_left + numer_right, false),
        };
        Fraction::new(sign, numer, denom)
    }

    /// `self - rhs`: `self` plus the negation of `rhs`.
    pub fn sub(self, rhs: Fraction) -> (r: Fraction)
        requires
            self.sum_fits(rhs.negated()),
        ensures
            r == self.sum(rhs.negated()),
    {
        self.add(rhs.negate())
    }

    /// `self * rhs`, in lowest terms.
    pub fn mul(self, rhs: Fraction) -> (r: Fraction)
        requires
            self.product_fits(rhs),
        ensures
            r == self.product(rhs),
    {
        let numer = self.numerator * rhs.numerator;
        let denom = self.denominator * rhs.denominator;
        let sign = self.sign == rhs.sign;
        Fraction::new(sign, numer, denom)
    }

    /// `self / rhs`: `self` times the reciprocal of `rhs`.
    pub fn div(self, rhs: Fraction) -> (r: Fraction)
        requires
            self.product_fits(rhs.inverted()),
        ensures
            r == self.quotient(rhs),
    {
        self.mul(rhs.reciprocal())
    }

    /// `self + rhs`, or `None` when a denominator is zero or an intermediate
    /// value does not fit in a `u64`.
    pub fn checked_add(self, rhs: Fraction) -> (r: Option<Fraction>)
        ensures
            r == (if self.sum_fits(rhs) {
                Some(self.sum(rhs))
            } else {
                None
            }),
    {
        if self.denominator == 0 || rhs.denominator == 0 {
            return None;
        }
        let denom = match checked_lcm(self.denominator, rhs.denominator) {
            Some(d) => d,
            None => return None,
        };
        let left = match self.numerator.checked_mul(denom / self.denominator) {
            Some(v) => v,
            None => return None,
        };
        let right = match rhs.numerator.checked_mul(denom / rhs.denominator) {
            Some(v) => v,
            None => return None,
        };
        if self.sign == rhs.sign && left.checked_add(right).is_none() {
            return None;
        }
        Some(self.add(rhs))
    }

    /// `self - rhs`, or `None` where `checked_add` gives `None` for `self`
    /// and the negation of `rhs`.
    pub fn checked_sub(self, rhs: Fraction) -> (r: Option<Fraction>)
        ensures
            r == (if self.sum_fits(rhs.negated()) {
                Some(self.sum(rhs.negated()))
            } else {
                None
            }),
    {
        self.checked_add(rhs.negate())
    }

    /// `self * rhs`, or `None` when a product does not fit in a `u64`.
    pub fn checked_mul(self, rhs: Fraction) -> (r: Option<Fraction>)
        ensures
            r == (if self.product_fits(rhs) {
                Some(self.product(rhs))
            } else {
                None
            }),
    {
        if self.numerator.checked_mul(rhs.numerator).is_none() || self.denominator.checked_mul(
            rhs.denominator,
        ).is_none() {
            None
        } else {
            Some(self.mul(rhs))
        }
    }

    /// `self / rhs`, or `None` when a product does not fit in a `u64`.
    pub fn checked_div(self, rhs: Fraction) -> (r: Option<Fraction>)
        ensures
            r == (if self.product_fits(rhs.inverted()) {
                Some(self.quotient(rhs))
            } else {
                None
            }),
    {
        self.checked_mul(rhs.reciprocal())
    }
}

/// Reduction keeps the ratio, and leaves a positive pair with no common
/// divisor above 1.
pub(crate) proof fn lemma_normalized_facts(sign: bool, n: nat, d: nat)
    requires
        n <= u64::MAX,
        d <= u64::MAX,
    ensures
        ({
            let f = Fraction::normalized(sign, n, d);
            &&& reduced(n, d).0 <= n
            &&& reduced(n, d).1 <= d
            &&& f.sign == sign
            &&& f.numerator * d == n * f.denominator
            &&& n > 0 && d > 0 ==> gcd(f.numerator as nat, f.denominator as nat) == 1
        }),
{
    if n > 0 && d > 0 {
        let g = gcd(n, d);
        lemma_gcd_divides(n, d);
        lemma_divides_witness(g, n);
        lemma_divides_witness(g, d);
        lemma_reduced_coprime(n, d);
        let x = n / g;
        let y = d / g;
        assert(x <= n && y <= d && x * d == n * y) by (nonlinear_arith)
            requires
                n == x * g,
                d == y * g,
                g > 0,
        ;
    }
}

} // verus!
