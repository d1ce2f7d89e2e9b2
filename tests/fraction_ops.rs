use frac::arith::{euclid, lcm, sign_sub, simplify};
use frac::{DecimalClass, Fraction};

fn value(f: &Fraction) -> f64 {
    let mag = f.numerator as f64 / f.denominator as f64;
    if f.sign {
        mag
    } else {
        -mag
    }
}

fn parts(f: &Fraction) -> (bool, u64, u64) {
    (f.sign, f.numerator, f.denominator)
}

#[test]
fn round_trip_simple_ratio() {
    let f = Fraction::pos(5460, 104286);
    assert_eq!(f.to_string(), "10/191");
    assert!((value(&f) - 5460.0 / 104286.0).abs() < 1e-12);
}

#[test]
fn addition_reduces() {
    let f = Fraction::pos(51, 21).add(Fraction::pos(5, 6));
    assert_eq!(f.to_string(), "137/42");
    assert!((value(&f) - (51.0 / 21.0 + 5.0 / 6.0)).abs() < 1e-9);
}

#[test]
fn addition_of_reduced_ratio() {
    let f1 = Fraction::pos(5460, 104286);
    let f2 = Fraction::new(true, 8, 9);
    assert_eq!(f1.add(f2).to_string(), "1618/1719");
}

#[test]
fn sign_of_product() {
    let f = Fraction::neg(4, 7).mul(Fraction::pos(21, 5));
    assert_eq!(parts(&f), (false, 12, 5));
    assert_eq!(f.to_string(), "-12/5");
}

#[test]
fn classified_sentinels() {
    assert_eq!(parts(&Fraction::from_class(DecimalClass::Zero)), (true, 0, 1));
    let nan = Fraction::from_class(DecimalClass::NotANumber);
    assert_eq!((nan.numerator, nan.denominator), (0, 0));
    assert_eq!(
        parts(&Fraction::from_class(DecimalClass::Infinite { positive: true })),
        (true, 1, 0)
    );
    assert_eq!(
        parts(&Fraction::from_class(DecimalClass::Infinite { positive: false })),
        (false, 1, 0)
    );
}

#[test]
fn classified_integer() {
    let f = Fraction::from_class(DecimalClass::Ratio { positive: true, numerator: 5, denominator: 1 });
    assert_eq!(f.to_string(), "5");
}

#[test]
fn classified_ratio_is_reduced() {
    let f = Fraction::from_class(DecimalClass::Ratio { positive: false, numerator: 14, denominator: 6 });
    assert_eq!(parts(&f), (false, 7, 3));
}

#[test]
fn composite_expression() {
    // 0.28571428571 -> 2/7, 3.82051282051 -> 149/39, 8.6 -> 43/5
    let a = Fraction::pos(2, 7);
    let c = Fraction::pos(149, 39);
    let d = Fraction::pos(43, 5);
    let inner = a.sub(Fraction::pos(16, 42).div(Fraction::new(true, 5, 2)));
    let b = Fraction::pos(5, 4).negate().mul(inner).add(c).sub(d);
    assert_eq!(b.to_string(), "-643/130");
    let scaled = b.mul(Fraction::pos(5, 2));
    assert_eq!(scaled.to_string(), "-643/52");
    let direct = (-5.0 / 4.0 * (0.28571428571 - 16.0 / 42.0 / (5.0 / 2.0)) + 3.82051282051 - 8.6) * 2.5;
    assert!((value(&scaled) - direct).abs() < 1e-9);
}

#[test]
fn negation_twice() {
    for f in [Fraction::pos(3, 4), Fraction::neg(9, 2), Fraction::new(true, 0, 0), Fraction::neg(1, 0)] {
        let back = f.negate().negate();
        assert_eq!(parts(&back), parts(&f));
    }
    assert_eq!(parts(&Fraction::pos(3, 4).negate()), (false, 3, 4));
}

#[test]
fn division_by_self() {
    let f = Fraction::neg(22, 7);
    assert_eq!(parts(&f.div(f)), (true, 1, 1));
    let inf = Fraction::pos(1, 0);
    let q = inf.div(inf);
    assert_eq!(q.numerator, q.denominator);
}

#[test]
fn quotient_of_ratios() {
    let f = Fraction::pos(16, 42).div(Fraction::new(true, 5, 2));
    assert_eq!(parts(&f), (true, 16, 105));
}

#[test]
fn division_by_zero_is_infinite() {
    let f = Fraction::neg(3, 4).div(Fraction::pos(0, 1));
    assert_eq!(parts(&f), (false, 3, 0));
    assert_eq!(f.to_string(), "-inf");
}

#[test]
fn reciprocal_swaps() {
    assert_eq!(parts(&Fraction::neg(2, 9).reciprocal()), (false, 9, 2));
    assert_eq!(parts(&Fraction::pos(0, 1).reciprocal()), (true, 1, 0));
}

#[test]
fn subtraction_to_zero_is_non_negative() {
    let f = Fraction::pos(1, 2).sub(Fraction::pos(1, 2));
    assert!(f.sign);
    assert_eq!(f.numerator, 0);
    assert_eq!(f.to_string(), "0");
}

#[test]
fn subtraction_below_zero() {
    let f = Fraction::pos(1, 3).sub(Fraction::pos(1, 2));
    assert_eq!(parts(&f), (false, 1, 6));
    let g = Fraction::neg(1, 3).add(Fraction::pos(1, 2));
    assert_eq!(parts(&g), (true, 1, 6));
    let h = Fraction::neg(1, 3).sub(Fraction::pos(1, 6));
    assert_eq!(parts(&h), (false, 1, 2));
}

#[test]
fn zero_and_infinite_pairs_pass_through() {
    assert_eq!(parts(&Fraction::new(true, 0, 6)), (true, 0, 6));
    assert_eq!(parts(&Fraction::new(false, 12, 0)), (false, 12, 0));
    assert_eq!(Fraction::new(true, 0, 6).to_string(), "0");
    assert_eq!(Fraction::new(false, 12, 0).to_string(), "-inf");
    assert_eq!(Fraction::new(true, 0, 0).to_string(), "nan");
}

#[test]
fn equal_parts_reduce_to_one() {
    assert_eq!(parts(&Fraction::pos(7, 7)), (true, 1, 1));
    assert_eq!(Fraction::pos(7, 7).to_string(), "1");
}

#[test]
fn rendering_of_large_values() {
    let f = Fraction::neg(u64::MAX, 1);
    assert_eq!(f.to_string(), "-18446744073709551615");
    assert_eq!(Fraction::pos(10, 3).to_string(), "10/3");
    assert_eq!(Fraction::pos(100, 1).to_string(), "100");
}

#[test]
fn integer_helpers() {
    assert_eq!(euclid(84, 36), 12);
    assert_eq!(euclid(0, 5), 5);
    assert_eq!(simplify(84, 36), (7, 3));
    assert_eq!(simplify(0, 36), (0, 36));
    assert_eq!(lcm(4, 6), 12);
    assert_eq!(lcm(21, 6), 42);
    assert_eq!(lcm(0, 6), 0);
    assert_eq!(sign_sub(3, 8), (5, false));
    assert_eq!(sign_sub(8, 8), (0, true));
}

#[test]
fn checked_forms_agree_in_range() {
    let a = Fraction::pos(51, 21);
    let b = Fraction::neg(5, 6);
    assert_eq!(a.checked_add(b).map(|f| parts(&f)), Some(parts(&a.add(b))));
    assert_eq!(a.checked_sub(b).map(|f| parts(&f)), Some((true, 137, 42)));
    assert_eq!(a.checked_mul(b).map(|f| parts(&f)), Some((false, 85, 42)));
    assert_eq!(a.checked_div(b).map(|f| parts(&f)), Some((false, 102, 35)));
}

#[test]
fn checked_add_refuses_zero_denominator() {
    assert!(Fraction::pos(1, 0).checked_add(Fraction::pos(1, 2)).is_none());
    assert!(Fraction::pos(1, 2).checked_sub(Fraction::new(true, 0, 0)).is_none());
}

#[test]
fn checked_forms_report_overflow() {
    let big = Fraction::pos(u64::MAX, 1);
    assert!(big.checked_add(Fraction::pos(1, 1)).is_none());
    assert_eq!(big.checked_sub(Fraction::pos(1, 1)).map(|f| parts(&f)), Some((true, u64::MAX - 1, 1)));
    assert!(big.checked_mul(Fraction::pos(2, 1)).is_none());
    assert!(big.checked_div(Fraction::pos(1, 2)).is_none());
    let tiny = Fraction::pos(1, u64::MAX);
    assert!(tiny.checked_add(Fraction::pos(1, u64::MAX - 1)).is_none());
}

#[test]
fn negative_zero_renders_as_zero() {
    assert_eq!(Fraction::neg(0, 1).to_string(), "0");
    assert_eq!(Fraction::pos(1, 0).to_string(), "inf");
}
