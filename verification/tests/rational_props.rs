use quadrature::integrand::{Integrand, Polynomial};
use quadrature::rational::Rat;

fn rat(n: i64, d: i64) -> Rat {
    Rat::new(n, d).unwrap()
}

fn quartic() -> Polynomial {
    // x^4 - 2x + 1
    Polynomial::new(vec![rat(1, 1), rat(-2, 1), rat(0, 1), rat(0, 1), rat(1, 1)])
}

#[test]
fn test_rat_reduction() {
    let r = rat(6, 4);
    assert_eq!(r.numerator(), 3);
    assert_eq!(r.denominator(), 2);

    let r = rat(2, -4);
    assert_eq!(r.numerator(), -1);
    assert_eq!(r.denominator(), 2);

    let r = rat(0, 5);
    assert_eq!(r.numerator(), 0);
    assert_eq!(r.denominator(), 1);
}

#[test]
fn test_rat_zero_denominator() {
    assert!(Rat::new(1, 0).is_none());
}

#[test]
fn test_rat_arithmetic_exact() {
    let third = rat(1, 3);
    let sixth = rat(1, 6);
    assert_eq!(third.add(sixth).unwrap(), rat(1, 2));
    assert_eq!(rat(1, 2).sub(third).unwrap(), sixth);
    assert_eq!(rat(2, 3).mul(rat(9, 4)).unwrap(), rat(3, 2));
    assert_eq!(rat(1, 2).div(rat(-3, 4)).unwrap(), rat(-2, 3));
    assert_eq!(rat(-5, 7).abs(), rat(5, 7));
    assert_eq!(rat(5, 7).neg(), rat(-5, 7));
    assert!(rat(1, 3).lt(rat(1, 2)));
    assert!(!rat(1, 2).lt(rat(1, 2)));
    assert!(rat(1, 2).le(rat(1, 2)));
    assert!(rat(2, 4).eq_val(rat(1, 2)));
}

#[test]
fn test_rat_division_by_zero() {
    assert!(rat(1, 2).div(rat(0, 1)).is_none());
}

#[test]
fn test_rat_overflow_reported() {
    let big = rat(i64::MAX, 1);
    assert!(big.add(big).is_none());
    assert!(big.mul(big).is_none());
}

#[test]
fn test_polynomial_eval() {
    let f = quartic();
    // f(2) = 16 - 4 + 1 = 13
    assert_eq!(f.eval(rat(2, 1)).unwrap(), rat(13, 1));
    // f(1/2) = 1/16 - 1 + 1 = 1/16
    assert_eq!(f.eval(rat(1, 2)).unwrap(), rat(1, 16));
    // f(0) = 1
    assert_eq!(f.eval(rat(0, 1)).unwrap(), rat(1, 1));
}

#[test]
fn test_polynomial_eval_deterministic() {
    let f = quartic();
    let x = rat(7, 13);
    assert_eq!(f.eval(x), f.eval(x));
}
