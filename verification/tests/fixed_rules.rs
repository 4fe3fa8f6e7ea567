use quadrature::integrand::Polynomial;
use quadrature::rational::Rat;
use quadrature::simpson::integrate_simpsons_rule;
use quadrature::trapezoid::{_integrate_trapezoidal_rule, integrate_trapezoidal_rule};

fn rat(n: i64, d: i64) -> Rat {
    Rat::new(n, d).unwrap()
}

fn to_f64(r: Rat) -> f64 {
    r.numerator() as f64 / r.denominator() as f64
}

fn quartic() -> Polynomial {
    // x^4 - 2x + 1, whose integral over [0, 2] is exactly 22/5.
    Polynomial::new(vec![rat(1, 1), rat(-2, 1), rat(0, 1), rat(0, 1), rat(1, 1)])
}

#[test]
fn test_integrate_simpsons_rule_quartic() {
    // Simpson with ten slices over [0, 2]: the exact rational estimate is
    // 22/5 + (b-a) * h^4 * 24 / 180 = 41254/9375.
    let f = quartic();
    let r = integrate_simpsons_rule(rat(0, 1), rat(2, 1), 10, &f).unwrap();
    assert_eq!(r.numerator(), 41254);
    assert_eq!(r.denominator(), 9375);
    assert!((to_f64(r) - 4.400426666666667).abs() < 1e-12);
}

#[test]
fn test_integrate_trapezoidal_rule_quartic() {
    let f = quartic();
    let r = integrate_trapezoidal_rule(rat(0, 1), rat(2, 1), 100, &f).unwrap();
    assert!((to_f64(r) - 4.401066656).abs() < 1e-9);
}

#[test]
fn test_trapezoidal_rule_with_given_width() {
    // The underscore variant takes the step width from the caller; with the
    // consistent width it matches the plain rule.
    let f = quartic();
    let h = rat(2, 1).div(rat(8, 1)).unwrap();
    let a = _integrate_trapezoidal_rule(rat(0, 1), rat(2, 1), 8, h, &f).unwrap();
    let b = integrate_trapezoidal_rule(rat(0, 1), rat(2, 1), 8, &f).unwrap();
    assert_eq!(a, b);
}

#[test]
fn test_simpson_error_shrinks_sixteenfold() {
    // For a quartic the composite Simpson error is exactly proportional to
    // h^4, so doubling the slice count divides it by exactly sixteen.
    let f = quartic();
    let exact = rat(22, 5);
    let e4 = integrate_simpsons_rule(rat(0, 1), rat(2, 1), 4, &f).unwrap().sub(exact).unwrap();
    let e8 = integrate_simpsons_rule(rat(0, 1), rat(2, 1), 8, &f).unwrap().sub(exact).unwrap();
    assert!(e4.eq_val(e8.mul(rat(16, 1)).unwrap()));
    assert!(!e4.eq_val(rat(0, 1)));
}

#[test]
fn test_trapezoid_error_shrinks_fourfold() {
    let f = quartic();
    let e50 = to_f64(integrate_trapezoidal_rule(rat(0, 1), rat(2, 1), 50, &f).unwrap()) - 4.4;
    let e100 = to_f64(integrate_trapezoidal_rule(rat(0, 1), rat(2, 1), 100, &f).unwrap()) - 4.4;
    let ratio = e50 / e100;
    assert!(ratio > 3.9 && ratio < 4.1);
}

#[test]
fn test_reversed_bounds_flip_sign() {
    // Reversed bounds are not validated: the step width comes out negative
    // and the estimate flips sign by algebra alone.
    let f = quartic();
    let forward = integrate_trapezoidal_rule(rat(0, 1), rat(2, 1), 8, &f).unwrap();
    let backward = integrate_trapezoidal_rule(rat(2, 1), rat(0, 1), 8, &f).unwrap();
    assert_eq!(backward, forward.neg());

    let forward = integrate_simpsons_rule(rat(0, 1), rat(2, 1), 10, &f).unwrap();
    let backward = integrate_simpsons_rule(rat(2, 1), rat(0, 1), 10, &f).unwrap();
    assert_eq!(backward, forward.neg());
}

#[test]
fn test_zero_slices_unrepresentable() {
    let f = quartic();
    assert!(integrate_simpsons_rule(rat(0, 1), rat(2, 1), 0, &f).is_none());
    assert!(integrate_trapezoidal_rule(rat(0, 1), rat(2, 1), 0, &f).is_none());
}

#[test]
fn test_fixed_rules_idempotent() {
    let f = quartic();
    assert_eq!(
        integrate_simpsons_rule(rat(0, 1), rat(2, 1), 10, &f),
        integrate_simpsons_rule(rat(0, 1), rat(2, 1), 10, &f),
    );
    assert_eq!(
        integrate_trapezoidal_rule(rat(0, 1), rat(2, 1), 100, &f),
        integrate_trapezoidal_rule(rat(0, 1), rat(2, 1), 100, &f),
    );
}

#[test]
fn test_overflow_surfaces_as_none() {
    // A million slices put fourth powers of the sample points far outside
    // the representable range; the rule reports that instead of rounding.
    let f = quartic();
    assert!(integrate_simpsons_rule(rat(0, 1), rat(2, 1), 1_000_000, &f).is_none());
}
