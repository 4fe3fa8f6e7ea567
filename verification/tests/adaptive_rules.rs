use quadrature::integrand::Polynomial;
use quadrature::outcome::Outcome;
use quadrature::rational::Rat;
use quadrature::romberg::integrate_romberg_adaptive;
use quadrature::simpson::integrate_simpsons_rule_adaptive;
use quadrature::trapezoid::integrate_trapezoidal_rule_adaptive;

fn rat(n: i64, d: i64) -> Rat {
    Rat::new(n, d).unwrap()
}

fn to_f64(r: Rat) -> f64 {
    r.numerator() as f64 / r.denominator() as f64
}

fn quartic() -> Polynomial {
    // x^4 - 2x + 1, whose integral over [0, 2] is exactly 22/5.
    Polynomial::new(vec![rat(1, 1), rat(-2, 1), rat(0, 1), rat(0, 1), rat(1, 1)])
}

#[test]
fn test_integrate_simpsons_rule_adaptive() {
    let f = quartic();
    let exact = 4.4;
    let mut den: i64 = 10_000;
    for _ in 0..10 {
        let epsilon = rat(1, den);
        let out = integrate_simpsons_rule_adaptive(rat(0, 1), rat(2, 1), epsilon, &f).unwrap();
        assert!(out.converged());
        assert!((to_f64(out.value()) - exact).abs() < 1.0 / den as f64);
        den *= 10;
    }
}

#[test]
fn test_integrate_trapezoidal_rule_adaptive() {
    // The trapezoidal rule converges only quadratically, so the tolerance
    // ladder stops where the exact estimates stop fitting in i64 parts.
    let f = quartic();
    let exact = 4.4;
    let mut den: i64 = 100;
    for _ in 0..5 {
        let epsilon = rat(1, den);
        let out = integrate_trapezoidal_rule_adaptive(rat(0, 1), rat(2, 1), epsilon, &f).unwrap();
        assert!(out.converged());
        assert!((to_f64(out.value()) - exact).abs() < 1.0 / den as f64);
        den *= 10;
    }
}

#[test]
fn test_trapezoidal_adaptive_reports_range_exhaustion() {
    // Far below the feasible tolerance the refined samples no longer have
    // exact i64 representations, and the run reports that as None.
    let f = quartic();
    let out = integrate_trapezoidal_rule_adaptive(rat(0, 1), rat(2, 1), rat(1, 1_000_000_000), &f);
    assert!(out.is_none());
}

#[test]
fn test_integrate_romberg_adaptive() {
    let f = quartic();
    let exact = 4.4;
    let mut den: i64 = 100;
    for _ in 0..10 {
        let epsilon = rat(1, den);
        let out = integrate_romberg_adaptive(rat(0, 1), rat(2, 1), epsilon, &f).unwrap();
        assert!(out.converged());
        assert!((to_f64(out.value()) - exact).abs() < 1.0 / den as f64);
        den *= 10;
    }
}

#[test]
fn test_romberg_exact_on_quartic() {
    // Two extrapolation orders cancel the h^2 and h^4 error terms, and a
    // quartic has no further ones: the third row is exactly the integral,
    // whatever the tolerance.
    let f = quartic();
    let out =
        integrate_romberg_adaptive(rat(0, 1), rat(2, 1), rat(1, 1_000_000_000_000), &f).unwrap();
    assert!(out.converged());
    assert_eq!(out.level(), 3);
    assert!(out.value().eq_val(rat(22, 5)));
}

#[test]
fn test_trapezoid_doubling_matches_flat_rule() {
    // The adaptive rule reuses the previous total and adds only the new
    // odd-indexed samples; the estimate it converges on must be exactly the
    // composite trapezoidal estimate with 2^level slices.
    let f = quartic();
    let out = integrate_trapezoidal_rule_adaptive(rat(0, 1), rat(2, 1), rat(1, 100_000), &f)
        .unwrap();
    let n: usize = 1 << out.level();
    let flat = quadrature::trapezoid::integrate_trapezoidal_rule(rat(0, 1), rat(2, 1), n, &f)
        .unwrap();
    assert!(out.value().eq_val(flat));
}

#[test]
fn test_simpson_doubling_matches_flat_rule() {
    // Likewise for Simpson: the run starts at two slices, so level k stands
    // for 2^(k+1) slices.
    let f = quartic();
    let out = integrate_simpsons_rule_adaptive(rat(0, 1), rat(2, 1), rat(1, 100_000), &f)
        .unwrap();
    let n: usize = 1 << (out.level() + 1);
    let flat = quadrature::simpson::integrate_simpsons_rule(rat(0, 1), rat(2, 1), n, &f).unwrap();
    assert!(out.value().eq_val(flat));
}

#[test]
fn test_adaptive_rules_idempotent() {
    let f = quartic();
    let a = integrate_romberg_adaptive(rat(0, 1), rat(2, 1), rat(1, 1000), &f);
    let b = integrate_romberg_adaptive(rat(0, 1), rat(2, 1), rat(1, 1000), &f);
    assert_eq!(a, b);
    let a = integrate_simpsons_rule_adaptive(rat(0, 1), rat(2, 1), rat(1, 1000), &f);
    let b = integrate_simpsons_rule_adaptive(rat(0, 1), rat(2, 1), rat(1, 1000), &f);
    assert_eq!(a, b);
}

#[test]
fn test_adaptive_outcome_reports_level() {
    let f = quartic();
    let out = integrate_trapezoidal_rule_adaptive(rat(0, 1), rat(2, 1), rat(1, 100), &f).unwrap();
    match out {
        Outcome::Converged { level, .. } => assert!(level >= 1),
        Outcome::CapReached { .. } => panic!("expected convergence"),
    }
}
