use quadrature::gauss::{NodeSet, integrate_gaussian_quadrature, integrate_gaussian_quadrature_adaptive};
use quadrature::integrand::Polynomial;
use quadrature::rational::Rat;

fn rat(n: i64, d: i64) -> Rat {
    Rat::new(n, d).unwrap()
}

fn to_f64(r: Rat) -> f64 {
    r.numerator() as f64 / r.denominator() as f64
}

fn linear() -> Polynomial {
    // 3x + 1
    Polynomial::new(vec![rat(1, 1), rat(3, 1)])
}

fn quartic() -> Polynomial {
    // x^4 - 2x + 1
    Polynomial::new(vec![rat(1, 1), rat(-2, 1), rat(0, 1), rat(0, 1), rat(1, 1)])
}

/// The one-node Gauss-Legendre rule: abscissa zero, weight two.
fn midpoint_rule() -> NodeSet {
    NodeSet::new(vec![rat(0, 1)], vec![rat(2, 1)]).unwrap()
}

/// The three-node Gauss-Legendre rule with the abscissas rounded to
/// multiples of 1/1024 (the exact abscissas are irrational).
fn three_node_rule() -> NodeSet {
    NodeSet::new(
        vec![rat(-793, 1024), rat(0, 1), rat(793, 1024)],
        vec![rat(5, 9), rat(8, 9), rat(5, 9)],
    )
    .unwrap()
}

#[test]
fn test_gauss_one_node_exact_for_linear() {
    // A rule of order n is exact up to degree 2n-1: the one-node rule must
    // integrate any linear polynomial exactly.
    let f = linear();
    let ns = midpoint_rule();
    let r = integrate_gaussian_quadrature(rat(0, 1), rat(2, 1), &ns, &f).unwrap();
    assert!(r.eq_val(rat(8, 1)));
    let r = integrate_gaussian_quadrature(rat(-1, 1), rat(3, 1), &ns, &f).unwrap();
    assert!(r.eq_val(rat(16, 1)));
}

#[test]
fn test_gauss_three_nodes_near_exact_quartic() {
    // With exact abscissas the three-node rule would integrate the quartic
    // exactly (4.4); rounding the abscissas to 1/1024 perturbs the estimate
    // by a few parts in a thousand.
    let f = quartic();
    let ns = three_node_rule();
    let r = integrate_gaussian_quadrature(rat(0, 1), rat(2, 1), &ns, &f).unwrap();
    assert!((to_f64(r) - 4.4).abs() < 0.01);
}

#[test]
fn test_gauss_idempotent() {
    let f = quartic();
    let ns = three_node_rule();
    assert_eq!(
        integrate_gaussian_quadrature(rat(0, 1), rat(2, 1), &ns, &f),
        integrate_gaussian_quadrature(rat(0, 1), rat(2, 1), &ns, &f),
    );
}

#[test]
fn test_node_set_rejects_bad_input() {
    // Out-of-range abscissa: the reference interval is open.
    assert!(NodeSet::new(vec![rat(1, 1)], vec![rat(2, 1)]).is_none());
    // Length mismatch.
    assert!(NodeSet::new(vec![rat(0, 1)], vec![rat(1, 1), rat(1, 1)]).is_none());
    // No nodes at all.
    assert!(NodeSet::new(vec![], vec![]).is_none());
}

#[test]
fn test_node_set_symmetry() {
    assert!(three_node_rule().is_symmetric());
    assert!(midpoint_rule().is_symmetric());
    let skewed = NodeSet::new(
        vec![rat(-793, 1024), rat(0, 1), rat(793, 1024)],
        vec![rat(5, 9), rat(8, 9), rat(4, 9)],
    )
    .unwrap();
    assert!(!skewed.is_symmetric());
}

#[test]
fn test_gauss_adaptive_converges_on_agreement() {
    // Two rungs that agree exactly: the second estimate matches the first,
    // so the run converges at rung one.
    let f = linear();
    let sets = vec![midpoint_rule(), midpoint_rule()];
    let out =
        integrate_gaussian_quadrature_adaptive(rat(0, 1), rat(2, 1), rat(1, 1000), &sets, &f)
            .unwrap();
    assert!(out.converged());
    assert_eq!(out.level(), 1);
    assert!(out.value().eq_val(rat(8, 1)));
}

#[test]
fn test_gauss_adaptive_cap_reached() {
    // Rungs that disagree and a tolerance far below their disagreement: the
    // ladder runs out and the run says so, returning the last estimate.
    let f = quartic();
    let sets = vec![midpoint_rule(), three_node_rule()];
    let out = integrate_gaussian_quadrature_adaptive(
        rat(0, 1),
        rat(2, 1),
        rat(1, 1_000_000_000_000),
        &sets,
        &f,
    )
    .unwrap();
    assert!(!out.converged());
    assert_eq!(out.level(), 1);
    assert!((to_f64(out.value()) - 4.4).abs() < 0.01);
}

#[test]
fn test_gauss_adaptive_empty_ladder() {
    let f = quartic();
    let sets: Vec<NodeSet> = vec![];
    let out =
        integrate_gaussian_quadrature_adaptive(rat(0, 1), rat(2, 1), rat(1, 1000), &sets, &f);
    assert!(out.is_none());
}
