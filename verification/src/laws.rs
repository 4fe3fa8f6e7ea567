//! Laws of the integration engines.
//!
//! Every routine's contract pins its result to a function of the arguments
//! alone, so the engines are pure: no hidden state can make two calls with
//! identical arguments disagree. The lemmas here state that consequence
//! once, over the contracts of the fixed-resolution and adaptive routines.

use vstd::prelude::*;
use crate::rational::{
    Qv, Rat, ov, o_add, o_sub, o_mul, o_div, lemma_ov_injective, q_int, q_add, q_sub, q_mul,
    q_div, q_eq, qv_wf,
    lemma_q_ops_wf, lemma_q_eq_trans, lemma_q_add_cong, lemma_q_mul_cong, lemma_q_div_cong,
    lemma_norm_props, lemma_q_mul_assoc, lemma_q_mul_distrib, lemma_q_halve_shift,
    lemma_q_double_halve, lemma_q_diff_squares, lemma_q_add_zero, lemma_q_mul_zero,
};
use crate::integrand::{Integrand, o_eval};
use crate::trapezoid::{c_trap_fixed, c_trap_adaptive};
use crate::simpson::{c_simpson_fixed, c_simpson_adaptive};
use crate::gauss::{NodeSetV, c_gauss_fixed, c_gauss_sum, c_gauss_adaptive};
use crate::romberg::c_romberg_adaptive;
use crate::outcome::{Outcome, ovo, lemma_ovo_injective};

verus! {

/// Law: the fixed-resolution rules are pure. Any two results of the
/// trapezoidal, Simpson or Gaussian fixed rule for the same integrand,
/// bounds, resolution and node set are identical values.
pub proof fn lemma_fixed_rules_idempotent<F: Integrand>(
    f: &F,
    a: Qv,
    b: Qv,
    n: int,
    ns: NodeSetV,
    t1: Option<Rat>,
    t2: Option<Rat>,
    s1: Option<Rat>,
    s2: Option<Rat>,
    g1: Option<Rat>,
    g2: Option<Rat>,
)
    requires
        ov(t1) == c_trap_fixed(f, a, b, n),
        ov(t2) == c_trap_fixed(f, a, b, n),
        ov(s1) == c_simpson_fixed(f, a, b, n),
        ov(s2) == c_simpson_fixed(f, a, b, n),
        ov(g1) == c_gauss_fixed(f, a, b, ns),
        ov(g2) == c_gauss_fixed(f, a, b, ns),
    ensures
        t1 == t2,
        s1 == s2,
        g1 == g2,
{
    lemma_ov_injective(t1, t2);
    lemma_ov_injective(s1, s2);
    lemma_ov_injective(g1, g2);
}

/// Law: the adaptive routines are pure in the same way. Any two outcomes of
/// the adaptive trapezoidal, Simpson, Romberg or Gaussian routine for the
/// same integrand, bounds, tolerance and node-set ladder are identical.
pub proof fn lemma_adaptive_rules_idempotent<F: Integrand>(
    f: &F,
    a: Qv,
    b: Qv,
    eps: Qv,
    sets: Seq<NodeSetV>,
    t1: Option<Outcome>,
    t2: Option<Outcome>,
    s1: Option<Outcome>,
    s2: Option<Outcome>,
    r1: Option<Outcome>,
    r2: Option<Outcome>,
    g1: Option<Outcome>,
    g2: Option<Outcome>,
)
    requires
        ovo(t1) == c_trap_adaptive(f, a, b, eps),
        ovo(t2) == c_trap_adaptive(f, a, b, eps),
        ovo(s1) == c_simpson_adaptive(f, a, b, eps),
        ovo(s2) == c_simpson_adaptive(f, a, b, eps),
        ovo(r1) == c_romberg_adaptive(f, a, b, eps),
        ovo(r2) == c_romberg_adaptive(f, a, b, eps),
        ovo(g1) == c_gauss_adaptive(f, a, b, eps, sets),
        ovo(g2) == c_gauss_adaptive(f, a, b, eps, sets),
    ensures
        t1 == t2,
        s1 == s2,
        r1 == r2,
        g1 == g2,
{
    lemma_ovo_injective(t1, t2);
    lemma_ovo_injective(s1, s2);
    lemma_ovo_injective(r1, r2);
    lemma_ovo_injective(g1, g2);
}

/// The exact integral of the linear polynomial `c0 + c1*x` over `[a, b]`:
/// `c0*(b - a) + c1*(b*b - a*a)/2`.
pub open spec fn linear_integral(c0: Qv, c1: Qv, a: Qv, b: Qv) -> Qv {
    q_add(
        q_mul(c0, q_sub(b, a)),
        q_mul(c1, q_div(q_sub(q_mul(b, b), q_mul(a, a)), q_int(2))),
    )
}

/// Law (polynomial exactness at the lowest order): a Gauss-Legendre rule of
/// order `n` integrates polynomials of degree up to `2n - 1` exactly. The
/// order-one rule is the only one whose node is rational - abscissa zero,
/// weight two - and for it the law is provable: on any integrand that agrees
/// with a linear polynomial `c0 + c1*x`, a successful run returns exactly
/// the integral `c0*(b - a) + c1*(b*b - a*a)/2`.
pub proof fn lemma_gauss_order_one_exact_on_linear<F: Integrand>(
    f: &F,
    c0: Qv,
    c1: Qv,
    a: Qv,
    b: Qv,
    ns: NodeSetV,
    r: Option<Rat>,
)
    requires
        qv_wf(a),
        qv_wf(b),
        qv_wf(c0),
        qv_wf(c1),
        ns.xs.len() == 1,
        ns.ws.len() == 1,
        ns.xs[0] == q_int(0),
        ns.ws[0] == q_int(2),
        forall|x: Qv|
            qv_wf(x) ==> (#[trigger] o_eval(f, Some(x)) matches Some(fx) ==> q_eq(
                fx,
                q_add(c0, q_mul(c1, x)),
            )),
        ov(r) == c_gauss_fixed(f, a, b, ns),
        r is Some,
    ensures
        r matches Some(v) ==> q_eq(v@, linear_integral(c0, c1, a, b)),
{
    let w = q_sub(b, a);
    let s = q_add(a, b);
    let m = q_div(s, q_int(2));
    lemma_q_ops_wf(b, a);
    lemma_q_ops_wf(a, b);
    lemma_q_ops_wf(w, q_int(2));
    lemma_q_ops_wf(s, q_int(2));

    // The reduced half-length and midpoint carried by the checked rule.
    lemma_norm_props(w);
    let d0 = o_sub(Some(b), Some(a))->Some_0;
    lemma_q_ops_wf(d0, q_int(2));
    lemma_norm_props(q_div(d0, q_int(2)));
    let hd = o_div(o_sub(Some(b), Some(a)), Some(q_int(2)))->Some_0;
    lemma_norm_props(s);
    let s0 = o_add(Some(a), Some(b))->Some_0;
    lemma_q_ops_wf(s0, q_int(2));
    lemma_norm_props(q_div(s0, q_int(2)));
    let hs = o_div(o_add(Some(a), Some(b)), Some(q_int(2)))->Some_0;

    // hd stands for (b - a) / 2 and hs for (a + b) / 2.
    lemma_q_div_cong(d0, q_int(2), w, q_int(2));
    lemma_q_eq_trans(hd, q_div(d0, q_int(2)), q_div(w, q_int(2)));
    lemma_q_div_cong(s0, q_int(2), s, q_int(2));
    lemma_q_eq_trans(hs, q_div(s0, q_int(2)), m);

    // Walk the single accumulation step of the checked sum.
    let m0 = o_mul(Some(hd), Some(ns.xs[0]));
    let xp = o_add(m0, Some(hs));
    let fe = o_eval(f, xp);
    let wp = o_mul(Some(hd), Some(ns.ws[0]));
    let term = o_mul(fe, wp);
    let acc2 = o_add(Some(q_int(0)), term);
    assert(c_gauss_sum(f, ns.xs, ns.ws, hd, hs, 0, Some(q_int(0))) == c_gauss_sum(
        f,
        ns.xs,
        ns.ws,
        hd,
        hs,
        1,
        acc2,
    ));
    assert(c_gauss_sum(f, ns.xs, ns.ws, hd, hs, 1, acc2) == acc2);
    let v = r->Some_0@;
    assert(acc2 == Some(v));

    // The mapped node: hd * 0 + hs, a rational equal to the midpoint.
    lemma_q_ops_wf(hd, q_int(0));
    lemma_norm_props(q_mul(hd, q_int(0)));
    let m0v = m0->Some_0;
    lemma_q_mul_zero(hd);
    lemma_q_eq_trans(m0v, q_mul(hd, q_int(0)), q_int(0));
    lemma_q_ops_wf(m0v, hs);
    lemma_norm_props(q_add(m0v, hs));
    let xpv = xp->Some_0;
    lemma_q_add_cong(m0v, hs, q_int(0), hs);
    lemma_q_add_zero(hs);
    lemma_q_ops_wf(q_int(0), hs);
    lemma_q_eq_trans(xpv, q_add(m0v, hs), hs);
    lemma_q_eq_trans(xpv, hs, m);

    // The sample at the midpoint is the linear polynomial there.
    let fv = fe->Some_0;
    assert(q_eq(fv, q_add(c0, q_mul(c1, xpv))));
    lemma_q_ops_wf(c1, xpv);
    lemma_q_ops_wf(c1, m);
    lemma_q_mul_cong(c1, xpv, c1, m);
    lemma_q_add_cong(c0, q_mul(c1, xpv), c0, q_mul(c1, m));
    lemma_q_ops_wf(c0, q_mul(c1, xpv));
    lemma_q_eq_trans(fv, q_add(c0, q_mul(c1, xpv)), q_add(c0, q_mul(c1, m)));

    // The mapped weight: hd * 2, a rational equal to the interval length.
    lemma_q_ops_wf(hd, q_int(2));
    lemma_norm_props(q_mul(hd, q_int(2)));
    let wpv = wp->Some_0;
    lemma_q_ops_wf(q_div(w, q_int(2)), q_int(2));
    lemma_q_mul_cong(hd, q_int(2), q_div(w, q_int(2)), q_int(2));
    lemma_q_eq_trans(wpv, q_mul(hd, q_int(2)), q_mul(q_div(w, q_int(2)), q_int(2)));
    lemma_q_double_halve(w);
    lemma_q_eq_trans(wpv, q_mul(q_div(w, q_int(2)), q_int(2)), w);

    // The returned value is sample times weight.
    let tv = term->Some_0;
    lemma_q_ops_wf(fv, wpv);
    lemma_norm_props(q_mul(fv, wpv));
    lemma_q_ops_wf(q_int(0), tv);
    lemma_norm_props(q_add(q_int(0), tv));
    lemma_q_add_zero(tv);
    lemma_q_eq_trans(v, q_add(q_int(0), tv), tv);
    lemma_q_eq_trans(v, tv, q_mul(fv, wpv));

    // Replace sample and weight by the linear polynomial at the midpoint
    // and the interval length.
    let lin = q_add(c0, q_mul(c1, m));
    lemma_q_ops_wf(c0, q_mul(c1, m));
    lemma_q_ops_wf(lin, w);
    lemma_q_mul_cong(fv, wpv, lin, w);
    lemma_q_eq_trans(v, q_mul(fv, wpv), q_mul(lin, w));

    // Expand: (c0 + c1*m) * w  =  c0*w + c1*(m*w), and m*w is half the
    // difference of squares.
    lemma_q_mul_distrib(c0, q_mul(c1, m), w);
    lemma_q_mul_assoc(c1, m, w);
    lemma_q_halve_shift(s, w);
    lemma_q_diff_squares(a, b);
    assert(q_add(q_mul(c0, w), q_mul(q_mul(c1, m), w)) == linear_integral(c0, c1, a, b));
    lemma_q_eq_trans(v, q_mul(lin, w), linear_integral(c0, c1, a, b));
}

} // verus!