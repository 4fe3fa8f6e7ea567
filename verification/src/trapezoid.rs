//! The composite trapezoidal engine.
//!
//! The fixed rule weighs the endpoints once and every interior point twice,
//! scaled by half the step width. The adaptive rule starts from one slice
//! and doubles the slice count, reusing the previous total: each refinement
//! adds only the samples at the newly introduced odd-indexed points, and the
//! run stops when the Richardson error estimate `(next - prev) / 3` falls
//! below the tolerance or the slice cap is reached.

use vstd::prelude::*;
use crate::rational::{
    Qv, Rat, ov, o_add, o_sub, o_mul, o_div, q_int, q_add, q_mul, q_div, q_abs, q_lt, q_eq, qv_wf,
    lemma_q_ops_wf, lemma_o_add_exact, lemma_o_mul_exact, lemma_norm_props, rat_wf_facts,
    lemma_q_eq_trans, lemma_q_add_cong, lemma_q_mul_cong, lemma_q_div_cong, lemma_q_mul_comm,
    lemma_q_add_comm, lemma_q_add_assoc, lemma_q_mul_assoc, lemma_q_mul_distrib,
    lemma_q_halve_shift, lemma_q_halve_double,
};
use crate::integrand::{Integrand, ev, o_eval, o_point, sample_point, lemma_ev_wf};
use crate::sums::{c_stride2_sum, i_stride2_sum, stride2_sum, lemma_i_stride2_sum_wf};
use crate::outcome::{Outcome, OutcomeV, ovo};

verus! {

/// The reduced step width `(b - a) / n`.
pub open spec fn step_width(a: Qv, b: Qv, n: int) -> Option<Qv> {
    o_div(o_sub(Some(b), Some(a)), Some(q_int(n)))
}

/// Checked accumulation of the doubly weighted interior samples
/// `2 * f(a + h*i)` for `i = first, ..., n-1` onto `acc`.
pub open spec fn c_trap_interior<F: Integrand>(
    f: &F,
    a: Qv,
    h: Qv,
    n: int,
    i: int,
    acc: Option<Qv>,
) -> Option<Qv>
    decreases n - i,
{
    if i >= n {
        acc
    } else {
        c_trap_interior(
            f,
            a,
            h,
            n,
            i + 1,
            o_add(acc, o_mul(Some(q_int(2)), o_eval(f, o_point(a, h, i)))),
        )
    }
}

/// Exact accumulation of the same weighted samples.
pub open spec fn i_trap_interior<F: Integrand>(f: &F, a: Qv, h: Qv, n: int, i: int, acc: Qv) -> Qv
    decreases n - i,
{
    if i >= n {
        acc
    } else {
        i_trap_interior(f, a, h, n, i + 1, q_add(acc, q_mul(q_int(2), ev(f, o_point(a, h, i)))))
    }
}

/// The checked trapezoidal estimate for a given step width:
/// `(f(a) + sum of 2*f(a + h*i) + f(b)) * (h/2)`.
pub open spec fn c_trap_with_h<F: Integrand>(f: &F, a: Qv, b: Qv, n: int, h: Qv) -> Option<Qv> {
    o_mul(
        o_add(c_trap_interior(f, a, h, n, 1, o_eval(f, Some(a))), o_eval(f, Some(b))),
        o_div(Some(h), Some(q_int(2))),
    )
}

/// The exact trapezoidal estimate for a given step width.
pub open spec fn i_trap_with_h<F: Integrand>(f: &F, a: Qv, b: Qv, n: int, h: Qv) -> Qv {
    q_mul(
        q_add(i_trap_interior(f, a, h, n, 1, ev(f, Some(a))), ev(f, Some(b))),
        q_div(h, q_int(2)),
    )
}

/// The checked composite trapezoidal rule with `n` slices.
pub open spec fn c_trap_fixed<F: Integrand>(f: &F, a: Qv, b: Qv, n: int) -> Option<Qv> {
    match step_width(a, b, n) {
        None => None,
        Some(h) => c_trap_with_h(f, a, b, n, h),
    }
}

/// The exact composite trapezoidal rule with `n` slices, phrased over the
/// reduced step width (meaningful whenever the checked rule succeeds).
pub open spec fn i_trap_fixed<F: Integrand>(f: &F, a: Qv, b: Qv, n: int) -> Qv {
    i_trap_with_h(f, a, b, n, step_width(a, b, n)->Some_0)
}

proof fn lemma_i_trap_interior_wf<F: Integrand>(f: &F, a: Qv, h: Qv, n: int, i: int, acc: Qv)
    requires
        qv_wf(acc),
    ensures
        qv_wf(i_trap_interior(f, a, h, n, i, acc)),
    decreases n - i,
{
    if i < n {
        let iterm = q_mul(q_int(2), ev(f, o_point(a, h, i)));
        lemma_q_ops_wf(q_int(2), ev(f, o_point(a, h, i)));
        lemma_q_ops_wf(acc, iterm);
        lemma_i_trap_interior_wf(f, a, h, n, i + 1, q_add(acc, iterm));
    }
}

proof fn lemma_trap_interior_none<F: Integrand>(f: &F, a: Qv, h: Qv, n: int, i: int)
    ensures
        c_trap_interior(f, a, h, n, i, None) is None,
    decreases n - i,
{
    if i < n {
        lemma_trap_interior_none(f, a, h, n, i + 1);
    }
}

proof fn lemma_trap_interior_exact<F: Integrand>(
    f: &F,
    a: Qv,
    h: Qv,
    n: int,
    i: int,
    acc: Qv,
    iacc: Qv,
)
    requires
        qv_wf(acc),
        qv_wf(iacc),
        q_eq(acc, iacc),
        c_trap_interior(f, a, h, n, i, Some(acc)) is Some,
    ensures
        c_trap_interior(f, a, h, n, i, Some(acc)) matches Some(v) ==> qv_wf(v) && q_eq(
            v,
            i_trap_interior(f, a, h, n, i, iacc),
        ),
    decreases n - i,
{
    if i < n {
        let fe = o_eval(f, o_point(a, h, i));
        let term = o_mul(Some(q_int(2)), fe);
        let acc2 = o_add(Some(acc), term);
        if acc2 is None {
            lemma_trap_interior_none(f, a, h, n, i + 1);
        } else {
            let fv = fe->Some_0;
            let iterm = q_mul(q_int(2), ev(f, o_point(a, h, i)));
            lemma_o_mul_exact(q_int(2), fv, q_int(2), fv);
            lemma_q_ops_wf(q_int(2), fv);
            lemma_o_add_exact(acc, term->Some_0, iacc, iterm);
            lemma_q_ops_wf(iacc, iterm);
            lemma_trap_interior_exact(f, a, h, n, i + 1, acc2->Some_0, q_add(iacc, iterm));
        }
    }
}

/// A successful checked trapezoidal estimate equals the exact one.
pub proof fn lemma_trap_with_h_exact<F: Integrand>(f: &F, a: Qv, b: Qv, n: int, h: Qv)
    requires
        qv_wf(h),
        c_trap_with_h(f, a, b, n, h) is Some,
    ensures
        c_trap_with_h(f, a, b, n, h) matches Some(v) ==> qv_wf(v) && q_eq(
            v,
            i_trap_with_h(f, a, b, n, h),
        ),
{
    let fa = o_eval(f, Some(a));
    let interior = c_trap_interior(f, a, h, n, 1, fa);
    if interior is None {
        assert(o_add(interior, o_eval(f, Some(b))) is None);
    } else {
        if fa is None {
            lemma_trap_interior_none(f, a, h, n, 1);
        }
        let fav = fa->Some_0;
        lemma_trap_interior_exact(f, a, h, n, 1, fav, fav);
        let iv = interior->Some_0;
        let i_int = i_trap_interior(f, a, h, n, 1, ev(f, Some(a)));
        let fb = o_eval(f, Some(b));
        let edges = o_add(interior, fb);
        if edges is Some {
            let fbv = fb->Some_0;
            lemma_i_trap_interior_wf(f, a, h, n, 1, ev(f, Some(a)));
            lemma_o_add_exact(iv, fbv, i_int, ev(f, Some(b)));
            lemma_q_ops_wf(i_int, ev(f, Some(b)));
            let hh = o_div(Some(h), Some(q_int(2)));
            if hh is Some {
                lemma_q_ops_wf(h, q_int(2));
                lemma_norm_props(q_div(h, q_int(2)));
                lemma_o_mul_exact(
                    edges->Some_0,
                    hh->Some_0,
                    q_add(i_int, ev(f, Some(b))),
                    q_div(h, q_int(2)),
                );
            }
        }
    }
}


proof fn lemma_trap_interleave<F: Integrand>(
    f: &F,
    a: Qv,
    h: Qv,
    h2: Qv,
    n: int,
    k: int,
    acc_f: Qv,
    acc_c: Qv,
    acc_s: Qv,
)
    requires
        1 <= n,
        0 <= k <= n,
        qv_wf(acc_f),
        qv_wf(acc_c),
        qv_wf(acc_s),
        q_eq(acc_f, q_add(acc_c, q_mul(q_int(2), acc_s))),
        forall|j: int|
            1 <= j < n ==> q_eq(ev(f, o_point(a, h, j)), ev(f, #[trigger] o_point(a, h2, 2 * j))),
    ensures
        q_eq(
            i_trap_interior(f, a, h2, 2 * n, 2 * k + 1, acc_f),
            q_add(
                i_trap_interior(f, a, h, n, k + 1, acc_c),
                q_mul(q_int(2), i_stride2_sum(f, a, h2, 2 * n - 1, 2 * k + 1, acc_s)),
            ),
        ),
    decreases n - k,
{
    lemma_q_ops_wf(q_int(2), acc_s);
    lemma_q_ops_wf(acc_c, q_mul(q_int(2), acc_s));
    if k < n {
        let eo = ev(f, o_point(a, h2, 2 * k + 1));
        lemma_ev_wf(f, o_point(a, h2, 2 * k + 1));
        let two_eo = q_mul(q_int(2), eo);
        lemma_q_ops_wf(q_int(2), eo);
        let acc_f1 = q_add(acc_f, two_eo);
        let acc_s1 = q_add(acc_s, eo);
        lemma_q_ops_wf(acc_f, two_eo);
        lemma_q_ops_wf(acc_s, eo);
        // Twice the stepped odd accumulator: 2*(acc_s + eo) equals
        // 2*acc_s + 2*eo in value.
        lemma_q_mul_comm(q_int(2), acc_s1);
        lemma_q_mul_distrib(acc_s, eo, q_int(2));
        lemma_q_mul_comm(acc_s, q_int(2));
        lemma_q_mul_comm(eo, q_int(2));
        let two_s1 = q_mul(q_int(2), acc_s1);
        lemma_q_ops_wf(q_int(2), acc_s1);
        lemma_q_ops_wf(q_mul(q_int(2), acc_s), two_eo);
        assert(q_eq(two_s1, q_add(q_mul(q_int(2), acc_s), two_eo)));
        if k == n - 1 {
            // The fine walk takes its last odd step and stops; the coarse
            // walk is already done; the odd sum takes its last step.
            assert(i_trap_interior(f, a, h2, 2 * n, 2 * k + 1, acc_f) == i_trap_interior(
                f,
                a,
                h2,
                2 * n,
                2 * k + 2,
                acc_f1,
            ));
            assert(i_trap_interior(f, a, h2, 2 * n, 2 * k + 2, acc_f1) == acc_f1);
            assert(i_stride2_sum(f, a, h2, 2 * n - 1, 2 * k + 1, acc_s) == i_stride2_sum(
                f,
                a,
                h2,
                2 * n - 1,
                2 * k + 3,
                acc_s1,
            ));
            assert(i_stride2_sum(f, a, h2, 2 * n - 1, 2 * k + 3, acc_s1) == acc_s1);
            assert(i_trap_interior(f, a, h, n, k + 1, acc_c) == acc_c);
            // acc_c + 2*acc_s1 equals (acc_c + 2*acc_s) + 2*eo equals
            // acc_f + 2*eo, the value the fine walk ended on.
            lemma_q_add_cong(acc_c, two_s1, acc_c, q_add(q_mul(q_int(2), acc_s), two_eo));
            lemma_q_add_assoc(acc_c, q_mul(q_int(2), acc_s), two_eo);
            lemma_q_ops_wf(q_add(acc_c, q_mul(q_int(2), acc_s)), two_eo);
            lemma_q_add_cong(q_add(acc_c, q_mul(q_int(2), acc_s)), two_eo, acc_f, two_eo);
            lemma_q_ops_wf(acc_c, q_add(q_mul(q_int(2), acc_s), two_eo));
            lemma_q_ops_wf(acc_c, two_s1);
            lemma_q_eq_trans(
                q_add(acc_c, two_s1),
                q_add(acc_c, q_add(q_mul(q_int(2), acc_s), two_eo)),
                q_add(acc_f, two_eo),
            );
        } else {
            // The fine walk takes the odd step and the matching even step;
            // the even sample is the next coarse sample by hypothesis.
            let ee = ev(f, o_point(a, h2, 2 * k + 2));
            let ec = ev(f, o_point(a, h, k + 1));
            lemma_ev_wf(f, o_point(a, h2, 2 * k + 2));
            lemma_ev_wf(f, o_point(a, h, k + 1));
            let two_ee = q_mul(q_int(2), ee);
            let two_ec = q_mul(q_int(2), ec);
            lemma_q_ops_wf(q_int(2), ee);
            lemma_q_ops_wf(q_int(2), ec);
            let acc_f2 = q_add(acc_f1, two_ee);
            let acc_c1 = q_add(acc_c, two_ec);
            lemma_q_ops_wf(acc_f1, two_ee);
            lemma_q_ops_wf(acc_c, two_ec);
            // Rearrange exactly: (A + B) + (C + D) == ((A + C) + D) + B
            // with A = acc_c, B = 2*ec, C = 2*acc_s, D = 2*eo.
            let cc = q_mul(q_int(2), acc_s);
            lemma_q_add_assoc(acc_c, two_ec, q_add(cc, two_eo));
            lemma_q_add_comm(two_ec, q_add(cc, two_eo));
            lemma_q_add_assoc(acc_c, q_add(cc, two_eo), two_ec);
            lemma_q_add_assoc(acc_c, cc, two_eo);
            assert(q_add(q_add(acc_c, two_ec), q_add(cc, two_eo)) == q_add(
                q_add(q_add(acc_c, cc), two_eo),
                two_ec,
            ));
            // Replace the rearranged parts by their equal values:
            // (acc_c + 2*acc_s) is acc_f, and 2*ec is 2*ee.
            lemma_q_ops_wf(q_add(acc_c, cc), two_eo);
            lemma_q_add_cong(q_add(acc_c, cc), two_eo, acc_f, two_eo);
            assert(o_point(a, h2, 2 * k + 2) == o_point(a, h2, 2 * (k + 1)));
            assert(q_eq(ec, ee));
            lemma_q_mul_cong(q_int(2), ec, q_int(2), ee);
            lemma_q_ops_wf(q_add(q_add(acc_c, cc), two_eo), two_ec);
            lemma_q_add_cong(q_add(q_add(acc_c, cc), two_eo), two_ec, acc_f1, two_ee);
            // And the accumulator relation for the next level:
            // acc_c1 + 2*acc_s1 equals acc_f2.
            lemma_q_add_cong(acc_c1, two_s1, acc_c1, q_add(cc, two_eo));
            lemma_q_ops_wf(acc_c1, q_add(cc, two_eo));
            lemma_q_ops_wf(acc_c1, two_s1);
            lemma_q_eq_trans(
                q_add(acc_c1, two_s1),
                q_add(q_add(acc_c, two_ec), q_add(cc, two_eo)),
                acc_f2,
            );
            lemma_trap_interleave(f, a, h, h2, n, k + 1, acc_f2, acc_c1, acc_s1);
            assert(i_trap_interior(f, a, h2, 2 * n, 2 * k + 1, acc_f) == i_trap_interior(
                f,
                a,
                h2,
                2 * n,
                2 * k + 2,
                acc_f1,
            ));
            assert(i_trap_interior(f, a, h2, 2 * n, 2 * k + 2, acc_f1) == i_trap_interior(
                f,
                a,
                h2,
                2 * n,
                2 * (k + 1) + 1,
                acc_f2,
            ));
            assert(i_trap_interior(f, a, h, n, k + 1, acc_c) == i_trap_interior(
                f,
                a,
                h,
                n,
                k + 2,
                acc_c1,
            ));
            assert(i_stride2_sum(f, a, h2, 2 * n - 1, 2 * k + 1, acc_s) == i_stride2_sum(
                f,
                a,
                h2,
                2 * n - 1,
                2 * (k + 1) + 1,
                acc_s1,
            ));
        }
    }
}

/// Law (refinement reuse): halving the step width, the exact composite
/// trapezoidal estimate on the doubled grid is half the coarse estimate plus
/// the halved width times the sum over the newly introduced odd-indexed
/// points - the identity the adaptive rule and the Romberg base row rest on.
/// It holds for every integrand whose samples agree on the shared grid
/// points: the coarse point `a + h*j` is the fine point `a + h2*(2j)`.
pub proof fn lemma_trap_refinement_step<F: Integrand>(f: &F, a: Qv, b: Qv, h: Qv, h2: Qv, n: int)
    requires
        1 <= n,
        qv_wf(a),
        qv_wf(b),
        qv_wf(h),
        qv_wf(h2),
        q_eq(h, q_mul(q_int(2), h2)),
        forall|j: int|
            1 <= j < n ==> q_eq(ev(f, o_point(a, h, j)), ev(f, #[trigger] o_point(a, h2, 2 * j))),
    ensures
        q_eq(
            q_add(
                q_div(i_trap_with_h(f, a, b, n, h), q_int(2)),
                q_mul(h2, i_stride2_sum(f, a, h2, 2 * n - 1, 1, q_int(0))),
            ),
            i_trap_with_h(f, a, b, 2 * n, h2),
        ),
{
    let fa = ev(f, Some(a));
    let fb = ev(f, Some(b));
    lemma_ev_wf(f, Some(a));
    lemma_ev_wf(f, Some(b));
    let s_odd = i_stride2_sum(f, a, h2, 2 * n - 1, 1, q_int(0));
    lemma_i_stride2_sum_wf(f, a, h2, 2 * n - 1, 1, q_int(0));
    let i_c = i_trap_interior(f, a, h, n, 1, fa);
    let i_f = i_trap_interior(f, a, h2, 2 * n, 1, fa);
    lemma_i_trap_interior_wf(f, a, h, n, 1, fa);
    lemma_i_trap_interior_wf(f, a, h2, 2 * n, 1, fa);

    // The interleaving at the start: equal accumulators, empty odd sum.
    assert(q_mul(q_int(2), q_int(0)) == q_int(0));
    assert(q_add(fa, q_int(0)) == fa) by {
        assert(fa.n * 1 + 0 * fa.d == fa.n && fa.d * 1 == fa.d) by (nonlinear_arith);
    }
    lemma_trap_interleave(f, a, h, h2, n, 0, fa, fa, q_int(0));
    let two_s = q_mul(q_int(2), s_odd);
    lemma_q_ops_wf(q_int(2), s_odd);
    assert(q_eq(i_f, q_add(i_c, two_s)));

    // The weighted forms.
    let t = q_add(i_c, fb);
    let u = q_add(i_f, fb);
    lemma_q_ops_wf(i_c, fb);
    lemma_q_ops_wf(i_f, fb);
    let g = q_div(h2, q_int(2));
    lemma_q_ops_wf(h2, q_int(2));

    // u equals t + 2*s_odd: rearrange exactly, then replace.
    lemma_q_add_assoc(i_c, two_s, fb);
    lemma_q_add_comm(two_s, fb);
    lemma_q_add_assoc(i_c, fb, two_s);
    assert(q_add(q_add(i_c, two_s), fb) == q_add(t, two_s));
    lemma_q_ops_wf(i_c, two_s);
    lemma_q_ops_wf(q_add(i_c, two_s), fb);
    lemma_q_add_cong(i_f, fb, q_add(i_c, two_s), fb);
    assert(q_eq(u, q_add(t, two_s)));

    // The fine estimate: u * (h2/2) equals t*(h2/2) + (2*s_odd)*(h2/2).
    lemma_q_ops_wf(t, two_s);
    lemma_q_mul_cong(u, g, q_add(t, two_s), g);
    lemma_q_mul_distrib(t, two_s, g);
    lemma_q_ops_wf(u, g);
    lemma_q_ops_wf(q_add(t, two_s), g);
    lemma_q_ops_wf(t, g);
    lemma_q_ops_wf(two_s, g);
    lemma_q_ops_wf(q_mul(t, g), q_mul(two_s, g));
    lemma_q_eq_trans(q_mul(u, g), q_mul(q_add(t, two_s), g), q_add(q_mul(t, g), q_mul(two_s, g)));

    // (2*s_odd)*(h2/2) equals s_odd*h2 equals h2*s_odd in value.
    lemma_q_mul_comm(q_int(2), s_odd);
    lemma_q_mul_assoc(s_odd, q_int(2), g);
    lemma_q_mul_comm(q_int(2), g);
    lemma_q_halve_double(h2);
    assert(q_eq(q_mul(g, q_int(2)), h2)) by {
        crate::rational::lemma_q_double_halve(h2);
    }
    lemma_q_ops_wf(g, q_int(2));
    lemma_q_mul_cong(s_odd, q_mul(q_int(2), g), s_odd, h2);
    lemma_q_mul_comm(s_odd, h2);
    lemma_q_ops_wf(s_odd, q_mul(q_int(2), g));
    lemma_q_ops_wf(h2, s_odd);
    lemma_q_eq_trans(q_mul(two_s, g), q_mul(s_odd, q_mul(q_int(2), g)), q_mul(h2, s_odd));

    // t*(h2/2) equals (t*(h/2))/2 in value: h/2 is h2, and halving moves out.
    let e_c = i_trap_with_h(f, a, b, n, h);
    assert(e_c == q_mul(t, q_div(h, q_int(2))));
    lemma_q_ops_wf(h, q_int(2));
    lemma_q_ops_wf(t, q_div(h, q_int(2)));
    lemma_q_div_cong(h, q_int(2), q_mul(q_int(2), h2), q_int(2));
    lemma_q_halve_double(h2);
    lemma_q_ops_wf(q_mul(q_int(2), h2), q_int(2));
    lemma_q_ops_wf(q_int(2), h2);
    lemma_q_eq_trans(q_div(h, q_int(2)), q_div(q_mul(q_int(2), h2), q_int(2)), h2);
    lemma_q_mul_cong(t, q_div(h, q_int(2)), t, h2);
    lemma_q_ops_wf(t, h2);
    lemma_q_div_cong(e_c, q_int(2), q_mul(t, h2), q_int(2));
    lemma_q_halve_shift(h2, t);
    lemma_q_mul_comm(q_div(h2, q_int(2)), t);
    lemma_q_mul_comm(h2, t);
    assert(q_mul(t, g) == q_div(q_mul(t, h2), q_int(2)));
    lemma_q_ops_wf(e_c, q_int(2));
    lemma_q_ops_wf(q_mul(t, h2), q_int(2));
    assert(q_eq(q_div(e_c, q_int(2)), q_mul(t, g)));

    // Put the two addends back together.
    lemma_q_add_cong(q_div(e_c, q_int(2)), q_mul(h2, s_odd), q_mul(t, g), q_mul(h2, s_odd));
    lemma_q_add_cong(q_mul(t, g), q_mul(two_s, g), q_mul(t, g), q_mul(h2, s_odd));
    lemma_q_ops_wf(q_mul(t, g), q_mul(h2, s_odd));
    lemma_q_ops_wf(q_div(e_c, q_int(2)), q_mul(h2, s_odd));
    lemma_q_eq_trans(
        q_add(q_div(e_c, q_int(2)), q_mul(h2, s_odd)),
        q_add(q_mul(t, g), q_mul(h2, s_odd)),
        q_add(q_mul(t, g), q_mul(two_s, g)),
    );
    lemma_q_eq_trans(
        q_add(q_div(e_c, q_int(2)), q_mul(h2, s_odd)),
        q_add(q_mul(t, g), q_mul(two_s, g)),
        q_mul(u, g),
    );
}

/// The composite trapezoidal rule for a caller-supplied step width: the
/// checked weighted sum `(f(a) + sum of 2*f(a + h*i) + f(b)) * (h/2)`.
pub fn _integrate_trapezoidal_rule<F: Integrand>(a: Rat, b: Rat, n: usize, h: Rat, f: &F) -> (r:
    Option<Rat>)
    requires
        n < 0x7fff_ffff_ffff_ffff,
    ensures
        ov(r) == c_trap_with_h(f, a@, b@, n as int, h@),
        r matches Some(v) ==> q_eq(v@, i_trap_with_h(f, a@, b@, n as int, h@)),
{
    rat_wf_facts(&h);
    let mut total = match f.eval(a) {
        Some(v) => v,
        None => {
            proof {
                lemma_trap_interior_none(f, a@, h@, n as int, 1);
            }
            return None;
        },
    };
    rat_wf_facts(&total);
    let two = Rat::from_i64(2);
    let mut i: usize = 1;
    while i < n
        invariant
            n < 0x7fff_ffff_ffff_ffff,
            1 <= i,
            c_trap_interior(f, a@, h@, n as int, i as int, Some(total@)) == c_trap_interior(
                f,
                a@,
                h@,
                n as int,
                1,
                o_eval(f, Some(a@)),
            ),
            two@ == q_int(2),
        decreases n - i,
    {
        let x = match sample_point(a, h, i as i64) {
            Some(v) => v,
            None => {
                proof {
                    lemma_trap_interior_none(f, a@, h@, n as int, i as int + 1);
                }
                return None;
            },
        };
        let fx = match f.eval(x) {
            Some(v) => v,
            None => {
                proof {
                    lemma_trap_interior_none(f, a@, h@, n as int, i as int + 1);
                }
                return None;
            },
        };
        rat_wf_facts(&fx);
        let t = match two.mul(fx) {
            Some(v) => v,
            None => {
                proof {
                    lemma_trap_interior_none(f, a@, h@, n as int, i as int + 1);
                }
                return None;
            },
        };
        let s = match total.add(t) {
            Some(v) => v,
            None => {
                proof {
                    lemma_trap_interior_none(f, a@, h@, n as int, i as int + 1);
                }
                return None;
            },
        };
        total = s;
        i = i + 1;
    }
    let fb = match f.eval(b) {
        Some(v) => v,
        None => { return None },
    };
    rat_wf_facts(&fb);
    let edges = match total.add(fb) {
        Some(v) => v,
        None => { return None },
    };
    let hh = match h.div(two) {
        Some(v) => v,
        None => { return None },
    };
    let r = match edges.mul(hh) {
        Some(v) => v,
        None => { return None },
    };
    proof {
        lemma_trap_with_h_exact(f, a@, b@, n as int, h@);
    }
    Some(r)
}

/// The composite trapezoidal rule with `n` slices over `[a, b]`: step width
/// `(b - a) / n`, endpoints weighted once, interior points twice. `None`
/// when `n` is zero or the exact arithmetic leaves `i64` range.
pub fn integrate_trapezoidal_rule<F: Integrand>(a: Rat, b: Rat, n: usize, f: &F) -> (r: Option<
    Rat,
>)
    requires
        n < 0x7fff_ffff_ffff_ffff,
    ensures
        ov(r) == c_trap_fixed(f, a@, b@, n as int),
        r matches Some(v) ==> q_eq(v@, i_trap_fixed(f, a@, b@, n as int)),
{
    let w = match b.sub(a) {
        Some(v) => v,
        None => { return None },
    };
    let h = match w.div(Rat::from_i64(n as i64)) {
        Some(v) => v,
        None => { return None },
    };
    _integrate_trapezoidal_rule(a, b, n, h, f)
}

/// The sum of the integrand over the odd-indexed points of the refined grid:
/// the samples a doubling step adds.
fn adaptive_sum_trapezoidal_rule<F: Integrand>(a: Rat, n: usize, h: Rat, f: &F) -> (r: Option<Rat>)
    requires
        1 <= n <= 0x4000_0000,
    ensures
        ov(r) == c_stride2_sum(f, a@, h@, n as int - 1, 1, Some(q_int(0))),
{
    stride2_sum(f, a, h, 1, n - 1)
}

/// One doubling step after another, from `n` slices on: the checked state
/// machine of the adaptive trapezoidal rule.
pub open spec fn c_trap_levels<F: Integrand>(
    f: &F,
    a: Qv,
    eps: Qv,
    n: int,
    h: Qv,
    prev: Qv,
    level: nat,
) -> Option<OutcomeV>
    decreases (if 1 <= n <= 0x20000000 { 0x20000001 - n } else { 0 }),
{
    if n < 1 {
        None
    } else if n > 0x10000000 {
        Some(OutcomeV::CapReached { value: prev, level })
    } else {
        match o_div(Some(h), Some(q_int(2))) {
            None => None,
            Some(h2) => match c_stride2_sum(f, a, h2, 2 * n - 1, 1, Some(q_int(0))) {
                None => None,
                Some(s) => {
                    let est2 = o_add(o_div(Some(prev), Some(q_int(2))), o_mul(Some(h2), Some(s)));
                    match o_div(o_sub(est2, Some(prev)), Some(q_int(3))) {
                        None => None,
                        Some(err) => {
                            let e2 = est2->Some_0;
                            if q_lt(q_abs(err), eps) {
                                Some(OutcomeV::Converged { value: e2, level: (level + 1) as nat })
                            } else {
                                c_trap_levels(f, a, eps, 2 * n, h2, e2, (level + 1) as nat)
                            }
                        },
                    }
                },
            },
        }
    }
}

fn trap_levels<F: Integrand>(
    f: &F,
    a: Rat,
    eps: Rat,
    n: usize,
    h: Rat,
    prev: Rat,
    level: usize,
) -> (r: Option<Outcome>)
    requires
        1 <= n <= 0x20000000,
        level < n,
    ensures
        ovo(r) == c_trap_levels(f, a@, eps@, n as int, h@, prev@, level as nat),
    decreases 0x20000001 - n,
{
    if n > 0x10000000 {
        return Some(Outcome::CapReached { value: prev, level });
    }
    let two = Rat::from_i64(2);
    let h2 = match h.div(two) {
        Some(v) => v,
        None => { return None },
    };
    let s = match adaptive_sum_trapezoidal_rule(a, 2 * n, h2, f) {
        Some(v) => v,
        None => { return None },
    };
    let p2 = match prev.div(two) {
        Some(v) => v,
        None => { return None },
    };
    let m = match h2.mul(s) {
        Some(v) => v,
        None => { return None },
    };
    let est2 = match p2.add(m) {
        Some(v) => v,
        None => { return None },
    };
    let d = match est2.sub(prev) {
        Some(v) => v,
        None => { return None },
    };
    let err = match d.div(Rat::from_i64(3)) {
        Some(v) => v,
        None => { return None },
    };
    if err.abs().lt(eps) {
        Some(Outcome::Converged { value: est2, level: level + 1 })
    } else {
        trap_levels(f, a, eps, 2 * n, h2, est2, level + 1)
    }
}

/// What the adaptive trapezoidal rule returns: the doubling recursion run
/// from a single slice.
pub open spec fn c_trap_adaptive<F: Integrand>(f: &F, a: Qv, b: Qv, eps: Qv) -> Option<OutcomeV> {
    match step_width(a, b, 1) {
        None => None,
        Some(h0) => match c_trap_with_h(f, a, b, 1, h0) {
            None => None,
            Some(e0) => c_trap_levels(f, a, eps, 1, h0, e0, 0),
        },
    }
}

/// The adaptive composite trapezoidal rule over `[a, b]`: start from one
/// slice, double the slice count, reuse the previous total and add only the
/// new odd-indexed samples, and stop once the Richardson error estimate
/// `(next - prev) / 3` is strictly below `epsilon` in absolute value, or at
/// the slice cap. `None` when the exact arithmetic leaves `i64` range.
pub fn integrate_trapezoidal_rule_adaptive<F: Integrand>(
    a: Rat,
    b: Rat,
    epsilon: Rat,
    f: &F,
) -> (r: Option<Outcome>)
    ensures
        ovo(r) == c_trap_adaptive(f, a@, b@, epsilon@),
{
    let w = match b.sub(a) {
        Some(v) => v,
        None => { return None },
    };
    let h0 = match w.div(Rat::from_i64(1)) {
        Some(v) => v,
        None => { return None },
    };
    let e0 = match _integrate_trapezoidal_rule(a, b, 1, h0, f) {
        Some(v) => v,
        None => { return None },
    };
    trap_levels(f, a, epsilon, 1, h0, e0, 0)
}

} // verus!
