//! The composite Simpson engine.
//!
//! The fixed rule weighs the endpoints once, odd-indexed interior points
//! four times and even-indexed interior points twice, scaled by a third of
//! the step width. The adaptive rule starts from two slices and doubles the
//! slice count; the even-indexed samples of the refined grid are exactly the
//! samples of the coarse grid, so each refinement only sums the new
//! odd-indexed points. The run stops when the Richardson error estimate
//! `(next - prev) / 15` falls below the tolerance or the slice cap is
//! reached.

use vstd::prelude::*;
use crate::rational::{
    Qv, Rat, ov, o_add, o_sub, o_mul, o_div, q_int, q_add, q_mul, q_div, q_abs, q_lt, q_eq, qv_wf,
    lemma_q_ops_wf, lemma_o_add_exact, lemma_o_mul_exact, lemma_norm_props, rat_wf_facts,
};
use crate::integrand::{Integrand, ev, o_eval, o_point, sample_point};
use crate::sums::{c_stride2_sum, i_stride2_sum, stride2_sum, lemma_stride2_sum_exact};
use crate::trapezoid::step_width;
use crate::outcome::{Outcome, OutcomeV, ovo};

verus! {

/// Simpson's weight for the interior point with index `i`.
pub open spec fn simpson_weight(i: int) -> int {
    if i % 2 == 0 {
        2
    } else {
        4
    }
}

/// Checked accumulation of the weighted interior samples
/// `w(i) * f(a + h*i)` for `i = first, ..., n-1` onto `acc`.
pub open spec fn c_simpson_interior<F: Integrand>(
    f: &F,
    a: Qv,
    h: Qv,
    n: int,
    i: int,
    acc: Option<Qv>,
) -> Option<Qv>
    decreases n - i,
{
    if i >= n {
        acc
    } else {
        c_simpson_interior(
            f,
            a,
            h,
            n,
            i + 1,
            o_add(acc, o_mul(Some(q_int(simpson_weight(i))), o_eval(f, o_point(a, h, i)))),
        )
    }
}

/// Exact accumulation of the same weighted samples.
pub open spec fn i_simpson_interior<F: Integrand>(
    f: &F,
    a: Qv,
    h: Qv,
    n: int,
    i: int,
    acc: Qv,
) -> Qv
    decreases n - i,
{
    if i >= n {
        acc
    } else {
        i_simpson_interior(
            f,
            a,
            h,
            n,
            i + 1,
            q_add(acc, q_mul(q_int(simpson_weight(i)), ev(f, o_point(a, h, i)))),
        )
    }
}

/// The checked Simpson estimate for a given step width:
/// `(f(a) + sum of w(i)*f(a + h*i) + f(b)) * (h/3)`.
pub open spec fn c_simpson_with_h<F: Integrand>(f: &F, a: Qv, b: Qv, n: int, h: Qv) -> Option<Qv> {
    o_mul(
        o_add(c_simpson_interior(f, a, h, n, 1, o_eval(f, Some(a))), o_eval(f, Some(b))),
        o_div(Some(h), Some(q_int(3))),
    )
}

/// The exact Simpson estimate for a given step width.
pub open spec fn i_simpson_with_h<F: Integrand>(f: &F, a: Qv, b: Qv, n: int, h: Qv) -> Qv {
    q_mul(
        q_add(i_simpson_interior(f, a, h, n, 1, ev(f, Some(a))), ev(f, Some(b))),
        q_div(h, q_int(3)),
    )
}

/// The checked composite Simpson rule with `n` slices.
pub open spec fn c_simpson_fixed<F: Integrand>(f: &F, a: Qv, b: Qv, n: int) -> Option<Qv> {
    match step_width(a, b, n) {
        None => None,
        Some(h) => c_simpson_with_h(f, a, b, n, h),
    }
}

/// The exact composite Simpson rule with `n` slices, phrased over the
/// reduced step width (meaningful whenever the checked rule succeeds).
pub open spec fn i_simpson_fixed<F: Integrand>(f: &F, a: Qv, b: Qv, n: int) -> Qv {
    i_simpson_with_h(f, a, b, n, step_width(a, b, n)->Some_0)
}

proof fn lemma_i_simpson_interior_wf<F: Integrand>(f: &F, a: Qv, h: Qv, n: int, i: int, acc: Qv)
    requires
        qv_wf(acc),
    ensures
        qv_wf(i_simpson_interior(f, a, h, n, i, acc)),
    decreases n - i,
{
    if i < n {
        let iterm = q_mul(q_int(simpson_weight(i)), ev(f, o_point(a, h, i)));
        lemma_q_ops_wf(q_int(simpson_weight(i)), ev(f, o_point(a, h, i)));
        lemma_q_ops_wf(acc, iterm);
        lemma_i_simpson_interior_wf(f, a, h, n, i + 1, q_add(acc, iterm));
    }
}

proof fn lemma_simpson_interior_none<F: Integrand>(f: &F, a: Qv, h: Qv, n: int, i: int)
    ensures
        c_simpson_interior(f, a, h, n, i, None) is None,
    decreases n - i,
{
    if i < n {
        lemma_simpson_interior_none(f, a, h, n, i + 1);
    }
}

proof fn lemma_simpson_interior_exact<F: Integrand>(
    f: &F,
    a: Qv,
    h: Qv,
    n: int,
    i: int,
    acc: Qv,
    iacc: Qv,
)
    requires
        qv_wf(acc),
        qv_wf(iacc),
        q_eq(acc, iacc),
        c_simpson_interior(f, a, h, n, i, Some(acc)) is Some,
    ensures
        c_simpson_interior(f, a, h, n, i, Some(acc)) matches Some(v) ==> qv_wf(v) && q_eq(
            v,
            i_simpson_interior(f, a, h, n, i, iacc),
        ),
    decreases n - i,
{
    if i < n {
        let fe = o_eval(f, o_point(a, h, i));
        let w = q_int(simpson_weight(i));
        let term = o_mul(Some(w), fe);
        let acc2 = o_add(Some(acc), term);
        if acc2 is None {
            lemma_simpson_interior_none(f, a, h, n, i + 1);
        } else {
            let fv = fe->Some_0;
            let iterm = q_mul(w, ev(f, o_point(a, h, i)));
            lemma_o_mul_exact(w, fv, w, fv);
            lemma_q_ops_wf(w, fv);
            lemma_o_add_exact(acc, term->Some_0, iacc, iterm);
            lemma_q_ops_wf(iacc, iterm);
            lemma_simpson_interior_exact(f, a, h, n, i + 1, acc2->Some_0, q_add(iacc, iterm));
        }
    }
}

/// A successful checked Simpson estimate equals the exact one.
pub proof fn lemma_simpson_with_h_exact<F: Integrand>(f: &F, a: Qv, b: Qv, n: int, h: Qv)
    requires
        qv_wf(h),
        c_simpson_with_h(f, a, b, n, h) is Some,
    ensures
        c_simpson_with_h(f, a, b, n, h) matches Some(v) ==> qv_wf(v) && q_eq(
            v,
            i_simpson_with_h(f, a, b, n, h),
        ),
{
    let fa = o_eval(f, Some(a));
    let interior = c_simpson_interior(f, a, h, n, 1, fa);
    if interior is None {
        assert(o_add(interior, o_eval(f, Some(b))) is None);
    } else {
        if fa is None {
            lemma_simpson_interior_none(f, a, h, n, 1);
        }
        let fav = fa->Some_0;
        lemma_simpson_interior_exact(f, a, h, n, 1, fav, fav);
        let iv = interior->Some_0;
        let i_int = i_simpson_interior(f, a, h, n, 1, ev(f, Some(a)));
        let fb = o_eval(f, Some(b));
        let edges = o_add(interior, fb);
        if edges is Some {
            let fbv = fb->Some_0;
            lemma_i_simpson_interior_wf(f, a, h, n, 1, ev(f, Some(a)));
            lemma_o_add_exact(iv, fbv, i_int, ev(f, Some(b)));
            lemma_q_ops_wf(i_int, ev(f, Some(b)));
            let hh = o_div(Some(h), Some(q_int(3)));
            if hh is Some {
                lemma_q_ops_wf(h, q_int(3));
                lemma_norm_props(q_div(h, q_int(3)));
                lemma_o_mul_exact(
                    edges->Some_0,
                    hh->Some_0,
                    q_add(i_int, ev(f, Some(b))),
                    q_div(h, q_int(3)),
                );
            }
        }
    }
}

/// The composite Simpson rule with `n` slices over `[a, b]`: step width
/// `(b - a) / n`, endpoints weighted once, odd interior points four times,
/// even interior points twice, all scaled by a third of the step width.
/// Intended for even `n`; for odd `n` it returns the same weighted sum,
/// which is then not a Simpson estimate. `None` when `n` is zero or the
/// exact arithmetic leaves `i64` range.
pub fn integrate_simpsons_rule<F: Integrand>(a: Rat, b: Rat, n: usize, f: &F) -> (r: Option<Rat>)
    requires
        n < 0x7fff_ffff_ffff_ffff,
    ensures
        ov(r) == c_simpson_fixed(f, a@, b@, n as int),
        r matches Some(v) ==> q_eq(v@, i_simpson_fixed(f, a@, b@, n as int)),
{
    let w = match b.sub(a) {
        Some(v) => v,
        None => { return None },
    };
    let h = match w.div(Rat::from_i64(n as i64)) {
        Some(v) => v,
        None => { return None },
    };
    rat_wf_facts(&h);
    let mut total = match f.eval(a) {
        Some(v) => v,
        None => {
            proof {
                lemma_simpson_interior_none(f, a@, h@, n as int, 1);
            }
            return None;
        },
    };
    rat_wf_facts(&total);
    let mut i: usize = 1;
    while i < n
        invariant
            n < 0x7fff_ffff_ffff_ffff,
            1 <= i,
            step_width(a@, b@, n as int) == Some(h@),
            c_simpson_interior(f, a@, h@, n as int, i as int, Some(total@)) == c_simpson_interior(
                f,
                a@,
                h@,
                n as int,
                1,
                o_eval(f, Some(a@)),
            ),
        decreases n - i,
    {
        let x = match sample_point(a, h, i as i64) {
            Some(v) => v,
            None => {
                proof {
                    lemma_simpson_interior_none(f, a@, h@, n as int, i as int + 1);
                }
                return None;
            },
        };
        let fx = match f.eval(x) {
            Some(v) => v,
            None => {
                proof {
                    lemma_simpson_interior_none(f, a@, h@, n as int, i as int + 1);
                }
                return None;
            },
        };
        rat_wf_facts(&fx);
        let weight = if i % 2 == 0 {
            Rat::from_i64(2)
        } else {
            Rat::from_i64(4)
        };
        let t = match weight.mul(fx) {
            Some(v) => v,
            None => {
                proof {
                    lemma_simpson_interior_none(f, a@, h@, n as int, i as int + 1);
                }
                return None;
            },
        };
        let s = match total.add(t) {
            Some(v) => v,
            None => {
                proof {
                    lemma_simpson_interior_none(f, a@, h@, n as int, i as int + 1);
                }
                return None;
            },
        };
        total = s;
        i = i + 1;
    }
    let fb = match f.eval(b) {
        Some(v) => v,
        None => { return None },
    };
    rat_wf_facts(&fb);
    let edges = match total.add(fb) {
        Some(v) => v,
        None => { return None },
    };
    let hh = match h.div(Rat::from_i64(3)) {
        Some(v) => v,
        None => { return None },
    };
    let r = match edges.mul(hh) {
        Some(v) => v,
        None => { return None },
    };
    proof {
        lemma_simpson_with_h_exact(f, a@, b@, n as int, h@);
    }
    Some(r)
}

/// The sum of `f(a + h*i)` over odd `i` from one through `n - 1`: the
/// odd-indexed samples of a grid with `n` slices.
pub fn add_odds_from_1<F: Integrand>(a: Rat, h: Rat, n: usize, f: &F) -> (r: Option<Rat>)
    requires
        1 <= n,
        n as int + 1 <= usize::MAX as int,
        n < 0x7fff_ffff_ffff_ffff,
    ensures
        ov(r) == c_stride2_sum(f, a@, h@, n as int - 1, 1, Some(q_int(0))),
        r matches Some(v) ==> q_eq(v@, i_stride2_sum(f, a@, h@, n as int - 1, 1, q_int(0))),
{
    let r = stride2_sum(f, a, h, 1, n - 1);
    proof {
        if r is Some {
            lemma_stride2_sum_exact(f, a@, h@, n as int - 1, 1, q_int(0), q_int(0));
        }
    }
    r
}

/// The sum of `f(a + h*i)` over even `i` from two through `n - 2`: the
/// even-indexed interior samples of a grid with `n` slices.
pub fn add_evens_from_2<F: Integrand>(a: Rat, h: Rat, n: usize, f: &F) -> (r: Option<Rat>)
    requires
        2 <= n,
        n as int <= usize::MAX as int,
        n < 0x7fff_ffff_ffff_ffff,
    ensures
        ov(r) == c_stride2_sum(f, a@, h@, n as int - 2, 2, Some(q_int(0))),
        r matches Some(v) ==> q_eq(v@, i_stride2_sum(f, a@, h@, n as int - 2, 2, q_int(0))),
{
    let r = stride2_sum(f, a, h, 2, n - 2);
    proof {
        if r is Some {
            lemma_stride2_sum_exact(f, a@, h@, n as int - 2, 2, q_int(0), q_int(0));
        }
    }
    r
}

/// One doubling step after another, from `n` slices on: the checked state
/// machine of the adaptive Simpson rule. `s` carries the endpoint and
/// even-sample share, `t` the odd-sample share, `prev` the last estimate.
pub open spec fn c_simpson_levels<F: Integrand>(
    f: &F,
    a: Qv,
    eps: Qv,
    n: int,
    h: Qv,
    s: Qv,
    t: Qv,
    prev: Qv,
    level: nat,
) -> Option<OutcomeV>
    decreases (if 1 <= n <= 0x2000000 { 0x2000001 - n } else { 0 }),
{
    if n < 1 {
        None
    } else if n > 0x1000000 {
        Some(OutcomeV::CapReached { value: prev, level })
    } else {
        match o_div(Some(h), Some(q_int(2))) {
            None => None,
            Some(h2) => {
                let s2 = o_add(Some(s), Some(t));
                let t2 = o_div(
                    o_mul(
                        c_stride2_sum(f, a, h2, 2 * n - 1, 1, Some(q_int(0))),
                        Some(q_int(2)),
                    ),
                    Some(q_int(3)),
                );
                let i2 = o_mul(Some(h2), o_add(s2, o_mul(Some(q_int(2)), t2)));
                match o_div(o_sub(i2, Some(prev)), Some(q_int(15))) {
                    None => None,
                    Some(err) => {
                        if q_lt(q_abs(err), eps) {
                            Some(
                                OutcomeV::Converged {
                                    value: i2->Some_0,
                                    level: (level + 1) as nat,
                                },
                            )
                        } else {
                            c_simpson_levels(
                                f,
                                a,
                                eps,
                                2 * n,
                                h2,
                                s2->Some_0,
                                t2->Some_0,
                                i2->Some_0,
                                (level + 1) as nat,
                            )
                        }
                    },
                }
            },
        }
    }
}

fn simpson_levels<F: Integrand>(
    f: &F,
    a: Rat,
    eps: Rat,
    n: usize,
    h: Rat,
    s: Rat,
    t: Rat,
    prev: Rat,
    level: usize,
) -> (r: Option<Outcome>)
    requires
        1 <= n <= 0x2000000,
        level < n,
    ensures
        ovo(r) == c_simpson_levels(f, a@, eps@, n as int, h@, s@, t@, prev@, level as nat),
    decreases 0x2000001 - n,
{
    if n > 0x1000000 {
        return Some(Outcome::CapReached { value: prev, level });
    }
    let two = Rat::from_i64(2);
    let three = Rat::from_i64(3);
    let h2 = match h.div(two) {
        Some(v) => v,
        None => { return None },
    };
    let s2 = match s.add(t) {
        Some(v) => v,
        None => { return None },
    };
    let odds = match add_odds_from_1(a, h2, 2 * n, f) {
        Some(v) => v,
        None => { return None },
    };
    let t2a = match odds.mul(two) {
        Some(v) => v,
        None => { return None },
    };
    let t2 = match t2a.div(three) {
        Some(v) => v,
        None => { return None },
    };
    let tt = match two.mul(t2) {
        Some(v) => v,
        None => { return None },
    };
    let inner = match s2.add(tt) {
        Some(v) => v,
        None => { return None },
    };
    let i2 = match h2.mul(inner) {
        Some(v) => v,
        None => { return None },
    };
    let d = match i2.sub(prev) {
        Some(v) => v,
        None => { return None },
    };
    let err = match d.div(Rat::from_i64(15)) {
        Some(v) => v,
        None => { return None },
    };
    if err.abs().lt(eps) {
        Some(Outcome::Converged { value: i2, level: level + 1 })
    } else {
        simpson_levels(f, a, eps, 2 * n, h2, s2, t2, i2, level + 1)
    }
}

/// What the adaptive Simpson rule returns: the doubling recursion run from
/// two slices.
pub open spec fn c_simpson_adaptive<F: Integrand>(f: &F, a: Qv, b: Qv, eps: Qv) -> Option<
    OutcomeV,
> {
    match step_width(a, b, 2) {
        None => None,
        Some(h) => {
            let fa = o_eval(f, Some(a));
            let fb = o_eval(f, Some(b));
            let evens = c_stride2_sum(f, a, h, 0, 2, Some(q_int(0)));
            let s1 = o_div(
                o_add(o_add(fa, fb), o_mul(Some(q_int(2)), evens)),
                Some(q_int(3)),
            );
            let odds = c_stride2_sum(f, a, h, 1, 1, Some(q_int(0)));
            let t1 = o_div(o_mul(odds, Some(q_int(2))), Some(q_int(3)));
            let i1 = o_mul(Some(h), o_add(s1, o_mul(Some(q_int(2)), t1)));
            match i1 {
                None => None,
                Some(iv) => c_simpson_levels(f, a, eps, 2, h, s1->Some_0, t1->Some_0, iv, 0),
            }
        },
    }
}

/// The adaptive composite Simpson rule over `[a, b]`: start from two slices
/// and double the slice count; even-indexed sums are reused across
/// doublings, so each refinement evaluates the integrand only at the newly
/// introduced odd-indexed points. Conventions differ on the base
/// resolution; two slices is the smallest count the rule admits and is the
/// canonical choice here. Stops once the Richardson error estimate
/// `(next - prev) / 15` is strictly below `epsilon` in absolute value, or at
/// the slice cap. `None` when the exact arithmetic leaves `i64` range.
pub fn integrate_simpsons_rule_adaptive<F: Integrand>(a: Rat, b: Rat, epsilon: Rat, f: &F) -> (r:
    Option<Outcome>)
    ensures
        ovo(r) == c_simpson_adaptive(f, a@, b@, epsilon@),
{
    let two = Rat::from_i64(2);
    let three = Rat::from_i64(3);
    let w = match b.sub(a) {
        Some(v) => v,
        None => { return None },
    };
    let h = match w.div(two) {
        Some(v) => v,
        None => { return None },
    };
    let fa = match f.eval(a) {
        Some(v) => v,
        None => { return None },
    };
    rat_wf_facts(&fa);
    let fb = match f.eval(b) {
        Some(v) => v,
        None => { return None },
    };
    rat_wf_facts(&fb);
    let evens = match add_evens_from_2(a, h, 2, f) {
        Some(v) => v,
        None => { return None },
    };
    let fafb = match fa.add(fb) {
        Some(v) => v,
        None => { return None },
    };
    let e2 = match two.mul(evens) {
        Some(v) => v,
        None => { return None },
    };
    let s0 = match fafb.add(e2) {
        Some(v) => v,
        None => { return None },
    };
    let s1 = match s0.div(three) {
        Some(v) => v,
        None => { return None },
    };
    let odds = match add_odds_from_1(a, h, 2, f) {
        Some(v) => v,
        None => { return None },
    };
    let t1a = match odds.mul(two) {
        Some(v) => v,
        None => { return None },
    };
    let t1 = match t1a.div(three) {
        Some(v) => v,
        None => { return None },
    };
    let tt = match two.mul(t1) {
        Some(v) => v,
        None => { return None },
    };
    let inner = match s1.add(tt) {
        Some(v) => v,
        None => { return None },
    };
    let i1 = match h.mul(inner) {
        Some(v) => v,
        None => { return None },
    };
    simpson_levels(f, a, epsilon, 2, h, s1, t1, i1, 0)
}

} // verus!
