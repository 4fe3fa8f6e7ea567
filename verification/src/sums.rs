//! Strided sample sums shared by the composite engines.
//!
//! All composite rules accumulate integrand samples `f(a + h*i)` for an
//! arithmetic progression of indices. `c_stride2_sum` is the checked,
//! reduced-at-every-step mirror of that accumulation for stride two;
//! `i_stride2_sum` is the same sum with exact (unreduced) arithmetic. The
//! exactness lemma ties the two together: whenever the checked sum fits, it
//! equals the exact sum.

use vstd::prelude::*;
use crate::rational::{
    Qv, Rat, ov, o_add, q_int, q_add, q_eq, qv_wf, lemma_q_ops_wf, lemma_o_add_exact,
    rat_wf_facts,
};
use crate::integrand::{Integrand, ev, o_eval, o_point, sample_point};

verus! {

/// Checked sum of `f(a + h*i)` for `i = first, first+2, ..., last`,
/// accumulated left to right onto `acc`, every step reduced.
pub open spec fn c_stride2_sum<F: Integrand>(
    f: &F,
    a: Qv,
    h: Qv,
    last: int,
    i: int,
    acc: Option<Qv>,
) -> Option<Qv>
    decreases last + 2 - i,
{
    if i > last {
        acc
    } else {
        c_stride2_sum(f, a, h, last, i + 2, o_add(acc, o_eval(f, o_point(a, h, i))))
    }
}

/// Exact sum of the same samples.
pub open spec fn i_stride2_sum<F: Integrand>(f: &F, a: Qv, h: Qv, last: int, i: int, acc: Qv) -> Qv
    decreases last + 2 - i,
{
    if i > last {
        acc
    } else {
        i_stride2_sum(f, a, h, last, i + 2, q_add(acc, ev(f, o_point(a, h, i))))
    }
}

/// A failed step poisons the whole checked sum.
pub proof fn lemma_stride2_sum_none<F: Integrand>(f: &F, a: Qv, h: Qv, last: int, i: int)
    ensures
        c_stride2_sum(f, a, h, last, i, None) is None,
    decreases last + 2 - i,
{
    if i <= last {
        lemma_stride2_sum_none(f, a, h, last, i + 2);
    }
}

/// A checked sum that fits equals the exact sum, for any pair of equal
/// accumulators.
pub proof fn lemma_stride2_sum_exact<F: Integrand>(
    f: &F,
    a: Qv,
    h: Qv,
    last: int,
    i: int,
    acc: Qv,
    iacc: Qv,
)
    requires
        qv_wf(acc),
        qv_wf(iacc),
        q_eq(acc, iacc),
        c_stride2_sum(f, a, h, last, i, Some(acc)) is Some,
    ensures
        c_stride2_sum(f, a, h, last, i, Some(acc)) matches Some(v) ==> qv_wf(v) && q_eq(
            v,
            i_stride2_sum(f, a, h, last, i, iacc),
        ),
    decreases last + 2 - i,
{
    if i <= last {
        let fe = o_eval(f, o_point(a, h, i));
        let acc2 = o_add(Some(acc), fe);
        if acc2 is None {
            lemma_stride2_sum_none(f, a, h, last, i + 2);
        } else {
            let fv = fe->Some_0;
            let a2 = acc2->Some_0;
            assert(ev(f, o_point(a, h, i)) == fv);
            lemma_o_add_exact(acc, fv, iacc, ev(f, o_point(a, h, i)));
            lemma_q_ops_wf(iacc, ev(f, o_point(a, h, i)));
            lemma_stride2_sum_exact(
                f,
                a,
                h,
                last,
                i + 2,
                a2,
                q_add(iacc, ev(f, o_point(a, h, i))),
            );
        }
    }
}

/// The exact sum of well-formed samples is well-formed.
pub proof fn lemma_i_stride2_sum_wf<F: Integrand>(f: &F, a: Qv, h: Qv, last: int, i: int, acc: Qv)
    requires
        qv_wf(acc),
    ensures
        qv_wf(i_stride2_sum(f, a, h, last, i, acc)),
    decreases last + 2 - i,
{
    if i <= last {
        lemma_q_ops_wf(acc, ev(f, o_point(a, h, i)));
        lemma_i_stride2_sum_wf(f, a, h, last, i + 2, q_add(acc, ev(f, o_point(a, h, i))));
    }
}

/// Exact accumulation of `f(a + h*i)` for `i = first, first+2, ...` while
/// `i <= last`; `None` as soon as a sample point, a sample, or the running
/// sum stops fitting.
pub(crate) fn stride2_sum<F: Integrand>(f: &F, a: Rat, h: Rat, first: usize, last: usize) -> (r:
    Option<Rat>)
    requires
        last < 0x7fff_ffff_ffff_ffff,
        last as int + 2 <= usize::MAX as int,
    ensures
        ov(r) == c_stride2_sum(f, a@, h@, last as int, first as int, Some(q_int(0))),
{
    let mut total = Rat::from_i64(0);
    let mut i: usize = first;
    while i <= last
        invariant
            last < 0x7fff_ffff_ffff_ffff,
            last as int + 2 <= usize::MAX as int,
            c_stride2_sum(f, a@, h@, last as int, i as int, Some(total@)) == c_stride2_sum(
                f,
                a@,
                h@,
                last as int,
                first as int,
                Some(q_int(0)),
            ),
        decreases last + 2 - i,
    {
        let x = match sample_point(a, h, i as i64) {
            Some(v) => v,
            None => {
                proof {
                    lemma_stride2_sum_none(f, a@, h@, last as int, i as int + 2);
                }
                return None;
            },
        };
        let fx = match f.eval(x) {
            Some(v) => v,
            None => {
                proof {
                    lemma_stride2_sum_none(f, a@, h@, last as int, i as int + 2);
                }
                return None;
            },
        };
        rat_wf_facts(&fx);
        let t = match total.add(fx) {
            Some(v) => v,
            None => {
                proof {
                    lemma_stride2_sum_none(f, a@, h@, last as int, i as int + 2);
                }
                return None;
            },
        };
        total = t;
        i = i + 2;
    }
    Some(total)
}

} // verus!
