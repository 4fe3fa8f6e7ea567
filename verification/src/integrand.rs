//! The integrand as a first-class value.
//!
//! An integrand is any pure real-valued function of one real argument,
//! presented to the engines through exact rational samples. `spec_eval`
//! fixes, as a mathematical function, what `eval` returns at every sample
//! point, so every engine result is a function of its arguments alone.

use vstd::prelude::*;
use crate::rational::{
    Qv, Rat, ov, o_add, o_mul, q_int, q_add, q_mul, q_eq, qv_wf, qv_bounded, lemma_q_ops_wf,
    lemma_o_add_exact, lemma_o_mul_exact, rat_wf_facts,
};

verus! {

/// A pure unary real function, sampled exactly. `eval` returns the value of
/// the integrand at `x`, reduced to lowest terms, or `None` when that exact
/// value cannot be carried by a `Rat`.
pub trait Integrand {
    /// The value `eval` returns at `x`: a fixed function of the sample point.
    spec fn spec_eval(&self, x: Qv) -> Option<Qv>;

    /// Exact evaluation at `x`.
    fn eval(&self, x: Rat) -> (r: Option<Rat>)
        ensures
            ov(r) == self.spec_eval(x@),
    ;
}

/// The checked sample: the integrand's value at `x`, required to be a
/// well-formed bounded rational, as every value an `eval` body can hand back
/// is. A missing point or sample propagates as `None`.
pub open spec fn o_eval<F: Integrand>(f: &F, x: Option<Qv>) -> Option<Qv> {
    match x {
        Some(xv) => match f.spec_eval(xv) {
            Some(v) => if qv_wf(v) && qv_bounded(v) {
                Some(v)
            } else {
                None
            },
            None => None,
        },
        None => None,
    }
}

/// The value an integrand took at a sample point, once the surrounding
/// computation is known to have succeeded; the default is never reached then.
pub open spec fn ev<F: Integrand>(f: &F, x: Option<Qv>) -> Qv {
    match o_eval(f, x) {
        Some(v) => v,
        None => q_int(0),
    }
}

/// A checked sample, present or defaulted, is well-formed and bounded.
pub proof fn lemma_ev_wf<F: Integrand>(f: &F, x: Option<Qv>)
    ensures
        qv_wf(ev(f, x)),
        qv_bounded(ev(f, x)),
{
}

/// The sample point `a + h * i`, as every composite engine computes it.
pub open spec fn o_point(a: Qv, h: Qv, i: int) -> Option<Qv> {
    o_add(Some(a), o_mul(Some(h), Some(q_int(i))))
}

/// Exact sample point `a + h * i`.
pub fn sample_point(a: Rat, h: Rat, i: i64) -> (r: Option<Rat>)
    requires
        i != i64::MIN,
    ensures
        ov(r) == o_point(a@, h@, i as int),
{
    let t = match h.mul(Rat::from_i64(i)) {
        Some(v) => v,
        None => { return None },
    };
    a.add(t)
}

/// A polynomial with exact rational coefficients, in ascending order of
/// degree. Its view is the coefficient sequence.
pub struct Polynomial {
    coeffs: Vec<Rat>,
}

impl View for Polynomial {
    type V = Seq<Qv>;

    closed spec fn view(&self) -> Seq<Qv> {
        self.coeffs@.map_values(|c: Rat| c@)
    }
}

/// Checked Horner evaluation of a coefficient sequence at `x`, each step
/// reduced to lowest terms.
pub open spec fn horner(coeffs: Seq<Qv>, x: Qv) -> Option<Qv>
    decreases coeffs.len(),
{
    if coeffs.len() == 0 {
        Some(q_int(0))
    } else {
        o_add(Some(coeffs[0]), o_mul(Some(x), horner(coeffs.drop_first(), x)))
    }
}

/// Exact Horner evaluation: the value of the polynomial at `x`.
pub open spec fn i_horner(coeffs: Seq<Qv>, x: Qv) -> Qv
    decreases coeffs.len(),
{
    if coeffs.len() == 0 {
        q_int(0)
    } else {
        q_add(coeffs[0], q_mul(x, i_horner(coeffs.drop_first(), x)))
    }
}

proof fn lemma_i_horner_wf(coeffs: Seq<Qv>, x: Qv)
    requires
        qv_wf(x),
        forall|i: int| 0 <= i < coeffs.len() ==> qv_wf(#[trigger] coeffs[i]),
    ensures
        qv_wf(i_horner(coeffs, x)),
    decreases coeffs.len(),
{
    if coeffs.len() > 0 {
        let rest = coeffs.drop_first();
        assert forall|i: int| 0 <= i < rest.len() implies qv_wf(#[trigger] rest[i]) by {
            assert(rest[i] == coeffs[i + 1]);
        }
        lemma_i_horner_wf(rest, x);
        lemma_q_ops_wf(x, i_horner(rest, x));
        lemma_q_ops_wf(coeffs[0], q_mul(x, i_horner(rest, x)));
    }
}

/// A checked Horner evaluation that fits equals the exact polynomial value.
pub proof fn lemma_horner_exact(coeffs: Seq<Qv>, x: Qv)
    requires
        qv_wf(x),
        forall|i: int| 0 <= i < coeffs.len() ==> qv_wf(#[trigger] coeffs[i]),
        horner(coeffs, x) is Some,
    ensures
        horner(coeffs, x) matches Some(v) ==> qv_wf(v) && q_eq(v, i_horner(coeffs, x)),
    decreases coeffs.len(),
{
    if coeffs.len() > 0 {
        let rest = coeffs.drop_first();
        assert forall|i: int| 0 <= i < rest.len() implies qv_wf(#[trigger] rest[i]) by {
            assert(rest[i] == coeffs[i + 1]);
        }
        if horner(rest, x) is Some {
            lemma_horner_exact(rest, x);
            lemma_i_horner_wf(rest, x);
            let vr = horner(rest, x)->Some_0;
            lemma_o_mul_exact(x, vr, x, i_horner(rest, x));
            lemma_q_ops_wf(x, i_horner(rest, x));
            let mv = o_mul(Some(x), horner(rest, x));
            if mv is Some {
                lemma_o_add_exact(coeffs[0], mv->Some_0, coeffs[0], q_mul(x, i_horner(rest, x)));
            }
        }
    }
}

proof fn lemma_horner_step(coeffs: Seq<Qv>, x: Qv, i: int)
    requires
        0 <= i < coeffs.len(),
    ensures
        horner(coeffs.skip(i), x) == o_add(
            Some(coeffs[i]),
            o_mul(Some(x), horner(coeffs.skip(i + 1), x)),
        ),
{
    assert(coeffs.skip(i).drop_first() =~= coeffs.skip(i + 1));
    assert(coeffs.skip(i)[0] == coeffs[i]);
}

proof fn lemma_horner_none(coeffs: Seq<Qv>, x: Qv, i: int)
    requires
        0 <= i <= coeffs.len(),
        horner(coeffs.skip(i), x) is None,
    ensures
        horner(coeffs, x) is None,
    decreases i,
{
    if i > 0 {
        lemma_horner_step(coeffs, x, i - 1);
        lemma_horner_none(coeffs, x, i - 1);
    } else {
        assert(coeffs.skip(0) =~= coeffs);
    }
}

impl Polynomial {
    /// A polynomial from its coefficients, constant term first.
    pub fn new(coeffs: Vec<Rat>) -> (p: Polynomial)
        ensures
            p@ == coeffs@.map_values(|c: Rat| c@),
    {
        Polynomial { coeffs }
    }
}

impl Integrand for Polynomial {
    open spec fn spec_eval(&self, x: Qv) -> Option<Qv> {
        horner(self@, x)
    }

    fn eval(&self, x: Rat) -> (r: Option<Rat>)
        ensures
            r matches Some(v) ==> q_eq(v@, i_horner(self@, x@)),
    {
        rat_wf_facts(&x);
        let mut acc = Rat::from_i64(0);
        let mut i: usize = self.coeffs.len();
        proof {
            assert(self@.skip(i as int) =~= Seq::<Qv>::empty());
        }
        while i > 0
            invariant
                i <= self.coeffs.len(),
                self@.len() == self.coeffs@.len(),
                Some(acc@) == horner(self@.skip(i as int), x@),
                forall|j: int|
                    i <= j < self@.len() ==> qv_wf(#[trigger] self@[j]) && qv_bounded(self@[j]),
            decreases i,
        {
            i = i - 1;
            rat_wf_facts(&self.coeffs[i]);
            proof {
                assert(self@[i as int] == self.coeffs@[i as int]@);
                lemma_horner_step(self@, x@, i as int);
            }
            let t = match x.mul(acc) {
                Some(v) => v,
                None => {
                    proof {
                        lemma_horner_none(self@, x@, i as int);
                    }
                    return None;
                },
            };
            let s = match self.coeffs[i].add(t) {
                Some(v) => v,
                None => {
                    proof {
                        lemma_horner_none(self@, x@, i as int);
                    }
                    return None;
                },
            };
            acc = s;
        }
        proof {
            assert(self@.skip(0) =~= self@);
            lemma_horner_exact(self@, x@);
        }
        Some(acc)
    }
}

} // verus!
