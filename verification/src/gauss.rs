//! The Gauss-Legendre quadrature engine.
//!
//! A node set carries the abscissas and weights of a quadrature rule on the
//! reference interval `(-1, 1)`; solving for Legendre roots needs
//! transcendental arithmetic and happens outside this crate, so the engine
//! takes the node set from its caller. The fixed rule maps each abscissa
//! affinely onto `[a, b]`, scales each weight by half the interval length,
//! and returns the weighted sample sum. The adaptive rule walks a ladder of
//! node sets of increasing order and stops when two successive estimates
//! agree to the tolerance.

use vstd::prelude::*;
use crate::rational::{
    Qv, Rat, ov, o_add, o_sub, o_mul, o_div, q_int, q_neg, q_add, q_sub, q_mul, q_div, q_abs, q_lt, q_eq,
    qv_wf, qv_bounded, seq_view, lemma_q_ops_wf, lemma_o_add_exact, lemma_o_mul_exact,
    lemma_norm_props, rat_wf_facts,
};
use crate::integrand::{Integrand, ev, o_eval};
use crate::outcome::{Outcome, OutcomeV, ovo};

verus! {

/// The specification view of a node set.
pub struct NodeSetV {
    pub xs: Seq<Qv>,
    pub ws: Seq<Qv>,
}

/// A well-formed node set: as many weights as abscissas, at least one node,
/// every entry a bounded rational, and every abscissa strictly inside
/// `(-1, 1)`.
pub open spec fn node_set_wf(v: NodeSetV) -> bool {
    &&& v.xs.len() == v.ws.len()
    &&& v.xs.len() >= 1
    &&& forall|i: int|
        0 <= i < v.xs.len() ==> {
            &&& qv_wf(#[trigger] v.xs[i])
            &&& qv_bounded(v.xs[i])
            &&& q_lt(q_neg(q_int(1)), v.xs[i])
            &&& q_lt(v.xs[i], q_int(1))
        }
    &&& forall|i: int|
        0 <= i < v.ws.len() ==> qv_wf(#[trigger] v.ws[i]) && qv_bounded(v.ws[i])
}

/// Abscissas symmetric about zero with equal weights on symmetric pairs.
pub open spec fn node_set_symmetric(v: NodeSetV) -> bool {
    forall|i: int|
        0 <= i < v.xs.len() ==> {
            &&& q_eq(#[trigger] v.xs[i], q_neg(v.xs[v.xs.len() - 1 - i]))
            &&& q_eq(v.ws[i], v.ws[v.xs.len() - 1 - i])
        }
}

/// Quadrature abscissas and weights for the reference interval `(-1, 1)`.
pub struct NodeSet {
    abscissas: Vec<Rat>,
    weights: Vec<Rat>,
}

impl View for NodeSet {
    type V = NodeSetV;

    closed spec fn view(&self) -> NodeSetV {
        NodeSetV { xs: seq_view(self.abscissas@), ws: seq_view(self.weights@) }
    }
}

impl NodeSet {
    #[verifier::type_invariant]
    spec fn type_inv(self) -> bool {
        node_set_wf(self@)
    }

    /// A node set from its abscissas and weights; `None` unless the lists
    /// have the same nonzero length and every abscissa lies strictly inside
    /// `(-1, 1)`.
    pub fn new(abscissas: Vec<Rat>, weights: Vec<Rat>) -> (r: Option<NodeSet>)
        ensures
            r matches Some(v) ==> v@ == (NodeSetV {
                xs: seq_view(abscissas@),
                ws: seq_view(weights@),
            }),
            r is Some <==> node_set_wf(
                NodeSetV { xs: seq_view(abscissas@), ws: seq_view(weights@) },
            ),
    {
        if abscissas.len() != weights.len() || abscissas.len() == 0 {
            return None;
        }
        let neg_one = Rat::from_i64(-1);
        let one = Rat::from_i64(1);
        let mut i: usize = 0;
        while i < abscissas.len()
            invariant
                i <= abscissas.len(),
                abscissas.len() == weights.len(),
                abscissas.len() >= 1,
                neg_one@ == q_int(-1),
                one@ == q_int(1),
                forall|j: int|
                    0 <= j < i ==> {
                        &&& qv_wf(#[trigger] abscissas@[j]@)
                        &&& qv_bounded(abscissas@[j]@)
                        &&& q_lt(q_neg(q_int(1)), abscissas@[j]@)
                        &&& q_lt(abscissas@[j]@, q_int(1))
                    },
                forall|j: int|
                    0 <= j < i ==> qv_wf(#[trigger] weights@[j]@) && qv_bounded(weights@[j]@),
            decreases abscissas.len() - i,
        {
            let x = abscissas[i];
            let wt = weights[i];
            rat_wf_facts(&x);
            rat_wf_facts(&wt);
            proof {
                assert(q_neg(q_int(1)) == q_int(-1));
            }
            if !(neg_one.lt(x) && x.lt(one)) {
                proof {
                    assert(seq_view(abscissas@)[i as int] == abscissas@[i as int]@);
                    assert(!(q_lt(q_neg(q_int(1)), seq_view(abscissas@)[i as int]) && q_lt(
                        seq_view(abscissas@)[i as int],
                        q_int(1),
                    )));
                }
                return None;
            }
            i = i + 1;
        }
        proof {
            let v = NodeSetV { xs: seq_view(abscissas@), ws: seq_view(weights@) };
            assert forall|j: int| 0 <= j < v.xs.len() implies {
                &&& qv_wf(#[trigger] v.xs[j])
                &&& qv_bounded(v.xs[j])
                &&& q_lt(q_neg(q_int(1)), v.xs[j])
                &&& q_lt(v.xs[j], q_int(1))
            } by {
                assert(v.xs[j] == abscissas@[j]@);
            }
            assert forall|j: int| 0 <= j < v.ws.len() implies qv_wf(#[trigger] v.ws[j])
                && qv_bounded(v.ws[j]) by {
                assert(v.ws[j] == weights@[j]@);
            }
            assert(node_set_wf(v));
        }
        Some(NodeSet { abscissas, weights })
    }

    /// The number of nodes.
    pub fn len(&self) -> (r: usize)
        ensures
            r == self@.xs.len(),
            r == self@.ws.len(),
            r >= 1,
    {
        proof {
            use_type_invariant(self);
        }
        self.abscissas.len()
    }

    /// The `i`-th abscissa.
    pub fn abscissa(&self, i: usize) -> (r: Rat)
        requires
            i < self@.xs.len(),
        ensures
            r@ == self@.xs[i as int],
    {
        proof {
            use_type_invariant(self);
        }
        self.abscissas[i]
    }

    /// The `i`-th weight.
    pub fn weight(&self, i: usize) -> (r: Rat)
        requires
            i < self@.ws.len(),
        ensures
            r@ == self@.ws[i as int],
    {
        proof {
            use_type_invariant(self);
        }
        self.weights[i]
    }

    /// Whether the abscissas are symmetric about zero, with equal weights on
    /// symmetric pairs.
    pub fn is_symmetric(&self) -> (r: bool)
        ensures
            r == node_set_symmetric(self@),
    {
        proof {
            use_type_invariant(self);
        }
        let n = self.abscissas.len();
        let mut i: usize = 0;
        while i < n
            invariant
                i <= n,
                n == self@.xs.len(),
                n == self@.ws.len(),
                node_set_wf(self@),
                forall|j: int|
                    0 <= j < i ==> {
                        &&& q_eq(#[trigger] self@.xs[j], q_neg(self@.xs[n - 1 - j]))
                        &&& q_eq(self@.ws[j], self@.ws[n - 1 - j])
                    },
            decreases n - i,
        {
            let x = self.abscissas[i];
            let xr = self.abscissas[n - 1 - i];
            let w = self.weights[i];
            let wr = self.weights[n - 1 - i];
            proof {
                assert(self@.xs[i as int] == x@);
                assert(self@.xs[n - 1 - i as int] == xr@);
                assert(self@.ws[i as int] == w@);
                assert(self@.ws[n - 1 - i as int] == wr@);
            }
            if !(x.eq_val(xr.neg()) && w.eq_val(wr)) {
                proof {
                    assert(!(q_eq(self@.xs[i as int], q_neg(self@.xs[n - 1 - i as int])) && q_eq(
                        self@.ws[i as int],
                        self@.ws[n - 1 - i as int],
                    )));
                }
                return false;
            }
            i = i + 1;
        }
        true
    }
}

/// Surfaces that every reachable node set is well-formed.
pub fn node_set_facts(ns: &NodeSet) -> (u: ())
    ensures
        node_set_wf(ns@),
{
    proof {
        use_type_invariant(ns);
    }
}

/// Checked weighted sample sum of the mapped nodes: for each node `x` with
/// weight `w`, the sample `f(hd*x + hs)` times `hd*w`, accumulated onto
/// `acc`, where `hd` is half the interval length and `hs` the midpoint.
pub open spec fn c_gauss_sum<F: Integrand>(
    f: &F,
    xs: Seq<Qv>,
    ws: Seq<Qv>,
    hd: Qv,
    hs: Qv,
    i: int,
    acc: Option<Qv>,
) -> Option<Qv>
    decreases xs.len() - i,
{
    if i < 0 || i >= xs.len() {
        acc
    } else {
        let xp = o_add(o_mul(Some(hd), Some(xs[i])), Some(hs));
        let wp = o_mul(Some(hd), Some(ws[i]));
        let term = o_mul(o_eval(f, xp), wp);
        c_gauss_sum(f, xs, ws, hd, hs, i + 1, o_add(acc, term))
    }
}

/// Exact weighted sample sum of the mapped nodes.
pub open spec fn i_gauss_sum<F: Integrand>(
    f: &F,
    xs: Seq<Qv>,
    ws: Seq<Qv>,
    hd: Qv,
    hs: Qv,
    i: int,
    acc: Qv,
) -> Qv
    decreases xs.len() - i,
{
    if i < 0 || i >= xs.len() {
        acc
    } else {
        let xp = o_add(o_mul(Some(hd), Some(xs[i])), Some(hs));
        let term = q_mul(ev(f, xp), q_mul(hd, ws[i]));
        i_gauss_sum(f, xs, ws, hd, hs, i + 1, q_add(acc, term))
    }
}

/// The checked Gauss-Legendre estimate over `[a, b]` for a node set.
pub open spec fn c_gauss_fixed<F: Integrand>(f: &F, a: Qv, b: Qv, ns: NodeSetV) -> Option<Qv> {
    match o_div(o_sub(Some(b), Some(a)), Some(q_int(2))) {
        None => None,
        Some(hd) => match o_div(o_add(Some(a), Some(b)), Some(q_int(2))) {
            None => None,
            Some(hs) => c_gauss_sum(f, ns.xs, ns.ws, hd, hs, 0, Some(q_int(0))),
        },
    }
}

/// The exact Gauss-Legendre estimate over `[a, b]`, phrased over the reduced
/// half-length and midpoint (meaningful whenever the checked rule succeeds).
pub open spec fn i_gauss_fixed<F: Integrand>(f: &F, a: Qv, b: Qv, ns: NodeSetV) -> Qv {
    i_gauss_sum(
        f,
        ns.xs,
        ns.ws,
        o_div(o_sub(Some(b), Some(a)), Some(q_int(2)))->Some_0,
        o_div(o_add(Some(a), Some(b)), Some(q_int(2)))->Some_0,
        0,
        q_int(0),
    )
}

proof fn lemma_gauss_sum_none<F: Integrand>(f: &F, xs: Seq<Qv>, ws: Seq<Qv>, hd: Qv, hs: Qv, i: int)
    ensures
        c_gauss_sum(f, xs, ws, hd, hs, i, None) is None,
    decreases xs.len() - i,
{
    if 0 <= i < xs.len() {
        lemma_gauss_sum_none(f, xs, ws, hd, hs, i + 1);
    }
}

proof fn lemma_gauss_sum_exact<F: Integrand>(
    f: &F,
    xs: Seq<Qv>,
    ws: Seq<Qv>,
    hd: Qv,
    hs: Qv,
    i: int,
    acc: Qv,
    iacc: Qv,
)
    requires
        qv_wf(hd),
        qv_wf(acc),
        qv_wf(iacc),
        q_eq(acc, iacc),
        forall|j: int| 0 <= j < ws.len() ==> qv_wf(#[trigger] ws[j]),
        c_gauss_sum(f, xs, ws, hd, hs, i, Some(acc)) is Some,
        xs.len() == ws.len(),
    ensures
        c_gauss_sum(f, xs, ws, hd, hs, i, Some(acc)) matches Some(v) ==> qv_wf(v) && q_eq(
            v,
            i_gauss_sum(f, xs, ws, hd, hs, i, iacc),
        ),
    decreases xs.len() - i,
{
    if 0 <= i < xs.len() {
        let xp = o_add(o_mul(Some(hd), Some(xs[i])), Some(hs));
        let fe = o_eval(f, xp);
        let wp = o_mul(Some(hd), Some(ws[i]));
        let term = o_mul(fe, wp);
        let acc2 = o_add(Some(acc), term);
        if acc2 is None {
            lemma_gauss_sum_none(f, xs, ws, hd, hs, i + 1);
        } else {
            let fv = fe->Some_0;
            let wv = wp->Some_0;
            lemma_q_ops_wf(hd, ws[i]);
            lemma_norm_props(q_mul(hd, ws[i]));
            lemma_o_mul_exact(fv, wv, ev(f, xp), q_mul(hd, ws[i]));
            lemma_q_ops_wf(ev(f, xp), q_mul(hd, ws[i]));
            let iterm = q_mul(ev(f, xp), q_mul(hd, ws[i]));
            lemma_o_add_exact(acc, term->Some_0, iacc, iterm);
            lemma_q_ops_wf(iacc, iterm);
            lemma_gauss_sum_exact(f, xs, ws, hd, hs, i + 1, acc2->Some_0, q_add(iacc, iterm));
        }
    }
}

/// A successful checked Gauss-Legendre estimate equals the exact one.
pub proof fn lemma_gauss_fixed_exact<F: Integrand>(f: &F, a: Qv, b: Qv, ns: NodeSetV)
    requires
        qv_wf(a),
        qv_wf(b),
        node_set_wf(ns),
        c_gauss_fixed(f, a, b, ns) is Some,
    ensures
        c_gauss_fixed(f, a, b, ns) matches Some(v) ==> qv_wf(v) && q_eq(
            v,
            i_gauss_fixed(f, a, b, ns),
        ),
{
    let hd = o_div(o_sub(Some(b), Some(a)), Some(q_int(2)))->Some_0;
    let hs = o_div(o_add(Some(a), Some(b)), Some(q_int(2)))->Some_0;
    if o_sub(Some(b), Some(a)) is Some {
        let d = o_sub(Some(b), Some(a))->Some_0;
        lemma_q_ops_wf(b, a);
        lemma_norm_props(q_sub(b, a));
        lemma_q_ops_wf(d, q_int(2));
        lemma_norm_props(q_div(d, q_int(2)));
    }
    lemma_gauss_sum_exact(f, ns.xs, ns.ws, hd, hs, 0, q_int(0), q_int(0));
}

/// Gauss-Legendre quadrature over `[a, b]` with a caller-supplied node set:
/// each abscissa `x` is mapped to `(b-a)/2 * x + (a+b)/2`, each weight `w`
/// to `(b-a)/2 * w`, and the result is the weighted sum of the samples.
/// `None` when the exact arithmetic leaves `i64` range.
pub fn integrate_gaussian_quadrature<F: Integrand>(a: Rat, b: Rat, nodes: &NodeSet, f: &F) -> (r:
    Option<Rat>)
    ensures
        ov(r) == c_gauss_fixed(f, a@, b@, nodes@),
        r matches Some(v) ==> q_eq(v@, i_gauss_fixed(f, a@, b@, nodes@)),
{
    proof {
        use_type_invariant(nodes);
    }
    rat_wf_facts(&a);
    rat_wf_facts(&b);
    let two = Rat::from_i64(2);
    let w = match b.sub(a) {
        Some(v) => v,
        None => { return None },
    };
    let hd = match w.div(two) {
        Some(v) => v,
        None => { return None },
    };
    let sm = match a.add(b) {
        Some(v) => v,
        None => { return None },
    };
    let hs = match sm.div(two) {
        Some(v) => v,
        None => { return None },
    };
    rat_wf_facts(&hd);
    let n = nodes.len();
    let mut total = Rat::from_i64(0);
    let mut i: usize = 0;
    while i < n
        invariant
            i <= n,
            n == nodes@.xs.len(),
            n == nodes@.ws.len(),
            o_div(o_sub(Some(b@), Some(a@)), Some(q_int(2))) == Some(hd@),
            o_div(o_add(Some(a@), Some(b@)), Some(q_int(2))) == Some(hs@),
            c_gauss_sum(f, nodes@.xs, nodes@.ws, hd@, hs@, i as int, Some(total@))
                == c_gauss_sum(f, nodes@.xs, nodes@.ws, hd@, hs@, 0, Some(q_int(0))),
        decreases n - i,
    {
        let x = nodes.abscissa(i);
        let wt = nodes.weight(i);
        let xm = match hd.mul(x) {
            Some(v) => v,
            None => {
                proof {
                    lemma_gauss_sum_none(f, nodes@.xs, nodes@.ws, hd@, hs@, i as int + 1);
                }
                return None;
            },
        };
        let xp = match xm.add(hs) {
            Some(v) => v,
            None => {
                proof {
                    lemma_gauss_sum_none(f, nodes@.xs, nodes@.ws, hd@, hs@, i as int + 1);
                }
                return None;
            },
        };
        let wp = match hd.mul(wt) {
            Some(v) => v,
            None => {
                proof {
                    lemma_gauss_sum_none(f, nodes@.xs, nodes@.ws, hd@, hs@, i as int + 1);
                }
                return None;
            },
        };
        let fx = match f.eval(xp) {
            Some(v) => v,
            None => {
                proof {
                    lemma_gauss_sum_none(f, nodes@.xs, nodes@.ws, hd@, hs@, i as int + 1);
                }
                return None;
            },
        };
        rat_wf_facts(&fx);
        let term = match fx.mul(wp) {
            Some(v) => v,
            None => {
                proof {
                    lemma_gauss_sum_none(f, nodes@.xs, nodes@.ws, hd@, hs@, i as int + 1);
                }
                return None;
            },
        };
        let t = match total.add(term) {
            Some(v) => v,
            None => {
                proof {
                    lemma_gauss_sum_none(f, nodes@.xs, nodes@.ws, hd@, hs@, i as int + 1);
                }
                return None;
            },
        };
        total = t;
        i = i + 1;
    }
    proof {
        lemma_gauss_fixed_exact(f, a@, b@, nodes@);
    }
    Some(total)
}

/// The views of a ladder of node sets.
pub open spec fn sets_view(s: Seq<NodeSet>) -> Seq<NodeSetV> {
    s.map_values(|ns: NodeSet| ns@)
}

/// One rung of the ladder after another: the checked state machine of the
/// adaptive Gaussian rule. `prev` is the estimate from the previous rung.
pub open spec fn c_gauss_levels<F: Integrand>(
    f: &F,
    a: Qv,
    b: Qv,
    eps: Qv,
    sets: Seq<NodeSetV>,
    k: int,
    prev: Qv,
) -> Option<OutcomeV>
    decreases sets.len() - k,
{
    if k < 1 || k >= sets.len() {
        Some(OutcomeV::CapReached { value: prev, level: (k - 1) as nat })
    } else {
        match c_gauss_fixed(f, a, b, sets[k]) {
            None => None,
            Some(est2) => match o_sub(Some(est2), Some(prev)) {
                None => None,
                Some(d) => if q_lt(q_abs(d), eps) {
                    Some(OutcomeV::Converged { value: est2, level: k as nat })
                } else {
                    c_gauss_levels(f, a, b, eps, sets, k + 1, est2)
                },
            },
        }
    }
}

/// What the adaptive Gaussian rule returns: the ladder walked from its
/// first rung.
pub open spec fn c_gauss_adaptive<F: Integrand>(
    f: &F,
    a: Qv,
    b: Qv,
    eps: Qv,
    sets: Seq<NodeSetV>,
) -> Option<OutcomeV> {
    if sets.len() == 0 {
        None
    } else {
        match c_gauss_fixed(f, a, b, sets[0]) {
            None => None,
            Some(e0) => c_gauss_levels(f, a, b, eps, sets, 1, e0),
        }
    }
}

/// Adaptive Gauss-Legendre quadrature over `[a, b]`: evaluate the fixed rule
/// for each node set of the ladder in turn (the ladder stands in for the
/// doubling orders) and stop as soon as two successive estimates differ by
/// strictly less than `epsilon` in absolute value, or when the ladder is
/// exhausted. The level reported is the index of the rung the estimate came
/// from. `None` for an empty ladder or when the exact arithmetic leaves
/// `i64` range.
pub fn integrate_gaussian_quadrature_adaptive<F: Integrand>(
    a: Rat,
    b: Rat,
    epsilon: Rat,
    node_sets: &Vec<NodeSet>,
    f: &F,
) -> (r: Option<Outcome>)
    ensures
        ovo(r) == c_gauss_adaptive(f, a@, b@, epsilon@, sets_view(node_sets@)),
{
    if node_sets.len() == 0 {
        return None;
    }
    let mut prev = match integrate_gaussian_quadrature(a, b, &node_sets[0], f) {
        Some(v) => v,
        None => { return None },
    };
    let mut k: usize = 1;
    while k < node_sets.len()
        invariant
            1 <= k <= node_sets.len(),
            c_gauss_levels(f, a@, b@, epsilon@, sets_view(node_sets@), k as int, prev@)
                == c_gauss_adaptive(f, a@, b@, epsilon@, sets_view(node_sets@)),
        decreases node_sets.len() - k,
    {
        let est2 = match integrate_gaussian_quadrature(a, b, &node_sets[k], f) {
            Some(v) => v,
            None => { return None },
        };
        let d = match est2.sub(prev) {
            Some(v) => v,
            None => { return None },
        };
        if d.abs().lt(epsilon) {
            return Some(Outcome::Converged { value: est2, level: k });
        }
        prev = est2;
        k = k + 1;
    }
    Some(Outcome::CapReached { value: prev, level: node_sets.len() - 1 })
}

} // verus!
