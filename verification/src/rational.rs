//! Exact rational numbers.
//!
//! `Qv` is the specification-level rational: a pair of unbounded integers
//! with a positive denominator, compared by cross-multiplication. `Rat` is
//! the executable rational: an `i64` numerator and a positive `i64`
//! denominator, kept in lowest terms by Euclid's algorithm. Arithmetic on
//! `Rat` is exact; an operation whose reduced result does not fit in `i64`
//! returns `None` rather than rounding.

use vstd::prelude::*;
use vstd::arithmetic::div_mod::{lemma_fundamental_div_mod, lemma_div_multiples_vanish};

verus! {

/// A rational number at the specification level, not necessarily in lowest
/// terms: the value `n / d`.
pub struct Qv {
    pub n: int,
    pub d: int,
}

/// A specification rational is well-formed when its denominator is positive.
pub open spec fn qv_wf(q: Qv) -> bool {
    q.d > 0
}

/// Value equality of two specification rationals, by cross-multiplication.
pub open spec fn q_eq(p: Qv, q: Qv) -> bool {
    p.n * q.d == q.n * p.d
}

/// The integer `i` as a specification rational.
pub open spec fn q_int(i: int) -> Qv {
    Qv { n: i, d: 1 }
}

/// Exact sum of two specification rationals.
pub open spec fn q_add(p: Qv, q: Qv) -> Qv {
    Qv { n: p.n * q.d + q.n * p.d, d: p.d * q.d }
}

/// Exact negation.
pub open spec fn q_neg(p: Qv) -> Qv {
    Qv { n: -p.n, d: p.d }
}

/// Exact difference.
pub open spec fn q_sub(p: Qv, q: Qv) -> Qv {
    q_add(p, q_neg(q))
}

/// Exact product.
pub open spec fn q_mul(p: Qv, q: Qv) -> Qv {
    Qv { n: p.n * q.n, d: p.d * q.d }
}

/// Exact reciprocal, with the sign moved into the numerator so that a
/// well-formed nonzero input gives a well-formed result.
pub open spec fn q_inv(q: Qv) -> Qv {
    if q.n >= 0 {
        Qv { n: q.d, d: q.n }
    } else {
        Qv { n: -q.d, d: -q.n }
    }
}

/// Exact quotient.
pub open spec fn q_div(p: Qv, q: Qv) -> Qv {
    q_mul(p, q_inv(q))
}

/// Exact absolute value.
pub open spec fn q_abs(p: Qv) -> Qv {
    Qv { n: if p.n >= 0 { p.n } else { -p.n }, d: p.d }
}

/// Strict order on well-formed specification rationals.
pub open spec fn q_lt(p: Qv, q: Qv) -> bool {
    p.n * q.d < q.n * p.d
}

/// Non-strict order on well-formed specification rationals.
pub open spec fn q_le(p: Qv, q: Qv) -> bool {
    p.n * q.d <= q.n * p.d
}

/// Greatest common divisor by Euclid's algorithm.
pub open spec fn gcd_nat(a: nat, b: nat) -> nat
    decreases b,
{
    if b == 0 {
        a
    } else {
        gcd_nat(b, a % b)
    }
}

/// `d` divides `a`.
pub open spec fn divides(d: int, a: int) -> bool {
    exists|k: int| a == #[trigger] (d * k)
}

/// Euclid's algorithm yields a positive common divisor of its arguments
/// whenever they are not both zero.
pub proof fn lemma_gcd_divides(a: nat, b: nat)
    ensures
        divides(gcd_nat(a, b) as int, a as int),
        divides(gcd_nat(a, b) as int, b as int),
        a > 0 || b > 0 ==> gcd_nat(a, b) > 0,
    decreases b,
{
    if b == 0 {
        assert(a as int == (a as int) * 1);
        assert(0int == (a as int) * 0);
    } else {
        lemma_gcd_divides(b, a % b);
        let g = gcd_nat(b, a % b) as int;
        let k1 = choose|k: int| b as int == #[trigger] (g * k);
        let k2 = choose|k: int| (a % b) as int == #[trigger] (g * k);
        lemma_fundamental_div_mod(a as int, b as int);
        let q = (a as int) / (b as int);
        assert(a as int == (b as int) * q + (a % b) as int);
        assert(a as int == g * (k1 * q + k2)) by (nonlinear_arith)
            requires
                b as int == g * k1,
                (a % b) as int == g * k2,
                a as int == (b as int) * q + (a % b) as int,
        ;
    }
}

/// Bounds that let a specification rational be carried by a `Rat`.
pub open spec fn qv_bounded(q: Qv) -> bool {
    &&& -(i64::MAX as int) <= q.n <= i64::MAX as int
    &&& 1 <= q.d <= i64::MAX as int
}

/// Reduction to lowest terms, then the `i64` range check: the exact value of
/// `q` as a `Rat` would carry it, or `None` when the reduced numerator or
/// denominator does not fit. Meaningful for well-formed `q`.
pub open spec fn norm(q: Qv) -> Option<Qv> {
    let m = if q.n >= 0 { q.n } else { -q.n };
    let g = gcd_nat(m as nat, q.d as nat) as int;
    let rm = m / g;
    let rd = q.d / g;
    if rm <= i64::MAX as int && rd <= i64::MAX as int {
        Some(Qv { n: if q.n >= 0 { rm } else { -rm }, d: rd })
    } else {
        None
    }
}

/// Reduction preserves the value and yields a well-formed, bounded rational.
pub proof fn lemma_norm_props(q: Qv)
    requires
        qv_wf(q),
    ensures
        norm(q) matches Some(v) ==> qv_wf(v) && qv_bounded(v) && q_eq(v, q),
{
    let m = if q.n >= 0 { q.n } else { -q.n };
    lemma_gcd_divides(m as nat, q.d as nat);
    let g = gcd_nat(m as nat, q.d as nat) as int;
    if norm(q) is Some {
        let km = choose|k: int| m == #[trigger] (g * k);
        let kd = choose|k: int| q.d == #[trigger] (g * k);
        lemma_div_multiples_vanish(km, g);
        lemma_div_multiples_vanish(kd, g);
        assert(m / g == km && q.d / g == kd);
        assert(km >= 0 && kd >= 1) by (nonlinear_arith)
            requires
                g >= 1,
                m == g * km,
                q.d == g * kd,
                m >= 0,
                q.d >= 1,
        ;
        let v = norm(q)->Some_0;
        assert(q_eq(v, q)) by (nonlinear_arith)
            requires
                m == g * km,
                q.d == g * kd,
                m == if q.n >= 0 { q.n } else { -q.n },
                v.n == if q.n >= 0 { km } else { -km },
                v.d == kd,
        ;
    }
}

/// The views of a sequence of exact rationals.
pub open spec fn seq_view(s: Seq<Rat>) -> Seq<Qv> {
    s.map_values(|r: Rat| r@)
}

/// Lift `Option<Rat>` to its specification view.
pub open spec fn ov(r: Option<Rat>) -> Option<Qv> {
    match r {
        Some(v) => Some(v@),
        None => None,
    }
}

/// Checked sum: reduce the exact sum, `None` when it no longer fits.
pub open spec fn o_add(x: Option<Qv>, y: Option<Qv>) -> Option<Qv> {
    match (x, y) {
        (Some(p), Some(q)) => norm(q_add(p, q)),
        _ => None,
    }
}

/// Checked difference.
pub open spec fn o_sub(x: Option<Qv>, y: Option<Qv>) -> Option<Qv> {
    match (x, y) {
        (Some(p), Some(q)) => norm(q_sub(p, q)),
        _ => None,
    }
}

/// Checked product.
pub open spec fn o_mul(x: Option<Qv>, y: Option<Qv>) -> Option<Qv> {
    match (x, y) {
        (Some(p), Some(q)) => norm(q_mul(p, q)),
        _ => None,
    }
}

/// Checked quotient: also `None` on division by zero.
pub open spec fn o_div(x: Option<Qv>, y: Option<Qv>) -> Option<Qv> {
    match (x, y) {
        (Some(p), Some(q)) => if q.n == 0 {
            None
        } else {
            norm(q_div(p, q))
        },
        _ => None,
    }
}

/// An exact rational number: numerator over a positive denominator, in
/// lowest terms as produced by reduction, with both parts in `i64`.
#[derive(Clone, Copy, Debug, PartialEq, Eq, Structural)]
pub struct Rat {
    num: i64,
    den: i64,
}

impl View for Rat {
    type V = Qv;

    closed spec fn view(&self) -> Qv {
        Qv { n: self.num as int, d: self.den as int }
    }
}

impl Rat {
    #[verifier::type_invariant]
    spec fn type_inv(self) -> bool {
        &&& 1 <= self.den
        &&& -i64::MAX <= self.num
    }

    /// The integer `v` as a rational. The one `i64` value whose negation
    /// does not fit is excluded so that negation stays total.
    pub fn from_i64(v: i64) -> (r: Rat)
        requires
            v != i64::MIN,
        ensures
            r@ == q_int(v as int),
    {
        Rat { num: v, den: 1 }
    }

    /// The rational `num / den`, reduced; `None` when `den` is zero or the
    /// reduced parts do not fit in `i64`.
    pub fn new(num: i64, den: i64) -> (r: Option<Rat>)
        ensures
            ov(r) == rat_new_spec(num as int, den as int),
    {
        if den == 0 {
            return None;
        }
        let n = num as i128;
        let d = den as i128;
        let (n, d): (i128, i128) = if d < 0 { (-n, -d) } else { (n, d) };
        if n < 0 {
            reduce(true, (-n) as u128, d as u128)
        } else {
            reduce(false, n as u128, d as u128)
        }
    }

    /// Exact negation.
    pub fn neg(self) -> (r: Rat)
        ensures
            r@ == q_neg(self@),
    {
        proof {
            use_type_invariant(&self);
        }
        Rat { num: -self.num, den: self.den }
    }

    /// Exact absolute value.
    pub fn abs(self) -> (r: Rat)
        ensures
            r@ == q_abs(self@),
    {
        proof {
            use_type_invariant(&self);
        }
        if self.num < 0 {
            Rat { num: -self.num, den: self.den }
        } else {
            self
        }
    }

    /// Checked exact sum.
    pub fn add(self, other: Rat) -> (r: Option<Rat>)
        ensures
            ov(r) == o_add(Some(self@), Some(other@)),
    {
        proof {
            use_type_invariant(&self);
            use_type_invariant(&other);
        }
        let n1 = self.num as i128;
        let d1 = self.den as i128;
        let n2 = other.num as i128;
        let d2 = other.den as i128;
        proof {
            lemma_cross_bounds(n1 as int, d1 as int, n2 as int, d2 as int);
        }
        let n: i128 = n1 * d2 + n2 * d1;
        let d: i128 = d1 * d2;
        if n < 0 {
            reduce(true, (-n) as u128, d as u128)
        } else {
            reduce(false, n as u128, d as u128)
        }
    }

    /// Checked exact difference.
    pub fn sub(self, other: Rat) -> (r: Option<Rat>)
        ensures
            ov(r) == o_sub(Some(self@), Some(other@)),
    {
        self.add(other.neg())
    }

    /// Checked exact product.
    pub fn mul(self, other: Rat) -> (r: Option<Rat>)
        ensures
            ov(r) == o_mul(Some(self@), Some(other@)),
    {
        proof {
            use_type_invariant(&self);
            use_type_invariant(&other);
        }
        let n1 = self.num as i128;
        let d1 = self.den as i128;
        let n2 = other.num as i128;
        let d2 = other.den as i128;
        proof {
            lemma_cross_bounds(n1 as int, d1 as int, n2 as int, d2 as int);
        }
        let n: i128 = n1 * n2;
        let d: i128 = d1 * d2;
        if n < 0 {
            reduce(true, (-n) as u128, d as u128)
        } else {
            reduce(false, n as u128, d as u128)
        }
    }

    /// Checked exact quotient; `None` when `other` is zero.
    pub fn div(self, other: Rat) -> (r: Option<Rat>)
        ensures
            ov(r) == o_div(Some(self@), Some(other@)),
    {
        proof {
            use_type_invariant(&self);
            use_type_invariant(&other);
        }
        if other.num == 0 {
            return None;
        }
        let n1 = self.num as i128;
        let d1 = self.den as i128;
        let n2 = other.num as i128;
        let d2 = other.den as i128;
        proof {
            lemma_cross_bounds(n1 as int, d1 as int, n2 as int, d2 as int);
        }
        let n: i128 = n1 * d2;
        let d: i128 = d1 * n2;
        proof {
            assert((n2 > 0 ==> d1 * n2 >= 1) && (n2 < 0 ==> d1 * n2 <= -1)) by (nonlinear_arith)
                requires
                    d1 >= 1,
            ;
            assert((n1 as int) * (-(d2 as int)) == -((n1 as int) * (d2 as int)) && (d1 as int) * (
            -(n2 as int)) == -((d1 as int) * (n2 as int))) by (nonlinear_arith);
        }
        let (n, d): (i128, i128) = if d < 0 { (-n, -d) } else { (n, d) };
        if n < 0 {
            reduce(true, (-n) as u128, d as u128)
        } else {
            reduce(false, n as u128, d as u128)
        }
    }

    /// Exact strict comparison.
    pub fn lt(self, other: Rat) -> (r: bool)
        ensures
            r == q_lt(self@, other@),
    {
        proof {
            use_type_invariant(&self);
            use_type_invariant(&other);
            lemma_cross_bounds(self.num as int, self.den as int, other.num as int,
                other.den as int);
        }
        (self.num as i128) * (other.den as i128) < (other.num as i128) * (self.den as i128)
    }

    /// Exact non-strict comparison.
    pub fn le(self, other: Rat) -> (r: bool)
        ensures
            r == q_le(self@, other@),
    {
        proof {
            use_type_invariant(&self);
            use_type_invariant(&other);
            lemma_cross_bounds(self.num as int, self.den as int, other.num as int,
                other.den as int);
        }
        (self.num as i128) * (other.den as i128) <= (other.num as i128) * (self.den as i128)
    }

    /// Exact value equality (the carried fraction is in lowest terms, but
    /// equality is stated by cross-multiplication regardless).
    pub fn eq_val(self, other: Rat) -> (r: bool)
        ensures
            r == q_eq(self@, other@),
    {
        proof {
            use_type_invariant(&self);
            use_type_invariant(&other);
            lemma_cross_bounds(self.num as int, self.den as int, other.num as int,
                other.den as int);
        }
        (self.num as i128) * (other.den as i128) == (other.num as i128) * (self.den as i128)
    }

    /// The reduced numerator.
    pub fn numerator(self) -> (r: i64)
        ensures
            r as int == self@.n,
    {
        self.num
    }

    /// The reduced denominator; always positive.
    pub fn denominator(self) -> (r: i64)
        ensures
            r as int == self@.d,
            r >= 1,
    {
        proof {
            use_type_invariant(&self);
        }
        self.den
    }
}

/// Surfaces that every reachable rational is well-formed and bounded, for
/// callers outside this module that need the fact in a proof.
pub fn rat_wf_facts(r: &Rat) -> (u: ())
    ensures
        qv_wf(r@),
        qv_bounded(r@),
{
    proof {
        use_type_invariant(r);
    }
}

/// Rationals with the same view are the same value: the carried numerator
/// and denominator are exactly the view's parts.
pub proof fn lemma_rat_view_injective(r1: Rat, r2: Rat)
    requires
        r1@ == r2@,
    ensures
        r1 == r2,
{
}

/// As `lemma_rat_view_injective`, lifted to optional results.
pub proof fn lemma_ov_injective(r1: Option<Rat>, r2: Option<Rat>)
    requires
        ov(r1) == ov(r2),
    ensures
        r1 == r2,
{
    match (r1, r2) {
        (Some(v1), Some(v2)) => {
            lemma_rat_view_injective(v1, v2);
        },
        _ => {},
    }
}

/// What `Rat::new` returns: the reduced fraction with the sign moved to the
/// numerator, or `None` for a zero denominator.
pub open spec fn rat_new_spec(num: int, den: int) -> Option<Qv> {
    if den == 0 {
        None
    } else if den > 0 {
        norm(Qv { n: num, d: den })
    } else {
        norm(Qv { n: -num, d: -den })
    }
}

/// Products of `i64`-bounded factors stay far inside `i128`.
proof fn lemma_cross_bounds(n1: int, d1: int, n2: int, d2: int)
    requires
        -(i64::MAX as int) <= n1 <= i64::MAX as int,
        1 <= d1 <= i64::MAX as int,
        -(i64::MAX as int) <= n2 <= i64::MAX as int,
        1 <= d2 <= i64::MAX as int,
    ensures
        -(i64::MAX as int) * (i64::MAX as int) <= n1 * d2 <= (i64::MAX as int) * (i64::MAX as int),
        -(i64::MAX as int) * (i64::MAX as int) <= n2 * d1 <= (i64::MAX as int) * (i64::MAX as int),
        -(i64::MAX as int) * (i64::MAX as int) <= n1 * n2 <= (i64::MAX as int) * (i64::MAX as int),
        -(i64::MAX as int) * (i64::MAX as int) <= d1 * n2 <= (i64::MAX as int) * (i64::MAX as int),
        1 <= d1 * d2 <= (i64::MAX as int) * (i64::MAX as int),
        (i64::MAX as int) * (i64::MAX as int) < i128::MAX as int / 2,
{
    let m = i64::MAX as int;
    assert(-(m * m) <= n1 * d2 <= m * m && -(m * m) <= n2 * d1 <= m * m && -(m * m) <= n1 * n2
        <= m * m && -(m * m) <= d1 * n2 <= m * m && 1 <= d1 * d2 <= m * m) by (nonlinear_arith)
        requires
            -m <= n1 <= m,
            1 <= d1 <= m,
            -m <= n2 <= m,
            1 <= d2 <= m,
            m > 0,
    ;
}

/// The exact operations keep denominators positive.
pub proof fn lemma_q_ops_wf(p: Qv, q: Qv)
    requires
        qv_wf(p),
        qv_wf(q),
    ensures
        qv_wf(q_add(p, q)),
        qv_wf(q_sub(p, q)),
        qv_wf(q_mul(p, q)),
        qv_wf(q_neg(p)),
        qv_wf(q_abs(p)),
        q.n != 0 ==> qv_wf(q_div(p, q)),
{
    assert(p.d * q.d > 0) by (nonlinear_arith)
        requires
            p.d > 0,
            q.d > 0,
    ;
    if q.n > 0 {
        assert(p.d * q.n > 0) by (nonlinear_arith)
            requires
                p.d > 0,
                q.n > 0,
        ;
    }
    if q.n < 0 {
        assert(p.d * -q.n > 0) by (nonlinear_arith)
            requires
                p.d > 0,
                q.n < 0,
        ;
    }
}

/// Value equality is transitive across a well-formed middle term.
pub proof fn lemma_q_eq_trans(p: Qv, q: Qv, r: Qv)
    requires
        qv_wf(q),
        q_eq(p, q),
        q_eq(q, r),
    ensures
        q_eq(p, r),
{
    assert(p.n * r.d == r.n * p.d) by (nonlinear_arith)
        requires
            p.n * q.d == q.n * p.d,
            q.n * r.d == r.n * q.d,
            q.d > 0,
    ;
}

/// Sums of equal values are equal.
pub proof fn lemma_q_add_cong(p1: Qv, q1: Qv, p2: Qv, q2: Qv)
    requires
        qv_wf(p1),
        qv_wf(q1),
        qv_wf(p2),
        qv_wf(q2),
        q_eq(p1, p2),
        q_eq(q1, q2),
    ensures
        q_eq(q_add(p1, q1), q_add(p2, q2)),
{
    assert(p1.n * q1.d * (p2.d * q2.d) == p2.n * q2.d * (p1.d * q1.d)) by (nonlinear_arith)
        requires
            p1.n * p2.d == p2.n * p1.d,
    ;
    assert(q1.n * p1.d * (p2.d * q2.d) == q2.n * p2.d * (p1.d * q1.d)) by (nonlinear_arith)
        requires
            q1.n * q2.d == q2.n * q1.d,
    ;
    assert((p1.n * q1.d + q1.n * p1.d) * (p2.d * q2.d) == (p2.n * q2.d + q2.n * p2.d) * (p1.d
        * q1.d)) by (nonlinear_arith)
        requires
            p1.n * q1.d * (p2.d * q2.d) == p2.n * q2.d * (p1.d * q1.d),
            q1.n * p1.d * (p2.d * q2.d) == q2.n * p2.d * (p1.d * q1.d),
    ;
}

/// Products of equal values are equal.
pub proof fn lemma_q_mul_cong(p1: Qv, q1: Qv, p2: Qv, q2: Qv)
    requires
        qv_wf(p1),
        qv_wf(q1),
        qv_wf(p2),
        qv_wf(q2),
        q_eq(p1, p2),
        q_eq(q1, q2),
    ensures
        q_eq(q_mul(p1, q1), q_mul(p2, q2)),
{
    assert((p1.n * q1.n) * (p2.d * q2.d) == (p2.n * q2.n) * (p1.d * q1.d)) by (nonlinear_arith)
        requires
            p1.n * p2.d == p2.n * p1.d,
            q1.n * q2.d == q2.n * q1.d,
    ;
}

/// Negations of equal values are equal.
pub proof fn lemma_q_neg_cong(p1: Qv, p2: Qv)
    requires
        q_eq(p1, p2),
    ensures
        q_eq(q_neg(p1), q_neg(p2)),
{
    assert(-p1.n * p2.d == -p2.n * p1.d) by (nonlinear_arith)
        requires
            p1.n * p2.d == p2.n * p1.d,
    ;
}

/// Differences of equal values are equal.
pub proof fn lemma_q_sub_cong(p1: Qv, q1: Qv, p2: Qv, q2: Qv)
    requires
        qv_wf(p1),
        qv_wf(q1),
        qv_wf(p2),
        qv_wf(q2),
        q_eq(p1, p2),
        q_eq(q1, q2),
    ensures
        q_eq(q_sub(p1, q1), q_sub(p2, q2)),
{
    lemma_q_neg_cong(q1, q2);
    lemma_q_add_cong(p1, q_neg(q1), p2, q_neg(q2));
}

/// Absolute values of equal values are equal.
pub proof fn lemma_q_abs_cong(p1: Qv, p2: Qv)
    requires
        qv_wf(p1),
        qv_wf(p2),
        q_eq(p1, p2),
    ensures
        q_eq(q_abs(p1), q_abs(p2)),
{
    assert((p1.n >= 0 <==> p2.n >= 0) && (if p1.n >= 0 {
        p1.n
    } else {
        -p1.n
    }) * p2.d == (if p2.n >= 0 {
        p2.n
    } else {
        -p2.n
    }) * p1.d) by (nonlinear_arith)
        requires
            p1.n * p2.d == p2.n * p1.d,
            p1.d > 0,
            p2.d > 0,
    ;
}

/// Reciprocals of equal nonzero values are equal.
pub proof fn lemma_q_inv_cong(q1: Qv, q2: Qv)
    requires
        qv_wf(q1),
        qv_wf(q2),
        q1.n != 0,
        q2.n != 0,
        q_eq(q1, q2),
    ensures
        q_eq(q_inv(q1), q_inv(q2)),
{
    assert((q1.n > 0 <==> q2.n > 0) && q_eq(q_inv(q1), q_inv(q2))) by (nonlinear_arith)
        requires
            q1.n * q2.d == q2.n * q1.d,
            q1.d > 0,
            q2.d > 0,
            q1.n != 0,
            q2.n != 0,
            q_inv(q1) == (if q1.n >= 0 {
                Qv { n: q1.d, d: q1.n }
            } else {
                Qv { n: -q1.d, d: -q1.n }
            }),
            q_inv(q2) == (if q2.n >= 0 {
                Qv { n: q2.d, d: q2.n }
            } else {
                Qv { n: -q2.d, d: -q2.n }
            }),
            q_eq(q_inv(q1), q_inv(q2)) == (q_inv(q1).n * q_inv(q2).d == q_inv(q2).n * q_inv(
                q1,
            ).d),
    ;
}

/// Quotients of equal values by equal nonzero values are equal.
pub proof fn lemma_q_div_cong(p1: Qv, q1: Qv, p2: Qv, q2: Qv)
    requires
        qv_wf(p1),
        qv_wf(q1),
        qv_wf(p2),
        qv_wf(q2),
        q1.n != 0,
        q2.n != 0,
        q_eq(p1, p2),
        q_eq(q1, q2),
    ensures
        q_eq(q_div(p1, q1), q_div(p2, q2)),
{
    lemma_q_inv_cong(q1, q2);
    lemma_q_ops_wf(p1, q1);
    lemma_q_ops_wf(p2, q2);
    lemma_q_mul_cong(p1, q_inv(q1), p2, q_inv(q2));
}

/// Multiplication of exact rationals is associative on the nose.
pub proof fn lemma_q_mul_assoc(p: Qv, q: Qv, r: Qv)
    ensures
        q_mul(q_mul(p, q), r) == q_mul(p, q_mul(q, r)),
{
    assert(p.n * q.n * r.n == p.n * (q.n * r.n) && p.d * q.d * r.d == p.d * (q.d * r.d))
        by (nonlinear_arith);
}

/// Multiplication distributes over addition, up to value equality.
#[verifier::rlimit(50)]
pub proof fn lemma_q_mul_distrib(p: Qv, q: Qv, r: Qv)
    ensures
        q_eq(q_mul(q_add(p, q), r), q_add(q_mul(p, r), q_mul(q, r))),
{
    let u = p.n * q.d + q.n * p.d;
    assert((p.n * r.n) * (q.d * r.d) == (p.n * q.d) * (r.n * r.d)) by (nonlinear_arith);
    assert((q.n * r.n) * (p.d * r.d) == (q.n * p.d) * (r.n * r.d)) by (nonlinear_arith);
    assert((p.n * q.d) * (r.n * r.d) + (q.n * p.d) * (r.n * r.d) == u * (r.n * r.d))
        by (nonlinear_arith)
        requires
            u == p.n * q.d + q.n * p.d,
    ;
    assert((p.n * r.n) * (q.d * r.d) + (q.n * r.n) * (p.d * r.d) == u * (r.n * r.d));
    assert((u * r.n) * ((p.d * r.d) * (q.d * r.d)) == (u * (r.n * r.d)) * ((p.d * q.d) * r.d))
        by (nonlinear_arith);
    assert(((p.n * q.d + q.n * p.d) * r.n) * ((p.d * r.d) * (q.d * r.d)) == ((p.n * r.n) * (q.d
        * r.d) + (q.n * r.n) * (p.d * r.d)) * ((p.d * q.d) * r.d));
}

/// Halving one factor halves the product, on the nose.
pub proof fn lemma_q_halve_shift(s: Qv, t: Qv)
    ensures
        q_mul(q_div(s, q_int(2)), t) == q_div(q_mul(s, t), q_int(2)),
{
    assert(s.n * 1 * t.n == s.n * t.n * 1 && s.d * 2 * t.d == s.d * t.d * 2) by (nonlinear_arith);
}

/// Halving and doubling cancel, up to value equality.
pub proof fn lemma_q_double_halve(w: Qv)
    ensures
        q_eq(q_mul(q_div(w, q_int(2)), q_int(2)), w),
{
    assert((w.n * 1 * 2) * w.d == w.n * (w.d * 2 * 1)) by (nonlinear_arith);
}

/// Multiplication of exact rationals is commutative on the nose.
pub proof fn lemma_q_mul_comm(p: Qv, q: Qv)
    ensures
        q_mul(p, q) == q_mul(q, p),
{
    assert(p.n * q.n == q.n * p.n && p.d * q.d == q.d * p.d) by (nonlinear_arith);
}

/// Addition of exact rationals is commutative on the nose.
pub proof fn lemma_q_add_comm(p: Qv, q: Qv)
    ensures
        q_add(p, q) == q_add(q, p),
{
    assert(p.n * q.d + q.n * p.d == q.n * p.d + p.n * q.d && p.d * q.d == q.d * p.d)
        by (nonlinear_arith);
}

/// Addition of exact rationals is associative on the nose.
pub proof fn lemma_q_add_assoc(p: Qv, q: Qv, r: Qv)
    ensures
        q_add(q_add(p, q), r) == q_add(p, q_add(q, r)),
{
    assert((p.n * q.d + q.n * p.d) * r.d == (p.n * q.d) * r.d + (q.n * p.d) * r.d)
        by (nonlinear_arith);
    assert((p.n * q.d) * r.d == p.n * (q.d * r.d)) by (nonlinear_arith);
    assert((q.n * p.d) * r.d == (q.n * r.d) * p.d) by (nonlinear_arith);
    assert(r.n * (p.d * q.d) == (r.n * q.d) * p.d) by (nonlinear_arith);
    assert((q.n * r.d + r.n * q.d) * p.d == (q.n * r.d) * p.d + (r.n * q.d) * p.d)
        by (nonlinear_arith);
    assert((p.d * q.d) * r.d == p.d * (q.d * r.d)) by (nonlinear_arith);
}

/// Doubling and halving cancel, up to value equality.
pub proof fn lemma_q_halve_double(t: Qv)
    ensures
        q_eq(q_div(q_mul(q_int(2), t), q_int(2)), t),
{
    assert((2 * t.n) * 1 * t.d == t.n * (1 * t.d * 2)) by (nonlinear_arith);
}

/// The difference of squares, on the nose.
pub proof fn lemma_q_diff_squares(a: Qv, b: Qv)
    ensures
        q_mul(q_add(a, b), q_sub(b, a)) == q_sub(q_mul(b, b), q_mul(a, a)),
{
    let x = a.n * b.d;
    let y = b.n * a.d;
    assert((x + y) * (y + -x) == y * y + -(x * x)) by (nonlinear_arith);
    assert(y * y == b.n * b.n * (a.d * a.d)) by (nonlinear_arith)
        requires
            y == b.n * a.d,
    ;
    assert(x * x == a.n * a.n * (b.d * b.d)) by (nonlinear_arith)
        requires
            x == a.n * b.d,
    ;
    assert(-a.n * b.d == -x) by (nonlinear_arith)
        requires
            x == a.n * b.d,
    ;
    assert(-(a.n * a.n) * (b.d * b.d) == -(a.n * a.n * (b.d * b.d))) by (nonlinear_arith);
    assert((a.n * b.d + b.n * a.d) * (b.n * a.d + -a.n * b.d) == b.n * b.n * (a.d * a.d) + -(a.n
        * a.n) * (b.d * b.d));
    assert(a.d * b.d * (b.d * a.d) == b.d * b.d * (a.d * a.d)) by (nonlinear_arith);
}

/// Zero is neutral for addition, on the nose.
pub proof fn lemma_q_add_zero(t: Qv)
    ensures
        q_add(q_int(0), t) == t,
{
    assert(0 * t.d + t.n * 1 == t.n) by (nonlinear_arith);
}

/// Multiplying by zero gives a zero value.
pub proof fn lemma_q_mul_zero(h: Qv)
    ensures
        q_eq(q_mul(h, q_int(0)), q_int(0)),
{
    assert(h.n * 0 * 1 == 0 * (h.d * 1)) by (nonlinear_arith);
}

/// A checked operation that succeeds returns a bounded value equal to the
/// exact result, also when the operands are replaced by equal values.
pub proof fn lemma_o_add_exact(p1: Qv, q1: Qv, p2: Qv, q2: Qv)
    requires
        qv_wf(p1),
        qv_wf(q1),
        qv_wf(p2),
        qv_wf(q2),
        q_eq(p1, p2),
        q_eq(q1, q2),
    ensures
        o_add(Some(p1), Some(q1)) matches Some(v) ==> qv_wf(v) && qv_bounded(v) && q_eq(
            v,
            q_add(p2, q2),
        ),
{
    lemma_q_ops_wf(p1, q1);
    lemma_norm_props(q_add(p1, q1));
    if o_add(Some(p1), Some(q1)) is Some {
        lemma_q_add_cong(p1, q1, p2, q2);
        lemma_q_eq_trans(o_add(Some(p1), Some(q1))->Some_0, q_add(p1, q1), q_add(p2, q2));
    }
}

/// As `lemma_o_add_exact`, for differences.
pub proof fn lemma_o_sub_exact(p1: Qv, q1: Qv, p2: Qv, q2: Qv)
    requires
        qv_wf(p1),
        qv_wf(q1),
        qv_wf(p2),
        qv_wf(q2),
        q_eq(p1, p2),
        q_eq(q1, q2),
    ensures
        o_sub(Some(p1), Some(q1)) matches Some(v) ==> qv_wf(v) && qv_bounded(v) && q_eq(
            v,
            q_sub(p2, q2),
        ),
{
    lemma_q_ops_wf(p1, q1);
    lemma_norm_props(q_sub(p1, q1));
    if o_sub(Some(p1), Some(q1)) is Some {
        lemma_q_sub_cong(p1, q1, p2, q2);
        lemma_q_eq_trans(o_sub(Some(p1), Some(q1))->Some_0, q_sub(p1, q1), q_sub(p2, q2));
    }
}

/// As `lemma_o_add_exact`, for products.
pub proof fn lemma_o_mul_exact(p1: Qv, q1: Qv, p2: Qv, q2: Qv)
    requires
        qv_wf(p1),
        qv_wf(q1),
        qv_wf(p2),
        qv_wf(q2),
        q_eq(p1, p2),
        q_eq(q1, q2),
    ensures
        o_mul(Some(p1), Some(q1)) matches Some(v) ==> qv_wf(v) && qv_bounded(v) && q_eq(
            v,
            q_mul(p2, q2),
        ),
{
    lemma_q_ops_wf(p1, q1);
    lemma_norm_props(q_mul(p1, q1));
    if o_mul(Some(p1), Some(q1)) is Some {
        lemma_q_mul_cong(p1, q1, p2, q2);
        lemma_q_eq_trans(o_mul(Some(p1), Some(q1))->Some_0, q_mul(p1, q1), q_mul(p2, q2));
    }
}

/// As `lemma_o_add_exact`, for quotients by a nonzero value.
pub proof fn lemma_o_div_exact(p1: Qv, q1: Qv, p2: Qv, q2: Qv)
    requires
        qv_wf(p1),
        qv_wf(q1),
        qv_wf(p2),
        qv_wf(q2),
        q2.n != 0,
        q_eq(p1, p2),
        q_eq(q1, q2),
    ensures
        o_div(Some(p1), Some(q1)) matches Some(v) ==> qv_wf(v) && qv_bounded(v) && q_eq(
            v,
            q_div(p2, q2),
        ),
{
    assert(q1.n != 0) by (nonlinear_arith)
        requires
            q1.n * q2.d == q2.n * q1.d,
            q1.d > 0,
            q2.d > 0,
            q2.n != 0,
    ;
    lemma_q_ops_wf(p1, q1);
    lemma_norm_props(q_div(p1, q1));
    if o_div(Some(p1), Some(q1)) is Some {
        lemma_q_div_cong(p1, q1, p2, q2);
        lemma_q_eq_trans(o_div(Some(p1), Some(q1))->Some_0, q_div(p1, q1), q_div(p2, q2));
    }
}

/// Euclid's algorithm, executably.
fn gcd_u128(a: u128, b: u128) -> (g: u128)
    ensures
        g as nat == gcd_nat(a as nat, b as nat),
{
    let mut x = a;
    let mut y = b;
    while y != 0
        invariant
            gcd_nat(x as nat, y as nat) == gcd_nat(a as nat, b as nat),
        decreases y,
    {
        let r = x % y;
        x = y;
        y = r;
    }
    x
}

/// Reduce the fraction `(sign) m / d` to lowest terms and narrow it to
/// `i64`, following `norm`.
fn reduce(negative: bool, m: u128, d: u128) -> (r: Option<Rat>)
    requires
        1 <= d,
    ensures
        ov(r) == norm(Qv { n: if negative { -(m as int) } else { m as int }, d: d as int }),
{
    let ghost q = Qv { n: if negative { -(m as int) } else { m as int }, d: d as int };
    let g = gcd_u128(m, d);
    proof {
        lemma_gcd_divides(m as nat, d as nat);
        let km = choose|k: int| m as int == #[trigger] ((g as int) * k);
        let kd = choose|k: int| d as int == #[trigger] ((g as int) * k);
        lemma_div_multiples_vanish(km, g as int);
        lemma_div_multiples_vanish(kd, g as int);
        assert(km >= 0 && kd >= 1) by (nonlinear_arith)
            requires
                g >= 1,
                m as int == (g as int) * km,
                d as int == (g as int) * kd,
                m as int >= 0,
                d as int >= 1,
        ;
    }
    let rm = m / g;
    let rd = d / g;
    if rm <= i64::MAX as u128 && rd <= i64::MAX as u128 {
        let num: i64 = if negative {
            -(rm as i64)
        } else {
            rm as i64
        };
        Some(Rat { num, den: rd as i64 })
    } else {
        None
    }
}

} // verus!
