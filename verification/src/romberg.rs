//! The Romberg extrapolator.
//!
//! Romberg integration drives the trapezoidal doubling exactly as the
//! adaptive trapezoidal rule does, but extrapolates: each refinement level
//! appends the new raw trapezoidal estimate to a row and then, for each
//! order `m` from one up, adds `R[m] = R[m-1] + (R[m-1] - prev[m-1]) /
//! (4^m - 1)`, cancelling one further error term per order. The run stops
//! when the difference between the most extrapolated entries of the last two
//! rows, divided by the same `4^m - 1`, falls below the tolerance, or at the
//! level cap; it returns the most extrapolated entry of the final row.

use vstd::prelude::*;
use crate::rational::{
    Qv, Rat, o_add, o_sub, o_mul, o_div, q_int, q_abs, q_lt, seq_view,
};
use crate::integrand::Integrand;
use crate::sums::{c_stride2_sum, stride2_sum};
use crate::trapezoid::{step_width, c_trap_with_h, _integrate_trapezoidal_rule};
use crate::outcome::{Outcome, OutcomeV, ovo};

verus! {

/// The `k`-th power of four.
pub open spec fn pow4(k: int) -> int
    decreases (if k <= 0 { 0 } else { k }),
{
    if k <= 0 {
        1
    } else {
        4 * pow4(k - 1)
    }
}

/// The `k`-th power of two.
pub open spec fn pow2(k: int) -> int
    decreases (if k <= 0 { 0 } else { k }),
{
    if k <= 0 {
        1
    } else {
        2 * pow2(k - 1)
    }
}

proof fn lemma_pow4_pos(k: int)
    ensures
        pow4(k) >= 1,
    decreases (if k <= 0 { 0 } else { k }),
{
    if k > 0 {
        lemma_pow4_pos(k - 1);
    }
}

proof fn lemma_pow4_mono(j: int, k: int)
    requires
        j <= k,
    ensures
        pow4(j) <= pow4(k),
    decreases (if k <= 0 { 0 } else { k }),
{
    if j < k && k > 0 {
        lemma_pow4_mono(j, k - 1);
        lemma_pow4_pos(k - 1);
    }
}

proof fn lemma_pow2_pos(k: int)
    ensures
        pow2(k) >= 1,
    decreases (if k <= 0 { 0 } else { k }),
{
    if k > 0 {
        lemma_pow2_pos(k - 1);
    }
}

proof fn lemma_pow2_mono(j: int, k: int)
    requires
        j <= k,
    ensures
        pow2(j) <= pow2(k),
    decreases (if k <= 0 { 0 } else { k }),
{
    if j < k && k > 0 {
        lemma_pow2_mono(j, k - 1);
        lemma_pow2_pos(k - 1);
    }
}

/// Checked extrapolation of one Romberg row: starting from `cur` (the new
/// raw estimate, then the already extrapolated orders below `k`), append
/// `cur[k-1] + (cur[k-1] - prev[k-1]) / (4^k - 1)` for `k` up to the length
/// of the previous row.
pub open spec fn c_romberg_row(prev: Seq<Qv>, cur: Seq<Qv>, k: int) -> Option<Seq<Qv>>
    decreases prev.len() + 1 - k,
{
    if k > prev.len() {
        Some(cur)
    } else {
        match o_add(
            Some(cur[k - 1]),
            o_div(o_sub(Some(cur[k - 1]), Some(prev[k - 1])), Some(q_int(pow4(k) - 1))),
        ) {
            None => None,
            Some(v) => c_romberg_row(prev, cur.push(v), k + 1),
        }
    }
}

/// One doubling-and-extrapolation step after another: the checked state
/// machine of Romberg integration. `row` is the last completed row; its
/// first entry is the last raw trapezoidal estimate.
pub open spec fn c_romberg_levels<F: Integrand>(
    f: &F,
    a: Qv,
    eps: Qv,
    n: int,
    h: Qv,
    row: Seq<Qv>,
    level: nat,
) -> Option<OutcomeV>
    decreases (if 1 <= n <= 0x20000000 { 0x20000001 - n } else { 0 }),
{
    if n < 1 || row.len() == 0 {
        None
    } else if n > 0x10000000 {
        Some(OutcomeV::CapReached { value: row.last(), level })
    } else {
        match o_div(Some(h), Some(q_int(2))) {
            None => None,
            Some(h2) => match c_stride2_sum(f, a, h2, 2 * n - 1, 1, Some(q_int(0))) {
                None => None,
                Some(s) => match o_add(
                    o_div(Some(row[0]), Some(q_int(2))),
                    o_mul(Some(h2), Some(s)),
                ) {
                    None => None,
                    Some(raw2) => match c_romberg_row(row, seq![raw2], 1) {
                        None => None,
                        Some(row2) => match o_div(
                            o_sub(
                                Some(row2[row2.len() - 2]),
                                Some(row[row2.len() - 2]),
                            ),
                            Some(q_int(pow4(row.len() as int) - 1)),
                        ) {
                            None => None,
                            Some(err) => if q_lt(q_abs(err), eps) {
                                Some(
                                    OutcomeV::Converged {
                                        value: row2.last(),
                                        level: (level + 1) as nat,
                                    },
                                )
                            } else {
                                c_romberg_levels(f, a, eps, 2 * n, h2, row2, (level + 1) as nat)
                            },
                        },
                    },
                },
            },
        }
    }
}

/// `4^k - 1`, the extrapolation divisor for order `k`.
fn pow4_minus_1(k: usize) -> (r: i64)
    requires
        k <= 30,
    ensures
        r as int == pow4(k as int) - 1,
{
    let mut d: i64 = 0;
    let mut j: usize = 0;
    while j < k
        invariant
            j <= k <= 30,
            d as int == pow4(j as int) - 1,
        decreases k - j,
    {
        proof {
            lemma_pow4_pos(j as int);
            lemma_pow4_mono(j as int + 1, 30);
            assert(pow4(30) == 0x1000000000000000) by {
                reveal_with_fuel(pow4, 31);
            }
        }
        d = (d + 1) * 4 - 1;
        j = j + 1;
    }
    d
}

/// Extrapolate one Romberg row from the previous row and the new raw
/// trapezoidal estimate.
fn build_row(prev: &Vec<Rat>, raw2: Rat) -> (r: Option<Vec<Rat>>)
    requires
        1 <= prev.len() <= 30,
    ensures
        (match r {
            Some(v) => Some(seq_view(v@)),
            None => None::<Seq<Qv>>,
        }) == c_romberg_row(seq_view(prev@), seq![raw2@], 1),
        r matches Some(v) ==> v@.len() == prev@.len() + 1,
{
    let mut rs2: Vec<Rat> = Vec::new();
    rs2.push(raw2);
    proof {
        assert(seq_view(rs2@) =~= seq![raw2@]);
    }
    let mut divisor: i64 = 0;
    let mut k: usize = 1;
    while k <= prev.len()
        invariant
            1 <= k <= prev.len() + 1,
            prev.len() <= 30,
            rs2.len() == k,
            divisor as int == pow4(k as int - 1) - 1,
            c_romberg_row(seq_view(prev@), seq_view(rs2@), k as int) == c_romberg_row(
                seq_view(prev@),
                seq![raw2@],
                1,
            ),
        decreases prev.len() + 1 - k,
    {
        proof {
            lemma_pow4_pos(k as int - 1);
            lemma_pow4_mono(k as int, 30);
            assert(pow4(30) == 0x1000000000000000) by {
                reveal_with_fuel(pow4, 31);
            }
        }
        divisor = (divisor + 1) * 4 - 1;
        let prev_last = rs2[k - 1];
        let diff = match prev_last.sub(prev[k - 1]) {
            Some(v) => v,
            None => { return None },
        };
        let q = match diff.div(Rat::from_i64(divisor)) {
            Some(v) => v,
            None => { return None },
        };
        let rkj = match prev_last.add(q) {
            Some(v) => v,
            None => { return None },
        };
        let ghost rs2_old = rs2@;
        rs2.push(rkj);
        proof {
            assert(seq_view(rs2@) =~= seq_view(rs2_old).push(rkj@));
            assert(seq_view(rs2_old)[k as int - 1] == prev_last@);
            assert(seq_view(prev@)[k as int - 1] == prev@[k as int - 1]@);
        }
        k = k + 1;
    }
    Some(rs2)
}

fn romberg_levels<F: Integrand>(
    f: &F,
    a: Rat,
    eps: Rat,
    n: usize,
    h: Rat,
    rs1: Vec<Rat>,
    level: usize,
) -> (r: Option<Outcome>)
    requires
        1 <= n <= 0x20000000,
        level < n,
        1 <= rs1.len(),
        pow2(rs1.len() as int - 1) <= n as int,
    ensures
        ovo(r) == c_romberg_levels(f, a@, eps@, n as int, h@, seq_view(rs1@), level as nat),
    decreases 0x20000001 - n,
{
    if n > 0x10000000 {
        let v = rs1[rs1.len() - 1];
        return Some(Outcome::CapReached { value: v, level });
    }
    proof {
        if rs1.len() > 30 {
            lemma_pow2_mono(30, rs1.len() as int - 1);
            assert(pow2(30) == 0x40000000) by {
                reveal_with_fuel(pow2, 31);
            }
            assert(false);
        }
    }
    let two = Rat::from_i64(2);
    let h2 = match h.div(two) {
        Some(v) => v,
        None => { return None },
    };
    let s = match stride2_sum(f, a, h2, 1, 2 * n - 1) {
        Some(v) => v,
        None => { return None },
    };
    let p2 = match rs1[0].div(two) {
        Some(v) => v,
        None => { return None },
    };
    let m = match h2.mul(s) {
        Some(v) => v,
        None => { return None },
    };
    let raw2 = match p2.add(m) {
        Some(v) => v,
        None => { return None },
    };
    let rs2 = match build_row(&rs1, raw2) {
        Some(v) => v,
        None => { return None },
    };
    let e_new = rs2[rs2.len() - 2];
    let e_old = rs1[rs2.len() - 2];
    let dd = match e_new.sub(e_old) {
        Some(v) => v,
        None => { return None },
    };
    let divisor = pow4_minus_1(rs1.len());
    let err = match dd.div(Rat::from_i64(divisor)) {
        Some(v) => v,
        None => { return None },
    };
    if err.abs().lt(eps) {
        let v = rs2[rs2.len() - 1];
        Some(Outcome::Converged { value: v, level: level + 1 })
    } else {
        proof {
            lemma_pow2_pos(rs1.len() as int - 1);
        }
        romberg_levels(f, a, eps, 2 * n, h2, rs2, level + 1)
    }
}

/// What adaptive Romberg integration returns: the extrapolating recursion
/// run from the one-slice trapezoidal estimate.
pub open spec fn c_romberg_adaptive<F: Integrand>(f: &F, a: Qv, b: Qv, eps: Qv) -> Option<
    OutcomeV,
> {
    match step_width(a, b, 1) {
        None => None,
        Some(h0) => match c_trap_with_h(f, a, b, 1, h0) {
            None => None,
            Some(e0) => c_romberg_levels(f, a, eps, 1, h0, seq![e0], 0),
        },
    }
}

/// Adaptive Romberg integration over `[a, b]`: trapezoidal doubling from a
/// single slice with Richardson extrapolation across refinement levels.
/// Stops once the convergence test of the two most extrapolated rows is
/// strictly below `epsilon` in absolute value, or at the level cap, and
/// returns the most extrapolated entry of the final row. `None` when the
/// exact arithmetic leaves `i64` range.
pub fn integrate_romberg_adaptive<F: Integrand>(a: Rat, b: Rat, epsilon: Rat, f: &F) -> (r: Option<
    Outcome,
>)
    ensures
        ovo(r) == c_romberg_adaptive(f, a@, b@, epsilon@),
{
    let w = match b.sub(a) {
        Some(v) => v,
        None => { return None },
    };
    let h0 = match w.div(Rat::from_i64(1)) {
        Some(v) => v,
        None => { return None },
    };
    let e0 = match _integrate_trapezoidal_rule(a, b, 1, h0, f) {
        Some(v) => v,
        None => { return None },
    };
    let mut rs1: Vec<Rat> = Vec::new();
    rs1.push(e0);
    proof {
        assert(seq_view(rs1@) =~= seq![e0@]);
    }
    romberg_levels(f, a, epsilon, 1, h0, rs1, 0)
}

} // verus!
