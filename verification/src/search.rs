//! The configuration search: normalized damage gain, nth-root efficiency of
//! a candidate upgrade per unit of cost, and the greedy best-next-step
//! selection iterated until every skill is maxed.
//!
//! Damage gain compounds multiplicatively across upgrades, so the efficiency
//! of a candidate is the cost-th root of its gain ratio, evaluated in fixed
//! point: the largest `y` whose iterated floor product stays within the
//! ratio.

use vstd::prelude::*;
use crate::types::{
    cost_view, goal_view, total_view, valid_view, CostTables, HexacoreSkill, HexacoreSpec,
    MAX_LEVEL, SCALE,
};
use crate::calcs::{simulate_spec, SimContext};
use crate::calcs::simulate_hexacores;
use crate::fixed::{fdiv, lemma_div_bound, lemma_mul_mono};
use vstd::arithmetic::div_mod::{
    lemma_div_is_ordered, lemma_div_multiples_vanish, lemma_div_pos_is_pos,
};
use vstd::arithmetic::mul::{lemma_mul_is_commutative, lemma_mul_nonnegative};

verus! {

/// Largest normalized gain the efficiency computation accepts.
pub const FD_LIMIT: i64 = 1_000_000_000_000_000;

/// Largest gain ratio handed to the root computation.
pub const RATIO_LIMIT: u64 = 1_000_000_000_000;

/// Fixed-point power by square-and-multiply, flooring at the scale after
/// every product. `powf(y, n)` is `(y / SCALE) ^ n`, with one as `SCALE`.
pub open spec fn powf(y: int, n: nat) -> int
    decreases n,
{
    if n == 0 {
        SCALE as int
    } else if n % 2 == 0 {
        let h = powf(y, n / 2);
        fdiv(h * h, SCALE as int)
    } else {
        fdiv(powf(y, (n - 1) as nat) * y, SCALE as int)
    }
}

pub proof fn lemma_powf_nonneg(y: int, n: nat)
    requires
        0 <= y,
    ensures
        0 <= powf(y, n),
    decreases n,
{
    if n == 0 {
    } else if n % 2 == 0 {
        lemma_powf_nonneg(y, n / 2);
        let h = powf(y, n / 2);
        lemma_mul_nonnegative(h, h);
        lemma_div_pos_is_pos(h * h, SCALE as int);
    } else {
        lemma_powf_nonneg(y, (n - 1) as nat);
        let h = powf(y, (n - 1) as nat);
        lemma_mul_nonnegative(h, y);
        lemma_div_pos_is_pos(h * y, SCALE as int);
    }
}

/// For a base of at least one, every power is at least one, and at least the
/// base itself once the exponent is positive.
pub proof fn lemma_powf_ge(y: int, n: nat)
    requires
        y >= SCALE,
    ensures
        powf(y, n) >= SCALE,
        n >= 1 ==> powf(y, n) >= y,
    decreases n,
{
    if n == 0 {
    } else if n % 2 == 0 {
        lemma_powf_ge(y, n / 2);
        let h = powf(y, n / 2);
        assert(h >= y);
        assert(h * h >= h * SCALE) by (nonlinear_arith)
            requires h >= SCALE, SCALE > 0;
        lemma_div_is_ordered(h * SCALE, h * h, SCALE as int);
        assert(fdiv(h * SCALE, SCALE as int) == h) by {
            lemma_mul_is_commutative(h, SCALE as int);
            lemma_div_multiples_vanish(h, SCALE as int);
        }
    } else {
        lemma_powf_ge(y, (n - 1) as nat);
        let h = powf(y, (n - 1) as nat);
        assert(h * y >= SCALE * y) by (nonlinear_arith)
            requires h >= SCALE, y > 0;
        lemma_div_is_ordered(SCALE * y, h * y, SCALE as int);
        lemma_div_multiples_vanish(y, SCALE as int);
    }
}

/// For a base of at most one, every power stays at most one.
pub proof fn lemma_powf_le_scale(y: int, n: nat)
    requires
        0 <= y <= SCALE,
    ensures
        0 <= powf(y, n) <= SCALE,
    decreases n,
{
    if n == 0 {
    } else if n % 2 == 0 {
        lemma_powf_le_scale(y, n / 2);
        let h = powf(y, n / 2);
        lemma_mul_mono(h, h, SCALE as int, SCALE as int);
        lemma_div_bound(h * h, SCALE as int, SCALE as int);
    } else {
        lemma_powf_le_scale(y, (n - 1) as nat);
        let h = powf(y, (n - 1) as nat);
        lemma_mul_mono(h, y, SCALE as int, SCALE as int);
        lemma_div_bound(h * y, SCALE as int, SCALE as int);
    }
}

/// Powers are monotone in the base.
pub proof fn lemma_powf_mono(y1: int, y2: int, n: nat)
    requires
        0 <= y1 <= y2,
    ensures
        powf(y1, n) <= powf(y2, n),
    decreases n,
{
    if n == 0 {
    } else if n % 2 == 0 {
        lemma_powf_mono(y1, y2, n / 2);
        lemma_powf_nonneg(y1, n / 2);
        let h1 = powf(y1, n / 2);
        let h2 = powf(y2, n / 2);
        lemma_mul_mono(h1, h1, h2, h2);
        lemma_div_is_ordered(h1 * h1, h2 * h2, SCALE as int);
    } else {
        lemma_powf_mono(y1, y2, (n - 1) as nat);
        lemma_powf_nonneg(y1, (n - 1) as nat);
        let h1 = powf(y1, (n - 1) as nat);
        let h2 = powf(y2, (n - 1) as nat);
        lemma_mul_mono(h1, y1, h2, y2);
        lemma_div_is_ordered(h1 * y1, h2 * y2, SCALE as int);
    }
}

/// A zero base has zero powers once the exponent is positive.
pub proof fn lemma_powf_zero(n: nat)
    requires
        n >= 1,
    ensures
        powf(0, n) == 0,
    decreases n,
{
    if n % 2 == 0 {
        lemma_powf_zero(n / 2);
    } else if n > 1 {
        lemma_powf_zero((n - 1) as nat);
    }
}

/// Exact power of a base at most one; the value never leaves `[0, SCALE]`.
fn pow_small(y: u64, n: u32) -> (v: u64)
    requires
        y <= SCALE,
    ensures
        v == powf(y as int, n as nat),
        v <= SCALE,
    decreases n,
{
    if n == 0 {
        SCALE
    } else if n % 2 == 0 {
        let h = pow_small(y, n / 2);
        proof {
            lemma_mul_mono(h as int, h as int, SCALE as int, SCALE as int);
            lemma_div_bound(h as int * h, SCALE as int, SCALE as int);
        }
        ((h as u128) * (h as u128) / (SCALE as u128)) as u64
    } else {
        let h = pow_small(y, n - 1);
        proof {
            lemma_mul_mono(h as int, y as int, SCALE as int, SCALE as int);
            lemma_div_bound(h as int * y, SCALE as int, SCALE as int);
        }
        ((h as u128) * (y as u128) / (SCALE as u128)) as u64
    }
}

/// Decides whether `powf(y, n) <= t` without ever materializing a power that
/// exceeds `t`: above the scale the powers only grow, so an intermediate
/// excess settles the comparison.
fn pow_le(y: u64, n: u32, t: u64) -> (r: Option<u64>)
    requires
        t <= RATIO_LIMIT,
        y <= 2 * RATIO_LIMIT,
    ensures
        match r {
            Some(v) => v == powf(y as int, n as nat) && v <= t,
            None => powf(y as int, n as nat) > t,
        },
    decreases n,
{
    if y <= SCALE {
        let v = pow_small(y, n);
        if v <= t {
            Some(v)
        } else {
            None
        }
    } else if n == 0 {
        if SCALE <= t {
            Some(SCALE)
        } else {
            None
        }
    } else if n % 2 == 0 {
        match pow_le(y, n / 2, t) {
            None => {
                proof {
                    lemma_powf_ge(y as int, (n / 2) as nat);
                    let h = powf(y as int, (n / 2) as nat);
                    assert(h * h >= h * SCALE) by (nonlinear_arith)
                        requires h >= SCALE, SCALE > 0;
                    lemma_div_is_ordered(h * SCALE, h * h, SCALE as int);
                    lemma_mul_is_commutative(h, SCALE as int);
                    lemma_div_multiples_vanish(h, SCALE as int);
                }
                None
            },
            Some(h) => {
                proof {
                    lemma_mul_mono(h as int, h as int, RATIO_LIMIT as int, RATIO_LIMIT as int);
                    lemma_div_bound(h as int * h, SCALE as int, 0x7fff_ffff_ffff_ffff);
                }
                let v = ((h as u128) * (h as u128) / (SCALE as u128)) as u64;
                if v <= t {
                    Some(v)
                } else {
                    None
                }
            },
        }
    } else {
        match pow_le(y, n - 1, t) {
            None => {
                proof {
                    lemma_powf_ge(y as int, (n - 1) as nat);
                    let h = powf(y as int, (n - 1) as nat);
                    assert(h * y >= h * SCALE) by (nonlinear_arith)
                        requires h >= 0, y >= SCALE;
                    assert(h >= SCALE);
                    lemma_div_is_ordered(h * SCALE, h * y, SCALE as int);
                    lemma_mul_is_commutative(h, SCALE as int);
                    lemma_div_multiples_vanish(h, SCALE as int);
                }
                None
            },
            Some(h) => {
                proof {
                    lemma_mul_mono(h as int, y as int, RATIO_LIMIT as int, 2 * (RATIO_LIMIT
                        as int));
                    lemma_div_bound(h as int * y, SCALE as int, 0x7fff_ffff_ffff_ffff);
                }
                let v = ((h as u128) * (y as u128) / (SCALE as u128)) as u64;
                if v <= t {
                    Some(v)
                } else {
                    None
                }
            },
        }
    }
}

/// Upper end of the root search: the root never exceeds the larger of one
/// and the ratio itself.
pub open spec fn root_hi(t: int) -> nat {
    if t < SCALE {
        SCALE as nat
    } else {
        t as nat
    }
}

/// The largest base not above `m` whose `n`-th fixed-point power stays
/// within `t`: the definition of the floored `n`-th root.
pub open spec fn root_below(t: int, n: nat, m: nat) -> int
    decreases m,
{
    if m == 0 {
        0
    } else if powf(m as int, n) <= t {
        m as int
    } else {
        root_below(t, n, (m - 1) as nat)
    }
}

/// Any base whose power fits, while the next base's power does not, is the
/// floored root.
pub proof fn lemma_root_below_agrees(t: int, n: nat, m: nat, y: int)
    requires
        0 <= y <= m,
        powf(y, n) <= t,
        powf(y + 1, n) > t,
    ensures
        root_below(t, n, m) == y,
    decreases m,
{
    if m > y {
        lemma_powf_mono(y + 1, m as int, n);
        lemma_root_below_agrees(t, n, (m - 1) as nat, y);
    }
}

/// Floored fixed-point `n`-th root of `t`, by binary search over the bases.
pub fn nth_root(t: u64, n: u32) -> (y: u64)
    requires
        1 <= n,
        t <= RATIO_LIMIT,
    ensures
        y == root_below(t as int, n as nat, root_hi(t as int)),
        powf(y as int, n as nat) <= t,
        powf(y as int + 1, n as nat) > t,
        y <= RATIO_LIMIT,
{
    let hi0: u64 = if t < SCALE {
        SCALE
    } else {
        t
    };
    let mut lo: u64 = 0;
    let mut hi: u64 = hi0 + 1;
    proof {
        lemma_powf_zero(n as nat);
        lemma_powf_ge(hi as int, n as nat);
    }
    while lo + 1 < hi
        invariant
            1 <= n,
            t <= RATIO_LIMIT,
            lo < hi <= hi0 + 1,
            hi0 == root_hi(t as int),
            powf(lo as int, n as nat) <= t,
            powf(hi as int, n as nat) > t,
        decreases hi - lo,
    {
        let mid = lo + (hi - lo) / 2;
        match pow_le(mid, n, t) {
            Some(_) => {
                lo = mid;
            },
            None => {
                hi = mid;
            },
        }
    }
    proof {
        assert(hi == lo + 1);
        lemma_root_below_agrees(t as int, n as nat, root_hi(t as int), lo as int);
    }
    lo
}

/// The configuration the gain is normalized against: everything unleveled.
pub open spec fn zero_view() -> Seq<u8> {
    seq![0u8, 0u8, 0u8, 0u8, 0u8, 0u8, 0u8]
}

/// Normalized damage gain of a configuration: its simulated gain re-based
/// from the reference configuration to the fully-unleveled one. `None` when
/// the baseline leaves no damage at all or the value leaves the supported
/// fixed-point range.
pub open spec fn fd_percent_spec(ctx: SimContext, v: Seq<u8>) -> Option<int> {
    let s0 = simulate_spec(ctx, zero_view());
    let sc = simulate_spec(ctx, v);
    if s0 + SCALE < 1 {
        None
    } else {
        let val = fdiv((SCALE + sc) * SCALE, SCALE + s0) - SCALE;
        if -(SCALE as int) <= val <= FD_LIMIT {
            Some(val)
        } else {
            None
        }
    }
}

pub fn fd_percent(ctx: &SimContext, cfg: &HexacoreSpec) -> (r: Option<i64>)
    requires
        ctx.wf(),
        cfg.in_range_spec(),
    ensures
        match r {
            Some(v) => fd_percent_spec(*ctx, cfg@) == Some(v as int),
            None => fd_percent_spec(*ctx, cfg@) is None,
        },
{
    let zero = HexacoreSpec::new([0u8, 0u8, 0u8, 0u8, 0u8, 0u8, 0u8]);
    proof {
        assert(zero@ =~= zero_view());
    }
    let s0 = simulate_hexacores(ctx, &zero);
    if s0 + (SCALE as i64) < 1 {
        return None;
    }
    let sc = simulate_hexacores(ctx, cfg);
    let a: i128 = (SCALE as i128) + (sc as i128);
    proof {
        assert(a * (SCALE as int) <= 106 * (SCALE as int) * SCALE && a * (SCALE as int) >= -49 * (
        SCALE as int) * SCALE) by (nonlinear_arith)
            requires
                -49 * (SCALE as int) <= a <= 106 * SCALE,
                SCALE == 1_000_000_000,
        ;
    }
    let num: i128 = a * (SCALE as i128);
    let den: i128 = (SCALE as i128) + (s0 as i128);
    proof {
        crate::fixed::lemma_fdiv_abs_le(num as int, den as int);
    }
    let val = crate::fixed::div_floor(num, den) - (SCALE as i128);
    if -(SCALE as i128) <= val && val <= FD_LIMIT as i128 {
        Some(val as i64)
    } else {
        None
    }
}

/// Efficiency of stepping from one configuration to a costlier one: the
/// damage gain is multiplicative, so the per-cost-unit efficiency is the
/// cost-difference-th root of the gain ratio, minus one. `None` when the
/// step adds no cost, when a gain lies outside the supported range, or when
/// the gain ratio overflows the root computation.
pub open spec fn fd_per_cost_spec(fd_new: int, fd_old: int, new_cost: int, old_cost: int) -> Option<
    int,
> {
    if new_cost <= old_cost {
        None
    } else if fd_old + SCALE < 1 || fd_new + SCALE < 0 {
        None
    } else {
        let t = fdiv((SCALE + fd_new) * SCALE, SCALE + fd_old);
        if t > RATIO_LIMIT {
            None
        } else {
            Some(root_below(t, (new_cost - old_cost) as nat, root_hi(t)) - SCALE)
        }
    }
}

pub fn fd_per_cost(fd_new: i64, fd_old: i64, new_cost: u32, old_cost: u32) -> (r: Option<i64>)
    requires
        -(SCALE as int) <= fd_new <= FD_LIMIT,
        -(SCALE as int) <= fd_old <= FD_LIMIT,
    ensures
        match r {
            Some(v) => fd_per_cost_spec(fd_new as int, fd_old as int, new_cost as int,
                old_cost as int) == Some(v as int),
            None => fd_per_cost_spec(fd_new as int, fd_old as int, new_cost as int,
                old_cost as int) is None,
        },
{
    if new_cost <= old_cost {
        return None;
    }
    if fd_old + (SCALE as i64) < 1 {
        return None;
    }
    let num: u128 = ((SCALE as i64 + fd_new) as u128) * (SCALE as u128);
    let den: u128 = (SCALE as i64 + fd_old) as u128;
    let t128 = num / den;
    proof {
        lemma_div_pos_is_pos(num as int, den as int);
    }
    if t128 > RATIO_LIMIT as u128 {
        return None;
    }
    let t = t128 as u64;
    let root = nth_root(t, new_cost - old_cost);
    Some(root as i64 - SCALE as i64)
}

/// The candidate with index `k`: one skill (`k / 30`) raised to one target
/// level (`k % 30 + 1`), everything else unchanged.
pub open spec fn cand_at(cur: Seq<u8>, k: int) -> Seq<u8> {
    cur.update(k / 30, (k % 30 + 1) as u8)
}

/// A candidate is considered when it strictly raises its skill and stays a
/// valid configuration.
pub open spec fn considered(cur: Seq<u8>, k: int) -> bool {
    k % 30 + 1 > cur[k / 30] && valid_view(cand_at(cur, k))
}

/// Efficiency of stepping from `cur` to `cand`, as the search scores it.
pub open spec fn eff_opt(ctx: SimContext, t: CostTables, cur: Seq<u8>, cand: Seq<u8>) -> Option<
    int,
> {
    match (fd_percent_spec(ctx, cur), fd_percent_spec(ctx, cand)) {
        (Some(fo), Some(fc)) => fd_per_cost_spec(fc, fo, cost_view(cand, t), cost_view(cur, t)),
        _ => None,
    }
}

/// Ordering on optional efficiencies: an undefined efficiency ranks below
/// every defined one.
pub open spec fn opt_gt(a: Option<int>, b: Option<int>) -> bool {
    match (a, b) {
        (Some(x), Some(y)) => x > y,
        (Some(_), None) => true,
        _ => false,
    }
}

pub open spec fn opt_eq(a: Option<int>, b: Option<int>) -> bool {
    match (a, b) {
        (Some(x), Some(y)) => x == y,
        (None, None) => true,
        _ => false,
    }
}

/// Candidate `a` scores no better than candidate `b`.
pub open spec fn eff_le(ctx: SimContext, t: CostTables, cur: Seq<u8>, a: Seq<u8>, b: Seq<u8>) -> bool {
    !opt_gt(eff_opt(ctx, t, cur, a), eff_opt(ctx, t, cur, b))
}

/// Lexicographic order on level vectors, used as the deterministic tie-break
/// (the greater vector wins a tie, matching a sort over (efficiency, levels)
/// that keeps the last entry).
pub open spec fn lex_gt(a: Seq<u8>, b: Seq<u8>) -> bool {
    exists|i: int|
        0 <= i < 7 && (#[trigger] a[i]) > b[i] && (forall|j: int| 0 <= j < i ==> a[j] == b[j])
}

fn lex_gt_x(a: &HexacoreSpec, b: &HexacoreSpec) -> (r: bool)
    ensures
        r == lex_gt(a@, b@),
{
    let mut i: usize = 0;
    while i < 7
        invariant
            i <= 7,
            forall|j: int| 0 <= j < i ==> a@[j] == b@[j],
        decreases 7 - i,
    {
        let av = a.level_at(i);
        let bv = b.level_at(i);
        if av > bv {
            proof {
                assert((a@[i as int]) > b@[i as int] && (forall|j: int|
                    0 <= j < i ==> a@[j] == b@[j]));
            }
            return true;
        }
        if av < bv {
            proof {
                assert forall|k: int|
                    !(0 <= k < 7 && (#[trigger] a@[k]) > b@[k] && (forall|j: int|
                        0 <= j < k ==> a@[j] == b@[j])) by {
                    if 0 <= k < 7 && a@[k] > b@[k] {
                        if k < i {
                        } else {
                            assert(a@[i as int] < b@[i as int]);
                        }
                    }
                }
            }
            return false;
        }
        i += 1;
    }
    proof {
        assert forall|k: int|
            !(0 <= k < 7 && (#[trigger] a@[k]) > b@[k] && (forall|j: int|
                0 <= j < k ==> a@[j] == b@[j])) by {}
    }
    false
}

/// The best candidate among the first `k` candidate indices: maximal
/// efficiency, ties broken by the greater level vector.
pub open spec fn best_upto(ctx: SimContext, t: CostTables, cur: Seq<u8>, k: nat) -> Option<Seq<u8>>
    decreases k,
{
    if k == 0 {
        None
    } else {
        let prev = best_upto(ctx, t, cur, (k - 1) as nat);
        let i = k - 1;
        if considered(cur, i) {
            let cand = cand_at(cur, i);
            match prev {
                None => Some(cand),
                Some(bv) => {
                    let e = eff_opt(ctx, t, cur, cand);
                    let be = eff_opt(ctx, t, cur, bv);
                    if opt_gt(e, be) || (opt_eq(e, be) && lex_gt(cand, bv)) {
                        Some(cand)
                    } else {
                        prev
                    }
                },
            }
        } else {
            prev
        }
    }
}

/// Whatever the fold keeps is one of the considered candidates.
proof fn lemma_best_upto_shape(ctx: SimContext, t: CostTables, cur: Seq<u8>, k: nat)
    ensures
        best_upto(ctx, t, cur, k) matches Some(bv) ==> exists|j: int|
            0 <= j < k && #[trigger] considered(cur, j) && bv == cand_at(cur, j),
    decreases k,
{
    if k > 0 {
        lemma_best_upto_shape(ctx, t, cur, (k - 1) as nat);
        let i = k - 1;
        if best_upto(ctx, t, cur, k) is Some {
            let bv = best_upto(ctx, t, cur, k)->Some_0;
            if considered(cur, i as int) && bv == cand_at(cur, i as int) {
                assert(0 <= i < k && considered(cur, i as int) && bv == cand_at(cur, i as int));
            }
        }
    }
}

/// Once any candidate is considered, the fold keeps something.
proof fn lemma_best_upto_some(ctx: SimContext, t: CostTables, cur: Seq<u8>, k: nat, j: int)
    requires
        0 <= j < k,
        considered(cur, j),
    ensures
        best_upto(ctx, t, cur, k) is Some,
    decreases k,
{
    if j < k - 1 {
        lemma_best_upto_some(ctx, t, cur, (k - 1) as nat, j);
    }
}

/// When a configuration is at the goal, no candidate raises anything.
proof fn lemma_best_upto_none(ctx: SimContext, t: CostTables, cur: Seq<u8>, k: nat)
    requires
        goal_view(cur),
        k <= 210,
    ensures
        best_upto(ctx, t, cur, k) is None,
    decreases k,
{
    if k > 0 {
        lemma_best_upto_none(ctx, t, cur, (k - 1) as nat);
        let i = k - 1;
        vstd::arithmetic::div_mod::lemma_mod_bound(i as int, 30);
        crate::fixed::lemma_div_strict_bound(i as int, 30, 6);
        assert(cur[i as int / 30] == MAX_LEVEL);
        assert(!considered(cur, i as int));
    }
}

/// The kept candidate's efficiency transfers down the fold.
proof fn lemma_opt_order(a: Option<int>, b: Option<int>, c: Option<int>)
    requires
        !opt_gt(a, b),
        opt_gt(c, b) || opt_eq(c, b),
    ensures
        !opt_gt(a, c),
{
}

/// Every considered candidate scores no better than the kept one.
proof fn lemma_best_upto_max(ctx: SimContext, t: CostTables, cur: Seq<u8>, k: nat, j: int)
    requires
        0 <= j < k,
        considered(cur, j),
    ensures
        best_upto(ctx, t, cur, k) matches Some(bv) ==> eff_le(ctx, t, cur, cand_at(cur, j), bv),
    decreases k,
{
    let i = k - 1;
    let prev = best_upto(ctx, t, cur, (k - 1) as nat);
    if j < k - 1 {
        lemma_best_upto_max(ctx, t, cur, (k - 1) as nat, j);
        lemma_best_upto_some(ctx, t, cur, (k - 1) as nat, j);
        let pbv = prev->Some_0;
        if best_upto(ctx, t, cur, k) is Some {
            let bv = best_upto(ctx, t, cur, k)->Some_0;
            if bv != pbv {
                lemma_opt_order(eff_opt(ctx, t, cur, cand_at(cur, j)), eff_opt(ctx, t, cur, pbv),
                    eff_opt(ctx, t, cur, bv));
            }
        }
    } else {
        // Last step: either this candidate was kept, or the previous best
        // was kept because this one did not beat it.
    }
}

/// Index arithmetic for the candidate encoding.
proof fn lemma_k_split(i: int, l: int)
    requires
        0 <= i < 7,
        1 <= l <= 30,
    ensures
        (i * 30 + l - 1) / 30 == i,
        (i * 30 + l - 1) % 30 == l - 1,
{
    vstd::arithmetic::div_mod::lemma_fundamental_div_mod_converse(i * 30 + l - 1, 30, i, l - 1);
}

/// Greedy step of the search: among all valid single-skill raises of `cur`,
/// a candidate of maximal efficiency, ties broken by the lexicographically
/// greater level vector; `None` exactly at the goal. Pure in its inputs, so
/// two calls on one configuration return the same step.
#[verifier::spinoff_prover]
#[verifier::rlimit(100)]
pub fn best_next_skill(ctx: &SimContext, t: &CostTables, cur: &HexacoreSpec) -> (r: Option<
    HexacoreSpec,
>)
    requires
        ctx.wf(),
        t.wf(),
        cur.valid_spec(),
    ensures
        r is Some <==> !goal_view(cur@),
        r is Some ==> r->Some_0@ == best_upto(*ctx, *t, cur@, 210)->Some_0,
        r is Some ==> r->Some_0.valid_spec(),
        r is Some ==> total_view(r->Some_0@) > total_view(cur@),
        r is Some ==> exists|i: int, l: u8|
            0 <= i < 7 && cur@[i] < l <= MAX_LEVEL && r->Some_0@ == cur@.update(i, l),
        r is Some ==> forall|i: int, l: u8|
            0 <= i < 7 && cur@[i] < l <= MAX_LEVEL && valid_view(#[trigger] cur@.update(i, l))
                ==> eff_le(*ctx, *t, cur@, cur@.update(i, l), r->Some_0@),
{
    let fo = fd_percent(ctx, cur);
    let old_cost = cur.cost(t);
    let mut best: Option<HexacoreSpec> = None;
    let mut best_eff: Option<i64> = None;
    let mut k: usize = 0;
    while k < 210
        invariant
            ctx.wf(),
            t.wf(),
            cur.valid_spec(),
            k <= 210,
            old_cost == cost_view(cur@, *t),
            lift_eff(fo) == fd_percent_spec(*ctx, cur@),
            match best {
                None => best_upto(*ctx, *t, cur@, k as nat) is None,
                Some(bc) => best_upto(*ctx, *t, cur@, k as nat) == Some(bc@) && bc.valid_spec()
                    && lift_eff(best_eff) == eff_opt(*ctx, *t, cur@, bc@),
            },
        decreases 210 - k,
    {
        let i = k / 30;
        let lvl = (k % 30 + 1) as u8;
        proof {
            vstd::arithmetic::div_mod::lemma_mod_bound(k as int, 30);
            crate::fixed::lemma_div_strict_bound(k as int, 30, 6);
        }
        let cl = cur.level_at(i);
        if lvl > cl {
            let cand = cur.with_level_at(i, lvl);
            if cand.valid() {
                proof {
                    assert(cand@ == cand_at(cur@, k as int));
                    assert(considered(cur@, k as int));
                }
                let fc = fd_percent(ctx, &cand);
                let ec: Option<i64> = match (fo, fc) {
                    (Some(fov), Some(fcv)) => fd_per_cost(fcv, fov, cand.cost(t), old_cost),
                    _ => None,
                };
                proof {
                    assert(lift_eff(ec) == eff_opt(*ctx, *t, cur@, cand@));
                }
                let replace = match (&best, &ec, &best_eff) {
                    (None, _, _) => true,
                    (Some(bc), e, be) => {
                        let gt = opt_gt_x(e, be);
                        let eq = opt_eq_x(e, be);
                        gt || (eq && lex_gt_x(&cand, bc))
                    },
                };
                if replace {
                    best = Some(cand);
                    best_eff = ec;
                }
            }
        }
        k += 1;
    }
    match best {
        None => {
            proof {
                if !goal_view(cur@) {
                    let wi = choose|i: int| 0 <= i < 7 && cur@[i] != MAX_LEVEL;
                    let k0 = wi * 30 + cur@[wi] as int;
                    lemma_k_split(wi, cur@[wi] as int + 1);
                    assert(cand_at(cur@, k0) == cur@.update(wi, (cur@[wi] + 1) as u8));
                    assert(valid_view(cand_at(cur@, k0))) by {
                        assert(forall|j: int|
                            0 <= j < 7 ==> #[trigger] cand_at(cur@, k0)[j] <= MAX_LEVEL);
                    }
                    assert(considered(cur@, k0));
                    lemma_best_upto_some(*ctx, *t, cur@, 210, k0);
                }
            }
            None
        },
        Some(bc) => {
            proof {
                if goal_view(cur@) {
                    lemma_best_upto_none(*ctx, *t, cur@, 210);
                }
                lemma_best_upto_shape(*ctx, *t, cur@, 210);
                let j = choose|j: int|
                    0 <= j < 210 && #[trigger] considered(cur@, j) && bc@ == cand_at(cur@, j);
                vstd::arithmetic::div_mod::lemma_mod_bound(j, 30);
                crate::fixed::lemma_div_strict_bound(j, 30, 6);
                let wi = j / 30;
                let wl = (j % 30 + 1) as u8;
                assert(0 <= wi < 7 && cur@[wi] < wl <= MAX_LEVEL && bc@ == cur@.update(wi, wl));
                assert(total_view(bc@) > total_view(cur@));
                assert forall|i: int, l: u8|
                    0 <= i < 7 && cur@[i] < l <= MAX_LEVEL && valid_view(#[trigger] cur@.update(
                        i,
                        l,
                    )) implies eff_le(*ctx, *t, cur@, cur@.update(i, l), bc@) by {
                    let kk = i * 30 + l as int - 1;
                    lemma_k_split(i, l as int);
                    assert(cand_at(cur@, kk) == cur@.update(i, l));
                    assert(considered(cur@, kk));
                    lemma_best_upto_max(*ctx, *t, cur@, 210, kk);
                }
            }
            Some(bc)
        },
    }
}

/// Lifts an executable optional efficiency to its ghost value.
pub open spec fn lift_eff(o: Option<i64>) -> Option<int> {
    match o {
        None => None,
        Some(x) => Some(x as int),
    }
}

fn opt_gt_x(a: &Option<i64>, b: &Option<i64>) -> (r: bool)
    ensures
        r == opt_gt(lift_eff(*a), lift_eff(*b)),
{
    match (a, b) {
        (Some(x), Some(y)) => *x > *y,
        (Some(_), None) => true,
        _ => false,
    }
}

fn opt_eq_x(a: &Option<i64>, b: &Option<i64>) -> (r: bool)
    ensures
        r == opt_eq(lift_eff(*a), lift_eff(*b)),
{
    match (a, b) {
        (Some(x), Some(y)) => *x == *y,
        (None, None) => true,
        _ => false,
    }
}

/// Runs the greedy search from `start` until every skill is maxed. Each step
/// raises exactly one skill, so the total of all levels grows by at least one
/// per step and the path is finite: at most one entry per missing level.
pub fn upgrade_path(ctx: &SimContext, t: &CostTables, start: &HexacoreSpec) -> (path: Vec<
    HexacoreSpec,
>)
    requires
        ctx.wf(),
        t.wf(),
        start.valid_spec(),
    ensures
        path@.len() >= 1,
        path@[0] == *start,
        forall|i: int| 0 <= i < path@.len() ==> (#[trigger] path@[i]).valid_spec(),
        goal_view(path@[path@.len() - 1]@),
        path@.len() <= 211 - total_view(start@),
{
    let mut path: Vec<HexacoreSpec> = Vec::new();
    let mut cur: HexacoreSpec = *start;
    path.push(cur);
    loop
        invariant
            ctx.wf(),
            t.wf(),
            cur.valid_spec(),
            path@.len() >= 1,
            path@[0] == *start,
            path@[path@.len() - 1] == cur,
            forall|i: int| 0 <= i < path@.len() ==> (#[trigger] path@[i]).valid_spec(),
            path@.len() <= 1 + total_view(cur@) - total_view(start@),
            total_view(cur@) <= 210,
        ensures
            path@.len() >= 1,
            path@[0] == *start,
            path@[path@.len() - 1] == cur,
            forall|i: int| 0 <= i < path@.len() ==> (#[trigger] path@[i]).valid_spec(),
            path@.len() <= 1 + total_view(cur@) - total_view(start@),
            total_view(cur@) <= 210,
            goal_view(cur@),
        decreases 210 - total_view(cur@),
    {
        proof {
            assert(cur@[0] <= 30 && cur@[1] <= 30 && cur@[2] <= 30 && cur@[3] <= 30 && cur@[4]
                <= 30 && cur@[5] <= 30 && cur@[6] <= 30);
        }
        match best_next_skill(ctx, t, &cur) {
            None => {
                break;
            },
            Some(next) => {
                cur = next;
                path.push(cur);
            },
        }
    }
    path
}

/// The skills whose levels differ between two configurations, in index
/// order.
pub open spec fn differing_seq(a: Seq<u8>, b: Seq<u8>, n: int) -> Seq<HexacoreSkill>
    decreases n,
{
    if n <= 0 {
        Seq::empty()
    } else if a[n - 1] != b[n - 1] {
        differing_seq(a, b, n - 1).push(HexacoreSkill::from_index_spec(n - 1))
    } else {
        differing_seq(a, b, n - 1)
    }
}

pub fn differing_skills(a: &HexacoreSpec, b: &HexacoreSpec) -> (v: Vec<HexacoreSkill>)
    ensures
        v@ == differing_seq(a@, b@, 7),
{
    let mut v: Vec<HexacoreSkill> = Vec::new();
    let mut i: usize = 0;
    while i < 7
        invariant
            i <= 7,
            v@ == differing_seq(a@, b@, i as int),
        decreases 7 - i,
    {
        if a.level_at(i) != b.level_at(i) {
            v.push(HexacoreSkill::from_index(i));
        }
        i += 1;
    }
    v
}

/// A progress line is printed only when more than one skill differs from the
/// last printed configuration, so a single skill climbing level by level
/// prints once.
pub fn should_display(next: &HexacoreSpec, last_printed: &HexacoreSpec) -> (r: bool)
    ensures
        r == (differing_seq(next@, last_printed@, 7).len() > 1),
{
    let d = differing_skills(next, last_printed);
    d.len() > 1
}

} // verus!
