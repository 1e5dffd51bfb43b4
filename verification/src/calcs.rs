//! The per-skill damage model and the aggregate simulator. For each skill
//! family a relative-damage ratio `new / old` is computed in fixed point
//! (`SCALE` is one), weighted by the channel's baseline contribution share,
//! and the weighted deltas are summed into one scalar: the fractional damage
//! change of a configuration against the reference configuration.

use vstd::prelude::*;
use crate::types::{BA, FdTable, HexacoreSpec, Skill, SCALE, SHARE_ONE};
use crate::combat::CombatParams;
use crate::fixed::{
    fdiv, div_floor, lemma_div_bound, lemma_div_le_div, lemma_mul_mono,
};
use vstd::arithmetic::div_mod::{lemma_div_is_ordered, lemma_div_pos_is_pos};
use vstd::arithmetic::mul::lemma_mul_inequality;

verus! {

/// Fixed-point ratio of two damage values: floor(new * SCALE / old).
pub open spec fn ratio_fp(new: int, old: int) -> int {
    fdiv(new * SCALE, old)
}

/// Contribution delta of one channel: its share `w` (in ten-thousandths)
/// times the ratio minus the share times one, each floored separately so the
/// delta is exactly zero when the ratio is exactly one.
pub open spec fn weighted_delta(w: int, r: int) -> int {
    fdiv(w * r, SHARE_ONE as int) - fdiv(w * SCALE, SHARE_ONE as int)
}

/// Raw damage of the origin skill: off at level zero.
pub open spec fn glory_damage(level: int) -> int {
    if level == 0 {
        0
    } else {
        420 + 14 * level
    }
}

/// Numerator of the breakpoint multiplier unlocked at levels 10/20/30,
/// as an exact rational over `bp_den`. `b` is the boss damage bonus in
/// percent, `f` the remaining pdr in fixed point.
pub open spec fn bp_num(level: int, b: int, f: int) -> int {
    if level >= 30 {
        (b + 150) * (2 * SCALE - f)
    } else if level >= 20 {
        (b + 120) * (10 * SCALE - 8 * f)
    } else if level >= 10 {
        10 * SCALE - 8 * f
    } else {
        1
    }
}

pub open spec fn bp_den(level: int, b: int, f: int) -> int {
    if level >= 30 {
        (b + 100) * (2 * SCALE - 2 * f)
    } else if level >= 20 {
        (b + 100) * (10 * SCALE - 10 * f)
    } else if level >= 10 {
        10 * SCALE - 10 * f
    } else {
        1
    }
}

/// Ratio of the new breakpoint multiplier over the old one, floored once.
pub open spec fn bp_ratio(old_l: int, new_l: int, b: int, f: int) -> int {
    fdiv(
        bp_num(new_l, b, f) * bp_den(old_l, b, f) * SCALE,
        bp_den(new_l, b, f) * bp_num(old_l, b, f),
    )
}

/// Raw-damage ratio times breakpoint-multiplier ratio, floored: the net
/// relative change of the origin skill multiplies the raw-damage ratio by
/// the ratio of breakpoint multipliers, so the whole damage ratio (raw times
/// multiplier) is compared between the two levels. This is the physically
/// consistent reading of the model; it differs from scaling only the raw
/// excess by the multiplier ratio whenever the two levels sit in different
/// breakpoint brackets.
pub open spec fn origin_combined(old_l: int, new_l: int, b: int, f: int) -> int {
    fdiv(
        ratio_fp(glory_damage(new_l), glory_damage(old_l)) * bp_ratio(old_l, new_l, b, f),
        SCALE as int,
    )
}

/// Weighted contribution delta of the origin skill. Level zero is a distinct
/// "off" state: there is no increase ratio from a zero base, so the
/// contribution is defined as zero when the reference level is zero.
pub open spec fn origin_contrib(w: int, old_l: int, new_l: int, b: int, f: int) -> int {
    if glory_damage(old_l) == 0 {
        0
    } else {
        weighted_delta(w, origin_combined(old_l, new_l, b, f))
    }
}

/// The breakpoint multiplier is at least one and at most fifteen, and both
/// sides of the rational are positive and bounded, for all supported combat
/// parameters.
pub proof fn lemma_bp_bounds(l: int, b: int, f: int)
    requires
        0 <= b <= 10_000,
        0 <= f,
        10 * f <= 9 * SCALE,
    ensures
        0 < bp_den(l, b, f),
        bp_den(l, b, f) <= bp_num(l, b, f),
        bp_num(l, b, f) <= 15 * bp_den(l, b, f),
        bp_num(l, b, f) <= 0x7000_0000_0000_0000,
        bp_den(l, b, f) <= 0x7000_0000_0000_0000,
{
    if l >= 30 {
        assert((b + 100) * (2 * SCALE - 2 * f) > 0) by (nonlinear_arith)
            requires 0 <= b, 0 <= f, 10 * f <= 9 * SCALE, SCALE == 1_000_000_000;
        assert((b + 100) * (2 * SCALE - 2 * f) <= (b + 150) * (2 * SCALE - f)) by (nonlinear_arith)
            requires 0 <= b, 0 <= f, 10 * f <= 9 * SCALE, SCALE == 1_000_000_000;
        assert((b + 150) * (2 * SCALE - f) <= 15 * ((b + 100) * (2 * SCALE - 2 * f)))
            by (nonlinear_arith)
            requires 0 <= b, 0 <= f, 10 * f <= 9 * SCALE, SCALE == 1_000_000_000;
        assert((b + 150) * (2 * SCALE - f) <= 0x7000_0000_0000_0000) by (nonlinear_arith)
            requires 0 <= b <= 10_000, 0 <= f, SCALE == 1_000_000_000;
        assert((b + 100) * (2 * SCALE - 2 * f) <= 0x7000_0000_0000_0000) by (nonlinear_arith)
            requires 0 <= b <= 10_000, 0 <= f, SCALE == 1_000_000_000;
    } else if l >= 20 {
        assert((b + 100) * (10 * SCALE - 10 * f) > 0) by (nonlinear_arith)
            requires 0 <= b, 0 <= f, 10 * f <= 9 * SCALE, SCALE == 1_000_000_000;
        assert((b + 100) * (10 * SCALE - 10 * f) <= (b + 120) * (10 * SCALE - 8 * f))
            by (nonlinear_arith)
            requires 0 <= b, 0 <= f, 10 * f <= 9 * SCALE, SCALE == 1_000_000_000;
        assert((b + 120) * (10 * SCALE - 8 * f) <= 15 * ((b + 100) * (10 * SCALE - 10 * f)))
            by (nonlinear_arith)
            requires 0 <= b, 0 <= f, 10 * f <= 9 * SCALE, SCALE == 1_000_000_000;
        assert((b + 120) * (10 * SCALE - 8 * f) <= 0x7000_0000_0000_0000) by (nonlinear_arith)
            requires 0 <= b <= 10_000, 0 <= f, SCALE == 1_000_000_000;
        assert((b + 100) * (10 * SCALE - 10 * f) <= 0x7000_0000_0000_0000) by (nonlinear_arith)
            requires 0 <= b <= 10_000, 0 <= f, SCALE == 1_000_000_000;
    } else if l >= 10 {
    } else {
    }
}

/// The breakpoint multiplier never decreases with the skill level: across the
/// 10/20/30 thresholds the interaction of the bonus percentage with the
/// penetration mitigation factor stays non-decreasing, for every supported
/// boss bonus and remaining pdr. Stated as the cross-multiplied comparison of
/// the exact rationals.
pub proof fn lemma_bp_monotone(l1: int, l2: int, b: int, f: int)
    requires
        l1 <= l2,
        0 <= b <= 10_000,
        0 <= f,
        10 * f <= 9 * SCALE,
    ensures
        bp_num(l1, b, f) * bp_den(l2, b, f) <= bp_num(l2, b, f) * bp_den(l1, b, f),
{
    lemma_bp_bounds(l1, b, f);
    lemma_bp_bounds(l2, b, f);
    if l1 >= 30 || l2 < 10 || (10 <= l1 && l2 < 20) || (20 <= l1 && l2 < 30) {
        // Same threshold bracket on both sides: the rationals are equal.
    } else if l1 < 10 {
        // One over one against a multiplier that is at least one.
        assert(bp_num(l1, b, f) * bp_den(l2, b, f) == bp_den(l2, b, f));
        assert(bp_num(l2, b, f) * bp_den(l1, b, f) == bp_num(l2, b, f));
    } else if l1 < 20 {
        if l2 < 30 {
            // (10S-8f)/(10S-10f) against the same term scaled by (b+120)/(b+100).
            assert((10 * SCALE - 8 * f) * ((b + 100) * (10 * SCALE - 10 * f)) <= ((b + 120) * (10
                * SCALE - 8 * f)) * (10 * SCALE - 10 * f)) by (nonlinear_arith)
                requires 0 <= b, 0 <= f, 10 * f <= 9 * SCALE, SCALE == 1_000_000_000;
        } else {
            // (10S-8f)/(10S-10f) against (b+150)(2S-f) / ((b+100)(2S-2f)).
            assert((10 * SCALE - 8 * f) * ((b + 100) * (2 * SCALE - 2 * f)) <= ((b + 150) * (2
                * SCALE - f)) * (10 * SCALE - 10 * f)) by (nonlinear_arith)
                requires 0 <= b, 0 <= f, 10 * f <= 9 * SCALE, SCALE == 1_000_000_000;
        }
    } else {
        // From the level-20 bracket to the level-30 bracket.
        assert(((b + 120) * (10 * SCALE - 8 * f)) * ((b + 100) * (2 * SCALE - 2 * f)) <= ((b + 150)
            * (2 * SCALE - f)) * ((b + 100) * (10 * SCALE - 10 * f))) by (nonlinear_arith)
            requires 0 <= b <= 10_000, 0 <= f, 10 * f <= 9 * SCALE, SCALE == 1_000_000_000;
    }
}

/// Raw damage of the primary ring skill: a fixed base below level one.
pub open spec fn ishtars_damage(level: int) -> int {
    if level > 0 {
        (345 + 6 * level) * 2
    } else {
        636
    }
}

/// Raw damage of the brand channel, gated by the primary ring level `l1` and
/// blending two weighted terms whose coefficients depend on whether the
/// secondary mastery `l2` is active.
pub open spec fn brand_damage(l1: int, l2: int) -> int {
    if l1 > 0 {
        if l2 > 0 {
            4 * (400 + 7 * l1 + 30 + 7 * l2) * 3 + (500 + 8 * l1 + 80 + 7 * l2) * 8
        } else {
            4 * (400 + 7 * l1) * 3 + (500 + 8 * l1) * 8
        }
    } else {
        0
    }
}

/// Use-count-weighted damage total of a triple-mastery sub-skill, as the
/// exact numerator over a denominator of `times` uses: `e` enhanced uses of
/// the enhanced formula, the remaining `u` uses of the unenhanced one, or a
/// flat per-use value when the mastery is off.
pub open spec fn blend_num(
    l: int,
    e: int,
    u: int,
    times: int,
    be: int,
    ie: int,
    bu: int,
    iu: int,
    m: int,
    flat: int,
) -> int {
    if l > 0 {
        e * (be + ie * l) * m + u * (bu + iu * l) * m
    } else {
        flat * times
    }
}

/// Linear-enhancement ratio via the flat-damage table: (1+bonus(new)) over
/// (1+bonus(old)), in fixed point over percent entries.
pub open spec fn enh_ratio(t: Seq<u32>, old_l: int, new_l: int) -> int {
    ratio_fp(100 + t[new_l], 100 + t[old_l])
}

/// Flat-damage percent of the stepped-enhancement skill ("flight").
pub open spec fn sylvidia_fd(l: int) -> int {
    if l > 0 {
        (l + 5) / 6
    } else {
        0
    }
}

/// Contribution of the stepped-enhancement skill: its multiplier ratio scales
/// the combined contribution of the origin channel (baseline share plus its
/// already-computed delta) and the mastery-adjusted share of the first
/// linear-enhancement channel, rather than a fixed share of its own.
pub open spec fn sylvidia_contrib(
    old_l: int,
    new_l: int,
    w_glory: int,
    w_irk: int,
    glory_c: int,
    irk_ratio: int,
) -> int {
    let ratio = ratio_fp(100 + sylvidia_fd(new_l), 100 + sylvidia_fd(old_l));
    let bracket = fdiv(w_glory * SCALE, SHARE_ONE as int) + glory_c + fdiv(
        w_irk * irk_ratio,
        SHARE_ONE as int,
    );
    fdiv((ratio - SCALE) * bracket, SCALE as int)
}

/// Contribution delta of the two ring channels together.
pub open spec fn ishtars_contrib(
    w_ring: int,
    w_brand: int,
    o1: int,
    n1: int,
    o2: int,
    n2: int,
) -> int {
    weighted_delta(w_ring, ratio_fp(ishtars_damage(n1), ishtars_damage(o1))) + (if brand_damage(
        o1,
        o2,
    ) == 0 {
        0
    } else {
        weighted_delta(w_brand, ratio_fp(brand_damage(n1, n2), brand_damage(o1, o2)))
    })
}

/// Contribution delta of one triple-mastery sub-skill channel.
pub open spec fn wrath_channel(
    w: int,
    old_l: int,
    new_l: int,
    e: int,
    times: int,
    be: int,
    ie: int,
    bu: int,
    iu: int,
    m: int,
    flat: int,
) -> int {
    weighted_delta(
        w,
        ratio_fp(
            blend_num(new_l, e, times - e, times, be, ie, bu, iu, m, flat),
            blend_num(old_l, e, times - e, times, be, ie, bu, iu, m, flat),
        ),
    )
}

/// Enhanced-mode uses of a sub-skill: one firing per cooldown window over
/// the enhanced duration, never more than the recorded total uses.
/// (Subtracting the window count from the total unchecked would underflow
/// when a channel was used less often than its window count holds firings;
/// the cap keeps the blend total and well-defined on every baseline table.)
pub open spec fn enhanced_uses(dur: int, cooldown: int, times: int) -> int {
    if dur / cooldown <= times {
        dur / cooldown
    } else {
        times
    }
}

/// Contribution delta of the three sub-skills sharing the wrath mastery
/// level. Two fire their enhanced mode every twelve seconds of the enhanced
/// window, the third every six.
pub open spec fn wrath_contrib(ba: BA, dur: int, old_l: int, new_l: int) -> int {
    wrath_channel(
        ba.col(Skill::WrathOfEnlil).contribution as int,
        old_l,
        new_l,
        enhanced_uses(dur, 12, ba.col(Skill::WrathOfEnlil).times_used as int),
        ba.col(Skill::WrathOfEnlil).times_used as int,
        605,
        11,
        550,
        10,
        10,
        5150,
    ) + wrath_channel(
        ba.col(Skill::SpikesRoyale).contribution as int,
        old_l,
        new_l,
        enhanced_uses(dur, 12, ba.col(Skill::SpikesRoyale).times_used as int),
        ba.col(Skill::SpikesRoyale).times_used as int,
        740,
        14,
        695,
        12,
        4,
        2560,
    ) + wrath_channel(
        ba.col(Skill::LeapTornado).contribution as int,
        old_l,
        new_l,
        enhanced_uses(dur, 6, ba.col(Skill::LeapTornado).times_used as int),
        ba.col(Skill::LeapTornado).times_used as int,
        590,
        9,
        510,
        9,
        4,
        2000,
    )
}

/// Everything the simulator reads besides the configuration under test: the
/// baseline table, the combat parameters, the reference configuration and
/// the flat-damage table.
#[derive(Clone, Copy, Debug)]
pub struct SimContext {
    pub ba: BA,
    pub params: CombatParams,
    pub base: HexacoreSpec,
    pub fd_table: FdTable,
}

impl SimContext {
    pub open spec fn wf(self) -> bool {
        &&& self.ba.wf()
        &&& self.params.wf()
        &&& self.fd_table.wf()
        &&& self.base.valid_spec()
        &&& self.ba.col(Skill::WrathOfEnlil).times_used >= 1
        &&& self.ba.col(Skill::SpikesRoyale).times_used >= 1
        &&& self.ba.col(Skill::LeapTornado).times_used >= 1
    }
}

/// The aggregate simulator: the sum of every family's weighted contribution
/// delta of the configuration `v` against the reference `ctx.base`.
pub open spec fn simulate_spec(ctx: SimContext, v: Seq<u8>) -> int {
    let b = ctx.params.boss_dmg as int;
    let f = ctx.params.remaining_pdr as int;
    let base = ctx.base@;
    let glory_c = origin_contrib(
        ctx.ba.col(Skill::UnfadingGlory).contribution as int,
        base[0] as int,
        v[0] as int,
        b,
        f,
    );
    let irk_r = enh_ratio(ctx.fd_table.percent@, base[3] as int, v[3] as int);
    glory_c + ishtars_contrib(
        ctx.ba.col(Skill::IshtarsRing).contribution as int,
        ctx.ba.col(Skill::IshtarsRingBrand).contribution as int,
        base[1] as int,
        v[1] as int,
        base[2] as int,
        v[2] as int,
    ) + wrath_contrib(ctx.ba, ctx.params.ba_duration_sec as int, base[2] as int, v[2] as int)
        + weighted_delta(ctx.ba.col(Skill::IrkallasWrath).contribution as int, irk_r)
        + weighted_delta(
        ctx.ba.col(Skill::RoyalKnights).contribution as int,
        enh_ratio(ctx.fd_table.percent@, base[4] as int, v[4] as int),
    ) + sylvidia_contrib(
        base[6] as int,
        v[6] as int,
        ctx.ba.col(Skill::UnfadingGlory).contribution as int,
        ctx.ba.col(Skill::IrkallasWrath).contribution as int,
        glory_c,
        irk_r,
    )
}

/// Fixed-point ratio of two damage values, with a ghost bound `k` on
/// `new / old` carried through to the result.
fn ratio_x(nd: u64, od: u64, Ghost(k): Ghost<int>) -> (r: u64)
    requires
        1 <= od,
        0 <= k <= 100,
        nd as int <= k * od,
    ensures
        r == ratio_fp(nd as int, od as int),
        r <= k * SCALE,
{
    proof {
        lemma_mul_inequality(nd as int, k * od, SCALE as int);
        assert((k * od) * SCALE == (k * SCALE) * od) by (nonlinear_arith);
        lemma_div_bound(nd as int * SCALE, od as int, k * SCALE);
    }
    ((nd as u128) * (SCALE as u128) / (od as u128)) as u64
}

/// Weighted contribution delta of one channel, in executable form.
fn weighted_delta_x(w: u64, r: u64) -> (d: i64)
    requires
        w <= SHARE_ONE,
        r <= 100 * SCALE,
    ensures
        d == weighted_delta(w as int, r as int),
        -(SCALE as int) <= d <= r,
{
    proof {
        lemma_mul_inequality(w as int, SHARE_ONE as int, r as int);
        assert((SHARE_ONE as int) * r == r * SHARE_ONE) by (nonlinear_arith);
        lemma_div_bound(w as int * r, SHARE_ONE as int, r as int);
        lemma_div_bound(w as int * SCALE, SHARE_ONE as int, SCALE as int);
        lemma_mul_mono(w as int, r as int, SHARE_ONE as int, 100 * SCALE);
    }
    let pos = w * r / SHARE_ONE;
    let neg = w * SCALE / SHARE_ONE;
    pos as i64 - neg as i64
}

fn glory_damage_x(l: u8) -> (d: u64)
    requires
        l <= 30,
    ensures
        d == glory_damage(l as int),
        d <= 840,
        d == 0 <==> l == 0,
        l >= 1 ==> d >= 434,
{
    if l == 0 {
        0
    } else {
        420 + 14 * (l as u64)
    }
}

fn ishtars_damage_x(l: u8) -> (d: u64)
    requires
        l <= 30,
    ensures
        d == ishtars_damage(l as int),
        636 <= d <= 1050,
{
    if l > 0 {
        (345 + 6 * (l as u64)) * 2
    } else {
        636
    }
}

fn brand_damage_x(l1: u8, l2: u8) -> (d: u64)
    requires
        l1 <= 30,
        l2 <= 30,
    ensures
        d == brand_damage(l1 as int, l2 as int),
        d <= 18_440,
        d == 0 <==> l1 == 0,
        l1 >= 1 ==> d >= 8_948,
{
    if l1 > 0 {
        if l2 > 0 {
            4 * (400 + 7 * (l1 as u64) + 30 + 7 * (l2 as u64)) * 3 + (500 + 8 * (l1 as u64) + 80
                + 7 * (l2 as u64)) * 8
        } else {
            4 * (400 + 7 * (l1 as u64)) * 3 + (500 + 8 * (l1 as u64)) * 8
        }
    } else {
        0
    }
}

fn sylvidia_fd_x(l: u8) -> (d: u64)
    requires
        l <= 30,
    ensures
        d == sylvidia_fd(l as int),
        d <= 5,
{
    if l > 0 {
        ((l as u64) + 5) / 6
    } else {
        0
    }
}

fn bp_num_x(l: u8, params: &CombatParams) -> (n: u128)
    requires
        params.wf(),
    ensures
        n == bp_num(l as int, params.boss_dmg as int, params.remaining_pdr as int),
{
    let b = params.boss_dmg;
    let f = params.remaining_pdr;
    proof {
        lemma_mul_mono((b + 150) as int, (2 * SCALE - f) as int, 10_150, 2 * (SCALE as int));
        lemma_mul_mono((b + 120) as int, (10 * SCALE - 8 * f) as int, 10_120,
            10 * (SCALE as int));
    }
    if l >= 30 {
        ((b + 150) as u128) * ((2 * SCALE - f) as u128)
    } else if l >= 20 {
        ((b + 120) as u128) * ((10 * SCALE - 8 * f) as u128)
    } else if l >= 10 {
        (10 * SCALE - 8 * f) as u128
    } else {
        1
    }
}

fn bp_den_x(l: u8, params: &CombatParams) -> (n: u128)
    requires
        params.wf(),
    ensures
        n == bp_den(l as int, params.boss_dmg as int, params.remaining_pdr as int),
{
    let b = params.boss_dmg;
    let f = params.remaining_pdr;
    proof {
        lemma_mul_mono((b + 100) as int, (2 * SCALE - 2 * f) as int, 10_100, 2 * (SCALE as int));
        lemma_mul_mono((b + 100) as int, (10 * SCALE - 10 * f) as int, 10_100,
            10 * (SCALE as int));
    }
    if l >= 30 {
        ((b + 100) as u128) * ((2 * SCALE - 2 * f) as u128)
    } else if l >= 20 {
        ((b + 100) as u128) * ((10 * SCALE - 10 * f) as u128)
    } else if l >= 10 {
        (10 * SCALE - 10 * f) as u128
    } else {
        1
    }
}

/// Ratio of the new breakpoint multiplier over the old one.
fn bp_ratio_x(old_l: u8, new_l: u8, params: &CombatParams) -> (q: u64)
    requires
        params.wf(),
    ensures
        q == bp_ratio(old_l as int, new_l as int, params.boss_dmg as int,
            params.remaining_pdr as int),
        q <= 15 * SCALE,
{
    let ghost b = params.boss_dmg as int;
    let ghost f = params.remaining_pdr as int;
    let nn = bp_num_x(new_l, params);
    let no = bp_num_x(old_l, params);
    let dn = bp_den_x(new_l, params);
    let dold = bp_den_x(old_l, params);
    proof {
        lemma_bp_bounds(new_l as int, b, f);
        lemma_bp_bounds(old_l as int, b, f);
        lemma_bp_small(new_l as int, b, f);
        lemma_bp_small(old_l as int, b, f);
        lemma_mul_mono(nn as int, dold as int, 120_000_000_000_000, 120_000_000_000_000);
        lemma_mul_mono(nn as int * dold, SCALE as int, (120_000_000_000_000int)
            * 120_000_000_000_000, SCALE as int);
        lemma_mul_mono(dn as int, no as int, 120_000_000_000_000, 120_000_000_000_000);
        assert(dn as int * no > 0) by (nonlinear_arith)
            requires dn > 0, no > 0;
        assert(nn as int * dold <= 15 * (dn as int * no)) by (nonlinear_arith)
            requires
                nn as int <= 15 * dn,
                dold as int <= no,
                0 < dn,
                0 < no,
                0 <= nn,
                0 <= dold,
        ;
        assert((nn as int * dold) * SCALE <= (15 * SCALE) * (dn as int * no))
            by (nonlinear_arith)
            requires nn as int * dold <= 15 * (dn as int * no), 0 < SCALE;
        lemma_div_bound((nn as int * dold) * SCALE, dn as int * no, 15 * SCALE);
    }
    (nn * dold * (SCALE as u128) / (dn * no)) as u64
}

/// Tighter numeric bounds on the breakpoint rational, used for overflow-free
/// evaluation.
proof fn lemma_bp_small(l: int, b: int, f: int)
    requires
        0 <= b <= 10_000,
        0 <= f,
        10 * f <= 9 * SCALE,
    ensures
        bp_num(l, b, f) <= 120_000_000_000_000,
        bp_den(l, b, f) <= 120_000_000_000_000,
{
    if l >= 30 {
        assert((b + 150) * (2 * SCALE - f) <= 120_000_000_000_000) by (nonlinear_arith)
            requires 0 <= b <= 10_000, 0 <= f, SCALE == 1_000_000_000;
        assert((b + 100) * (2 * SCALE - 2 * f) <= 120_000_000_000_000) by (nonlinear_arith)
            requires 0 <= b <= 10_000, 0 <= f, SCALE == 1_000_000_000;
    } else if l >= 20 {
        assert((b + 120) * (10 * SCALE - 8 * f) <= 120_000_000_000_000) by (nonlinear_arith)
            requires 0 <= b <= 10_000, 0 <= f, SCALE == 1_000_000_000;
        assert((b + 100) * (10 * SCALE - 10 * f) <= 120_000_000_000_000) by (nonlinear_arith)
            requires 0 <= b <= 10_000, 0 <= f, SCALE == 1_000_000_000;
    } else {
    }
}

/// Contribution delta of the origin skill against the reference level.
pub fn simulate_origin(ba: &BA, old_origin: u8, cur_origin: u8, params: &CombatParams) -> (c: i64)
    requires
        ba.wf(),
        params.wf(),
        old_origin <= 30,
        cur_origin <= 30,
    ensures
        c == origin_contrib(ba.col(Skill::UnfadingGlory).contribution as int, old_origin as int,
            cur_origin as int, params.boss_dmg as int, params.remaining_pdr as int),
        -(SCALE as int) <= c <= 30 * SCALE,
{
    let col = ba.get(Skill::UnfadingGlory);
    proof {
        assert(ba.columns@[14].contribution <= SHARE_ONE);
    }
    let od = glory_damage_x(old_origin);
    if od == 0 {
        return 0;
    }
    let nd = glory_damage_x(cur_origin);
    let r = ratio_x(nd, od, Ghost(2));
    let q = bp_ratio_x(old_origin, cur_origin, params);
    proof {
        lemma_mul_mono(r as int, q as int, 2 * SCALE, 15 * SCALE);
        lemma_div_bound(r as int * q, SCALE as int, 30 * SCALE);
    }
    let comb = ((r as u128) * (q as u128) / (SCALE as u128)) as u64;
    weighted_delta_x(col.contribution, comb)
}

/// Contribution delta of the two ring channels against their reference
/// levels. The brand channel's reference damage being zero (primary ring off
/// in the reference) makes that channel contribute zero: there is no ratio
/// from a zero base.
pub fn simulate_ishtars(ba: &BA, old_mastery1: u8, cur_mastery1: u8, old_mastery2: u8,
    cur_mastery2: u8) -> (c: i64)
    requires
        ba.wf(),
        old_mastery1 <= 30,
        cur_mastery1 <= 30,
        old_mastery2 <= 30,
        cur_mastery2 <= 30,
    ensures
        c == ishtars_contrib(ba.col(Skill::IshtarsRing).contribution as int,
            ba.col(Skill::IshtarsRingBrand).contribution as int, old_mastery1 as int,
            cur_mastery1 as int, old_mastery2 as int, cur_mastery2 as int),
        -2 * SCALE <= c <= 5 * SCALE,
{
    proof {
        assert(ba.columns@[0].contribution <= SHARE_ONE);
        assert(ba.columns@[1].contribution <= SHARE_ONE);
    }
    let od = ishtars_damage_x(old_mastery1);
    let nd = ishtars_damage_x(cur_mastery1);
    let d1 = weighted_delta_x(ba.get(Skill::IshtarsRing).contribution, ratio_x(nd, od, Ghost(2)));
    let ob = brand_damage_x(old_mastery1, old_mastery2);
    let d2: i64 = if ob == 0 {
        0
    } else {
        let nb = brand_damage_x(cur_mastery1, cur_mastery2);
        weighted_delta_x(ba.get(Skill::IshtarsRingBrand).contribution, ratio_x(nb, ob, Ghost(3)))
    };
    d1 + d2
}

/// Use-count-weighted damage total of one triple-mastery sub-skill.
fn blend_num_x(l: u8, e: u64, times: u64, be: u64, ie: u64, bu: u64, iu: u64, m: u64,
    flat: u64) -> (v: u64)
    requires
        l <= 30,
        e <= times,
        1 <= times <= 1_000_000,
        be <= 1_000,
        ie <= 20,
        bu <= 1_000,
        iu <= 20,
        1 <= m <= 10,
        1 <= flat <= 10_000,
        flat <= (be + ie) * m,
        flat <= (bu + iu) * m,
        (be + 30 * ie) * m <= 2 * flat,
        (bu + 30 * iu) * m <= 2 * flat,
    ensures
        v == blend_num(l as int, e as int, times - e, times as int, be as int, ie as int,
            bu as int, iu as int, m as int, flat as int),
        flat * times <= v <= 2 * (flat * times),
{
    if l == 0 {
        proof {
            lemma_mul_mono(flat as int, times as int, 10_000, 1_000_000);
        }
        flat * times
    } else {
        proof {
            lemma_blend_range(l as int, e as int, times as int, be as int, ie as int, bu as int,
                iu as int, m as int, flat as int);
        }
        let u = times - e;
        e * (be + ie * (l as u64)) * m + u * (bu + iu * (l as u64)) * m
    }
}

/// The blended total lies between `flat` and twice `flat` per use, for any
/// active mastery level.
proof fn lemma_blend_range(l: int, e: int, times: int, be: int, ie: int, bu: int, iu: int, m: int,
    flat: int)
    requires
        1 <= l <= 30,
        0 <= e <= times,
        1 <= times <= 1_000_000,
        0 <= be <= 1_000,
        0 <= ie <= 20,
        0 <= bu <= 1_000,
        0 <= iu <= 20,
        1 <= m <= 10,
        1 <= flat <= 10_000,
        flat <= (be + ie) * m,
        flat <= (bu + iu) * m,
        (be + 30 * ie) * m <= 2 * flat,
        (bu + 30 * iu) * m <= 2 * flat,
    ensures
        flat * times <= e * (be + ie * l) * m + (times - e) * (bu + iu * l) * m,
        e * (be + ie * l) * m + (times - e) * (bu + iu * l) * m <= 2 * (flat * times),
        0 <= ie * l <= 600,
        0 <= iu * l <= 600,
        0 <= e * (be + ie * l) <= 1_600_000_000,
        0 <= (times - e) * (bu + iu * l) <= 1_600_000_000,
        0 <= e * (be + ie * l) * m <= 16_000_000_000,
        0 <= (times - e) * (bu + iu * l) * m <= 16_000_000_000,
{
    let u = times - e;
    lemma_mul_mono(ie, l, 20, 30);
    lemma_mul_mono(iu, l, 20, 30);
    lemma_mul_mono(e, be + ie * l, 1_000_000, 1_600);
    lemma_mul_mono(u, bu + iu * l, 1_000_000, 1_600);
    lemma_mul_mono(e * (be + ie * l), m, 1_600_000_000, 10);
    lemma_mul_mono(u * (bu + iu * l), m, 1_600_000_000, 10);
    assert(flat <= (be + ie * l) * m <= 2 * flat) by (nonlinear_arith)
        requires
            1 <= l <= 30,
            0 <= ie,
            1 <= m,
            flat <= (be + ie) * m,
            (be + 30 * ie) * m <= 2 * flat,
    ;
    assert(flat <= (bu + iu * l) * m <= 2 * flat) by (nonlinear_arith)
        requires
            1 <= l <= 30,
            0 <= iu,
            1 <= m,
            flat <= (bu + iu) * m,
            (bu + 30 * iu) * m <= 2 * flat,
    ;
    assert(e * flat <= e * ((be + ie * l) * m) <= e * (2 * flat)) by (nonlinear_arith)
        requires 0 <= e, flat <= (be + ie * l) * m <= 2 * flat;
    assert(u * flat <= u * ((bu + iu * l) * m) <= u * (2 * flat)) by (nonlinear_arith)
        requires 0 <= u, flat <= (bu + iu * l) * m <= 2 * flat;
    assert(e * (be + ie * l) * m == e * ((be + ie * l) * m)) by (nonlinear_arith);
    assert(u * (bu + iu * l) * m == u * ((bu + iu * l) * m)) by (nonlinear_arith);
    assert(e * flat + u * flat == flat * times) by (nonlinear_arith)
        requires u == times - e;
    assert(e * (2 * flat) + u * (2 * flat) == 2 * (flat * times)) by (nonlinear_arith)
        requires u == times - e;
}

/// Contribution delta of one triple-mastery sub-skill channel.
fn blend_channel_x(w: u64, old_l: u8, new_l: u8, e: u64, times: u64, be: u64, ie: u64, bu: u64,
    iu: u64, m: u64, flat: u64) -> (d: i64)
    requires
        w <= SHARE_ONE,
        old_l <= 30,
        new_l <= 30,
        e <= times,
        1 <= times <= 1_000_000,
        be <= 1_000,
        ie <= 20,
        bu <= 1_000,
        iu <= 20,
        1 <= m <= 10,
        1 <= flat <= 10_000,
        flat <= (be + ie) * m,
        flat <= (bu + iu) * m,
        (be + 30 * ie) * m <= 2 * flat,
        (bu + 30 * iu) * m <= 2 * flat,
    ensures
        d == wrath_channel(w as int, old_l as int, new_l as int, e as int, times as int,
            be as int, ie as int, bu as int, iu as int, m as int, flat as int),
        -(SCALE as int) <= d <= 2 * SCALE,
{
    let nd = blend_num_x(new_l, e, times, be, ie, bu, iu, m, flat);
    let od = blend_num_x(old_l, e, times, be, ie, bu, iu, m, flat);
    proof {
        assert(flat * times >= 1) by (nonlinear_arith)
            requires flat >= 1, times >= 1;
    }
    let r = ratio_x(nd, od, Ghost(2));
    weighted_delta_x(w, r)
}

/// Contribution delta of the three sub-skills sharing the wrath mastery.
pub fn simulate_wrath(ba: &BA, ba_duration_sec: u64, old_mastery: u8, cur_mastery: u8) -> (c: i64)
    requires
        ba.wf(),
        ba_duration_sec <= 100_000,
        old_mastery <= 30,
        cur_mastery <= 30,
        ba.col(Skill::WrathOfEnlil).times_used >= 1,
        ba.col(Skill::SpikesRoyale).times_used >= 1,
        ba.col(Skill::LeapTornado).times_used >= 1,
    ensures
        c == wrath_contrib(*ba, ba_duration_sec as int, old_mastery as int, cur_mastery as int),
        -3 * SCALE <= c <= 6 * SCALE,
{
    proof {
        assert(ba.columns@[2].contribution <= SHARE_ONE && ba.columns@[2].times_used
            <= 1_000_000);
        assert(ba.columns@[3].contribution <= SHARE_ONE && ba.columns@[3].times_used
            <= 1_000_000);
        assert(ba.columns@[5].contribution <= SHARE_ONE && ba.columns@[5].times_used
            <= 1_000_000);
    }
    let e12 = ba_duration_sec / 12;
    let e6 = ba_duration_sec / 6;
    let tw = ba.get(Skill::WrathOfEnlil).times_used;
    let ts = ba.get(Skill::SpikesRoyale).times_used;
    let tt = ba.get(Skill::LeapTornado).times_used;
    let ew = if e12 <= tw { e12 } else { tw };
    let es = if e12 <= ts { e12 } else { ts };
    let et = if e6 <= tt { e6 } else { tt };
    let wrath = blend_channel_x(ba.get(Skill::WrathOfEnlil).contribution, old_mastery,
        cur_mastery, ew, tw, 605, 11, 550, 10, 10, 5150);
    let spikes = blend_channel_x(ba.get(Skill::SpikesRoyale).contribution, old_mastery,
        cur_mastery, es, ts, 740, 14, 695, 12, 4, 2560);
    let tornado = blend_channel_x(ba.get(Skill::LeapTornado).contribution, old_mastery,
        cur_mastery, et, tt, 590, 9, 510, 9, 4, 2000);
    wrath + spikes + tornado
}

/// Fixed-point linear-enhancement ratio through the flat-damage table.
pub fn enh_ratio_x(ft: &FdTable, old_l: u8, new_l: u8) -> (r: u64)
    requires
        ft.wf(),
        old_l <= 30,
        new_l <= 30,
    ensures
        r == enh_ratio(ft.percent@, old_l as int, new_l as int),
        r <= 11 * SCALE,
{
    proof {
        assert(ft.percent@[old_l as int] <= 1_000);
        assert(ft.percent@[new_l as int] <= 1_000);
    }
    let tn = ft.percent[new_l as usize];
    let told = ft.percent[old_l as usize];
    ratio_x(100 + tn as u64, 100 + told as u64, Ghost(11))
}

/// Contribution delta of the stepped-enhancement skill. It amplifies the
/// already-computed origin contribution and the mastery-adjusted share of the
/// first linear-enhancement channel instead of carrying its own share.
#[verifier::spinoff_prover]
#[verifier::rlimit(60)]
pub fn simulate_sylvidia(ba: &BA, old_enhance: u8, cur_enhance: u8, glory_contrib: i64,
    irk_ratio: u64) -> (c: i64)
    requires
        ba.wf(),
        old_enhance <= 30,
        cur_enhance <= 30,
        -(SCALE as int) <= glory_contrib <= 30 * SCALE,
        irk_ratio <= 11 * SCALE,
    ensures
        c == sylvidia_contrib(old_enhance as int, cur_enhance as int,
            ba.col(Skill::UnfadingGlory).contribution as int,
            ba.col(Skill::IrkallasWrath).contribution as int, glory_contrib as int,
            irk_ratio as int),
        -42 * SCALE <= c <= 42 * SCALE,
{
    proof {
        assert(ba.columns@[14].contribution <= SHARE_ONE);
        assert(ba.columns@[10].contribution <= SHARE_ONE);
    }
    let of = sylvidia_fd_x(old_enhance);
    let nf = sylvidia_fd_x(cur_enhance);
    let ratio = ratio_x(100 + nf, 100 + of, Ghost(2));
    let wg = ba.get(Skill::UnfadingGlory).contribution;
    let wi = ba.get(Skill::IrkallasWrath).contribution;
    proof {
        lemma_div_bound(wg as int * SCALE, SHARE_ONE as int, SCALE as int);
        lemma_mul_inequality(wi as int, SHARE_ONE as int, irk_ratio as int);
        assert((SHARE_ONE as int) * irk_ratio == irk_ratio * SHARE_ONE) by (nonlinear_arith);
        lemma_div_bound(wi as int * irk_ratio, SHARE_ONE as int, irk_ratio as int);
        lemma_mul_mono(wi as int, irk_ratio as int, SHARE_ONE as int, 11 * SCALE);
    }
    let t1 = wg * SCALE / SHARE_ONE;
    let t3 = wi * irk_ratio / SHARE_ONE;
    let bracket: i128 = t1 as i128 + glory_contrib as i128 + t3 as i128;
    let dm: i128 = ratio as i128 - SCALE as i128;
    proof {
        assert(dm * bracket <= 42 * SCALE * SCALE && dm * bracket >= -42 * (SCALE as int)
            * SCALE) by (nonlinear_arith)
            requires
                -(SCALE as int) <= dm <= SCALE,
                -(SCALE as int) <= bracket <= 42 * SCALE,
                SCALE == 1_000_000_000,
        ;
    }
    let prod: i128 = dm * bracket;
    let c = crate::fixed::div_floor(prod, SCALE as i128);
    proof {
        lemma_div_is_ordered(prod as int, 42 * (SCALE as int) * SCALE, SCALE as int);
        lemma_div_is_ordered(-42 * (SCALE as int) * SCALE, prod as int, SCALE as int);
        vstd::arithmetic::div_mod::lemma_div_multiples_vanish(42 * SCALE, SCALE as int);
        vstd::arithmetic::div_mod::lemma_div_multiples_vanish(-42 * SCALE, SCALE as int);
        assert((SCALE as int) * (42 * SCALE) == 42 * (SCALE as int) * SCALE) by (nonlinear_arith);
        assert((SCALE as int) * (-42 * SCALE) == -42 * (SCALE as int) * SCALE)
            by (nonlinear_arith);
    }
    c as i64
}

/// The aggregate simulator: the fractional damage change of `cfg` against
/// the reference configuration, in fixed point. A pure function of the
/// context and the configuration, with the result pinned to
/// `simulate_spec`.
pub fn simulate_hexacores(ctx: &SimContext, cfg: &HexacoreSpec) -> (fd: i64)
    requires
        ctx.wf(),
        cfg.in_range_spec(),
    ensures
        fd == simulate_spec(*ctx, cfg@),
        -50 * SCALE <= fd <= 105 * SCALE,
{
    proof {
        assert(ctx.base@[0] <= 30 && ctx.base@[1] <= 30 && ctx.base@[2] <= 30 && ctx.base@[3]
            <= 30 && ctx.base@[4] <= 30 && ctx.base@[6] <= 30);
        assert(cfg@[0] <= 30 && cfg@[1] <= 30 && cfg@[2] <= 30 && cfg@[3] <= 30 && cfg@[4] <= 30
            && cfg@[6] <= 30);
        assert(ctx.ba.columns@[10].contribution <= SHARE_ONE);
        assert(ctx.ba.columns@[11].contribution <= SHARE_ONE);
    }
    let base = &ctx.base;
    let glory_c = simulate_origin(&ctx.ba, base.level_at(0), cfg.level_at(0), &ctx.params);
    let ish = simulate_ishtars(&ctx.ba, base.level_at(1), cfg.level_at(1), base.level_at(2),
        cfg.level_at(2));
    let wr = simulate_wrath(&ctx.ba, ctx.params.ba_duration_sec, base.level_at(2),
        cfg.level_at(2));
    let irk_r = enh_ratio_x(&ctx.fd_table, base.level_at(3), cfg.level_at(3));
    let irk_c = weighted_delta_x(ctx.ba.get(Skill::IrkallasWrath).contribution, irk_r);
    let royal_r = enh_ratio_x(&ctx.fd_table, base.level_at(4), cfg.level_at(4));
    let royal_c = weighted_delta_x(ctx.ba.get(Skill::RoyalKnights).contribution, royal_r);
    let syl = simulate_sylvidia(&ctx.ba, base.level_at(6), cfg.level_at(6), glory_c, irk_r);
    glory_c + ish + wr + irk_c + royal_c + syl
}

/// A damage value's ratio against itself is exactly one.
pub proof fn lemma_ratio_self(d: int)
    requires
        d >= 1,
    ensures
        ratio_fp(d, d) == SCALE,
{
    vstd::arithmetic::div_mod::lemma_div_multiples_vanish(SCALE as int, d);
}

/// The breakpoint ratio of a level against itself is exactly one.
pub proof fn lemma_bp_ratio_self(l: int, b: int, f: int)
    requires
        0 <= b <= 10_000,
        0 <= f,
        10 * f <= 9 * SCALE,
    ensures
        bp_ratio(l, l, b, f) == SCALE,
{
    lemma_bp_bounds(l, b, f);
    let n = bp_num(l, b, f);
    let d = bp_den(l, b, f);
    assert(n * d > 0) by (nonlinear_arith)
        requires n > 0, d > 0;
    assert(d * n == n * d) by (nonlinear_arith);
    vstd::arithmetic::div_mod::lemma_div_multiples_vanish(SCALE as int, n * d);
}

/// Simulating the reference configuration against itself yields exactly
/// zero: every family's ratio is exactly one, and each weighted delta
/// cancels exactly.
pub proof fn lemma_simulate_reference_is_zero(ctx: SimContext)
    requires
        ctx.wf(),
    ensures
        simulate_spec(ctx, ctx.base@) == 0,
{
    let b = ctx.params.boss_dmg as int;
    let f = ctx.params.remaining_pdr as int;
    let base = ctx.base@;
    assert(base[0] >= 1 && base[0] <= 30 && base[1] <= 30 && base[2] <= 30 && base[3] <= 30
        && base[4] <= 30 && base[6] <= 30);
    // Origin: raw ratio and breakpoint ratio are both exactly one.
    let go = glory_damage(base[0] as int);
    lemma_ratio_self(go);
    lemma_bp_ratio_self(base[0] as int, b, f);
    assert(origin_combined(base[0] as int, base[0] as int, b, f) == SCALE) by {
        vstd::arithmetic::div_mod::lemma_div_multiples_vanish(SCALE as int, SCALE as int);
    }
    // Rings.
    lemma_ratio_self(ishtars_damage(base[1] as int));
    if brand_damage(base[1] as int, base[2] as int) != 0 {
        lemma_ratio_self(brand_damage(base[1] as int, base[2] as int));
    }
    // Wrath channels: the blended totals are positive, so each self-ratio is
    // exactly one.
    let dur = ctx.params.ba_duration_sec as int;
    lemma_div_bound(dur, 12, 100_000);
    lemma_div_bound(dur, 6, 100_000);
    let tw = ctx.ba.col(Skill::WrathOfEnlil).times_used as int;
    let ts = ctx.ba.col(Skill::SpikesRoyale).times_used as int;
    let tt = ctx.ba.col(Skill::LeapTornado).times_used as int;
    let ew = enhanced_uses(dur, 12, tw);
    let es = enhanced_uses(dur, 12, ts);
    let et = enhanced_uses(dur, 6, tt);
    assert(ctx.ba.columns@[2].times_used <= 1_000_000);
    assert(ctx.ba.columns@[3].times_used <= 1_000_000);
    assert(ctx.ba.columns@[5].times_used <= 1_000_000);
    lemma_blend_positive(base[2] as int, ew, tw, 605, 11, 550, 10, 10, 5150);
    lemma_blend_positive(base[2] as int, es, ts, 740, 14, 695, 12, 4, 2560);
    lemma_blend_positive(base[2] as int, et, tt, 590, 9, 510, 9, 4, 2000);
    lemma_ratio_self(blend_num(base[2] as int, ew, tw - ew, tw, 605, 11, 550, 10, 10, 5150));
    lemma_ratio_self(blend_num(base[2] as int, es, ts - es, ts, 740, 14, 695, 12, 4, 2560));
    lemma_ratio_self(blend_num(base[2] as int, et, tt - et, tt, 590, 9, 510, 9, 4, 2000));
    // Linear enhancements.
    lemma_ratio_self(100 + ctx.fd_table.percent@[base[3] as int]);
    lemma_ratio_self(100 + ctx.fd_table.percent@[base[4] as int]);
    // Stepped enhancement: ratio one makes the whole cross term zero.
    lemma_ratio_self(100 + sylvidia_fd(base[6] as int));
}

/// A blended total is strictly positive for any level when at least one use
/// happened.
proof fn lemma_blend_positive(l: int, e: int, times: int, be: int, ie: int, bu: int, iu: int,
    m: int, flat: int)
    requires
        0 <= l <= 30,
        0 <= e <= times,
        1 <= times <= 1_000_000,
        0 <= be <= 1_000,
        0 <= ie <= 20,
        0 <= bu <= 1_000,
        0 <= iu <= 20,
        1 <= m <= 10,
        1 <= flat <= 10_000,
        flat <= (be + ie) * m,
        flat <= (bu + iu) * m,
        (be + 30 * ie) * m <= 2 * flat,
        (bu + 30 * iu) * m <= 2 * flat,
    ensures
        blend_num(l, e, times - e, times, be, ie, bu, iu, m, flat) >= 1,
{
    if l == 0 {
        assert(flat * times >= 1) by (nonlinear_arith)
            requires flat >= 1, times >= 1;
    } else {
        lemma_blend_range(l, e, times, be, ie, bu, iu, m, flat);
        assert(flat * times >= 1) by (nonlinear_arith)
            requires flat >= 1, times >= 1;
    }
}

/// Raw damage of the origin skill is non-decreasing in its level.
pub proof fn lemma_glory_damage_monotone(l1: int, l2: int)
    requires
        0 <= l1 <= l2,
    ensures
        glory_damage(l1) <= glory_damage(l2),
{
}

/// Raw damage of the primary ring is non-decreasing in its level.
pub proof fn lemma_ishtars_damage_monotone(l1: int, l2: int)
    requires
        0 <= l1 <= l2,
    ensures
        ishtars_damage(l1) <= ishtars_damage(l2),
{
}

/// Raw damage of the brand channel is non-decreasing in both mastery levels.
pub proof fn lemma_brand_damage_monotone(a1: int, b1: int, a2: int, b2: int)
    requires
        0 <= a1 <= a2,
        0 <= b1 <= b2,
    ensures
        brand_damage(a1, b1) <= brand_damage(a2, b2),
{
}

/// The stepped-enhancement percent bonus is non-decreasing in its level.
pub proof fn lemma_sylvidia_fd_monotone(l1: int, l2: int)
    requires
        0 <= l1 <= l2,
    ensures
        sylvidia_fd(l1) <= sylvidia_fd(l2),
{
    if l1 > 0 {
        lemma_div_is_ordered(l1 + 5, l2 + 5, 6);
    } else if l2 > 0 {
        lemma_div_pos_is_pos(l2 + 5, 6);
    }
}

/// A blended sub-skill total is non-decreasing in the shared mastery level.
pub proof fn lemma_blend_monotone(l1: int, l2: int, e: int, times: int, be: int, ie: int,
    bu: int, iu: int, m: int, flat: int)
    requires
        0 <= l1 <= l2 <= 30,
        0 <= e <= times,
        1 <= times <= 1_000_000,
        0 <= be <= 1_000,
        0 <= ie <= 20,
        0 <= bu <= 1_000,
        0 <= iu <= 20,
        1 <= m <= 10,
        1 <= flat <= 10_000,
        flat <= (be + ie) * m,
        flat <= (bu + iu) * m,
        (be + 30 * ie) * m <= 2 * flat,
        (bu + 30 * iu) * m <= 2 * flat,
    ensures
        blend_num(l1, e, times - e, times, be, ie, bu, iu, m, flat) <= blend_num(l2, e, times - e,
            times, be, ie, bu, iu, m, flat),
{
    let u = times - e;
    if l1 == 0 && l2 > 0 {
        lemma_blend_range(l2, e, times, be, ie, bu, iu, m, flat);
    } else if l1 > 0 {
        assert(e * (be + ie * l1) * m <= e * (be + ie * l2) * m) by (nonlinear_arith)
            requires 0 <= e, 0 <= m, 0 <= ie, l1 <= l2;
        assert(u * (bu + iu * l1) * m <= u * (bu + iu * l2) * m) by (nonlinear_arith)
            requires 0 <= u, 0 <= m, 0 <= iu, l1 <= l2;
    }
}

/// The weighted delta is non-decreasing in the channel's ratio.
pub proof fn lemma_delta_monotone(w: int, r1: int, r2: int)
    requires
        0 <= w,
        0 <= r1 <= r2,
    ensures
        weighted_delta(w, r1) <= weighted_delta(w, r2),
{
    assert(w * r1 <= w * r2) by (nonlinear_arith)
        requires 0 <= w, r1 <= r2;
    lemma_div_is_ordered(w * r1, w * r2, SHARE_ONE as int);
}

/// Cumulative entries of the flat-damage table are monotone between levels.
pub proof fn lemma_fd_entries_monotone(ft: FdTable, a: int, b: int)
    requires
        ft.wf(),
        0 <= a <= b < 31,
    ensures
        ft.percent@[a] <= ft.percent@[b],
    decreases b - a,
{
    if a < b {
        lemma_fd_entries_monotone(ft, a, b - 1);
        assert(ft.percent@[b - 1] <= ft.percent@[b]);
    }
}

/// The linear-enhancement ratio is non-decreasing in the new level.
pub proof fn lemma_enh_ratio_monotone(ft: FdTable, old_l: int, n1: int, n2: int)
    requires
        ft.wf(),
        0 <= old_l < 31,
        0 <= n1 <= n2 < 31,
    ensures
        enh_ratio(ft.percent@, old_l, n1) <= enh_ratio(ft.percent@, old_l, n2),
{
    lemma_fd_entries_monotone(ft, n1, n2);
    let v1 = 100 + ft.percent@[n1];
    let v2 = 100 + ft.percent@[n2];
    vstd::arithmetic::mul::lemma_mul_inequality(v1 as int, v2 as int, SCALE as int);
    lemma_div_is_ordered(v1 * SCALE, v2 * SCALE, 100 + ft.percent@[old_l]);
}

/// The origin skill's isolated weighted contribution is non-decreasing in
/// its level, across the 10/20/30 breakpoint thresholds included, for every
/// supported boss bonus and remaining pdr: the raw-damage growth and the
/// breakpoint-multiplier growth never pull in opposite directions.
pub proof fn lemma_origin_contrib_monotone(w: int, old_l: int, n1: int, n2: int, b: int, f: int)
    requires
        0 <= w,
        0 <= old_l <= 30,
        0 <= n1 <= n2 <= 30,
        0 <= b <= 10_000,
        0 <= f,
        10 * f <= 9 * SCALE,
    ensures
        origin_contrib(w, old_l, n1, b, f) <= origin_contrib(w, old_l, n2, b, f),
{
    if glory_damage(old_l) != 0 {
        let go = glory_damage(old_l);
        let g1 = glory_damage(n1);
        let g2 = glory_damage(n2);
        lemma_glory_damage_monotone(n1, n2);
        let r1 = ratio_fp(g1, go);
        let r2 = ratio_fp(g2, go);
        assert(r1 <= r2) by {
            vstd::arithmetic::mul::lemma_mul_inequality(g1, g2, SCALE as int);
            lemma_div_is_ordered(g1 * SCALE, g2 * SCALE, go);
        }
        assert(0 <= r1) by {
            vstd::arithmetic::mul::lemma_mul_nonnegative(g1, SCALE as int);
            lemma_div_pos_is_pos(g1 * SCALE, go);
        }
        lemma_bp_bounds(n1, b, f);
        lemma_bp_bounds(n2, b, f);
        lemma_bp_bounds(old_l, b, f);
        lemma_bp_monotone(n1, n2, b, f);
        let nn1 = bp_num(n1, b, f);
        let nn2 = bp_num(n2, b, f);
        let dd1 = bp_den(n1, b, f);
        let dd2 = bp_den(n2, b, f);
        let no = bp_num(old_l, b, f);
        let dold = bp_den(old_l, b, f);
        let q1 = bp_ratio(old_l, n1, b, f);
        let q2 = bp_ratio(old_l, n2, b, f);
        assert(q1 <= q2) by {
            assert((nn1 * dold * SCALE) * (dd2 * no) <= (nn2 * dold * SCALE) * (dd1 * no))
                by (nonlinear_arith)
                requires
                    nn1 * dd2 <= nn2 * dd1,
                    0 <= dold,
                    0 <= no,
                    0 <= SCALE,
            ;
            assert(dd1 * no > 0) by (nonlinear_arith)
                requires dd1 > 0, no > 0;
            assert(dd2 * no > 0) by (nonlinear_arith)
                requires dd2 > 0, no > 0;
            assert(0 <= nn1 * dold * SCALE) by (nonlinear_arith)
                requires 0 <= nn1, 0 <= dold, 0 <= SCALE;
            assert(0 <= nn2 * dold * SCALE) by (nonlinear_arith)
                requires 0 <= nn2, 0 <= dold, 0 <= SCALE;
            lemma_div_le_div(nn1 * dold * SCALE, dd1 * no, nn2 * dold * SCALE, dd2 * no);
        }
        assert(0 <= q1) by {
            assert(0 <= nn1 * dold * SCALE) by (nonlinear_arith)
                requires 0 <= nn1, 0 <= dold, 0 <= SCALE;
            assert(dd1 * no > 0) by (nonlinear_arith)
                requires dd1 > 0, no > 0;
            lemma_div_pos_is_pos(nn1 * dold * SCALE, dd1 * no);
        }
        let c1 = origin_combined(old_l, n1, b, f);
        let c2 = origin_combined(old_l, n2, b, f);
        assert(c1 <= c2) by {
            lemma_mul_mono(r1, q1, r2, q2);
            lemma_div_is_ordered(r1 * q1, r2 * q2, SCALE as int);
        }
        assert(0 <= c1) by {
            vstd::arithmetic::mul::lemma_mul_nonnegative(r1, q1);
            lemma_div_pos_is_pos(r1 * q1, SCALE as int);
        }
        lemma_delta_monotone(w, c1, c2);
    }
}

/// Raising the origin skill from the minimum to level ten flips its
/// breakpoint multiplier from one to the level-ten formula: below ten the
/// multiplier ratio is exactly one, so the relative change follows the raw
/// damage alone; at ten the ratio is strictly above one whenever the
/// remaining pdr is at least five fixed-point units (five parts in 1e9), and
/// the level-ten relative change is strictly greater than the level-nine
/// one for every supported parameter.
pub proof fn lemma_origin_level_ten_gap(b: int, f: int)
    requires
        0 <= b <= 10_000,
        0 <= f,
        10 * f <= 9 * SCALE,
    ensures
        bp_ratio(1, 9, b, f) == SCALE,
        f >= 5 ==> bp_ratio(1, 10, b, f) > SCALE,
        origin_combined(1, 10, b, f) > origin_combined(1, 9, b, f),
{
    let s = SCALE as int;
    // Below the first threshold both multipliers are one.
    assert(bp_num(9, b, f) == 1 && bp_den(9, b, f) == 1 && bp_num(1, b, f) == 1 && bp_den(1, b, f)
        == 1);
    assert(bp_ratio(1, 9, b, f) == fdiv(s, 1));
    let r9 = ratio_fp(546, 434);
    let r10 = ratio_fp(560, 434);
    vstd::arithmetic::div_mod::lemma_fundamental_div_mod(546 * s, 434);
    vstd::arithmetic::div_mod::lemma_mod_bound(546 * s, 434);
    vstd::arithmetic::div_mod::lemma_fundamental_div_mod(560 * s, 434);
    vstd::arithmetic::div_mod::lemma_mod_bound(560 * s, 434);
    assert(434 * r9 <= 546 * s);
    assert(434 * r10 > 560 * s - 434);
    assert(r10 > r9);
    assert(r10 >= 0) by {
        vstd::arithmetic::mul::lemma_mul_nonnegative(560, s);
        lemma_div_pos_is_pos(560 * s, 434);
    }
    // origin_combined at nine: the multiplier ratio is exactly one.
    assert(origin_combined(1, 9, b, f) == r9) by {
        vstd::arithmetic::div_mod::lemma_div_multiples_vanish(r9, s);
        vstd::arithmetic::mul::lemma_mul_is_commutative(r9, s);
    }
    // The level-ten multiplier ratio is at least one.
    let num = (10 * s - 8 * f) * s;
    let den = 10 * s - 10 * f;
    assert(bp_ratio(1, 10, b, f) == fdiv(num, den));
    let q10 = fdiv(num, den);
    assert(q10 >= s) by {
        assert(num >= den * s) by (nonlinear_arith)
            requires
                num == (10 * s - 8 * f) * s,
                den == 10 * s - 10 * f,
                0 <= f,
                10 * f <= 9 * s,
                s == 1_000_000_000,
        ;
        lemma_div_is_ordered(den * s, num, den);
        vstd::arithmetic::div_mod::lemma_div_multiples_vanish(s, den);
        vstd::arithmetic::mul::lemma_mul_is_commutative(s, den);
    }
    if f >= 5 {
        assert(q10 >= s + 1) by {
            assert(num >= den * (s + 1)) by (nonlinear_arith)
                requires
                    num == (10 * s - 8 * f) * s,
                    den == 10 * s - 10 * f,
                    f >= 5,
                    10 * f <= 9 * s,
                    s == 1_000_000_000,
            ;
            lemma_div_is_ordered(den * (s + 1), num, den);
            vstd::arithmetic::div_mod::lemma_div_multiples_vanish(s + 1, den);
            vstd::arithmetic::mul::lemma_mul_is_commutative(s + 1, den);
        }
    }
    // The combined change at ten dominates its raw part, which already
    // strictly exceeds the level-nine change.
    assert(origin_combined(1, 10, b, f) >= r10) by {
        assert(r10 * q10 >= r10 * s) by (nonlinear_arith)
            requires r10 >= 0, q10 >= s;
        lemma_div_is_ordered(r10 * s, r10 * q10, s);
        vstd::arithmetic::div_mod::lemma_div_multiples_vanish(r10, s);
        vstd::arithmetic::mul::lemma_mul_is_commutative(r10, s);
    }
}

} // verus!
