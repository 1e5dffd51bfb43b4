//! Combat parameters: enemy penetration-after-resist derived by compounding a
//! list of percentage reductions, checked against the reference stats value,
//! plus the boss damage bonus and the length of the reference window.

use vstd::prelude::*;
use crate::types::SCALE;
use crate::fixed::{fdiv, lemma_div_bound, lemma_mul_mono};

verus! {

/// Every penetration source is a percentage, at most one hundred.
pub open spec fn sources_wf(s: Seq<u8>) -> bool {
    forall|i: int| 0 <= i < s.len() ==> #[trigger] s[i] <= 100
}

/// Remaining defense fraction (fixed point, `SCALE` is one) after compounding
/// the sources of `s` left to right onto `p0`, flooring at each step.
pub open spec fn compound_from(p0: int, s: Seq<u8>) -> int
    decreases s.len(),
{
    if s.len() == 0 {
        p0
    } else {
        fdiv(compound_from(p0, s.drop_last()) * (100 - s.last()), 100)
    }
}

/// Compounding percentage reductions never increases the remaining fraction
/// and never drives it negative.
pub proof fn lemma_compound_bounds(p0: int, s: Seq<u8>)
    requires
        sources_wf(s),
        0 <= p0 <= SCALE,
    ensures
        0 <= compound_from(p0, s) <= p0,
    decreases s.len(),
{
    if s.len() > 0 {
        lemma_compound_bounds(p0, s.drop_last());
        let p = compound_from(p0, s.drop_last());
        let f = 100 - s.last();
        lemma_mul_mono(p, f, p, 100);
        lemma_div_bound(p * f, 100, p);
    }
}

/// Remaining defense fraction after compounding all sources of `s`, starting
/// from a full (unpenetrated) defense of one.
pub fn compound_ied(p0: u64, sources: &Vec<u8>) -> (p: u64)
    requires
        sources_wf(sources@),
        p0 <= SCALE,
    ensures
        p == compound_from(p0 as int, sources@),
        p <= p0,
{
    let mut p: u64 = p0;
    let mut i: usize = 0;
    proof {
        assert(sources@.take(0) =~= Seq::<u8>::empty());
    }
    while i < sources.len()
        invariant
            i <= sources.len(),
            sources_wf(sources@),
            p0 <= SCALE,
            p == compound_from(p0 as int, sources@.take(i as int)),
            p <= p0,
        decreases sources.len() - i,
    {
        let src = sources[i];
        proof {
            assert(sources@[i as int] <= 100);
            lemma_mul_mono(p as int, 100 - src, p as int, 100);
            lemma_div_bound(p as int * (100 - src), 100, p as int);
            assert(sources@.take(i + 1).drop_last() =~= sources@.take(i as int));
            assert(sources@.take(i + 1).last() == sources@[i as int]);
        }
        p = p * (100 - src as u64) / 100;
        i += 1;
    }
    proof {
        assert(sources@.take(sources@.len() as int) =~= sources@);
    }
    p
}

/// The computed remaining defense fraction agrees with the stats-window IED
/// (given in ten-thousandths) to three decimal places of percent.
pub open spec fn ied_matches(defense_pen: int, stats_ied_myriad: int) -> bool {
    fdiv((SCALE - defense_pen) * 1000, SCALE as int) == fdiv(stats_ied_myriad * 1000, 10_000)
}

pub fn check_ied(defense_pen: u64, stats_ied_myriad: u64) -> (ok: bool)
    requires
        defense_pen <= SCALE,
        stats_ied_myriad <= 10_000,
    ensures
        ok == ied_matches(defense_pen as int, stats_ied_myriad as int),
{
    let lhs = (SCALE - defense_pen) * 1000 / SCALE;
    let rhs = stats_ied_myriad * 1000 / 10_000;
    proof {
        lemma_div_bound((SCALE - defense_pen) as int * 1000, SCALE as int, 1000);
        lemma_div_bound(stats_ied_myriad as int * 1000, 10_000, 1000);
    }
    lhs == rhs
}

/// Fixed combat scalars used by the damage model. `remaining_pdr` is the
/// fraction of enemy defense resistance left after all penetration sources,
/// in fixed point; `boss_dmg` is the damage-plus-boss-damage percentage from
/// the stats window, without the base hundred.
#[derive(Clone, Copy, Debug)]
pub struct CombatParams {
    pub boss_dmg: u64,
    pub remaining_pdr: u64,
    pub ba_duration_sec: u64,
}

impl CombatParams {
    /// Supported parameter ranges: the model requires strictly positive
    /// remaining defense (pdr below ninety percent) and bounded scalars.
    pub open spec fn wf(self) -> bool {
        &&& self.boss_dmg <= 10_000
        &&& 10 * self.remaining_pdr <= 9 * SCALE
        &&& self.ba_duration_sec <= 100_000
    }
}

/// The remaining pdr implied by the penetration sources, the debuffs applied
/// after the stats-window check, and the enemy's base defense resistance.
pub open spec fn remaining_pdr_spec(
    sources: Seq<u8>,
    debuffs: Seq<u8>,
    enemy_pdr_percent: int,
) -> int {
    fdiv(compound_from(compound_from(SCALE as int, sources), debuffs) * enemy_pdr_percent, 100)
}

/// Builds the combat parameters. Returns `None` exactly when the computed IED
/// does not match the stats-window value (a stale-table guard that callers
/// treat as fatal at startup) or when the resulting remaining pdr lies
/// outside the supported range.
pub fn combat_params(
    boss_dmg: u64,
    enemy_pdr_percent: u64,
    sources: &Vec<u8>,
    debuffs: &Vec<u8>,
    stats_ied_myriad: u64,
    ba_duration_sec: u64,
) -> (r: Option<CombatParams>)
    requires
        sources_wf(sources@),
        sources_wf(debuffs@),
        boss_dmg <= 10_000,
        enemy_pdr_percent <= 1_000,
        stats_ied_myriad <= 10_000,
        ba_duration_sec <= 100_000,
    ensures
        r is Some <==> (ied_matches(compound_from(SCALE as int, sources@), stats_ied_myriad as int)
            && 10 * remaining_pdr_spec(sources@, debuffs@, enemy_pdr_percent as int) <= 9 * SCALE),
        r is Some ==> (r->Some_0 == CombatParams {
            boss_dmg,
            remaining_pdr: remaining_pdr_spec(sources@, debuffs@, enemy_pdr_percent as int) as u64,
            ba_duration_sec,
        } && r->Some_0.wf()),
{
    let defense_pen = compound_ied(SCALE, sources);
    if !check_ied(defense_pen, stats_ied_myriad) {
        return None;
    }
    let after_debuffs = compound_ied(defense_pen, debuffs);
    proof {
        lemma_mul_mono(after_debuffs as int, enemy_pdr_percent as int, SCALE as int, 1_000);
        lemma_div_bound(after_debuffs as int * enemy_pdr_percent, 100, 10 * SCALE);
    }
    let pdr = after_debuffs * enemy_pdr_percent / 100;
    if 10 * pdr <= 9 * SCALE {
        Some(CombatParams { boss_dmg, remaining_pdr: pdr, ba_duration_sec })
    } else {
        None
    }
}

} // verus!
