// Exercises the planner on the published reference tables: the combat
// parameter check, the simulator's exact zero on the reference
// configuration, the origin breakpoint gap, the efficiency root, and the
// greedy search run to the fully maxed configuration.

use hexaplan::calcs::{simulate_hexacores, simulate_origin, SimContext};
use hexaplan::combat::{check_ied, combat_params, compound_ied, CombatParams};
use hexaplan::search::{
    best_next_skill, differing_skills, fd_per_cost, fd_percent, nth_root, should_display,
    upgrade_path,
};
use hexaplan::types::{BAColumn, CostTables, FdTable, HexacoreSpec, Skill, BA};

const SCALE: u64 = 1_000_000_000;

fn published_ba() -> BA {
    let raw: [(u64, u64); 15] = [
        (672, 969),
        (502, 314),
        (921, 174),
        (326, 124),
        (294, 1222),
        (171, 88),
        (141, 78),
        (524, 148),
        (466, 278),
        (345, 573),
        (2801, 164),
        (743, 300),
        (218, 53),
        (0, 0),
        (1120, 205),
    ];
    let mut columns = [BAColumn { contribution: 0, times_used: 0 }; 15];
    for (i, &(c, t)) in raw.iter().enumerate() {
        columns[i] = BAColumn { contribution: c, times_used: t };
    }
    BA { columns }
}

fn ied_sources() -> Vec<u8> {
    vec![31, 20, 30, 10, 5, 5, 20, 10, 3, 3, 40, 10, 30, 10, 5, 5, 40, 36, 10]
}

fn published_params() -> CombatParams {
    combat_params(900, 300, &ied_sources(), &Vec::new(), 9774, 540).unwrap()
}

fn published_costs() -> CostTables {
    let mut skill = [0u32; 31];
    let mut mastery = [0u32; 31];
    let mut enhancement = [0u32; 31];
    for l in 1..31u32 {
        skill[l as usize] = skill[l as usize - 1] + 3 + l / 2;
        mastery[l as usize] = mastery[l as usize - 1] + 2 + l / 3;
        enhancement[l as usize] = enhancement[l as usize - 1] + 1 + l / 4;
    }
    CostTables { skill, mastery, enhancement }
}

fn published_fd() -> FdTable {
    let mut percent = [0u32; 31];
    for l in 1..31u32 {
        percent[l as usize] = l;
    }
    FdTable { percent }
}

fn published_ctx() -> SimContext {
    SimContext {
        ba: published_ba(),
        params: published_params(),
        base: HexacoreSpec::new([1, 1, 0, 1, 0, 0, 0]),
        fd_table: published_fd(),
    }
}

#[test]
fn ied_matches_stats_window() {
    // The nineteen published sources compound to the documented 97.74%.
    let pen = compound_ied(SCALE, &ied_sources());
    assert!(check_ied(pen, 9774));
    assert!(!check_ied(pen, 9000));
}

#[test]
fn combat_params_rejects_stale_ied() {
    assert!(combat_params(900, 300, &ied_sources(), &Vec::new(), 9774, 540).is_some());
    // A stale stats-window value makes the startup check fail.
    assert!(combat_params(900, 300, &ied_sources(), &Vec::new(), 9000, 540).is_none());
}

#[test]
fn reference_configuration_simulates_to_zero() {
    let ctx = published_ctx();
    let base = ctx.base;
    assert_eq!(simulate_hexacores(&ctx, &base), 0);
}

#[test]
fn all_zero_configuration_is_computable() {
    // The end-to-end scenario: both the all-zero and the reference
    // configurations evaluate without any division fault.
    let ctx = published_ctx();
    let zero = HexacoreSpec::new([0; 7]);
    let down = simulate_hexacores(&ctx, &zero);
    assert!(down < 0);
    assert_eq!(fd_percent(&ctx, &zero), Some(0));
    assert!(fd_percent(&ctx, &ctx.base.clone()).unwrap() > 0);
}

#[test]
fn simulate_is_deterministic() {
    let ctx = published_ctx();
    let cfg = HexacoreSpec::new([10, 5, 3, 7, 2, 1, 4]);
    assert_eq!(simulate_hexacores(&ctx, &cfg), simulate_hexacores(&ctx, &cfg));
}

#[test]
fn origin_breakpoint_gap_at_level_ten() {
    // Raising the origin skill 1 -> 10 flips the breakpoint multiplier from
    // one to the level-ten formula: the jump 9 -> 10 is strictly larger than
    // any single raw-damage step below it.
    let ba = published_ba();
    let params = published_params();
    let at9 = simulate_origin(&ba, 1, 9, &params);
    let at10 = simulate_origin(&ba, 1, 10, &params);
    let at8 = simulate_origin(&ba, 1, 8, &params);
    assert!(at10 > at9);
    assert!(at10 - at9 > at9 - at8);
}

#[test]
fn origin_contribution_monotone_in_level() {
    let ba = published_ba();
    let params = published_params();
    let mut prev = simulate_origin(&ba, 1, 1, &params);
    assert_eq!(prev, 0);
    for l in 2..=30u8 {
        let cur = simulate_origin(&ba, 1, l, &params);
        assert!(cur > prev);
        prev = cur;
    }
}

#[test]
fn cost_zero_and_monotone() {
    let t = published_costs();
    let zero = HexacoreSpec::new([0; 7]);
    assert_eq!(zero.cost(&t), 0);
    let mut prev = zero.cost(&t);
    for l in 1..=30u8 {
        let c = HexacoreSpec::new([l, 0, 0, 0, 0, 0, 0]).cost(&t);
        assert!(c > prev);
        prev = c;
    }
    // The fully maxed configuration has the largest cost of all.
    let goal = HexacoreSpec::new([30; 7]);
    assert!(goal.cost(&t) > HexacoreSpec::new([30, 30, 30, 30, 30, 30, 29]).cost(&t));
}

#[test]
fn nth_root_exact_values() {
    // (2.0)^2 == 4.0 exactly in fixed point.
    assert_eq!(nth_root(4 * SCALE, 2), 2 * SCALE);
    // The first root is the ratio itself.
    assert_eq!(nth_root(7 * SCALE + 123, 1), 7 * SCALE + 123);
    // Cube root of 8.0.
    assert_eq!(nth_root(8 * SCALE, 3), 2 * SCALE);
}

#[test]
fn fd_per_cost_exact_and_none_cases() {
    // Gain ratio 4.0 over two cost units: sqrt(4.0) - 1 = 1.0 per unit.
    assert_eq!(fd_per_cost(3 * SCALE as i64, 0, 2, 0), Some(SCALE as i64));
    // A step that adds no cost has no efficiency.
    assert_eq!(fd_per_cost(3 * SCALE as i64, 0, 5, 5), None);
    assert_eq!(fd_per_cost(3 * SCALE as i64, 0, 4, 5), None);
    // A baseline with no damage left has no efficiency either.
    assert_eq!(fd_per_cost(0, -(SCALE as i64), 1, 0), None);
}

#[test]
fn best_next_skill_is_idempotent() {
    let ctx = published_ctx();
    let t = published_costs();
    let cur = HexacoreSpec::new([1, 0, 0, 0, 0, 0, 0]);
    let a = best_next_skill(&ctx, &t, &cur).unwrap();
    let b = best_next_skill(&ctx, &t, &cur).unwrap();
    assert_eq!(a.levels, b.levels);
    // The step raises exactly one skill.
    let d = differing_skills(&a, &cur);
    assert_eq!(d.len(), 1);
}

#[test]
fn best_next_skill_none_only_at_goal() {
    let ctx = published_ctx();
    let t = published_costs();
    let goal = HexacoreSpec::new([30; 7]);
    assert!(best_next_skill(&ctx, &t, &goal).is_none());
    let almost = HexacoreSpec::new([30, 30, 30, 30, 30, 30, 29]);
    let next = best_next_skill(&ctx, &t, &almost).unwrap();
    assert_eq!(next.levels, [30; 7]);
}

#[test]
fn search_reaches_goal() {
    // The greedy search from (origin=1, others=0) terminates at the fully
    // maxed configuration in at most one step per missing level.
    let ctx = published_ctx();
    let t = published_costs();
    let start = HexacoreSpec::new([1, 0, 0, 0, 0, 0, 0]);
    let path = upgrade_path(&ctx, &t, &start);
    assert_eq!(path[0].levels, start.levels);
    assert_eq!(path[path.len() - 1].levels, [30; 7]);
    assert!(path.len() <= 210);
    for w in path.windows(2) {
        let total0: u32 = w[0].levels.iter().map(|&l| l as u32).sum();
        let total1: u32 = w[1].levels.iter().map(|&l| l as u32).sum();
        assert!(total1 > total0);
        assert!(w[1].valid());
    }
}

#[test]
fn differing_skills_and_display_gate() {
    let a = HexacoreSpec::new([1, 0, 0, 0, 0, 0, 0]);
    let b = HexacoreSpec::new([1, 0, 0, 0, 0, 0, 0]);
    assert_eq!(differing_skills(&a, &b).len(), 0);
    assert!(!should_display(&a, &b));
    let c = HexacoreSpec::new([2, 0, 0, 0, 0, 0, 0]);
    assert!(!should_display(&c, &a));
    let d = HexacoreSpec::new([2, 1, 0, 0, 0, 0, 0]);
    assert!(should_display(&d, &a));
    let diff = differing_skills(&d, &a);
    assert_eq!(diff.len(), 2);
}

#[test]
fn validity_ranges() {
    assert!(HexacoreSpec::new([1, 0, 0, 0, 0, 0, 0]).valid());
    assert!(HexacoreSpec::new([30; 7]).valid());
    // The origin skill's minimum is one.
    assert!(!HexacoreSpec::new([0; 7]).valid());
    assert!(!HexacoreSpec::new([1, 31, 0, 0, 0, 0, 0]).valid());
}

#[test]
fn baseline_columns_reachable() {
    let ba = published_ba();
    assert_eq!(ba.get(Skill::IrkallasWrath).contribution, 2801);
    assert_eq!(ba.get(Skill::LeapTornado).times_used, 88);
}
