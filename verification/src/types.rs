//! Core data model: the damage channels of the reference combat log, the
//! baseline table, the upgradeable hexacore skills, configurations of their
//! levels, and the cumulative upgrade-cost tables.

use vstd::prelude::*;
use vstd::array::ArrayAdditionalExecFns;

verus! {

/// Fixed-point scale for fractional quantities: one unit is 1e-9.
pub const SCALE: u64 = 1_000_000_000;

/// Contribution shares are stored in ten-thousandths (a share of 1.0 is 10_000).
pub const SHARE_ONE: u64 = 10_000;

/// Number of damage channels in the baseline table.
pub const NUM_SKILLS: usize = 15;

/// Number of upgradeable hexacore skills.
pub const NUM_CORES: usize = 7;

/// Maximum level of every hexacore skill.
pub const MAX_LEVEL: u8 = 30;

/// A damage channel of the reference combat log.
#[derive(Clone, Copy, Debug, PartialEq, Eq, Structural)]
pub enum Skill {
    IshtarsRing,
    IshtarsRingBrand,
    WrathOfEnlil,
    SpikesRoyale,
    AdvancedFinalAttack,
    LeapTornado,
    GustDive,
    UnicornSpike,
    StaggeringStrike,
    ElementalKnights,
    IrkallasWrath,
    RoyalKnights,
    SpiritOfElluel,
    SylvidiasFlight,
    UnfadingGlory,
}

impl Skill {
    /// Position of this channel in the baseline table.
    pub open spec fn index_spec(self) -> int {
        match self {
            Skill::IshtarsRing => 0,
            Skill::IshtarsRingBrand => 1,
            Skill::WrathOfEnlil => 2,
            Skill::SpikesRoyale => 3,
            Skill::AdvancedFinalAttack => 4,
            Skill::LeapTornado => 5,
            Skill::GustDive => 6,
            Skill::UnicornSpike => 7,
            Skill::StaggeringStrike => 8,
            Skill::ElementalKnights => 9,
            Skill::IrkallasWrath => 10,
            Skill::RoyalKnights => 11,
            Skill::SpiritOfElluel => 12,
            Skill::SylvidiasFlight => 13,
            Skill::UnfadingGlory => 14,
        }
    }

    pub fn index(self) -> (i: usize)
        ensures
            i == self.index_spec(),
            i < NUM_SKILLS,
    {
        match self {
            Skill::IshtarsRing => 0,
            Skill::IshtarsRingBrand => 1,
            Skill::WrathOfEnlil => 2,
            Skill::SpikesRoyale => 3,
            Skill::AdvancedFinalAttack => 4,
            Skill::LeapTornado => 5,
            Skill::GustDive => 6,
            Skill::UnicornSpike => 7,
            Skill::StaggeringStrike => 8,
            Skill::ElementalKnights => 9,
            Skill::IrkallasWrath => 10,
            Skill::RoyalKnights => 11,
            Skill::SpiritOfElluel => 12,
            Skill::SylvidiasFlight => 13,
            Skill::UnfadingGlory => 14,
        }
    }
}

/// One column of the baseline table: the channel's share of total reference
/// damage, in ten-thousandths, and how many times it was used during the
/// reference window.
#[derive(Clone, Copy, Debug)]
pub struct BAColumn {
    pub contribution: u64,
    pub times_used: u64,
}

/// The baseline table of the reference combat log, one column per channel.
/// The shares of all columns are assumed to sum to one; that is a documented
/// property of the input data, not something checked at runtime.
#[derive(Clone, Copy, Debug)]
pub struct BA {
    pub columns: [BAColumn; 15],
}

impl BA {
    pub open spec fn col(self, s: Skill) -> BAColumn {
        self.columns@[s.index_spec()]
    }

    /// Input sanity bounds: each share is at most one, and use counts are
    /// small enough that all downstream arithmetic stays exact.
    pub open spec fn wf(self) -> bool {
        forall|i: int|
            0 <= i < 15 ==> (#[trigger] self.columns@[i]).contribution <= SHARE_ONE
                && self.columns@[i].times_used <= 1_000_000
    }

    pub fn get(&self, s: Skill) -> (c: BAColumn)
        ensures
            c == self.col(s),
    {
        self.columns[s.index()]
    }
}

/// An upgradeable hexacore skill.
#[derive(Clone, Copy, Debug, PartialEq, Eq, Structural)]
pub enum HexacoreSkill {
    UnfadingGlory,
    IshtarsRingVI,
    WrathSpikesTornadoVI,
    IrkallasWrath,
    RoyalKnights,
    SpiritOfElluel,
    SylvidiasFlight,
}

impl HexacoreSkill {
    /// Position of this skill in a configuration's level vector.
    pub open spec fn index_spec(self) -> int {
        match self {
            HexacoreSkill::UnfadingGlory => 0,
            HexacoreSkill::IshtarsRingVI => 1,
            HexacoreSkill::WrathSpikesTornadoVI => 2,
            HexacoreSkill::IrkallasWrath => 3,
            HexacoreSkill::RoyalKnights => 4,
            HexacoreSkill::SpiritOfElluel => 5,
            HexacoreSkill::SylvidiasFlight => 6,
        }
    }

    pub fn index(self) -> (i: usize)
        ensures
            i == self.index_spec(),
            i < NUM_CORES,
    {
        match self {
            HexacoreSkill::UnfadingGlory => 0,
            HexacoreSkill::IshtarsRingVI => 1,
            HexacoreSkill::WrathSpikesTornadoVI => 2,
            HexacoreSkill::IrkallasWrath => 3,
            HexacoreSkill::RoyalKnights => 4,
            HexacoreSkill::SpiritOfElluel => 5,
            HexacoreSkill::SylvidiasFlight => 6,
        }
    }

    /// The skill at a given position of the level vector.
    pub open spec fn from_index_spec(i: int) -> HexacoreSkill {
        if i == 0 {
            HexacoreSkill::UnfadingGlory
        } else if i == 1 {
            HexacoreSkill::IshtarsRingVI
        } else if i == 2 {
            HexacoreSkill::WrathSpikesTornadoVI
        } else if i == 3 {
            HexacoreSkill::IrkallasWrath
        } else if i == 4 {
            HexacoreSkill::RoyalKnights
        } else if i == 5 {
            HexacoreSkill::SpiritOfElluel
        } else {
            HexacoreSkill::SylvidiasFlight
        }
    }

    pub fn from_index(i: usize) -> (s: HexacoreSkill)
        requires
            i < NUM_CORES,
        ensures
            s.index_spec() == i,
            s == HexacoreSkill::from_index_spec(i as int),
    {
        if i == 0 {
            HexacoreSkill::UnfadingGlory
        } else if i == 1 {
            HexacoreSkill::IshtarsRingVI
        } else if i == 2 {
            HexacoreSkill::WrathSpikesTornadoVI
        } else if i == 3 {
            HexacoreSkill::IrkallasWrath
        } else if i == 4 {
            HexacoreSkill::RoyalKnights
        } else if i == 5 {
            HexacoreSkill::SpiritOfElluel
        } else {
            HexacoreSkill::SylvidiasFlight
        }
    }
}

/// A complete assignment of levels to the hexacore skills, indexed by
/// `HexacoreSkill::index_spec`. A value object: cheaply copied, compared by
/// full equality.
#[derive(Clone, Copy, Debug)]
pub struct HexacoreSpec {
    pub levels: [u8; 7],
}

impl View for HexacoreSpec {
    type V = Seq<u8>;

    open spec fn view(&self) -> Seq<u8> {
        self.levels@
    }
}

/// Every level lies within its skill's declared range: the origin skill
/// (Unfading Glory) from one, all others from zero, up to the maximum.
pub open spec fn valid_view(v: Seq<u8>) -> bool {
    &&& 1 <= v[0]
    &&& forall|i: int| 0 <= i < 7 ==> #[trigger] v[i] <= MAX_LEVEL
}

/// Weaker bound used by cost lookups: all levels within table range.
pub open spec fn in_range_view(v: Seq<u8>) -> bool {
    forall|i: int| 0 <= i < 7 ==> #[trigger] v[i] <= MAX_LEVEL
}

/// Sum of all levels; the search's progress measure.
pub open spec fn total_view(v: Seq<u8>) -> int {
    v[0] + v[1] + v[2] + v[3] + v[4] + v[5] + v[6]
}

/// The goal of the search: every skill at its maximum level.
pub open spec fn goal_view(v: Seq<u8>) -> bool {
    forall|i: int| 0 <= i < 7 ==> #[trigger] v[i] == MAX_LEVEL
}

/// Total cumulative cost of a level vector under the given tables.
pub open spec fn cost_view(v: Seq<u8>, t: CostTables) -> int {
    t.skill@[v[0] as int] + t.mastery@[v[1] as int] + t.mastery@[v[2] as int]
        + t.enhancement@[v[3] as int] + t.enhancement@[v[4] as int] + t.enhancement@[v[5] as int]
        + t.enhancement@[v[6] as int]
}

impl HexacoreSpec {
    pub open spec fn level_spec(self, s: HexacoreSkill) -> u8 {
        self@[s.index_spec()]
    }

    pub open spec fn valid_spec(self) -> bool {
        valid_view(self@)
    }

    pub open spec fn in_range_spec(self) -> bool {
        in_range_view(self@)
    }

    pub open spec fn total_levels(self) -> int {
        total_view(self@)
    }

    pub fn new(levels: [u8; 7]) -> (c: HexacoreSpec)
        ensures
            c@ == levels@,
    {
        HexacoreSpec { levels }
    }

    pub fn level(&self, s: HexacoreSkill) -> (l: u8)
        ensures
            l == self.level_spec(s),
    {
        self.levels[s.index()]
    }

    pub fn level_at(&self, i: usize) -> (l: u8)
        requires
            i < NUM_CORES,
        ensures
            l == self@[i as int],
    {
        self.levels[i]
    }

    /// A copy of this configuration with one skill set to the given level.
    pub fn with_level_at(&self, i: usize, l: u8) -> (c: HexacoreSpec)
        requires
            i < NUM_CORES,
        ensures
            c@ == self@.update(i as int, l),
    {
        let mut levels = self.levels;
        levels[i] = l;
        HexacoreSpec { levels }
    }

    pub fn equals(&self, other: &HexacoreSpec) -> (r: bool)
        ensures
            r == (self@ =~= other@),
    {
        let mut i: usize = 0;
        while i < 7
            invariant
                i <= 7,
                forall|j: int| 0 <= j < i ==> self@[j] == other@[j],
            decreases 7 - i,
        {
            if self.levels[i] != other.levels[i] {
                return false;
            }
            i += 1;
        }
        true
    }

    pub fn valid(&self) -> (r: bool)
        ensures
            r == self.valid_spec(),
    {
        let r = self.levels[0] >= 1 && self.levels[0] <= 30 && self.levels[1] <= 30
            && self.levels[2] <= 30 && self.levels[3] <= 30 && self.levels[4] <= 30
            && self.levels[5] <= 30 && self.levels[6] <= 30;
        proof {
            if r {
                assert forall|i: int| 0 <= i < 7 implies #[trigger] self@[i] <= MAX_LEVEL by {
                    if i == 0 {
                    } else if i == 1 {
                    } else if i == 2 {
                    } else if i == 3 {
                    } else if i == 4 {
                    } else if i == 5 {
                    } else {
                        assert(i == 6);
                    }
                }
            }
        }
        r
    }

    pub open spec fn cost_spec(self, t: CostTables) -> int {
        cost_view(self@, t)
    }

    /// Total cumulative cost of this configuration under the given tables.
    pub fn cost(&self, t: &CostTables) -> (c: u32)
        requires
            t.wf(),
            self.in_range_spec(),
        ensures
            c == self.cost_spec(*t),
    {
        proof {
            assert(self@[0] <= MAX_LEVEL);
            assert(self@[1] <= MAX_LEVEL);
            assert(self@[2] <= MAX_LEVEL);
            assert(self@[3] <= MAX_LEVEL);
            assert(self@[4] <= MAX_LEVEL);
            assert(self@[5] <= MAX_LEVEL);
            assert(self@[6] <= MAX_LEVEL);
            assert(t.skill@[self@[0] as int] <= 1_000_000);
            assert(t.mastery@[self@[1] as int] <= 1_000_000);
            assert(t.mastery@[self@[2] as int] <= 1_000_000);
            assert(t.enhancement@[self@[3] as int] <= 1_000_000);
            assert(t.enhancement@[self@[4] as int] <= 1_000_000);
            assert(t.enhancement@[self@[5] as int] <= 1_000_000);
            assert(t.enhancement@[self@[6] as int] <= 1_000_000);
        }
        t.skill[self.levels[0] as usize] + t.mastery[self.levels[1] as usize]
            + t.mastery[self.levels[2] as usize] + t.enhancement[self.levels[3] as usize]
            + t.enhancement[self.levels[4] as usize] + t.enhancement[self.levels[5] as usize]
            + t.enhancement[self.levels[6] as usize]
    }
}

/// Cumulative upgrade cost by level, one table per skill family. The entries
/// are cumulative, so each table starts at zero and rises strictly: every
/// level upgrade costs at least one unit.
#[derive(Clone, Copy, Debug)]
pub struct CostTables {
    pub skill: [u32; 31],
    pub mastery: [u32; 31],
    pub enhancement: [u32; 31],
}

/// A single cumulative table: starts at zero, strictly increasing, bounded.
pub open spec fn table_wf(t: Seq<u32>) -> bool {
    &&& t.len() == 31
    &&& t[0] == 0
    &&& forall|i: int| 0 <= i < 30 ==> #[trigger] t[i] < t[i + 1]
    &&& forall|i: int| 0 <= i < 31 ==> #[trigger] t[i] <= 1_000_000
}

impl CostTables {
    pub open spec fn wf(self) -> bool {
        table_wf(self.skill@) && table_wf(self.mastery@) && table_wf(self.enhancement@)
    }
}

/// A strictly increasing cumulative table is monotone between any two levels.
pub proof fn lemma_table_monotone(t: Seq<u32>, a: int, b: int)
    requires
        table_wf(t),
        0 <= a <= b < 31,
    ensures
        t[a] <= t[b],
    decreases b - a,
{
    if a < b {
        lemma_table_monotone(t, a, b - 1);
        assert(t[b - 1] < t[b]);
    }
}

/// Cost of the all-zero configuration is zero.
pub proof fn lemma_cost_zero(c: HexacoreSpec, t: CostTables)
    requires
        t.wf(),
        forall|i: int| 0 <= i < 7 ==> #[trigger] c@[i] == 0,
    ensures
        c.cost_spec(t) == 0,
{
}

/// Raising any skill's level (levels pointwise non-decreasing) never lowers
/// the total cost.
pub proof fn lemma_cost_monotone(a: HexacoreSpec, b: HexacoreSpec, t: CostTables)
    requires
        t.wf(),
        a.in_range_spec(),
        b.in_range_spec(),
        forall|i: int| 0 <= i < 7 ==> #[trigger] a@[i] <= b@[i],
    ensures
        a.cost_spec(t) <= b.cost_spec(t),
{
    lemma_table_monotone(t.skill@, a@[0] as int, b@[0] as int);
    lemma_table_monotone(t.mastery@, a@[1] as int, b@[1] as int);
    lemma_table_monotone(t.mastery@, a@[2] as int, b@[2] as int);
    lemma_table_monotone(t.enhancement@, a@[3] as int, b@[3] as int);
    lemma_table_monotone(t.enhancement@, a@[4] as int, b@[4] as int);
    lemma_table_monotone(t.enhancement@, a@[5] as int, b@[5] as int);
    lemma_table_monotone(t.enhancement@, a@[6] as int, b@[6] as int);
}

/// Flat-damage percent bonus by level for the linear-enhancement family.
/// Non-decreasing, zero at level zero, bounded so downstream ratios stay small.
#[derive(Clone, Copy, Debug)]
pub struct FdTable {
    pub percent: [u32; 31],
}

impl FdTable {
    pub open spec fn wf(self) -> bool {
        &&& self.percent@[0] == 0
        &&& forall|i: int| 0 <= i < 30 ==> #[trigger] self.percent@[i] <= self.percent@[i + 1]
        &&& forall|i: int| 0 <= i < 31 ==> #[trigger] self.percent@[i] <= 1_000
    }
}

} // verus!
