//! Estimates the marginal damage gain per unit of upgrade cost for hexacore
//! skill investments and greedily searches for the most cost-efficient
//! upgrade order from a starting configuration to a fully maxed one.
//!
//! All fractional quantities (damage ratios, contribution shares, penetration
//! values) are exact fixed-point integers so that every computation is a pure
//! function of its inputs with a fully pinned-down result; the rounding policy
//! is floor division at each named step.

pub mod types;
pub mod fixed;
pub mod combat;
pub mod calcs;
pub mod search;
