//! Exploration and discovery of unknown state space in balanced ternary {-1, 0, +1} systems.
//!
//! The state space is the 3×3 grid of coordinates whose two axes are ternary values.
//! The library tracks which coordinates are known, which form the frontier next to
//! known territory, who discovered what and when, who pioneered a region, and who
//! claims it.

pub mod discovery;
pub mod explorer;
pub mod frontier;
pub mod grid;
pub mod pioneer;
pub mod risk;
pub mod territory;

pub use discovery::{Discovery, DiscoveryLog};
pub use explorer::Explorer;
pub use frontier::{Frontier, RegionStatus};
pub use grid::{Coord, Ternary};
pub use pioneer::PioneerBonus;
pub use risk::{RiskAssessment, RiskLevel};
pub use territory::TerritoryMap;
