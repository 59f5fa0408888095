//! Core of a dependency-freshness and advisory reporting service.
//!
//! The library tracks, for a project's declared dependencies, the
//! newest release satisfying each declared version constraint and the
//! newest release overall, and attaches known security advisories to
//! the constraint-satisfying release. A small schedule state machine
//! decides the cadence of the periodic registry-index refresh that a
//! runner drives around it.

pub mod order;
pub mod version;
pub mod constraint;
pub mod crates;
pub mod analyzer;
pub mod schedule;

pub use analyzer::DependencyAnalyzer;
pub use constraint::Constraint;
pub use crates::{AnalyzedDependencies, AnalyzedDependency, CrateDeps, CrateName, CrateRelease};
pub use schedule::{RefreshAction, RefreshSchedule};
pub use version::CrateVersion;
