//! Rewriting of plans.

pub mod heuristic;
pub mod plan_utils;
pub mod rule;
