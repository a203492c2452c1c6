//! Optimization by batches of rules in a fixed order.

pub mod annotation;
pub mod batch;
pub mod heuristic_laws;
pub mod optimizer;
pub mod passes;
pub mod rewriting;
