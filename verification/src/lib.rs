//! Verified planning core.

pub mod binder;
pub mod cache;
pub mod catalog;
pub mod db;
pub mod errors;
pub mod execution;
pub mod expression;
pub mod notation;
pub mod optimizer;
pub mod orm;
pub mod planner;
pub mod storage;
pub mod text;
pub mod types;
