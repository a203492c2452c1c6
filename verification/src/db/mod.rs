//! The database: its settings, its catalog and the statements that run on it.

pub mod builder;
pub mod database;
pub mod functions;
pub mod iter;
pub mod pipeline;
pub mod run;
pub mod source;
pub mod state;
pub mod state_laws;

pub use crate::db::functions::{ScalaFunctions, TableFunctions};
