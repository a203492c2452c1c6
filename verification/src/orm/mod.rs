//! Typed queries: models, expressions and the plans that they are bound to.

pub mod access;
pub mod bindable;
pub mod calendar;
pub mod context;
pub mod field;
pub mod insert;
pub mod insert_laws;
pub mod join;
pub mod query;
pub mod query_laws;
pub mod result;
pub mod row;
pub mod row_laws;
pub mod scope;
pub mod scope_laws;
pub mod step_laws;
pub mod update;
pub mod value;
