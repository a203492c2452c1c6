//! Rewrite rules, and rules that choose how operators are carried out.

pub mod implementation;
pub mod normalization;
pub mod rule_laws;
