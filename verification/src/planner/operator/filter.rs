//! Filtering.

use crate::planner::arena::ExprRef;
use crate::planner::operator::Operator;
use crate::planner::{Childrens, LogicalPlan};
use vstd::prelude::*;

verus! {

/// Passes on the rows that meet the predicate.
#[derive(Clone, Copy, Debug, PartialEq, Eq, Hash, Structural)]
pub struct FilterOperator {
    pub predicate: ExprRef,
    pub is_optimized: bool,
    pub having: bool,
}

impl FilterOperator {
    /// A filter above a plan.
    pub fn build(predicate: ExprRef, children: LogicalPlan, having: bool) -> (res: LogicalPlan)
        ensures
            res.operator == Operator::Filter(
                FilterOperator { predicate, is_optimized: false, having },
            ),
            *res.childrens == Childrens::Only(Box::new(children)),
            res.physical_option is None,
            res@.schema is None,
    {
        LogicalPlan::new(
            Operator::Filter(FilterOperator { predicate, is_optimized: false, having }),
            Childrens::Only(Box::new(children)),
        )
    }
}

} // verus!
