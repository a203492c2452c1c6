//! Limits.

use crate::planner::operator::Operator;
use crate::planner::{Childrens, LogicalPlan};
use vstd::prelude::*;

verus! {

/// Passes on some of the rows.
#[derive(Clone, Copy, Debug, PartialEq, Eq, Hash, Structural)]
pub struct LimitOperator {
    pub offset: Option<usize>,
    pub limit: Option<usize>,
}

impl LimitOperator {
    /// A limit above a plan.
    pub fn build(
        offset: Option<usize>,
        limit: Option<usize>,
        children: LogicalPlan,
    ) -> (res: LogicalPlan)
        ensures
            res.operator == Operator::Limit(LimitOperator { offset, limit }),
            *res.childrens == Childrens::Only(Box::new(children)),
            res.physical_option is None,
            res@.schema is None,
    {
        LogicalPlan::new(
            Operator::Limit(LimitOperator { offset, limit }),
            Childrens::Only(Box::new(children)),
        )
    }
}

} // verus!
