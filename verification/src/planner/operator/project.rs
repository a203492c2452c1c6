//! Projection.

use crate::planner::arena::ExprRef;
use vstd::prelude::*;

verus! {

/// Computes the expressions for each row.
#[derive(Debug, PartialEq, Eq, Hash)]
pub struct ProjectOperator {
    pub exprs: Vec<ExprRef>,
}

impl Clone for ProjectOperator {
    fn clone(&self) -> (res: Self)
        ensures
            res.exprs@ == self.exprs@,
    {
        let exprs = self.exprs.clone();
        assert(exprs@ =~= self.exprs@);
        ProjectOperator { exprs }
    }
}

} // verus!
