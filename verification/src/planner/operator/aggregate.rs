//! Aggregation.

use crate::planner::arena::ExprRef;
use vstd::prelude::*;

verus! {

/// Groups its input and aggregates each group.
#[derive(Debug, PartialEq, Eq, Hash)]
pub struct AggregateOperator {
    pub groupby_exprs: Vec<ExprRef>,
    pub agg_calls: Vec<ExprRef>,
    pub is_distinct: bool,
    pub force_spill: bool,
}

/// Mathematical model of an [`AggregateOperator`].
pub struct AggregateView {
    pub groupby_exprs: Seq<ExprRef>,
    pub agg_calls: Seq<ExprRef>,
    pub is_distinct: bool,
    pub force_spill: bool,
}

impl View for AggregateOperator {
    type V = AggregateView;

    open spec fn view(&self) -> AggregateView {
        AggregateView {
            groupby_exprs: self.groupby_exprs@,
            agg_calls: self.agg_calls@,
            is_distinct: self.is_distinct,
            force_spill: self.force_spill,
        }
    }
}

impl Clone for AggregateOperator {
    fn clone(&self) -> (res: Self)
        ensures
            res@ == self@,
    {
        let groupby_exprs = self.groupby_exprs.clone();
        let agg_calls = self.agg_calls.clone();
        assert(groupby_exprs@ =~= self.groupby_exprs@);
        assert(agg_calls@ =~= self.agg_calls@);
        AggregateOperator {
            groupby_exprs,
            agg_calls,
            is_distinct: self.is_distinct,
            force_spill: self.force_spill,
        }
    }
}

} // verus!
