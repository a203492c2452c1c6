//! Joins.

use crate::planner::arena::ExprRef;
use crate::planner::operator::{Operator, PlanImpl};
use crate::planner::{Childrens, LogicalPlan};
use vstd::prelude::*;

verus! {

/// Kinds of join.
#[derive(Clone, Copy, Debug, PartialEq, Eq, Hash, Structural)]
pub enum JoinType {
    Inner,
    LeftOuter,
    RightOuter,
    Full,
    Cross,
}

/// Condition of a join: equal keys and a further filter, or nothing.
#[derive(Debug, PartialEq, Eq, Hash)]
pub enum JoinCondition {
    On { on: Vec<(ExprRef, ExprRef)>, filter: Option<ExprRef> },
    Nothing,
}

/// Mathematical model of a [`JoinCondition`].
pub enum JoinConditionView {
    On { on: Seq<(ExprRef, ExprRef)>, filter: Option<ExprRef> },
    Nothing,
}

impl View for JoinCondition {
    type V = JoinConditionView;

    open spec fn view(&self) -> JoinConditionView {
        match self {
            JoinCondition::On { on, filter } => JoinConditionView::On { on: on@, filter: *filter },
            JoinCondition::Nothing => JoinConditionView::Nothing,
        }
    }
}

/// Joins its two inputs.
#[derive(Debug, PartialEq, Eq, Hash)]
pub struct JoinOperator {
    pub on: JoinCondition,
    pub join_type: JoinType,
    pub force_nested_loop: bool,
}

/// Mathematical model of a [`JoinOperator`].
pub struct JoinView {
    pub on: JoinConditionView,
    pub join_type: JoinType,
    pub force_nested_loop: bool,
}

impl View for JoinOperator {
    type V = JoinView;

    open spec fn view(&self) -> JoinView {
        JoinView {
            on: self.on@,
            join_type: self.join_type,
            force_nested_loop: self.force_nested_loop,
        }
    }
}

/// Copies pairs of references.
pub fn clone_pairs(pairs: &Vec<(ExprRef, ExprRef)>) -> (res: Vec<(ExprRef, ExprRef)>)
    ensures
        res@ == pairs@,
{
    let mut res: Vec<(ExprRef, ExprRef)> = Vec::new();
    let mut i: usize = 0;
    while i < pairs.len()
        invariant
            i <= pairs.len(),
            res@ == pairs@.take(i as int),
        decreases pairs.len() - i,
    {
        res.push((pairs[i].0, pairs[i].1));
        i += 1;
        assert(res@ =~= pairs@.take(i as int));
    }
    assert(res@ =~= pairs@);
    res
}

impl Clone for JoinOperator {
    fn clone(&self) -> (res: Self)
        ensures
            res@ == self@,
    {
        JoinOperator {
            on: match &self.on {
                JoinCondition::On { on, filter } => JoinCondition::On {
                    on: clone_pairs(on),
                    filter: *filter,
                },
                JoinCondition::Nothing => JoinCondition::Nothing,
            },
            join_type: self.join_type,
            force_nested_loop: self.force_nested_loop,
        }
    }
}

impl JoinView {
    /// Whether the join has equal keys to hash.
    pub open spec fn has_keys(self) -> bool {
        self.on matches JoinConditionView::On { on, .. } && on.len() > 0
    }

    /// How the join is carried out: by hashing where there are keys to hash.
    pub open spec fn plan_impl(self) -> PlanImpl {
        if self.has_keys() && !self.force_nested_loop {
            PlanImpl::HashJoin
        } else {
            PlanImpl::NestLoopJoin
        }
    }
}

impl JoinOperator {
    /// A join of two plans.
    pub fn build(
        left: LogicalPlan,
        right: LogicalPlan,
        on: JoinCondition,
        join_type: JoinType,
        force_nested_loop: bool,
    ) -> (res: LogicalPlan)
        ensures
            res.operator == Operator::Join(JoinOperator { on, join_type, force_nested_loop }),
            *res.childrens == (Childrens::Twins { left: Box::new(left), right: Box::new(right) }),
            res.physical_option is None,
            res@.schema is None,
    {
        LogicalPlan::new(
            Operator::Join(JoinOperator { on, join_type, force_nested_loop }),
            Childrens::Twins { left: Box::new(left), right: Box::new(right) },
        )
    }

    /// How the join is carried out.
    pub fn plan_impl(&self) -> (res: PlanImpl)
        ensures
            res == self@.plan_impl(),
    {
        match &self.on {
            JoinCondition::On { on, .. } if on.len() > 0 && !self.force_nested_loop => {
                PlanImpl::HashJoin
            },
            _ => PlanImpl::NestLoopJoin,
        }
    }
}

} // verus!
