//! Copies of plans against the plans that they were made from.

use crate::expression::copy::copied_all;
use crate::expression::ExprView;
use crate::planner::arena::{ArenaView, ExprRef};
use crate::planner::columns::operator_exprs;
use crate::planner::copy::with_exprs;
use crate::planner::operator::join::JoinConditionView;
use crate::planner::operator::OperatorView;
use crate::planner::plan_laws::{given_expressions_are_listed, own_expressions_change_nothing};
use crate::planner::{ChildrenView, PlanView};
use vstd::prelude::*;

verus! {

/// Of expressions that an operator is given one after the other, the last ones stay.
pub proof fn last_given_expressions_stay(
    operator: OperatorView,
    first: Seq<ExprRef>,
    second: Seq<ExprRef>,
)
    requires
        first.len() == operator_exprs(operator).len(),
        second.len() == operator_exprs(operator).len(),
    ensures
        with_exprs(with_exprs(operator, first), second) == with_exprs(operator, second),
{
    let once = with_exprs(operator, second);
    let twice = with_exprs(with_exprs(operator, first), second);
    match operator {
        OperatorView::Join(op) => {
            if let JoinConditionView::On { on, filter } = op.on {
                assert(twice->Join_0.on->on =~= once->Join_0.on->on);
            }
        },
        OperatorView::Sort(_) => {
            assert(twice->Sort_0 =~= once->Sort_0);
        },
        OperatorView::TopK(_) => {
            assert(twice->TopK_0.sort_fields =~= once->TopK_0.sort_fields);
        },
        OperatorView::Window(_) => {
            assert(twice->Window_0.partition_by =~= once->Window_0.partition_by);
            assert(twice->Window_0.order_by =~= once->Window_0.order_by);
            assert(twice->Window_0.functions =~= once->Window_0.functions);
        },
        OperatorView::Update(_) => {
            assert(twice->Update_0.value_exprs =~= once->Update_0.value_exprs);
        },
        _ => {},
    }
}

proof fn lemma_copies_len(
    source: Seq<ExprView>,
    list: Seq<ExprRef>,
    limit: nat,
    arena: ArenaView,
)
    ensures
        copied_all(source, list, limit, arena).0.len() == list.len(),
    decreases list.len(),
{
    if list.len() > 0 {
        lemma_copies_len(source, list.drop_last(), limit, arena);
    }
}

/// Whether a plan is another one but for the expressions of its operators.
pub open spec fn differs_in_expressions(plan: PlanView, copy: PlanView) -> bool
    decreases plan,
{
    &&& with_exprs(copy.operator, operator_exprs(plan.operator)) == plan.operator
    &&& operator_exprs(copy.operator).len() == operator_exprs(plan.operator).len()
    &&& copy.physical == plan.physical
    &&& copy.schema == plan.schema
    &&& match (plan.children, copy.children) {
        (ChildrenView::Leaf, ChildrenView::Leaf) => true,
        (ChildrenView::Only(child), ChildrenView::Only(other)) => differs_in_expressions(
            *child,
            *other,
        ),
        (
            ChildrenView::Twins { left, right },
            ChildrenView::Twins { left: other_left, right: other_right },
        ) => differs_in_expressions(*left, *other_left) && differs_in_expressions(
            *right,
            *other_right,
        ),
        _ => false,
    }
}

/// A copy of a plan has the operators of the plan, each in its place, and differs from it in nothing
/// but the expressions.
pub proof fn copied_plan_differs_in_expressions(plan: PlanView, arena: ArenaView)
    ensures
        differs_in_expressions(plan, plan.copied(arena).0),
    decreases plan,
{
    let own = operator_exprs(plan.operator);
    let (exprs, middle) = copied_all(arena.exprs, own, arena.exprs.len(), arena);
    lemma_copies_len(arena.exprs, own, arena.exprs.len(), arena);
    given_expressions_are_listed(plan.operator, exprs);
    last_given_expressions_stay(plan.operator, exprs, own);
    own_expressions_change_nothing(plan.operator);
    match plan.children {
        ChildrenView::Leaf => {},
        ChildrenView::Only(child) => {
            copied_plan_differs_in_expressions(*child, middle);
        },
        ChildrenView::Twins { left, right } => {
            copied_plan_differs_in_expressions(*left, middle);
            copied_plan_differs_in_expressions(*right, left.copied(middle).1);
        },
    }
}

} // verus!
