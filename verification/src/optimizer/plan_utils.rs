//! Small changes of the shape of a plan.

use crate::planner::operator::{Operator, OperatorView};
use crate::planner::{ChildrenView, Childrens, LogicalPlan, PlanView};
use vstd::prelude::*;

verus! {

/// A new operator above a plan.
pub open spec fn above(operator: OperatorView, child: PlanView) -> PlanView {
    PlanView {
        operator,
        children: ChildrenView::Only(Box::new(child)),
        physical: None,
        schema: None,
    }
}

/// Whether there is an input at the position.
pub open spec fn has_child(children: ChildrenView, position: int) -> bool {
    match children {
        ChildrenView::Leaf => false,
        ChildrenView::Only(_) => position == 0,
        ChildrenView::Twins { .. } => position == 0 || position == 1,
    }
}

/// The inputs with a new operator above one of them.
pub open spec fn wrap_child(
    children: ChildrenView,
    position: int,
    operator: OperatorView,
) -> ChildrenView {
    match children {
        ChildrenView::Leaf => children,
        ChildrenView::Only(child) => if position == 0 {
            ChildrenView::Only(Box::new(above(operator, *child)))
        } else {
            children
        },
        ChildrenView::Twins { left, right } => if position == 0 {
            ChildrenView::Twins { left: Box::new(above(operator, *left)), right }
        } else if position == 1 {
            ChildrenView::Twins { left, right: Box::new(above(operator, *right)) }
        } else {
            children
        },
    }
}

/// The only input, to be changed in place.
pub fn only_child_mut(plan: &mut LogicalPlan) -> (res: Option<&mut LogicalPlan>)
    ensures
        res is Some <==> *old(plan).childrens is Only,
        res matches Some(child) ==> {
            &&& *old(plan).childrens == Childrens::Only(Box::new(*child))
            &&& *final(plan) == (LogicalPlan {
                childrens: Box::new(Childrens::Only(Box::new(*final(child)))),
                ..*old(plan)
            })
        },
        res is None ==> *final(plan) == *old(plan),
{
    match &*plan.childrens {
        Childrens::Only(_) => {},
        _ => {
            return None;
        },
    }
    match &mut *plan.childrens {
        Childrens::Only(child) => Some(&mut **child),
        _ => {
            assert(false);
            None
        },
    }
}

/// Puts the only input in the place of the plan.
pub fn replace_with_only_child(plan: &mut LogicalPlan) -> (replaced: bool)
    ensures
        replaced == (*old(plan).childrens is Only),
        replaced ==> *old(plan).childrens == Childrens::Only(Box::new(*final(plan))),
        !replaced ==> *final(plan) == *old(plan),
{
    let whole = plan.take();
    match *whole.childrens {
        Childrens::Only(child) => {
            *plan = *child;
            true
        },
        other => {
            *plan = LogicalPlan {
                operator: whole.operator,
                childrens: Box::new(other),
                physical_option: whole.physical_option,
                output_schema: whole.output_schema,
            };
            false
        },
    }
}

fn wrap(plan: &mut LogicalPlan, operator: Operator)
    ensures
        final(plan)@ == above(operator@, old(plan)@),
{
    let child = plan.take();
    *plan = LogicalPlan::new(operator, Childrens::Only(Box::new(child)));
}

impl Childrens {
    /// Puts a new operator above one of the plans.
    fn wrap_at(&mut self, position: usize, operator: Operator) -> (wrapped: bool)
        ensures
            wrapped == has_child(old(self)@, position as int),
            final(self)@ == wrap_child(old(self)@, position as int, operator@),
    {
        match self {
            Childrens::Leaf => false,
            Childrens::Only(child) => {
                if position == 0 {
                    wrap(&mut **child, operator);
                    true
                } else {
                    false
                }
            },
            Childrens::Twins { left, right } => {
                if position == 0 {
                    wrap(&mut **left, operator);
                    true
                } else if position == 1 {
                    wrap(&mut **right, operator);
                    true
                } else {
                    false
                }
            },
        }
    }
}

/// Puts a new operator above one of the inputs.
pub fn wrap_child_with(plan: &mut LogicalPlan, position: usize,
    operator: Operator) -> (wrapped: bool)
    ensures
        wrapped == has_child(old(plan)@.children, position as int),
        final(plan)@ == (PlanView {
            children: wrap_child(old(plan)@.children, position as int, operator@),
            ..old(plan)@
        }),
        final(plan).operator == old(plan).operator,
        final(plan).physical_option == old(plan).physical_option,
{
    (&mut *plan.childrens).wrap_at(position, operator)
}

} // verus!
