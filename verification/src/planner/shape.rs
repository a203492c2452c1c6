//! The shape of plans: which inputs operators have, and how deep a plan is.

use crate::planner::arena::ArenaView;
use crate::planner::operator::mark_apply::MarkApplyKind;
use crate::planner::operator::{Operator, OperatorView};
use crate::planner::schema::{compute, output};
use crate::planner::{ChildrenView, PlanView};
use vstd::prelude::*;

verus! {

/// How many inputs an operator reads from.
pub enum Arity {
    Any,
    One,
    Two,
}

/// How many inputs an operator reads from.
pub open spec fn arity(operator: OperatorView) -> Arity {
    match operator {
        OperatorView::Filter(_) | OperatorView::Sort(_) | OperatorView::Limit(_)
        | OperatorView::TopK(_) | OperatorView::Window(_) | OperatorView::Project(_)
        | OperatorView::Aggregate(_) => Arity::One,
        OperatorView::Update(_) | OperatorView::Delete(_) | OperatorView::Analyze(_)
        | OperatorView::CreateIndex(_) => Arity::One,
        OperatorView::Join(_) | OperatorView::MarkApply(_) | OperatorView::Union(..)
        | OperatorView::SetMembership(..) | OperatorView::RecursiveCte(_) => Arity::Two,
        OperatorView::Plain(operator) => match operator {
            Operator::ScalarSubquery(_) | Operator::Insert(_) | Operator::CopyToFile(_)
            | Operator::Explain => Arity::One,
            Operator::ScalarApply(_) => Arity::Two,
            _ => Arity::Any,
        },
        _ => Arity::Any,
    }
}

/// Whether an operator has the inputs that it reads from, and a marking application has a column
/// for the mark.
pub open spec fn fits_inputs(operator: OperatorView, children: ChildrenView) -> bool {
    &&& match arity(operator) {
        Arity::Any => true,
        Arity::One => children is Only,
        Arity::Two => children is Twins,
    }
    &&& operator matches OperatorView::MarkApply(op) ==> op.kind == MarkApplyKind::InnerJoin
        || op.output_column is Some
}

impl PlanView {
    /// Whether every operator of the plan has the inputs that it needs.
    pub open spec fn shaped(self) -> bool
        decreases self,
    {
        fits_inputs(self.operator, self.children) && self.children.shaped()
    }

    /// The number of operators on the longest way down.
    pub open spec fn height(self) -> nat
        decreases self,
    {
        1 + self.children.height()
    }
}

impl ChildrenView {
    /// Whether every operator of the inputs has the inputs that it needs.
    pub open spec fn shaped(self) -> bool
        decreases self,
    {
        match self {
            ChildrenView::Leaf => true,
            ChildrenView::Only(plan) => plan.shaped(),
            ChildrenView::Twins { left, right } => left.shaped() && right.shaped(),
        }
    }

    /// The number of operators on the longest way down.
    pub open spec fn height(self) -> nat
        decreases self,
    {
        match self {
            ChildrenView::Leaf => 0,
            ChildrenView::Only(plan) => plan.height(),
            ChildrenView::Twins { left, right } => if left.height() < right.height() {
                right.height()
            } else {
                left.height()
            },
        }
    }

    /// Whether the other inputs are of the same number.
    pub open spec fn same_arity(self, other: ChildrenView) -> bool {
        match self {
            ChildrenView::Leaf => other is Leaf,
            ChildrenView::Only(_) => other is Only,
            ChildrenView::Twins { .. } => other is Twins,
        }
    }
}

/// The columns of a shaped plan can be computed.
pub proof fn lemma_shaped_ready(plan: PlanView)
    requires
        plan.shaped(),
    ensures
        plan.ready(),
    decreases plan,
{
    match plan.children {
        ChildrenView::Leaf => {},
        ChildrenView::Only(child) => {
            assert(child.shaped());
            lemma_shaped_ready(*child);
        },
        ChildrenView::Twins { left, right } => {
            assert(left.shaped() && right.shaped());
            lemma_shaped_ready(*left);
            lemma_shaped_ready(*right);
        },
    }
}

/// Computing its columns changes neither the shape nor the depth of a plan.
pub proof fn lemma_output_shape(plan: PlanView, arena: ArenaView)
    ensures
        output(plan, arena).plan.shaped() == plan.shaped(),
        output(plan, arena).plan.height() == plan.height(),
        output(plan, arena).plan.operator == plan.operator,
        output(plan, arena).plan.children.same_arity(plan.children),
    decreases plan,
{
    if plan.schema is None {
        lemma_compute_shape(plan.operator, plan.children, arena);
    }
}

/// Computing the columns of the inputs changes neither their shape nor their depth.
pub proof fn lemma_compute_shape(operator: OperatorView, children: ChildrenView, arena: ArenaView)
    ensures
        compute(operator, children, arena).children.shaped() == children.shaped(),
        compute(operator, children, arena).children.height() == children.height(),
        compute(operator, children, arena).children.same_arity(children),
    decreases children,
{
    match children {
        ChildrenView::Leaf => {},
        ChildrenView::Only(child) => {
            lemma_output_shape(*child, arena);
        },
        ChildrenView::Twins { left, right } => {
            lemma_output_shape(*left, arena);
            lemma_output_shape(*right, output(*left, arena).arena);
        },
    }
}

/// Forgetting computed columns changes neither the shape nor the depth of a plan, and a valid plan
/// stays valid.
pub proof fn lemma_uncached_shape(plan: PlanView, arena: ArenaView)
    ensures
        plan.uncached().shaped() == plan.shaped(),
        plan.uncached().height() == plan.height(),
        plan.valid(arena) ==> plan.uncached().valid(arena),
    decreases plan,
{
    lemma_uncached_children(plan.children, arena);
}

/// Forgetting computed columns changes neither the shape nor the depth of the inputs.
pub proof fn lemma_uncached_children(children: ChildrenView, arena: ArenaView)
    ensures
        children.uncached().shaped() == children.shaped(),
        children.uncached().height() == children.height(),
        children.valid(arena) ==> children.uncached().valid(arena),
        children.uncached().same_arity(children),
    decreases children,
{
    match children {
        ChildrenView::Leaf => {},
        ChildrenView::Only(child) => {
            lemma_uncached_shape(*child, arena);
        },
        ChildrenView::Twins { left, right } => {
            lemma_uncached_shape(*left, arena);
            lemma_uncached_shape(*right, arena);
        },
    }
}

} // verus!
