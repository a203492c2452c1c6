//! Copies of plans with expressions of their own.

use crate::catalog::ColumnRef;
use crate::errors::DatabaseError;
use crate::expression::copy::{copied_all, copy_expressions, paired, part_of, resorted};
use crate::orm::scope::lemma_extended_trans;
use crate::planner::arena::{ArenaView, ExprRef, PlanArena};
use crate::planner::columns::{lemma_operator_exprs, operator_exprs};
use crate::planner::operator::aggregate::AggregateView;
use crate::planner::operator::dml::UpdateView;
use crate::planner::operator::filter::FilterOperator;
use crate::planner::operator::join::{JoinCondition, JoinConditionView, JoinView};
use crate::planner::operator::mark_apply::MarkApplyView;
use crate::planner::operator::sort::SortField;
use crate::planner::operator::table_scan::FunctionScanView;
use crate::planner::operator::top_k::TopKView;
use crate::planner::operator::window::WindowView;
use crate::planner::operator::{Operator, OperatorView};
use crate::planner::schema::{lemma_children_valid_within, lemma_plan_valid_within};
use crate::planner::shape::lemma_uncached_shape;
use crate::planner::{ChildrenView, Childrens, LogicalPlan, PlanView};
use vstd::prelude::*;

verus! {

/// The fields with other expressions.
pub open spec fn with_keys(fields: Seq<SortField>, exprs: Seq<ExprRef>, from: int) -> Seq<
    SortField,
> {
    Seq::new(fields.len(), |i: int| SortField { expr: exprs[from + i], ..fields[i] })
}

/// The first expressions as pairs.
pub open spec fn as_pairs(exprs: Seq<ExprRef>, count: nat) -> Seq<(ExprRef, ExprRef)> {
    Seq::new(count, |i: int| (exprs[2 * i], exprs[2 * i + 1]))
}

/// The operator with other expressions, in the order in which [`operator_exprs`] lists them.
pub open spec fn with_exprs(operator: OperatorView, exprs: Seq<ExprRef>) -> OperatorView {
    match operator {
        OperatorView::Aggregate(op) => OperatorView::Aggregate(
            AggregateView {
                agg_calls: exprs.take(op.agg_calls.len() as int),
                groupby_exprs: exprs.skip(op.agg_calls.len() as int),
                ..op
            },
        ),
        OperatorView::MarkApply(op) => OperatorView::MarkApply(
            MarkApplyView {
                predicates: exprs.take(op.predicates.len() as int),
                parameterized_probe: if op.parameterized_probe is Some {
                    Some(exprs.last())
                } else {
                    None
                },
                ..op
            },
        ),
        OperatorView::Filter(op) => OperatorView::Filter(
            FilterOperator { predicate: exprs[0], ..op },
        ),
        OperatorView::Join(op) => match op.on {
            JoinConditionView::On { on, filter } => OperatorView::Join(
                JoinView {
                    on: JoinConditionView::On {
                        on: as_pairs(exprs, on.len()),
                        filter: if filter is Some {
                            Some(exprs.last())
                        } else {
                            None
                        },
                    },
                    ..op
                },
            ),
            JoinConditionView::Nothing => operator,
        },
        OperatorView::Project(_) => OperatorView::Project(exprs),
        OperatorView::FunctionScan(op) => OperatorView::FunctionScan(
            FunctionScanView { args: exprs, ..op },
        ),
        OperatorView::Sort(fields) => OperatorView::Sort(with_keys(fields, exprs, 0)),
        OperatorView::TopK(op) => OperatorView::TopK(
            TopKView { sort_fields: with_keys(op.sort_fields, exprs, 0), ..op },
        ),
        OperatorView::Window(op) => {
            let first = op.partition_by.len() as int;
            let second = first + op.order_by.len();
            OperatorView::Window(
                WindowView {
                    partition_by: exprs.take(first),
                    order_by: with_keys(op.order_by, exprs, first),
                    functions: exprs.skip(second),
                    ..op
                },
            )
        },
        OperatorView::Update(op) => OperatorView::Update(
            UpdateView {
                value_exprs: Seq::new(
                    op.value_exprs.len(),
                    |i: int| (op.value_exprs[i].0, exprs[i]),
                ),
                ..op
            },
        ),
        _ => operator,
    }
}

impl PlanView {
    /// The plan with copies of its expressions, and the arena with the copies.
    pub open spec fn copied(self, arena: ArenaView) -> (PlanView, ArenaView)
        decreases self,
    {
        let (exprs, middle) = copied_all(
            arena.exprs,
            operator_exprs(self.operator),
            arena.exprs.len(),
            arena,
        );
        let (children, after) = self.children.copied(middle);
        (PlanView { operator: with_exprs(self.operator, exprs), children, ..self }, after)
    }
}

impl ChildrenView {
    /// The inputs with copies of their expressions, and the arena with the copies.
    pub open spec fn copied(self, arena: ArenaView) -> (ChildrenView, ArenaView)
        decreases self,
    {
        match self {
            ChildrenView::Leaf => (self, arena),
            ChildrenView::Only(plan) => {
                let (copy, after) = plan.copied(arena);
                (ChildrenView::Only(Box::new(copy)), after)
            },
            ChildrenView::Twins { left, right } => {
                let (first, middle) = left.copied(arena);
                let (second, after) = right.copied(middle);
                (
                    ChildrenView::Twins { left: Box::new(first), right: Box::new(second) },
                    after,
                )
            },
        }
    }
}

impl Operator {
    /// Puts other expressions in the place of those that [`Operator::expressions`] lists.
    #[verifier::rlimit(40)]
    pub fn set_expressions(&mut self, exprs: &Vec<ExprRef>)
        requires
            exprs@.len() == operator_exprs(old(self)@).len(),
        ensures
            final(self)@ == with_exprs(old(self)@, exprs@),
    {
        let total: usize = exprs.len();
        let ghost before = self@;
        match self {
            Operator::Aggregate(op) => {
                let count: usize = op.agg_calls.len();
                op.agg_calls = part_of(exprs, 0, count);
                op.groupby_exprs = part_of(exprs, count, total);
            },
            Operator::MarkApply(op) => {
                let count: usize = op.predicates.len();
                op.predicates = part_of(exprs, 0, count);
                if op.parameterized_probe.is_some() {
                    op.parameterized_probe = Some(exprs[total - 1]);
                }
            },
            Operator::Filter(op) => {
                op.predicate = exprs[0];
            },
            Operator::Join(op) => {
                if let JoinCondition::On { on, filter } = &mut op.on {
                    let count: usize = on.len();
                    *on = paired(exprs, 0, count);
                    if filter.is_some() {
                        *filter = Some(exprs[total - 1]);
                    }
                }
            },
            Operator::Project(op) => {
                op.exprs = part_of(exprs, 0, total);
            },
            Operator::FunctionScan(op) => {
                op.args = part_of(exprs, 0, total);
            },
            Operator::Sort(op) => {
                op.sort_fields = resorted(&op.sort_fields, exprs, 0);
            },
            Operator::TopK(op) => {
                op.sort_fields = resorted(&op.sort_fields, exprs, 0);
            },
            Operator::Window(op) => {
                let first: usize = op.partition_by.len();
                let count: usize = op.order_by.len();
                op.partition_by = part_of(exprs, 0, first);
                op.order_by = resorted(&op.order_by, exprs, first);
                op.functions = part_of(exprs, first + count, total);
            },
            Operator::Update(op) => {
                let mut values: Vec<(ColumnRef, ExprRef)> = Vec::new();
                let mut i: usize = 0;
                while i < op.value_exprs.len()
                    invariant
                        i <= op.value_exprs@.len(),
                        op.value_exprs@.len() == exprs@.len(),
                        values@.len() == i,
                        forall|j: int|
                            0 <= j < i ==> #[trigger] values@[j] == (
                                op.value_exprs@[j].0,
                                exprs@[j],
                            ),
                    decreases op.value_exprs.len() - i,
                {
                    values.push((op.value_exprs[i].0, exprs[i]));
                    i += 1;
                }
                op.value_exprs = values;
            },
            _ => {},
        }
        proof {
            let after = with_exprs(before, exprs@);
            match before {
                OperatorView::Aggregate(_) => {
                    assert(self@->Aggregate_0.agg_calls =~= after->Aggregate_0.agg_calls);
                    assert(self@->Aggregate_0.groupby_exprs =~= after->Aggregate_0.groupby_exprs);
                },
                OperatorView::MarkApply(_) => {
                    assert(self@->MarkApply_0.predicates =~= after->MarkApply_0.predicates);
                },
                OperatorView::Join(op) => {
                    if op.on is On {
                        assert(self@->Join_0.on->On_on =~= after->Join_0.on->On_on);
                    }
                },
                OperatorView::Project(_) => {
                    assert(self@->Project_0 =~= exprs@);
                },
                OperatorView::FunctionScan(_) => {
                    assert(self@->FunctionScan_0.args =~= exprs@);
                },
                OperatorView::Sort(_) => {
                    assert(self@->Sort_0 =~= after->Sort_0);
                },
                OperatorView::TopK(_) => {
                    assert(self@->TopK_0.sort_fields =~= after->TopK_0.sort_fields);
                },
                OperatorView::Window(_) => {
                    assert(self@->Window_0.partition_by =~= after->Window_0.partition_by);
                    assert(self@->Window_0.order_by =~= after->Window_0.order_by);
                    assert(self@->Window_0.functions =~= after->Window_0.functions);
                },
                OperatorView::Update(_) => {
                    assert(self@->Update_0.value_exprs =~= after->Update_0.value_exprs);
                },
                _ => {},
            }
        }
    }
}

impl Childrens {
    fn copy_expressions(&mut self, arena: &mut PlanArena)
        requires
            old(arena)@.wf(),
            old(self)@.valid(old(arena)@),
        ensures
            (final(self)@, final(arena)@) == old(self)@.copied(old(arena)@),
            final(arena)@.wf(),
            old(arena)@.extended_by(final(arena)@),
        decreases *old(self),
    {
        match self {
            Childrens::Leaf => {},
            Childrens::Only(plan) => {
                plan.copy_expressions(arena);
            },
            Childrens::Twins { left, right } => {
                let ghost start = arena@;
                left.copy_expressions(arena);
                let ghost middle = arena@;
                proof {
                    lemma_plan_valid_within(right@, start, middle);
                }
                right.copy_expressions(arena);
                proof {
                    lemma_extended_trans(start, middle, arena@);
                }
            },
        }
    }
}

impl LogicalPlan {
    fn copy_expressions(&mut self, arena: &mut PlanArena)
        requires
            old(arena)@.wf(),
            old(self)@.valid(old(arena)@),
        ensures
            (final(self)@, final(arena)@) == old(self)@.copied(old(arena)@),
            final(arena)@.wf(),
            old(arena)@.extended_by(final(arena)@),
        decreases *old(self),
    {
        let ghost start = arena@;
        let ghost before = self@;
        let exprs = self.operator.expressions();
        proof {
            lemma_operator_exprs(before.operator, start);
        }
        let copies = copy_expressions(&exprs, arena);
        let ghost middle = arena@;
        self.operator.set_expressions(&copies);
        proof {
            lemma_children_valid_within(before.children, start, middle);
        }
        self.childrens.copy_expressions(arena);
        proof {
            lemma_extended_trans(start, middle, arena@);
        }
    }

    /// A copy of the plan that shares no expression with it.
    pub fn clone_plan(&self, arena: &mut PlanArena) -> (res: Result<LogicalPlan, DatabaseError>)
        requires
            old(arena)@.wf(),
            self@.valid(old(arena)@),
        ensures
            res matches Ok(plan) && (plan@, final(arena)@) == self@.uncached().copied(
                old(arena)@,
            ),
            final(arena)@.wf(),
            old(arena)@.extended_by(final(arena)@),
    {
        let mut plan = self.clone();
        proof {
            lemma_uncached_shape(self@, arena@);
        }
        plan.copy_expressions(arena);
        Ok(plan)
    }
}

} // verus!
