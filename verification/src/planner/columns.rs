//! The columns that a plan refers to.

use crate::catalog::ColumnRef;
use crate::expression::analysis::{columns_of, lemma_columns_extend};
use crate::expression::{flat_pairs, optional, sort_exprs, ExprView};
use crate::planner::arena::{ArenaView, ExprRef, PlanArena};
use crate::planner::operator::join::{JoinCondition, JoinConditionView};
use crate::planner::operator::sort::SortField;
use crate::planner::operator::{Operator, OperatorView};
use crate::planner::{ChildrenView, Childrens, LogicalPlan, PlanView};
use vstd::prelude::*;

verus! {

/// The columns that the expressions refer to, expression by expression.
pub open spec fn expr_columns(exprs: Seq<ExprView>, list: Seq<ExprRef>) -> Seq<ColumnRef>
    decreases list.len(),
{
    if list.len() == 0 {
        Seq::empty()
    } else {
        expr_columns(exprs, list.drop_last()) + columns_of(exprs, list.last())
    }
}

/// The columns that an operator names itself.
pub open spec fn named_columns(operator: OperatorView) -> Seq<ColumnRef> {
    match operator {
        OperatorView::TableScan(op) => op.columns,
        OperatorView::FunctionScan(op) => op.schema,
        OperatorView::Values(op) => op.schema_ref,
        OperatorView::Window(op) => op.output_columns,
        OperatorView::MarkApply(op) => match op.output_column {
            Some(column) => seq![column],
            None => Seq::empty(),
        },
        OperatorView::Union(left, right) => left + right,
        OperatorView::SetMembership(_, left, right) => left + right,
        OperatorView::RecursiveCte(schema) => schema,
        OperatorView::RecursiveScan(schema) => schema,
        OperatorView::Update(op) =>
            op.value_exprs.map_values(|value: (ColumnRef, ExprRef)| value.0),
        OperatorView::Delete(op) => op.primary_keys,
        OperatorView::CreateTable(op) => op.columns,
        OperatorView::CreateIndex(op) => op.columns,
        OperatorView::Plain(Operator::AddColumn(op)) => seq![op.column],
        OperatorView::Plain(Operator::ChangeColumn(op)) => seq![op.new_column],
        _ => Seq::empty(),
    }
}

/// The expressions of an operator.
pub open spec fn operator_exprs(operator: OperatorView) -> Seq<ExprRef> {
    match operator {
        OperatorView::Aggregate(op) => op.agg_calls + op.groupby_exprs,
        OperatorView::MarkApply(op) => op.predicates + optional(op.parameterized_probe),
        OperatorView::Filter(op) => seq![op.predicate],
        OperatorView::Join(op) => match op.on {
            JoinConditionView::On { on, filter } => flat_pairs(on) + optional(filter),
            JoinConditionView::Nothing => Seq::empty(),
        },
        OperatorView::Project(exprs) => exprs,
        OperatorView::FunctionScan(op) => op.args,
        OperatorView::Sort(fields) => sort_exprs(fields),
        OperatorView::TopK(op) => sort_exprs(op.sort_fields),
        OperatorView::Window(op) => op.partition_by + sort_exprs(op.order_by) + op.functions,
        OperatorView::Update(op) =>
            op.value_exprs.map_values(|value: (ColumnRef, ExprRef)| value.1),
        _ => Seq::empty(),
    }
}

impl PlanView {
    /// The columns that the plan refers to, an operator before its inputs, left before right.
    pub open spec fn columns(self, exprs: Seq<ExprView>) -> Seq<ColumnRef>
        decreases self,
    {
        named_columns(self.operator) + expr_columns(exprs, operator_exprs(self.operator))
            + self.children.columns(exprs)
    }
}

impl ChildrenView {
    /// The columns that the inputs refer to.
    pub open spec fn columns(self, exprs: Seq<ExprView>) -> Seq<ColumnRef>
        decreases self,
    {
        match self {
            ChildrenView::Leaf => Seq::empty(),
            ChildrenView::Only(plan) => plan.columns(exprs),
            ChildrenView::Twins { left, right } => left.columns(exprs) + right.columns(exprs),
        }
    }
}

fn push_all<T: Copy>(from: &Vec<T>, out: &mut Vec<T>)
    ensures
        final(out)@ == old(out)@ + from@,
{
    let ghost start = out@;
    let mut i: usize = 0;
    while i < from.len()
        invariant
            i <= from.len(),
            out@ == start + from@.take(i as int),
        decreases from.len() - i,
    {
        out.push(from[i]);
        assert(start + from@.take(i + 1) =~= (start + from@.take(i as int)).push(from@[i as int]));
        i += 1;
    }
    assert(from@.take(i as int) =~= from@);
}

fn push_fields(fields: &Vec<SortField>, out: &mut Vec<ExprRef>)
    ensures
        final(out)@ == old(out)@ + sort_exprs(fields@),
{
    let ghost start = out@;
    let mut i: usize = 0;
    while i < fields.len()
        invariant
            i <= fields.len(),
            out@ =~= start + sort_exprs(fields@.take(i as int)),
        decreases fields.len() - i,
    {
        out.push(fields[i].expr);
        assert(sort_exprs(fields@.take(i + 1)) =~= sort_exprs(fields@.take(i as int)).push(
            fields@[i as int].expr,
        ));
        i += 1;
    }
    assert(fields@.take(i as int) =~= fields@);
}

fn push_pairs(pairs: &Vec<(ExprRef, ExprRef)>, out: &mut Vec<ExprRef>)
    ensures
        final(out)@ == old(out)@ + flat_pairs(pairs@),
{
    let ghost start = out@;
    let mut i: usize = 0;
    while i < pairs.len()
        invariant
            i <= pairs.len(),
            out@ =~= start + flat_pairs(pairs@.take(i as int)),
        decreases pairs.len() - i,
    {
        out.push(pairs[i].0);
        out.push(pairs[i].1);
        assert(flat_pairs(pairs@.take(i + 1)) =~= flat_pairs(pairs@.take(i as int)).push(
            pairs@[i as int].0,
        ).push(pairs@[i as int].1));
        i += 1;
    }
    assert(pairs@.take(i as int) =~= pairs@);
}

impl Operator {
    /// The expressions of the operator.
    pub fn expressions(&self) -> (res: Vec<ExprRef>)
        ensures
            res@ == operator_exprs(self@),
    {
        let mut out: Vec<ExprRef> = Vec::new();
        match self {
            Operator::Aggregate(op) => {
                push_all(&op.agg_calls, &mut out);
                push_all(&op.groupby_exprs, &mut out);
            },
            Operator::MarkApply(op) => {
                push_all(&op.predicates, &mut out);
                if let Some(probe) = op.parameterized_probe {
                    out.push(probe);
                }
            },
            Operator::Filter(op) => {
                out.push(op.predicate);
            },
            Operator::Join(op) => match &op.on {
                JoinCondition::On { on, filter } => {
                    push_pairs(on, &mut out);
                    if let Some(filter) = filter {
                        out.push(*filter);
                    }
                },
                JoinCondition::Nothing => {},
            },
            Operator::Project(op) => {
                push_all(&op.exprs, &mut out);
            },
            Operator::FunctionScan(op) => {
                push_all(&op.args, &mut out);
            },
            Operator::Sort(op) => {
                push_fields(&op.sort_fields, &mut out);
            },
            Operator::TopK(op) => {
                push_fields(&op.sort_fields, &mut out);
            },
            Operator::Window(op) => {
                push_all(&op.partition_by, &mut out);
                push_fields(&op.order_by, &mut out);
                push_all(&op.functions, &mut out);
            },
            Operator::Update(op) => {
                let ghost all = op.value_exprs@;
                let mut i: usize = 0;
                while i < op.value_exprs.len()
                    invariant
                        i <= op.value_exprs.len(),
                        all == op.value_exprs@,
                        out@ =~= all.take(i as int).map_values(
                            |value: (ColumnRef, ExprRef)| value.1,
                        ),
                    decreases op.value_exprs.len() - i,
                {
                    out.push(op.value_exprs[i].1);
                    i += 1;
                }
                assert(all.take(i as int) =~= all);
            },
            _ => {},
        }
        assert(out@ =~= operator_exprs(self@));
        out
    }

    /// The columns that the operator names itself.
    pub fn named_columns(&self) -> (res: Vec<ColumnRef>)
        ensures
            res@ == named_columns(self@),
    {
        let mut out: Vec<ColumnRef> = Vec::new();
        match self {
            Operator::TableScan(op) => {
                push_all(&op.columns, &mut out);
            },
            Operator::FunctionScan(op) => {
                push_all(&op.schema, &mut out);
            },
            Operator::Values(op) => {
                push_all(&op.schema_ref, &mut out);
            },
            Operator::Window(op) => {
                push_all(&op.output_columns, &mut out);
            },
            Operator::MarkApply(op) => {
                if let Some(column) = op.output_column {
                    out.push(column);
                }
            },
            Operator::Union(op) => {
                push_all(&op.left_schema_ref, &mut out);
                push_all(&op.right_schema_ref, &mut out);
            },
            Operator::SetMembership(op) => {
                push_all(&op.left_schema_ref, &mut out);
                push_all(&op.right_schema_ref, &mut out);
            },
            Operator::RecursiveCte(op) => {
                push_all(&op.schema_ref, &mut out);
            },
            Operator::RecursiveScan(op) => {
                push_all(&op.schema_ref, &mut out);
            },
            Operator::Update(op) => {
                let ghost all = op.value_exprs@;
                let mut i: usize = 0;
                while i < op.value_exprs.len()
                    invariant
                        i <= op.value_exprs.len(),
                        all == op.value_exprs@,
                        out@ =~= all.take(i as int).map_values(
                            |value: (ColumnRef, ExprRef)| value.0,
                        ),
                    decreases op.value_exprs.len() - i,
                {
                    out.push(op.value_exprs[i].0);
                    i += 1;
                }
                assert(all.take(i as int) =~= all);
            },
            Operator::Delete(op) => {
                push_all(&op.primary_keys, &mut out);
            },
            Operator::CreateTable(op) => {
                push_all(&op.columns, &mut out);
            },
            Operator::CreateIndex(op) => {
                push_all(&op.columns, &mut out);
            },
            Operator::AddColumn(op) => {
                out.push(op.column);
            },
            Operator::ChangeColumn(op) => {
                out.push(op.new_column);
            },
            _ => {},
        }
        assert(out@ =~= named_columns(self@));
        out
    }
}

/// The expressions of a valid operator are in the arena.
pub proof fn lemma_operator_exprs(operator: OperatorView, arena: ArenaView)
    requires
        operator.valid(arena),
    ensures
        arena.has_exprs(operator_exprs(operator)),
{
    let exprs = operator_exprs(operator);
    assert forall|i: int| 0 <= i < exprs.len() implies arena.has_expr(#[trigger] exprs[i]) by {
        match operator {
            OperatorView::Aggregate(op) => {
                if i < op.agg_calls.len() {
                    assert(arena.has_expr(op.agg_calls[i]));
                } else {
                    assert(arena.has_expr(op.groupby_exprs[i - op.agg_calls.len()]));
                }
            },
            OperatorView::MarkApply(op) => {
                if i < op.predicates.len() {
                    assert(arena.has_expr(op.predicates[i]));
                }
            },
            OperatorView::Join(op) => {
                if let JoinConditionView::On { on, filter } = op.on {
                    if i < flat_pairs(on).len() {
                        assert(arena.has_expr(on[i / 2].0) && arena.has_expr(on[i / 2].1));
                    }
                }
            },
            OperatorView::Sort(fields) => {
                assert(arena.has_expr(fields[i].expr));
            },
            OperatorView::TopK(op) => {
                assert(arena.has_expr(op.sort_fields[i].expr));
            },
            OperatorView::Window(op) => {
                let first = op.partition_by.len() as int;
                let second = first + op.order_by.len();
                if i < first {
                    assert(arena.has_expr(op.partition_by[i]));
                } else if i < second {
                    assert(arena.has_expr(op.order_by[i - first].expr));
                } else {
                    assert(arena.has_expr(op.functions[i - second]));
                }
            },
            OperatorView::Update(op) => {
                assert(arena.has_expr(op.value_exprs[i].1));
            },
            _ => {},
        }
    }
}

impl LogicalPlan {
    /// Adds the columns that the plan refers to.
    pub fn visit_column_refs(&self, arena: &PlanArena, out: &mut Vec<ColumnRef>)
        requires
            arena@.wf(),
            self@.valid(arena@),
        ensures
            final(out)@ == old(out)@ + self@.columns(arena@.exprs),
        decreases self,
    {
        let ghost start = out@;
        let named = self.operator.named_columns();
        push_all(&named, out);
        let exprs = self.operator.expressions();
        proof {
            lemma_operator_exprs(self@.operator, arena@);
        }
        let ghost before = out@;
        let mut i: usize = 0;
        assert(exprs@.take(0) =~= Seq::empty());
        while i < exprs.len()
            invariant
                i <= exprs.len(),
                arena@.wf(),
                arena@.has_exprs(exprs@),
                out@ =~= before + expr_columns(arena@.exprs, exprs@.take(i as int)),
            decreases exprs.len() - i,
        {
            assert(arena@.has_expr(exprs@[i as int]));
            let found = exprs[i].referenced_columns(arena);
            push_all(&found, out);
            proof {
                let next = exprs@.take(i + 1);
                assert(next.drop_last() =~= exprs@.take(i as int));
                assert(next.last() == exprs@[i as int]);
            }
            i += 1;
        }
        assert(exprs@.take(i as int) =~= exprs@);
        match &*self.childrens {
            Childrens::Leaf => {},
            Childrens::Only(child) => {
                child.visit_column_refs(arena, out);
            },
            Childrens::Twins { left, right } => {
                left.visit_column_refs(arena, out);
                right.visit_column_refs(arena, out);
            },
        }
        assert(out@ =~= start + self@.columns(arena@.exprs));
    }
}

proof fn lemma_expr_columns_extend(before: Seq<ExprView>, after: Seq<ExprView>, list: Seq<ExprRef>)
    requires
        before.is_prefix_of(after),
        forall|i: int| 0 <= i < list.len() ==> (#[trigger] list[i]).0 < before.len(),
    ensures
        expr_columns(after, list) == expr_columns(before, list),
    decreases list.len(),
{
    if list.len() > 0 {
        lemma_expr_columns_extend(before, after, list.drop_last());
        lemma_columns_extend(before, after, list.last());
    }
}

/// The columns of a plan stay the same when expressions are added.
pub proof fn lemma_plan_columns_extend(plan: PlanView, before: ArenaView, after: ArenaView)
    requires
        plan.valid(before),
        before.exprs.is_prefix_of(after.exprs),
    ensures
        plan.columns(after.exprs) == plan.columns(before.exprs),
    decreases plan,
{
    lemma_operator_exprs(plan.operator, before);
    let list = operator_exprs(plan.operator);
    assert forall|i: int| 0 <= i < list.len() implies (#[trigger] list[i]).0 < before.exprs.len() by {
        assert(before.has_expr(list[i]));
    }
    lemma_expr_columns_extend(before.exprs, after.exprs, list);
    match plan.children {
        ChildrenView::Leaf => {},
        ChildrenView::Only(child) => {
            lemma_plan_columns_extend(*child, before, after);
        },
        ChildrenView::Twins { left, right } => {
            lemma_plan_columns_extend(*left, before, after);
            lemma_plan_columns_extend(*right, before, after);
        },
    }
}

} // verus!
