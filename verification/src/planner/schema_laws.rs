//! The columns of plans against those of their inputs.

use crate::catalog::ColumnRef;
use crate::expression::analysis::type_of;
use crate::expression::ExprHead;
use crate::planner::arena::{ArenaView, ExprRef};
use crate::planner::operator::mark_apply::MarkApplyKind;
use crate::planner::operator::{Operator, OperatorView};
use crate::planner::schema::{column_for, columns_for, output};
use crate::planner::{ChildrenView, PlanView};
use vstd::prelude::*;

verus! {

/// Whether rows pass an operator as they are.
pub open spec fn passes_rows(operator: OperatorView) -> bool {
    operator is Filter || operator is Sort || operator is Limit || operator is TopK || (
    operator matches OperatorView::Plain(plain) && plain is ScalarSubquery)
}

/// Whether each row of an operator is a left row followed by a right one.
pub open spec fn joins_rows(operator: OperatorView) -> bool {
    operator is Join || (operator matches OperatorView::MarkApply(op) && op.kind
        == MarkApplyKind::InnerJoin) || (operator matches OperatorView::Plain(plain)
        && plain is ScalarApply)
}

/// What passes rows has the columns of its input, and its input stays the same but for the columns
/// that were computed for it.
pub proof fn passed_rows_have_the_columns_of_the_input(
    plan: PlanView,
    child: PlanView,
    arena: ArenaView,
)
    requires
        plan.schema is None,
        plan.children == ChildrenView::Only(Box::new(child)),
        passes_rows(plan.operator),
    ensures
        output(plan, arena).schema == output(child, arena).schema,
        output(plan, arena).arena == output(child, arena).arena,
{
    let input = output(child, arena).schema;
    assert(input + Seq::<ColumnRef>::empty() =~= input);
}

/// A joined row has the columns of the left row, at their places, and behind them those of the right
/// row.
pub proof fn joined_rows_have_the_columns_of_both(
    plan: PlanView,
    left: PlanView,
    right: PlanView,
    arena: ArenaView,
    i: int,
)
    requires
        plan.schema is None,
        plan.children == (ChildrenView::Twins { left: Box::new(left), right: Box::new(right) }),
        joins_rows(plan.operator),
    ensures
        ({
            let first = output(left, arena);
            let second = output(right, first.arena);
            let both = output(plan, arena).schema;
            &&& both.len() == first.schema.len() + second.schema.len()
            &&& 0 <= i < first.schema.len() ==> both[i] == first.schema[i]
            &&& 0 <= i < second.schema.len() ==> both[first.schema.len() + i] == second.schema[i]
        }),
{
}

/// A marked row has the columns of the left row, and behind them the mark.
pub proof fn marked_rows_have_the_mark_last(
    plan: PlanView,
    left: PlanView,
    right: PlanView,
    arena: ArenaView,
    i: int,
)
    requires
        plan.schema is None,
        plan.children == (ChildrenView::Twins { left: Box::new(left), right: Box::new(right) }),
        plan.operator matches OperatorView::MarkApply(op) && op.kind != MarkApplyKind::InnerJoin
            && op.output_column is Some,
    ensures
        ({
            let first = output(left, arena).schema;
            let all = output(plan, arena).schema;
            &&& all.len() == first.len() + 1
            &&& 0 <= i < first.len() ==> all[i] == first[i]
            &&& plan.operator->MarkApply_0.output_column == Some(all.last())
        }),
{
}

/// Computed values stand behind the columns of the row that they are computed for.
pub proof fn window_values_stand_behind_the_row(
    plan: PlanView,
    child: PlanView,
    arena: ArenaView,
    i: int,
)
    requires
        plan.schema is None,
        plan.children == ChildrenView::Only(Box::new(child)),
        plan.operator is Window,
    ensures
        ({
            let input = output(child, arena).schema;
            let own = plan.operator->Window_0.output_columns;
            let all = output(plan, arena).schema;
            &&& all.len() == input.len() + own.len()
            &&& 0 <= i < input.len() ==> all[i] == input[i]
            &&& 0 <= i < own.len() ==> all[input.len() + i] == own[i]
        }),
{
}

/// Whether the column stands for the expression: the column that it refers to, or one with the name
/// that it goes by, and in any case one of its type.
pub open spec fn stands_for(arena: ArenaView, column: ColumnRef, expr: ExprRef) -> bool {
    let node = arena.exprs[expr.0 as int];
    let catalog = arena.columns[column.0 as int];
    &&& column.0 < arena.columns.len()
    &&& node.head matches ExprHead::ColumnRef { column: own, .. } ==> own == column
    &&& node.head matches ExprHead::AliasName(name) ==> catalog.name == name
    &&& !(node.head is AliasExpr) ==> catalog.ty == type_of(arena, expr)
}

proof fn lemma_type_same(before: ArenaView, after: ArenaView, expr: ExprRef)
    requires
        before.wf(),
        before.has_expr(expr),
        before.exprs == after.exprs,
        before.columns.is_prefix_of(after.columns),
    ensures
        type_of(before, expr) == type_of(after, expr),
    decreases expr.0,
{
    let node = before.exprs[expr.0 as int];
    match node.head {
        ExprHead::ColumnRef { column, .. } => {
            assert(before.has_column(column));
        },
        ExprHead::AliasName(_) | ExprHead::AliasExpr => {
            if node.children.len() > 0 && node.children[0].0 < expr.0 {
                lemma_type_same(before, after, node.children[0]);
            }
        },
        ExprHead::Tuple => {
            assert forall|i: int| 0 <= i < node.children.len() && node.children[i].0
                < expr.0 implies type_of(before, #[trigger] node.children[i]) == type_of(
                after,
                node.children[i],
            ) by {
                lemma_type_same(before, after, node.children[i]);
            }
            lemma_tuple_types(before, after, expr);
        },
        _ => {},
    }
}

/// Tuples of the same types have the same type.
proof fn lemma_tuple_types(before: ArenaView, after: ArenaView, expr: ExprRef)
    requires
        before.has_expr(expr),
        before.exprs == after.exprs,
        before.exprs[expr.0 as int].head is Tuple,
        ({
            let node = before.exprs[expr.0 as int];
            forall|i: int|
                0 <= i < node.children.len() && node.children[i].0 < expr.0 ==> type_of(
                    before,
                    #[trigger] node.children[i],
                ) == type_of(after, node.children[i])
        }),
    ensures
        type_of(before, expr) == type_of(after, expr),
{
    assert(type_of(before, expr)->Tuple_0 =~= type_of(after, expr)->Tuple_0);
}

proof fn lemma_column_stands(arena: ArenaView, expr: ExprRef)
    requires
        arena.wf(),
        arena.has_expr(expr),
        arena.columns.len() < usize::MAX,
    ensures
        ({
            let (column, after) = column_for(arena, expr);
            &&& stands_for(after, column, expr) || arena.exprs[expr.0 as int].head is AliasExpr
            &&& after.exprs == arena.exprs
            &&& arena.columns.is_prefix_of(after.columns)
            &&& after.columns.len() <= arena.columns.len() + 1
            &&& after.wf()
        }),
    decreases expr.0,
{
    let node = arena.exprs[expr.0 as int];
    let (column, after) = column_for(arena, expr);
    match node.head {
        ExprHead::AliasExpr if node.children.len() == 2 && node.children[1].0 < expr.0 => {
            lemma_column_stands(arena, node.children[1]);
        },
        ExprHead::ColumnRef { column, .. } => {
            assert(arena.has_column(column));
        },
        _ => {
            assert(arena.columns.is_prefix_of(after.columns));
            lemma_type_same(arena, after, expr);
        },
    }
}

/// Each expression has one column, at its own place, that stands for it.
pub proof fn columns_stand_for_their_expressions(arena: ArenaView, exprs: Seq<ExprRef>, i: int)
    requires
        arena.wf(),
        arena.has_exprs(exprs),
        arena.columns.len() + exprs.len() < usize::MAX,
        0 <= i < exprs.len(),
        !(arena.exprs[exprs[i].0 as int].head is AliasExpr),
    ensures
        columns_for(arena, exprs).columns.len() == exprs.len(),
        stands_for(
            columns_for(arena, exprs).arena,
            columns_for(arena, exprs).columns[i],
            exprs[i],
        ),
    decreases exprs.len(),
{
    let front = exprs.drop_last();
    let sofar = columns_for(arena, front);
    assert(arena.has_expr(exprs[exprs.len() - 1]));
    assert(arena.has_exprs(front)) by {
        assert forall|k: int| 0 <= k < front.len() implies arena.has_expr(#[trigger] front[k]) by {
            assert(front[k] == exprs[k]);
        }
    }
    lemma_columns_grow(arena, front);
    lemma_column_stands(sofar.arena, exprs.last());
    let after = columns_for(arena, exprs).arena;
    if i < front.len() {
        columns_stand_for_their_expressions(arena, front, i);
        let column = sofar.columns[i];
        assert(arena.has_expr(exprs[i]));
        lemma_type_same(sofar.arena, after, exprs[i]);
        assert(after.columns[column.0 as int] == sofar.arena.columns[column.0 as int]);
    }
}

proof fn lemma_columns_grow(arena: ArenaView, exprs: Seq<ExprRef>)
    requires
        arena.wf(),
        arena.has_exprs(exprs),
        arena.columns.len() + exprs.len() < usize::MAX,
    ensures
        ({
            let made = columns_for(arena, exprs);
            &&& made.columns.len() == exprs.len()
            &&& made.arena.exprs == arena.exprs
            &&& made.arena.wf()
            &&& arena.columns.is_prefix_of(made.arena.columns)
            &&& made.arena.columns.len() <= arena.columns.len() + exprs.len()
        }),
    decreases exprs.len(),
{
    if exprs.len() > 0 {
        let front = exprs.drop_last();
        assert(arena.has_exprs(front)) by {
            assert forall|k: int| 0 <= k < front.len() implies arena.has_expr(
                #[trigger] front[k],
            ) by {
                assert(front[k] == exprs[k]);
            }
        }
        assert(arena.has_expr(exprs[exprs.len() - 1]));
        lemma_columns_grow(arena, front);
        let sofar = columns_for(arena, front).arena;
        lemma_column_stands(sofar, exprs.last());
        let after = columns_for(arena, exprs).arena;
        assert(arena.columns =~= after.columns.take(arena.columns.len() as int)) by {
            assert(sofar.columns.take(arena.columns.len() as int) =~= arena.columns);
            assert(after.columns.take(sofar.columns.len() as int) =~= sofar.columns);
            assert forall|k: int| 0 <= k < arena.columns.len() implies arena.columns[k]
                == after.columns[k] by {
                assert(after.columns.take(sofar.columns.len() as int)[k] == after.columns[k]);
            }
        }
    } else {
        assert(columns_for(arena, exprs).columns =~= Seq::empty());
    }
}

/// A projection has a column for each of its expressions, a grouping one for each aggregate and
/// behind them one for each group.
pub proof fn computed_rows_have_a_column_for_each_expression(plan: PlanView, arena: ArenaView, i: int)
    requires
        arena.wf(),
        plan.schema is None,
        match plan.operator {
            OperatorView::Project(exprs) => {
                &&& 0 <= i < exprs.len()
                &&& arena.has_exprs(exprs)
                &&& arena.columns.len() + exprs.len() < usize::MAX
                &&& !(arena.exprs[exprs[i].0 as int].head is AliasExpr)
            },
            OperatorView::Aggregate(op) => {
                &&& 0 <= i < op.groupby_exprs.len()
                &&& arena.has_exprs(op.agg_calls)
                &&& arena.has_exprs(op.groupby_exprs)
                &&& arena.columns.len() + op.agg_calls.len() + op.groupby_exprs.len() < usize::MAX
                &&& !(arena.exprs[op.groupby_exprs[i].0 as int].head is AliasExpr)
            },
            _ => false,
        },
    ensures
        ({
            let out = output(plan, arena);
            match plan.operator {
                OperatorView::Project(exprs) => out.schema.len() == exprs.len() && stands_for(
                    out.arena,
                    out.schema[i],
                    exprs[i],
                ),
                OperatorView::Aggregate(op) => out.schema.len() == op.agg_calls.len()
                    + op.groupby_exprs.len() && stands_for(
                    out.arena,
                    out.schema[op.agg_calls.len() + i],
                    op.groupby_exprs[i],
                ),
                _ => false,
            }
        }),
{
    match plan.operator {
        OperatorView::Project(exprs) => {
            columns_stand_for_their_expressions(arena, exprs, i);
        },
        OperatorView::Aggregate(op) => {
            let all = op.agg_calls + op.groupby_exprs;
            assert(arena.has_exprs(all)) by {
                assert forall|k: int| 0 <= k < all.len() implies arena.has_expr(
                    #[trigger] all[k],
                ) by {
                    if k < op.agg_calls.len() {
                        assert(all[k] == op.agg_calls[k]);
                    } else {
                        assert(all[k] == op.groupby_exprs[k - op.agg_calls.len()]);
                    }
                }
            }
            let at = op.agg_calls.len() + i;
            assert(all[at as int] == op.groupby_exprs[i]);
            columns_stand_for_their_expressions(arena, all, at as int);
        },
        _ => {},
    }
}

/// A set operation has the columns of its left row; scans and rows that are given have theirs.
pub proof fn sources_have_the_columns_that_they_read(plan: PlanView, arena: ArenaView)
    requires
        plan.schema is None,
    ensures
        ({
            let out = output(plan, arena);
            match plan.operator {
                OperatorView::TableScan(op) => out.schema == op.columns,
                OperatorView::FunctionScan(op) => out.schema == op.schema,
                OperatorView::Values(op) => out.schema == op.schema_ref,
                OperatorView::Union(left, _) => out.schema == left,
                OperatorView::SetMembership(_, left, _) => out.schema == left,
                OperatorView::RecursiveCte(schema) => out.schema == schema,
                OperatorView::RecursiveScan(schema) => out.schema == schema,
                OperatorView::Plain(Operator::Dummy) => out.schema.len() == 0,
                _ => true,
            }
        }),
{
}

} // verus!
