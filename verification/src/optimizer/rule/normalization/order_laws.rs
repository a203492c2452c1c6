//! What the rules that remove or add sorts promise about the order of the rows.

use crate::expression::analysis::eq_ignoring_positions;
use crate::optimizer::rule::normalization::elimination::{
    covers, covers_from, field_matches, group_fields, hint_plan, ordered, passes_hints, sort_keys,
    with_forced_sort, with_stream_aggregate, without_sort, OrderHintKind,
};
use crate::planner::arena::{ArenaView, ExprRef};
use crate::planner::operator::sort::SortField;
use crate::planner::operator::{valid_fields, SortOptionView};
use crate::planner::{ChildrenView, PlanView};
use vstd::prelude::*;

verus! {

/// Every expression equals itself.
pub proof fn equality_is_reflexive(arena: ArenaView, expr: ExprRef)
    requires
        arena.wf(),
        arena.has_expr(expr),
    ensures
        eq_ignoring_positions(arena, expr, expr),
    decreases expr.0,
{
    let node = arena.exprs[expr.0 as int];
    assert forall|i: int| 0 <= i < node.children.len() implies eq_ignoring_positions(
        arena,
        #[trigger] node.children[i],
        node.children[i],
    ) by {
        assert(arena.exprs[expr.0 as int].children[i].0 < expr.0);
        equality_is_reflexive(arena, node.children[i]);
    }
}

/// An order covers itself, and every beginning of itself.
pub proof fn order_covers_its_prefixes(
    arena: ArenaView,
    fields: Seq<SortField>,
    len: int,
    ignore_prefix_len: usize,
)
    requires
        arena.wf(),
        valid_fields(arena, fields),
        0 <= len <= fields.len(),
    ensures
        covers(
            arena,
            fields.take(len),
            SortOptionView::OrderBy { fields, ignore_prefix_len },
        ),
{
    let required = fields.take(len);
    assert forall|i: int| 0 <= i < required.len() implies field_matches(
        arena,
        #[trigger] required[i],
        fields[0 + i],
    ) by {
        assert(arena.has_expr(fields[i].expr));
        equality_is_reflexive(arena, fields[i].expr);
    }
    assert(covers_from(arena, required, fields, 0));
    let provided = SortOptionView::OrderBy { fields, ignore_prefix_len };
    assert(covers(arena, required, provided)) by {
        let skip: int = 0;
        assert(0 <= skip <= provided->ignore_prefix_len && covers_from(
            arena,
            required,
            provided->fields,
            skip,
        ));
    }
}

/// Telling scans about an order does not change the order of the rows.
pub proof fn hints_keep_order(
    plan: PlanView,
    asked: Seq<SortField>,
    kind: OrderHintKind,
    required: Seq<SortField>,
    arena: ArenaView,
)
    ensures
        ordered(hint_plan(plan, asked, kind, arena), required, arena) == ordered(
            plan,
            required,
            arena,
        ),
    decreases plan,
{
    if asked.len() > 0 && passes_hints(plan.operator) {
        if let ChildrenView::Only(child) = plan.children {
            hints_keep_order(*child, asked, kind, required, arena);
        }
    }
}

/// Where a sort is removed, the rows come in its order all the same.
pub proof fn removed_sort_keeps_order(plan: PlanView, arena: ArenaView)
    requires
        without_sort(plan, arena).1,
    ensures
        sort_keys(plan.operator) matches Some(keys) && ordered(
            without_sort(plan, arena).0,
            keys,
            arena,
        ),
{
}

/// Where an aggregation goes group by group, its input comes in the order of the groups: either it
/// came so before, or it is sorted now.
pub proof fn stream_input_is_ordered(plan: PlanView, arena: ArenaView)
    requires
        arena.wf(),
        plan.valid(arena),
    ensures
        with_stream_aggregate(plan, arena).1 ==> (with_stream_aggregate(
            plan,
            arena,
        ).0.children matches ChildrenView::Only(child) && ordered(
            *child,
            group_fields(plan.operator->Aggregate_0.groupby_exprs),
            arena,
        )),
        with_forced_sort(plan).1 ==> (with_forced_sort(plan).0.children matches ChildrenView::Only(
            child,
        ) && ordered(*child, group_fields(plan.operator->Aggregate_0.groupby_exprs), arena)),
{
    if with_forced_sort(plan).1 {
        let exprs = plan.operator->Aggregate_0.groupby_exprs;
        let fields = group_fields(exprs);
        assert forall|i: int| 0 <= i < fields.len() implies arena.has_expr(
            (#[trigger] fields[i]).expr,
        ) by {
            assert(arena.has_expr(exprs[i]));
        }
        order_covers_its_prefixes(arena, fields, fields.len() as int, 0);
        assert(fields.take(fields.len() as int) =~= fields);
    }
}

} // verus!
