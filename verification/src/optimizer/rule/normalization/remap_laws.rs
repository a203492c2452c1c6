//! Remapped expressions, as they show in the rows.

use crate::expression::meaning::{by_position, lemma_values_of, value_of, values_of, Meaning};
use crate::expression::{ExprHead, ExprView};
use crate::optimizer::rule::normalization::remap::{
    ascending, reach, reach_all, remap_exprs, remapped_position_finds_value, walked,
    without_positions,
};
use crate::planner::arena::ExprRef;
use crate::types::value::DataValueView;
use vstd::prelude::*;

verus! {

/// Whether the expression at the number, if it is a reference, reads a value that stays in the row.
pub open spec fn reads_kept(
    exprs: Seq<ExprView>,
    at: usize,
    values: Seq<DataValueView>,
    removed: Seq<usize>,
) -> bool {
    at < exprs.len() ==> (exprs[at as int].head matches ExprHead::ColumnRef { position, .. }
        ==> position < values.len() && !removed.contains(position))
}

/// The numbers that walks from the listed expressions come by are among those of the whole list.
proof fn lemma_reach_of_operand(
    exprs: Seq<ExprView>,
    list: Seq<ExprRef>,
    bound: nat,
    i: int,
    at: usize,
)
    requires
        0 <= i < list.len(),
        list[i].0 < bound,
        reach(exprs, list[i]).contains(at),
    ensures
        reach_all(exprs, list, bound).contains(at),
    decreases list.len(),
{
    if i < list.len() - 1 {
        lemma_reach_of_operand(exprs, list.drop_last(), bound, i, at);
    }
}

/// Once columns are removed from the rows, an expression that was remapped has the values that it had
/// on the whole rows, as long as it reads none of the removed columns.
pub proof fn remapped_expression_keeps_its_value(
    meaning: Meaning,
    exprs: Seq<ExprView>,
    chosen: Set<usize>,
    expr: ExprRef,
    values: Seq<DataValueView>,
    removed: Seq<usize>,
)
    requires
        ascending(removed),
        values.len() <= usize::MAX,
        expr.0 < exprs.len(),
        reach(exprs, expr).subset_of(chosen),
        forall|at: usize| #[trigger]
            reach(exprs, expr).contains(at) ==> reads_kept(exprs, at, values, removed),
        forall|i: int, j: int|
            #![trigger exprs[i].children[j]]
            0 <= i < exprs.len() && 0 <= j < exprs[i].children.len() ==> exprs[i].children[j].0 < i,
        forall|i: int|
            0 <= i < exprs.len() && (#[trigger] exprs[i]).head is ColumnRef
                ==> exprs[i].children.len() == 0,
    ensures
        value_of(
            meaning,
            remap_exprs(exprs, chosen, removed),
            expr,
            by_position(without_positions(values, removed)),
        ) == value_of(meaning, exprs, expr, by_position(values)),
    decreases expr.0,
{
    let after = remap_exprs(exprs, chosen, removed);
    let whole = by_position(values);
    let short = by_position(without_positions(values, removed));
    let node = exprs[expr.0 as int];
    assert(reach(exprs, expr).contains(expr.0));
    assert(reads_kept(exprs, expr.0, values, removed));
    if let ExprHead::ColumnRef { position, .. } = node.head {
        remapped_position_finds_value(values, removed, position);
    } else {
        assert(after[expr.0 as int] == node);
        let list = walked(node);
        assert forall|i: int| 0 <= i < list.len() implies value_of(
            meaning,
            after,
            #[trigger] list[i],
            short,
        ) == value_of(meaning, exprs, list[i], whole) by {
            let operand = list[i];
            if node.head is AliasExpr && node.children.len() == 2 {
                assert(operand == node.children[1]);
            } else {
                assert(operand == node.children[i]);
            }
            assert(operand.0 < expr.0);
            assert forall|at: usize| #[trigger] reach(exprs, operand).contains(at) implies reach(
                exprs,
                expr,
            ).contains(at) by {
                lemma_reach_of_operand(exprs, list, expr.0 as nat, i, at);
            }
            remapped_expression_keeps_its_value(
                meaning,
                exprs,
                chosen,
                operand,
                values,
                removed,
            );
        }
        if node.head is AliasExpr && node.children.len() == 2 {
            assert(list[0] == node.children[1]);
            assert(node.children[1].0 < expr.0);
        } else {
            if node.children.len() == 1 {
                assert(list[0] == node.children[0]);
                assert(node.children[0].0 < expr.0);
            }
            lemma_values_of(meaning, after, node.children, expr.0 as nat, short);
            lemma_values_of(meaning, exprs, node.children, expr.0 as nat, whole);
            let left = values_of(meaning, after, node.children, expr.0 as nat, short);
            let right = values_of(meaning, exprs, node.children, expr.0 as nat, whole);
            assert forall|i: int| 0 <= i < node.children.len() implies left[i] == right[i] by {
                assert(list[i] == node.children[i]);
            }
            assert(left =~= right);
        }
    }
}

} // verus!
