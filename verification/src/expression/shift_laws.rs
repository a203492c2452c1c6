//! What moving column references does to the values of expressions.

use crate::expression::meaning::{
    by_position, column_nodes, column_nodes_all, is_column, lemma_column_nodes,
    lemma_column_nodes_all, lemma_column_nodes_of_operand, lemma_value_same, value_of, Meaning,
    Reader,
};
use crate::expression::visitor_mut::{
    columns_are_leaves, lemma_shift_structure_all, moved_node, same_node, same_structure, shift_all,
    shift_expr,
};
use crate::expression::ExprView;
use crate::planner::arena::ExprRef;
use crate::types::value::DataValueView;
use vstd::prelude::*;

verus! {

/// Where the reference at a node reads a row.
pub open spec fn slot(exprs: Seq<ExprView>, node: ExprRef) -> int {
    exprs[node.0 as int].head->position as int
}

/// Positions do not matter for which nodes are references of an expression.
pub proof fn lemma_structure_nodes(left: Seq<ExprView>, right: Seq<ExprView>, expr: ExprRef)
    requires
        same_structure(left, right),
    ensures
        column_nodes(left, expr) == column_nodes(right, expr),
    decreases expr.0, 1nat, 0nat,
{
    if expr.0 < left.len() {
        assert(same_node(left[expr.0 as int], right[expr.0 as int]));
        lemma_structure_nodes_all(left, right, left[expr.0 as int].children, expr.0 as nat);
    }
}

/// Positions do not matter for which nodes are references of expressions.
pub proof fn lemma_structure_nodes_all(
    left: Seq<ExprView>,
    right: Seq<ExprView>,
    list: Seq<ExprRef>,
    bound: nat,
)
    requires
        same_structure(left, right),
    ensures
        column_nodes_all(left, list, bound) == column_nodes_all(right, list, bound),
    decreases bound, 0nat, list.len(),
{
    if list.len() > 0 {
        lemma_structure_nodes_all(left, right, list.drop_last(), bound);
        if list.last().0 < bound {
            lemma_structure_nodes(left, right, list.last());
        }
    }
}

/// Lists of references without repetition have parts without repetition and without a common
/// reference.
proof fn lemma_parts_once(first: Seq<ExprRef>, second: Seq<ExprRef>)
    requires
        (first + second).no_duplicates(),
    ensures
        first.no_duplicates(),
        second.no_duplicates(),
        forall|node: ExprRef| #[trigger] first.contains(node) ==> !second.contains(node),
        forall|node: ExprRef| #[trigger]
            (first + second).contains(node) <==> first.contains(node) || second.contains(node),
{
    let both = first + second;
    assert forall|i: int, j: int| 0 <= i < first.len() && 0 <= j < first.len() && i != j implies
        first[i] != first[j] by {
        assert(both[i] == first[i] && both[j] == first[j]);
    }
    assert forall|i: int, j: int| 0 <= i < second.len() && 0 <= j < second.len() && i
        != j implies second[i] != second[j] by {
        assert(both[first.len() + i] == second[i] && both[first.len() + j] == second[j]);
    }
    assert forall|node: ExprRef| #[trigger] first.contains(node) implies !second.contains(node) by {
        let i = first.index_of(node);
        if second.contains(node) {
            let j = second.index_of(node);
            assert(both[i] == node && both[first.len() + j] == node);
        }
    }
    assert forall|node: ExprRef| #[trigger]
        both.contains(node) <==> first.contains(node) || second.contains(node) by {
        if first.contains(node) {
            assert(both[first.index_of(node)] == node);
        }
        if second.contains(node) {
            assert(both[first.len() + second.index_of(node)] == node);
        }
        if both.contains(node) {
            let i = both.index_of(node);
            if i < first.len() {
                assert(first[i] == node);
            } else {
                assert(second[i - first.len()] == node);
            }
        }
    }
}

/// Every reference of an expression without repeated references is moved once, and no other node
/// changes.
pub proof fn lemma_shift_once(exprs: Seq<ExprView>, expr: ExprRef, delta: int)
    requires
        columns_are_leaves(exprs),
        expr.0 < exprs.len(),
        column_nodes(exprs, expr).no_duplicates(),
    ensures
        shift_expr(exprs, expr, delta).len() == exprs.len(),
        forall|node: ExprRef|
            #![trigger shift_expr(exprs, expr, delta)[node.0 as int]]
            #![trigger column_nodes(exprs, expr).contains(node)]
            node.0 < exprs.len() ==> shift_expr(exprs, expr, delta)[node.0 as int]
                == if column_nodes(exprs, expr).contains(node) {
                moved_node(exprs[node.0 as int], delta)
            } else {
                exprs[node.0 as int]
            },
    decreases expr.0, 1nat, 0nat,
{
    let own = exprs[expr.0 as int];
    if own.head is ColumnRef {
        assert(column_nodes(exprs, expr)[0] == expr);
    } else {
        lemma_shift_all_once(exprs, own.children, expr.0 as nat, delta);
    }
}

/// Every reference of expressions without repeated references is moved once, and no other node
/// changes.
pub proof fn lemma_shift_all_once(
    exprs: Seq<ExprView>,
    list: Seq<ExprRef>,
    bound: nat,
    delta: int,
)
    requires
        columns_are_leaves(exprs),
        bound <= exprs.len(),
        column_nodes_all(exprs, list, bound).no_duplicates(),
    ensures
        shift_all(exprs, list, bound, delta).len() == exprs.len(),
        forall|node: ExprRef|
            #![trigger shift_all(exprs, list, bound, delta)[node.0 as int]]
            #![trigger column_nodes_all(exprs, list, bound).contains(node)]
            node.0 < exprs.len() ==> shift_all(exprs, list, bound, delta)[node.0 as int]
                == if column_nodes_all(exprs, list, bound).contains(node) {
                moved_node(exprs[node.0 as int], delta)
            } else {
                exprs[node.0 as int]
            },
    decreases bound, 0nat, list.len(),
{
    if list.len() > 0 {
        let front = list.drop_last();
        let first = column_nodes_all(exprs, front, bound);
        if list.last().0 < bound {
            let second = column_nodes(exprs, list.last());
            lemma_parts_once(first, second);
            lemma_shift_all_once(exprs, front, bound, delta);
            let middle = shift_all(exprs, front, bound, delta);
            lemma_shift_structure_all(exprs, front, bound, delta);
            lemma_structure_nodes(exprs, middle, list.last());
            assert(columns_are_leaves(middle)) by {
                assert forall|i: int|
                    0 <= i < middle.len() && #[trigger] middle[i].head is ColumnRef implies
                    middle[i].children.len() == 0 by {
                    assert(same_node(exprs[i], middle[i]));
                }
            }
            lemma_shift_once(middle, list.last(), delta);
            let last = shift_expr(middle, list.last(), delta);
            assert forall|node: ExprRef|
                #![trigger last[node.0 as int]]
                #![trigger (first + second).contains(node)]
                node.0 < exprs.len() implies last[node.0 as int] == if (first + second).contains(
                node,
            ) {
                moved_node(exprs[node.0 as int], delta)
            } else {
                exprs[node.0 as int]
            } by {
                assert(middle[node.0 as int] == if first.contains(node) {
                    moved_node(exprs[node.0 as int], delta)
                } else {
                    exprs[node.0 as int]
                });
                assert(last[node.0 as int] == if second.contains(node) {
                    moved_node(middle[node.0 as int], delta)
                } else {
                    middle[node.0 as int]
                });
            }
        } else {
            lemma_shift_all_once(exprs, front, bound, delta);
        }
    }
}

/// Moving references by a distance adds the distance to where they read a row, wherever that is a
/// position at all; they stay references to the same columns.
pub proof fn shifted_reference_reads_shifted_slot(
    exprs: Seq<ExprView>,
    list: Seq<ExprRef>,
    delta: int,
    node: ExprRef,
)
    requires
        columns_are_leaves(exprs),
        column_nodes_all(exprs, list, exprs.len()).no_duplicates(),
        column_nodes_all(exprs, list, exprs.len()).contains(node),
        0 <= slot(exprs, node) + delta <= usize::MAX,
    ensures
        ({
            let after = shift_all(exprs, list, exprs.len(), delta);
            &&& after[node.0 as int].head is ColumnRef
            &&& after[node.0 as int].head->ColumnRef_column
                == exprs[node.0 as int].head->ColumnRef_column
            &&& slot(after, node) == slot(exprs, node) + delta
        }),
{
    lemma_shift_all_once(exprs, list, exprs.len(), delta);
    lemma_column_nodes_all(exprs, list, exprs.len());
    let nodes = column_nodes_all(exprs, list, exprs.len());
    assert(is_column(exprs, nodes[nodes.index_of(node)]));
}

/// A moved expression has, on rows that hold everything moved by the distance, the value that it had
/// before.
pub proof fn shifted_expression_reads_shifted_rows(
    meaning: Meaning,
    exprs: Seq<ExprView>,
    list: Seq<ExprRef>,
    delta: int,
    i: int,
    row: Seq<DataValueView>,
    shifted: Seq<DataValueView>,
)
    requires
        columns_are_leaves(exprs),
        0 <= i < list.len(),
        list[i].0 < exprs.len(),
        column_nodes_all(exprs, list, exprs.len()).no_duplicates(),
        forall|node: ExprRef| #[trigger]
            column_nodes(exprs, list[i]).contains(node) ==> 0 <= slot(exprs, node) + delta
                <= usize::MAX && shifted[slot(exprs, node) + delta] == row[slot(exprs, node)],
    ensures
        value_of(
            meaning,
            shift_all(exprs, list, exprs.len(), delta),
            list[i],
            by_position(shifted),
        ) == value_of(meaning, exprs, list[i], by_position(row)),
{
    let after = shift_all(exprs, list, exprs.len(), delta);
    lemma_shift_structure_all(exprs, list, exprs.len(), delta);
    assert forall|k: int|
        #![trigger exprs[k]]
        #![trigger after[k]]
        0 <= k <= list[i].0 implies exprs[k].children == after[k].children && (exprs[k].head
        is ColumnRef <==> after[k].head is ColumnRef) && (!(exprs[k].head is ColumnRef)
        ==> exprs[k].head == after[k].head) by {
        assert(same_node(exprs[k], after[k]));
    }
    assert forall|node: ExprRef| #[trigger] column_nodes(exprs, list[i]).contains(node) implies value_of(
        meaning,
        exprs,
        node,
        by_position(row),
    ) == value_of(meaning, after, node, by_position(shifted)) by {
        lemma_column_nodes_of_operand(exprs, list, exprs.len(), i, node);
        shifted_reference_reads_shifted_slot(exprs, list, delta, node);
        lemma_column_nodes(exprs, list[i]);
        let nodes = column_nodes(exprs, list[i]);
        assert(is_column(exprs, nodes[nodes.index_of(node)]));
    }
    lemma_value_same(meaning, exprs, after, list[i], by_position(row), by_position(shifted));
}

/// An expression that shares no reference with the moved ones keeps its value.
pub proof fn other_expressions_keep_their_values(
    meaning: Meaning,
    exprs: Seq<ExprView>,
    list: Seq<ExprRef>,
    delta: int,
    expr: ExprRef,
    row: Reader,
)
    requires
        columns_are_leaves(exprs),
        expr.0 < exprs.len(),
        column_nodes_all(exprs, list, exprs.len()).no_duplicates(),
        forall|node: ExprRef| #[trigger]
            column_nodes(exprs, expr).contains(node) ==> !column_nodes_all(
                exprs,
                list,
                exprs.len(),
            ).contains(node),
    ensures
        value_of(meaning, shift_all(exprs, list, exprs.len(), delta), expr, row) == value_of(
            meaning,
            exprs,
            expr,
            row,
        ),
{
    let after = shift_all(exprs, list, exprs.len(), delta);
    lemma_shift_structure_all(exprs, list, exprs.len(), delta);
    lemma_shift_all_once(exprs, list, exprs.len(), delta);
    assert forall|k: int|
        #![trigger exprs[k]]
        #![trigger after[k]]
        0 <= k <= expr.0 implies exprs[k].children == after[k].children && (exprs[k].head
        is ColumnRef <==> after[k].head is ColumnRef) && (!(exprs[k].head is ColumnRef)
        ==> exprs[k].head == after[k].head) by {
        assert(same_node(exprs[k], after[k]));
    }
    lemma_column_nodes(exprs, expr);
    assert forall|node: ExprRef| #[trigger] column_nodes(exprs, expr).contains(node) implies value_of(
        meaning,
        exprs,
        node,
        row,
    ) == value_of(meaning, after, node, row) by {
        let nodes = column_nodes(exprs, expr);
        assert(is_column(exprs, nodes[nodes.index_of(node)]));
        assert(after[node.0 as int] == exprs[node.0 as int]);
    }
    lemma_value_same(meaning, exprs, after, expr, row, row);
}

} // verus!
