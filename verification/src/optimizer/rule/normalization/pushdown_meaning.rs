//! A predicate that moves through a join means there what it meant before.

use crate::catalog::ColumnRef;
use crate::expression::conjunction::{conjuncts, is_and, lemma_conjuncts_bounded};
use crate::expression::meaning::{
    all_met, by_position, column_nodes, column_nodes_all, conjoins, conjunction_holds_with_its_parts,
    is_column, lemma_all_met_concat, lemma_column_nodes, lemma_column_nodes_of_operand,
    lemma_met_parts, lemma_value_agrees, lemma_value_extend, met, met_if_any, value_of, Meaning,
};
use crate::expression::shift_laws::{
    other_expressions_keep_their_values, shifted_expression_reads_shifted_rows, slot,
};
use crate::expression::visitor_mut::{columns_are_leaves, lemma_shift_structure_all, shift_all};
use crate::expression::ExprView;
use crate::optimizer::rule::normalization::parameterized_laws::lemma_output_exprs;
use crate::optimizer::rule::normalization::pushdown_laws::{
    distributed_predicates_are_kept, inner_join_takes_whole_filter, lemma_on_side,
};
use crate::optimizer::rule::normalization::pushdown_predicates::{
    condition_distribution, condition_of, condition_predicates, conjunctions_for, distribution,
    filter_above_join, filter_distribution, filter_predicates, grown, input_schemas,
    movable_condition, on_side, pushes_condition, pushes_through_join, Distribution, Side,
};
use crate::expression::analysis::columns_of;
use crate::planner::arena::{ArenaView, ExprRef};
use crate::planner::operator::join::{JoinConditionView, JoinType, JoinView};
use crate::planner::{ChildrenView, PlanView};
use crate::types::value::DataValueView;
use vstd::prelude::*;

verus! {

/// Whether every reference of an expression reads a slot of the row in which its column stands.
pub open spec fn placed(
    exprs: Seq<ExprView>,
    expr: ExprRef,
    schema: Seq<ColumnRef>,
) -> bool {
    forall|node: ExprRef| #[trigger]
        column_nodes(exprs, expr).contains(node) ==> 0 <= slot(exprs, node) < schema.len()
            && schema[slot(exprs, node)] == exprs[node.0 as int].head->ColumnRef_column
}

/// Whether no column stands in both rows.
pub open spec fn apart(left: Seq<ColumnRef>, right: Seq<ColumnRef>) -> bool {
    forall|column: ColumnRef| #[trigger] left.contains(column) ==> !right.contains(column)
}

/// Whether two expressions have no reference in common.
pub open spec fn share_no_reference(
    exprs: Seq<ExprView>,
    first: ExprRef,
    second: ExprRef,
) -> bool {
    forall|node: ExprRef| #[trigger]
        column_nodes(exprs, first).contains(node) ==> !column_nodes(exprs, second).contains(node)
}

/// The keys of a join.
pub open spec fn keys_of(join: JoinView) -> Seq<(ExprRef, ExprRef)> {
    match join.on {
        JoinConditionView::On { on, .. } => on,
        JoinConditionView::Nothing => Seq::empty(),
    }
}

/// The predicate of a filter that was put above an input.
pub open spec fn filter_put_above(now: PlanView, before: PlanView) -> Option<ExprRef> {
    if now == before {
        None
    } else {
        Some(now.operator->Filter_0.predicate)
    }
}

/// Whether an input is as it was, or has one filter more above it.
pub open spec fn at_most_filtered(now: PlanView, before: PlanView) -> bool {
    now == before || (now.operator is Filter && now.children == ChildrenView::Only(
        Box::new(before),
    ))
}

/// The references of an expression are those of its conjuncts.
proof fn lemma_conjunct_nodes(exprs: Seq<ExprView>, expr: ExprRef, bound: nat)
    requires
        expr.0 < bound,
        expr.0 < exprs.len(),
    ensures
        column_nodes_all(exprs, conjuncts(exprs, expr), bound) == column_nodes(exprs, expr),
    decreases expr.0,
{
    let node = exprs[expr.0 as int];
    if is_and(node) && node.children[0].0 < expr.0 && node.children[1].0 < expr.0 {
        let (left, right) = (node.children[0], node.children[1]);
        lemma_conjunct_nodes(exprs, left, bound);
        lemma_conjunct_nodes(exprs, right, bound);
        lemma_nodes_concat(exprs, conjuncts(exprs, left), conjuncts(exprs, right), bound);
        let pair = node.children;
        assert(pair.drop_last().drop_last() =~= Seq::empty());
        assert(pair.drop_last().last() == left);
        assert(pair.last() == right);
        let none = Seq::<ExprRef>::empty();
        assert(column_nodes_all(exprs, none, expr.0 as nat) =~= none);
        assert(none + column_nodes(exprs, left) =~= column_nodes(exprs, left));
        assert(column_nodes_all(exprs, pair.drop_last(), expr.0 as nat) =~= column_nodes(
            exprs,
            left,
        ));
        assert(column_nodes(exprs, expr) == column_nodes_all(exprs, pair, expr.0 as nat));
    } else {
        let one = seq![expr];
        let none = Seq::<ExprRef>::empty();
        assert(column_nodes_all(exprs, none, bound) =~= none);
        assert(none + column_nodes(exprs, expr) =~= column_nodes(exprs, expr));
        assert(one.drop_last() =~= none);
        assert(column_nodes_all(exprs, one, bound) =~= column_nodes(exprs, expr));
    }
}

/// The references of two lists are those of the one and those of the other.
pub proof fn lemma_nodes_concat(
    exprs: Seq<ExprView>,
    first: Seq<ExprRef>,
    second: Seq<ExprRef>,
    bound: nat,
)
    ensures
        column_nodes_all(exprs, first + second, bound) == column_nodes_all(exprs, first, bound)
            + column_nodes_all(exprs, second, bound),
    decreases second.len(),
{
    if second.len() == 0 {
        assert(first + second =~= first);
        assert(column_nodes_all(exprs, first, bound) + Seq::<ExprRef>::empty()
            =~= column_nodes_all(exprs, first, bound));
    } else {
        lemma_nodes_concat(exprs, first, second.drop_last(), bound);
        assert((first + second).drop_last() =~= first + second.drop_last());
        assert((first + second).last() == second.last());
        assert(column_nodes_all(exprs, first + second, bound) =~= column_nodes_all(
            exprs,
            first,
            bound,
        ) + column_nodes_all(exprs, second, bound));
    }
}

/// Predicates of different sides have no reference in common, if the list has no repeated one.
proof fn lemma_sides_apart(
    exprs: Seq<ExprView>,
    list: Seq<ExprRef>,
    left: Seq<ColumnRef>,
    right: Seq<ColumnRef>,
    side: Side,
    other: Side,
    bound: nat,
)
    requires
        column_nodes_all(exprs, list, bound).no_duplicates(),
        side != other,
    ensures
        column_nodes_all(exprs, on_side(exprs, list, left, right, side), bound).no_duplicates(),
        forall|node: ExprRef| #[trigger]
            column_nodes_all(exprs, on_side(exprs, list, left, right, side), bound).contains(node)
                ==> column_nodes_all(exprs, list, bound).contains(node) && !column_nodes_all(
                exprs,
                on_side(exprs, list, left, right, other),
                bound,
            ).contains(node),
    decreases list.len(),
{
    if list.len() > 0 {
        let front = list.drop_last();
        let last = list.last();
        let all = column_nodes_all(exprs, front, bound);
        let own: Seq<ExprRef> = if last.0 < bound {
            column_nodes(exprs, last)
        } else {
            Seq::empty()
        };
        assert(column_nodes_all(exprs, list, bound) =~= all + own);
        assert(all.no_duplicates()) by {
            assert forall|i: int, j: int| 0 <= i < all.len() && 0 <= j < all.len() && i
                != j implies all[i] != all[j] by {
                assert((all + own)[i] == all[i] && (all + own)[j] == all[j]);
            }
        }
        assert(own.no_duplicates()) by {
            assert forall|i: int, j: int| 0 <= i < own.len() && 0 <= j < own.len() && i
                != j implies own[i] != own[j] by {
                assert((all + own)[all.len() + i] == own[i]);
                assert((all + own)[all.len() + j] == own[j]);
            }
        }
        assert forall|node: ExprRef| #[trigger] all.contains(node) implies !own.contains(node)
            && (all + own).contains(node) by {
            assert((all + own)[all.index_of(node)] == node);
            if own.contains(node) {
                assert((all + own)[all.len() + own.index_of(node)] == node);
            }
        }
        assert forall|node: ExprRef| #[trigger] own.contains(node) implies (all + own).contains(
            node,
        ) by {
            assert((all + own)[all.len() + own.index_of(node)] == node);
        }
        lemma_sides_apart(exprs, front, left, right, side, other, bound);
        lemma_sides_apart(exprs, front, left, right, other, side, bound);
        let mine = on_side(exprs, front, left, right, side);
        let theirs = on_side(exprs, front, left, right, other);
        let m = column_nodes_all(exprs, mine, bound);
        let t = column_nodes_all(exprs, theirs, bound);
        assert(mine.push(last).drop_last() =~= mine);
        assert(theirs.push(last).drop_last() =~= theirs);
        assert(column_nodes_all(exprs, mine.push(last), bound) =~= m + own);
        assert(column_nodes_all(exprs, theirs.push(last), bound) =~= t + own);
        assert forall|node: ExprRef| #[trigger] (m + own).contains(node) implies m.contains(node)
            || own.contains(node) by {
            let i = (m + own).index_of(node);
            if i < m.len() {
                assert(m[i] == node);
            } else {
                assert(own[i - m.len()] == node);
            }
        }
        assert forall|node: ExprRef| #[trigger] (t + own).contains(node) implies t.contains(node)
            || own.contains(node) by {
            let i = (t + own).index_of(node);
            if i < t.len() {
                assert(t[i] == node);
            } else {
                assert(own[i - t.len()] == node);
            }
        }
        assert((m + own).no_duplicates()) by {
            assert forall|i: int, j: int| 0 <= i < j < (m + own).len() implies (m + own)[i] != (m
                + own)[j] by {
                if i < m.len() && j >= m.len() {
                    assert(m.contains(m[i]) && own.contains(own[j - m.len()]));
                    assert(all.contains(m[i]));
                }
            }
        }
    }
}

/// Lists with the same elements hold together.
proof fn lemma_all_met_elements(
    meaning: Meaning,
    exprs: Seq<ExprView>,
    first: Seq<ExprRef>,
    second: Seq<ExprRef>,
    third: Seq<ExprRef>,
    list: Seq<ExprRef>,
    row: Seq<DataValueView>,
)
    requires
        first.to_multiset().add(second.to_multiset()).add(third.to_multiset())
            == list.to_multiset(),
    ensures
        all_met(meaning, exprs, list, by_position(row)) <==> all_met(
            meaning,
            exprs,
            first,
            by_position(row),
        ) && all_met(meaning, exprs, second, by_position(row)) && all_met(
            meaning,
            exprs,
            third,
            by_position(row),
        ),
{
    broadcast use vstd::seq_lib::group_to_multiset_ensures;

    let read = by_position(row);
    assert forall|expr: ExprRef| #[trigger] list.contains(expr) <==> first.contains(expr)
        || second.contains(expr) || third.contains(expr) by {
        assert(list.to_multiset().count(expr) == first.to_multiset().count(expr)
            + second.to_multiset().count(expr) + third.to_multiset().count(expr));
    }
    if all_met(meaning, exprs, list, read) {
        assert forall|i: int| 0 <= i < first.len() implies met(
            meaning,
            exprs,
            #[trigger] first[i],
            read,
        ) by {
            assert(list.contains(first[i]));
            assert(met(meaning, exprs, list[list.index_of(first[i])], read));
        }
        assert forall|i: int| 0 <= i < second.len() implies met(
            meaning,
            exprs,
            #[trigger] second[i],
            read,
        ) by {
            assert(list.contains(second[i]));
            assert(met(meaning, exprs, list[list.index_of(second[i])], read));
        }
        assert forall|i: int| 0 <= i < third.len() implies met(
            meaning,
            exprs,
            #[trigger] third[i],
            read,
        ) by {
            assert(list.contains(third[i]));
            assert(met(meaning, exprs, list[list.index_of(third[i])], read));
        }
    }
    if all_met(meaning, exprs, first, read) && all_met(meaning, exprs, second, read) && all_met(
        meaning,
        exprs,
        third,
        read,
    ) {
        assert forall|i: int| 0 <= i < list.len() implies met(
            meaning,
            exprs,
            #[trigger] list[i],
            read,
        ) by {
            let expr = list[i];
            assert(list.contains(expr));
            if first.contains(expr) {
                assert(met(meaning, exprs, first[first.index_of(expr)], read));
            } else if second.contains(expr) {
                assert(met(meaning, exprs, second[second.index_of(expr)], read));
            } else {
                assert(met(meaning, exprs, third[third.index_of(expr)], read));
            }
        }
    }
}

/// The columns at the references of an expression are its columns.
pub proof fn lemma_node_column(exprs: Seq<ExprView>, expr: ExprRef, node: ExprRef)
    requires
        column_nodes(exprs, expr).contains(node),
    ensures
        columns_of(exprs, expr).contains(exprs[node.0 as int].head->ColumnRef_column),
    decreases expr.0, 1nat, 0nat,
{
    if expr.0 < exprs.len() {
        if exprs[expr.0 as int].head is ColumnRef {
            assert(columns_of(exprs, expr)[0] == exprs[node.0 as int].head->ColumnRef_column);
        } else {
            lemma_node_column_all(exprs, exprs[expr.0 as int].children, expr.0 as nat, node);
        }
    }
}

/// The columns at the references of expressions are their columns.
proof fn lemma_node_column_all(
    exprs: Seq<ExprView>,
    list: Seq<ExprRef>,
    bound: nat,
    node: ExprRef,
)
    requires
        column_nodes_all(exprs, list, bound).contains(node),
    ensures
        crate::expression::analysis::columns_of_all(exprs, list, bound).contains(
            exprs[node.0 as int].head->ColumnRef_column,
        ),
    decreases bound, 0nat, list.len(),
{
    if list.len() > 0 {
        let column = exprs[node.0 as int].head->ColumnRef_column;
        let front = column_nodes_all(exprs, list.drop_last(), bound);
        let columns = crate::expression::analysis::columns_of_all(exprs, list.drop_last(), bound);
        if list.last().0 < bound {
            let own = column_nodes(exprs, list.last());
            let k = (front + own).index_of(node);
            let more = columns_of(exprs, list.last());
            if k < front.len() {
                assert(front[k] == node);
                lemma_node_column_all(exprs, list.drop_last(), bound, node);
                assert((columns + more)[columns.index_of(column)] == column);
            } else {
                assert(own[k - front.len()] == node);
                lemma_node_column(exprs, list.last(), node);
                assert((columns + more)[columns.len() + more.index_of(column)] == column);
            }
        } else {
            lemma_node_column_all(exprs, list.drop_last(), bound, node);
        }
    }
}

/// What a distribution promises of one conjunct: moved to the left or to the right input it has
/// there the value that it had on the joined row, and if it stays it keeps its value.
proof fn lemma_conjunct_value(
    meaning: Meaning,
    exprs: Seq<ExprView>,
    predicate: ExprRef,
    left: Seq<ColumnRef>,
    right: Seq<ColumnRef>,
    push_right: bool,
    side: Side,
    i: int,
    l: Seq<DataValueView>,
    r: Seq<DataValueView>,
)
    requires
        columns_are_leaves(exprs),
        predicate.0 < exprs.len(),
        placed(exprs, predicate, left + right),
        apart(left, right),
        column_nodes(exprs, predicate).no_duplicates(),
        l.len() == left.len(),
        r.len() == right.len(),
        0 <= i < on_side(exprs, conjuncts(exprs, predicate), left, right, side).len(),
    ensures
        ({
            let list = conjuncts(exprs, predicate);
            let expr = on_side(exprs, list, left, right, side)[i];
            let moved: Seq<ExprRef> = if push_right {
                on_side(exprs, list, left, right, Side::Right)
            } else {
                Seq::empty()
            };
            let after = shift_all(exprs, moved, exprs.len(), -(left.len() as int));
            let old = value_of(meaning, exprs, expr, by_position(l + r));
            &&& expr.0 < exprs.len()
            &&& !(side is Right && push_right) ==> value_of(
                meaning,
                after,
                expr,
                by_position(l + r),
            ) == old
            &&& side is Left ==> value_of(meaning, after, expr, by_position(l)) == old
            &&& side is Right && push_right ==> value_of(meaning, after, expr, by_position(r))
                == old
        }),
{
    let n = exprs.len();
    let list = conjuncts(exprs, predicate);
    let own = on_side(exprs, list, left, right, side);
    let expr = own[i];
    let moved: Seq<ExprRef> = if push_right {
        on_side(exprs, list, left, right, Side::Right)
    } else {
        Seq::empty()
    };
    let delta = -(left.len() as int);
    lemma_conjunct_nodes(exprs, predicate, n);
    lemma_conjuncts_bounded(exprs, predicate);
    lemma_on_side(exprs, list, left, right, side, i);
    lemma_from_list(exprs, list, left, right, side, i);
    let k = list.index_of(expr);
    assert(list[k] == expr);
    assert(expr.0 <= predicate.0);
    assert forall|node: ExprRef| #[trigger] column_nodes(exprs, expr).contains(node) implies {
        &&& column_nodes(exprs, predicate).contains(node)
        &&& column_nodes_all(exprs, own, n).contains(node)
        &&& node.0 < n
        &&& is_column(exprs, node)
    } by {
        lemma_column_nodes_of_operand(exprs, list, n, k, node);
        lemma_column_nodes_of_operand(exprs, own, n, i, node);
        lemma_column_nodes(exprs, expr);
        let nodes = column_nodes(exprs, expr);
        assert(is_column(exprs, nodes[nodes.index_of(node)]));
    }
    if side is Right && push_right {
        lemma_sides_apart(exprs, list, left, right, Side::Right, Side::Left, n);
        assert forall|node: ExprRef| #[trigger] column_nodes(exprs, expr).contains(node) implies 0
            <= slot(exprs, node) + delta <= usize::MAX && r[slot(exprs, node) + delta] == (l
            + r)[slot(exprs, node)] by {
            assert(column_nodes(exprs, predicate).contains(node));
            lemma_node_column(exprs, expr, node);
            let column = exprs[node.0 as int].head->ColumnRef_column;
            let columns = columns_of(exprs, expr);
            assert(right.contains(columns[columns.index_of(column)]));
            let p = slot(exprs, node);
            if p < left.len() {
                assert((left + right)[p] == left[p]);
                assert(left.contains(column));
            }
        }
        shifted_expression_reads_shifted_rows(meaning, exprs, own, delta, i, l + r, r);
    } else {
        if push_right {
            lemma_sides_apart(exprs, list, left, right, side, Side::Right, n);
            lemma_sides_apart(exprs, list, left, right, Side::Right, side, n);
        } else {
            assert(column_nodes_all(exprs, moved, n) =~= Seq::empty());
        }
        other_expressions_keep_their_values(meaning, exprs, moved, delta, expr, by_position(l + r));
        if side is Left {
            other_expressions_keep_their_values(meaning, exprs, moved, delta, expr, by_position(l));
            assert forall|node: ExprRef| #[trigger] column_nodes(exprs, expr).contains(
                node,
            ) implies value_of(meaning, exprs, node, by_position(l)) == value_of(
                meaning,
                exprs,
                node,
                by_position(l + r),
            ) by {
                assert(column_nodes(exprs, predicate).contains(node));
                lemma_node_column(exprs, expr, node);
                let column = exprs[node.0 as int].head->ColumnRef_column;
                let columns = columns_of(exprs, expr);
                assert(left.contains(columns[columns.index_of(column)]));
                let p = slot(exprs, node);
                if p >= left.len() {
                    assert((left + right)[p] == right[p - left.len()]);
                    assert(right.contains(column));
                }
            }
            lemma_value_agrees(meaning, exprs, expr, by_position(l), by_position(l + r));
        }
    }
}

/// What is sorted to a side comes from the list.
proof fn lemma_from_list(
    exprs: Seq<ExprView>,
    list: Seq<ExprRef>,
    left: Seq<ColumnRef>,
    right: Seq<ColumnRef>,
    side: Side,
    i: int,
)
    requires
        0 <= i < on_side(exprs, list, left, right, side).len(),
    ensures
        list.contains(on_side(exprs, list, left, right, side)[i]),
    decreases list.len(),
{
    if list.len() > 0 {
        let front = on_side(exprs, list.drop_last(), left, right, side);
        if i < front.len() {
            lemma_from_list(exprs, list.drop_last(), left, right, side, i);
            let k = list.drop_last().index_of(front[i]);
            assert(list[k] == front[i]);
        } else {
            assert(list[list.len() - 1] == list.last());
        }
    }
}

/// A distributed predicate holds on a joined row exactly where its parts hold, each on the row that
/// it is evaluated on now.
proof fn lemma_distributed_meaning(
    meaning: Meaning,
    predicate: ExprRef,
    push_left: bool,
    push_right: bool,
    children: ChildrenView,
    arena: ArenaView,
    after: ArenaView,
    left: Option<ExprRef>,
    right: Option<ExprRef>,
    kept: Option<ExprRef>,
    l: Seq<DataValueView>,
    r: Seq<DataValueView>,
)
    requires
        conjoins(meaning),
        arena.wf(),
        arena.has_expr(predicate),
        ({
            let parts = distribution(predicate, push_left, push_right, children, arena);
            &&& placed(arena.exprs, predicate, parts.inputs.left + parts.inputs.right)
            &&& apart(parts.inputs.left, parts.inputs.right)
            &&& l.len() == parts.inputs.left.len()
            &&& r.len() == parts.inputs.right.len()
            &&& grown(parts.inputs.arena, after, parts.to_right, -(parts.inputs.left.len() as int))
            &&& conjunctions_for(after, parts, left, right, kept)
        }),
        column_nodes(arena.exprs, predicate).no_duplicates(),
    ensures
        met(meaning, arena.exprs, predicate, by_position(l + r)) <==> {
            &&& met_if_any(meaning, after.exprs, left, by_position(l))
            &&& met_if_any(meaning, after.exprs, right, by_position(r))
            &&& met_if_any(meaning, after.exprs, kept, by_position(l + r))
        },
        all_met(
            meaning,
            arena.exprs,
            distribution(predicate, push_left, push_right, children, arena).kept,
            by_position(l + r),
        ) <==> met_if_any(meaning, after.exprs, kept, by_position(l + r)),
{
    let parts = distribution(predicate, push_left, push_right, children, arena);
    lemma_inputs_exprs(children, arena);
    let exprs = arena.exprs;
    let n = exprs.len();
    let list = conjuncts(exprs, predicate);
    let shifted = shift_all(exprs, parts.to_right, n, -(parts.inputs.left.len() as int));
    lemma_shift_structure_all(exprs, parts.to_right, n, -(parts.inputs.left.len() as int));
    assert(shifted.is_prefix_of(after.exprs)) by {
        assert(after.exprs.take(n as int) == shifted);
    }
    conjunction_holds_with_its_parts(meaning, exprs, predicate, by_position(l + r));
    distributed_predicates_are_kept(predicate, push_left, push_right, children, arena);
    lemma_all_met_elements(
        meaning,
        exprs,
        parts.to_left,
        parts.to_right,
        parts.kept,
        list,
        l + r,
    );
    lemma_met_parts(meaning, after.exprs, left, by_position(l));
    lemma_met_parts(meaning, after.exprs, right, by_position(r));
    lemma_met_parts(meaning, after.exprs, kept, by_position(l + r));
    let (lc, rc) = (parts.inputs.left, parts.inputs.right);
    assert forall|i: int| 0 <= i < parts.to_left.len() implies met(
        meaning,
        after.exprs,
        #[trigger] parts.to_left[i],
        by_position(l),
    ) == met(meaning, exprs, parts.to_left[i], by_position(l + r)) by {
        lemma_conjunct_value(meaning, exprs, predicate, lc, rc, push_right, Side::Left, i, l, r);
        lemma_value_extend(meaning, shifted, after.exprs, parts.to_left[i], by_position(l));
    }
    assert forall|i: int| 0 <= i < parts.to_right.len() implies met(
        meaning,
        after.exprs,
        #[trigger] parts.to_right[i],
        by_position(r),
    ) == met(meaning, exprs, parts.to_right[i], by_position(l + r)) by {
        lemma_conjunct_value(meaning, exprs, predicate, lc, rc, push_right, Side::Right, i, l, r);
        lemma_value_extend(meaning, shifted, after.exprs, parts.to_right[i], by_position(r));
    }
    let lefts = on_side(exprs, list, lc, rc, Side::Left);
    let rights = on_side(exprs, list, lc, rc, Side::Right);
    let boths = on_side(exprs, list, lc, rc, Side::Both);
    assert forall|i: int| 0 <= i < parts.kept.len() implies met(
        meaning,
        after.exprs,
        #[trigger] parts.kept[i],
        by_position(l + r),
    ) == met(meaning, exprs, parts.kept[i], by_position(l + r)) by {
        if i < boths.len() {
            assert(parts.kept[i] == boths[i]);
            lemma_conjunct_value(meaning, exprs, predicate, lc, rc, push_right, Side::Both, i, l, r);
        } else if !push_left && i < boths.len() + lefts.len() {
            let k = i - boths.len();
            assert(parts.kept[i] == lefts[k]);
            lemma_conjunct_value(meaning, exprs, predicate, lc, rc, push_right, Side::Left, k, l, r);
        } else {
            let k: int = i - boths.len() - if push_left {
                0
            } else {
                lefts.len() as int
            };
            assert(parts.kept[i] == rights[k]);
            lemma_conjunct_value(meaning, exprs, predicate, lc, rc, push_right, Side::Right, k, l, r);
        }
        lemma_value_extend(meaning, shifted, after.exprs, parts.kept[i], by_position(l + r));
    }
    lemma_all_met_pointwise(
        meaning,
        exprs,
        after.exprs,
        parts.to_left,
        l + r,
        l,
    );
    lemma_all_met_pointwise(
        meaning,
        exprs,
        after.exprs,
        parts.to_right,
        l + r,
        r,
    );
    lemma_all_met_pointwise(
        meaning,
        exprs,
        after.exprs,
        parts.kept,
        l + r,
        l + r,
    );
}

/// Lists that hold element by element alike hold alike.
proof fn lemma_all_met_pointwise(
    meaning: Meaning,
    exprs: Seq<ExprView>,
    after: Seq<ExprView>,
    list: Seq<ExprRef>,
    row: Seq<DataValueView>,
    other: Seq<DataValueView>,
)
    requires
        forall|i: int|
            0 <= i < list.len() ==> met(meaning, after, #[trigger] list[i], by_position(other))
                == met(meaning, exprs, list[i], by_position(row)),
    ensures
        all_met(meaning, exprs, list, by_position(row)) <==> all_met(
            meaning,
            after,
            list,
            by_position(other),
        ),
{
}

/// Asking inputs for their columns does not change the expressions.
proof fn lemma_inputs_exprs(children: ChildrenView, arena: ArenaView)
    ensures
        input_schemas(children, arena).arena.exprs == arena.exprs,
{
    match children {
        ChildrenView::Leaf => {},
        ChildrenView::Only(left) => {
            lemma_output_exprs(*left, arena);
        },
        ChildrenView::Twins { left, right } => {
            lemma_output_exprs(*left, arena);
            lemma_output_exprs(*right, output_arena(*left, arena));
        },
    }
}

/// The arena after the columns of a plan were asked for.
spec fn output_arena(plan: PlanView, arena: ArenaView) -> ArenaView {
    crate::planner::schema::output(plan, arena).arena
}

/// An expression that shares no reference with a predicate keeps its value while the predicate is
/// distributed.
proof fn lemma_untouched_value(
    meaning: Meaning,
    predicate: ExprRef,
    push_left: bool,
    push_right: bool,
    children: ChildrenView,
    arena: ArenaView,
    after: ArenaView,
    expr: ExprRef,
    row: Seq<DataValueView>,
)
    requires
        arena.wf(),
        arena.has_expr(predicate),
        arena.has_expr(expr),
        share_no_reference(arena.exprs, expr, predicate),
        column_nodes(arena.exprs, predicate).no_duplicates(),
        ({
            let parts = distribution(predicate, push_left, push_right, children, arena);
            grown(parts.inputs.arena, after, parts.to_right, -(parts.inputs.left.len() as int))
        }),
    ensures
        value_of(meaning, after.exprs, expr, by_position(row)) == value_of(
            meaning,
            arena.exprs,
            expr,
            by_position(row),
        ),
{
    let parts = distribution(predicate, push_left, push_right, children, arena);
    lemma_inputs_exprs(children, arena);
    let exprs = arena.exprs;
    let n = exprs.len();
    let list = conjuncts(exprs, predicate);
    let delta = -(parts.inputs.left.len() as int);
    let shifted = shift_all(exprs, parts.to_right, n, delta);
    lemma_shift_structure_all(exprs, parts.to_right, n, delta);
    lemma_conjunct_nodes(exprs, predicate, n);
    lemma_sides_apart(
        exprs,
        list,
        parts.inputs.left,
        parts.inputs.right,
        Side::Right,
        Side::Left,
        n,
    );
    if !push_right {
        assert(column_nodes_all(exprs, parts.to_right, n) =~= Seq::empty());
    }
    assert(shifted.is_prefix_of(after.exprs)) by {
        assert(after.exprs.take(n as int) == shifted);
    }
    other_expressions_keep_their_values(
        meaning,
        exprs,
        parts.to_right,
        delta,
        expr,
        by_position(row),
    );
    lemma_value_extend(meaning, shifted, after.exprs, expr, by_position(row));
}

/// A filter above a join means below it what it meant above. On every pair of a left and a right
/// row the filter and the condition of the join hold exactly where the new filters of the inputs
/// hold on the row of their input, and the new condition and what is left above hold on the joined
/// row. The join keeps its kind and its keys, and an outer join keeps its condition.
pub proof fn pushed_filter_means_the_same(
    meaning: Meaning,
    plan: PlanView,
    arena: ArenaView,
    new_plan: PlanView,
    new_arena: ArenaView,
    applied: bool,
    l: Seq<DataValueView>,
    r: Seq<DataValueView>,
)
    requires
        conjoins(meaning),
        arena.wf(),
        plan.valid(arena),
        filter_above_join(plan),
        plan.children->Only_0.children is Twins,
        pushes_through_join(plan, arena, new_plan, new_arena, applied),
        ({
            let predicate = plan.operator->Filter_0.predicate;
            let inputs = input_schemas(plan.children->Only_0.children, arena);
            &&& placed(arena.exprs, predicate, inputs.left + inputs.right)
            &&& apart(inputs.left, inputs.right)
            &&& column_nodes(arena.exprs, predicate).no_duplicates()
            &&& l.len() == inputs.left.len()
            &&& r.len() == inputs.right.len()
            &&& condition_of(plan.children->Only_0.operator->Join_0) matches Some(expr)
                ==> share_no_reference(arena.exprs, expr, predicate)
        }),
    ensures
        ({
            let predicate = plan.operator->Filter_0.predicate;
            let join = plan.children->Only_0.operator->Join_0;
            let inputs = input_schemas(plan.children->Only_0.children, arena).children;
            let joined = if new_plan.operator is Join {
                new_plan
            } else {
                *new_plan.children->Only_0
            };
            let kept = if new_plan.operator is Join {
                None
            } else {
                Some(new_plan.operator->Filter_0.predicate)
            };
            let now = joined.operator->Join_0;
            let left = filter_put_above(*joined.children->left, *inputs->left);
            let right = filter_put_above(*joined.children->right, *inputs->right);
            let exprs = new_arena.exprs;
            let row = by_position(l + r);
            &&& joined.operator is Join
            &&& joined.children is Twins
            &&& new_plan.operator is Join || new_plan.operator is Filter
            &&& now.join_type == join.join_type
            &&& keys_of(now) == keys_of(join)
            &&& at_most_filtered(*joined.children->left, *inputs->left)
            &&& at_most_filtered(*joined.children->right, *inputs->right)
            &&& (met(meaning, arena.exprs, predicate, row) && met_if_any(
                meaning,
                arena.exprs,
                condition_of(join),
                row,
            )) <==> {
                &&& met_if_any(meaning, exprs, left, by_position(l))
                &&& met_if_any(meaning, exprs, right, by_position(r))
                &&& met_if_any(meaning, exprs, kept, row)
                &&& met_if_any(meaning, exprs, condition_of(now), row)
            }
            &&& join.join_type != JoinType::Inner ==> {
                &&& now == join
                &&& met(meaning, arena.exprs, predicate, row) <==> {
                    &&& met_if_any(meaning, exprs, left, by_position(l))
                    &&& met_if_any(meaning, exprs, right, by_position(r))
                    &&& met_if_any(meaning, exprs, kept, row)
                }
            }
            &&& join.join_type == JoinType::LeftOuter ==> right is None
            &&& join.join_type == JoinType::RightOuter ==> left is None
        }),
{
    let child = *plan.children->Only_0;
    let predicate = plan.operator->Filter_0.predicate;
    let join = child.operator->Join_0;
    let parts = filter_distribution(plan, arena);
    let preds = filter_predicates(plan, arena);
    let push_left = join.join_type == JoinType::Inner || join.join_type == JoinType::LeftOuter;
    let push_right = join.join_type == JoinType::Inner || join.join_type == JoinType::RightOuter;
    assert(parts == distribution(predicate, push_left, push_right, child.children, arena));
    let row = l + r;
    lemma_distributed_meaning(
        meaning,
        predicate,
        push_left,
        push_right,
        child.children,
        arena,
        new_arena,
        preds.left,
        preds.right,
        preds.kept,
        l,
        r,
    );
    lemma_plan_grows(parts, preds.left, preds.right);
    lemma_something_distributed(predicate, push_left, push_right, child.children, arena);
    assert(preds.left is Some || preds.right is Some || preds.kept is Some);
    assert(child.valid(arena));
    if condition_of(join) is Some {
        lemma_untouched_value(
            meaning,
            predicate,
            push_left,
            push_right,
            child.children,
            arena,
            new_arena,
            condition_of(join)->0,
            row,
        );
        lemma_untouched_parts(
            meaning,
            predicate,
            push_left,
            push_right,
            child.children,
            arena,
            new_arena,
            condition_of(join)->0,
            row,
        );
    }
    if join.join_type == JoinType::Inner {
        inner_join_takes_whole_filter(plan, arena, new_plan, new_arena, applied);
        let now = new_plan.operator->Join_0;
        let own = crate::expression::conjunction::parts_of(arena.exprs, condition_of(join));
        lemma_met_parts(meaning, new_arena.exprs, condition_of(now), by_position(row));
        lemma_met_parts(meaning, new_arena.exprs, preds.kept, by_position(row));
        lemma_met_parts(meaning, arena.exprs, condition_of(join), by_position(row));
        lemma_all_met_concat(meaning, new_arena.exprs, own, parts.kept, by_position(row));
        assert(all_met(meaning, new_arena.exprs, own, by_position(row)) == all_met(
            meaning,
            arena.exprs,
            own,
            by_position(row),
        ));
    }
}

/// Every predicate has at least one conjunct, which goes somewhere.
proof fn lemma_something_distributed(
    predicate: ExprRef,
    push_left: bool,
    push_right: bool,
    children: ChildrenView,
    arena: ArenaView,
)
    ensures
        ({
            let parts = distribution(predicate, push_left, push_right, children, arena);
            parts.to_left.len() > 0 || parts.to_right.len() > 0 || parts.kept.len() > 0
        }),
{
    broadcast use vstd::seq_lib::group_to_multiset_ensures;

    let parts = distribution(predicate, push_left, push_right, children, arena);
    let list = conjuncts(parts.inputs.arena.exprs, predicate);
    lemma_conjuncts_bounded(parts.inputs.arena.exprs, predicate);
    distributed_predicates_are_kept(predicate, push_left, push_right, children, arena);
    assert(list.to_multiset().len() == list.len());
    assert(parts.to_left.to_multiset().len() == parts.to_left.len());
    assert(parts.to_right.to_multiset().len() == parts.to_right.len());
    assert(parts.kept.to_multiset().len() == parts.kept.len());
}

/// The conjuncts of an expression that shares no reference with a predicate hold as before while the
/// predicate is distributed.
proof fn lemma_untouched_parts(
    meaning: Meaning,
    predicate: ExprRef,
    push_left: bool,
    push_right: bool,
    children: ChildrenView,
    arena: ArenaView,
    after: ArenaView,
    expr: ExprRef,
    row: Seq<DataValueView>,
)
    requires
        arena.wf(),
        arena.has_expr(predicate),
        arena.has_expr(expr),
        share_no_reference(arena.exprs, expr, predicate),
        column_nodes(arena.exprs, predicate).no_duplicates(),
        ({
            let parts = distribution(predicate, push_left, push_right, children, arena);
            grown(parts.inputs.arena, after, parts.to_right, -(parts.inputs.left.len() as int))
        }),
    ensures
        all_met(meaning, after.exprs, conjuncts(arena.exprs, expr), by_position(row)) == all_met(
            meaning,
            arena.exprs,
            conjuncts(arena.exprs, expr),
            by_position(row),
        ),
{
    let exprs = arena.exprs;
    let list = conjuncts(exprs, expr);
    lemma_conjuncts_bounded(exprs, expr);
    lemma_conjunct_nodes(exprs, expr, exprs.len());
    assert forall|i: int| 0 <= i < list.len() implies met(
        meaning,
        after.exprs,
        #[trigger] list[i],
        by_position(row),
    ) == met(meaning, exprs, list[i], by_position(row)) by {
        assert(share_no_reference(exprs, list[i], predicate)) by {
            assert forall|node: ExprRef| #[trigger]
                column_nodes(exprs, list[i]).contains(node) implies !column_nodes(
                exprs,
                predicate,
            ).contains(node) by {
                lemma_column_nodes_of_operand(exprs, list, exprs.len(), i, node);
                assert(column_nodes(exprs, expr).contains(node));
            }
        }
        lemma_untouched_value(
            meaning,
            predicate,
            push_left,
            push_right,
            children,
            arena,
            after,
            list[i],
            row,
        );
    }
    lemma_all_met_pointwise(meaning, exprs, after.exprs, list, row, row);
}

/// A filter above a plan is another plan.
proof fn lemma_plan_grows(parts: Distribution, left: Option<ExprRef>, right: Option<ExprRef>)
    ensures
        parts.inputs.children matches ChildrenView::Twins { left, right } ==> {
            &&& forall|plan: PlanView|
                #![trigger plan.children]
                plan.children == ChildrenView::Only(left) ==> plan != *left
            &&& forall|plan: PlanView|
                #![trigger plan.children]
                plan.children == ChildrenView::Only(right) ==> plan != *right
        },
{
    if let ChildrenView::Twins { left, right } = parts.inputs.children {
        assert forall|plan: PlanView|
            #![trigger plan.children]
            plan.children == ChildrenView::Only(left) implies plan != *left by {
            assert(decreases_to!(plan => plan.children->Only_0));
        }
        assert forall|plan: PlanView|
            #![trigger plan.children]
            plan.children == ChildrenView::Only(right) implies plan != *right by {
            assert(decreases_to!(plan => plan.children->Only_0));
        }
    }
}

/// The filter of a join means at its inputs what it meant in the join. On every pair of a left and a
/// right row it holds exactly where the new filters of the inputs hold on the row of their input and
/// what is left of it holds on the joined row. The join keeps its kind and its keys.
pub proof fn pushed_condition_means_the_same(
    meaning: Meaning,
    plan: PlanView,
    arena: ArenaView,
    new_plan: PlanView,
    new_arena: ArenaView,
    applied: bool,
    l: Seq<DataValueView>,
    r: Seq<DataValueView>,
)
    requires
        conjoins(meaning),
        arena.wf(),
        plan.valid(arena),
        movable_condition(plan) is Some,
        plan.children is Twins,
        pushes_condition(plan, arena, new_plan, new_arena, applied),
        ({
            let predicate = movable_condition(plan)->0;
            let inputs = input_schemas(plan.children, arena);
            &&& placed(arena.exprs, predicate, inputs.left + inputs.right)
            &&& apart(inputs.left, inputs.right)
            &&& column_nodes(arena.exprs, predicate).no_duplicates()
            &&& l.len() == inputs.left.len()
            &&& r.len() == inputs.right.len()
        }),
    ensures
        ({
            let join = plan.operator->Join_0;
            let now = new_plan.operator->Join_0;
            let inputs = input_schemas(plan.children, arena).children;
            let left = filter_put_above(*new_plan.children->left, *inputs->left);
            let right = filter_put_above(*new_plan.children->right, *inputs->right);
            let exprs = new_arena.exprs;
            let row = by_position(l + r);
            &&& new_plan.operator is Join
            &&& new_plan.children is Twins
            &&& now.join_type == join.join_type
            &&& keys_of(now) == keys_of(join)
            &&& at_most_filtered(*new_plan.children->left, *inputs->left)
            &&& at_most_filtered(*new_plan.children->right, *inputs->right)
            &&& met_if_any(meaning, arena.exprs, condition_of(join), row) <==> {
                &&& met_if_any(meaning, exprs, left, by_position(l))
                &&& met_if_any(meaning, exprs, right, by_position(r))
                &&& met_if_any(meaning, exprs, condition_of(now), row)
            }
            &&& join.join_type == JoinType::LeftOuter ==> left is None
            &&& join.join_type == JoinType::RightOuter ==> right is None
            &&& join.join_type == JoinType::Full ==> left is None && right is None
        }),
{
    let join = plan.operator->Join_0;
    let predicate = movable_condition(plan)->0;
    let parts = condition_distribution(plan, arena);
    let preds = condition_predicates(plan, arena);
    let push_left = join.join_type == JoinType::Inner || join.join_type == JoinType::RightOuter;
    let push_right = join.join_type == JoinType::Inner || join.join_type == JoinType::LeftOuter;
    assert(parts == distribution(predicate, push_left, push_right, plan.children, arena));
    lemma_distributed_meaning(
        meaning,
        predicate,
        push_left,
        push_right,
        plan.children,
        arena,
        new_arena,
        preds.left,
        preds.right,
        preds.kept,
        l,
        r,
    );
    lemma_plan_grows(parts, preds.left, preds.right);
}

} // verus!
