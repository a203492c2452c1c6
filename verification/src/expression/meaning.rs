//! What expressions mean: the values that they have on rows.
//!
//! How a node computes its value from the values of its operands is left open, so that what is
//! proved here holds however the operators compute.

use crate::catalog::ColumnRef;
use crate::expression::analysis::{bare, eq_ignoring_positions};
use crate::expression::conjunction::{conjuncts, is_and, parts_of};
use crate::expression::{BinaryOperator, ExprHead, ExprView};
use crate::planner::arena::{ArenaView, ExprRef};
use crate::types::value::{DataValue, DataValueView};
use vstd::prelude::*;

verus! {

/// How nodes compute their values from those of their operands.
pub type Meaning = spec_fn(ExprHead, Seq<DataValueView>) -> DataValueView;

/// What a row holds for a reference to a column at a position.
pub type Reader = spec_fn(ColumnRef, usize) -> DataValueView;

/// The value of an expression on a row. Aliases have the value of what they stand for.
pub open spec fn value_of(
    meaning: Meaning,
    exprs: Seq<ExprView>,
    expr: ExprRef,
    row: Reader,
) -> DataValueView
    decreases expr.0, 1nat, 0nat,
{
    if expr.0 < exprs.len() {
        let node = exprs[expr.0 as int];
        match node.head {
            ExprHead::Constant(value) => value,
            ExprHead::ColumnRef { column, position } => row(column, position),
            ExprHead::AliasName(_) if node.children.len() == 1 && node.children[0].0 < expr.0 => {
                value_of(meaning, exprs, node.children[0], row)
            },
            ExprHead::AliasExpr if node.children.len() == 2 && node.children[1].0 < expr.0 => {
                value_of(meaning, exprs, node.children[1], row)
            },
            head => meaning(head, values_of(meaning, exprs, node.children, expr.0 as nat, row)),
        }
    } else {
        arbitrary()
    }
}

/// The values of the expressions on a row, in order.
pub open spec fn values_of(
    meaning: Meaning,
    exprs: Seq<ExprView>,
    list: Seq<ExprRef>,
    bound: nat,
    row: Reader,
) -> Seq<DataValueView>
    decreases bound, 0nat, list.len(),
{
    if list.len() == 0 {
        Seq::empty()
    } else {
        values_of(meaning, exprs, list.drop_last(), bound, row).push(
            if list.last().0 < bound {
                value_of(meaning, exprs, list.last(), row)
            } else {
                arbitrary()
            },
        )
    }
}

/// Each value is that of its expression.
pub proof fn lemma_values_of(
    meaning: Meaning,
    exprs: Seq<ExprView>,
    list: Seq<ExprRef>,
    bound: nat,
    row: Reader,
)
    ensures
        values_of(meaning, exprs, list, bound, row).len() == list.len(),
        forall|i: int|
            #![trigger values_of(meaning, exprs, list, bound, row)[i]]
            #![trigger list[i]]
            0 <= i < list.len() ==> values_of(meaning, exprs, list, bound, row)[i] == if list[i].0
                < bound {
                value_of(meaning, exprs, list[i], row)
            } else {
                arbitrary()
            },
    decreases list.len(),
{
    if list.len() > 0 {
        let front = list.drop_last();
        lemma_values_of(meaning, exprs, front, bound, row);
        assert forall|i: int| 0 <= i < list.len() implies #[trigger] values_of(
            meaning,
            exprs,
            list,
            bound,
            row,
        )[i] == if list[i].0 < bound {
            value_of(meaning, exprs, list[i], row)
        } else {
            arbitrary()
        } by {
            if i < front.len() {
                assert(front[i] == list[i]);
                assert(values_of(meaning, exprs, list, bound, row)[i] == values_of(
                    meaning,
                    exprs,
                    front,
                    bound,
                    row,
                )[i]);
            }
        }
    }
}

/// A row of values, read by position.
pub open spec fn by_position(values: Seq<DataValueView>) -> Reader {
    |column: ColumnRef, position: usize| values[position as int]
}

/// A row of values, read by column.
pub open spec fn by_column(values: spec_fn(ColumnRef) -> DataValueView) -> Reader {
    |column: ColumnRef, position: usize| values(column)
}

/// Whether a value is the truth value true.
pub open spec fn holds(value: DataValueView) -> bool {
    value == DataValueView::Plain(DataValue::Boolean(true))
}

/// Whether a predicate holds on a row.
pub open spec fn met(
    meaning: Meaning,
    exprs: Seq<ExprView>,
    predicate: ExprRef,
    row: Reader,
) -> bool {
    holds(value_of(meaning, exprs, predicate, row))
}

/// Whether an optional predicate holds on a row; no predicate holds everywhere.
pub open spec fn met_if_any(
    meaning: Meaning,
    exprs: Seq<ExprView>,
    predicate: Option<ExprRef>,
    row: Reader,
) -> bool {
    predicate matches Some(expr) ==> met(meaning, exprs, expr, row)
}

/// Whether all predicates of a list hold on a row.
pub open spec fn all_met(
    meaning: Meaning,
    exprs: Seq<ExprView>,
    list: Seq<ExprRef>,
    row: Reader,
) -> bool {
    forall|i: int| 0 <= i < list.len() ==> met(meaning, exprs, #[trigger] list[i], row)
}

/// Whether conjunctions hold exactly where both operands hold.
pub open spec fn conjoins(meaning: Meaning) -> bool {
    forall|head: ExprHead, values: Seq<DataValueView>|
        (head matches ExprHead::Binary { op, .. } && op == BinaryOperator::And) && values.len()
            == 2 ==> (holds(#[trigger] meaning(head, values)) <==> holds(values[0]) && holds(
            values[1],
        ))
}

/// Whether equalities hold only of equal values.
pub open spec fn equates(meaning: Meaning) -> bool {
    forall|head: ExprHead, values: Seq<DataValueView>|
        (head matches ExprHead::Binary { op, .. } && op == BinaryOperator::Eq) && values.len() == 2
            && holds(#[trigger] meaning(head, values)) ==> values[0] == values[1]
}

/// The column references of an expression, in order of appearance.
pub open spec fn column_nodes(exprs: Seq<ExprView>, expr: ExprRef) -> Seq<ExprRef>
    decreases expr.0, 1nat, 0nat,
{
    if expr.0 < exprs.len() {
        match exprs[expr.0 as int].head {
            ExprHead::ColumnRef { .. } => seq![expr],
            _ => column_nodes_all(exprs, exprs[expr.0 as int].children, expr.0 as nat),
        }
    } else {
        Seq::empty()
    }
}

/// The column references of the expressions, in order of appearance.
pub open spec fn column_nodes_all(
    exprs: Seq<ExprView>,
    list: Seq<ExprRef>,
    bound: nat,
) -> Seq<ExprRef>
    decreases bound, 0nat, list.len(),
{
    if list.len() == 0 {
        Seq::empty()
    } else if list.last().0 < bound {
        column_nodes_all(exprs, list.drop_last(), bound) + column_nodes(exprs, list.last())
    } else {
        column_nodes_all(exprs, list.drop_last(), bound)
    }
}

/// Whether a node is a reference to a column.
pub open spec fn is_column(exprs: Seq<ExprView>, expr: ExprRef) -> bool {
    expr.0 < exprs.len() && exprs[expr.0 as int].head is ColumnRef
}

/// The column references of an expression are references to columns, no later than it.
pub proof fn lemma_column_nodes(exprs: Seq<ExprView>, expr: ExprRef)
    ensures
        forall|i: int|
            0 <= i < column_nodes(exprs, expr).len() ==> is_column(
                exprs,
                #[trigger] column_nodes(exprs, expr)[i],
            ) && column_nodes(exprs, expr)[i].0 <= expr.0,
    decreases expr.0, 1nat, 0nat,
{
    if expr.0 < exprs.len() && !(exprs[expr.0 as int].head is ColumnRef) {
        let children = exprs[expr.0 as int].children;
        lemma_column_nodes_all(exprs, children, expr.0 as nat);
        assert(column_nodes(exprs, expr) == column_nodes_all(exprs, children, expr.0 as nat));
    }
}

/// The column references of expressions are references to columns before the bound.
pub proof fn lemma_column_nodes_all(exprs: Seq<ExprView>, list: Seq<ExprRef>, bound: nat)
    ensures
        forall|i: int|
            0 <= i < column_nodes_all(exprs, list, bound).len() ==> is_column(
                exprs,
                #[trigger] column_nodes_all(exprs, list, bound)[i],
            ) && column_nodes_all(exprs, list, bound)[i].0 < bound,
    decreases bound, 0nat, list.len(),
{
    if list.len() > 0 {
        lemma_column_nodes_all(exprs, list.drop_last(), bound);
        let front = column_nodes_all(exprs, list.drop_last(), bound);
        if list.last().0 < bound {
            lemma_column_nodes(exprs, list.last());
            let own = column_nodes(exprs, list.last());
            assert forall|i: int| 0 <= i < (front + own).len() implies is_column(
                exprs,
                #[trigger] (front + own)[i],
            ) && (front + own)[i].0 < bound by {
                if i < front.len() {
                    assert((front + own)[i] == front[i]);
                } else {
                    assert((front + own)[i] == own[i - front.len()]);
                }
            }
        }
    }
}

/// The column references of an operand are among those of the list.
pub proof fn lemma_column_nodes_of_operand(
    exprs: Seq<ExprView>,
    list: Seq<ExprRef>,
    bound: nat,
    i: int,
    node: ExprRef,
)
    requires
        0 <= i < list.len(),
        list[i].0 < bound,
        column_nodes(exprs, list[i]).contains(node),
    ensures
        column_nodes_all(exprs, list, bound).contains(node),
    decreases list.len(),
{
    let front = column_nodes_all(exprs, list.drop_last(), bound);
    if i < list.len() - 1 {
        lemma_column_nodes_of_operand(exprs, list.drop_last(), bound, i, node);
        let k = front.index_of(node);
        if list.last().0 < bound {
            assert((front + column_nodes(exprs, list.last()))[k] == node);
        }
    } else {
        let own = column_nodes(exprs, list.last());
        let k = own.index_of(node);
        assert((front + own)[front.len() + k] == node);
    }
}

/// The value of an expression only depends on what the row holds for its columns, and not on
/// expressions that it does not consist of: two lists of expressions of the same structure give it
/// the same value on rows that hold the same for each of its references.
pub proof fn lemma_value_same(
    meaning: Meaning,
    first: Seq<ExprView>,
    second: Seq<ExprView>,
    expr: ExprRef,
    row: Reader,
    other: Reader,
)
    requires
        expr.0 < first.len(),
        expr.0 < second.len(),
        forall|i: int|
            #![trigger first[i]]
            #![trigger second[i]]
            0 <= i <= expr.0 ==> first[i].children == second[i].children && (first[i].head
                is ColumnRef <==> second[i].head is ColumnRef) && (!(first[i].head is ColumnRef)
                ==> first[i].head == second[i].head),
        forall|node: ExprRef| #[trigger]
            column_nodes(first, expr).contains(node) ==> value_of(meaning, first, node, row)
                == value_of(meaning, second, node, other),
    ensures
        value_of(meaning, first, expr, row) == value_of(meaning, second, expr, other),
    decreases expr.0,
{
    let node = first[expr.0 as int];
    assert(second[expr.0 as int].children == node.children);
    if node.head is ColumnRef {
        assert(column_nodes(first, expr)[0] == expr);
        assert(column_nodes(first, expr).contains(expr));
    } else {
        assert forall|i: int| 0 <= i < node.children.len() && node.children[i].0 < expr.0 implies
            value_of(meaning, first, #[trigger] node.children[i], row) == value_of(
            meaning,
            second,
            node.children[i],
            other,
        ) by {
            assert forall|n: ExprRef| #[trigger]
                column_nodes(first, node.children[i]).contains(n) implies value_of(
                meaning,
                first,
                n,
                row,
            ) == value_of(meaning, second, n, other) by {
                lemma_column_nodes_of_operand(first, node.children, expr.0 as nat, i, n);
                assert(column_nodes(first, expr).contains(n));
            }
            lemma_value_same(meaning, first, second, node.children[i], row, other);
        }
        let one = values_of(meaning, first, node.children, expr.0 as nat, row);
        let two = values_of(meaning, second, node.children, expr.0 as nat, other);
        lemma_values_of(meaning, first, node.children, expr.0 as nat, row);
        lemma_values_of(meaning, second, node.children, expr.0 as nat, other);
        assert(one =~= two);
    }
}

/// More expressions do not change the values of those that were there.
pub proof fn lemma_value_extend(
    meaning: Meaning,
    before: Seq<ExprView>,
    after: Seq<ExprView>,
    expr: ExprRef,
    row: Reader,
)
    requires
        before.is_prefix_of(after),
        expr.0 < before.len(),
    ensures
        value_of(meaning, after, expr, row) == value_of(meaning, before, expr, row),
{
    assert forall|i: int|
        #![trigger before[i]]
        #![trigger after[i]]
        0 <= i <= expr.0 implies before[i] == after[i] by {
        assert(after.take(before.len() as int)[i] == after[i]);
    }
    assert forall|node: ExprRef| #[trigger] column_nodes(before, expr).contains(node) implies value_of(
        meaning,
        before,
        node,
        row,
    ) == value_of(meaning, after, node, row) by {
        lemma_column_nodes(before, expr);
    }
    lemma_value_same(meaning, before, after, expr, row, row);
}

/// Rows that hold the same for every reference of an expression give it the same value.
pub proof fn lemma_value_agrees(
    meaning: Meaning,
    exprs: Seq<ExprView>,
    expr: ExprRef,
    row: Reader,
    other: Reader,
)
    requires
        expr.0 < exprs.len(),
        forall|node: ExprRef| #[trigger]
            column_nodes(exprs, expr).contains(node) ==> value_of(meaning, exprs, node, row)
                == value_of(meaning, exprs, node, other),
    ensures
        value_of(meaning, exprs, expr, row) == value_of(meaning, exprs, expr, other),
{
    lemma_value_same(meaning, exprs, exprs, expr, row, other);
}

/// An expression has the value of what its aliases stand for.
pub proof fn lemma_value_bare(
    meaning: Meaning,
    exprs: Seq<ExprView>,
    expr: ExprRef,
    row: Reader,
)
    ensures
        value_of(meaning, exprs, bare(exprs, expr), row) == value_of(meaning, exprs, expr, row),
    decreases expr.0,
{
    if expr.0 < exprs.len() {
        let node = exprs[expr.0 as int];
        if node.head is AliasName && node.children.len() == 1 && node.children[0].0 < expr.0 {
            lemma_value_bare(meaning, exprs, node.children[0], row);
        }
        if node.head is AliasExpr && node.children.len() == 2 && node.children[1].0 < expr.0 {
            lemma_value_bare(meaning, exprs, node.children[1], row);
        }
    }
}

/// A predicate holds exactly where all its conjuncts hold.
pub proof fn conjunction_holds_with_its_parts(
    meaning: Meaning,
    exprs: Seq<ExprView>,
    expr: ExprRef,
    row: Reader,
)
    requires
        conjoins(meaning),
    ensures
        met(meaning, exprs, expr, row) <==> all_met(meaning, exprs, conjuncts(exprs, expr), row),
    decreases expr.0,
{
    let list = conjuncts(exprs, expr);
    if expr.0 < exprs.len() && is_and(exprs[expr.0 as int]) && exprs[expr.0 as int].children[0].0
        < expr.0 && exprs[expr.0 as int].children[1].0 < expr.0 {
        let node = exprs[expr.0 as int];
        let (left, right) = (node.children[0], node.children[1]);
        conjunction_holds_with_its_parts(meaning, exprs, left, row);
        conjunction_holds_with_its_parts(meaning, exprs, right, row);
        let values = values_of(meaning, exprs, node.children, expr.0 as nat, row);
        lemma_values_of(meaning, exprs, node.children, expr.0 as nat, row);
        assert(value_of(meaning, exprs, expr, row) == meaning(node.head, values));
        assert(values.len() == 2 && values[0] == value_of(meaning, exprs, left, row) && values[1]
            == value_of(meaning, exprs, right, row));
        lemma_all_met_concat(
            meaning,
            exprs,
            conjuncts(exprs, left),
            conjuncts(exprs, right),
            row,
        );
    } else {
        assert(list[0] == expr);
    }
}

/// All of two lists hold exactly where all of each hold.
pub proof fn lemma_all_met_concat(
    meaning: Meaning,
    exprs: Seq<ExprView>,
    first: Seq<ExprRef>,
    second: Seq<ExprRef>,
    row: Reader,
)
    ensures
        all_met(meaning, exprs, first + second, row) <==> all_met(meaning, exprs, first, row)
            && all_met(meaning, exprs, second, row),
{
    let both = first + second;
    if all_met(meaning, exprs, both, row) {
        assert forall|i: int| 0 <= i < first.len() implies met(
            meaning,
            exprs,
            #[trigger] first[i],
            row,
        ) by {
            assert(both[i] == first[i]);
        }
        assert forall|i: int| 0 <= i < second.len() implies met(
            meaning,
            exprs,
            #[trigger] second[i],
            row,
        ) by {
            assert(both[first.len() + i] == second[i]);
        }
    }
}

/// An optional predicate holds exactly where all its conjuncts hold.
pub proof fn lemma_met_parts(
    meaning: Meaning,
    exprs: Seq<ExprView>,
    expr: Option<ExprRef>,
    row: Reader,
)
    requires
        conjoins(meaning),
    ensures
        met_if_any(meaning, exprs, expr, row) <==> all_met(
            meaning,
            exprs,
            parts_of(exprs, expr),
            row,
        ),
{
    if expr is Some {
        conjunction_holds_with_its_parts(meaning, exprs, expr->0, row);
    }
}

/// An equality that holds has operands of the same value.
pub proof fn lemma_equality_holds(
    meaning: Meaning,
    exprs: Seq<ExprView>,
    expr: ExprRef,
    row: Reader,
)
    requires
        equates(meaning),
        expr.0 < exprs.len(),
        exprs[expr.0 as int].head matches ExprHead::Binary { op, .. } && op == BinaryOperator::Eq,
        exprs[expr.0 as int].children.len() == 2,
        exprs[expr.0 as int].children[0].0 < expr.0,
        exprs[expr.0 as int].children[1].0 < expr.0,
        met(meaning, exprs, expr, row),
    ensures
        value_of(meaning, exprs, exprs[expr.0 as int].children[0], row) == value_of(
            meaning,
            exprs,
            exprs[expr.0 as int].children[1],
            row,
        ),
{
    let node = exprs[expr.0 as int];
    let values = values_of(meaning, exprs, node.children, expr.0 as nat, row);
    lemma_values_of(meaning, exprs, node.children, expr.0 as nat, row);
    assert(value_of(meaning, exprs, expr, row) == meaning(node.head, values));
    assert(values[0] == value_of(meaning, exprs, node.children[0], row));
    assert(values[1] == value_of(meaning, exprs, node.children[1], row));
}

/// Whether a row holds the same for columns that count as the same.
pub open spec fn respects_columns(
    arena: ArenaView,
    values: spec_fn(ColumnRef) -> DataValueView,
) -> bool {
    forall|a: ColumnRef, b: ColumnRef| #[trigger] arena.same_column(a, b) ==> values(a) == values(b)
}

/// Expressions that are the same up to the positions of their columns have the same value on every
/// row.
pub proof fn same_expressions_have_same_values(
    meaning: Meaning,
    arena: ArenaView,
    left: ExprRef,
    right: ExprRef,
    values: spec_fn(ColumnRef) -> DataValueView,
)
    requires
        arena.wf(),
        respects_columns(arena, values),
        eq_ignoring_positions(arena, left, right),
    ensures
        value_of(meaning, arena.exprs, left, by_column(values)) == value_of(
            meaning,
            arena.exprs,
            right,
            by_column(values),
        ),
    decreases left.0,
{
    let exprs = arena.exprs;
    let row = by_column(values);
    let l = exprs[left.0 as int];
    let r = exprs[right.0 as int];
    if !(l.head is ColumnRef) {
        assert forall|i: int| 0 <= i < l.children.len() implies value_of(
            meaning,
            exprs,
            #[trigger] l.children[i],
            row,
        ) == value_of(meaning, exprs, r.children[i], row) && l.children[i].0 < left.0
            && r.children[i].0 < right.0 by {
            assert(exprs[right.0 as int].children[i].0 < right.0);
            same_expressions_have_same_values(meaning, arena, l.children[i], r.children[i], values);
        }
        let one = values_of(meaning, exprs, l.children, left.0 as nat, row);
        let two = values_of(meaning, exprs, r.children, right.0 as nat, row);
        lemma_values_of(meaning, exprs, l.children, left.0 as nat, row);
        lemma_values_of(meaning, exprs, r.children, right.0 as nat, row);
        assert(one =~= two);
        if l.children.len() > 0 {
            assert(l.children[0].0 < left.0 && r.children[0].0 < right.0);
        }
        if l.children.len() > 1 {
            assert(l.children[1].0 < left.0 && r.children[1].0 < right.0);
        }
    }
}

} // verus!
