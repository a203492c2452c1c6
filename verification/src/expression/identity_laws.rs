//! What expressions that are written alike have in common, and which of several are kept.

use crate::expression::copy::{copied, copy_is_alike};
use crate::expression::identity::{alike, holds_alike, without_repeats};
use crate::expression::meaning::{
    lemma_value_extend, lemma_values_of, value_of, values_of, Meaning, Reader,
};
use crate::expression::ExprView;
use crate::planner::arena::{ArenaView, ExprRef};
use vstd::prelude::*;

verus! {

/// Whether every operand stands before its user.
pub open spec fn operands_first(exprs: Seq<ExprView>) -> bool {
    forall|i: int, j: int|
        #![trigger exprs[i].children[j]]
        0 <= i < exprs.len() && 0 <= j < exprs[i].children.len() ==> exprs[i].children[j].0 < i
}

/// Expressions that are written alike have the same value on every row.
pub proof fn alike_expressions_have_the_same_value(
    meaning: Meaning,
    exprs: Seq<ExprView>,
    left: ExprRef,
    right: ExprRef,
    row: Reader,
)
    requires
        operands_first(exprs),
        alike(exprs, left, right),
    ensures
        value_of(meaning, exprs, left, row) == value_of(meaning, exprs, right, row),
    decreases left.0,
{
    let l = exprs[left.0 as int];
    let r = exprs[right.0 as int];
    assert forall|i: int| 0 <= i < l.children.len() implies l.children[i].0 < left.0
        && r.children[i].0 < right.0 && value_of(meaning, exprs, #[trigger] l.children[i], row)
        == value_of(meaning, exprs, r.children[i], row) by {
        assert(exprs[right.0 as int].children[i].0 < right.0);
        alike_expressions_have_the_same_value(
            meaning,
            exprs,
            l.children[i],
            r.children[i],
            row,
        );
    }
    lemma_values_of(meaning, exprs, l.children, left.0 as nat, row);
    lemma_values_of(meaning, exprs, r.children, right.0 as nat, row);
    let first = values_of(meaning, exprs, l.children, left.0 as nat, row);
    let second = values_of(meaning, exprs, r.children, right.0 as nat, row);
    assert forall|i: int| 0 <= i < l.children.len() implies first[i] == second[i] by {
        assert(value_of(meaning, exprs, l.children[i], row) == value_of(
            meaning,
            exprs,
            r.children[i],
            row,
        ));
    }
    assert(first =~= second);
    if l.children.len() > 0 {
        assert(value_of(meaning, exprs, l.children[0], row) == value_of(
            meaning,
            exprs,
            r.children[0],
            row,
        ));
    }
    if l.children.len() > 1 {
        assert(value_of(meaning, exprs, l.children[1], row) == value_of(
            meaning,
            exprs,
            r.children[1],
            row,
        ));
    }
}

/// A copy has the value of the expression that it was made from, and that one keeps its value.
pub proof fn copy_has_the_same_value(
    meaning: Meaning,
    arena: ArenaView,
    expr: ExprRef,
    row: Reader,
)
    requires
        arena.wf(),
        arena.has_expr(expr),
        copied(arena.exprs, expr, arena).1.exprs.len() <= usize::MAX,
        operands_first(copied(arena.exprs, expr, arena).1.exprs),
    ensures
        ({
            let (copy, after) = copied(arena.exprs, expr, arena);
            &&& value_of(meaning, after.exprs, copy, row) == value_of(
                meaning,
                arena.exprs,
                expr,
                row,
            )
            &&& value_of(meaning, after.exprs, expr, row) == value_of(
                meaning,
                arena.exprs,
                expr,
                row,
            )
        }),
{
    let (copy, after) = copied(arena.exprs, expr, arena);
    copy_is_alike(arena, expr);
    alike_expressions_have_the_same_value(meaning, after.exprs, expr, copy, row);
    lemma_value_extend(meaning, arena.exprs, after.exprs, expr, row);
}

/// Every expression is written like itself.
pub proof fn expressions_are_like_themselves(exprs: Seq<ExprView>, expr: ExprRef)
    requires
        operands_first(exprs),
        expr.0 < exprs.len(),
    ensures
        alike(exprs, expr, expr),
    decreases expr.0,
{
    let node = exprs[expr.0 as int];
    assert forall|i: int|
        #![trigger node.children[i]]
        0 <= i < node.children.len() implies node.children[i].0 < expr.0 && alike(
        exprs,
        node.children[i],
        node.children[i],
    ) by {
        assert(exprs[expr.0 as int].children[i].0 < expr.0);
        expressions_are_like_themselves(exprs, node.children[i]);
    }
}

/// Of the expressions of a list, each is kept or is written like one that is kept.
pub proof fn every_expression_is_kept_once(exprs: Seq<ExprView>, list: Seq<ExprRef>, i: int)
    requires
        operands_first(exprs),
        0 <= i < list.len(),
        forall|k: int| 0 <= k < list.len() ==> (#[trigger] list[k]).0 < exprs.len(),
    ensures
        holds_alike(exprs, without_repeats(exprs, list), list[i]),
    decreases list.len(),
{
    let front = list.drop_last();
    let kept = without_repeats(exprs, list);
    let before = without_repeats(exprs, front);
    if i < front.len() {
        assert forall|k: int| 0 <= k < front.len() implies (#[trigger] front[k]).0
            < exprs.len() by {
            assert(front[k] == list[k]);
        }
        every_expression_is_kept_once(exprs, front, i);
        let k = choose|k: int| 0 <= k < before.len() && alike(exprs, #[trigger] before[k], front[i]);
        assert(kept[k] == before[k]);
        assert(alike(exprs, kept[k], list[i]));
    } else if !holds_alike(exprs, before, list.last()) {
        expressions_are_like_themselves(exprs, list[i]);
        assert(alike(exprs, kept[before.len() as int], list[i]));
    }
}

/// What is kept is part of the list.
pub proof fn kept_expressions_are_from_the_list(
    exprs: Seq<ExprView>,
    list: Seq<ExprRef>,
    k: int,
)
    requires
        0 <= k < without_repeats(exprs, list).len(),
    ensures
        list.contains(without_repeats(exprs, list)[k]),
    decreases list.len(),
{
    let front = list.drop_last();
    let before = without_repeats(exprs, front);
    if k < before.len() {
        kept_expressions_are_from_the_list(exprs, front, k);
        let i = choose|i: int| 0 <= i < front.len() && front[i] == before[k];
        assert(list[i] == before[k]);
    } else {
        assert(list[list.len() - 1] == list.last());
    }
}

} // verus!
