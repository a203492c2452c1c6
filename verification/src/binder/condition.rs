//! Conditions of joins: the columns that have to be equal, and what is left.

use crate::binder::column_view;
use crate::catalog::ColumnRef;
use crate::expression::analysis::{bare, lemma_bare_bounded};
use crate::expression::conjunction::{
    conjoin, conjoined, conjuncts, lemma_conjuncts_bounded, split_conjunctive_predicates,
};
use crate::expression::{BinaryOperator, ExprHead, ExprView, ScalarExpression};
use crate::optimizer::rule::normalization::strip_alias;
use crate::orm::scope::lemma_extended_trans;
use crate::planner::arena::{ArenaView, ExprRef, PlanArena};
use crate::planner::operator::valid_pairs;
use vstd::prelude::*;

verus! {

/// The row that a column of a joined row comes from.
#[derive(Clone, Copy, Debug, PartialEq, Eq, Structural)]
pub enum JoinSide {
    Left,
    /// The right row, with the column and its position there.
    Right(ColumnRef, usize),
}

/// The row that the column at a position of the joined row comes from, if the column is there.
pub open spec fn side_of(
    left: Seq<ColumnRef>,
    right: Seq<ColumnRef>,
    column: ColumnRef,
    position: int,
) -> Option<JoinSide> {
    if 0 <= position < left.len() && left[position] == column {
        Some(JoinSide::Left)
    } else if left.len() <= position < left.len() + right.len() && right[position - left.len()]
        == column {
        Some(JoinSide::Right(column, (position - left.len()) as usize))
    } else {
        None
    }
}

/// The row that an expression is a column of.
pub open spec fn expr_side(
    exprs: Seq<ExprView>,
    left: Seq<ColumnRef>,
    right: Seq<ColumnRef>,
    expr: ExprRef,
) -> Option<JoinSide> {
    match exprs[expr.0 as int].head {
        ExprHead::ColumnRef { column, position } => side_of(left, right, column, position as int),
        _ => None,
    }
}

/// The pair of columns, one of each row, that a predicate requires to be equal: the column of the
/// left row, and the column of the right row with its position there. Aliases are looked through.
pub open spec fn key_pair(
    exprs: Seq<ExprView>,
    left: Seq<ColumnRef>,
    right: Seq<ColumnRef>,
    expr: ExprRef,
) -> Option<(ExprRef, ColumnRef, usize)> {
    let node = exprs[expr.0 as int];
    if (node.head matches ExprHead::Binary { op, .. } && op == BinaryOperator::Eq)
        && node.children.len() == 2 {
        let first = bare(exprs, node.children[0]);
        let second = bare(exprs, node.children[1]);
        match (expr_side(exprs, left, right, first), expr_side(exprs, left, right, second)) {
            (Some(JoinSide::Left), Some(JoinSide::Right(column, position))) => Some(
                (first, column, position),
            ),
            (Some(JoinSide::Right(column, position)), Some(JoinSide::Left)) => Some(
                (second, column, position),
            ),
            _ => None,
        }
    } else {
        None
    }
}

/// The pairs of columns that the predicates require to be equal, the predicates that require
/// something else, and the arena with the columns of the right row.
pub open spec fn split_keys(
    arena: ArenaView,
    left: Seq<ColumnRef>,
    right: Seq<ColumnRef>,
    parts: Seq<ExprRef>,
) -> (Seq<(ExprRef, ExprRef)>, Seq<ExprRef>, ArenaView)
    decreases parts.len(),
{
    if parts.len() == 0 {
        (Seq::empty(), Seq::empty(), arena)
    } else {
        let (keys, rest, after) = split_keys(arena, left, right, parts.drop_last());
        match key_pair(arena.exprs, left, right, parts.last()) {
            Some((first, column, position)) => (
                keys.push((first, ExprRef(after.exprs.len() as usize))),
                rest,
                after.push_expr(column_view(column, position)),
            ),
            None => (keys, rest.push(parts.last()), after),
        }
    }
}

/// What a join condition is split into: pairs of columns, the rest of the condition if there is
/// any, and the arena with both.
pub open spec fn split_condition(
    arena: ArenaView,
    left: Seq<ColumnRef>,
    right: Seq<ColumnRef>,
    on: ExprRef,
) -> (Seq<(ExprRef, ExprRef)>, Option<ExprRef>, ArenaView) {
    let (keys, rest, middle) = split_keys(arena, left, right, conjuncts(arena.exprs, on));
    let (filter, after) = conjoined(middle, rest);
    (keys, filter, after)
}

/// Every part of a join condition is kept: as a key of the join, or in what is left.
pub proof fn join_condition_is_kept(
    arena: ArenaView,
    left: Seq<ColumnRef>,
    right: Seq<ColumnRef>,
    parts: Seq<ExprRef>,
    i: int,
)
    requires
        0 <= i < parts.len(),
        arena.exprs.len() + parts.len() <= usize::MAX,
    ensures
        ({
            let (keys, rest, after) = split_keys(arena, left, right, parts);
            match key_pair(arena.exprs, left, right, parts[i]) {
                Some((first, column, position)) => exists|k: int|
                    {
                        &&& 0 <= k < keys.len()
                        &&& (#[trigger] keys[k]).0 == first
                        &&& after.exprs[keys[k].1.0 as int] == column_view(column, position)
                    },
                None => rest.contains(parts[i]),
            }
        }),
    decreases parts.len(),
{
    let (keys, rest, after) = split_keys(arena, left, right, parts);
    let (front_keys, front_rest, before) = split_keys(arena, left, right, parts.drop_last());
    lemma_split_grows(arena, left, right, parts.drop_last());
    if i < parts.len() - 1 {
        join_condition_is_kept(arena, left, right, parts.drop_last(), i);
        assert(parts.drop_last()[i] == parts[i]);
        match key_pair(arena.exprs, left, right, parts[i]) {
            Some((first, column, position)) => {
                let k = choose|k: int|
                    {
                        &&& 0 <= k < front_keys.len()
                        &&& (#[trigger] front_keys[k]).0 == first
                        &&& before.exprs[front_keys[k].1.0 as int] == column_view(column, position)
                    };
                assert(keys[k] == front_keys[k]);
                assert(after.exprs[keys[k].1.0 as int] == before.exprs[keys[k].1.0 as int]);
            },
            None => {
                let k = choose|k: int| 0 <= k < front_rest.len() && front_rest[k] == parts[i];
                assert(rest[k] == parts[i]);
            },
        }
    } else {
        match key_pair(arena.exprs, left, right, parts[i]) {
            Some((first, column, position)) => {
                let k = front_keys.len() as int;
                assert(keys[k].0 == first);
                assert(after.exprs[keys[k].1.0 as int] == column_view(column, position));
            },
            None => {
                assert(rest[front_rest.len() as int] == parts[i]);
            },
        }
    }
}

proof fn lemma_split_grows(
    arena: ArenaView,
    left: Seq<ColumnRef>,
    right: Seq<ColumnRef>,
    parts: Seq<ExprRef>,
)
    requires
        arena.exprs.len() + parts.len() <= usize::MAX,
    ensures
        ({
            let (keys, rest, after) = split_keys(arena, left, right, parts);
            &&& after.exprs.len() <= arena.exprs.len() + parts.len()
            &&& forall|k: int| 0 <= k < keys.len() ==> (#[trigger] keys[k]).1.0 < after.exprs.len()
        }),
    decreases parts.len(),
{
    if parts.len() > 0 {
        lemma_split_grows(arena, left, right, parts.drop_last());
    }
}

proof fn lemma_bare_extended(before: Seq<ExprView>, after: Seq<ExprView>, expr: ExprRef)
    requires
        before.is_prefix_of(after),
        expr.0 < before.len(),
    ensures
        bare(after, expr) == bare(before, expr),
    decreases expr.0,
{
    let node = before[expr.0 as int];
    assert(after[expr.0 as int] == node);
    match node.head {
        ExprHead::AliasName(_) => if node.children.len() == 1 && node.children[0].0 < expr.0 {
            lemma_bare_extended(before, after, node.children[0]);
        },
        ExprHead::AliasExpr => if node.children.len() == 2 && node.children[1].0 < expr.0 {
            lemma_bare_extended(before, after, node.children[1]);
        },
        _ => {},
    }
}

proof fn lemma_key_pair_extended(
    before: ArenaView,
    after: ArenaView,
    left: Seq<ColumnRef>,
    right: Seq<ColumnRef>,
    expr: ExprRef,
)
    requires
        before.wf(),
        before.extended_by(after),
        before.has_expr(expr),
    ensures
        key_pair(after.exprs, left, right, expr) == key_pair(before.exprs, left, right, expr),
{
    let node = before.exprs[expr.0 as int];
    assert(after.exprs[expr.0 as int] == node);
    if node.children.len() == 2 {
        lemma_bare_extended(before.exprs, after.exprs, node.children[0]);
        lemma_bare_extended(before.exprs, after.exprs, node.children[1]);
        lemma_bare_bounded(before.exprs, node.children[0]);
        lemma_bare_bounded(before.exprs, node.children[1]);
    }
}

fn find_side(
    expr: ExprRef,
    left: &Vec<ColumnRef>,
    right: &Vec<ColumnRef>,
    arena: &PlanArena,
) -> (res: Option<JoinSide>)
    requires
        arena@.wf(),
        arena@.has_expr(expr),
    ensures
        res == expr_side(arena@.exprs, left@, right@, expr),
        res matches Some(JoinSide::Right(column, position)) ==> right@.contains(column),
{
    match arena.expression(expr) {
        ScalarExpression::ColumnRef { column, position } => {
            if *position < left.len() {
                if left[*position] == *column {
                    Some(JoinSide::Left)
                } else {
                    None
                }
            } else if *position - left.len() < right.len() && right[*position - left.len()]
                == *column {
                Some(JoinSide::Right(*column, *position - left.len()))
            } else {
                None
            }
        },
        _ => None,
    }
}

fn find_key_pair(
    expr: ExprRef,
    left: &Vec<ColumnRef>,
    right: &Vec<ColumnRef>,
    arena: &PlanArena,
) -> (res: Option<(ExprRef, ColumnRef, usize)>)
    requires
        arena@.wf(),
        arena@.has_expr(expr),
    ensures
        res == key_pair(arena@.exprs, left@, right@, expr),
        res matches Some((first, column, position)) ==> arena@.has_expr(first) && right@.contains(
            column,
        ),
{
    match arena.expression(expr) {
        ScalarExpression::Binary { op: BinaryOperator::Eq, left_expr, right_expr, .. } => {
            assert(arena@.exprs[expr.0 as int].children[0] == *left_expr);
            assert(arena@.exprs[expr.0 as int].children[1] == *right_expr);
            proof {
                lemma_bare_bounded(arena@.exprs, *left_expr);
                lemma_bare_bounded(arena@.exprs, *right_expr);
            }
            let first = strip_alias(*left_expr, arena);
            let second = strip_alias(*right_expr, arena);
            match (find_side(first, left, right, arena), find_side(second, left, right, arena)) {
                (Some(JoinSide::Left), Some(JoinSide::Right(column, position))) => Some(
                    (first, column, position),
                ),
                (Some(JoinSide::Right(column, position)), Some(JoinSide::Left)) => Some(
                    (second, column, position),
                ),
                _ => None,
            }
        },
        _ => None,
    }
}

/// Splits a join condition into pairs of columns that have to be equal, and the rest.
pub fn split_join_condition(
    on: ExprRef,
    left: &Vec<ColumnRef>,
    right: &Vec<ColumnRef>,
    arena: &mut PlanArena,
) -> (res: (Vec<(ExprRef, ExprRef)>, Option<ExprRef>))
    requires
        old(arena)@.wf(),
        old(arena)@.has_expr(on),
        old(arena)@.has_columns(right@),
    ensures
        (res.0@, res.1, final(arena)@) == split_condition(old(arena)@, left@, right@, on),
        final(arena)@.wf(),
        old(arena)@.extended_by(final(arena)@),
        valid_pairs(final(arena)@, res.0@),
        res.1 matches Some(filter) ==> final(arena)@.has_expr(filter),
{
    let ghost start = arena@;
    let mut parts: Vec<ExprRef> = Vec::new();
    split_conjunctive_predicates(on, arena, &mut parts);
    assert(parts@ =~= conjuncts(start.exprs, on));
    proof {
        lemma_conjuncts_bounded(start.exprs, on);
        assert(start.has_exprs(parts@));
    }
    let mut keys: Vec<(ExprRef, ExprRef)> = Vec::new();
    let mut rest: Vec<ExprRef> = Vec::new();
    let mut i: usize = 0;
    assert(parts@.take(0) =~= Seq::empty());
    while i < parts.len()
        invariant
            i <= parts.len(),
            start.has_exprs(parts@),
            start.has_columns(right@),
            start.wf(),
            arena@.wf(),
            start.extended_by(arena@),
            (keys@, rest@, arena@) == split_keys(start, left@, right@, parts@.take(i as int)),
            valid_pairs(arena@, keys@),
            arena@.has_exprs(rest@),
        decreases parts.len() - i,
    {
        proof {
            let next = parts@.take(i + 1);
            assert(next.drop_last() =~= parts@.take(i as int));
            assert(next.last() == parts@[i as int]);
            assert(start.has_expr(parts@[i as int]));
            lemma_key_pair_extended(start, arena@, left@, right@, parts@[i as int]);
        }
        let ghost before = arena@;
        match find_key_pair(parts[i], left, right, arena) {
            Some((first, column, position)) => {
                assert(before.has_column(column));
                let second = arena.alloc_expression(
                    ScalarExpression::ColumnRef { column, position },
                );
                assert(arena@ == before.push_expr(column_view(column, position)));
                keys.push((first, second));
            },
            None => {
                rest.push(parts[i]);
            },
        }
        i += 1;
    }
    assert(parts@.take(i as int) =~= parts@);
    let ghost middle = arena@;
    let filter = conjoin(&rest, arena);
    proof {
        lemma_extended_trans(start, middle, arena@);
    }
    (keys, filter)
}

} // verus!
