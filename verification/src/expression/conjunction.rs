//! Conjunctions: the predicates that they are made of, and how they are built.

use crate::expression::{and_view, BinaryOperator, ExprHead, ExprView, ScalarExpression};
use crate::planner::arena::{ArenaView, ExprRef, PlanArena};
use vstd::prelude::*;

verus! {

/// The predicates whose conjunction an expression is, from left to right.
pub open spec fn conjuncts(exprs: Seq<ExprView>, expr: ExprRef) -> Seq<ExprRef>
    decreases expr.0,
{
    if expr.0 < exprs.len() && is_and(exprs[expr.0 as int]) && exprs[expr.0 as int].children[0].0
        < expr.0 && exprs[expr.0 as int].children[1].0 < expr.0 {
        conjuncts(exprs, exprs[expr.0 as int].children[0]) + conjuncts(
            exprs,
            exprs[expr.0 as int].children[1],
        )
    } else {
        seq![expr]
    }
}

/// Whether a node is a conjunction.
pub open spec fn is_and(expr: ExprView) -> bool {
    (expr.head matches ExprHead::Binary { op, .. } && op == BinaryOperator::And)
        && expr.children.len() == 2
}

/// Appending expressions leaves the conjuncts of the earlier ones alone.
pub proof fn lemma_conjuncts_extend(before: Seq<ExprView>, after: Seq<ExprView>, expr: ExprRef)
    requires
        before.is_prefix_of(after),
        expr.0 < before.len(),
    ensures
        conjuncts(after, expr) == conjuncts(before, expr),
    decreases expr.0,
{
    assert(after[expr.0 as int] == before[expr.0 as int]);
    let node = before[expr.0 as int];
    if is_and(node) && node.children[0].0 < expr.0 && node.children[1].0 < expr.0 {
        lemma_conjuncts_extend(before, after, node.children[0]);
        lemma_conjuncts_extend(before, after, node.children[1]);
    }
}

/// The conjuncts of an expression stand no later than the expression itself.
pub proof fn lemma_conjuncts_bounded(exprs: Seq<ExprView>, expr: ExprRef)
    ensures
        conjuncts(exprs, expr).len() > 0,
        forall|i: int|
            0 <= i < conjuncts(exprs, expr).len() ==> (#[trigger] conjuncts(exprs, expr)[i]).0
                <= expr.0,
    decreases expr.0,
{
    if expr.0 < exprs.len() && is_and(exprs[expr.0 as int]) && exprs[expr.0 as int].children[0].0
        < expr.0 && exprs[expr.0 as int].children[1].0 < expr.0 {
        lemma_conjuncts_bounded(exprs, exprs[expr.0 as int].children[0]);
        lemma_conjuncts_bounded(exprs, exprs[expr.0 as int].children[1]);
    }
}

/// A conjunct is not itself a conjunction.
pub proof fn lemma_conjuncts_atomic(exprs: Seq<ExprView>, expr: ExprRef)
    ensures
        forall|i: int|
            0 <= i < conjuncts(exprs, expr).len() ==> conjuncts(
                exprs,
                #[trigger] conjuncts(exprs, expr)[i],
            ) == seq![conjuncts(exprs, expr)[i]],
    decreases expr.0,
{
    if expr.0 < exprs.len() && is_and(exprs[expr.0 as int]) && exprs[expr.0 as int].children[0].0
        < expr.0 && exprs[expr.0 as int].children[1].0 < expr.0 {
        lemma_conjuncts_atomic(exprs, exprs[expr.0 as int].children[0]);
        lemma_conjuncts_atomic(exprs, exprs[expr.0 as int].children[1]);
        let left = conjuncts(exprs, exprs[expr.0 as int].children[0]);
        assert forall|i: int| 0 <= i < conjuncts(exprs, expr).len() implies conjuncts(
            exprs,
            #[trigger] conjuncts(exprs, expr)[i],
        ) == seq![conjuncts(exprs, expr)[i]] by {
            if i < left.len() {
                assert(conjuncts(exprs, expr)[i] == left[i]);
            } else {
                assert(conjuncts(exprs, expr)[i] == conjuncts(
                    exprs,
                    exprs[expr.0 as int].children[1],
                )[i - left.len()]);
            }
        }
    }
}

/// The conjuncts of an optional predicate.
pub open spec fn parts_of(exprs: Seq<ExprView>, expr: Option<ExprRef>) -> Seq<ExprRef> {
    match expr {
        None => Seq::empty(),
        Some(expr) => conjuncts(exprs, expr),
    }
}

/// Whether an optional predicate is the conjunction of the given ones.
pub open spec fn conjunction_of(
    exprs: Seq<ExprView>,
    expr: Option<ExprRef>,
    parts: Seq<ExprRef>,
) -> bool {
    &&& parts_of(exprs, expr) == parts
    &&& expr matches Some(expr) ==> expr.0 < exprs.len()
}

/// Appending expressions does not change what a predicate is the conjunction of.
pub proof fn lemma_conjunction_extend(
    before: Seq<ExprView>,
    after: Seq<ExprView>,
    expr: Option<ExprRef>,
    parts: Seq<ExprRef>,
)
    requires
        before.is_prefix_of(after),
        conjunction_of(before, expr, parts),
    ensures
        conjunction_of(after, expr, parts),
{
    if expr is Some {
        lemma_conjuncts_extend(before, after, expr->0);
    }
}

/// Collects the predicates whose conjunction an expression is.
pub fn split_conjunctive_predicates(expr: ExprRef, arena: &PlanArena, out: &mut Vec<ExprRef>)
    requires
        arena@.wf(),
        arena@.has_expr(expr),
    ensures
        final(out)@ == old(out)@ + conjuncts(arena@.exprs, expr),
    decreases expr.0,
{
    let ghost start = out@;
    match arena.expression(expr) {
        ScalarExpression::Binary { op: BinaryOperator::And, left_expr, right_expr, .. } => {
            assert(arena@.exprs[expr.0 as int].children[0] == *left_expr);
            assert(arena@.exprs[expr.0 as int].children[1] == *right_expr);
            split_conjunctive_predicates(*left_expr, arena, out);
            split_conjunctive_predicates(*right_expr, arena, out);
            assert(out@ =~= start + conjuncts(arena@.exprs, expr));
        },
        _ => {
            out.push(expr);
            assert(out@ =~= start + conjuncts(arena@.exprs, expr));
        },
    }
}

/// The conjuncts of the predicates in order.
pub open spec fn parts_of_all(exprs: Seq<ExprView>, list: Seq<ExprRef>) -> Seq<ExprRef>
    decreases list.len(),
{
    if list.len() == 0 {
        Seq::empty()
    } else {
        parts_of_all(exprs, list.drop_last()) + conjuncts(exprs, list.last())
    }
}

/// The conjunction of the predicates and the arena with it. Each predicate after the first one adds
/// one node; without predicates there is no conjunction.
pub open spec fn conjoined(arena: ArenaView, filters: Seq<ExprRef>) -> (Option<ExprRef>, ArenaView)
    decreases filters.len(),
{
    if filters.len() == 0 {
        (None, arena)
    } else {
        let (front, before) = conjoined(arena, filters.drop_last());
        match front {
            None => (Some(filters.last()), before),
            Some(front) => (
                Some(ExprRef(before.exprs.len() as usize)),
                before.push_expr(and_view(front, filters.last())),
            ),
        }
    }
}

/// Joins predicates into one; without predicates there is none.
pub fn conjoin(filters: &Vec<ExprRef>, arena: &mut PlanArena) -> (res: Option<ExprRef>)
    requires
        old(arena)@.wf(),
        old(arena)@.has_exprs(filters@),
    ensures
        final(arena)@.wf(),
        old(arena)@.exprs.is_prefix_of(final(arena)@.exprs),
        final(arena)@.columns == old(arena)@.columns,
        final(arena)@.indexes == old(arena)@.indexes,
        (res, final(arena)@) == conjoined(old(arena)@, filters@),
        res is Some <==> filters@.len() > 0,
        filters@.len() <= 1 ==> final(arena)@ == old(arena)@,
        filters@.len() == 1 ==> res == Some(filters@[0]),
        conjunction_of(final(arena)@.exprs, res, parts_of_all(old(arena)@.exprs, filters@)),
{
    if filters.len() == 0 {
        assert(conjoined(arena@, filters@) == (None::<ExprRef>, arena@));
        return None;
    }
    let ghost before = arena@.exprs;
    let mut predicate: ExprRef = filters[0];
    let mut i: usize = 1;
    proof {
        assert(arena@.has_expr(filters@[0]));
        assert(filters@.take(1).drop_last() =~= Seq::empty());
        assert(filters@.take(1).last() == filters@[0]);
        assert(parts_of_all(before, Seq::empty()) =~= Seq::empty());
        assert(parts_of_all(before, filters@.take(1)) =~= conjuncts(before, predicate));
        assert(conjoined(arena@, Seq::empty()) == (None::<ExprRef>, arena@));
        assert(conjoined(arena@, filters@.take(1)) == (Some(predicate), arena@));
    }
    while i < filters.len()
        invariant
            1 <= i <= filters.len(),
            arena@.wf(),
            before == old(arena)@.exprs,
            old(arena)@.has_exprs(filters@),
            before.is_prefix_of(arena@.exprs),
            arena@.columns == old(arena)@.columns,
            arena@.indexes == old(arena)@.indexes,
            arena@.has_expr(predicate),
            i == 1 ==> arena@ == old(arena)@ && predicate == filters@[0],
            conjuncts(arena@.exprs, predicate) == parts_of_all(before, filters@.take(i as int)),
            (Some(predicate), arena@) == conjoined(old(arena)@, filters@.take(i as int)),
        decreases filters.len() - i,
    {
        let ghost middle = arena@.exprs;
        assert(old(arena)@.has_expr(filters@[i as int]));
        let next = arena.alloc_expression(ScalarExpression::and(predicate, filters[i]));
        proof {
            lemma_conjuncts_extend(middle, arena@.exprs, predicate);
            lemma_conjuncts_extend(before, arena@.exprs, filters@[i as int]);
            assert(is_and(arena@.exprs[next.0 as int]));
            let list = filters@.take(i + 1);
            assert(list.drop_last() =~= filters@.take(i as int));
            assert(list.last() == filters@[i as int]);
        }
        predicate = next;
        i += 1;
    }
    assert(filters@.take(i as int) =~= filters@);
    Some(predicate)
}

} // verus!
