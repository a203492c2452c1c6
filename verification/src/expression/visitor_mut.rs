//! Changes of the column positions inside expressions.

use crate::expression::analysis::{columns_of, columns_of_all};
use crate::expression::conjunction::{conjuncts, is_and};
use crate::expression::{ExprHead, ExprView, ScalarExpression};
use crate::planner::arena::{ArenaView, ExprRef, PlanArena};
use vstd::prelude::*;

verus! {

/// Moves every column reference by a fixed distance.
pub struct PositionShift {
    pub delta: i128,
}

/// A position moved by a distance.
pub open spec fn moved(position: usize, delta: int) -> usize {
    (position + delta) as usize
}

/// A column reference moved by a distance; other nodes stay.
pub open spec fn moved_node(node: ExprView, delta: int) -> ExprView {
    match node.head {
        ExprHead::ColumnRef { column, position } => ExprView {
            head: ExprHead::ColumnRef { column, position: moved(position, delta) },
            children: Seq::empty(),
        },
        _ => node,
    }
}

/// The expressions after every column reference inside one of them was moved.
pub open spec fn shift_expr(exprs: Seq<ExprView>, expr: ExprRef, delta: int) -> Seq<ExprView>
    decreases expr.0, 1nat, 0nat,
{
    if expr.0 >= exprs.len() {
        exprs
    } else if exprs[expr.0 as int].head is ColumnRef {
        exprs.update(expr.0 as int, moved_node(exprs[expr.0 as int], delta))
    } else {
        shift_all(exprs, exprs[expr.0 as int].children, expr.0 as nat, delta)
    }
}

/// The expressions after every column reference inside the listed ones was moved, one after the
/// other.
pub open spec fn shift_all(
    exprs: Seq<ExprView>,
    list: Seq<ExprRef>,
    bound: nat,
    delta: int,
) -> Seq<ExprView>
    decreases bound, 0nat, list.len(),
{
    if list.len() == 0 {
        exprs
    } else if list.last().0 < bound {
        shift_expr(shift_all(exprs, list.drop_last(), bound, delta), list.last(), delta)
    } else {
        shift_all(exprs, list.drop_last(), bound, delta)
    }
}

/// Whether two lists of expressions differ in column positions at most.
pub open spec fn same_structure(left: Seq<ExprView>, right: Seq<ExprView>) -> bool {
    &&& left.len() == right.len()
    &&& forall|i: int|
        #![trigger left[i]]
        #![trigger right[i]]
        0 <= i < left.len() ==> same_node(left[i], right[i])
}

/// Whether two nodes differ in the column position at most.
pub open spec fn same_node(left: ExprView, right: ExprView) -> bool {
    &&& left.children == right.children
    &&& match (left.head, right.head) {
        (
            ExprHead::ColumnRef { column: l, .. },
            ExprHead::ColumnRef { column: r, .. },
        ) => l == r,
        _ => left.head == right.head,
    }
}

/// Whether column references have no operands.
pub open spec fn columns_are_leaves(exprs: Seq<ExprView>) -> bool {
    forall|i: int|
        0 <= i < exprs.len() && #[trigger] exprs[i].head is ColumnRef
            ==> exprs[i].children.len() == 0
}

/// Moving column references changes column positions at most.
pub proof fn lemma_shift_structure(exprs: Seq<ExprView>, expr: ExprRef, delta: int)
    requires
        columns_are_leaves(exprs),
    ensures
        same_structure(exprs, shift_expr(exprs, expr, delta)),
    decreases expr.0, 1nat, 0nat,
{
    if expr.0 < exprs.len() && !(exprs[expr.0 as int].head is ColumnRef) {
        lemma_shift_structure_all(exprs, exprs[expr.0 as int].children, expr.0 as nat, delta);
    } else if expr.0 < exprs.len() {
        assert(exprs[expr.0 as int].children =~= Seq::empty());
    }
}

pub proof fn lemma_shift_structure_all(
    exprs: Seq<ExprView>,
    list: Seq<ExprRef>,
    bound: nat,
    delta: int,
)
    requires
        columns_are_leaves(exprs),
    ensures
        same_structure(exprs, shift_all(exprs, list, bound, delta)),
    decreases bound, 0nat, list.len(),
{
    if list.len() > 0 {
        lemma_shift_structure_all(exprs, list.drop_last(), bound, delta);
        let middle = shift_all(exprs, list.drop_last(), bound, delta);
        if list.last().0 < bound {
            assert forall|i: int|
                0 <= i < middle.len() && #[trigger] middle[i].head is ColumnRef implies
                middle[i].children.len() == 0 by {
                assert(same_node(exprs[i], middle[i]));
            }
            lemma_shift_structure(middle, list.last(), delta);
            let last = shift_expr(middle, list.last(), delta);
            assert forall|i: int| 0 <= i < exprs.len() implies same_node(
                #[trigger] exprs[i],
                last[i],
            ) by {
                assert(same_node(exprs[i], middle[i]));
                assert(same_node(middle[i], last[i]));
            }
            assert forall|i: int| 0 <= i < exprs.len() implies same_node(
                exprs[i],
                #[trigger] last[i],
            ) by {
                assert(same_node(exprs[i], middle[i]));
            }
        }
    }
}

/// Column positions do not matter for the conjuncts of an expression.
pub proof fn lemma_structure_conjuncts(left: Seq<ExprView>, right: Seq<ExprView>, expr: ExprRef)
    requires
        same_structure(left, right),
    ensures
        conjuncts(left, expr) == conjuncts(right, expr),
    decreases expr.0,
{
    if expr.0 < left.len() {
        assert(same_node(left[expr.0 as int], right[expr.0 as int]));
        let node = left[expr.0 as int];
        if is_and(node) && node.children[0].0 < expr.0 && node.children[1].0 < expr.0 {
            lemma_structure_conjuncts(left, right, node.children[0]);
            lemma_structure_conjuncts(left, right, node.children[1]);
        }
    }
}

/// Column positions do not matter for the columns of an expression.
pub proof fn lemma_structure_columns(left: Seq<ExprView>, right: Seq<ExprView>, expr: ExprRef)
    requires
        same_structure(left, right),
    ensures
        columns_of(left, expr) == columns_of(right, expr),
    decreases expr.0, 1nat, 0nat,
{
    if expr.0 < left.len() {
        assert(same_node(left[expr.0 as int], right[expr.0 as int]));
        lemma_structure_columns_all(left, right, left[expr.0 as int].children, expr.0 as nat);
    }
}

proof fn lemma_structure_columns_all(
    left: Seq<ExprView>,
    right: Seq<ExprView>,
    list: Seq<ExprRef>,
    bound: nat,
)
    requires
        same_structure(left, right),
    ensures
        columns_of_all(left, list, bound) == columns_of_all(right, list, bound),
    decreases bound, 0nat, list.len(),
{
    if list.len() > 0 {
        lemma_structure_columns_all(left, right, list.drop_last(), bound);
        if list.last().0 < bound {
            lemma_structure_columns(left, right, list.last());
        }
    }
}

impl PositionShift {
    /// Moves every column reference inside the expression.
    pub fn visit(&self, expr: ExprRef, arena: &mut PlanArena)
        requires
            old(arena)@.wf(),
            old(arena)@.has_expr(expr),
            -0x1_0000_0000_0000_0000 <= self.delta <= 0x1_0000_0000_0000_0000,
        ensures
            final(arena)@ == (ArenaView {
                exprs: shift_expr(old(arena)@.exprs, expr, self.delta as int),
                ..old(arena)@
            }),
            final(arena)@.wf(),
            final(arena)@.exprs.len() == old(arena)@.exprs.len(),
        decreases expr.0,
    {
        let ghost before = arena@;
        let node = arena.expression(expr);
        if let ScalarExpression::ColumnRef { position, .. } = node {
            let target: usize = #[verifier::truncate] ((*position as i128 + self.delta) as usize);
            arena.set_position(expr, target);
            assert(arena@.exprs =~= shift_expr(before.exprs, expr, self.delta as int));
            return;
        }
        let children = node.children();
        let mut i: usize = 0;
        assert(children@.take(0) =~= Seq::empty());
        while i < children.len()
            invariant
                i <= children.len(),
                arena@.wf(),
                before.wf(),
                before.has_expr(expr),
                before == old(arena)@,
                -0x1_0000_0000_0000_0000 <= self.delta <= 0x1_0000_0000_0000_0000,
                children@ == before.exprs[expr.0 as int].children,
                arena@ == (ArenaView {
                    exprs: shift_all(
                        before.exprs,
                        children@.take(i as int),
                        expr.0 as nat,
                        self.delta as int,
                    ),
                    ..before
                }),
                arena@.exprs.len() == before.exprs.len(),
            decreases children.len() - i,
        {
            assert(before.exprs[expr.0 as int].children[i as int].0 < expr.0);
            self.visit(children[i], arena);
            proof {
                let next = children@.take(i + 1);
                assert(next.drop_last() =~= children@.take(i as int));
                assert(next.last() == children@[i as int]);
            }
            i += 1;
        }
        assert(children@.take(i as int) =~= children@);
    }
}

} // verus!
