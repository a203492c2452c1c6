//! Expressions that are written alike.

use crate::expression::{ExprHead, ExprView, ScalarExpression};
use crate::planner::arena::{ExprRef, PlanArena};
use vstd::prelude::*;

verus! {

/// Whether two expressions are written alike: the same nodes with the same operands.
pub open spec fn alike(exprs: Seq<ExprView>, left: ExprRef, right: ExprRef) -> bool
    decreases left.0,
{
    &&& left.0 < exprs.len()
    &&& right.0 < exprs.len()
    &&& {
        let l = exprs[left.0 as int];
        let r = exprs[right.0 as int];
        &&& l.head == r.head
        &&& l.children.len() == r.children.len()
        &&& forall|i: int|
            #![trigger l.children[i]]
            0 <= i < l.children.len() ==> l.children[i].0 < left.0 && alike(
                exprs,
                l.children[i],
                r.children[i],
            )
    }
}

/// Whether the list holds an expression that is written like this one.
pub open spec fn holds_alike(exprs: Seq<ExprView>, list: Seq<ExprRef>, expr: ExprRef) -> bool {
    exists|i: int| 0 <= i < list.len() && alike(exprs, #[trigger] list[i], expr)
}

/// The expressions of the list without those that are written like an earlier one.
pub open spec fn without_repeats(exprs: Seq<ExprView>, list: Seq<ExprRef>) -> Seq<ExprRef>
    decreases list.len(),
{
    if list.len() == 0 {
        Seq::empty()
    } else {
        let front = without_repeats(exprs, list.drop_last());
        if holds_alike(exprs, front, list.last()) {
            front
        } else {
            front.push(list.last())
        }
    }
}

/// No two of the expressions that are kept are written alike.
pub proof fn kept_expressions_differ(exprs: Seq<ExprView>, list: Seq<ExprRef>, i: int, j: int)
    requires
        0 <= i < j < without_repeats(exprs, list).len(),
    ensures
        !alike(exprs, without_repeats(exprs, list)[i], without_repeats(exprs, list)[j]),
    decreases list.len(),
{
    let front = without_repeats(exprs, list.drop_last());
    if j < front.len() {
        kept_expressions_differ(exprs, list.drop_last(), i, j);
    } else {
        assert(without_repeats(exprs, list)[i] == front[i]);
    }
}

fn same_node(left: &ScalarExpression, right: &ScalarExpression, arena: &PlanArena) -> (same: bool)
    requires
        left@.head matches ExprHead::ColumnRef { column, .. } ==> arena@.has_column(column),
        right@.head matches ExprHead::ColumnRef { column, .. } ==> arena@.has_column(column),
    ensures
        same == (left@.head == right@.head),
{
    match (left, right) {
        (
            ScalarExpression::ColumnRef { column: l, position: p },
            ScalarExpression::ColumnRef { column: r, position: q },
        ) => *l == *r && *p == *q,
        _ => left.same_head(right, arena),
    }
}

impl ExprRef {
    /// Whether two expressions are written alike.
    pub fn alike(self, other: ExprRef, arena: &PlanArena) -> (same: bool)
        requires
            arena@.wf(),
            arena@.has_expr(self),
            arena@.has_expr(other),
        ensures
            same == alike(arena@.exprs, self, other),
        decreases self.0,
    {
        let left = arena.expression(self);
        let right = arena.expression(other);
        assert(arena@.exprs[self.0 as int].head matches ExprHead::ColumnRef { column, .. }
            ==> arena@.has_column(column));
        assert(arena@.exprs[other.0 as int].head matches ExprHead::ColumnRef { column, .. }
            ==> arena@.has_column(column));
        if !same_node(left, right, arena) {
            return false;
        }
        let l = left.children();
        let r = right.children();
        if l.len() != r.len() {
            return false;
        }
        let mut i: usize = 0;
        while i < l.len()
            invariant
                i <= l.len(),
                l.len() == r.len(),
                arena@.wf(),
                arena@.has_expr(self),
                arena@.has_expr(other),
                l@ == arena@.exprs[self.0 as int].children,
                r@ == arena@.exprs[other.0 as int].children,
                forall|j: int|
                    #![trigger l@[j]]
                    0 <= j < i ==> alike(arena@.exprs, l@[j], r@[j]),
            decreases l.len() - i,
        {
            assert(arena@.exprs[self.0 as int].children[i as int].0 < self.0);
            assert(arena@.exprs[other.0 as int].children[i as int].0 < other.0);
            if !l[i].alike(r[i], arena) {
                proof {
                    let node = arena@.exprs[self.0 as int];
                    assert(node.children[i as int] == l@[i as int]);
                }
                return false;
            }
            i += 1;
        }
        proof {
            let node = arena@.exprs[self.0 as int];
            assert forall|j: int|
                #![trigger node.children[j]]
                0 <= j < node.children.len() implies node.children[j].0 < self.0 && alike(
                arena@.exprs,
                node.children[j],
                arena@.exprs[other.0 as int].children[j],
            ) by {
                assert(l@[j] == node.children[j]);
                assert(arena@.exprs[self.0 as int].children[j].0 < self.0);
            }
        }
        true
    }
}

/// Keeps the first of the expressions that are written alike.
pub fn drop_repeats(list: &Vec<ExprRef>, arena: &PlanArena) -> (res: Vec<ExprRef>)
    requires
        arena@.wf(),
        arena@.has_exprs(list@),
    ensures
        res@ == without_repeats(arena@.exprs, list@),
        arena@.has_exprs(res@),
        res@.len() == 0 <==> list@.len() == 0,
{
    let mut out: Vec<ExprRef> = Vec::new();
    let mut i: usize = 0;
    assert(list@.take(0) =~= Seq::empty());
    while i < list.len()
        invariant
            i <= list.len(),
            arena@.wf(),
            arena@.has_exprs(list@),
            arena@.has_exprs(out@),
            out@ == without_repeats(arena@.exprs, list@.take(i as int)),
            out@.len() == 0 <==> i == 0,
        decreases list.len() - i,
    {
        proof {
            let next = list@.take(i + 1);
            assert(next.drop_last() =~= list@.take(i as int));
            assert(next.last() == list@[i as int]);
            assert(arena@.has_expr(list@[i as int]));
        }
        let mut known = false;
        let mut j: usize = 0;
        while j < out.len() && !known
            invariant
                i < list.len(),
                j <= out.len(),
                arena@.wf(),
                arena@.has_exprs(out@),
                arena@.has_expr(list@[i as int]),
                known ==> holds_alike(arena@.exprs, out@, list@[i as int]),
                !known ==> forall|k: int|
                    0 <= k < j ==> !alike(arena@.exprs, #[trigger] out@[k], list@[i as int]),
            decreases out.len() - j,
        {
            assert(arena@.has_expr(out@[j as int]));
            if out[j].alike(list[i], arena) {
                assert(alike(arena@.exprs, out@[j as int], list@[i as int]));
                known = true;
            }
            j += 1;
        }
        if !known {
            out.push(list[i]);
        }
        i += 1;
    }
    assert(list@.take(i as int) =~= list@);
    out
}

} // verus!
