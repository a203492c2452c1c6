//! Column positions after some columns of a row were removed.

use crate::errors::DatabaseError;
use crate::expression::{AliasType, ExprHead, ExprView, ScalarExpression};
use crate::planner::arena::{ArenaView, ExprRef, PlanArena};
use std::collections::HashSet;
use vstd::prelude::*;

verus! {

broadcast use vstd::std_specs::hash::group_hash_axioms;

/// Whether positions are listed from the smallest to the largest, each once.
pub open spec fn ascending(positions: Seq<usize>) -> bool {
    forall|i: int, j: int| 0 <= i < j < positions.len() ==> positions[i] < positions[j]
}

/// The number of removed positions before a position.
pub open spec fn removed_before(position: int, removed: Seq<usize>) -> nat
    decreases removed.len(),
{
    if removed.len() == 0 {
        0
    } else {
        removed_before(position, removed.drop_last()) + if removed.last() < position {
            1nat
        } else {
            0nat
        }
    }
}

/// A position once the columns at the removed positions are gone. A removed position stays.
pub open spec fn remapped(position: usize, removed: Seq<usize>) -> usize {
    if removed.contains(position) {
        position
    } else {
        (position - removed_before(position as int, removed)) as usize
    }
}

/// A row without the values at the removed positions.
pub open spec fn without_positions<T>(row: Seq<T>, removed: Seq<usize>) -> Seq<T>
    decreases row.len(),
{
    if row.len() == 0 {
        Seq::empty()
    } else {
        let front = without_positions(row.drop_last(), removed);
        if removed.contains((row.len() - 1) as usize) {
            front
        } else {
            front.push(row.last())
        }
    }
}

/// As many removed positions stand before a position as indexes of the list do.
proof fn lemma_removed_before(position: int, removed: Seq<usize>, split: int)
    requires
        ascending(removed),
        0 <= split <= removed.len(),
        forall|i: int| 0 <= i < split ==> removed[i] < position,
        forall|i: int| split <= i < removed.len() ==> removed[i] >= position,
    ensures
        removed_before(position, removed) == split,
    decreases removed.len(),
{
    if removed.len() > 0 {
        let front = removed.drop_last();
        if split == removed.len() {
            lemma_removed_before(position, front, split - 1);
        } else {
            lemma_removed_before(position, front, split);
        }
    }
}

proof fn lemma_removed_before_bound(position: int, removed: Seq<usize>)
    requires
        ascending(removed),
        position >= 0,
    ensures
        removed_before(position, removed) <= position,
        removed.len() > 0 && removed.last() < position ==> removed.len() <= position,
        removed.len() > 0 ==> removed.len() <= removed.last() + 1,
    decreases removed.len(),
{
    if removed.len() > 0 {
        let front = removed.drop_last();
        if front.len() > 0 {
            assert(front.last() == removed[removed.len() - 2]);
            assert(front.last() < removed.last());
        }
        lemma_removed_before_bound(position, front);
        if removed.last() < position {
            lemma_removed_before(position, removed, removed.len() as int);
        }
    }
}

/// One more position comes before the next one if it is removed.
proof fn lemma_removed_before_step(position: int, removed: Seq<usize>)
    requires
        ascending(removed),
        0 <= position <= usize::MAX,
    ensures
        removed_before(position + 1, removed)
            == removed_before(position, removed) + if removed.contains(
            position as usize,
        ) {
            1nat
        } else {
            0nat
        },
    decreases removed.len(),
{
    if removed.len() > 0 {
        let front = removed.drop_last();
        lemma_removed_before_step(position, front);
        if removed.last() == position {
            assert(removed[removed.len() - 1] == position as usize);
            assert(!front.contains(position as usize)) by {
                if front.contains(position as usize) {
                    let i = choose|i: int| 0 <= i < front.len() && front[i] == position as usize;
                    assert(removed[i] < removed[removed.len() - 1]);
                }
            }
            assert(removed.contains(position as usize));
        } else {
            assert(removed.contains(position as usize) == front.contains(position as usize)) by {
                if removed.contains(position as usize) {
                    let i = choose|i: int|
                        0 <= i < removed.len() && removed[i] == position as usize;
                    assert(front[i] == position as usize);
                }
                if front.contains(position as usize) {
                    let i = choose|i: int| 0 <= i < front.len() && front[i] == position as usize;
                    assert(removed[i] == position as usize);
                }
            }
        }
    }
}

/// A row without the removed values is as long as there are kept positions.
proof fn lemma_without_len<T>(row: Seq<T>, removed: Seq<usize>)
    requires
        ascending(removed),
        row.len() <= usize::MAX,
    ensures
        without_positions(row, removed).len() == row.len() - removed_before(
            row.len() as int,
            removed,
        ),
    decreases row.len(),
{
    if row.len() == 0 {
        lemma_removed_before(0, removed, 0);
    } else {
        lemma_without_len(row.drop_last(), removed);
        lemma_removed_before_step(row.len() - 1, removed);
    }
}

/// A kept value is found at its new position.
pub proof fn remapped_position_finds_value<T>(row: Seq<T>, removed: Seq<usize>, position: usize)
    requires
        ascending(removed),
        row.len() <= usize::MAX,
        position < row.len(),
        !removed.contains(position),
    ensures
        remapped(position, removed) < without_positions(row, removed).len(),
        without_positions(row, removed)[remapped(position, removed) as int] == row[position as int],
    decreases row.len(),
{
    lemma_removed_before_bound(position as int, removed);
    let front = row.drop_last();
    if position == row.len() - 1 {
        lemma_without_len(front, removed);
    } else {
        remapped_position_finds_value(front, removed, position);
    }
}

/// Moves a position that was not removed to where its column is once the removed columns are gone.
pub fn remap_position(position: &mut usize, removed_positions: &[usize])
    requires
        ascending(removed_positions@),
    ensures
        *final(position) == remapped(*old(position), removed_positions@),
{
    let ghost removed = removed_positions@;
    let target: usize = *position;
    let mut low: usize = 0;
    let mut high: usize = removed_positions.len();
    while low < high
        invariant
            low <= high <= removed_positions.len(),
            removed == removed_positions@,
            ascending(removed),
            forall|i: int| 0 <= i < low ==> removed[i] < target,
            forall|i: int| high <= i < removed.len() ==> removed[i] > target,
            *position == target,
            target == *old(position),
        decreases high - low,
    {
        let mid: usize = low + (high - low) / 2;
        let found: usize = removed_positions[mid];
        if found == target {
            assert(removed.contains(target)) by {
                assert(removed[mid as int] == target);
            }
            return;
        }
        if found < target {
            low = mid + 1;
        } else {
            high = mid;
        }
    }
    proof {
        assert(!removed.contains(target));
        lemma_removed_before(target as int, removed, low as int);
        lemma_removed_before_bound(target as int, removed);
    }
    *position = target - low;
}

/// The operands that a walk over an expression goes to; behind an alias for another expression
/// only that one.
pub open spec fn walked(node: ExprView) -> Seq<ExprRef> {
    if node.head is AliasExpr && node.children.len() == 2 {
        seq![node.children[1]]
    } else {
        node.children
    }
}

/// The numbers of the expressions that a walk from one of them comes by.
pub open spec fn reach(exprs: Seq<ExprView>, expr: ExprRef) -> Set<usize>
    decreases expr.0, 1nat, 0nat,
{
    if expr.0 < exprs.len() {
        reach_all(exprs, walked(exprs[expr.0 as int]), expr.0 as nat).insert(expr.0)
    } else {
        Set::empty().insert(expr.0)
    }
}

/// The numbers of the expressions that walks from the listed ones come by.
pub open spec fn reach_all(exprs: Seq<ExprView>, list: Seq<ExprRef>, bound: nat) -> Set<usize>
    decreases bound, 0nat, list.len(),
{
    if list.len() == 0 {
        Set::empty()
    } else if list.last().0 < bound {
        reach_all(exprs, list.drop_last(), bound).union(reach(exprs, list.last()))
    } else {
        reach_all(exprs, list.drop_last(), bound)
    }
}

/// The expressions with the positions of some column references remapped.
pub open spec fn remap_exprs(
    exprs: Seq<ExprView>,
    chosen: Set<usize>,
    removed: Seq<usize>,
) -> Seq<ExprView> {
    Seq::new(
        exprs.len(),
        |i: int|
            if i <= usize::MAX && chosen.contains(i as usize) {
                remap_node(exprs[i], removed)
            } else {
                exprs[i]
            },
    )
}

/// A column reference with its position remapped; other nodes stay.
pub open spec fn remap_node(node: ExprView, removed: Seq<usize>) -> ExprView {
    match node.head {
        ExprHead::ColumnRef { column, position } => ExprView {
            head: ExprHead::ColumnRef { column, position: remapped(position, removed) },
            children: Seq::empty(),
        },
        _ => node,
    }
}

/// A walk only comes by expressions that stand no later than its start.
proof fn lemma_reach_bounded(exprs: Seq<ExprView>, expr: ExprRef)
    ensures
        forall|i: usize| reach(exprs, expr).contains(i) ==> i <= expr.0,
        reach(exprs, expr).contains(expr.0),
    decreases expr.0, 1nat, 0nat,
{
    if expr.0 < exprs.len() {
        let list = walked(exprs[expr.0 as int]);
        lemma_reach_all_bounded(exprs, list, expr.0 as nat);
        assert forall|i: usize| reach(exprs, expr).contains(i) implies i <= expr.0 by {
            if i != expr.0 {
                assert(reach_all(exprs, list, expr.0 as nat).contains(i));
            }
        }
    }
}

proof fn lemma_reach_all_bounded(exprs: Seq<ExprView>, list: Seq<ExprRef>, bound: nat)
    ensures
        forall|i: usize| reach_all(exprs, list, bound).contains(i) ==> i < bound,
    decreases bound, 0nat, list.len(),
{
    if list.len() > 0 {
        lemma_reach_all_bounded(exprs, list.drop_last(), bound);
        if list.last().0 < bound {
            lemma_reach_bounded(exprs, list.last());
        }
        assert forall|i: usize| reach_all(exprs, list, bound).contains(i) implies i < bound by {
            if !reach_all(exprs, list.drop_last(), bound).contains(i) {
                assert(reach(exprs, list.last()).contains(i));
            }
        }
    }
}

/// A walk from an expression that a walk comes by stays within that walk.
proof fn lemma_reach_transitive(exprs: Seq<ExprView>, expr: ExprRef, middle: usize)
    requires
        reach(exprs, expr).contains(middle),
    ensures
        reach(exprs, ExprRef(middle)).subset_of(reach(exprs, expr)),
    decreases expr.0, 1nat, 0nat,
{
    if middle != expr.0 && expr.0 < exprs.len() {
        lemma_reach_all_transitive(
            exprs,
            walked(exprs[expr.0 as int]),
            expr.0 as nat,
            middle,
        );
    }
}

proof fn lemma_reach_all_transitive(
    exprs: Seq<ExprView>,
    list: Seq<ExprRef>,
    bound: nat,
    middle: usize,
)
    requires
        reach_all(exprs, list, bound).contains(middle),
    ensures
        reach(exprs, ExprRef(middle)).subset_of(reach_all(exprs, list, bound)),
    decreases bound, 0nat, list.len(),
{
    if list.len() > 0 {
        if reach_all(exprs, list.drop_last(), bound).contains(middle) {
            lemma_reach_all_transitive(exprs, list.drop_last(), bound, middle);
        } else {
            lemma_reach_transitive(exprs, list.last(), middle);
        }
    }
}

/// Whether a walk from each of the listed expressions up to a bound stays within them.
pub open spec fn closed_below(exprs: Seq<ExprView>, visited: Set<usize>, bound: int) -> bool {
    forall|i: usize|
        #[trigger] visited.contains(i) && i < bound ==> reach(exprs, ExprRef(i)).subset_of(visited)
}

/// Remaps the positions inside expressions, each expression once.
pub struct PositionRemapper<'p, 'v> {
    pub removed_positions: &'p [usize],
    pub visited: &'v mut HashSet<usize>,
}

/// The remapped expressions after one more walk.
proof fn lemma_remap_more(
    exprs: Seq<ExprView>,
    first: Set<usize>,
    second: Set<usize>,
    removed: Seq<usize>,
)
    requires
        first.disjoint(second),
    ensures
        remap_exprs(remap_exprs(exprs, first, removed), second, removed) == remap_exprs(
            exprs,
            first.union(second),
            removed,
        ),
{
    assert(remap_exprs(remap_exprs(exprs, first, removed), second, removed) =~= remap_exprs(
        exprs,
        first.union(second),
        removed,
    ));
}

/// Remapping positions changes no operand.
proof fn lemma_remap_wf(arena: ArenaView, chosen: Set<usize>, removed: Seq<usize>)
    requires
        arena.wf(),
    ensures
        ({
            let exprs = remap_exprs(arena.exprs, chosen, removed);
            &&& forall|i: int|
                0 <= i < exprs.len() ==> (#[trigger] exprs[i]).children == arena.exprs[i].children
            &&& forall|i: int|
                0 <= i < exprs.len() ==> walked(#[trigger] exprs[i]) == walked(arena.exprs[i])
        }),
{
    let exprs = remap_exprs(arena.exprs, chosen, removed);
    assert forall|i: int| 0 <= i < exprs.len() implies (#[trigger] exprs[i]).children
        == arena.exprs[i].children && walked(exprs[i]) == walked(arena.exprs[i]) by {
        assert(arena.exprs[i].head matches ExprHead::ColumnRef { column, .. }
            ==> arena.exprs[i].children.len() == 0);
        if arena.exprs[i].head is ColumnRef {
            assert(exprs[i].children =~= arena.exprs[i].children);
        }
    }
}

impl<'p, 'v> PositionRemapper<'p, 'v> {
    /// A remapper that has not visited anything yet.
    pub fn new(removed_positions: &'p [usize], visited: &'v mut HashSet<usize>) -> (res: Self)
        ensures
            res.removed_positions == removed_positions,
            res.visited@ == Set::<usize>::empty(),
            *final(res.visited) == *final(visited),
    {
        visited.clear();
        PositionRemapper { removed_positions, visited }
    }

    /// Remaps the positions inside an expression, apart from those that were visited before.
    pub fn visit(&mut self, expr: ExprRef, arena: &mut PlanArena)
        requires
            old(arena)@.wf(),
            old(arena)@.has_expr(expr),
            ascending(old(self).removed_positions@),
            closed_below(old(arena)@.exprs, old(self).visited@, expr.0 + 1),
        ensures
            final(self).removed_positions == old(self).removed_positions,
            final(self).visited@ == old(self).visited@.union(reach(old(arena)@.exprs, expr)),
            *final(final(self).visited) == *final(old(self).visited),
            final(arena)@ == (ArenaView {
                exprs: remap_exprs(
                    old(arena)@.exprs,
                    reach(old(arena)@.exprs, expr).difference(old(self).visited@),
                    old(self).removed_positions@,
                ),
                ..old(arena)@
            }),
            final(arena)@.wf(),
        decreases expr.0,
    {
        let ghost start = arena@;
        let ghost before = self.visited@;
        let ghost removed = self.removed_positions@;
        let ghost all = reach(start.exprs, expr);
        proof {
            lemma_reach_bounded(start.exprs, expr);
        }
        if self.visited.contains(&expr.0) {
            proof {
                assert(before.contains(expr.0));
                assert(before.union(all) =~= before);
                assert(all.difference(before) =~= Set::empty());
                assert(remap_exprs(start.exprs, Set::empty(), removed) =~= start.exprs);
            }
            return;
        }
        self.visited.insert(expr.0);
        let node = arena.expression(expr);
        if let ScalarExpression::ColumnRef { position, .. } = node {
            let mut target: usize = *position;
            remap_position(&mut target, self.removed_positions);
            arena.set_position(expr, target);
            proof {
                assert(start.exprs[expr.0 as int].children.len() == 0);
                assert(walked(start.exprs[expr.0 as int]).len() == 0);
                assert(all =~= Set::empty().insert(expr.0));
                assert(all.difference(before) =~= Set::empty().insert(expr.0));
                assert(self.visited@ =~= before.union(all));
                assert(arena@.exprs =~= remap_exprs(start.exprs, all.difference(before), removed));
            }
            return;
        }
        let children = match node {
            ScalarExpression::Alias { alias: AliasType::Expr(alias_expr), .. } => {
                let mut one: Vec<ExprRef> = Vec::new();
                one.push(*alias_expr);
                assert(one@ =~= walked(start.exprs[expr.0 as int]));
                one
            },
            node => node.children(),
        };
        let ghost list = walked(start.exprs[expr.0 as int]);
        assert(children@ =~= list);
        let ghost bound = expr.0 as nat;
        let mut i: usize = 0;
        proof {
            assert(list.take(0) =~= Seq::empty());
            assert(self.visited@ =~= before.insert(expr.0).union(
                reach_all(start.exprs, list.take(0), bound),
            ));
            assert(Set::<usize>::empty().difference(before) =~= Set::empty());
            assert(remap_exprs(start.exprs, Set::empty(), removed) =~= start.exprs);
        }
        while i < children.len()
            invariant
                i <= children.len(),
                children@ == list,
                list == walked(start.exprs[expr.0 as int]),
                bound == expr.0,
                start == old(arena)@,
                before == old(self).visited@,
                removed == old(self).removed_positions@,
                self.removed_positions == old(self).removed_positions,
                *final(self.visited) == *final(old(self).visited),
                ascending(removed),
                start.wf(),
                start.has_expr(expr),
                !before.contains(expr.0),
                closed_below(start.exprs, before, expr.0 + 1),
                arena@.wf(),
                self.visited@ == before.insert(expr.0).union(
                    reach_all(start.exprs, list.take(i as int), bound),
                ),
                arena@ == (ArenaView {
                    exprs: remap_exprs(
                        start.exprs,
                        reach_all(start.exprs, list.take(i as int), bound).difference(before),
                        removed,
                    ),
                    ..start
                }),
            decreases children.len() - i,
        {
            let child = children[i];
            let ghost sofar = reach_all(start.exprs, list.take(i as int), bound);
            let ghost done = sofar.difference(before);
            let ghost middle = arena@;
            let ghost next = reach(start.exprs, child);
            proof {
                assert(start.exprs[expr.0 as int].children.contains(child)) by {
                    if start.exprs[expr.0 as int].head is AliasExpr
                        && start.exprs[expr.0 as int].children.len() == 2 {
                        assert(start.exprs[expr.0 as int].children[1] == child);
                    } else {
                        assert(start.exprs[expr.0 as int].children[i as int] == child);
                    }
                }
                let k = choose|k: int|
                    0 <= k < start.exprs[expr.0 as int].children.len()
                        && start.exprs[expr.0 as int].children[k] == child;
                assert(start.exprs[expr.0 as int].children[k].0 < expr.0);
                lemma_remap_wf(start, done, removed);
                lemma_reach_same(start.exprs, middle.exprs);
                assert(reach(middle.exprs, child) == next);
                lemma_reach_bounded(start.exprs, child);
                assert forall|v: usize|
                    #[trigger] self.visited@.contains(v) && v < child.0 + 1 implies reach(
                    middle.exprs,
                    ExprRef(v),
                ).subset_of(self.visited@) by {
                    assert(v != expr.0);
                    assert(reach(middle.exprs, ExprRef(v)) == reach(start.exprs, ExprRef(v)));
                    if before.contains(v) {
                        assert(reach(start.exprs, ExprRef(v)).subset_of(before));
                    } else {
                        assert(sofar.contains(v));
                        lemma_reach_all_transitive(start.exprs, list.take(i as int), bound, v);
                    }
                }
            }
            let ghost seen = self.visited@;
            self.visit(child, arena);
            proof {
                let longer = list.take(i + 1);
                assert(longer.drop_last() =~= list.take(i as int));
                assert(longer.last() == child);
                let all_next = reach_all(start.exprs, longer, bound);
                assert(all_next == sofar.union(next));
                assert(self.visited@ =~= before.insert(expr.0).union(all_next));
                let fresh = next.difference(seen);
                assert(fresh =~= next.difference(before).difference(done)) by {
                    assert(!next.contains(expr.0));
                }
                assert(done.disjoint(fresh));
                lemma_remap_more(start.exprs, done, fresh, removed);
                assert(done.union(fresh) =~= all_next.difference(before));
            }
            i += 1;
        }
        proof {
            assert(list.take(i as int) =~= list);
            let inner = reach_all(start.exprs, list, bound);
            assert(all == inner.insert(expr.0));
            assert(self.visited@ =~= before.union(all));
            assert(all.difference(before) =~= inner.difference(before).insert(expr.0));
            assert(remap_exprs(start.exprs, all.difference(before), removed) =~= remap_exprs(
                start.exprs,
                inner.difference(before),
                removed,
            ));
        }
    }
}

/// Walks only depend on the operands.
proof fn lemma_reach_same(left: Seq<ExprView>, right: Seq<ExprView>)
    requires
        left.len() == right.len(),
        forall|i: int| 0 <= i < left.len() ==> walked(#[trigger] right[i]) == walked(left[i]),
    ensures
        forall|expr: ExprRef| #[trigger] reach(right, expr) == reach(left, expr),
{
    assert forall|expr: ExprRef| #[trigger] reach(right, expr) == reach(left, expr) by {
        lemma_reach_same_at(left, right, expr);
    }
}

proof fn lemma_reach_same_at(left: Seq<ExprView>, right: Seq<ExprView>, expr: ExprRef)
    requires
        left.len() == right.len(),
        forall|i: int| 0 <= i < left.len() ==> walked(#[trigger] right[i]) == walked(left[i]),
    ensures
        reach(right, expr) == reach(left, expr),
    decreases expr.0, 1nat, 0nat,
{
    if expr.0 < left.len() {
        assert(walked(right[expr.0 as int]) == walked(left[expr.0 as int]));
        lemma_reach_all_same(left, right, walked(left[expr.0 as int]), expr.0 as nat);
    }
}

proof fn lemma_reach_all_same(
    left: Seq<ExprView>,
    right: Seq<ExprView>,
    list: Seq<ExprRef>,
    bound: nat,
)
    requires
        left.len() == right.len(),
        forall|i: int| 0 <= i < left.len() ==> walked(#[trigger] right[i]) == walked(left[i]),
    ensures
        reach_all(right, list, bound) == reach_all(left, list, bound),
    decreases bound, 0nat, list.len(),
{
    if list.len() > 0 {
        lemma_reach_all_same(left, right, list.drop_last(), bound);
        if list.last().0 < bound {
            lemma_reach_same_at(left, right, list.last());
        }
    }
}

/// Remaps the positions inside an expression.
pub fn remap_expr_positions(
    expr: ExprRef,
    removed_positions: &[usize],
    visited: &mut HashSet<usize>,
    arena: &mut PlanArena,
) -> (res: Result<(), DatabaseError>)
    requires
        old(arena)@.wf(),
        old(arena)@.has_expr(expr),
        ascending(removed_positions@),
    ensures
        res is Ok,
        final(visited)@ == reach(old(arena)@.exprs, expr),
        final(arena)@ == (ArenaView {
            exprs: remap_exprs(
                old(arena)@.exprs,
                reach(old(arena)@.exprs, expr),
                removed_positions@,
            ),
            ..old(arena)@
        }),
        final(arena)@.wf(),
{
    let ghost all = reach(arena@.exprs, expr);
    let mut remapper = PositionRemapper::new(removed_positions, visited);
    remapper.visit(expr, arena);
    proof {
        assert(Set::empty().union(all) =~= all);
        assert(all.difference(Set::empty()) =~= all);
    }
    Ok(())
}

/// Remaps the positions inside expressions; an expression that several of them share is remapped
/// once.
pub fn remap_exprs_positions(
    exprs: &Vec<ExprRef>,
    removed_positions: &[usize],
    visited: &mut HashSet<usize>,
    arena: &mut PlanArena,
) -> (res: Result<(), DatabaseError>)
    requires
        old(arena)@.wf(),
        old(arena)@.has_exprs(exprs@),
        ascending(removed_positions@),
    ensures
        res is Ok,
        ({
            let all = reach_all(old(arena)@.exprs, exprs@, old(arena)@.exprs.len());
            &&& final(visited)@ == all
            &&& final(arena)@ == (ArenaView {
                exprs: remap_exprs(old(arena)@.exprs, all, removed_positions@),
                ..old(arena)@
            })
        }),
        final(arena)@.wf(),
{
    let ghost start = arena@;
    let ghost bound = start.exprs.len();
    let ghost removed = removed_positions@;
    let ghost last = visited;
    let mut remapper = PositionRemapper::new(removed_positions, visited);
    let mut i: usize = 0;
    proof {
        assert(exprs@.take(0) =~= Seq::empty());
        assert(remap_exprs(start.exprs, Set::empty(), removed) =~= start.exprs);
    }
    while i < exprs.len()
        invariant
            i <= exprs.len(),
            start == old(arena)@,
            bound == start.exprs.len(),
            removed == removed_positions@,
            remapper.removed_positions@ == removed,
            *final(remapper.visited) == *final(last),
            ascending(removed),
            start.wf(),
            start.has_exprs(exprs@),
            arena@.wf(),
            remapper.visited@ == reach_all(start.exprs, exprs@.take(i as int), bound),
            arena@ == (ArenaView {
                exprs: remap_exprs(
                    start.exprs,
                    reach_all(start.exprs, exprs@.take(i as int), bound),
                    removed,
                ),
                ..start
            }),
        decreases exprs.len() - i,
    {
        let expr = exprs[i];
        let ghost sofar = reach_all(start.exprs, exprs@.take(i as int), bound);
        let ghost middle = arena@;
        let ghost next = reach(start.exprs, expr);
        proof {
            assert(start.has_expr(exprs@[i as int]));
            lemma_remap_wf(start, sofar, removed);
            lemma_reach_same(start.exprs, middle.exprs);
            assert(reach(middle.exprs, expr) == next);
            assert forall|v: usize|
                #[trigger] sofar.contains(v) && v < expr.0 + 1 implies reach(
                middle.exprs,
                ExprRef(v),
            ).subset_of(sofar) by {
                assert(reach(middle.exprs, ExprRef(v)) == reach(start.exprs, ExprRef(v)));
                lemma_reach_all_transitive(start.exprs, exprs@.take(i as int), bound, v);
            }
        }
        remapper.visit(expr, arena);
        proof {
            let longer = exprs@.take(i + 1);
            assert(longer.drop_last() =~= exprs@.take(i as int));
            assert(longer.last() == expr);
            let fresh = next.difference(sofar);
            assert(sofar.disjoint(fresh));
            lemma_remap_more(start.exprs, sofar, fresh, removed);
            assert(sofar.union(fresh) =~= sofar.union(next));
        }
        i += 1;
    }
    assert(exprs@.take(i as int) =~= exprs@);
    Ok(())
}

} // verus!
