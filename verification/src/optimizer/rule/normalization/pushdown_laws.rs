//! What moving predicates through joins never does.

use crate::catalog::ColumnRef;
use crate::expression::analysis::columns_of;
use crate::expression::conjunction::{
    conjunction_of, conjuncts, lemma_conjuncts_bounded, parts_of,
};
use crate::expression::ExprView;
use crate::optimizer::rule::normalization::pushdown_predicates::{
    all_in, condition_distribution, condition_of, distribution, filter_above_join,
    filter_distribution, filter_predicates, joint_condition, movable_condition, on_side,
    pushes_through_join, side_of, Side,
};
use crate::planner::arena::{ArenaView, ExprRef};
use crate::planner::operator::join::JoinType;
use crate::planner::operator::OperatorView;
use crate::planner::{ChildrenView, PlanView};
use vstd::multiset::Multiset;
use vstd::prelude::*;
use vstd::seq_lib::lemma_multiset_commutative;

verus! {

/// No predicate is lost and none is doubled: those that go to the inputs and those that stay are
/// together the predicates that there were.
pub proof fn distributed_predicates_are_kept(
    predicate: ExprRef,
    push_left: bool,
    push_right: bool,
    children: ChildrenView,
    arena: ArenaView,
)
    ensures
        ({
            let parts = distribution(predicate, push_left, push_right, children, arena);
            parts.to_left.to_multiset().add(parts.to_right.to_multiset()).add(
                parts.kept.to_multiset(),
            ) == conjuncts(parts.inputs.arena.exprs, predicate).to_multiset()
        }),
{
    broadcast use vstd::seq_lib::group_to_multiset_ensures;

    let parts = distribution(predicate, push_left, push_right, children, arena);
    let exprs = parts.inputs.arena.exprs;
    let list = conjuncts(exprs, predicate);
    let left = on_side(exprs, list, parts.inputs.left, parts.inputs.right, Side::Left);
    let right = on_side(exprs, list, parts.inputs.left, parts.inputs.right, Side::Right);
    let both = on_side(exprs, list, parts.inputs.left, parts.inputs.right, Side::Both);
    lemma_sides(exprs, list, parts.inputs.left, parts.inputs.right);
    let first: Seq<ExprRef> = if push_left {
        Seq::empty()
    } else {
        left
    };
    let second: Seq<ExprRef> = if push_right {
        Seq::empty()
    } else {
        right
    };
    lemma_multiset_commutative(both, first);
    lemma_multiset_commutative(both + first, second);
    assert(Seq::<ExprRef>::empty().to_multiset() =~= Multiset::empty());
    assert(parts.to_left.to_multiset().add(parts.to_right.to_multiset()).add(
        parts.kept.to_multiset(),
    ) =~= left.to_multiset().add(right.to_multiset()).add(both.to_multiset()));
}

proof fn lemma_sides(
    exprs: Seq<ExprView>,
    list: Seq<ExprRef>,
    left: Seq<ColumnRef>,
    right: Seq<ColumnRef>,
)
    ensures
        on_side(exprs, list, left, right, Side::Left).to_multiset().add(
            on_side(exprs, list, left, right, Side::Right).to_multiset(),
        ).add(on_side(exprs, list, left, right, Side::Both).to_multiset()) == list.to_multiset(),
    decreases list.len(),
{
    broadcast use vstd::seq_lib::group_to_multiset_ensures;

    if list.len() == 0 {
        assert(list =~= Seq::empty());
        assert(Seq::<ExprRef>::empty().to_multiset() =~= Multiset::empty());
        assert(list.to_multiset().add(list.to_multiset()).add(list.to_multiset())
            =~= list.to_multiset());
    } else {
        let front = list.drop_last();
        let last = list.last();
        lemma_sides(exprs, front, left, right);
        assert(list =~= front.push(last));
        assert(list.to_multiset() =~= front.to_multiset().insert(last));
        let l = on_side(exprs, front, left, right, Side::Left);
        let r = on_side(exprs, front, left, right, Side::Right);
        let b = on_side(exprs, front, left, right, Side::Both);
        assert(l.push(last).to_multiset() =~= l.to_multiset().insert(last));
        assert(r.push(last).to_multiset() =~= r.to_multiset().insert(last));
        assert(b.push(last).to_multiset() =~= b.to_multiset().insert(last));
        assert(on_side(exprs, list, left, right, Side::Left).to_multiset().add(
            on_side(exprs, list, left, right, Side::Right).to_multiset(),
        ).add(on_side(exprs, list, left, right, Side::Both).to_multiset())
            =~= l.to_multiset().add(r.to_multiset()).add(b.to_multiset()).insert(last));
    }
}

/// A predicate only moves to an input that has all its columns.
pub proof fn moved_predicates_fit_their_input(
    predicate: ExprRef,
    push_left: bool,
    push_right: bool,
    children: ChildrenView,
    arena: ArenaView,
    i: int,
)
    ensures
        ({
            let parts = distribution(predicate, push_left, push_right, children, arena);
            let exprs = parts.inputs.arena.exprs;
            &&& 0 <= i < parts.to_left.len() ==> all_in(
                columns_of(exprs, parts.to_left[i]),
                parts.inputs.left,
            )
            &&& 0 <= i < parts.to_right.len() ==> all_in(
                columns_of(exprs, parts.to_right[i]),
                parts.inputs.right,
            )
        }),
{
    let parts = distribution(predicate, push_left, push_right, children, arena);
    let exprs = parts.inputs.arena.exprs;
    let list = conjuncts(exprs, predicate);
    lemma_on_side(exprs, list, parts.inputs.left, parts.inputs.right, Side::Left, i);
    lemma_on_side(exprs, list, parts.inputs.left, parts.inputs.right, Side::Right, i);
}

pub proof fn lemma_on_side(
    exprs: Seq<ExprView>,
    list: Seq<ExprRef>,
    left: Seq<ColumnRef>,
    right: Seq<ColumnRef>,
    side: Side,
    i: int,
)
    ensures
        0 <= i < on_side(exprs, list, left, right, side).len() ==> side_of(
            exprs,
            on_side(exprs, list, left, right, side)[i],
            left,
            right,
        ) == side,
    decreases list.len(),
{
    if list.len() > 0 {
        lemma_on_side(exprs, list.drop_last(), left, right, side, i);
    }
}

/// Nothing of a filter stays above an inner join: what one input can evaluate goes there, and
/// everything else becomes part of the condition of the join.
pub proof fn inner_join_takes_whole_filter(
    plan: PlanView,
    arena: ArenaView,
    new_plan: PlanView,
    new_arena: ArenaView,
    applied: bool,
)
    requires
        filter_above_join(plan),
        plan.children->Only_0.operator->Join_0.join_type == JoinType::Inner,
        plan.children->Only_0.children is Twins,
        pushes_through_join(plan, arena, new_plan, new_arena, applied),
    ensures
        applied,
        new_plan.operator matches OperatorView::Join(join) && conjunction_of(
            new_arena.exprs,
            condition_of(join),
            parts_of(arena.exprs, condition_of(plan.children->Only_0.operator->Join_0))
                + filter_distribution(plan, arena).kept,
        ),
{
    let join = plan.children->Only_0;
    let parts = filter_distribution(plan, arena);
    let predicate = plan.operator->Filter_0.predicate;
    let list = conjuncts(parts.inputs.arena.exprs, predicate);
    lemma_conjuncts_bounded(parts.inputs.arena.exprs, predicate);
    distributed_predicates_are_kept(predicate, true, true, join.children, arena);
    if parts.to_left.len() == 0 && parts.to_right.len() == 0 && parts.kept.len() == 0 {
        broadcast use vstd::seq_lib::group_to_multiset_ensures;

        assert(list.to_multiset().len() == list.len());
        assert(parts.to_left.to_multiset().len() == 0);
        assert(parts.to_right.to_multiset().len() == 0);
        assert(parts.kept.to_multiset().len() == 0);
        assert(false);
    }
}

/// A filter above an outer join leaves the condition of the join alone.
pub proof fn outer_join_keeps_its_condition(plan: PlanView, arena: ArenaView)
    requires
        filter_above_join(plan),
        plan.children->Only_0.operator->Join_0.join_type != JoinType::Inner,
    ensures
        joint_condition(
            plan.children->Only_0.operator->Join_0,
            filter_predicates(plan, arena),
        ).0 == plan.children->Only_0.operator->Join_0,
{
}

/// A filter above an outer join never moves to the input whose missing rows the join fills up.
pub proof fn filter_spares_filled_input(plan: PlanView, arena: ArenaView)
    requires
        filter_above_join(plan),
    ensures
        ({
            let join_type = plan.children->Only_0.operator->Join_0.join_type;
            let parts = filter_distribution(plan, arena);
            &&& join_type == JoinType::LeftOuter ==> parts.to_right.len() == 0
            &&& join_type == JoinType::RightOuter ==> parts.to_left.len() == 0
            &&& join_type != JoinType::Full && join_type != JoinType::Cross
        }),
{
}

/// The condition of an outer join never moves to the input all of whose rows the join keeps.
pub proof fn condition_spares_kept_input(plan: PlanView, arena: ArenaView)
    requires
        movable_condition(plan) is Some,
    ensures
        ({
            let join_type = plan.operator->Join_0.join_type;
            let parts = condition_distribution(plan, arena);
            &&& join_type == JoinType::LeftOuter ==> parts.to_left.len() == 0
            &&& join_type == JoinType::RightOuter ==> parts.to_right.len() == 0
            &&& join_type != JoinType::Full && join_type != JoinType::Cross
        }),
{
}

} // verus!
