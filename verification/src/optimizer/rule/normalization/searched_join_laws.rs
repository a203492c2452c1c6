//! The parts of a join that searches one of its inputs.

use crate::expression::visitor_mut::{
    columns_are_leaves, lemma_shift_structure_all, same_node, shift_all,
};
use crate::expression::{ExprHead, ExprView};
use crate::optimizer::rule::normalization::parameterized_index::priority;
use crate::optimizer::rule::normalization::parameterized_join::{
    join_search, key_predicates, parameterized, searched_join, swapped, JoinSearch,
};
use crate::optimizer::rule::normalization::parameterized_meaning::{
    lemma_key_predicates, second_parts,
};
use crate::optimizer::rule::normalization::parameterized_laws::lemma_shift_below;
use crate::planner::arena::{ArenaView, ExprRef};
use crate::planner::operator::mark_apply::MarkApplyKind;
use crate::planner::operator::OperatorView;
use crate::planner::schema::output;
use crate::planner::{ChildrenView, PlanView};
use crate::types::index::IndexType;
use vstd::prelude::*;

verus! {

/// A join that searches its right input takes its left rows for it, and the keys as they are; one that
/// searches its left input takes its right rows, and the sides of every key trade places. The left
/// input is searched only where the right one cannot be.
pub proof fn searched_input_is_on_the_right(
    left: PlanView,
    right: PlanView,
    on: Seq<(ExprRef, ExprRef)>,
    arena: ArenaView,
    i: int,
)
    ensures
        join_search(left, right, on, arena) matches Some(search) ==> {
            &&& search.keys.len() == on.len()
            &&& match search.reorder {
                None => {
                    &&& search.outer == left
                    &&& parameterized(right, on, arena) == Some((search.inner, search.probe))
                    &&& 0 <= i < on.len() ==> search.keys[i] == on[i]
                },
                Some(_) => {
                    &&& parameterized(right, on, arena) is None
                    &&& parameterized(left, swapped(on), arena) matches Some((inner, probe))
                        && search.probe == probe && search.inner.operator == inner.operator
                        && search.outer.operator == right.operator
                    &&& 0 <= i < on.len() ==> search.keys[i].0 == on[i].1 && search.keys[i].1
                        == on[i].0
                },
            }
        },
        join_search(left, right, on, arena) is None <==> parameterized(right, on, arena) is None
            && parameterized(left, swapped(on), arena) is None,
{
}

/// The application below what restores the order of columns and what filters rows.
pub open spec fn application(
    plan: PlanView,
    reorder: Option<Seq<ExprRef>>,
    filter: Option<ExprRef>,
) -> PlanView {
    let below = if filter is Some {
        *plan.children->Only_0
    } else {
        plan
    };
    if reorder is Some {
        *below.children->Only_0
    } else {
        below
    }
}

/// A join that searches its inner input for each of its outer rows looks up the values of its probe in
/// their order, joins by the equalities of its keys, restores the order of columns above that and keeps
/// what else the join asked for on top.
pub proof fn searched_join_has_its_parts(search: JoinSearch, filter: Option<ExprRef>)
    requires
        columns_are_leaves(output(search.outer, search.arena).arena.exprs),
        output(search.outer, search.arena).arena.exprs.len() + search.keys.len() + 1 <= usize::MAX,
        forall|i: int|
            0 <= i < search.keys.len() ==> (#[trigger] search.keys[i]).1.0 < output(
                search.outer,
                search.arena,
            ).arena.exprs.len(),
    ensures
        ({
            let (plan, after) = searched_join(search, filter);
            let outer = output(search.outer, search.arena);
            let apply = application(plan, search.reorder, filter);
            let below = if filter is Some {
                *plan.children->Only_0
            } else {
                plan
            };
            let op = apply.operator->MarkApply_0;
            let probe = op.parameterized_probe->0;
            &&& filter matches Some(rest) ==> (plan.operator matches OperatorView::Filter(own)
                && own.predicate == rest && !own.having) && plan.children is Only
            &&& search.reorder matches Some(exprs) ==> below.operator == OperatorView::Project(exprs)
                && below.children is Only
            &&& apply.operator is MarkApply && op.kind == MarkApplyKind::InnerJoin
            &&& apply.children matches ChildrenView::Twins { left, right } && *left == outer.plan
                && *right == search.inner
            &&& op.parameterized_probe is Some
            &&& search.probe.len() == 1 ==> probe == search.probe[0]
            &&& search.probe.len() != 1 ==> {
                let node = after.exprs[probe.0 as int];
                node.head is Tuple && node.children == search.probe
            }
            &&& op.predicates.len() == search.keys.len()
            &&& exists|start: Seq<ExprView>|
                outer.arena.exprs.is_prefix_of(start) && #[trigger] key_predicates(
                    start,
                    search.keys,
                    outer.schema.len(),
                ) == (after.exprs, op.predicates)
        }),
{
    let outer = output(search.outer, search.arena);
    let exprs = outer.arena.exprs;
    let tuple = ExprView { head: ExprHead::Tuple, children: search.probe };
    let start = if search.probe.len() == 1 {
        exprs
    } else {
        exprs.push(tuple)
    };
    let n = start.len();
    assert(columns_are_leaves(start));
    lemma_predicates_len(start, search.keys, outer.schema.len());
    lemma_key_predicates(start, search.keys, outer.schema.len());
    let (after, refs) = key_predicates(start, search.keys, outer.schema.len());
    lemma_shift_structure_all(
        start,
        second_parts(search.keys),
        n,
        outer.schema.len() as int,
    );
    let shifted = shift_all(start, second_parts(search.keys), n, outer.schema.len() as int);
    if search.probe.len() != 1 {
        let at = exprs.len() as int;
        assert(start[at] == tuple);
        assert(same_node(start[at], shifted[at]));
        assert(after.take(n as int)[at] == after[at]);
    }
    assert(exprs.is_prefix_of(start));
    assert(key_predicates(start, search.keys, outer.schema.len()) == (
        searched_join(search, filter).1.exprs,
        refs,
    ));
}

proof fn lemma_predicates_len(exprs: Seq<ExprView>, keys: Seq<(ExprRef, ExprRef)>, left_len: nat)
    ensures
        key_predicates(exprs, keys, left_len).0.len() == exprs.len() + keys.len(),
    decreases keys.len(),
{
    if keys.len() > 0 {
        lemma_predicates_len(exprs, keys.drop_last(), left_len);
        let sofar = key_predicates(exprs, keys.drop_last(), left_len).0;
        lemma_shift_below(
            sofar,
            keys.last().1,
            left_len as int,
        );
    }
}

/// Of several indexes a primary key is searched rather than any other, then one whose keys occur once,
/// then one with composite keys.
pub proof fn unique_keys_are_searched_first(multiple: bool)
    ensures
        priority(IndexType::PrimaryKey { is_multiple: multiple }) < priority(IndexType::Unique),
        priority(IndexType::Unique) < priority(IndexType::Composite),
        priority(IndexType::Composite) < priority(IndexType::Normal),
{
}

} // verus!
