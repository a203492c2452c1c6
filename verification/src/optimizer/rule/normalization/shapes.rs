//! What the rules leave alone: every operator keeps the inputs that it needs, and a rule that finds
//! nothing to do does not make a plan deeper.

use crate::catalog::ColumnRef;
use crate::expression::conjunction::conjuncts;
use crate::optimizer::plan_utils::{above, wrap_child};
use crate::optimizer::rule::normalization::elimination::{
    hint_plan, passes_hints, without_index_filter, without_sort, with_forced_sort,
    with_stream_aggregate, OrderHintKind,
};
use crate::optimizer::rule::normalization::parameterized_index::{
    apply_probe, probed, search_right,
};
use crate::optimizer::rule::normalization::parameterized_join::{
    constant_keys_of, join_search, parameterized, searched_join, swapped, JoinSearch,
};
use crate::optimizer::rule::normalization::pushdown_predicates::{
    condition_distribution, condition_predicates, filter_above_join, filter_distribution, filter_of,
    filter_predicates, filtered_inputs, input_schemas, inputs_ready, joint_condition,
    movable_condition, pushes_condition, pushes_through_join, some_filtered,
};
use crate::planner::arena::{ArenaView, ExprRef};
use crate::planner::operator::filter::FilterOperator;
use crate::planner::operator::mark_apply::MarkApplyView;
use crate::planner::operator::sort::SortField;
use crate::planner::operator::OperatorView;
use crate::planner::schema::output;
use crate::planner::shape::{lemma_output_shape, lemma_shaped_ready};
use crate::planner::{ChildrenView, PlanView};
use vstd::prelude::*;

verus! {

/// Whether a plan keeps its shape and, unless a rule fired, does not become deeper.
pub open spec fn keeps_shape(before: PlanView, after: PlanView, fired: bool) -> bool {
    before.shaped() ==> {
        &&& after.shaped()
        &&& !fired ==> after.height() <= before.height()
    }
}

pub proof fn lemma_hint_plan_shape(
    plan: PlanView,
    required: Seq<SortField>,
    kind: OrderHintKind,
    arena: ArenaView,
)
    ensures
        hint_plan(plan, required, kind, arena).shaped() == plan.shaped(),
        hint_plan(plan, required, kind, arena).height() == plan.height(),
    decreases plan,
{
    if required.len() > 0 && passes_hints(plan.operator) {
        if let ChildrenView::Only(child) = plan.children {
            lemma_hint_plan_shape(*child, required, kind, arena);
            assert(hint_plan(plan, required, kind, arena).children.shaped()
                == plan.children.shaped());
        }
    }
}

pub proof fn lemma_without_sort_shape(plan: PlanView, arena: ArenaView)
    ensures
        keeps_shape(plan, without_sort(plan, arena).0, without_sort(plan, arena).1),
{
    if let ChildrenView::Only(child) = plan.children {
        let (after, fired) = without_sort(plan, arena);
        if let OperatorView::Sort(keys) = plan.operator {
            lemma_hint_plan_shape(*child, keys, OrderHintKind::SortElimination, arena);
        }
        if let OperatorView::TopK(op) = plan.operator {
            lemma_hint_plan_shape(*child, op.sort_fields, OrderHintKind::SortElimination, arena);
        }
        assert(plan.children.shaped() == child.shaped());
        assert(after.children is Only ==> after.children.shaped()
            == after.children->Only_0.shaped());
    }
}

pub proof fn lemma_post_rules_shape(plan: PlanView, arena: ArenaView)
    ensures
        keeps_shape(plan, with_stream_aggregate(plan, arena).0, false),
        keeps_shape(plan, with_forced_sort(plan).0, with_forced_sort(plan).1),
{
    if let ChildrenView::Only(child) = plan.children {
        let forced = with_forced_sort(plan).0;
        if with_forced_sort(plan).1 {
            let sort = *forced.children->Only_0;
            assert(sort.children.shaped() == child.shaped());
            assert(forced.children.shaped() == sort.shaped());
        }
    }
}

pub proof fn lemma_index_filter_shape(plan: PlanView)
    ensures
        keeps_shape(plan, without_index_filter(plan).0, without_index_filter(plan).1),
{
    if let ChildrenView::Only(child) = plan.children {
        assert(plan.children.shaped() == child.shaped());
    }
}

/// Asking the inputs for their columns changes neither their shape nor their depth.
pub proof fn lemma_input_schemas_shape(children: ChildrenView, arena: ArenaView)
    ensures
        input_schemas(children, arena).children.shaped() == children.shaped(),
        input_schemas(children, arena).children.height() == children.height(),
        input_schemas(children, arena).children.same_arity(children),
{
    match children {
        ChildrenView::Leaf => {},
        ChildrenView::Only(left) => {
            lemma_output_shape(*left, arena);
        },
        ChildrenView::Twins { left, right } => {
            lemma_output_shape(*left, arena);
            lemma_output_shape(*right, output(*left, arena).arena);
        },
    }
}

/// The columns of shaped inputs can be computed.
pub proof fn lemma_inputs_ready(children: ChildrenView)
    requires
        children.shaped(),
    ensures
        inputs_ready(children),
{
    match children {
        ChildrenView::Leaf => {},
        ChildrenView::Only(left) => {
            lemma_shaped_ready(*left);
        },
        ChildrenView::Twins { left, right } => {
            lemma_shaped_ready(*left);
            lemma_shaped_ready(*right);
        },
    }
}

proof fn lemma_wrap_shape(children: ChildrenView, position: int, filter: FilterOperator)
    requires
        children.shaped(),
    ensures
        wrap_child(children, position, OperatorView::Filter(filter)).shaped(),
        wrap_child(children, position, OperatorView::Filter(filter)).same_arity(children),
{
    let operator = OperatorView::Filter(filter);
    match children {
        ChildrenView::Leaf => {},
        ChildrenView::Only(child) => {
            assert(above(operator, *child).children.shaped());
            assert(above(operator, *child).shaped());
        },
        ChildrenView::Twins { left, right } => {
            assert(above(operator, *left).children.shaped());
            assert(above(operator, *left).shaped());
            assert(above(operator, *right).children.shaped());
            assert(above(operator, *right).shaped());
        },
    }
}

proof fn lemma_filtered_shape(
    children: ChildrenView,
    left: Option<FilterOperator>,
    right: Option<FilterOperator>,
)
    requires
        children.shaped(),
    ensures
        filtered_inputs(children, left, right).shaped(),
        filtered_inputs(children, left, right).same_arity(children),
        children is Twins && !some_filtered(children, left, right) ==> filtered_inputs(
            children,
            left,
            right,
        ) == children,
{
    if let Some(filter) = left {
        lemma_wrap_shape(children, 0, filter);
        if let Some(other) = right {
            lemma_wrap_shape(wrap_child(children, 0, OperatorView::Filter(filter)), 1, other);
        }
    } else if let Some(filter) = right {
        lemma_wrap_shape(children, 1, filter);
    }
}

pub proof fn lemma_through_join_shape(
    plan: PlanView,
    arena: ArenaView,
    new_plan: PlanView,
    new_arena: ArenaView,
    applied: bool,
)
    requires
        pushes_through_join(plan, arena, new_plan, new_arena, applied),
    ensures
        keeps_shape(plan, new_plan, applied),
{
    if filter_above_join(plan) && plan.shaped() {
        let parts = filter_distribution(plan, arena);
        let join = *plan.children->Only_0;
        assert(plan.children.shaped() == join.shaped());
        let preds = filter_predicates(plan, arena);
        let having = plan.operator->Filter_0.having;
        let left = filter_of(preds.left, having);
        let right = filter_of(preds.right, having);
        lemma_input_schemas_shape(join.children, arena);
        lemma_filtered_shape(parts.inputs.children, left, right);
        let joined = PlanView {
            operator: OperatorView::Join(joint_condition(join.operator->Join_0, preds).0),
            children: filtered_inputs(parts.inputs.children, left, right),
            ..join
        };
        assert(joined.shaped());
        assert(ChildrenView::Only(Box::new(joined)).shaped());
        if !applied {
            assert(joined.height() == join.height());
            assert(ChildrenView::Only(Box::new(joined)).height() == plan.children.height());
        }
    }
}

pub proof fn lemma_condition_shape(
    plan: PlanView,
    arena: ArenaView,
    new_plan: PlanView,
    new_arena: ArenaView,
    applied: bool,
)
    requires
        pushes_condition(plan, arena, new_plan, new_arena, applied),
    ensures
        keeps_shape(plan, new_plan, applied),
{
    if movable_condition(plan) is Some && plan.shaped() {
        let parts = condition_distribution(plan, arena);
        let preds = condition_predicates(plan, arena);
        lemma_input_schemas_shape(plan.children, arena);
        lemma_filtered_shape(
            parts.inputs.children,
            filter_of(preds.left, false),
            filter_of(preds.right, false),
        );
    }
}

pub proof fn lemma_probed_shape(plan: PlanView, column: ColumnRef, arena: ArenaView)
    ensures
        probed(plan, column, arena) matches Some(after) ==> after.shaped() == plan.shaped()
            && after.height() == plan.height(),
    decreases plan,
{
    if !(plan.operator is TableScan) {
        if let ChildrenView::Only(child) = plan.children {
            lemma_probed_shape(*child, column, arena);
            if let Some(after) = probed(plan, column, arena) {
                assert(after.children.shaped() == plan.children.shaped());
            }
        }
    }
}

pub proof fn lemma_search_right_shape(op: MarkApplyView, children: ChildrenView, arena: ArenaView)
    requires
        children is Twins,
    ensures
        ({
            let right = search_right(op, children, arena).0;
            let after = ChildrenView::Twins {
                left: input_schemas(children, arena).children->left,
                right: Box::new(right),
            };
            after.shaped() == children.shaped() && after.height() == children.height()
        }),
{
    let inputs = input_schemas(children, arena);
    lemma_input_schemas_shape(children, arena);
    let right = *inputs.children->right;
    if let Some((column, _)) = apply_probe(
        inputs.arena,
        op.kind,
        op.predicates,
        inputs.left,
        inputs.right,
    ) {
        lemma_probed_shape(right, column, inputs.arena);
    }
}

pub proof fn lemma_parameterized_shape(
    plan: PlanView,
    keys: Seq<(ExprRef, ExprRef)>,
    arena: ArenaView,
)
    ensures
        parameterized(plan, keys, arena) matches Some((after, _)) ==> after.shaped()
            == plan.shaped(),
    decreases plan,
{
    if let (OperatorView::Filter(filter), ChildrenView::Only(child)) = (
        plan.operator,
        plan.children,
    ) {
        lemma_parameterized_shape(
            *child,
            keys + constant_keys_of(arena.exprs, conjuncts(arena.exprs, filter.predicate)),
            arena,
        );
        if let Some((after, _)) = parameterized(plan, keys, arena) {
            assert(after.children.shaped() == plan.children.shaped());
        }
    }
}

pub proof fn lemma_join_search_shape(
    left: PlanView,
    right: PlanView,
    on: Seq<(ExprRef, ExprRef)>,
    arena: ArenaView,
    filter: Option<ExprRef>,
)
    requires
        left.shaped(),
        right.shaped(),
    ensures
        join_search(left, right, on, arena) matches Some(search) ==> searched_join(
            search,
            filter,
        ).0.shaped(),
{
    lemma_parameterized_shape(right, on, arena);
    lemma_parameterized_shape(left, swapped(on), arena);
    if let Some(search) = join_search(left, right, on, arena) {
        if parameterized(right, on, arena) is None {
            let inner = (parameterized(left, swapped(on), arena)->0).0;
            lemma_output_shape(inner, arena);
            lemma_output_shape(right, output(inner, arena).arena);
        }
        lemma_searched_shape(search, filter);
    }
}

proof fn lemma_searched_shape(search: JoinSearch, filter: Option<ExprRef>)
    requires
        search.outer.shaped(),
        search.inner.shaped(),
    ensures
        searched_join(search, filter).0.shaped(),
{
    lemma_output_shape(search.outer, search.arena);
    let outer = output(search.outer, search.arena).plan;
    let twins = ChildrenView::Twins {
        left: Box::new(outer),
        right: Box::new(search.inner),
    };
    assert(twins.shaped());
    let plan = searched_join(search, filter).0;
    if let Some(_) = filter {
        let below = *plan.children->Only_0;
        if search.reorder is Some {
            let apply = *below.children->Only_0;
            assert(apply.children == twins);
            assert(apply.shaped());
            assert(below.children.shaped());
        } else {
            assert(below.children == twins);
        }
        assert(below.shaped());
        assert(plan.children.shaped());
    } else if search.reorder is Some {
        let apply = *plan.children->Only_0;
        assert(apply.children == twins);
        assert(apply.shaped());
        assert(plan.children.shaped());
    } else {
        assert(plan.children == twins);
    }
}

} // verus!
