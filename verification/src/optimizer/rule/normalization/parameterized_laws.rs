//! What a join delivers stays the same when it searches one of its inputs.

use crate::catalog::ColumnRef;
use crate::errors::DatabaseError;
use crate::expression::conjunction::conjuncts;
use crate::expression::visitor_mut::{shift_all, shift_expr};
use crate::expression::{ExprHead, ExprView};
use crate::optimizer::rule::normalization::parameterized_join::{
    constant_keys_of, join_keys, join_search, key_predicates, parameterized, refs_from,
    reorder_exprs, reorder_restores_slots, searched_join, swapped, JoinSearch,
};
use crate::optimizer::rule::normalization::{searches_input, Stage};
use crate::planner::arena::{ArenaView, ExprRef};
use crate::planner::operator::OperatorView;
use crate::planner::schema::{column_for, columns_for, compute, dummies, output};
use crate::planner::{ChildrenView, PlanView};
use vstd::prelude::*;

verus! {

/// Whether the columns that a plan remembers, if any, are those that its operator and its inputs
/// give.
pub open spec fn remembers_columns(plan: PlanView, arena: ArenaView) -> bool {
    plan.schema matches Some(schema) ==> schema == compute(
        plan.operator,
        plan.children,
        arena,
    ).schema
}

/// Columns are computed without a change to the expressions.
pub proof fn lemma_output_exprs(plan: PlanView, arena: ArenaView)
    ensures
        output(plan, arena).arena.exprs == arena.exprs,
    decreases plan,
{
    if plan.schema is None {
        lemma_compute_exprs(plan.operator, plan.children, arena);
    }
}

/// Columns are computed without a change to the expressions.
proof fn lemma_compute_exprs(operator: OperatorView, children: ChildrenView, arena: ArenaView)
    ensures
        compute(operator, children, arena).arena.exprs == arena.exprs,
    decreases children,
{
    lemma_made_exprs(arena);
    match children {
        ChildrenView::Leaf => {},
        ChildrenView::Only(child) => {
            lemma_output_exprs(*child, arena);
        },
        ChildrenView::Twins { left, right } => {
            lemma_output_exprs(*left, arena);
            lemma_output_exprs(*right, output(*left, arena).arena);
        },
    }
}

/// New columns come without a change to the expressions.
proof fn lemma_made_exprs(arena: ArenaView)
    ensures
        forall|exprs: Seq<ExprRef>| (#[trigger] columns_for(arena, exprs)).arena.exprs
            == arena.exprs,
        forall|names: Seq<Seq<char>>| (#[trigger] dummies(arena, names)).arena.exprs
            == arena.exprs,
{
    assert forall|exprs: Seq<ExprRef>| (#[trigger] columns_for(arena, exprs)).arena.exprs
        == arena.exprs by {
        lemma_columns_for_exprs(arena, exprs);
    }
    assert forall|names: Seq<Seq<char>>| (#[trigger] dummies(arena, names)).arena.exprs
        == arena.exprs by {
        lemma_dummies_exprs(arena, names);
    }
}

/// The columns of expressions come without a change to the expressions.
proof fn lemma_columns_for_exprs(arena: ArenaView, exprs: Seq<ExprRef>)
    ensures
        columns_for(arena, exprs).arena.exprs == arena.exprs,
    decreases exprs.len(),
{
    if exprs.len() > 0 {
        lemma_columns_for_exprs(arena, exprs.drop_last());
        lemma_column_for_exprs(columns_for(arena, exprs.drop_last()).arena, exprs.last());
    }
}

/// The column of an expression comes without a change to the expressions.
proof fn lemma_column_for_exprs(arena: ArenaView, expr: ExprRef)
    ensures
        column_for(arena, expr).1.exprs == arena.exprs,
    decreases expr.0,
{
    if arena.has_expr(expr) {
        let node = arena.exprs[expr.0 as int];
        if node.head is AliasExpr && node.children.len() == 2 && node.children[1].0 < expr.0 {
            lemma_column_for_exprs(arena, node.children[1]);
        }
    }
}

/// Columns that only have names come without a change to the expressions.
proof fn lemma_dummies_exprs(arena: ArenaView, names: Seq<Seq<char>>)
    ensures
        dummies(arena, names).arena.exprs == arena.exprs,
    decreases names.len(),
{
    if names.len() > 0 {
        lemma_dummies_exprs(arena, names.drop_last());
    }
}

/// A scan delivers the same columns whether it is searched or not, and delivers them without a
/// change to the arena.
proof fn lemma_parameterized_output(
    plan: PlanView,
    keys: Seq<(ExprRef, ExprRef)>,
    arena: ArenaView,
    first: ArenaView,
    second: ArenaView,
)
    ensures
        parameterized(plan, keys, arena) matches Some((res, _)) ==> {
            &&& output(res, second).schema == output(plan, first).schema
            &&& output(plan, first).arena == first
            &&& output(res, second).arena == second
        },
    decreases plan,
{
    if let (OperatorView::Filter(filter), ChildrenView::Only(child)) = (
        plan.operator,
        plan.children,
    ) {
        lemma_parameterized_output(
            *child,
            keys + constant_keys_of(arena.exprs, conjuncts(arena.exprs, filter.predicate)),
            arena,
            first,
            second,
        );
    }
}

/// References to columns deliver these columns.
proof fn lemma_columns_for_refs(arena: ArenaView, exprs: Seq<ExprRef>, columns: Seq<ColumnRef>)
    requires
        exprs.len() == columns.len(),
        forall|i: int|
            0 <= i < exprs.len() ==> arena.has_expr(#[trigger] exprs[i]) && (
            arena.exprs[exprs[i].0 as int].head matches ExprHead::ColumnRef { column, .. }
                && column == columns[i]),
    ensures
        columns_for(arena, exprs).columns == columns,
        columns_for(arena, exprs).arena == arena,
    decreases exprs.len(),
{
    if exprs.len() > 0 {
        assert forall|i: int| 0 <= i < exprs.drop_last().len() implies arena.has_expr(
            #[trigger] exprs.drop_last()[i],
        ) && (arena.exprs[exprs.drop_last()[i].0 as int].head matches ExprHead::ColumnRef {
            column,
            ..
        } && column == columns.drop_last()[i]) by {
            assert(exprs.drop_last()[i] == exprs[i]);
        }
        lemma_columns_for_refs(arena, exprs.drop_last(), columns.drop_last());
        assert(exprs.last() == exprs[exprs.len() - 1]);
        assert(columns.drop_last().push(columns.last()) =~= columns);
    } else {
        assert(columns =~= Seq::empty());
    }
}

/// Moving the columns of an expression touches no later expression.
pub proof fn lemma_shift_below(exprs: Seq<ExprView>, expr: ExprRef, delta: int)
    ensures
        shift_expr(exprs, expr, delta).len() == exprs.len(),
        forall|i: int|
            expr.0 < i < exprs.len() ==> #[trigger] shift_expr(exprs, expr, delta)[i] == exprs[i],
    decreases expr.0, 1nat, 0nat,
{
    if expr.0 < exprs.len() && !(exprs[expr.0 as int].head is ColumnRef) {
        lemma_shift_all_below(exprs, exprs[expr.0 as int].children, expr.0 as nat, delta);
    }
}

/// Moving the columns of a list of expressions touches no expression from the bound on.
proof fn lemma_shift_all_below(
    exprs: Seq<ExprView>,
    list: Seq<ExprRef>,
    bound: nat,
    delta: int,
)
    ensures
        shift_all(exprs, list, bound, delta).len() == exprs.len(),
        forall|i: int|
            bound <= i < exprs.len() ==> #[trigger] shift_all(exprs, list, bound, delta)[i]
                == exprs[i],
    decreases bound, 0nat, list.len(),
{
    if list.len() > 0 {
        lemma_shift_all_below(exprs, list.drop_last(), bound, delta);
        if list.last().0 < bound {
            lemma_shift_below(
                shift_all(exprs, list.drop_last(), bound, delta),
                list.last(),
                delta,
            );
        }
    }
}

/// The equalities of keys touch no expression behind those of the keys.
proof fn lemma_key_predicates_behind(
    exprs: Seq<ExprView>,
    keys: Seq<(ExprRef, ExprRef)>,
    left_len: nat,
    bound: int,
)
    requires
        forall|i: int| 0 <= i < keys.len() ==> (#[trigger] keys[i]).1.0 < bound,
    ensures
        key_predicates(exprs, keys, left_len).0.len() >= exprs.len(),
        forall|i: int|
            bound <= i < exprs.len() ==> #[trigger] key_predicates(exprs, keys, left_len).0[i]
                == exprs[i],
    decreases keys.len(),
{
    if keys.len() > 0 {
        assert forall|i: int| 0 <= i < keys.drop_last().len() implies (
        #[trigger] keys.drop_last()[i]).1.0 < bound by {
            assert(keys.drop_last()[i] == keys[i]);
        }
        assert(keys.last() == keys[keys.len() - 1]);
        lemma_key_predicates_behind(exprs, keys.drop_last(), left_len, bound);
        lemma_shift_below(
            key_predicates(exprs, keys.drop_last(), left_len).0,
            keys.last().1,
            left_len as int,
        );
    }
}

/// A filter on top delivers the columns below it.
proof fn lemma_filtered_output(search: JoinSearch, filter: Option<ExprRef>)
    ensures
        ({
            let (bare, arena) = searched_join(search, None);
            let (whole, same) = searched_join(search, filter);
            &&& same == arena
            &&& output(whole, arena).schema == output(bare, arena).schema
        }),
{
    let (bare, arena) = searched_join(search, None);
    if let Some(predicate) = filter {
        let whole = searched_join(search, filter).0;
        assert(whole.schema is None);
        assert(*whole.children->Only_0 == bare);
        assert(output(bare, arena).schema + Seq::<ColumnRef>::empty() =~= output(
            bare,
            arena,
        ).schema);
    }
}

/// The expressions that restore the order of swapped inputs are still there after the join was
/// replaced.
proof fn lemma_reorder_stays(
    left: PlanView,
    right: PlanView,
    on: Seq<(ExprRef, ExprRef)>,
    arena: ArenaView,
    filter: Option<ExprRef>,
    i: int,
)
    requires
        forall|i: int|
            0 <= i < on.len() ==> arena.has_expr((#[trigger] on[i]).0) && arena.has_expr(on[i].1),
        parameterized(right, on, arena) is None,
        join_search(left, right, on, arena) is Some,
        searched_join(join_search(left, right, on, arena)->0, filter).1.exprs.len() <= usize::MAX,
        0 <= i < output(left, arena).schema.len() + output(right, arena).schema.len(),
    ensures
        ({
            let search = join_search(left, right, on, arena)->0;
            let after = searched_join(search, filter).1;
            let refs = search.reorder->0;
            let first = output(left, arena).schema;
            let second = output(right, arena).schema;
            &&& output(left, arena).arena == arena
            &&& refs.len() == first.len() + second.len()
            &&& refs.len() <= usize::MAX
            &&& after.has_expr(refs[i])
            &&& after.exprs[refs[i].0 as int] == reorder_exprs(first, second)[i]
        }),
{
    let search = join_search(left, right, on, arena)->0;
    let inner = (parameterized(left, swapped(on), arena)->0).0;
    lemma_parameterized_output(left, swapped(on), arena, arena, arena);
    lemma_output_exprs(right, arena);
    let second = output(right, arena);
    assert(second == output(right, output(inner, arena).arena));
    let exprs = reorder_exprs(output(left, arena).schema, second.schema);
    let start = arena.exprs.len();
    assert(search.arena.exprs == arena.exprs + exprs);
    assert(output(search.outer, search.arena).arena == search.arena);
    let with_probe = if search.probe.len() == 1 {
        search.arena.exprs
    } else {
        search.arena.exprs.push(ExprView { head: ExprHead::Tuple, children: search.probe })
    };
    assert forall|j: int| 0 <= j < search.keys.len() implies (#[trigger] search.keys[j]).1.0
        < start by {
        assert(search.keys[j] == (on[j].1, on[j].0));
    }
    let len = output(search.outer, search.arena).schema.len();
    lemma_key_predicates_behind(with_probe, search.keys, len, start as int);
    assert(key_predicates(with_probe, search.keys, len).0[start + i] == with_probe[start + i]);
    assert(with_probe[start + i] == exprs[i]);
    assert(search.reorder->0 == refs_from(start, exprs.len()));
    assert(search.reorder->0[i] == ExprRef((start + i) as usize));
}

/// A join that searches one of its inputs delivers what it delivered before: the same columns in
/// the same slots, whichever input drives the search.
pub proof fn searched_join_keeps_columns(
    before: Stage,
    after: Stage,
    res: Result<bool, DatabaseError>,
)
    requires
        before.plan.valid(before.arena),
        remembers_columns(before.plan, before.arena),
        after.arena.exprs.len() <= usize::MAX,
        searches_input(before, after, res),
    ensures
        res == Ok::<bool, DatabaseError>(false) ==> after == before,
        output(after.plan, after.arena).schema == output(before.plan, before.arena).schema,
{
    if let Some((on, filter)) = join_keys(before.plan) {
        let left = *before.plan.children->left;
        let right = *before.plan.children->right;
        let arena = before.arena;
        if let Some(search) = join_search(left, right, on, arena) {
            let (bare, made) = searched_join(search, None);
            lemma_filtered_output(search, filter);
            let first = output(left, arena);
            let second = output(right, first.arena);
            assert(output(before.plan, arena).schema == first.schema + second.schema);
            if parameterized(right, on, arena) is Some {
                lemma_parameterized_output(right, on, arena, first.arena, made);
                assert(output(*bare.children->left, made).schema == first.schema);
                assert(output(*bare.children->left, made).arena == made);
                assert(output(bare, made).schema == first.schema + second.schema);
            } else {
                lemma_parameterized_output(left, swapped(on), arena, arena, arena);
                let refs = search.reorder->0;
                let columns = first.schema + second.schema;
                assert(refs.len() == columns.len());
                assert forall|i: int| 0 <= i < refs.len() implies made.has_expr(
                    #[trigger] refs[i],
                ) && (made.exprs[refs[i].0 as int].head matches ExprHead::ColumnRef { column, .. }
                    && column == columns[i]) by {
                    lemma_reorder_stays(left, right, on, arena, filter, i);
                }
                lemma_columns_for_refs(made, refs, columns);
            }
        }
    }
}

/// Where the left input of a join is the one that is searched, each slot of the result reads the
/// slot of the swapped inputs in which its column stands.
pub proof fn searched_join_reads_its_slots(
    before: Stage,
    after: Stage,
    res: Result<bool, DatabaseError>,
    i: int,
)
    requires
        before.plan.valid(before.arena),
        remembers_columns(before.plan, before.arena),
        after.arena.exprs.len() <= usize::MAX,
        searches_input(before, after, res),
        join_keys(before.plan) matches Some((on, _)) && parameterized(
            *before.plan.children->right,
            on,
            before.arena,
        ) is None,
        res == Ok::<bool, DatabaseError>(true),
        0 <= i < output(before.plan, before.arena).schema.len(),
    ensures
        ({
            let project = if after.plan.operator is Filter {
                *after.plan.children->Only_0
            } else {
                after.plan
            };
            let expr = after.arena.exprs[project.operator->Project_0[i].0 as int];
            let row = output(*project.children->Only_0, after.arena).schema;
            &&& project.operator is Project
            &&& expr.head matches ExprHead::ColumnRef { column, position } && position < row.len()
                && row[position as int] == column && column == output(
                before.plan,
                before.arena,
            ).schema[i]
        }),
{
    let (on, filter) = join_keys(before.plan)->0;
    let left = *before.plan.children->left;
    let right = *before.plan.children->right;
    let arena = before.arena;
    let search = join_search(left, right, on, arena)->0;
    let made = after.arena;
    let first = output(left, arena);
    let second = output(right, arena);
    lemma_parameterized_output(left, swapped(on), arena, arena, arena);
    lemma_parameterized_output(left, swapped(on), arena, arena, made);
    assert(output(before.plan, arena).schema == first.schema + second.schema);
    lemma_reorder_stays(left, right, on, arena, filter, i);
    reorder_restores_slots(first.schema, second.schema, i);
    let project = if after.plan.operator is Filter {
        *after.plan.children->Only_0
    } else {
        after.plan
    };
    let apply = *project.children->Only_0;
    assert(search.inner == output((parameterized(left, swapped(on), arena)->0).0, arena).plan);
    assert(output(*apply.children->left, made).schema == second.schema);
    assert(output(*apply.children->left, made).arena == made);
    assert(output(*apply.children->right, made).schema == first.schema);
    assert(output(apply, made).schema == second.schema + first.schema);
}

} // verus!
