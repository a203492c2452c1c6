//! Queries and the rows that they are about: where columns stand, what is joined on which side, and
//! in which order the steps of a query follow.

use crate::binder::condition_laws::{keys_equal, split_condition_is_implied};
use crate::binder::expr::{cast_expr, constant_view};
use crate::binder::plan::{attached, attached_one, over};
use crate::binder::{
    column_view, find_column, find_source, lemma_column_name, resolve, width, Resolved, SourceView,
    SubQueryView,
};
use crate::catalog::ColumnRef;
use crate::errors::DatabaseError;
use crate::expression::analysis::type_of;
use crate::expression::conjunction::conjuncts;
use crate::expression::identity::holds_alike;
use crate::expression::identity_laws::every_expression_is_kept_once;
use crate::expression::meaning::{
    by_position, conjoins, equates, lemma_value_extend, lemma_values_of, met, met_if_any, value_of,
    values_of, Meaning, Reader,
};
use crate::expression::{AggKind, BinaryOperator, ExprHead, ExprView, UnaryOperator};
use crate::orm::access::tests_value;
use crate::orm::context::{exists_bound, read_row, scalar_bound, set_bound, SetOperatorKind};
use crate::orm::insert_laws::lemma_found_within;
use crate::orm::join::{joined_on, row_columns, shared, shared_one, using_pairs};
use crate::orm::query::{
    aggregates, aggregates_of, computed, counting, distinct_plan, expr_bound, finished, found_columns,
    grouped_plan, having_plan, relation_of, settled, FromState, ListState, Outcome,
};
use crate::orm::scope::{
    alloc_view, binary_bound, column_bound, CtxExpression, IntoOrmExpression, OrmView, ScopeView,
};
use crate::orm::scope_laws::{computes, given_value, operation_is_on_both_operands};
use crate::orm::update::{assigned, UpdateState};
use crate::planner::arena::{ArenaView, ExprRef};
use crate::planner::operator::join::{JoinConditionView, JoinType};
use crate::planner::operator::sort::SortField;
use crate::planner::operator::OperatorView;
use crate::planner::schema::output;
use crate::planner::{ChildrenView, PlanView};
use crate::types::value::{DataValue, DataValueView};
use crate::types::LogicalTypeView;
use vstd::prelude::*;

verus! {

/// The columns of a source stand side by side, behind those of the sources before it.
pub proof fn columns_of_a_source_stand_together(sources: Seq<SourceView>, i: int, j: int)
    requires
        0 <= i < sources.len(),
        0 <= j < sources[i].columns.len(),
    ensures
        0 <= width(sources, i),
        width(sources, i) + j < row_columns(sources).len(),
        row_columns(sources)[width(sources, i) + j] == sources[i].columns[j],
    decreases sources.len(),
{
    let front = sources.drop_last();
    lemma_row_width(front);
    lemma_width_same(front, sources, i);
    if i < front.len() {
        assert(front[i] == sources[i]);
        columns_of_a_source_stand_together(front, i, j);
    } else {
        assert(width(front, i) == row_columns(front).len());
    }
}

pub proof fn lemma_row_width(sources: Seq<SourceView>)
    ensures
        row_columns(sources).len() == width(sources, sources.len() as int),
    decreases sources.len(),
{
    if sources.len() > 0 {
        lemma_row_width(sources.drop_last());
        lemma_width_same(sources.drop_last(), sources, sources.len() - 1);
    }
}

proof fn lemma_width_same(front: Seq<SourceView>, all: Seq<SourceView>, count: int)
    requires
        front.is_prefix_of(all),
        count <= front.len(),
    ensures
        width(front, count) == width(all, count),
    decreases count,
{
    if count > 0 {
        lemma_width_same(front, all, count - 1);
        assert(front[count - 1] == all[count - 1]);
    }
}

proof fn lemma_source_found(sources: Seq<SourceView>, name: Seq<char>, from: int)
    ensures
        find_source(sources, name, from) matches Some(i) ==> from <= i < sources.len()
            && sources[i].visible() == name,
    decreases sources.len() - from,
{
    if 0 <= from < sources.len() && sources[from].visible() != name {
        lemma_source_found(sources, name, from + 1);
    }
}

/// A name stands for a column of a source of that name, and the row holds the column at the position
/// that is read.
pub proof fn named_column_is_read_at_its_place(
    sources: Seq<SourceView>,
    arena: ArenaView,
    relation: Seq<char>,
    name: Seq<char>,
)
    requires
        row_columns(sources).len() <= usize::MAX,
    ensures
        resolve(sources, arena, relation, name) matches Resolved::Found { column, position } ==> {
            &&& position < row_columns(sources).len()
            &&& row_columns(sources)[position as int] == column
            &&& arena.columns[column.0 as int].name == name
            &&& exists|i: int|
                0 <= i < sources.len() && (#[trigger] sources[i]).visible() == relation
                    && sources[i].columns.contains(column)
        },
{
    lemma_source_found(sources, relation, 0);
    if let Some(i) = find_source(sources, relation, 0) {
        lemma_found_within(arena, sources[i].columns, name, 0);
        lemma_column_name(arena, sources[i].columns, name, 0);
        if let Some(j) = find_column(arena, sources[i].columns, name, 0) {
            columns_of_a_source_stand_together(sources, i, j);
            assert(sources[i].columns.contains(sources[i].columns[j]));
        }
    }
}

/// Whether the expression reads the column at the position.
pub open spec fn reads_at(arena: ArenaView, expr: ExprRef, column: ColumnRef, position: int) -> bool {
    &&& expr.0 < arena.exprs.len()
    &&& arena.exprs[expr.0 as int].head matches ExprHead::ColumnRef { column: own, position: at }
        && own == column && at == position
}

/// Whether the expression reads the column of the name from rows with the columns.
pub open spec fn reads_named(
    arena: ArenaView,
    expr: ExprRef,
    columns: Seq<ColumnRef>,
    name: Seq<char>,
) -> bool {
    &&& expr.0 < arena.exprs.len()
    &&& arena.exprs[expr.0 as int].head matches ExprHead::ColumnRef { column, position } && position
        < columns.len() && columns[position as int] == column && arena.columns[column.0 as int].name
        == name
}

/// A join by names compares, for each name, the column of the left row with that of the right row,
/// each read from its own row.
pub proof fn joined_names_are_compared(
    arena: ArenaView,
    left: Seq<ColumnRef>,
    right: Seq<ColumnRef>,
    names: Seq<Seq<char>>,
    i: int,
)
    requires
        shared(arena, left, right, names),
        arena.exprs.len() + 2 * names.len() < usize::MAX,
        left.len() <= usize::MAX,
        right.len() <= usize::MAX,
        0 <= i < names.len(),
    ensures
        ({
            let (pairs, after) = using_pairs(arena, left, right, names);
            &&& pairs.len() == names.len()
            &&& reads_named(after, pairs[i].0, left, names[i])
            &&& reads_named(after, pairs[i].1, right, names[i])
        }),
    decreases names.len(),
{
    let front = names.drop_last();
    let (pairs, after) = using_pairs(arena, left, right, names);
    let (front_pairs, before) = using_pairs(arena, left, right, front);
    lemma_using_grows(arena, left, right, front);
    if i < front.len() {
        assert(shared(arena, left, right, front)) by {
            assert forall|k: int| 0 <= k < front.len() implies shared_one(
                arena,
                left,
                right,
                #[trigger] front[k],
            ) by {
                assert(front[k] == names[k]);
            }
        }
        joined_names_are_compared(arena, left, right, front, i);
        assert(front[i] == names[i]);
        assert(pairs[i] == front_pairs[i]);
    } else {
        let name = names.last();
        assert(shared_one(arena, left, right, names[i]));
        lemma_found_within(arena, left, name, 0);
        lemma_found_within(arena, right, name, 0);
        lemma_column_name(arena, left, name, 0);
        lemma_column_name(arena, right, name, 0);
        let l = find_column(arena, left, name, 0)->0;
        let r = find_column(arena, right, name, 0)->0;
        assert(after.exprs[pairs[i].0.0 as int] == column_view(left[l], l as usize));
        assert(after.exprs[pairs[i].1.0 as int] == column_view(right[r], r as usize));
    }
}

proof fn lemma_using_grows(
    arena: ArenaView,
    left: Seq<ColumnRef>,
    right: Seq<ColumnRef>,
    names: Seq<Seq<char>>,
)
    requires
        arena.exprs.len() + 2 * names.len() < usize::MAX,
    ensures
        ({
            let (pairs, after) = using_pairs(arena, left, right, names);
            &&& pairs.len() == names.len()
            &&& after.exprs.len() == arena.exprs.len() + 2 * names.len()
            &&& after.columns == arena.columns
        }),
    decreases names.len(),
{
    if names.len() > 0 {
        lemma_using_grows(arena, left, right, names.drop_last());
    }
}

/// A join has what was joined before as its left input and the further table as its right one, and
/// is of the given kind. Where the condition holds on two rows side by side, its keys have the same
/// values on both rows and its filter holds.
pub proof fn joined_table_is_on_the_right(
    meaning: Meaning,
    from: FromState,
    right: (PlanView, Seq<ColumnRef>),
    join_type: JoinType,
    mid: ScopeView,
    given: Result<OrmView, DatabaseError>,
    left_row: Seq<DataValueView>,
    right_row: Seq<DataValueView>,
)
    requires
        conjoins(meaning),
        equates(meaning),
        expr_bound(mid, given) matches Outcome::Done((expr, scope)) ==> {
            let left = row_columns(from.scope.binder.sources);
            &&& scope.arena.wf()
            &&& scope.arena.has_expr(expr)
            &&& scope.arena.exprs.len() + 2 * conjuncts(scope.arena.exprs, expr).len() < usize::MAX
            &&& left.len() + right.1.len() <= usize::MAX
            &&& left_row.len() == left.len()
            &&& right_row.len() == right.1.len()
        },
    ensures
        match (joined_on(from, right, join_type, mid, given), expr_bound(mid, given)) {
            (Outcome::Done(state), Outcome::Done((expr, scope))) => {
                &&& state.plan.children matches ChildrenView::Twins { left: l, right: r } && *l
                    == from.plan && *r == right.0
                &&& state.plan.operator matches OperatorView::Join(join) && join.join_type
                    == join_type && join.force_nested_loop == scope.binder.force_nested_loop && (
                join.on matches JoinConditionView::On { on, filter } && (met(
                    meaning,
                    scope.arena.exprs,
                    expr,
                    by_position(left_row + right_row),
                ) ==> keys_equal(meaning, state.scope.arena, on, left_row, right_row) && met_if_any(
                    meaning,
                    state.scope.arena.exprs,
                    filter,
                    by_position(left_row + right_row),
                )))
                &&& state.scope.binder == scope.binder
            },
            (Outcome::Failed(err, scope), Outcome::Failed(e, s)) => err == e && scope == s,
            _ => false,
        },
{
    if let Outcome::Done((expr, scope)) = expr_bound(mid, given) {
        if met(meaning, scope.arena.exprs, expr, by_position(left_row + right_row)) {
            split_condition_is_implied(
                meaning,
                scope.arena,
                row_columns(from.scope.binder.sources),
                right.1,
                expr,
                left_row,
                right_row,
            );
        }
    }
}

/// Each value of a row is read from its own place.
pub proof fn row_is_read_in_order(
    meaning: Meaning,
    arena: ArenaView,
    row: Seq<ColumnRef>,
    values: Seq<DataValueView>,
    i: int,
)
    requires
        arena.exprs.len() + row.len() < usize::MAX,
        0 <= i < row.len(),
    ensures
        ({
            let (exprs, after) = read_row(arena, row);
            &&& exprs.len() == row.len()
            &&& reads_at(after, exprs[i], row[i], i)
            &&& value_of(meaning, after.exprs, exprs[i], by_position(values)) == values[i]
            &&& after.exprs.len() == arena.exprs.len() + row.len()
        }),
    decreases row.len(),
{
    let front = row.drop_last();
    if front.len() > 0 {
        row_is_read_in_order(
            meaning,
            arena,
            front,
            values,
            if i < front.len() {
                i
            } else {
                0
            },
        );
    } else {
        assert(read_row(arena, front) == (Seq::<ExprRef>::empty(), arena));
    }
}

/// A set operation is on the left and the right rows as given, of the given kind, and has the columns
/// of both. Unless all rows are wanted, rows that are the same in every column become one.
pub proof fn set_operation_is_on_both_queries(
    scope: ScopeView,
    kind: SetOperatorKind,
    all: bool,
    left: PlanView,
    right: PlanView,
    after: ScopeView,
    plan: PlanView,
    i: int,
)
    requires
        set_bound(scope, kind, all, left, right, after, Ok(plan)),
        scope.binder.pending.len() == 0,
        ({
            let l = output(left, scope.arena);
            let r = output(right, l.arena);
            &&& 0 <= i < l.schema.len()
            &&& r.arena.exprs.len() + l.schema.len() < usize::MAX
        }),
    ensures
        ({
            let l = output(left, scope.arena);
            let r = output(right, l.arena);
            let set = if all {
                plan
            } else {
                *plan.children->Only_0
            };
            &&& l.schema.len() == r.schema.len()
            &&& set.children matches ChildrenView::Twins { left: first, right: second } && *first
                == l.plan && *second == r.plan
            &&& match set.operator {
                OperatorView::Union(first, second) => kind is Union && first == l.schema && second
                    == r.schema,
                OperatorView::SetMembership(member, first, second) => first == l.schema && second
                    == r.schema && (kind is Except <==> member is Except) && (kind is Intersect
                    <==> member is Intersect),
                _ => false,
            }
            &&& !all ==> {
                &&& plan.children is Only
                &&& plan.operator matches OperatorView::Aggregate(op) && op.is_distinct
                    && op.agg_calls.len() == 0 && op.groupby_exprs.len() == l.schema.len()
                    && reads_at(after.arena, op.groupby_exprs[i], l.schema[i], i)
            }
        }),
{
    let l = output(left, scope.arena);
    let r = output(right, l.arena);
    let none: Seq<DataValueView> = Seq::empty();
    let any: Meaning = arbitrary();
    row_is_read_in_order(any, r.arena, l.schema, none, i);
}

/// Whether the query inside, if one value of it is read, is known to have just that value.
pub open spec fn has_its_column(sub: SubQueryView) -> bool {
    sub.kind is Scalar ==> sub.plan.schema == Some(seq![sub.column])
}

/// The columns of the subqueries.
pub open spec fn sub_columns(pending: Seq<SubQueryView>) -> Seq<ColumnRef> {
    pending.map_values(|sub: SubQueryView| sub.column)
}

/// What subqueries add to a row stands behind the row, in the order of the subqueries.
pub proof fn joined_subqueries_stand_behind_the_row(
    plan: PlanView,
    pending: Seq<SubQueryView>,
    arena: ArenaView,
)
    requires
        forall|i: int| 0 <= i < pending.len() ==> has_its_column(#[trigger] pending[i]),
    ensures
        output(attached(plan, pending), arena).schema == output(plan, arena).schema + sub_columns(
            pending,
        ),
    decreases pending.len(),
{
    let own = output(plan, arena).schema;
    if pending.len() > 0 {
        let front = pending.drop_last();
        let sub = pending.last();
        assert forall|i: int| 0 <= i < front.len() implies has_its_column(#[trigger] front[i]) by {
            assert(front[i] == pending[i]);
        }
        joined_subqueries_stand_behind_the_row(plan, front, arena);
        assert(has_its_column(pending[pending.len() - 1]));
        let inner = attached(plan, front);
        let before = output(inner, arena).schema;
        assert(sub_columns(pending) =~= sub_columns(front).push(sub.column));
        let whole = attached_one(inner, sub);
        if sub.kind is Scalar {
            let right = *whole.children->right;
            let first = output(inner, arena);
            assert(output(sub.plan, first.arena).schema == seq![sub.column]);
            assert(output(right, first.arena).schema =~= seq![sub.column]);
            assert(output(whole, arena).schema == before + output(right, first.arena).schema);
        } else {
            assert(output(whole, arena).schema =~= before.push(sub.column));
        }
        assert(output(whole, arena).schema =~= own + sub_columns(pending));
    } else {
        assert(own + sub_columns(pending) =~= own);
    }
}

/// The only value of a query is read where the query puts it: behind the row and the values of the
/// subqueries before it.
pub proof fn scalar_is_read_where_it_stands(
    scope: ScopeView,
    plan: PlanView,
    after: ScopeView,
    expr: CtxExpression,
)
    requires
        scalar_bound(scope, plan, after, Ok(expr)),
        output(plan, scope.arena).arena.exprs.len() < usize::MAX,
        width(scope.binder.sources, scope.binder.sources.len() as int)
            + scope.binder.pending.len() <= usize::MAX,
    ensures
        ({
            let pending = after.binder.pending;
            let at = scope.binder.pending.len() as int;
            &&& pending.len() == at + 1
            &&& scope.binder.pending.is_prefix_of(pending)
            &&& has_its_column(pending[at]) && pending[at].kind is Scalar
            &&& pending[at].plan == output(plan, scope.arena).plan
            &&& reads_at(
                after.arena,
                expr.expr,
                pending[at].column,
                row_columns(scope.binder.sources).len() + at,
            )
            &&& after.binder.sources == scope.binder.sources
        }),
{
    lemma_row_width(scope.binder.sources);
    assert(output(plan, scope.arena).schema =~= seq![output(plan, scope.arena).schema[0]]);
}

/// Whether a query has rows is read where the query puts its mark, as it is or as its opposite.
pub proof fn mark_is_read_where_it_stands(
    scope: ScopeView,
    plan: PlanView,
    negated: bool,
)
    requires
        scope.arena.exprs.len() + 1 < usize::MAX,
        scope.arena.columns.len() < usize::MAX,
        width(scope.binder.sources, scope.binder.sources.len() as int)
            + scope.binder.pending.len() <= usize::MAX,
    ensures
        ({
            let (expr, after) = exists_bound(scope, plan, negated);
            let pending = after.binder.pending;
            let at = scope.binder.pending.len() as int;
            let node = after.arena.exprs[expr.expr.0 as int];
            let mark = if negated {
                node.children[0]
            } else {
                expr.expr
            };
            &&& negated ==> (node.head matches ExprHead::Unary { op, .. } && op
                == UnaryOperator::Not) && node.children.len() == 1
            &&& pending.len() == at + 1
            &&& scope.binder.pending.is_prefix_of(pending)
            &&& pending[at].kind is Exists && pending[at].plan == plan
            &&& reads_at(
                after.arena,
                mark,
                pending[at].column,
                row_columns(scope.binder.sources).len() + at,
            )
            &&& pending[at].column.0 >= scope.arena.columns.len()
        }),
{
    lemma_row_width(scope.binder.sources);
    let (expr, after) = exists_bound(scope, plan, negated);
}

/// Each name of a list is read from the column of that name.
pub proof fn fields_are_read_from_their_columns(
    scope: ScopeView,
    relation: Seq<char>,
    names: Seq<Seq<char>>,
    i: int,
)
    requires
        found_columns(scope, relation, names) is Some,
        scope.arena.exprs.len() + names.len() < usize::MAX,
        row_columns(scope.binder.sources).len() <= usize::MAX,
        row_columns(scope.binder.outer).len() <= usize::MAX,
        0 <= i < names.len(),
    ensures
        ({
            let (exprs, after) = found_columns(scope, relation, names)->0;
            &&& exprs.len() == names.len()
            &&& after.binder.sources == scope.binder.sources
            &&& after.binder.outer == scope.binder.outer
            &&& after.arena.columns == scope.arena.columns
            &&& after.arena.exprs.len() == scope.arena.exprs.len() + names.len()
            &&& reads_named(after.arena, exprs[i], row_columns(scope.binder.sources), names[i])
                || reads_named(after.arena, exprs[i], row_columns(scope.binder.outer), names[i])
        }),
    decreases names.len(),
{
    let front = names.drop_last();
    let (exprs, after) = found_columns(scope, relation, names)->0;
    let (front_exprs, middle) = found_columns(scope, relation, front)->0;
    if front.len() > 0 {
        fields_are_read_from_their_columns(
            scope,
            relation,
            front,
            if i < front.len() {
                i
            } else {
                0
            },
        );
    } else {
        assert(found_columns(scope, relation, front) == Some((Seq::<ExprRef>::empty(), scope)));
    }
    named_column_is_read_at_its_place(middle.binder.sources, middle.arena, relation, names.last());
    named_column_is_read_at_its_place(middle.binder.outer, middle.arena, relation, names.last());
    if i < front.len() {
        assert(front[i] == names[i]);
        assert(exprs[i] == front_exprs[i]);
        assert(after.arena.exprs[exprs[i].0 as int] == middle.arena.exprs[exprs[i].0 as int]);
    } else {
        assert(exprs[i].0 == middle.arena.exprs.len());
    }
}

/// Whether a value is that of an expression as one of a type: as it is, cast at once, or cast for
/// each row.
pub open spec fn value_as(
    meaning: Meaning,
    arena: ArenaView,
    expr: ExprRef,
    ty: LogicalTypeView,
    row: Reader,
    value: DataValueView,
) -> bool {
    let own = value_of(meaning, arena.exprs, expr, row);
    if type_of(arena, expr) == ty {
        value == own
    } else if arena.exprs[expr.0 as int].head is Constant {
        DataValue::cast_view(own, ty) == Some(value)
    } else {
        value == meaning(ExprHead::TypeCast(ty), seq![own])
    }
}

/// A cast expression has the value of the expression as one of the type.
pub proof fn cast_expression_has_the_value_as_the_type(
    meaning: Meaning,
    arena: ArenaView,
    expr: ExprRef,
    ty: LogicalTypeView,
    row: Reader,
)
    requires
        arena.has_expr(expr),
        arena.exprs.len() < usize::MAX,
        cast_expr(arena, expr, ty) is Some,
    ensures
        ({
            let (cast, after) = cast_expr(arena, expr, ty)->0;
            &&& value_as(
                meaning,
                arena,
                expr,
                ty,
                row,
                value_of(meaning, after.exprs, cast, row),
            )
            &&& arena.exprs.is_prefix_of(after.exprs)
            &&& cast.0 < after.exprs.len()
        }),
{
    let (cast, after) = cast_expr(arena, expr, ty)->0;
    let node = after.exprs[cast.0 as int];
    if type_of(arena, expr) != ty && !(arena.exprs[expr.0 as int].head is Constant) {
        assert(arena.exprs.is_prefix_of(after.exprs));
        lemma_value_extend(meaning, arena.exprs, after.exprs, expr, row);
        lemma_values_of(meaning, after.exprs, node.children, cast.0 as nat, row);
        let values = values_of(meaning, after.exprs, node.children, cast.0 as nat, row);
        assert(values =~= seq![value_of(meaning, arena.exprs, expr, row)]);
    }
}

/// An assignment adds one value to those before, for the column of the name: what is given, or the
/// default of the column where nothing is given, as a value of the type of the column.
pub proof fn assigned_value_is_for_the_named_column(
    meaning: Meaning,
    before: UpdateState,
    name: Seq<char>,
    expr: ExprRef,
    after: UpdateState,
    row: Reader,
)
    requires
        assigned(before, name, expr, after, Ok(())),
        before.scope.arena.has_expr(expr),
        before.scope.arena.exprs.len() + 1 < usize::MAX,
        row_columns(before.scope.binder.sources).len() <= usize::MAX,
        row_columns(before.scope.binder.outer).len() <= usize::MAX,
    ensures
        ({
            let arena = before.scope.arena;
            let (column, value) = after.values.last();
            let catalog = arena.columns[column.0 as int];
            let given = catalog.default->0;
            let stored = value_of(meaning, after.scope.arena.exprs, value, row);
            &&& after.values.len() == before.values.len() + 1
            &&& before.values.is_prefix_of(after.values)
            &&& after.source == before.source
            &&& catalog.name == name
            &&& if arena.exprs[expr.0 as int].head is Empty {
                &&& catalog.default is Some
                &&& arena.exprs[given.0 as int].head matches ExprHead::Constant(
                    default,
                ) && (stored == default || DataValue::cast_view(default, catalog.ty) == Some(
                    stored,
                ))
            } else {
                value_as(meaning, arena, expr, catalog.ty, row, stored)
            }
        }),
{
    let arena = before.scope.arena;
    named_column_is_read_at_its_place(before.scope.binder.sources, arena, before.source, name);
    named_column_is_read_at_its_place(before.scope.binder.outer, arena, before.source, name);
    let column = after.values.last().0;
    let ty = arena.columns[column.0 as int].ty;
    if arena.exprs[expr.0 as int].head is Empty {
        let default = arena.columns[column.0 as int].default->0;
        let node = arena.exprs[default.0 as int];
        let next = arena.push_expr(
            ExprView { head: node.head, children: Seq::empty() },
        );
        let own = ExprRef(arena.exprs.len() as usize);
        assert(next.exprs[own.0 as int].head == node.head);
        cast_expression_has_the_value_as_the_type(meaning, next, own, ty, row);
        assert(value_of(meaning, next.exprs, own, row) == node.head->Constant_0);
    } else {
        cast_expression_has_the_value_as_the_type(meaning, arena, expr, ty, row);
    }
}

/// The operators of a plan from the top down along its left inputs, without those that join
/// subqueries to the rows.
pub open spec fn steps(plan: PlanView) -> Seq<OperatorView>
    decreases plan,
{
    let below = match plan.children {
        ChildrenView::Leaf => Seq::empty(),
        ChildrenView::Only(child) => steps(*child),
        ChildrenView::Twins { left, .. } => steps(*left),
    };
    if plan.operator is MarkApply || (plan.operator matches OperatorView::Plain(plain)
        && plain is ScalarApply) {
        below
    } else {
        seq![plan.operator] + below
    }
}

proof fn lemma_attached_steps(plan: PlanView, pending: Seq<SubQueryView>)
    ensures
        steps(attached(plan, pending)) == steps(plan),
    decreases pending.len(),
{
    if pending.len() > 0 {
        lemma_attached_steps(plan, pending.drop_last());
    }
}

proof fn lemma_having_steps(plan: PlanView, scope: ScopeView, having: Seq<ExprRef>)
    ensures
        ({
            let after = steps(having_plan(plan, scope, having).0);
            &&& after.len() == steps(plan).len() + having.len()
            &&& forall|k: int|
                0 <= k < having.len() ==> (#[trigger] after[having.len() - 1 - k] matches
                    OperatorView::Filter(filter) && filter.predicate == having[k] && filter.having)
            &&& after.skip(having.len() as int) == steps(plan)
        }),
    decreases having.len(),
{
    let after = steps(having_plan(plan, scope, having).0);
    if having.len() > 0 {
        let front = having.drop_last();
        lemma_having_steps(plan, scope, front);
        let (inner, last) = having_plan(plan, scope, front);
        lemma_attached_steps(inner, last.binder.pending);
        let before = steps(inner);
        assert(after.skip(1) =~= before);
        assert(after.len() == before.len() + 1);
        assert forall|k: int| 0 <= k < having.len() implies (#[trigger] after[having.len() - 1
            - k] matches OperatorView::Filter(filter) && filter.predicate == having[k]
            && filter.having) by {
            if k < front.len() {
                assert(after[having.len() - 1 - k] == before[front.len() - 1 - k]);
            }
        }
        assert(after.skip(having.len() as int) =~= before.skip(front.len() as int));
    } else {
        assert(after.skip(0) =~= steps(plan));
    }
}

/// The steps of a query: what is read comes last, before it the order, before that the removal of
/// repeated rows, before that the conditions on the groups in their order, before that the groups,
/// and first of all the rows that the query is about.
pub proof fn query_takes_its_steps_in_order(list: ListState)
    ensures
        ({
            let all = steps(finished(list).0);
            let base = steps(list.plan);
            let count = all.len() - base.len();
            let sorts: int = if list.sort.len() > 0 {
                1
            } else {
                0
            };
            let distincts: int = if list.distinct {
                1
            } else {
                0
            };
            let first = 1 + sorts + distincts;
            &&& all.skip(count) == base
            &&& all[0] == OperatorView::Project(list.select)
            &&& sorts == 1 ==> all[1] == OperatorView::Sort(list.sort)
            &&& distincts == 1 ==> (all[1 + sorts] matches OperatorView::Aggregate(op)
                && op.groupby_exprs == list.select && op.agg_calls.len() == 0 && op.is_distinct)
            &&& forall|k: int|
                0 <= k < list.having.len() ==> (#[trigger] all[first + list.having.len() - 1 - k]
                    matches OperatorView::Filter(filter) && filter.predicate == list.having[k])
            &&& count == first + list.having.len() || (count == first + list.having.len() + 1 && (
            all[first + list.having.len()] matches OperatorView::Aggregate(op) && op.groupby_exprs
                == list.group && !op.is_distinct))
            &&& list.group.len() > 0 ==> count == first + list.having.len() + 1
        }),
{
    let (one, after_group) = grouped_plan(list);
    let (two, after_having) = having_plan(one, after_group, list.having);
    let (three, after_distinct) = distinct_plan(list, two, after_having);
    let all = steps(finished(list).0);
    let base = steps(list.plan);
    lemma_attached_steps(list.plan, list.scope.binder.pending);
    let grouped = steps(one);
    let g: int = grouped.len() - base.len();
    assert(grouped.skip(g) =~= base);
    lemma_having_steps(one, after_group, list.having);
    let filtered = steps(two);
    lemma_attached_steps(two, after_having.binder.pending);
    let unique = steps(three);
    let d: int = unique.len() - filtered.len();
    assert(unique.skip(d) =~= filtered);
    lemma_attached_steps(three, after_distinct.binder.pending);
    let (four, after_sort) = if list.sort.len() > 0 {
        (
            over(
                OperatorView::Sort(list.sort),
                attached(three, after_distinct.binder.pending),
            ),
            settled(after_distinct),
        )
    } else {
        (three, after_distinct)
    };
    lemma_attached_steps(four, after_sort.binder.pending);
    let ordered = steps(four);
    let s: int = ordered.len() - unique.len();
    assert(ordered.skip(s) =~= unique);
    assert(all =~= seq![OperatorView::Project(list.select)] + ordered);
    let h = list.having.len() as int;
    let first = 1 + s + d;
    assert forall|k: int| 0 <= k < filtered.len() implies all[first + k] == filtered[k] by {
        assert(all[first + k] == ordered[s + d + k]);
        assert(ordered.skip(s)[d + k] == unique[d + k]);
        assert(unique.skip(d)[k] == filtered[k]);
    }
    assert forall|k: int| 0 <= k < grouped.len() implies all[first + h + k] == grouped[k] by {
        assert(filtered.skip(h)[k] == grouped[k]);
        assert(all[first + (h + k)] == filtered[h + k]);
    }
    assert forall|k: int| 0 <= k < list.having.len() implies (#[trigger] all[first
        + list.having.len() - 1 - k] matches OperatorView::Filter(filter) && filter.predicate
        == list.having[k]) by {
        assert(all[first + (h - 1 - k)] == filtered[h - 1 - k]);
        assert(filtered[list.having.len() - 1 - k] matches OperatorView::Filter(filter)
            && filter.predicate == list.having[k]);
    }
    assert(all.skip(all.len() - base.len()) =~= base) by {
        assert forall|k: int| 0 <= k < base.len() implies all[all.len() - base.len() + k]
            == base[k] by {
            assert(grouped.skip(g)[k] == base[k]);
            assert(all[first + h + (g + k)] == grouped[g + k]);
        }
    }
    if g == 1 {
        assert(all[first + h + 0] == grouped[0]);
    }
    if s == 1 {
        assert(all[1] == ordered[0]);
    }
    if d == 1 {
        assert(all[1 + s] == ordered[s]);
        assert(ordered.skip(s)[0] == unique[0]);
    }
}

/// Whether an aggregate is part of an expression and no other aggregate is around it.
pub open spec fn has_aggregate(exprs: Seq<ExprView>, expr: ExprRef, call: ExprRef) -> bool
    decreases expr.0,
{
    &&& expr.0 < exprs.len()
    &&& if exprs[expr.0 as int].head is AggCall {
        call == expr
    } else {
        exists|i: int|
            0 <= i < exprs[expr.0 as int].children.len() && (#[trigger] exprs[expr.0 as int].children[i]).0
                < expr.0 && has_aggregate(exprs, exprs[expr.0 as int].children[i], call)
    }
}

/// The aggregates that are found in an expression are those that are part of it.
pub proof fn found_aggregates_are_those_inside(
    exprs: Seq<ExprView>,
    expr: ExprRef,
    call: ExprRef,
)
    ensures
        aggregates(exprs, expr).contains(call) <==> has_aggregate(exprs, expr, call),
    decreases expr.0, 1nat, 0nat,
{
    if expr.0 < exprs.len() {
        let node = exprs[expr.0 as int];
        if node.head is AggCall {
            assert(aggregates(exprs, expr)[0] == expr);
            if aggregates(exprs, expr).contains(call) {
                let i = choose|i: int|
                    0 <= i < aggregates(exprs, expr).len() && aggregates(exprs, expr)[i] == call;
                assert(i == 0);
            }
        } else {
            lemma_listed_aggregates(exprs, node.children, expr.0 as nat, call);
        }
    } else {
        assert(aggregates(exprs, expr).len() == 0);
    }
}

proof fn lemma_listed_aggregates(
    exprs: Seq<ExprView>,
    list: Seq<ExprRef>,
    limit: nat,
    call: ExprRef,
)
    ensures
        aggregates_of(exprs, list, limit).contains(call) <==> exists|i: int|
            0 <= i < list.len() && (#[trigger] list[i]).0 < limit && has_aggregate(
                exprs,
                list[i],
                call,
            ),
    decreases limit, 0nat, list.len(),
{
    let all = aggregates_of(exprs, list, limit);
    if list.len() > 0 {
        let front = list.drop_last();
        let last = list.last();
        let before = aggregates_of(exprs, front, limit);
        lemma_listed_aggregates(exprs, front, limit, call);
        let own = if last.0 < limit {
            aggregates(exprs, last)
        } else {
            Seq::empty()
        };
        if last.0 < limit {
            found_aggregates_are_those_inside(exprs, last, call);
        }
        if all.contains(call) {
            let k = choose|k: int| 0 <= k < all.len() && all[k] == call;
            if k < before.len() {
                assert(before[k] == call);
                let i = choose|i: int|
                    0 <= i < front.len() && (#[trigger] front[i]).0 < limit && has_aggregate(
                        exprs,
                        front[i],
                        call,
                    );
                assert(list[i] == front[i]);
            } else {
                assert(own[k - before.len()] == call);
                assert(list[list.len() - 1] == last);
            }
        }
        if exists|i: int|
            0 <= i < list.len() && (#[trigger] list[i]).0 < limit && has_aggregate(
                exprs,
                list[i],
                call,
            ) {
            let i = choose|i: int|
                0 <= i < list.len() && (#[trigger] list[i]).0 < limit && has_aggregate(
                    exprs,
                    list[i],
                    call,
                );
            if i < front.len() {
                assert(front[i] == list[i]);
                let k = choose|k: int| 0 <= k < before.len() && before[k] == call;
                assert(all[k] == call);
            } else {
                let k = choose|k: int| 0 <= k < own.len() && own[k] == call;
                assert(all[before.len() + k] == call);
            }
        }
    } else {
        assert(all.len() == 0);
    }
}

/// Every aggregate that a query reads, orders by or tests its groups with is computed by its grouping,
/// in the form in which it is written.
pub proof fn needed_aggregates_are_computed(list: ListState, expr: ExprRef, call: ExprRef)
    requires
        list.scope.arena.wf(),
        list.scope.arena.exprs.len() <= usize::MAX,
        list.scope.arena.has_expr(expr),
        list.select.contains(expr) || list.having.contains(expr) || exists|i: int|
            0 <= i < list.sort.len() && (#[trigger] list.sort[i]).expr == expr,
        has_aggregate(list.scope.arena.exprs, expr, call),
    ensures
        grouped_plan(list).0.operator matches OperatorView::Aggregate(op) && op.groupby_exprs
            == list.group && !op.is_distinct && holds_alike(
            list.scope.arena.exprs,
            op.agg_calls,
            call,
        ),
{
    let exprs = list.scope.arena.exprs;
    let needed = computed(list);
    let keys = list.sort.map_values(|field: SortField| field.expr);
    assert(needed.contains(expr)) by {
        if list.select.contains(expr) {
            let i = choose|i: int| 0 <= i < list.select.len() && list.select[i] == expr;
            assert(needed[i] == expr);
        } else if list.having.contains(expr) {
            let i = choose|i: int| 0 <= i < list.having.len() && list.having[i] == expr;
            assert(needed[list.select.len() + i] == expr);
        } else {
            let i = choose|i: int| 0 <= i < list.sort.len() && (#[trigger] list.sort[i]).expr == expr;
            assert(keys[i] == expr);
            assert(needed[list.select.len() + list.having.len() + i] == expr);
        }
    }
    let at = choose|at: int| 0 <= at < needed.len() && needed[at] == expr;
    assert(needed[at].0 < exprs.len());
    lemma_listed_aggregates(exprs, needed, exprs.len(), call);
    let found = aggregates_of(exprs, needed, exprs.len());
    assert(found.contains(call));
    let k = choose|k: int| 0 <= k < found.len() && found[k] == call;
    assert forall|j: int| 0 <= j < found.len() implies (#[trigger] found[j]).0 < exprs.len() by {
        assert(found.contains(found[j]));
        lemma_listed_aggregates(exprs, needed, exprs.len(), found[j]);
        let i = choose|i: int|
            0 <= i < needed.len() && (#[trigger] needed[i]).0 < exprs.len() && has_aggregate(
                exprs,
                needed[i],
                found[j],
            );
        lemma_aggregate_within(exprs, needed[i], found[j]);
    }
    every_expression_is_kept_once(exprs, found, k);
}

proof fn lemma_aggregate_within(exprs: Seq<ExprView>, expr: ExprRef, call: ExprRef)
    requires
        has_aggregate(exprs, expr, call),
    ensures
        call.0 < exprs.len(),
    decreases expr.0,
{
    if !(exprs[expr.0 as int].head is AggCall) {
        let i = choose|i: int|
            0 <= i < exprs[expr.0 as int].children.len() && (
            #[trigger] exprs[expr.0 as int].children[i]).0 < expr.0 && has_aggregate(
                exprs,
                exprs[expr.0 as int].children[i],
                call,
            );
        lemma_aggregate_within(exprs, exprs[expr.0 as int].children[i], call);
    }
}

/// The relation of a table is the last source that reads the table.
pub proof fn relation_is_the_last_of_its_table(sources: Seq<SourceView>, table: Seq<char>)
    ensures
        match relation_of(sources, table) {
            Some(relation) => exists|i: int|
                {
                    &&& 0 <= i < sources.len()
                    &&& (#[trigger] sources[i]).table == table
                    &&& sources[i].visible() == relation
                    &&& forall|j: int| i < j < sources.len() ==> (#[trigger] sources[j]).table != table
                },
            None => forall|i: int|
                0 <= i < sources.len() ==> (#[trigger] sources[i]).table != table,
        },
    decreases sources.len(),
{
    if sources.len() > 0 {
        let front = sources.drop_last();
        if sources.last().table == table {
            assert(sources[sources.len() - 1].table == table);
        } else {
            relation_is_the_last_of_its_table(front, table);
            if relation_of(front, table) is Some {
                let i = choose|i: int|
                    {
                        &&& 0 <= i < front.len()
                        &&& (#[trigger] front[i]).table == table
                        &&& front[i].visible() == relation_of(front, table)->0
                        &&& forall|j: int|
                            i < j < front.len() ==> (#[trigger] front[j]).table != table
                    };
                assert(sources[i] == front[i]);
                assert forall|j: int| i < j < sources.len() implies (
                #[trigger] sources[j]).table != table by {
                    if j < front.len() {
                        assert(front[j] == sources[j]);
                    }
                }
            } else {
                assert forall|i: int| 0 <= i < sources.len() implies (
                #[trigger] sources[i]).table != table by {
                    if i < front.len() {
                        assert(front[i] == sources[i]);
                    }
                }
            }
        }
    }
}

/// Counting reads one value, under the name of a count: the count of a value that is never null, over
/// all rows, whatever was read or grouped by before.
pub proof fn counting_counts_every_row(list: ListState)
    requires
        list.scope.arena.exprs.len() + 3 < usize::MAX,
    ensures
        ({
            let count = counting(list);
            let exprs = count.scope.arena.exprs;
            let name = exprs[count.select[0].0 as int];
            let call = exprs[name.children[0].0 as int];
            let counted = exprs[call.children[0].0 as int];
            &&& count.select.len() == 1
            &&& count.group.len() == 0
            &&& count.plan == list.plan
            &&& count.having == list.having
            &&& name.head == ExprHead::AliasName("count"@) && name.children.len() == 1
            &&& call.head matches ExprHead::AggCall { distinct, kind, .. } && !distinct && kind
                == AggKind::Count
            &&& call.children.len() == 1
            &&& counted.head matches ExprHead::Constant(value) && value != DataValueView::Plain(
                DataValue::Null,
            )
        }),
{
}

/// The test whether a column has a value is an equality of the column of that name, read where the row
/// holds it, with the value.
pub proof fn value_test_is_an_equality(
    meaning: Meaning,
    before: ScopeView,
    relation: Seq<char>,
    column: Seq<char>,
    value: DataValueView,
    after: ScopeView,
    test: CtxExpression,
    row: Reader,
)
    requires
        tests_value(before, relation, column, value, after, Ok(test)),
        before.arena.exprs.len() + 5 < usize::MAX,
        row_columns(before.binder.sources).len() <= usize::MAX,
        row_columns(before.binder.outer).len() <= usize::MAX,
    ensures
        ({
            let exprs = after.arena.exprs;
            let head = exprs[test.expr.0 as int].head;
            &&& head matches ExprHead::Binary { op, .. } && op == BinaryOperator::Eq
            &&& exists|read: ColumnRef, position: usize|
                {
                    &&& #[trigger] row_holds(before, read, position, column)
                    &&& computes(
                        meaning,
                        exprs,
                        test.expr,
                        head,
                        seq![row(read, position), value],
                        row,
                    )
                }
        }),
{
    let (middle, found) = choose|middle: ScopeView, found: Result<CtxExpression, DatabaseError>|
        {
            &&& #[trigger] column_bound(before, relation, column, middle, found)
            &&& match found {
                Err(err) => false,
                Ok(left) => binary_bound(
                    alloc_view(middle, constant_view(value)).1,
                    left.orm(),
                    BinaryOperator::Eq,
                    alloc_view(middle, constant_view(value)).0.orm(),
                    after,
                    Ok(test),
                ),
            }
        };
    let left = found->Ok_0;
    let (constant, scope) = alloc_view(middle, constant_view(value));
    named_column_is_read_at_its_place(before.binder.sources, before.arena, relation, column);
    named_column_is_read_at_its_place(before.binder.outer, before.arena, relation, column);
    let node = middle.arena.exprs[left.expr.0 as int];
    let read = node.head->ColumnRef_column;
    let position = node.head->ColumnRef_position;
    assert(node.head is ColumnRef);
    assert(row_holds(before, read, position, column));
    assert(scope.arena.exprs[left.expr.0 as int] == node);
    assert(scope.arena.has_expr(left.expr));
    assert(scope.arena.has_expr(constant.expr));
    operation_is_on_both_operands(
        meaning,
        scope,
        left.orm(),
        BinaryOperator::Eq,
        constant.orm(),
        after,
        test,
        row,
    );
    assert(given_value(meaning, scope.arena, left.orm(), row) == row(read, position));
    assert(given_value(meaning, scope.arena, constant.orm(), row) == value);
}

/// Whether the row of the query, or that of the query around, holds the column of the name at the
/// position.
pub open spec fn row_holds(
    scope: ScopeView,
    read: ColumnRef,
    position: usize,
    name: Seq<char>,
) -> bool {
    let own = row_columns(scope.binder.sources);
    let outer = row_columns(scope.binder.outer);
    &&& (position < own.len() && own[position as int] == read) || (position < outer.len()
        && outer[position as int] == read)
    &&& scope.arena.columns[read.0 as int].name == name
}

} // verus!
