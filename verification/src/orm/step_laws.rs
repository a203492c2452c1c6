//! Steps of writing a query: what each of them adds, and what it leaves as it is.

use crate::binder::expr::{agg_type, types_of};
use crate::binder::plan::attached;
use crate::binder::SubQueryKind;
use crate::catalog::ColumnRef;
use crate::errors::DatabaseError;
use crate::expression::analysis::type_of;
use crate::expression::meaning::{
    lemma_value_extend, lemma_values_of, value_of, values_of, Meaning, Reader,
};
use crate::expression::{AggKind, ExprHead, ExprView, WindowFunctionKind};
use crate::orm::bindable::directed;
use crate::orm::context::{
    around, beside, first_bound, inner_scope, quantified_mark, visible,
};
use crate::orm::field::OrmField;
use crate::orm::insert::{
    field_value, inserts, model_row, written_columns, written_values, FieldValue,
};
use crate::orm::join::{right_bound, row_columns};
use crate::orm::query::{
    filtered, grouped, kept_groups, reads_all, reads_one, selects_all, selects_one, sorted,
    FromState, ListState, Outcome,
};
use crate::orm::query_laws::{
    cast_expression_has_the_value_as_the_type, lemma_row_width, reads_at, value_as,
};
use crate::orm::scope::{
    aggregate_bound, all_fit, bind_view, bind_views, call_bound, cast_bound, window_bound, CtxExpression, OrmView,
    ScopeView,
};
use crate::orm::scope_laws::{
    bound_expression_has_the_given_value, bound_expressions_have_the_given_values, given_value,
};
use crate::orm::update::{changing, updated, UpdateState};
use crate::planner::arena::{ArenaView, ExprRef};
use crate::planner::operator::join::JoinType;
use crate::planner::operator::mark_apply::MarkApplyQuantifier;
use crate::planner::operator::sort::SortField;
use crate::planner::operator::{Operator, OperatorView};
use crate::planner::{ChildrenView, LogicalPlan, PlanView};
use crate::types::value::{DataValue, DataValueView};
use crate::types::LogicalTypeView;
use vstd::prelude::*;

verus! {

/// The given expression is what a filter keeps rows by: the filter stands above the rows of before,
/// with what its own subqueries add to them, and its predicate has the value of what was given.
pub proof fn filter_keeps_rows_by_what_is_given(
    meaning: Meaning,
    from: FromState,
    mid: ScopeView,
    given: OrmView,
    row: Reader,
)
    requires
        given.fits(mid.arena),
        mid.arena.exprs.len() + 1 < usize::MAX,
    ensures
        filtered(from, mid, Ok(given)) matches Outcome::Done(state) && (
        state.plan.operator matches OperatorView::Filter(filter) && !filter.having && value_of(
            meaning,
            state.scope.arena.exprs,
            filter.predicate,
            row,
        ) == given_value(meaning, mid.arena, given, row)) && state.plan.children == ChildrenView::Only(
            Box::new(attached(from.plan, mid.binder.pending)),
        ) && state.scope.binder.pending.len() == 0 && state.scope.binder.sources
            == mid.binder.sources,
{
    let last = bind_view(mid.arena, given).1.exprs;
    bound_expression_has_the_given_value(meaning, mid.arena, mid.arena, given, last, row);
}

/// A failure while an expression is given fails the step with the same error and leaves the scope
/// where it was.
pub proof fn failure_to_give_fails_the_step(
    from: FromState,
    list: ListState,
    mid: ScopeView,
    err: DatabaseError,
)
    ensures
        filtered(from, mid, Err(err)) == Outcome::<FromState>::Failed(err, mid),
        reads_one(from, mid, Err(err)) == Outcome::<ListState>::Failed(err, mid),
        reads_all(from, mid, Err(err)) == Outcome::<ListState>::Failed(err, mid),
        selects_one(list, mid, Err(err)) == Outcome::<ListState>::Failed(err, mid),
        selects_all(list, mid, Err(err)) == Outcome::<ListState>::Failed(err, mid),
        grouped(list, mid, Err(err)) == Outcome::<ListState>::Failed(err, mid),
        kept_groups(list, mid, Err(err)) == Outcome::<ListState>::Failed(err, mid),
        sorted(list, mid, Err(err)) == Outcome::<ListState>::Failed(err, mid),
{
}

/// Whether the second query is the first one but for the scope and the listed parts.
pub open spec fn same_rows(first: ListState, second: ListState) -> bool {
    first.plan == second.plan && first.distinct == second.distinct
}

/// Grouping adds one group behind those before, a condition on groups one condition, an order one key;
/// each has the value of what was given, and nothing else of the query changes.
pub proof fn list_steps_add_one_thing(
    meaning: Meaning,
    list: ListState,
    mid: ScopeView,
    given: OrmView,
    field: SortField,
    row: Reader,
)
    requires
        given.fits(mid.arena),
        mid.arena.exprs.len() + 1 < usize::MAX,
    ensures
        grouped(list, mid, Ok(given)) matches Outcome::Done(state) && same_rows(list, state)
            && state.select == list.select && state.having == list.having && state.sort == list.sort
            && state.group.len() == list.group.len() + 1 && list.group.is_prefix_of(state.group)
            && value_of(meaning, state.scope.arena.exprs, state.group.last(), row) == given_value(
            meaning,
            mid.arena,
            given,
            row,
        ),
        kept_groups(list, mid, Ok(given)) matches Outcome::Done(state) && same_rows(list, state)
            && state.select == list.select && state.group == list.group && state.sort == list.sort
            && state.having.len() == list.having.len() + 1 && list.having.is_prefix_of(state.having)
            && value_of(meaning, state.scope.arena.exprs, state.having.last(), row) == given_value(
            meaning,
            mid.arena,
            given,
            row,
        ),
        sorted(list, mid, Ok(field)) matches Outcome::Done(state) && same_rows(list, state)
            && state.select == list.select && state.group == list.group && state.having
            == list.having && state.sort.len() == list.sort.len() + 1 && list.sort.is_prefix_of(
            state.sort,
        ) && state.sort.last() == field,
{
    let last = bind_view(mid.arena, given).1.exprs;
    bound_expression_has_the_given_value(meaning, mid.arena, mid.arena, given, last, row);
}

/// What is read replaces what was read before, in the order in which it is given, and each expression
/// has the value of the one at its place; groups, conditions and order stay.
pub proof fn selected_values_are_those_given(
    meaning: Meaning,
    list: ListState,
    mid: ScopeView,
    given: Seq<OrmView>,
    row: Reader,
    i: int,
)
    requires
        all_fit(given, mid.arena),
        mid.arena.exprs.len() + given.len() < usize::MAX,
        0 <= i < given.len(),
    ensures
        selects_all(list, mid, Ok(given)) matches Outcome::Done(state) && same_rows(list, state)
            && state.group == list.group && state.having == list.having && state.sort == list.sort
            && state.select.len() == given.len() && value_of(
            meaning,
            state.scope.arena.exprs,
            state.select[i],
            row,
        ) == given_value(meaning, mid.arena, given[i], row),
{
    let last = bind_views(mid.arena, given).1.exprs;
    bound_expressions_have_the_given_values(meaning, mid.arena, mid.arena, given, last, row);
}

/// What is first read of rows is read of those rows, without groups, conditions or an order.
pub proof fn first_reading_starts_plain(
    meaning: Meaning,
    from: FromState,
    mid: ScopeView,
    given: Seq<OrmView>,
    row: Reader,
    i: int,
)
    requires
        all_fit(given, mid.arena),
        mid.arena.exprs.len() + given.len() < usize::MAX,
        0 <= i < given.len(),
    ensures
        reads_all(from, mid, Ok(given)) matches Outcome::Done(state) && state.plan == from.plan
            && state.group.len() == 0 && state.having.len() == 0 && state.sort.len() == 0
            && !state.distinct && state.select.len() == given.len() && value_of(
            meaning,
            state.scope.arena.exprs,
            state.select[i],
            row,
        ) == given_value(meaning, mid.arena, given[i], row),
{
    let last = bind_views(mid.arena, given).1.exprs;
    bound_expressions_have_the_given_values(meaning, mid.arena, mid.arena, given, last, row);
}

/// The values of the expressions.
pub open spec fn arg_values(
    meaning: Meaning,
    exprs: Seq<ExprView>,
    args: Seq<ExprRef>,
    row: Reader,
) -> Seq<DataValueView> {
    args.map_values(|arg: ExprRef| value_of(meaning, exprs, arg, row))
}

proof fn lemma_call_value(
    meaning: Meaning,
    exprs: Seq<ExprView>,
    node: ExprView,
    row: Reader,
)
    requires
        exprs.len() < usize::MAX,
        forall|i: int| 0 <= i < node.children.len() ==> (#[trigger] node.children[i]).0 < exprs.len(),
        !(node.head is Constant),
        !(node.head is ColumnRef),
        !(node.head is AliasName),
        !(node.head is AliasExpr),
    ensures
        value_of(meaning, exprs.push(node), ExprRef(exprs.len() as usize), row) == meaning(
            node.head,
            arg_values(meaning, exprs, node.children, row),
        ),
{
    let after = exprs.push(node);
    let own = ExprRef(exprs.len() as usize);
    lemma_values_of(meaning, after, node.children, own.0 as nat, row);
    let values = values_of(meaning, after, node.children, own.0 as nat, row);
    let args = arg_values(meaning, exprs, node.children, row);
    assert(exprs.is_prefix_of(after));
    assert forall|i: int| 0 <= i < node.children.len() implies values[i] == args[i] by {
        lemma_value_extend(meaning, exprs, after, node.children[i], row);
    }
    assert(values =~= args);
    assert(after[own.0 as int] == node);
}

/// A function is called with its arguments in their order, and its result has the type that is known
/// for the function with arguments of these types.
pub proof fn call_has_its_arguments_in_order(
    meaning: Meaning,
    before: ScopeView,
    name: Seq<char>,
    args: Seq<ExprRef>,
    after: ScopeView,
    res: Result<CtxExpression, DatabaseError>,
    row: Reader,
)
    requires
        call_bound(before, name, args, after, res),
        before.arena.has_exprs(args),
        before.arena.exprs.len() < usize::MAX,
    ensures
        ({
            let key = (name, types_of(before.arena, args));
            &&& res is Ok <==> before.binder.functions.map().contains_key(key)
            &&& res matches Ok(expr) ==> ({
                let head = after.arena.exprs[expr.expr.0 as int].head;
                &&& head matches ExprHead::ScalaFunction { name: own, ty } && own == name && ty
                    == before.binder.functions.map()[key].return_type@
                &&& value_of(meaning, after.arena.exprs, expr.expr, row) == meaning(
                    head,
                    arg_values(meaning, before.arena.exprs, args, row),
                )
            })
            &&& after.binder == before.binder
        }),
{
    let key = (name, types_of(before.arena, args));
    let known = before.binder.functions.map();
    if known.contains_key(key) {
        let node = ExprView {
            head: ExprHead::ScalaFunction { name, ty: known[key].return_type@ },
            children: args,
        };
        lemma_call_value(meaning, before.arena.exprs, node, row);
    }
}

/// An aggregate is over its one argument; counts are integers, and averages fractions.
pub proof fn aggregate_is_over_its_argument(
    meaning: Meaning,
    before: ScopeView,
    kind: AggKind,
    args: Seq<ExprRef>,
    after: ScopeView,
    res: Result<CtxExpression, DatabaseError>,
    row: Reader,
)
    requires
        aggregate_bound(before, kind, args, after, res),
        before.arena.has_exprs(args),
        before.arena.exprs.len() < usize::MAX,
    ensures
        res is Ok <==> args.len() == 1,
        res matches Ok(expr) ==> ({
            let head = after.arena.exprs[expr.expr.0 as int].head;
            &&& head matches ExprHead::AggCall { distinct, kind: own, ty } && !distinct && own
                == kind && (kind != AggKind::Count && kind != AggKind::Avg ==> ty == type_of(
                before.arena,
                args[0],
            ))
            &&& value_of(meaning, after.arena.exprs, expr.expr, row) == meaning(
                head,
                arg_values(meaning, before.arena.exprs, args, row),
            )
        }),
        after.binder == before.binder,
{
    if args.len() == 1 {
        let node = ExprView {
            head: ExprHead::AggCall {
                distinct: false,
                kind,
                ty: agg_type(kind, type_of(before.arena, args[0])),
            },
            children: args,
        };
        lemma_call_value(meaning, before.arena.exprs, node, row);
    }
}

/// A window function has its arguments first, then the keys of its partitions, then those of its
/// order, with the directions that these have.
pub proof fn window_parts_keep_their_places(
    before: ScopeView,
    kind: WindowFunctionKind,
    args: Seq<ExprRef>,
    partitions: Seq<ExprRef>,
    orders: Seq<SortField>,
    after: ScopeView,
    expr: CtxExpression,
    i: int,
)
    requires
        window_bound(before, kind, args, partitions, orders, after, Ok(expr)),
        before.arena.exprs.len() < usize::MAX,
    ensures
        ({
            let node = after.arena.exprs[expr.expr.0 as int];
            &&& node.head matches ExprHead::WindowCall {
                kind: own,
                args: first,
                partitions: second,
                orders: third,
                ..
            } && own == kind && first == args.len() && second == partitions.len() && third.len()
                == orders.len() && (0 <= i < orders.len() ==> third[i] == (
                orders[i].asc,
                orders[i].nulls_first,
            ))
            &&& node.children.len() == args.len() + partitions.len() + orders.len()
            &&& 0 <= i < args.len() ==> node.children[i] == args[i]
            &&& 0 <= i < partitions.len() ==> node.children[args.len() + i] == partitions[i]
            &&& 0 <= i < orders.len() ==> node.children[args.len() + partitions.len() + i]
                == orders[i].expr
            &&& kind is Aggregate <==> args.len() == 1
            &&& !(kind is Aggregate) <==> args.len() == 0
        }),
{
}

/// A cast has the value of its operand as one of the type.
pub proof fn cast_has_the_value_as_the_type(
    meaning: Meaning,
    before: ScopeView,
    operand: ExprRef,
    ty: LogicalTypeView,
    after: ScopeView,
    expr: CtxExpression,
    row: Reader,
)
    requires
        cast_bound(before, OrmView::Bound(operand), ty, after, Ok(expr)),
        before.arena.has_expr(operand),
        before.arena.exprs.len() < usize::MAX,
    ensures
        value_as(
            meaning,
            before.arena,
            operand,
            ty,
            row,
            value_of(meaning, after.arena.exprs, expr.expr, row),
        ),
        after.binder == before.binder,
{
    cast_expression_has_the_value_as_the_type(
        meaning,
        before.arena,
        operand,
        ty,
        row,
    );
}

/// A table that is joined comes last among the sources, under its name, with the kind of the join;
/// the first table of a query comes without one. The sources before stay.
pub proof fn joined_source_comes_last(
    scope: ScopeView,
    table: Seq<char>,
    alias: Option<Seq<char>>,
    join_type: JoinType,
    mutation: bool,
)
    ensures
        right_bound(scope, table, alias, join_type) is Some
            <==> scope.binder.tables.map().contains_key(table),
        right_bound(scope, table, alias, join_type) matches Some((_, after)) ==> {
            let sources = after.binder.sources;
            &&& sources.len() == scope.binder.sources.len() + 1
            &&& scope.binder.sources.is_prefix_of(sources)
            &&& sources.last().table == table
            &&& sources.last().alias == alias
            &&& sources.last().join_type == Some(join_type)
            &&& after.binder.pending == scope.binder.pending
            &&& after.binder.outer == scope.binder.outer
        },
        first_bound(scope, table, alias, mutation) matches Some((_, after)) ==> {
            let sources = after.binder.sources;
            &&& sources.len() == scope.binder.sources.len() + 1
            &&& scope.binder.sources.is_prefix_of(sources)
            &&& sources.last().table == table
            &&& sources.last().alias == alias
            &&& sources.last().join_type is None
            &&& mutation ==> after.binder.with_pk is None
            &&& !mutation ==> after.binder.with_pk == scope.binder.with_pk
        },
{
}

/// A query inside another one starts without sources and sees those of the queries around; what it
/// read of them is noted there once it is done, and the query around is otherwise as it was.
pub proof fn inner_query_sees_those_around(scope: ScopeView, child: ScopeView, done: bool)
    ensures
        ({
            let inner = inner_scope(scope, visible(scope));
            &&& inner.binder.sources.len() == 0
            &&& inner.binder.pending.len() == 0
            &&& !inner.binder.outer_refs
            &&& inner.binder.tables == scope.binder.tables
            &&& inner.arena == scope.arena
            &&& scope.binder.sources.is_prefix_of(inner.binder.outer)
            &&& inner.binder.outer.skip(scope.binder.sources.len() as int) == scope.binder.outer
        }),
        around(scope, child, done).arena == child.arena,
        around(scope, child, done).binder.sources == scope.binder.sources,
        around(scope, child, done).binder.pending == scope.binder.pending,
        scope.binder.outer_refs ==> around(scope, child, done).binder.outer_refs,
        !done ==> around(scope, child, done).binder.outer_refs == scope.binder.outer_refs,
        done && child.binder.outer_refs && scope.binder.outer.len() > 0 ==> around(
            scope,
            child,
            done,
        ).binder.outer_refs,
        beside(scope, child, done).arena == child.arena,
        beside(scope, child, done).binder.sources == scope.binder.sources,
        beside(scope, child, done).binder.outer_refs <==> scope.binder.outer_refs || (done
            && child.binder.outer_refs),
{
    let inner = inner_scope(scope, visible(scope));
    assert(inner.binder.outer.skip(scope.binder.sources.len() as int) =~= scope.binder.outer);
}

/// A quantified comparison marks rows by the quantifier and the predicate that are given, and its mark
/// is read where the query puts it, as it is or as its opposite.
pub proof fn quantified_mark_is_read_where_it_stands(
    scope: ScopeView,
    quantifier: MarkApplyQuantifier,
    predicate: ExprRef,
    negated: bool,
    plan: PlanView,
)
    requires
        scope.arena.exprs.len() + 1 < usize::MAX,
        scope.arena.columns.len() < usize::MAX,
        row_columns(scope.binder.sources).len() + scope.binder.pending.len() <= usize::MAX,
    ensures
        ({
            let (expr, after) = quantified_mark(scope, quantifier, predicate, negated, plan);
            let pending = after.binder.pending;
            let at = scope.binder.pending.len() as int;
            let node = after.arena.exprs[expr.expr.0 as int];
            let mark = if negated {
                node.children[0]
            } else {
                expr.expr
            };
            &&& negated <==> node.head is Unary
            &&& pending.len() == at + 1
            &&& scope.binder.pending.is_prefix_of(pending)
            &&& pending[at].kind == SubQueryKind::Quantified(quantifier, predicate)
            &&& pending[at].plan == plan
            &&& reads_at(
                after.arena,
                mark,
                pending[at].column,
                row_columns(scope.binder.sources).len() + at,
            )
        }),
{
    lemma_row_width(scope.binder.sources);
}

/// An order by an expression has the expression and the direction that were asked for.
pub proof fn order_has_its_direction(expr: ExprRef, asc: bool, nulls_first: bool)
    ensures
        directed(Ok(expr), asc, nulls_first) matches Ok(field) && field.expr == expr && field.asc
            == asc && field.nulls_first == nulls_first,
{
}

/// An update writes all collected values to the table, over the rows that it is about; without values
/// it is refused. While values are collected, and only then, defaults are allowed.
pub proof fn update_writes_all_collected_values(
    state: UpdateState,
    table: Seq<char>,
    plan: PlanView,
    after: ScopeView,
    res: Result<PlanView, DatabaseError>,
    scope: ScopeView,
)
    requires
        updated(state, table, plan, after, res),
    ensures
        res is Ok <==> state.values.len() > 0,
        res matches Ok(made) ==> (made.operator matches OperatorView::Update(op) && op.table_name
            == table && op.value_exprs == state.values) && made.children == ChildrenView::Only(
            Box::new(plan),
        ),
        !after.binder.allow_default,
        after.arena == state.scope.arena,
        changing(scope, table).binder.allow_default,
        changing(scope, table).binder.with_pk == Some(table),
        changing(scope, table).arena == scope.arena,
{
}

/// A model is written field by field: each value goes to the column of its field, at the same place of
/// the row.
pub proof fn model_is_written_field_by_field(
    arena: ArenaView,
    table: Seq<ColumnRef>,
    params: Seq<(&'static str, DataValue)>,
    fields: Seq<OrmField>,
    i: int,
)
    requires
        0 <= i < fields.len(),
    ensures
        ({
            let row = model_row(arena, table, params, fields);
            &&& row.len() == fields.len()
            &&& written_columns(row).len() == fields.len()
            &&& written_values(row).len() == fields.len()
            &&& field_value(arena, table, params, fields[i].column@) matches FieldValue::Value(
                column,
                value,
            ) ==> written_columns(row)[i] == column && written_values(row)[i] == value
        }),
{
}

/// An insertion writes the rows of its input to the named table, by the names of their columns, and
/// overwrites rows only where that was asked for.
pub proof fn insertion_is_into_the_table(
    plan: LogicalPlan,
    table: Seq<char>,
    overwrite: bool,
    input: PlanView,
)
    requires
        inserts(plan, table, overwrite, input),
    ensures
        plan.operator matches Operator::Insert(op) && op.table_name@ == table && op.is_overwrite
            == overwrite && op.is_mapping_by_name,
        plan@.children == ChildrenView::Only(Box::new(input)),
{
}

} // verus!
