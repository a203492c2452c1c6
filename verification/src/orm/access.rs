//! Models that are read and written as a whole.

use crate::binder::expr::constant_view;
use crate::binder::plan::{bound, leaf, over};
use crate::binder::scan::scan_view;
use crate::binder::QueryBindStep;
use crate::catalog::TableName;
use crate::db::iter::{OrmIter, ResultIter};
use crate::db::source::{bound_to, BindSource};
use crate::errors::DatabaseError;
use crate::expression::BinaryOperator;
use crate::optimizer::rule::normalization::Stage;
use crate::orm::context::{first_bound, OrmContext};
use crate::orm::field::{Field, Model, OrmField};
use crate::orm::insert::{
    bind_orm_insert_model, model_row, row_refused, written_columns, written_values,
};
use crate::orm::query::{
    at_step, filtered, finished, model_list, model_refused, orm_of, FromState, Outcome,
};
use crate::orm::result::{extract_optional_model, first_row};
use crate::orm::scope::{
    alloc_view, binary_bound, column_bound, lemma_extended_trans, CtxExpression, ExprBindScope,
    IntoOrmExpression, ScopeView,
};
use crate::orm::value::ToDataValue;
use crate::planner::operator::dml::AnalyzeView;
use crate::planner::operator::values::ValuesView;
use crate::planner::operator::{Operator, OperatorView};
use crate::planner::LogicalPlan;
use crate::types::value::{DataValue, DataValueView};
use vstd::prelude::*;

verus! {

/// Runs a query without parameters.
pub fn bind_orm_context<'a, E: BindSource<'a>, F>(executor: E, build: F) -> (res: Result<
    E::Iter,
    DatabaseError,
>) where F: FnOnce(&mut OrmContext<'a>) -> Result<LogicalPlan, DatabaseError>
    requires
        executor.bindable(),
        forall|c: &mut OrmContext<'a>| c.known() ==> #[trigger] call_requires(build, (c,)),
        forall|c: &mut OrmContext<'a>, r: Result<LogicalPlan, DatabaseError>|
            c.known() && #[trigger] call_ensures(build, (c,), r) ==> final(c).known()
                && c@.extended_by(final(c)@) && (r matches Ok(plan) ==> bound(
                plan@,
                final(c)@.arena,
            )),
    ensures
        executor.answers(None, res) || exists|
            c: &mut OrmContext<'a>,
            r: Result<LogicalPlan, DatabaseError>,
        |
            {
                &&& c@ == executor.scope()
                &&& #[trigger] call_ensures(build, (c,), r)
                &&& executor.answers(Some(bound_to(r, final(c)@.arena)), res)
            },
        res matches Ok(iter) ==> iter.ready(),
{
    executor.execute(build)
}

/// Shows the plan of a query without parameters.
pub fn explain_orm_context<'a, E: BindSource<'a>, F>(executor: E, build: F) -> (res: Result<
    String,
    DatabaseError,
>) where F: FnOnce(&mut OrmContext<'a>) -> Result<LogicalPlan, DatabaseError>
    requires
        executor.bindable(),
        forall|c: &mut OrmContext<'a>| c.known() ==> #[trigger] call_requires(build, (c,)),
        forall|c: &mut OrmContext<'a>, r: Result<LogicalPlan, DatabaseError>|
            c.known() && #[trigger] call_ensures(build, (c,), r) ==> final(c).known()
                && c@.extended_by(final(c)@) && (r matches Ok(plan) ==> bound(
                plan@,
                final(c)@.arena,
            )),
    ensures
        ({
            let text: Result<Seq<char>, DatabaseError> = match res {
                Ok(text) => Ok(text@),
                Err(err) => Err(err),
            };
            executor.shows(None, text) || exists|
                c: &mut OrmContext<'a>,
                r: Result<LogicalPlan, DatabaseError>,
            |
                {
                    &&& c@ == executor.scope()
                    &&& #[trigger] call_ensures(build, (c,), r)
                    &&& executor.shows(Some(bound_to(r, final(c)@.arena)), text)
                }
        }),
{
    executor.explain(build)
}

/// What the collection of the statistics of a table is bound to.
pub open spec fn analyzes(
    scope: ScopeView,
    table: Seq<char>,
    query: Result<Stage, DatabaseError>,
) -> bool {
    let tables = scope.binder.tables.map();
    if tables.contains_key(table) {
        let (scan, arena) = scan_view(
            scope.arena,
            tables[table],
            table,
            scope.binder.with_pk == Some(table),
        );
        query == Ok::<Stage, DatabaseError>(
            Stage {
                plan: over(
                    OperatorView::Analyze(
                        AnalyzeView {
                            table_name: table,
                            index_metas: tables[table].indexes@,
                            histogram_buckets: None,
                        },
                    ),
                    scan,
                ),
                arena,
            },
        )
    } else {
        query == Err::<Stage, DatabaseError>(DatabaseError::TableNotFound)
    }
}

/// What writing one row, given under the names of columns, to a table is bound to.
pub open spec fn writes_row(
    scope: ScopeView,
    table: Seq<char>,
    fields: Seq<OrmField>,
    params: Seq<(&'static str, DataValue)>,
    query: Result<Stage, DatabaseError>,
) -> bool {
    let tables = scope.binder.tables.map();
    if tables.contains_key(table) {
        let row = model_row(scope.arena, tables[table].columns@, params, fields);
        match query {
            Ok(stage) => {
                &&& stage.arena == scope.arena
                &&& stage.plan.operator matches OperatorView::Plain(Operator::Insert(op))
                    && op.table_name@ == table && !op.is_overwrite && op.is_mapping_by_name
                &&& stage.plan == over(
                    stage.plan.operator,
                    leaf(
                        OperatorView::Values(
                            ValuesView {
                                rows: seq![written_values(row)],
                                schema_ref: written_columns(row),
                            },
                        ),
                    ),
                )
                &&& forall|i: int| 0 <= i < row.len() ==> (#[trigger] row[i]) is Value
            },
            Err(err) => row_refused(row, fields, err),
        }
    } else {
        query == Err::<Stage, DatabaseError>(DatabaseError::TableNotFound)
    }
}

/// What reading the fields of a model from a query is bound to.
pub open spec fn reads_model<M: Model>(from: FromState,
    query: Result<Stage, DatabaseError>) -> bool {
    match model_list::<M>(from) {
        Some(list) => query == Ok::<Stage, DatabaseError>(
            Stage { plan: finished(list).0, arena: finished(list).1.arena },
        ),
        None => query matches Err(err) && exists|last: ScopeView| #[trigger]
            model_refused::<M>(from, err, last),
    }
}

/// What reading all rows of a model is bound to.
pub open spec fn lists<M: Model>(scope: ScopeView, query: Result<Stage, DatabaseError>) -> bool {
    match first_bound(scope, M::table(), None, false) {
        None => query == Err::<Stage, DatabaseError>(DatabaseError::TableNotFound),
        Some((plan, scope)) => reads_model::<M>(FromState { scope, plan }, query),
    }
}

/// Outcomes of binding the test whether a column has a value.
pub open spec fn tests_value(
    before: ScopeView,
    relation: Seq<char>,
    column: Seq<char>,
    value: DataValueView,
    after: ScopeView,
    res: Result<CtxExpression, DatabaseError>,
) -> bool {
    exists|middle: ScopeView, found: Result<CtxExpression, DatabaseError>|
        {
            &&& #[trigger] column_bound(before, relation, column, middle, found)
            &&& match found {
                Err(err) => res == Err::<CtxExpression, DatabaseError>(err) && after == middle,
                Ok(left) => binary_bound(
                    alloc_view(middle, constant_view(value)).1,
                    left.orm(),
                    BinaryOperator::Eq,
                    alloc_view(middle, constant_view(value)).0.orm(),
                    after,
                    res,
                ),
            }
        }
}

/// What reading the row of a model, in which a column has a value, is bound to.
pub open spec fn looks_up<M: Model>(
    scope: ScopeView,
    column: Seq<char>,
    value: DataValueView,
    query: Result<Stage, DatabaseError>,
) -> bool {
    match first_bound(scope, M::table(), None, false) {
        None => query == Err::<Stage, DatabaseError>(DatabaseError::TableNotFound),
        Some((plan, scope)) => looks_up_in::<M>(FromState { scope, plan }, column, value, query),
    }
}

/// What reading the row of a model, in which a column has a value, from a query is bound to.
pub open spec fn looks_up_in<M: Model>(
    from: FromState,
    column: Seq<char>,
    value: DataValueView,
    query: Result<Stage, DatabaseError>,
) -> bool {
    exists|middle: ScopeView, test: Result<CtxExpression, DatabaseError>|
        {
            &&& #[trigger] tests_value(
                at_step(from.scope, QueryBindStep::Where),
                M::table(),
                column,
                value,
                middle,
                test,
            )
            &&& match filtered(from, at_step(middle, from.scope.binder.step), orm_of(test)) {
                Outcome::Failed(err, _) => query == Err::<Stage, DatabaseError>(err),
                Outcome::Done(state) => reads_model::<M>(state, query),
            }
        }
}

fn bind_list<'a, M: Model>(c: &mut OrmContext<'a>) -> (res: Result<LogicalPlan, DatabaseError>)
    requires
        old(c).known(),
    ensures
        final(c).known(),
        old(c)@.extended_by(final(c)@),
        res matches Ok(plan) ==> bound(plan@, final(c)@.arena),
        lists::<M>(old(c)@, bound_to(res, final(c)@.arena)),
{
    let from = match c.from::<M>() {
        Ok(from) => from,
        Err(err) => {
            return Err(err);
        },
    };
    let ghost state = from.state();
    let res = from.finish();
    proof {
        if res is Err {
            assert(model_refused::<M>(state, res->Err_0, c@));
        }
    }
    res
}

/// Reads all rows of a model.
pub fn orm_list<'a, E: BindSource<'a>, M: Model>(executor: E) -> (res: Result<
    OrmIter<E::Iter, M>,
    DatabaseError,
>)
    requires
        executor.bindable(),
    ensures
        exists|query: Option<Result<Stage, DatabaseError>>, ran: Result<E::Iter, DatabaseError>|
            {
                &&& #[trigger] executor.answers(query, ran)
                &&& query matches Some(query) ==> lists::<M>(executor.scope(), query)
                &&& match ran {
                    Ok(iter) => iter.ready() && (res matches Ok(models) && models.inner == iter),
                    Err(err) => res matches Err(e) && e == err,
                }
            },
{
    let build = |c: &mut OrmContext<'a>| -> (r: Result<LogicalPlan, DatabaseError>)
        requires
            old(c).known(),
        ensures
            final(c).known(),
            old(c)@.extended_by(final(c)@),
            r matches Ok(plan) ==> bound(plan@, final(c)@.arena),
            lists::<M>(old(c)@, bound_to(r, final(c)@.arena)),
    { bind_list::<M>(c) };
    let ran = bind_orm_context(executor, build);
    match ran {
        Ok(iter) => Ok(iter.orm::<M>()),
        Err(err) => Err(err),
    }
}

fn bind_lookup<'a, M: Model>(c: &mut OrmContext<'a>, column: &'static str, key: DataValue) -> (res:
    Result<LogicalPlan, DatabaseError>)
    requires
        old(c).known(),
    ensures
        final(c).known(),
        old(c)@.extended_by(final(c)@),
        res matches Ok(plan) ==> bound(plan@, final(c)@.arena),
        looks_up::<M>(old(c)@, column@, key@, bound_to(res, final(c)@.arena)),
{
    let from = match c.from::<M>() {
        Ok(from) => from,
        Err(err) => {
            return Err(err);
        },
    };
    let ghost first = from.state();
    let ghost value = key@;
    let test = |expr: &mut ExprBindScope<'a>| -> (r: Result<CtxExpression, DatabaseError>)
        requires
            old(expr).known(),
        ensures
            final(expr).known(),
            old(expr)@.extended_by(final(expr)@),
            r matches Ok(given) ==> given.orm().fits(final(expr)@.arena),
            tests_value(old(expr)@, M::table(), column@, value, final(expr)@, r),
    { test_value::<M>(expr, column, key) };
    let from = match from.filter(test) {
        Ok(from) => from,
        Err(err) => {
            return Err(err);
        },
    };
    let ghost state = from.state();
    let res = from.finish();
    proof {
        if res is Err {
            assert(model_refused::<M>(state, res->Err_0, c@));
        }
    }
    res
}

fn test_value<'a, M: Model>(expr: &mut ExprBindScope<'a>, column: &'static str,
    key: DataValue) -> (res:
    Result<CtxExpression, DatabaseError>)
    requires
        old(expr).known(),
    ensures
        final(expr).known(),
        old(expr)@.extended_by(final(expr)@),
        res matches Ok(given) ==> given.orm().fits(final(expr)@.arena),
        tests_value(old(expr)@, M::table(), column@, key@, final(expr)@, res),
{
    let ghost start = expr@;
    let found = expr.qualified_column(
        M::table_name(),
        Field::<M, ()>::new(M::table_name(), column),
    );
    let ghost middle = expr@;
    assert(column_bound(start, M::table(), column@, middle, found));
    let left = match found {
        Ok(left) => left,
        Err(err) => {
            return Err(err);
        },
    };
    let right = expr.data_value(key);
    let ghost last = expr@;
    let res = left.eq(right, expr);
    proof {
        lemma_extended_trans(start.arena, middle.arena, last.arena);
        lemma_extended_trans(start.arena, last.arena, expr@.arena);
    }
    res
}

/// Reads the row of a model with a primary key, where there is one.
pub fn orm_get<'a, E: BindSource<'a>, M: Model>(executor: E, key: &M::PrimaryKey) -> (res: Result<
    Option<M>,
    DatabaseError,
>)
    requires
        executor.bindable(),
        exists|i: int| 0 <= i < M::columns().len() && (#[trigger] M::columns()[i]).primary_key,
    ensures
        exists|
            query: Option<Result<Stage, DatabaseError>>,
            ran: Result<E::Iter, DatabaseError>,
            i: int,
        |
            {
                &&& #[trigger] executor.answers(query, ran)
                &&& 0 <= i < M::columns().len() && (#[trigger] M::columns()[i]).primary_key
                &&& forall|j: int| 0 <= j < i ==> !(#[trigger] M::columns()[j]).primary_key
                &&& query matches Some(query) ==> looks_up::<M>(
                    executor.scope(),
                    M::columns()[i].column@,
                    key.encoded(),
                    query,
                )
                &&& match ran {
                    Ok(iter) => first_row(iter, res),
                    Err(err) => res matches Err(e) && e == err,
                }
            },
{
    let primary_key = M::primary_key_field();
    let column = primary_key.column;
    let key = key.to_data_value();
    let ghost value = key@;
    let build = |c: &mut OrmContext<'a>| -> (r: Result<LogicalPlan, DatabaseError>)
        requires
            old(c).known(),
        ensures
            final(c).known(),
            old(c)@.extended_by(final(c)@),
            r matches Ok(plan) ==> bound(plan@, final(c)@.arena),
            looks_up::<M>(old(c)@, column@, value, bound_to(r, final(c)@.arena)),
    { bind_lookup::<M>(c, column, key) };
    match bind_orm_context(executor, build) {
        Ok(iter) => extract_optional_model(iter),
        Err(err) => Err(err),
    }
}

/// Writes a model to its table.
pub fn orm_insert<'a, E: BindSource<'a>, M: Model>(executor: E, model: &M) -> (res: Result<
    (),
    DatabaseError,
>)
    requires
        executor.bindable(),
    ensures
        exists|query: Option<Result<Stage, DatabaseError>>, ran: Result<E::Iter, DatabaseError>|
            {
                &&& #[trigger] executor.answers(query, ran)
                &&& query matches Some(query) ==> writes_row(
                    executor.scope(),
                    M::table(),
                    M::columns(),
                    model.named_values(),
                    query,
                )
                &&& match ran {
                    Ok(iter) => iter.finishes(res),
                    Err(err) => res == Err::<(), DatabaseError>(err),
                }
            },
{
    let params = model.params();
    let ghost values = params@;
    let build = |c: &mut OrmContext<'a>| -> (r: Result<LogicalPlan, DatabaseError>)
        requires
            old(c).known(),
        ensures
            final(c).known(),
            old(c)@.extended_by(final(c)@),
            r matches Ok(plan) ==> bound(plan@, final(c)@.arena),
            writes_row(
                old(c)@,
                M::table(),
                M::columns(),
                values,
                bound_to(r, final(c)@.arena),
            ),
    { bind_orm_insert_model::<M>(&mut c.scope, params) };
    match executor.execute(build) {
        Ok(iter) => iter.done(),
        Err(err) => Err(err),
    }
}

/// Collects the statistics of the table of a model.
pub fn orm_analyze<'a, E: BindSource<'a>, M: Model>(executor: E) -> (res: Result<(), DatabaseError>)
    requires
        executor.bindable(),
    ensures
        exists|query: Option<Result<Stage, DatabaseError>>, ran: Result<E::Iter, DatabaseError>|
            {
                &&& #[trigger] executor.answers(query, ran)
                &&& query matches Some(query) ==> analyzes(executor.scope(), M::table(), query)
                &&& match ran {
                    Ok(iter) => iter.finishes(res),
                    Err(err) => res == Err::<(), DatabaseError>(err),
                }
            },
{
    let name: TableName = M::table_name().to_string();
    let ghost wanted = name@;
    let build = |c: &mut OrmContext<'a>| -> (r: Result<LogicalPlan, DatabaseError>)
        requires
            old(c).known(),
        ensures
            final(c).known(),
            old(c)@.extended_by(final(c)@),
            r matches Ok(plan) ==> bound(plan@, final(c)@.arena),
            analyzes(old(c)@, wanted, bound_to(r, final(c)@.arena)),
    { c.scope.binder.bind_analyze(name, &mut c.scope.arena) };
    match executor.execute(build) {
        Ok(iter) => iter.done(),
        Err(err) => Err(err),
    }
}

} // verus!
