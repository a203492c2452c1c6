//! Queries over a model: tables, filters, joins and what is read from the rows.

use crate::binder::plan::{attached, bound, filter_view, lemma_attached, over};
use crate::binder::{column_view, source_views, BinderView, NameBinding, QueryBindStep, SourceView};
use crate::catalog::{ColumnRef, TableName};
use crate::errors::DatabaseError;
use crate::expression::identity::{drop_repeats, without_repeats};
use crate::expression::{ExprView, ScalarExpression};
use crate::optimizer::rule::normalization::elimination::SPILL;
use crate::orm::bindable::{refs_of, BindOrmScalar, BindOrmScalarList, BindOrmSort};
use crate::orm::field::{Model, OrmField};
use crate::orm::row::FromQueryRow;
use crate::orm::scope::{
    all_fit, alloc_view, bind_view, bind_views, column_bound, counted, lemma_extended_trans, named,
    orm_views, ExprBindScope, IntoOrmExpression, OrmView, ScopeView,
};
use crate::planner::arena::{ArenaView, ExprRef, PlanArena};
use crate::planner::operator::aggregate::AggregateView;
use crate::planner::operator::dml::DeleteView;
use crate::planner::operator::limit::LimitOperator;
use crate::planner::operator::sort::SortField;
use crate::planner::operator::{valid_fields, OperatorView};
use crate::planner::schema::lemma_plan_valid_within;
use crate::planner::{LogicalPlan, PlanView};
use crate::text::same_text;
use std::marker::PhantomData;
use vstd::prelude::*;

verus! {

/// The scope at another part of the query.
pub open spec fn at_step(scope: ScopeView, step: QueryBindStep) -> ScopeView {
    ScopeView { binder: BinderView { step, ..scope.binder }, ..scope }
}

/// The scope without waiting subqueries.
pub open spec fn settled(scope: ScopeView) -> ScopeView {
    ScopeView { binder: BinderView { pending: Seq::empty(), ..scope.binder }, ..scope }
}

/// A result, or an error and the scope that it left.
pub enum Outcome<S> {
    Done(S),
    Failed(DatabaseError, ScopeView),
}

/// A query whose tables and filters are known.
pub struct FromState {
    pub scope: ScopeView,
    pub plan: PlanView,
}

/// A query of which is also known what is read from its rows.
pub struct ListState {
    pub scope: ScopeView,
    pub plan: PlanView,
    pub select: Seq<ExprRef>,
    pub group: Seq<ExprRef>,
    pub having: Seq<ExprRef>,
    pub sort: Seq<SortField>,
    /// Whether rows that read alike are read once.
    pub distinct: bool,
}

impl FromState {
    /// Whether everything that the query refers to is in its arena.
    pub open spec fn wf(self) -> bool {
        self.scope.known() && bound(self.plan, self.scope.arena)
    }

    /// The query that reads the expressions.
    pub open spec fn reading(self, scope: ScopeView, select: Seq<ExprRef>) -> ListState {
        ListState {
            scope,
            plan: self.plan,
            select,
            group: Seq::empty(),
            having: Seq::empty(),
            sort: Seq::empty(),
            distinct: false,
        }
    }
}

impl ListState {
    /// Whether everything that the query refers to is in its arena.
    pub open spec fn wf(self) -> bool {
        &&& self.scope.known()
        &&& bound(self.plan, self.scope.arena)
        &&& self.scope.arena.has_exprs(self.select)
        &&& self.scope.arena.has_exprs(self.group)
        &&& self.scope.arena.has_exprs(self.having)
        &&& valid_fields(self.scope.arena, self.sort)
    }
}

/// A bound plan stays bound when the arena grows.
pub proof fn lemma_bound_extended(plan: PlanView, before: ArenaView, after: ArenaView)
    requires
        bound(plan, before),
        before.extended_by(after),
    ensures
        bound(plan, after),
{
    lemma_plan_valid_within(plan, before, after);
}

/// A query stays bound when its arena grows.
proof fn lemma_list_extended(list: ListState, scope: ScopeView)
    requires
        list.wf(),
        scope.known(),
        list.scope.extended_by(scope),
    ensures
        (ListState { scope, ..list }).wf(),
{
    lemma_bound_extended(list.plan, list.scope.arena, scope.arena);
}

/// What a given expression is bound to.
pub open spec fn expr_bound(mid: ScopeView, given: Result<OrmView, DatabaseError>) -> Outcome<
    (ExprRef, ScopeView),
> {
    match given {
        Err(err) => Outcome::Failed(err, mid),
        Ok(expr) => {
            let (res, arena) = bind_view(mid.arena, expr);
            Outcome::Done((res, mid.with_arena(arena)))
        },
    }
}

/// What given expressions are bound to.
pub open spec fn exprs_bound(mid: ScopeView, given: Result<Seq<OrmView>, DatabaseError>) -> Outcome<
    (Seq<ExprRef>, ScopeView),
> {
    match given {
        Err(err) => Outcome::Failed(err, mid),
        Ok(exprs) => {
            let (res, arena) = bind_views(mid.arena, exprs);
            Outcome::Done((res, mid.with_arena(arena)))
        },
    }
}

/// A result with what is given as an expression.
pub open spec fn orm_of<E: IntoOrmExpression>(r: Result<E, DatabaseError>) -> Result<
    OrmView,
    DatabaseError,
> {
    match r {
        Ok(expr) => Ok(expr.orm()),
        Err(err) => Err(err),
    }
}

/// A result with what is given as expressions.
pub open spec fn orms_of<E: IntoOrmExpression>(r: Result<Vec<E>, DatabaseError>) -> Result<
    Seq<OrmView>,
    DatabaseError,
> {
    match r {
        Ok(exprs) => Ok(orm_views(exprs@)),
        Err(err) => Err(err),
    }
}

/// A bound expression is given as it is.
pub open spec fn ref_given(r: Result<ExprRef, DatabaseError>) -> Result<OrmView, DatabaseError> {
    match r {
        Ok(expr) => Ok(OrmView::Bound(expr)),
        Err(err) => Err(err),
    }
}

/// The outcome of a filter by what is given.
pub open spec fn filtered(
    from: FromState,
    mid: ScopeView,
    given: Result<OrmView, DatabaseError>,
) -> Outcome<FromState> {
    match expr_bound(mid, given) {
        Outcome::Failed(err, scope) => Outcome::Failed(err, scope),
        Outcome::Done((predicate, scope)) => Outcome::Done(
            FromState {
                scope: settled(scope),
                plan: filter_view(
                    predicate,
                    false,
                    attached(from.plan, scope.binder.pending),
                ),
            },
        ),
    }
}

/// The outcome of reading what is given.
pub open spec fn reads_one(
    from: FromState,
    mid: ScopeView,
    given: Result<OrmView, DatabaseError>,
) -> Outcome<ListState> {
    match expr_bound(mid, given) {
        Outcome::Failed(err, scope) => Outcome::Failed(err, scope),
        Outcome::Done((expr, scope)) => Outcome::Done(from.reading(scope, seq![expr])),
    }
}

/// The outcome of reading all that is given.
pub open spec fn reads_all(
    from: FromState,
    mid: ScopeView,
    given: Result<Seq<OrmView>, DatabaseError>,
) -> Outcome<ListState> {
    match exprs_bound(mid, given) {
        Outcome::Failed(err, scope) => Outcome::Failed(err, scope),
        Outcome::Done((exprs, scope)) => Outcome::Done(from.reading(scope, exprs)),
    }
}

/// The outcome of reading bound expressions.
pub open spec fn reads_refs(
    from: FromState,
    mid: ScopeView,
    given: Result<Seq<ExprRef>, DatabaseError>,
) -> Outcome<ListState> {
    match given {
        Err(err) => Outcome::Failed(err, mid),
        Ok(exprs) => Outcome::Done(from.reading(mid, exprs)),
    }
}

/// The outcome of reading what is given in place of what was read before.
pub open spec fn selects_one(
    list: ListState,
    mid: ScopeView,
    given: Result<OrmView, DatabaseError>,
) -> Outcome<ListState> {
    match expr_bound(mid, given) {
        Outcome::Failed(err, scope) => Outcome::Failed(err, scope),
        Outcome::Done((expr, scope)) => Outcome::Done(
            ListState { scope, select: seq![expr], ..list },
        ),
    }
}

/// The outcome of reading all that is given in place of what was read before.
pub open spec fn selects_all(
    list: ListState,
    mid: ScopeView,
    given: Result<Seq<OrmView>, DatabaseError>,
) -> Outcome<ListState> {
    match exprs_bound(mid, given) {
        Outcome::Failed(err, scope) => Outcome::Failed(err, scope),
        Outcome::Done((exprs, scope)) => Outcome::Done(ListState { scope, select: exprs, ..list }),
    }
}

/// The outcome of reading bound expressions in place of what was read before.
pub open spec fn selects_refs(
    list: ListState,
    mid: ScopeView,
    given: Result<Seq<ExprRef>, DatabaseError>,
) -> Outcome<ListState> {
    match given {
        Err(err) => Outcome::Failed(err, mid),
        Ok(exprs) => Outcome::Done(ListState { scope: mid, select: exprs, ..list }),
    }
}

/// The outcome of grouping by what is given.
pub open spec fn grouped(
    list: ListState,
    mid: ScopeView,
    given: Result<OrmView, DatabaseError>,
) -> Outcome<ListState> {
    match expr_bound(mid, given) {
        Outcome::Failed(err, scope) => Outcome::Failed(err, scope),
        Outcome::Done((expr, scope)) => Outcome::Done(
            ListState { scope, group: list.group.push(expr), ..list },
        ),
    }
}

/// The outcome of keeping the groups for which what is given holds.
pub open spec fn kept_groups(
    list: ListState,
    mid: ScopeView,
    given: Result<OrmView, DatabaseError>,
) -> Outcome<ListState> {
    match expr_bound(mid, given) {
        Outcome::Failed(err, scope) => Outcome::Failed(err, scope),
        Outcome::Done((expr, scope)) => Outcome::Done(
            ListState { scope, having: list.having.push(expr), ..list },
        ),
    }
}

/// The outcome of ordering by what is given.
pub open spec fn sorted(
    list: ListState,
    mid: ScopeView,
    given: Result<SortField, DatabaseError>,
) -> Outcome<ListState> {
    match given {
        Err(err) => Outcome::Failed(err, mid),
        Ok(field) => Outcome::Done(ListState { scope: mid, sort: list.sort.push(field), ..list }),
    }
}

/// The last table of the name, under the name that it goes by.
pub open spec fn relation_of(sources: Seq<SourceView>, table: Seq<char>) -> Option<Seq<char>>
    decreases sources.len(),
{
    if sources.len() == 0 {
        None
    } else if sources.last().table == table {
        Some(sources.last().visible())
    } else {
        relation_of(sources.drop_last(), table)
    }
}

/// The names of the columns of the fields.
pub open spec fn field_names(fields: Seq<OrmField>) -> Seq<Seq<char>> {
    fields.map_values(|field: OrmField| field.column@)
}

/// A column that is found.
pub open spec fn found_column(scope: ScopeView, relation: Seq<char>, name: Seq<char>) -> Option<
    (ExprRef, ScopeView),
> {
    match scope.binder.binding(scope.arena, relation, name) {
        NameBinding::Own { column, position } => {
            let (ctx, after) = alloc_view(scope, column_view(column, position));
            Some((ctx.expr, after))
        },
        NameBinding::Outer { column, position } => {
            let (ctx, after) = alloc_view(
                ScopeView { binder: BinderView { outer_refs: true, ..scope.binder }, ..scope },
                column_view(column, position),
            );
            Some((ctx.expr, after))
        },
        _ => None,
    }
}

/// The columns of the names, as far as all are found.
pub open spec fn found_columns(
    scope: ScopeView,
    relation: Seq<char>,
    names: Seq<Seq<char>>,
) -> Option<(Seq<ExprRef>, ScopeView)>
    decreases names.len(),
{
    if names.len() == 0 {
        Some((Seq::empty(), scope))
    } else {
        match found_columns(scope, relation, names.drop_last()) {
            Some((exprs, middle)) => match found_column(middle, relation, names.last()) {
                Some((expr, after)) => Some((exprs.push(expr), after)),
                None => None,
            },
            None => None,
        }
    }
}

/// Where the columns end to be found.
proof fn lemma_found_prefix(
    scope: ScopeView,
    relation: Seq<char>,
    names: Seq<Seq<char>>,
    count: int,
)
    requires
        0 <= count <= names.len(),
        found_columns(scope, relation, names.take(count)) is None,
    ensures
        found_columns(scope, relation, names) is None,
    decreases names.len() - count,
{
    if count < names.len() {
        assert(names.take(count + 1).drop_last() =~= names.take(count));
        lemma_found_prefix(scope, relation, names, count + 1);
    } else {
        assert(names.take(count) =~= names);
    }
}

/// The query that reads all fields of the model.
pub open spec fn model_list<M: Model>(from: FromState) -> Option<ListState> {
    match relation_of(from.scope.binder.sources, M::table()) {
        None => None,
        Some(relation) => match found_columns(
            at_step(from.scope, QueryBindStep::Project),
            relation,
            field_names(M::columns()),
        ) {
            Some((exprs, scope)) => Some(
                from.reading(at_step(scope, from.scope.binder.step), exprs),
            ),
            None => None,
        },
    }
}

/// Whether the column at the position is the first that is not found, with the error.
pub open spec fn stops_at(
    scope: ScopeView,
    relation: Seq<char>,
    names: Seq<Seq<char>>,
    k: int,
    after: ScopeView,
    err: DatabaseError,
) -> bool {
    &&& 0 <= k < names.len()
    &&& found_columns(scope, relation, names.take(k)) matches Some((exprs, mid)) && column_bound(
        mid,
        relation,
        names[k],
        after,
        Err(err),
    )
}

/// Whether the error says why not all fields of the model can be read: its table is not part of
/// the query, or a column is missing.
pub open spec fn model_refused<M: Model>(
    from: FromState,
    err: DatabaseError,
    last: ScopeView,
) -> bool {
    match relation_of(from.scope.binder.sources, M::table()) {
        None => (err matches DatabaseError::InvalidTable { name } && name@ == M::table()) && last
            == from.scope,
        Some(relation) => exists|k: int, mid: ScopeView|
            {
                &&& #[trigger] stops_at(
                    at_step(from.scope, QueryBindStep::Project),
                    relation,
                    field_names(M::columns()),
                    k,
                    mid,
                    err,
                )
                &&& last == at_step(mid, from.scope.binder.step)
            },
    }
}

/// The aggregates of an expression, from left to right.
pub open spec fn aggregates(exprs: Seq<ExprView>, expr: ExprRef) -> Seq<ExprRef>
    decreases expr.0, 1nat, 0nat,
{
    if expr.0 >= exprs.len() {
        Seq::empty()
    } else if exprs[expr.0 as int].head is AggCall {
        seq![expr]
    } else {
        aggregates_of(exprs, exprs[expr.0 as int].children, expr.0 as nat)
    }
}

/// The aggregates of the expressions.
pub open spec fn aggregates_of(exprs: Seq<ExprView>, list: Seq<ExprRef>, limit: nat) -> Seq<ExprRef>
    decreases limit, 0nat, list.len(),
{
    if list.len() == 0 {
        Seq::empty()
    } else {
        aggregates_of(exprs, list.drop_last(), limit) + (if list.last().0 < limit {
            aggregates(exprs, list.last())
        } else {
            Seq::empty()
        })
    }
}

/// The expressions of a query that may hold aggregates.
pub open spec fn computed(list: ListState) -> Seq<ExprRef> {
    list.select + list.having + list.sort.map_values(|field: SortField| field.expr)
}

/// The plan of a query with its groups. Each aggregate is computed once.
pub open spec fn grouped_plan(list: ListState) -> (PlanView, ScopeView) {
    let exprs = list.scope.arena.exprs;
    let calls = without_repeats(exprs, aggregates_of(exprs, computed(list), exprs.len()));
    if list.group.len() > 0 || calls.len() > 0 {
        (
            over(
                OperatorView::Aggregate(
                    AggregateView {
                        groupby_exprs: list.group,
                        agg_calls: calls,
                        is_distinct: false,
                        force_spill: list.scope.binder.force_spill,
                    },
                ),
                attached(list.plan, list.scope.binder.pending),
            ),
            settled(list.scope),
        )
    } else {
        (list.plan, list.scope)
    }
}

/// The plan with a filter for each condition on the groups.
pub open spec fn having_plan(plan: PlanView, scope: ScopeView, having: Seq<ExprRef>) -> (
    PlanView,
    ScopeView,
)
    decreases having.len(),
{
    if having.len() == 0 {
        (plan, scope)
    } else {
        let (inner, last) = having_plan(plan, scope, having.drop_last());
        (
            filter_view(having.last(), true, attached(inner, last.binder.pending)),
            settled(last),
        )
    }
}

/// The plan that reads each row once, where that is asked for.
pub open spec fn distinct_plan(list: ListState, plan: PlanView, scope: ScopeView) -> (
    PlanView,
    ScopeView,
) {
    if list.distinct {
        (
            over(
                OperatorView::Aggregate(
                    AggregateView {
                        groupby_exprs: list.select,
                        agg_calls: Seq::empty(),
                        is_distinct: true,
                        force_spill: scope.binder.force_spill,
                    },
                ),
                attached(plan, scope.binder.pending),
            ),
            settled(scope),
        )
    } else {
        (plan, scope)
    }
}

/// The plan of a query: its groups, the conditions on them, the removal of repeated rows, the
/// order, and what is read.
pub open spec fn finished(list: ListState) -> (PlanView, ScopeView) {
    let (first, after_group) = grouped_plan(list);
    let (second, after_having) = having_plan(first, after_group, list.having);
    let (third, after_distinct) = distinct_plan(list, second, after_having);
    let (fourth, after_sort) = if list.sort.len() > 0 {
        (
            over(
                OperatorView::Sort(list.sort),
                attached(third, after_distinct.binder.pending),
            ),
            settled(after_distinct),
        )
    } else {
        (third, after_distinct)
    };
    (
        over(OperatorView::Project(list.select), attached(fourth, after_sort.binder.pending)),
        settled(after_sort),
    )
}

/// The query that counts the rows.
pub open spec fn counting(list: ListState) -> ListState {
    let (count, mid) = counted(at_step(list.scope, QueryBindStep::Project));
    let (ctx, after) = named(mid, OrmView::Bound(count.expr), "count"@);
    ListState {
        scope: at_step(after, list.scope.binder.step),
        select: seq![ctx.expr],
        group: Seq::empty(),
        ..list
    }
}

/// A query over the table of a model.
#[derive(Debug)]
pub struct BindPlanFrom<'s, 'a, M> {
    pub scope: &'s mut ExprBindScope<'a>,
    pub plan: LogicalPlan,
    pub marker: PhantomData<M>,
}

/// A query of which is known what is read from its rows.
#[derive(Debug)]
pub struct BindPlanSelectList<'s, 'a, M> {
    pub scope: &'s mut ExprBindScope<'a>,
    pub plan: LogicalPlan,
    pub select: Vec<ExprRef>,
    pub group: Vec<ExprRef>,
    pub having: Vec<ExprRef>,
    pub sort: Vec<SortField>,
    pub distinct: bool,
    pub marker: PhantomData<M>,
}

impl<'s, 'a, M> BindPlanFrom<'s, 'a, M> {
    /// The query.
    pub open spec fn state(&self) -> FromState {
        FromState { scope: self.scope@, plan: self.plan@ }
    }
}

impl<'s, 'a, M> BindPlanSelectList<'s, 'a, M> {
    /// The query.
    pub open spec fn state(&self) -> ListState {
        ListState {
            scope: self.scope@,
            plan: self.plan@,
            select: self.select@,
            group: self.group@,
            having: self.having@,
            sort: self.sort@,
            distinct: self.distinct,
        }
    }
}

impl<'a> ExprBindScope<'a> {
    /// Goes to another part of the query.
    pub fn enter(&mut self, step: QueryBindStep) -> (res: QueryBindStep)
        ensures
            res == old(self)@.binder.step,
            final(self)@ == at_step(old(self)@, step),
            old(self).known() ==> final(self).known(),
    {
        let last = self.binder.step;
        self.binder.step = step;
        assert(self@.binder == BinderView { step, ..old(self)@.binder });
        last
    }
}

/// Runs a function at a part of the query and binds the expression that it gives.
pub(crate) fn bind_step<'a, E: IntoOrmExpression, F>(
    scope: &mut ExprBindScope<'a>,
    step: QueryBindStep,
    build: F,
) -> (res: Result<ExprRef, DatabaseError>) where
    F: FnOnce(&mut ExprBindScope<'a>) -> Result<E, DatabaseError>,

    requires
        old(scope).known(),
        forall|x: &mut ExprBindScope<'a>| x.known() ==> #[trigger] call_requires(build, (x,)),
        forall|x: &mut ExprBindScope<'a>, r: Result<E, DatabaseError>|
            x.known() && #[trigger] call_ensures(build, (x,), r) ==> final(x).known()
                && x@.extended_by(final(x)@) && (r matches Ok(given) ==> given.orm().fits(
                final(x)@.arena,
            )),
    ensures
        exists|x: &mut ExprBindScope<'a>, r: Result<E, DatabaseError>|
            {
                &&& x@ == at_step(old(scope)@, step)
                &&& #[trigger] call_ensures(build, (x,), r)
                &&& match expr_bound(at_step(final(x)@, old(scope)@.binder.step), orm_of(r)) {
                    Outcome::Done((expr, after)) => res == Ok::<ExprRef, DatabaseError>(expr)
                        && final(scope)@ == after,
                    Outcome::Failed(err, after) => res == Err::<ExprRef, DatabaseError>(err)
                        && final(scope)@ == after,
                }
            },
        final(scope).known(),
        old(scope)@.extended_by(final(scope)@),
        res matches Ok(expr) ==> final(scope)@.arena.has_expr(expr),
{
    let ghost start = scope@;
    let last = scope.enter(step);
    let ran = build(scope);
    let ghost mid = *scope;
    let _ = scope.enter(last);
    match ran {
        Ok(expr) => {
            let res = scope.bind(expr.into_orm_expression());
            proof {
                lemma_extended_trans(start.arena, mid@.arena, scope@.arena);
            }
            Ok(res)
        },
        Err(err) => Err(err),
    }
}

/// Runs a function at a part of the query and binds the expressions that it gives.
fn bind_steps<'a, E: IntoOrmExpression, F>(
    scope: &mut ExprBindScope<'a>,
    step: QueryBindStep,
    build: F,
) -> (res: Result<Vec<ExprRef>, DatabaseError>) where
    F: FnOnce(&mut ExprBindScope<'a>) -> Result<Vec<E>, DatabaseError>,

    requires
        old(scope).known(),
        forall|x: &mut ExprBindScope<'a>| x.known() ==> #[trigger] call_requires(build, (x,)),
        forall|x: &mut ExprBindScope<'a>, r: Result<Vec<E>, DatabaseError>|
            x.known() && #[trigger] call_ensures(build, (x,), r) ==> final(x).known()
                && x@.extended_by(final(x)@) && (r matches Ok(given) ==> all_fit(
                orm_views(given@),
                final(x)@.arena,
            )),
    ensures
        exists|x: &mut ExprBindScope<'a>, r: Result<Vec<E>, DatabaseError>|
            {
                &&& x@ == at_step(old(scope)@, step)
                &&& #[trigger] call_ensures(build, (x,), r)
                &&& match exprs_bound(at_step(final(x)@, old(scope)@.binder.step), orms_of(r)) {
                    Outcome::Done((exprs, after)) => (res matches Ok(list) && list@ == exprs)
                        && final(scope)@ == after,
                    Outcome::Failed(err, after) => (res matches Err(e) && e == err)
                        && final(scope)@ == after,
                }
            },
        final(scope).known(),
        old(scope)@.extended_by(final(scope)@),
        res matches Ok(exprs) ==> final(scope)@.arena.has_exprs(exprs@),
{
    let ghost start = scope@;
    let last = scope.enter(step);
    let ran = build(scope);
    let ghost mid = *scope;
    let _ = scope.enter(last);
    match ran {
        Ok(exprs) => {
            let res = scope.bind_list(exprs);
            proof {
                lemma_extended_trans(start.arena, mid@.arena, scope@.arena);
            }
            Ok(res)
        },
        Err(err) => Err(err),
    }
}

/// Binds the columns of the fields, from the first to the last.
fn bind_fields<'a>(scope: &mut ExprBindScope<'a>, relation: &str, fields: &[OrmField]) -> (res:
    Result<Vec<ExprRef>, DatabaseError>)
    requires
        old(scope).known(),
    ensures
        match found_columns(old(scope)@, relation@, field_names(fields@)) {
            Some((exprs, after)) => (res matches Ok(list) && list@ == exprs) && final(scope)@
                == after,
            None => res matches Err(err) && exists|k: int| #[trigger]
                stops_at(
                    old(scope)@,
                    relation@,
                    field_names(fields@),
                    k,
                    final(scope)@,
                    err,
                ),
        },
        final(scope).known(),
        old(scope)@.extended_by(final(scope)@),
        res matches Ok(exprs) ==> final(scope)@.arena.has_exprs(exprs@),
{
    let ghost start = scope@;
    let ghost names = field_names(fields@);
    let mut select: Vec<ExprRef> = Vec::new();
    let mut i: usize = 0;
    assert(names.take(0) =~= Seq::empty());
    while i < fields.len()
        invariant
            i <= fields@.len(),
            start == old(scope)@,
            names == field_names(fields@),
            scope.known(),
            start.extended_by(scope@),
            found_columns(start, relation@, names.take(i as int)) == Some((select@, scope@)),
            scope@.arena.has_exprs(select@),
        decreases fields@.len() - i,
    {
        let ghost before = scope@;
        assert(names[i as int] == fields@[i as int].column@);
        proof {
            let next = names.take(i + 1);
            assert(next.drop_last() =~= names.take(i as int));
            assert(next.last() == names[i as int]);
        }
        match scope.column_ref(relation, fields[i].column) {
            Ok(ctx) => {
                assert(found_column(before, relation@, names[i as int]) == Some(
                    (ctx.expr, scope@),
                ));
                select.push(ctx.into_scalar());
                proof {
                    lemma_extended_trans(start.arena, before.arena, scope@.arena);
                }
            },
            Err(err) => {
                proof {
                    assert(found_column(before, relation@, names[i as int]) is None);
                    lemma_found_prefix(start, relation@, names, i + 1);
                    assert(stops_at(start, relation@, names, i as int, scope@, err));
                    lemma_extended_trans(start.arena, before.arena, scope@.arena);
                }
                return Err(err);
            },
        }
        i += 1;
    }
    assert(names.take(i as int) =~= names);
    Ok(select)
}

impl<'s, 'a, M: Model> BindPlanFrom<'s, 'a, M> {
    /// The name that the table of the model goes by in the query.
    pub(crate) fn model_relation_name(&self) -> (res: Result<String, DatabaseError>)
        ensures
            match relation_of(self.state().scope.binder.sources, M::table()) {
                Some(relation) => res matches Ok(name) && name@ == relation,
                None => res matches Err(DatabaseError::InvalidTable { name }) && name@
                    == M::table(),
            },
    {
        let table = M::table_name();
        let ghost views = self.scope@.binder.sources;
        let mut i: usize = self.scope.binder.sources.len();
        assert(views.take(i as int) =~= views);
        while i > 0
            invariant
                i <= self.scope.binder.sources@.len(),
                views == source_views(self.scope.binder.sources@),
                table@ == M::table(),
                relation_of(views, M::table()) == relation_of(views.take(i as int), M::table()),
            decreases i,
        {
            i -= 1;
            let source = &self.scope.binder.sources[i];
            proof {
                let prefix = views.take(i + 1);
                assert(prefix.last() == source@);
                assert(prefix.drop_last() =~= views.take(i as int));
            }
            if same_text(source.table_name.as_str(), table) {
                return Ok(source.visible_name().clone());
            }
        }
        Err(DatabaseError::invalid_table(table.to_string()))
    }

    /// Makes the groupings of the query write to disk.
    pub fn force_spill(self) -> (res: Result<Self, DatabaseError>)
        ensures
            if SPILL {
                res matches Ok(query) && query.state() == (FromState {
                    scope: ScopeView {
                        binder: BinderView { force_spill: true, ..self.state().scope.binder },
                        ..self.state().scope
                    },
                    ..self.state()
                }) && (self.state().wf() ==> query.state().wf()) && *final(query.scope)
                    == *final(self.scope)
            } else {
                res matches Err(DatabaseError::UnsupportedStmt(text)) && text@
                    == "force_spill requires the `spill` feature"@
            },
    {
        if !SPILL {
            return Err(
                DatabaseError::UnsupportedStmt(
                    "force_spill requires the `spill` feature".to_string(),
                ),
            );
        }
        let ghost before = self.state();
        let BindPlanFrom { scope, plan, marker } = self;
        scope.binder.force_spill = true;
        assert(scope@.binder == BinderView { force_spill: true, ..before.scope.binder });
        Ok(BindPlanFrom { scope, plan, marker })
    }

    /// Makes the further joins of the query compare all rows.
    pub fn force_nested_loop(self) -> (res: Self)
        ensures
            res.state() == (FromState {
                scope: ScopeView {
                    binder: BinderView { force_nested_loop: true, ..self.state().scope.binder },
                    ..self.state().scope
                },
                ..self.state()
            }),
            self.state().wf() ==> res.state().wf(),
            *final(res.scope) == *final(self.scope),
    {
        let ghost before = self.state();
        let BindPlanFrom { scope, plan, marker } = self;
        scope.binder.force_nested_loop = true;
        assert(scope@.binder == BinderView { force_nested_loop: true, ..before.scope.binder });
        BindPlanFrom { scope, plan, marker }
    }

    /// Keeps the rows for which the expression holds.
    pub fn filter<E: IntoOrmExpression, F>(self,
        build: F) -> (res: Result<Self, DatabaseError>) where
        F: FnOnce(&mut ExprBindScope<'a>) -> Result<E, DatabaseError>,

        requires
            self.state().wf(),
            forall|x: &mut ExprBindScope<'a>|
                x.known() ==> #[trigger] call_requires(build, (x,)),
            forall|x: &mut ExprBindScope<'a>, r: Result<E, DatabaseError>|
                x.known() && #[trigger] call_ensures(build, (x,), r) ==> final(x).known()
                    && x@.extended_by(final(x)@)
                        && (r matches Ok(given) ==> given.orm().fits(final(x)@.arena)),
        ensures
            exists|x: &mut ExprBindScope<'a>, r: Result<E, DatabaseError>|
                {
                    &&& x@ == at_step(self.state().scope, QueryBindStep::Where)
                    &&& #[trigger] call_ensures(build, (x,), r)
                    &&& match filtered(self.state(),
                        at_step(final(x)@, self.state().scope.binder.step), orm_of(r)) {
                        Outcome::Done(state) => res matches Ok(query) && query.state() == state
                            && state.wf()
                            && self.state().scope.extended_by(state.scope) && *final(query.scope)
                            == *final(self.scope),
                        Outcome::Failed(err, scope) => (res matches Err(e) && e == err)
                            && final(self.scope)@ == scope && scope.known()
                            && self.state().scope.extended_by(scope),
                    }
                },
    {
        let ghost from = self.state();
        let BindPlanFrom { scope, plan, marker } = self;
        let step = bind_step(scope, QueryBindStep::Where, build);
        let ghost mid = scope@;
        match step {
            Ok(predicate) => {
                let plan = scope.binder.bind_filter(plan, predicate);
                proof {
                    lemma_bound_extended(from.plan, from.scope.arena, mid.arena);
                    lemma_attached(from.plan, mid.binder.pending, mid.arena);
                    assert(scope@ == settled(mid));
                    assert(scope.known());
                }
                Ok(BindPlanFrom { scope, plan, marker })
            },
            Err(err) => Err(err),
        }
    }

    fn select_list(self, select: Vec<ExprRef>) -> (res: BindPlanSelectList<'s, 'a, M>)
        requires
            self.state().wf(),
            self.state().scope.arena.has_exprs(select@),
        ensures
            res.state() == self.state().reading(self.state().scope, select@),
            res.state().wf(),
            *final(res.scope) == *final(self.scope),
    {
        let res = BindPlanSelectList {
            scope: self.scope,
            plan: self.plan,
            select,
            group: Vec::new(),
            having: Vec::new(),
            sort: Vec::new(),
            distinct: false,
            marker: self.marker,
        };
        assert(res.state().group =~= Seq::empty());
        assert(res.state().having =~= Seq::empty());
        assert(res.state().sort =~= Seq::empty());
        res
    }

    /// Reads all fields of the model.
    pub fn project_model(self) -> (res: Result<BindPlanSelectList<'s, 'a, M>, DatabaseError>)
        requires
            self.state().wf(),
        ensures
            match model_list::<M>(self.state()) {
                Some(state) => res matches Ok(query) && query.state() == state && state.wf()
                    && *final(query.scope) == *final(self.scope),
                None => (res matches Err(err) && model_refused::<M>(
                    self.state(),
                    err,
                    final(self.scope)@,
                )) && final(self.scope).known() && self.state().scope.extended_by(
                    final(self.scope)@,
                ),
            },
            res matches Ok(query) ==> self.state().scope.extended_by(query.state().scope),
    {
        let ghost from = self.state();
        let relation = match self.model_relation_name() {
            Ok(relation) => relation,
            Err(err) => {
                return Err(err);
            },
        };
        let BindPlanFrom { scope, plan, marker } = self;
        let last = scope.enter(QueryBindStep::Project);
        let ghost start = scope@;
        let ran = bind_fields(scope, relation.as_str(), M::fields());
        let ghost mid = scope@;
        let _ = scope.enter(last);
        let select = match ran {
            Ok(select) => select,
            Err(err) => {
                proof {
                    let k = choose|k: int|
                        stops_at(start, relation@, field_names(M::columns()), k, mid, err);
                    assert(stops_at(start, relation@, field_names(M::columns()), k, mid, err));
                }
                return Err(err);
            },
        };
        proof {
            lemma_bound_extended(from.plan, from.scope.arena, scope@.arena);
        }
        Ok(BindPlanFrom { scope, plan, marker }.select_list(select))
    }

    /// Reads one expression.
    pub fn project_value<E: IntoOrmExpression, F>(self, build: F) -> (res: Result<
        BindPlanSelectList<'s, 'a, M>,
        DatabaseError,
    >) where F: FnOnce(&mut ExprBindScope<'a>) -> Result<E, DatabaseError>
        requires
            self.state().wf(),
            forall|x: &mut ExprBindScope<'a>|
                x.known() ==> #[trigger] call_requires(build, (x,)),
            forall|x: &mut ExprBindScope<'a>, r: Result<E, DatabaseError>|
                x.known() && #[trigger] call_ensures(build, (x,), r) ==> final(x).known()
                    && x@.extended_by(final(x)@)
                        && (r matches Ok(given) ==> given.orm().fits(final(x)@.arena)),
        ensures
            exists|x: &mut ExprBindScope<'a>, r: Result<E, DatabaseError>|
                {
                    &&& x@ == at_step(self.state().scope, QueryBindStep::Project)
                    &&& #[trigger] call_ensures(build, (x,), r)
                    &&& match reads_one(self.state(),
                        at_step(final(x)@, self.state().scope.binder.step), orm_of(r)) {
                        Outcome::Done(state) => res matches Ok(query) && query.state() == state
                            && state.wf()
                            && self.state().scope.extended_by(state.scope) && *final(query.scope)
                            == *final(self.scope),
                        Outcome::Failed(err, scope) => (res matches Err(e) && e == err)
                            && final(self.scope)@ == scope && scope.known()
                            && self.state().scope.extended_by(scope),
                    }
                },
    {
        let ghost from = self.state();
        let BindPlanFrom { scope, plan, marker } = self;
        let step = bind_step(scope, QueryBindStep::Project, build);
        match step {
            Ok(given) => {
                proof {
                    lemma_bound_extended(from.plan, from.scope.arena, scope@.arena);
                }
                let mut select: Vec<ExprRef> = Vec::new();
                select.push(given);
                assert(select@ =~= seq![given]);
                Ok(BindPlanFrom { scope, plan, marker }.select_list(select))
            },
            Err(err) => Err(err),
        }
    }

    /// Reads several expressions.
    pub fn project_tuple<E: IntoOrmExpression, F>(self, build: F) -> (res: Result<
        BindPlanSelectList<'s, 'a, M>,
        DatabaseError,
    >) where F: FnOnce(&mut ExprBindScope<'a>) -> Result<Vec<E>, DatabaseError>
        requires
            self.state().wf(),
            forall|x: &mut ExprBindScope<'a>|
                x.known() ==> #[trigger] call_requires(build, (x,)),
            forall|x: &mut ExprBindScope<'a>, r: Result<Vec<E>, DatabaseError>|
                x.known() && #[trigger] call_ensures(build, (x,), r) ==> final(x).known()
                    && x@.extended_by(final(x)@)
                        && (r matches Ok(given) ==> all_fit(orm_views(given@), final(x)@.arena)),
        ensures
            exists|x: &mut ExprBindScope<'a>, r: Result<Vec<E>, DatabaseError>|
                {
                    &&& x@ == at_step(self.state().scope, QueryBindStep::Project)
                    &&& #[trigger] call_ensures(build, (x,), r)
                    &&& match reads_all(self.state(),
                        at_step(final(x)@, self.state().scope.binder.step), orms_of(r)) {
                        Outcome::Done(state) => res matches Ok(query) && query.state() == state
                            && state.wf()
                            && self.state().scope.extended_by(state.scope) && *final(query.scope)
                            == *final(self.scope),
                        Outcome::Failed(err, scope) => (res matches Err(e) && e == err)
                            && final(self.scope)@ == scope && scope.known()
                            && self.state().scope.extended_by(scope),
                    }
                },
    {
        let ghost from = self.state();
        let BindPlanFrom { scope, plan, marker } = self;
        let step = bind_steps(scope, QueryBindStep::Project, build);
        match step {
            Ok(given) => {
                proof {
                    lemma_bound_extended(from.plan, from.scope.arena, scope@.arena);
                }
                Ok(BindPlanFrom { scope, plan, marker }.select_list(given))
            },
            Err(err) => Err(err),
        }
    }

    /// Reads what can be bound to one expression.
    pub fn project_scalar<B: BindOrmScalar>(self, build: B) -> (res: Result<
        BindPlanSelectList<'s, 'a, M>,
        DatabaseError,
    >)
        requires
            self.state().wf(),
            build.scalar_fits(self.state().scope.arena),
        ensures
            exists|mid: ScopeView, r: Result<ExprRef, DatabaseError>|
                {
                    &&& #[trigger] build.scalar_binds(
                        at_step(self.state().scope, QueryBindStep::Project),
                        mid,
                        r,
                    )
                    &&& match reads_one(
                        self.state(),
                        at_step(mid, self.state().scope.binder.step),
                        ref_given(r),
                    ) {
                        Outcome::Done(state) => res matches Ok(query) && query.state() == state
                            && state.wf()
                            && self.state().scope.extended_by(state.scope) && *final(query.scope)
                            == *final(self.scope),
                        Outcome::Failed(err, scope) => (res matches Err(e) && e == err)
                            && final(self.scope)@ == scope && scope.known()
                            && self.state().scope.extended_by(scope),
                    }
                },
    {
        let ghost from = self.state();
        let BindPlanFrom { scope, plan, marker } = self;
        let last = scope.enter(QueryBindStep::Project);
        let ran = build.bind_scalar(scope);
        let _ = scope.enter(last);
        match ran {
            Ok(given) => {
                proof {
                    lemma_bound_extended(from.plan, from.scope.arena, scope@.arena);
                }
                let mut select: Vec<ExprRef> = Vec::new();
                select.push(given);
                assert(select@ =~= seq![given]);
                Ok(BindPlanFrom { scope, plan, marker }.select_list(select))
            },
            Err(err) => Err(err),
        }
    }

    /// Reads what can be bound to several expressions.
    pub fn project_scalars<B: BindOrmScalarList>(self, build: B) -> (res: Result<
        BindPlanSelectList<'s, 'a, M>,
        DatabaseError,
    >)
        requires
            self.state().wf(),
            build.list_fits(self.state().scope.arena),
        ensures
            exists|mid: ScopeView, r: Result<Seq<ExprRef>, DatabaseError>|
                {
                    &&& #[trigger] build.list_binds(
                        at_step(self.state().scope, QueryBindStep::Project),
                        mid,
                        r,
                    )
                    &&& match reads_refs(
                        self.state(),
                        at_step(mid, self.state().scope.binder.step),
                        r,
                    ) {
                        Outcome::Done(state) => res matches Ok(query) && query.state() == state
                            && state.wf()
                            && self.state().scope.extended_by(state.scope) && *final(query.scope)
                            == *final(self.scope),
                        Outcome::Failed(err, scope) => (res matches Err(e) && e == err)
                            && final(self.scope)@ == scope && scope.known()
                            && self.state().scope.extended_by(scope),
                    }
                },
    {
        let ghost from = self.state();
        let BindPlanFrom { scope, plan, marker } = self;
        let last = scope.enter(QueryBindStep::Project);
        let ran = build.bind_scalar_list(scope);
        let _ = scope.enter(last);
        match ran {
            Ok(given) => {
                proof {
                    lemma_bound_extended(from.plan, from.scope.arena, scope@.arena);
                }
                Ok(BindPlanFrom { scope, plan, marker }.select_list(given))
            },
            Err(err) => Err(err),
        }
    }

    /// Reads the fields of a projection.
    pub fn project<P: Projection>(self) -> (res: Result<
        BindPlanSelectList<'s, 'a, M>,
        DatabaseError,
    >)
        requires
            self.state().wf(),
        ensures
            match relation_of(self.state().scope.binder.sources, M::table()) {
                None => (res matches Err(DatabaseError::InvalidTable { name }) && name@
                    == M::table()) && final(self.scope)@ == self.state().scope,
                Some(relation) => exists|mid: ScopeView, r: Result<Seq<ExprRef>, DatabaseError>|
                    {
                        &&& #[trigger] P::projects(
                            relation,
                            at_step(self.state().scope, QueryBindStep::Project),
                            mid,
                            r,
                        )
                        &&& match reads_refs(
                            self.state(),
                            at_step(mid, self.state().scope.binder.step),
                            r,
                        ) {
                            Outcome::Done(state) => res matches Ok(query) && query.state() == state
                                && state.wf()
                                && self.state().scope.extended_by(state.scope)
                                    && *final(query.scope)
                                == *final(self.scope),
                            Outcome::Failed(err, scope) => (res matches Err(e) && e == err)
                                && final(self.scope)@ == scope && scope.known()
                                && self.state().scope.extended_by(scope),
                        }
                    },
            },
    {
        let ghost from = self.state();
        let relation = match self.model_relation_name() {
            Ok(relation) => relation,
            Err(err) => {
                return Err(err);
            },
        };
        let BindPlanFrom { scope, plan, marker } = self;
        let last = scope.enter(QueryBindStep::Project);
        let ran = P::bind_projection(scope, relation.as_str());
        let _ = scope.enter(last);
        match ran {
            Ok(given) => {
                proof {
                    lemma_bound_extended(from.plan, from.scope.arena, scope@.arena);
                }
                Ok(BindPlanFrom { scope, plan, marker }.select_list(given))
            },
            Err(err) => Err(err),
        }
    }

    /// Reads all fields of the model, grouped by an expression.
    pub fn group_by<E: IntoOrmExpression, F>(self, build: F) -> (res: Result<
        BindPlanSelectList<'s, 'a, M>,
        DatabaseError,
    >) where F: FnOnce(&mut ExprBindScope<'a>) -> Result<E, DatabaseError>
        requires
            self.state().wf(),
            forall|x: &mut ExprBindScope<'a>|
                x.known() ==> #[trigger] call_requires(build, (x,)),
            forall|x: &mut ExprBindScope<'a>, r: Result<E, DatabaseError>|
                x.known() && #[trigger] call_ensures(build, (x,), r) ==> final(x).known()
                    && x@.extended_by(final(x)@)
                        && (r matches Ok(given) ==> given.orm().fits(final(x)@.arena)),
        ensures
            match model_list::<M>(self.state()) {
                None => (res matches Err(err) && model_refused::<M>(
                    self.state(),
                    err,
                    final(self.scope)@,
                )) && final(self.scope).known() && self.state().scope.extended_by(
                    final(self.scope)@,
                ),
                Some(list) => exists|x: &mut ExprBindScope<'a>, r: Result<E, DatabaseError>|
                    {
                        &&& x@ == at_step(list.scope, QueryBindStep::Agg)
                        &&& #[trigger] call_ensures(build, (x,), r)
                        &&& match grouped(list, at_step(final(x)@, list.scope.binder.step),
                            orm_of(r)) {
                            Outcome::Done(state) => res matches Ok(query) && query.state() == state
                                && state.wf()
                                && self.state().scope.extended_by(state.scope)
                                    && *final(query.scope)
                                == *final(self.scope),
                            Outcome::Failed(err, scope) => (res matches Err(e) && e == err)
                                && final(self.scope)@ == scope && scope.known()
                                && self.state().scope.extended_by(scope),
                        }
                    },
            },
    {
        let ghost from = self.state();
        match self.project_model() {
            Ok(list) => {
                proof {
                    let mid = list.state().scope;
                    assert forall|last: ScopeView| #[trigger] mid.extended_by(
                        last,
                    ) implies from.scope.extended_by(last) by {
                        lemma_extended_trans(from.scope.arena, mid.arena, last.arena);
                    }
                }
                list.group_by(build)
            },
            Err(err) => Err(err),
        }
    }

    /// Reads all fields of the model, of the groups for which the expression holds.
    pub fn having<E: IntoOrmExpression, F>(self, build: F) -> (res: Result<
        BindPlanSelectList<'s, 'a, M>,
        DatabaseError,
    >) where F: FnOnce(&mut ExprBindScope<'a>) -> Result<E, DatabaseError>
        requires
            self.state().wf(),
            forall|x: &mut ExprBindScope<'a>|
                x.known() ==> #[trigger] call_requires(build, (x,)),
            forall|x: &mut ExprBindScope<'a>, r: Result<E, DatabaseError>|
                x.known() && #[trigger] call_ensures(build, (x,), r) ==> final(x).known()
                    && x@.extended_by(final(x)@)
                        && (r matches Ok(given) ==> given.orm().fits(final(x)@.arena)),
        ensures
            match model_list::<M>(self.state()) {
                None => (res matches Err(err) && model_refused::<M>(
                    self.state(),
                    err,
                    final(self.scope)@,
                )) && final(self.scope).known() && self.state().scope.extended_by(
                    final(self.scope)@,
                ),
                Some(list) => exists|x: &mut ExprBindScope<'a>, r: Result<E, DatabaseError>|
                    {
                        &&& x@ == at_step(list.scope, QueryBindStep::Having)
                        &&& #[trigger] call_ensures(build, (x,), r)
                        &&& match kept_groups(list, at_step(final(x)@, list.scope.binder.step),
                            orm_of(r)) {
                            Outcome::Done(state) => res matches Ok(query) && query.state() == state
                                && state.wf()
                                && self.state().scope.extended_by(state.scope)
                                    && *final(query.scope)
                                == *final(self.scope),
                            Outcome::Failed(err, scope) => (res matches Err(e) && e == err)
                                && final(self.scope)@ == scope && scope.known()
                                && self.state().scope.extended_by(scope),
                        }
                    },
            },
    {
        let ghost from = self.state();
        match self.project_model() {
            Ok(list) => {
                proof {
                    let mid = list.state().scope;
                    assert forall|last: ScopeView| #[trigger] mid.extended_by(
                        last,
                    ) implies from.scope.extended_by(last) by {
                        lemma_extended_trans(from.scope.arena, mid.arena, last.arena);
                    }
                }
                list.having(build)
            },
            Err(err) => Err(err),
        }
    }

    /// Reads all fields of the model, ordered by an expression.
    pub fn order_by_expr<F>(self, build: F) -> (res: Result<
        BindPlanSelectList<'s, 'a, M>,
        DatabaseError,
    >) where F: FnOnce(&mut ExprBindScope<'a>) -> Result<SortField, DatabaseError>
        requires
            self.state().wf(),
            forall|x: &mut ExprBindScope<'a>|
                x.known() ==> #[trigger] call_requires(build, (x,)),
            forall|x: &mut ExprBindScope<'a>, r: Result<SortField, DatabaseError>|
                x.known() && #[trigger] call_ensures(build, (x,), r) ==> final(x).known()
                    && x@.extended_by(final(x)@)
                        && (r matches Ok(given) ==> final(x)@.arena.has_expr(given.expr)),
        ensures
            match model_list::<M>(self.state()) {
                None => (res matches Err(err) && model_refused::<M>(
                    self.state(),
                    err,
                    final(self.scope)@,
                )) && final(self.scope).known() && self.state().scope.extended_by(
                    final(self.scope)@,
                ),
                Some(list) => exists|x: &mut ExprBindScope<'a>, r: Result<SortField, DatabaseError>|
                    {
                        &&& x@ == at_step(list.scope, QueryBindStep::Sort)
                        &&& #[trigger] call_ensures(build, (x,), r)
                        &&& match sorted(list, at_step(final(x)@, list.scope.binder.step), r) {
                            Outcome::Done(state) => res matches Ok(query) && query.state() == state
                                && state.wf()
                                && self.state().scope.extended_by(state.scope)
                                    && *final(query.scope)
                                == *final(self.scope),
                            Outcome::Failed(err, scope) => (res matches Err(e) && e == err)
                                && final(self.scope)@ == scope && scope.known()
                                && self.state().scope.extended_by(scope),
                        }
                    },
            },
    {
        let ghost from = self.state();
        match self.project_model() {
            Ok(list) => {
                proof {
                    let mid = list.state().scope;
                    assert forall|last: ScopeView| #[trigger] mid.extended_by(
                        last,
                    ) implies from.scope.extended_by(last) by {
                        lemma_extended_trans(from.scope.arena, mid.arena, last.arena);
                    }
                }
                list.order_by_expr(build)
            },
            Err(err) => Err(err),
        }
    }

    /// Reads all fields of the model, grouped by what can be bound to an expression.
    pub fn group_by_scalar<B: BindOrmScalar>(self, build: B) -> (res: Result<
        BindPlanSelectList<'s, 'a, M>,
        DatabaseError,
    >)
        requires
            self.state().wf(),
            forall|arena: ArenaView|
                self.state().scope.arena.extended_by(arena) ==> #[trigger] build.scalar_fits(arena),
        ensures
            match model_list::<M>(self.state()) {
                None => (res matches Err(err) && model_refused::<M>(
                    self.state(),
                    err,
                    final(self.scope)@,
                )) && final(self.scope).known() && self.state().scope.extended_by(
                    final(self.scope)@,
                ),
                Some(list) => exists|mid: ScopeView, r: Result<ExprRef, DatabaseError>|
                    {
                        &&& #[trigger] build.scalar_binds(
                            at_step(list.scope, QueryBindStep::Agg),
                            mid,
                            r,
                        )
                        &&& match grouped(
                            list,
                            at_step(mid, list.scope.binder.step),
                            ref_given(r),
                        ) {
                            Outcome::Done(state) => res matches Ok(query) && query.state() == state
                                && state.wf()
                                && self.state().scope.extended_by(state.scope)
                                    && *final(query.scope)
                                == *final(self.scope),
                            Outcome::Failed(err, scope) => (res matches Err(e) && e == err)
                                && final(self.scope)@ == scope && scope.known()
                                && self.state().scope.extended_by(scope),
                        }
                    },
            },
    {
        let ghost from = self.state();
        match self.project_model() {
            Ok(list) => {
                proof {
                    let mid = list.state().scope;
                    assert forall|last: ScopeView| #[trigger] mid.extended_by(
                        last,
                    ) implies from.scope.extended_by(last) by {
                        lemma_extended_trans(from.scope.arena, mid.arena, last.arena);
                    }
                }
                list.group_by_scalar(build)
            },
            Err(err) => Err(err),
        }
    }

    /// Reads all fields of the model, of the groups for which a condition holds.
    pub fn having_scalar<B: BindOrmScalar>(self, build: B) -> (res: Result<
        BindPlanSelectList<'s, 'a, M>,
        DatabaseError,
    >)
        requires
            self.state().wf(),
            forall|arena: ArenaView|
                self.state().scope.arena.extended_by(arena) ==> #[trigger] build.scalar_fits(arena),
        ensures
            match model_list::<M>(self.state()) {
                None => (res matches Err(err) && model_refused::<M>(
                    self.state(),
                    err,
                    final(self.scope)@,
                )) && final(self.scope).known() && self.state().scope.extended_by(
                    final(self.scope)@,
                ),
                Some(list) => exists|mid: ScopeView, r: Result<ExprRef, DatabaseError>|
                    {
                        &&& #[trigger] build.scalar_binds(
                            at_step(list.scope, QueryBindStep::Having),
                            mid,
                            r,
                        )
                        &&& match kept_groups(
                            list,
                            at_step(mid, list.scope.binder.step),
                            ref_given(r),
                        ) {
                            Outcome::Done(state) => res matches Ok(query) && query.state() == state
                                && state.wf()
                                && self.state().scope.extended_by(state.scope)
                                    && *final(query.scope)
                                == *final(self.scope),
                            Outcome::Failed(err, scope) => (res matches Err(e) && e == err)
                                && final(self.scope)@ == scope && scope.known()
                                && self.state().scope.extended_by(scope),
                        }
                    },
            },
    {
        let ghost from = self.state();
        match self.project_model() {
            Ok(list) => {
                proof {
                    let mid = list.state().scope;
                    assert forall|last: ScopeView| #[trigger] mid.extended_by(
                        last,
                    ) implies from.scope.extended_by(last) by {
                        lemma_extended_trans(from.scope.arena, mid.arena, last.arena);
                    }
                }
                list.having_scalar(build)
            },
            Err(err) => Err(err),
        }
    }

    /// Reads all fields of the model, in an order.
    pub fn order_by<B: BindOrmSort>(self, build: B) -> (res: Result<
        BindPlanSelectList<'s, 'a, M>,
        DatabaseError,
    >)
        requires
            self.state().wf(),
            forall|arena: ArenaView|
                self.state().scope.arena.extended_by(arena) ==> #[trigger] build.sort_fits(arena),
        ensures
            match model_list::<M>(self.state()) {
                None => (res matches Err(err) && model_refused::<M>(
                    self.state(),
                    err,
                    final(self.scope)@,
                )) && final(self.scope).known() && self.state().scope.extended_by(
                    final(self.scope)@,
                ),
                Some(list) => exists|mid: ScopeView, r: Result<SortField, DatabaseError>|
                    {
                        &&& #[trigger] build.sort_binds(
                            at_step(list.scope, QueryBindStep::Sort),
                            mid,
                            r,
                        )
                        &&& match sorted(
                            list,
                            at_step(mid, list.scope.binder.step),
                            r,
                        ) {
                            Outcome::Done(state) => res matches Ok(query) && query.state() == state
                                && state.wf()
                                && self.state().scope.extended_by(state.scope)
                                    && *final(query.scope)
                                == *final(self.scope),
                            Outcome::Failed(err, scope) => (res matches Err(e) && e == err)
                                && final(self.scope)@ == scope && scope.known()
                                && self.state().scope.extended_by(scope),
                        }
                    },
            },
    {
        let ghost from = self.state();
        match self.project_model() {
            Ok(list) => {
                proof {
                    let mid = list.state().scope;
                    assert forall|last: ScopeView| #[trigger] mid.extended_by(
                        last,
                    ) implies from.scope.extended_by(last) by {
                        lemma_extended_trans(from.scope.arena, mid.arena, last.arena);
                    }
                }
                list.order_by(build)
            },
            Err(err) => Err(err),
        }
    }

    /// Counts the rows.
    pub fn count(self) -> (res: Result<LogicalPlan, DatabaseError>)
        requires
            self.state().wf(),
        ensures
            ({
                let list = counting(self.state().reading(self.state().scope, Seq::empty()));
                res matches Ok(plan) && (plan@, final(self.scope)@) == finished(counting(list))
                    && bound(plan@, final(self.scope)@.arena)
            }),
            final(self.scope).known(),
            self.state().scope.extended_by(final(self.scope)@),
    {
        let ghost from = self.state();
        let list = match self.select_list(Vec::new()).select_count() {
            Ok(list) => list,
            Err(err) => {
                assert(false);
                return Err(err);
            },
        };
        let ghost mid = list.state().scope;
        proof {
            assert forall|last: ScopeView| #[trigger] mid.extended_by(
                last,
            ) implies from.scope.extended_by(last) by {
                lemma_extended_trans(from.scope.arena, mid.arena, last.arena);
            }
        }
        list.count()
    }

    /// Reads at most one row.
    pub fn has_rows(self) -> (res: Result<LogicalPlan, DatabaseError>)
        requires
            self.state().wf(),
        ensures
            res matches Ok(plan) && plan@ == over(
                OperatorView::Limit(LimitOperator { offset: None, limit: Some(1) }),
                self.state().plan,
            ) && bound(plan@, final(self.scope)@.arena),
            final(self.scope)@ == self.state().scope,
            final(self.scope).known(),
            self.state().scope.extended_by(final(self.scope)@),
    {
        Ok(self.scope.binder.bind_limit_values(self.plan, None, Some(1)))
    }

    /// Removes the rows.
    pub fn delete(self) -> (res: Result<LogicalPlan, DatabaseError>)
        requires
            self.state().wf(),
        ensures
            ({
                let tables = self.state().scope.binder.tables.map();
                if tables.contains_key(M::table()) {
                    &&& res matches Ok(plan) && plan@ == over(
                        OperatorView::Delete(
                            DeleteView {
                                table_name: M::table(),
                                primary_keys: tables[M::table()].primary_keys@,
                            },
                        ),
                        self.state().plan,
                    ) && bound(plan@, final(self.scope)@.arena)
                    &&& final(self.scope)@ == (ScopeView {
                        binder: BinderView {
                            with_pk: Some(M::table()),
                            ..self.state().scope.binder
                        },
                        ..self.state().scope
                    })
                } else {
                    &&& res == Err::<LogicalPlan, DatabaseError>(DatabaseError::TableNotFound)
                    &&& final(self.scope)@ == self.state().scope
                }
            }),
            final(self.scope).known(),
            self.state().scope.extended_by(final(self.scope)@),
    {
        let ghost from = self.state();
        let table_name: TableName = M::table_name().to_string();
        let primary_keys: Vec<ColumnRef> = match self.scope.binder.tables.get(&table_name) {
            Some(table) => {
                let keys = table.primary_keys.clone();
                assert(keys@ =~= table.primary_keys@);
                keys
            },
            None => {
                return Err(DatabaseError::TableNotFound);
            },
        };
        self.scope.binder.with_pk = Some(table_name.clone());
        assert(self.scope@.binder
            == BinderView { with_pk: Some(table_name@), ..from.scope.binder });
        Ok(self.scope.binder.bind_delete(table_name, primary_keys, self.plan))
    }

    /// Reads all fields of the model.
    pub fn finish(self) -> (res: Result<LogicalPlan, DatabaseError>)
        requires
            self.state().wf(),
        ensures
            match model_list::<M>(self.state()) {
                None => (res matches Err(err) && model_refused::<M>(
                    self.state(),
                    err,
                    final(self.scope)@,
                )) && final(self.scope).known() && self.state().scope.extended_by(
                    final(self.scope)@,
                ),
                Some(list) => res matches Ok(plan) && (plan@, final(self.scope)@) == finished(list)
                    && bound(plan@, final(self.scope)@.arena),
            },
            final(self.scope).known(),
            self.state().scope.extended_by(final(self.scope)@),
    {
        let ghost from = self.state();
        match self.project_model() {
            Ok(list) => {
                proof {
                    let mid = list.state().scope;
                    assert forall|last: ScopeView| #[trigger] mid.extended_by(
                        last,
                    ) implies from.scope.extended_by(last) by {
                        lemma_extended_trans(from.scope.arena, mid.arena, last.arena);
                    }
                }
                list.finish()
            },
            Err(err) => Err(err),
        }
    }
}

/// A type that is read from some columns of a model.
pub trait Projection: FromQueryRow {
    /// Outcomes of binding the columns.
    spec fn projects(
        relation: Seq<char>,
        before: ScopeView,
        after: ScopeView,
        res: Result<Seq<ExprRef>, DatabaseError>,
    ) -> bool;

    /// Binds the columns.
    fn bind_projection(scope: &mut ExprBindScope<'_>, relation: &str) -> (res: Result<
        Vec<ExprRef>,
        DatabaseError,
    >)
        requires
            old(scope).known(),
        ensures
            Self::projects(relation@, old(scope)@, final(scope)@, refs_of(res)),
            final(scope).known(),
            old(scope)@.extended_by(final(scope)@),
            res matches Ok(exprs) ==> final(scope)@.arena.has_exprs(exprs@),
    ;
}

fn collect_aggregates(expr: ExprRef, arena: &PlanArena, out: &mut Vec<ExprRef>)
    requires
        arena@.wf(),
        arena@.has_expr(expr),
        arena@.has_exprs(old(out)@),
    ensures
        final(out)@ == old(out)@ + aggregates(arena@.exprs, expr),
        arena@.has_exprs(final(out)@),
    decreases expr.0,
{
    match arena.expression(expr) {
        ScalarExpression::AggCall { .. } => {
            out.push(expr);
            assert(out@ =~= old(out)@ + seq![expr]);
        },
        node => {
            let children = node.children();
            let ghost start = out@;
            let mut i: usize = 0;
            assert(children@.take(0) =~= Seq::empty());
            while i < children.len()
                invariant
                    i <= children.len(),
                    arena@.wf(),
                    arena@.has_expr(expr),
                    children@ == arena@.exprs[expr.0 as int].children,
                    arena@.has_exprs(out@),
                    out@ == start + aggregates_of(
                        arena@.exprs,
                        children@.take(i as int),
                        expr.0 as nat,
                    ),
                decreases children.len() - i,
            {
                assert(arena@.exprs[expr.0 as int].children[i as int].0 < expr.0);
                let ghost before = out@;
                collect_aggregates(children[i], arena, out);
                proof {
                    let next = children@.take(i + 1);
                    assert(next.drop_last() =~= children@.take(i as int));
                    assert(next.last() == children@[i as int]);
                    assert(out@ =~= start + aggregates_of(arena@.exprs, next, expr.0 as nat));
                }
                i += 1;
            }
            assert(children@.take(i as int) =~= children@);
        },
    }
}

fn append_aggregates(exprs: &Vec<ExprRef>, arena: &PlanArena, out: &mut Vec<ExprRef>, Ghost(
    before,
): Ghost<Seq<ExprRef>>)
    requires
        arena@.wf(),
        arena@.has_exprs(exprs@),
        arena@.has_exprs(old(out)@),
        old(out)@ == aggregates_of(arena@.exprs, before, arena@.exprs.len()),
    ensures
        final(out)@ == aggregates_of(arena@.exprs, before + exprs@, arena@.exprs.len()),
        arena@.has_exprs(final(out)@),
{
    let mut i: usize = 0;
    assert(before + exprs@.take(0) =~= before);
    while i < exprs.len()
        invariant
            i <= exprs.len(),
            arena@.wf(),
            arena@.has_exprs(exprs@),
            arena@.has_exprs(out@),
            out@ == aggregates_of(
                arena@.exprs,
                before + exprs@.take(i as int),
                arena@.exprs.len(),
            ),
        decreases exprs.len() - i,
    {
        collect_aggregates(exprs[i], arena, out);
        proof {
            let next = before + exprs@.take(i + 1);
            assert(next.drop_last() =~= before + exprs@.take(i as int));
            assert(next.last() == exprs@[i as int]);
        }
        i += 1;
    }
    assert(before + exprs@.take(i as int) =~= before + exprs@);
}

impl<'s, 'a, M: Model> BindPlanSelectList<'s, 'a, M> {
    /// Reads one expression instead.
    pub fn project_value<E: IntoOrmExpression, F>(self,
        build: F) -> (res: Result<Self, DatabaseError>) where
        F: FnOnce(&mut ExprBindScope<'a>) -> Result<E, DatabaseError>,

        requires
            self.state().wf(),
            forall|x: &mut ExprBindScope<'a>|
                x.known() ==> #[trigger] call_requires(build, (x,)),
            forall|x: &mut ExprBindScope<'a>, r: Result<E, DatabaseError>|
                x.known() && #[trigger] call_ensures(build, (x,), r) ==> final(x).known()
                    && x@.extended_by(final(x)@)
                        && (r matches Ok(given) ==> given.orm().fits(final(x)@.arena)),
        ensures
            exists|x: &mut ExprBindScope<'a>, r: Result<E, DatabaseError>|
                {
                    &&& x@ == at_step(self.state().scope, QueryBindStep::Project)
                    &&& #[trigger] call_ensures(build, (x,), r)
                    &&& match selects_one(self.state(),
                        at_step(final(x)@, self.state().scope.binder.step), orm_of(r)) {
                        Outcome::Done(state) => res matches Ok(query) && query.state() == state
                            && state.wf()
                            && self.state().scope.extended_by(state.scope) && *final(query.scope)
                            == *final(self.scope),
                        Outcome::Failed(err, scope) => (res matches Err(e) && e == err)
                            && final(self.scope)@ == scope && scope.known()
                            && self.state().scope.extended_by(scope),
                    }
                },
    {
        let ghost list = self.state();
        let BindPlanSelectList { scope, plan, mut select, mut group, mut having, mut sort, distinct,
            marker } = self;
        let step = bind_step(scope, QueryBindStep::Project, build);
        match step {
            Ok(given) => {
                proof {
                    lemma_list_extended(list, scope@);
                }
                select.clear();
                select.push(given);
                assert(select@ =~= seq![given]);
                Ok(BindPlanSelectList { scope, plan, select, group, having, sort, distinct,
                    marker })
            },
            Err(err) => Err(err),
        }
    }

    /// Reads several expressions instead.
    pub fn project_tuple<E: IntoOrmExpression, F>(self,
        build: F) -> (res: Result<Self, DatabaseError>) where
        F: FnOnce(&mut ExprBindScope<'a>) -> Result<Vec<E>, DatabaseError>,

        requires
            self.state().wf(),
            forall|x: &mut ExprBindScope<'a>|
                x.known() ==> #[trigger] call_requires(build, (x,)),
            forall|x: &mut ExprBindScope<'a>, r: Result<Vec<E>, DatabaseError>|
                x.known() && #[trigger] call_ensures(build, (x,), r) ==> final(x).known()
                    && x@.extended_by(final(x)@)
                        && (r matches Ok(given) ==> all_fit(orm_views(given@), final(x)@.arena)),
        ensures
            exists|x: &mut ExprBindScope<'a>, r: Result<Vec<E>, DatabaseError>|
                {
                    &&& x@ == at_step(self.state().scope, QueryBindStep::Project)
                    &&& #[trigger] call_ensures(build, (x,), r)
                    &&& match selects_all(self.state(),
                        at_step(final(x)@, self.state().scope.binder.step), orms_of(r)) {
                        Outcome::Done(state) => res matches Ok(query) && query.state() == state
                            && state.wf()
                            && self.state().scope.extended_by(state.scope) && *final(query.scope)
                            == *final(self.scope),
                        Outcome::Failed(err, scope) => (res matches Err(e) && e == err)
                            && final(self.scope)@ == scope && scope.known()
                            && self.state().scope.extended_by(scope),
                    }
                },
    {
        let ghost list = self.state();
        let BindPlanSelectList { scope, plan, mut select, mut group, mut having, mut sort, distinct,
            marker } = self;
        let step = bind_steps(scope, QueryBindStep::Project, build);
        match step {
            Ok(given) => {
                proof {
                    lemma_list_extended(list, scope@);
                }
                select = given;
                Ok(BindPlanSelectList { scope, plan, select, group, having, sort, distinct,
                    marker })
            },
            Err(err) => Err(err),
        }
    }

    /// Groups by one more expression.
    pub fn group_by<E: IntoOrmExpression, F>(self,
        build: F) -> (res: Result<Self, DatabaseError>) where
        F: FnOnce(&mut ExprBindScope<'a>) -> Result<E, DatabaseError>,

        requires
            self.state().wf(),
            forall|x: &mut ExprBindScope<'a>|
                x.known() ==> #[trigger] call_requires(build, (x,)),
            forall|x: &mut ExprBindScope<'a>, r: Result<E, DatabaseError>|
                x.known() && #[trigger] call_ensures(build, (x,), r) ==> final(x).known()
                    && x@.extended_by(final(x)@)
                        && (r matches Ok(given) ==> given.orm().fits(final(x)@.arena)),
        ensures
            exists|x: &mut ExprBindScope<'a>, r: Result<E, DatabaseError>|
                {
                    &&& x@ == at_step(self.state().scope, QueryBindStep::Agg)
                    &&& #[trigger] call_ensures(build, (x,), r)
                    &&& match grouped(self.state(),
                        at_step(final(x)@, self.state().scope.binder.step), orm_of(r)) {
                        Outcome::Done(state) => res matches Ok(query) && query.state() == state
                            && state.wf()
                            && self.state().scope.extended_by(state.scope) && *final(query.scope)
                            == *final(self.scope),
                        Outcome::Failed(err, scope) => (res matches Err(e) && e == err)
                            && final(self.scope)@ == scope && scope.known()
                            && self.state().scope.extended_by(scope),
                    }
                },
    {
        let ghost list = self.state();
        let BindPlanSelectList { scope, plan, mut select, mut group, mut having, mut sort, distinct,
            marker } = self;
        let step = bind_step(scope, QueryBindStep::Agg, build);
        match step {
            Ok(given) => {
                proof {
                    lemma_list_extended(list, scope@);
                }
                group.push(given);
                Ok(BindPlanSelectList { scope, plan, select, group, having, sort, distinct,
                    marker })
            },
            Err(err) => Err(err),
        }
    }

    /// Keeps the groups for which the expression holds.
    pub fn having<E: IntoOrmExpression, F>(self,
        build: F) -> (res: Result<Self, DatabaseError>) where
        F: FnOnce(&mut ExprBindScope<'a>) -> Result<E, DatabaseError>,

        requires
            self.state().wf(),
            forall|x: &mut ExprBindScope<'a>|
                x.known() ==> #[trigger] call_requires(build, (x,)),
            forall|x: &mut ExprBindScope<'a>, r: Result<E, DatabaseError>|
                x.known() && #[trigger] call_ensures(build, (x,), r) ==> final(x).known()
                    && x@.extended_by(final(x)@)
                        && (r matches Ok(given) ==> given.orm().fits(final(x)@.arena)),
        ensures
            exists|x: &mut ExprBindScope<'a>, r: Result<E, DatabaseError>|
                {
                    &&& x@ == at_step(self.state().scope, QueryBindStep::Having)
                    &&& #[trigger] call_ensures(build, (x,), r)
                    &&& match kept_groups(self.state(),
                        at_step(final(x)@, self.state().scope.binder.step), orm_of(r)) {
                        Outcome::Done(state) => res matches Ok(query) && query.state() == state
                            && state.wf()
                            && self.state().scope.extended_by(state.scope) && *final(query.scope)
                            == *final(self.scope),
                        Outcome::Failed(err, scope) => (res matches Err(e) && e == err)
                            && final(self.scope)@ == scope && scope.known()
                            && self.state().scope.extended_by(scope),
                    }
                },
    {
        let ghost list = self.state();
        let BindPlanSelectList { scope, plan, mut select, mut group, mut having, mut sort, distinct,
            marker } = self;
        let step = bind_step(scope, QueryBindStep::Having, build);
        match step {
            Ok(given) => {
                proof {
                    lemma_list_extended(list, scope@);
                }
                having.push(given);
                Ok(BindPlanSelectList { scope, plan, select, group, having, sort, distinct,
                    marker })
            },
            Err(err) => Err(err),
        }
    }

    /// Orders by one more expression.
    pub fn order_by_expr<F>(self, build: F) -> (res: Result<Self, DatabaseError>) where
        F: FnOnce(&mut ExprBindScope<'a>) -> Result<SortField, DatabaseError>,

        requires
            self.state().wf(),
            forall|x: &mut ExprBindScope<'a>|
                x.known() ==> #[trigger] call_requires(build, (x,)),
            forall|x: &mut ExprBindScope<'a>, r: Result<SortField, DatabaseError>|
                x.known() && #[trigger] call_ensures(build, (x,), r) ==> final(x).known()
                    && x@.extended_by(final(x)@)
                        && (r matches Ok(given) ==> final(x)@.arena.has_expr(given.expr)),
        ensures
            exists|x: &mut ExprBindScope<'a>, r: Result<SortField, DatabaseError>|
                {
                    &&& x@ == at_step(self.state().scope, QueryBindStep::Sort)
                    &&& #[trigger] call_ensures(build, (x,), r)
                    &&& match sorted(self.state(),
                        at_step(final(x)@, self.state().scope.binder.step), r) {
                        Outcome::Done(state) => res matches Ok(query) && query.state() == state
                            && state.wf()
                            && self.state().scope.extended_by(state.scope) && *final(query.scope)
                            == *final(self.scope),
                        Outcome::Failed(err, scope) => (res matches Err(e) && e == err)
                            && final(self.scope)@ == scope && scope.known()
                            && self.state().scope.extended_by(scope),
                    }
                },
    {
        let ghost list = self.state();
        let BindPlanSelectList { scope, plan, mut select, mut group, mut having, mut sort, distinct,
            marker } = self;
        let last = scope.enter(QueryBindStep::Sort);
        let step = build(scope);
        let _ = scope.enter(last);
        match step {
            Ok(given) => {
                proof {
                    lemma_list_extended(list, scope@);
                }
                sort.push(given);
                Ok(BindPlanSelectList { scope, plan, select, group, having, sort, distinct,
                    marker })
            },
            Err(err) => Err(err),
        }
    }

    /// Reads what can be bound to one expression instead.
    pub fn project_scalar<B: BindOrmScalar>(self, build: B) -> (res: Result<Self, DatabaseError>)
        requires
            self.state().wf(),
            build.scalar_fits(self.state().scope.arena),
        ensures
            exists|mid: ScopeView, r: Result<ExprRef, DatabaseError>|
                {
                    &&& #[trigger] build.scalar_binds(
                        at_step(self.state().scope, QueryBindStep::Project),
                        mid,
                        r,
                    )
                    &&& match selects_one(
                        self.state(),
                        at_step(mid, self.state().scope.binder.step),
                        ref_given(r),
                    ) {
                        Outcome::Done(state) => res matches Ok(query) && query.state() == state
                            && state.wf()
                            && self.state().scope.extended_by(state.scope) && *final(query.scope)
                            == *final(self.scope),
                        Outcome::Failed(err, scope) => (res matches Err(e) && e == err)
                            && final(self.scope)@ == scope && scope.known()
                            && self.state().scope.extended_by(scope),
                    }
                },
    {
        let ghost list = self.state();
        let BindPlanSelectList { scope, plan, mut select, mut group, mut having, mut sort, distinct,
            marker } = self;
        let last = scope.enter(QueryBindStep::Project);
        let ran = build.bind_scalar(scope);
        let _ = scope.enter(last);
        match ran {
            Ok(given) => {
                proof {
                    lemma_list_extended(list, scope@);
                }
                select.clear();
                select.push(given);
                assert(select@ =~= seq![given]);
                Ok(BindPlanSelectList { scope, plan, select, group, having, sort, distinct,
                    marker })
            },
            Err(err) => Err(err),
        }
    }

    /// Reads what can be bound to several expressions instead.
    pub fn project_scalars<B: BindOrmScalarList>(self,
        build: B) -> (res: Result<Self, DatabaseError>)
        requires
            self.state().wf(),
            build.list_fits(self.state().scope.arena),
        ensures
            exists|mid: ScopeView, r: Result<Seq<ExprRef>, DatabaseError>|
                {
                    &&& #[trigger] build.list_binds(
                        at_step(self.state().scope, QueryBindStep::Project),
                        mid,
                        r,
                    )
                    &&& match selects_refs(
                        self.state(),
                        at_step(mid, self.state().scope.binder.step),
                        r,
                    ) {
                        Outcome::Done(state) => res matches Ok(query) && query.state() == state
                            && state.wf()
                            && self.state().scope.extended_by(state.scope) && *final(query.scope)
                            == *final(self.scope),
                        Outcome::Failed(err, scope) => (res matches Err(e) && e == err)
                            && final(self.scope)@ == scope && scope.known()
                            && self.state().scope.extended_by(scope),
                    }
                },
    {
        let ghost list = self.state();
        let BindPlanSelectList { scope, plan, mut select, mut group, mut having, mut sort, distinct,
            marker } = self;
        let last = scope.enter(QueryBindStep::Project);
        let ran = build.bind_scalar_list(scope);
        let _ = scope.enter(last);
        match ran {
            Ok(given) => {
                proof {
                    lemma_list_extended(list, scope@);
                }
                select = given;
                Ok(BindPlanSelectList { scope, plan, select, group, having, sort, distinct,
                    marker })
            },
            Err(err) => Err(err),
        }
    }

    /// Groups by what can be bound to an expression.
    pub fn group_by_scalar<B: BindOrmScalar>(self, build: B) -> (res: Result<Self, DatabaseError>)
        requires
            self.state().wf(),
            build.scalar_fits(self.state().scope.arena),
        ensures
            exists|mid: ScopeView, r: Result<ExprRef, DatabaseError>|
                {
                    &&& #[trigger] build.scalar_binds(
                        at_step(self.state().scope, QueryBindStep::Agg),
                        mid,
                        r,
                    )
                    &&& match grouped(
                        self.state(),
                        at_step(mid, self.state().scope.binder.step),
                        ref_given(r),
                    ) {
                        Outcome::Done(state) => res matches Ok(query) && query.state() == state
                            && state.wf()
                            && self.state().scope.extended_by(state.scope) && *final(query.scope)
                            == *final(self.scope),
                        Outcome::Failed(err, scope) => (res matches Err(e) && e == err)
                            && final(self.scope)@ == scope && scope.known()
                            && self.state().scope.extended_by(scope),
                    }
                },
    {
        let ghost list = self.state();
        let BindPlanSelectList { scope, plan, mut select, mut group, mut having, mut sort, distinct,
            marker } = self;
        let last = scope.enter(QueryBindStep::Agg);
        let ran = build.bind_scalar(scope);
        let _ = scope.enter(last);
        match ran {
            Ok(given) => {
                proof {
                    lemma_list_extended(list, scope@);
                }
                group.push(given);
                Ok(BindPlanSelectList { scope, plan, select, group, having, sort, distinct,
                    marker })
            },
            Err(err) => Err(err),
        }
    }

    /// Keeps the groups for which a condition holds.
    pub fn having_scalar<B: BindOrmScalar>(self, build: B) -> (res: Result<Self, DatabaseError>)
        requires
            self.state().wf(),
            build.scalar_fits(self.state().scope.arena),
        ensures
            exists|mid: ScopeView, r: Result<ExprRef, DatabaseError>|
                {
                    &&& #[trigger] build.scalar_binds(
                        at_step(self.state().scope, QueryBindStep::Having),
                        mid,
                        r,
                    )
                    &&& match kept_groups(
                        self.state(),
                        at_step(mid, self.state().scope.binder.step),
                        ref_given(r),
                    ) {
                        Outcome::Done(state) => res matches Ok(query) && query.state() == state
                            && state.wf()
                            && self.state().scope.extended_by(state.scope) && *final(query.scope)
                            == *final(self.scope),
                        Outcome::Failed(err, scope) => (res matches Err(e) && e == err)
                            && final(self.scope)@ == scope && scope.known()
                            && self.state().scope.extended_by(scope),
                    }
                },
    {
        let ghost list = self.state();
        let BindPlanSelectList { scope, plan, mut select, mut group, mut having, mut sort, distinct,
            marker } = self;
        let last = scope.enter(QueryBindStep::Having);
        let ran = build.bind_scalar(scope);
        let _ = scope.enter(last);
        match ran {
            Ok(given) => {
                proof {
                    lemma_list_extended(list, scope@);
                }
                having.push(given);
                Ok(BindPlanSelectList { scope, plan, select, group, having, sort, distinct,
                    marker })
            },
            Err(err) => Err(err),
        }
    }

    /// Orders by what can be bound to an order.
    pub fn order_by<B: BindOrmSort>(self, build: B) -> (res: Result<Self, DatabaseError>)
        requires
            self.state().wf(),
            build.sort_fits(self.state().scope.arena),
        ensures
            exists|mid: ScopeView, r: Result<SortField, DatabaseError>|
                {
                    &&& #[trigger] build.sort_binds(
                        at_step(self.state().scope, QueryBindStep::Sort),
                        mid,
                        r,
                    )
                    &&& match sorted(
                        self.state(),
                        at_step(mid, self.state().scope.binder.step),
                        r,
                    ) {
                        Outcome::Done(state) => res matches Ok(query) && query.state() == state
                            && state.wf()
                            && self.state().scope.extended_by(state.scope) && *final(query.scope)
                            == *final(self.scope),
                        Outcome::Failed(err, scope) => (res matches Err(e) && e == err)
                            && final(self.scope)@ == scope && scope.known()
                            && self.state().scope.extended_by(scope),
                    }
                },
    {
        let ghost list = self.state();
        let BindPlanSelectList { scope, plan, mut select, mut group, mut having, mut sort, distinct,
            marker } = self;
        let last = scope.enter(QueryBindStep::Sort);
        let ran = build.bind_sort(scope);
        let _ = scope.enter(last);
        match ran {
            Ok(given) => {
                proof {
                    lemma_list_extended(list, scope@);
                }
                sort.push(given);
                Ok(BindPlanSelectList { scope, plan, select, group, having, sort, distinct,
                    marker })
            },
            Err(err) => Err(err),
        }
    }

    /// Reads rows that read alike once.
    pub fn distinct(self) -> (res: Result<Self, DatabaseError>)
        requires
            self.state().wf(),
        ensures
            res matches Ok(query) && query.state() == (ListState { distinct: true, ..self.state() })
                && query.state().wf() && *final(query.scope) == *final(self.scope),
    {
        let BindPlanSelectList { scope, plan, select, group, having, sort, distinct: _,
            marker } = self;
        Ok(
            BindPlanSelectList { scope, plan, select, group, having, sort, distinct: true, marker },
        )
    }

    fn select_count(self) -> (res: Result<Self, DatabaseError>)
        requires
            self.state().wf(),
        ensures
            res matches Ok(list) && list.state() == counting(self.state()) && list.state().wf()
                && self.state().scope.extended_by(list.state().scope) && *final(list.scope)
                == *final(self.scope),
    {
        let ghost list = self.state();
        let BindPlanSelectList { scope, plan, mut select, mut group, having, sort, distinct,
            marker } = self;
        let last = scope.enter(QueryBindStep::Project);
        let ghost start = scope@;
        let count = match scope.count_all() {
            Ok(count) => count,
            Err(err) => {
                assert(false);
                return Err(err);
            },
        };
        let ghost mid = scope@;
        let count = scope.alias(count, "count".to_string());
        let ghost after = scope@;
        let _ = scope.enter(last);
        proof {
            lemma_extended_trans(start.arena, mid.arena, after.arena);
            lemma_list_extended(list, scope@);
        }
        select.clear();
        select.push(count.into_scalar());
        assert(select@ =~= seq![count.expr]);
        group.clear();
        assert(group@ =~= Seq::empty());
        Ok(BindPlanSelectList { scope, plan, select, group, having, sort, distinct, marker })
    }

    /// Counts the rows.
    pub fn count(self) -> (res: Result<LogicalPlan, DatabaseError>)
        requires
            self.state().wf(),
        ensures
            res matches Ok(plan) && (plan@, final(self.scope)@) == finished(counting(self.state()))
                && bound(plan@, final(self.scope)@.arena),
            final(self.scope).known(),
            self.state().scope.extended_by(final(self.scope)@),
    {
        let ghost first = self.state().scope;
        let list = match self.select_count() {
            Ok(list) => list,
            Err(err) => {
                assert(false);
                return Err(err);
            },
        };
        let ghost mid = list.state().scope;
        proof {
            assert forall|last: ScopeView| #[trigger] mid.extended_by(
                last,
            ) implies first.extended_by(last) by {
                lemma_extended_trans(first.arena, mid.arena, last.arena);
            }
        }
        list.finish()
    }

    /// The plan of the query.
    #[verifier::rlimit(40)]
    pub fn finish(self) -> (res: Result<LogicalPlan, DatabaseError>)
        requires
            self.state().wf(),
        ensures
            res matches Ok(plan) && (plan@, final(self.scope)@) == finished(self.state()) && bound(
                plan@,
                final(self.scope)@.arena,
            ),
            final(self.scope).known(),
            self.state().scope.extended_by(final(self.scope)@),
    {
        let ghost list = self.state();
        let ghost arena = list.scope.arena;
        let BindPlanSelectList { scope, plan, select, group, having, sort, distinct,
            marker } = self;
        let mut calls: Vec<ExprRef> = Vec::new();
        assert(calls@ =~= aggregates_of(arena.exprs, Seq::empty(), arena.exprs.len()));
        append_aggregates(&select, &scope.arena, &mut calls, Ghost(Seq::empty()));
        assert(Seq::empty() + select@ =~= select@);
        append_aggregates(&having, &scope.arena, &mut calls, Ghost(select@));
        let mut keys: Vec<ExprRef> = Vec::new();
        let mut i: usize = 0;
        while i < sort.len()
            invariant
                i <= sort.len(),
                valid_fields(arena, sort@),
                keys@.len() == i,
                forall|j: int| 0 <= j < i ==> keys@[j] == sort@[j].expr,
                arena.has_exprs(keys@),
            decreases sort.len() - i,
        {
            assert(arena.has_expr(sort@[i as int].expr));
            keys.push(sort[i].expr);
            i += 1;
        }
        assert(keys@ =~= sort@.map_values(|field: SortField| field.expr));
        append_aggregates(&keys, &scope.arena, &mut calls, Ghost(select@ + having@));
        assert(calls@ == aggregates_of(arena.exprs, computed(list), arena.exprs.len()));
        let calls = drop_repeats(&calls, &scope.arena);
        let mut plan = plan;
        if group.len() > 0 || calls.len() > 0 {
            proof {
                lemma_attached(plan@, scope@.binder.pending, arena);
            }
            plan = scope.binder.bind_aggregate(plan, group, calls, false);
        }
        assert((plan@, scope@) == grouped_plan(list));
        assert(bound(plan@, arena));
        assert(scope.known());
        let ghost first = plan@;
        let ghost after_group = scope@;
        let mut j: usize = 0;
        assert(having@.take(0) =~= Seq::empty());
        while j < having.len()
            invariant
                j <= having.len(),
                arena.has_exprs(having@),
                scope@.arena == arena,
                list.scope.extended_by(scope@),
                scope.known(),
                bound(plan@, arena),
                (plan@, scope@) == having_plan(first, after_group, having@.take(j as int)),
            decreases having.len() - j,
        {
            proof {
                lemma_attached(plan@, scope@.binder.pending, arena);
                let next = having@.take(j + 1);
                assert(next.drop_last() =~= having@.take(j as int));
                assert(next.last() == having@[j as int]);
            }
            let ghost before = scope@;
            plan = scope.binder.bind_having(plan, having[j]);
            assert(scope@ == settled(before));
            j += 1;
        }
        assert(having@.take(j as int) =~= having@);
        let ghost second = (plan@, scope@);
        if distinct {
            proof {
                lemma_attached(plan@, scope@.binder.pending, arena);
            }
            let keys = select.clone();
            assert(keys@ =~= select@);
            let calls: Vec<ExprRef> = Vec::new();
            assert(calls@ =~= Seq::empty());
            plan = scope.binder.bind_aggregate(plan, keys, calls, true);
            assert(scope@ == settled(second.1));
        }
        assert((plan@, scope@) == distinct_plan(list, second.0, second.1));
        assert(bound(plan@, arena));
        assert(scope.known());
        let ghost before_sort = scope@;
        if sort.len() > 0 {
            proof {
                lemma_attached(plan@, scope@.binder.pending, arena);
            }
            plan = scope.binder.bind_sort(plan, sort);
            assert(scope@ == settled(before_sort));
        }
        assert(bound(plan@, arena));
        assert(scope.known());
        let ghost before_project = scope@;
        proof {
            lemma_attached(plan@, scope@.binder.pending, arena);
        }
        let plan = scope.binder.bind_project(plan, select);
        assert(scope@ == settled(before_project));
        Ok(plan)
    }
}

} // verus!
