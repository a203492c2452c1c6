//! Joins of a query with further tables.

use crate::binder::condition::{split_condition, split_join_condition};
use crate::binder::plan::{bound, pair};
use crate::binder::scan::source_view;
use crate::binder::{
    column_position, column_view, find_column, lemma_known_extended, source_views, sources_known,
    BinderView, BoundSource, QueryBindStep, SourceView,
};
use crate::catalog::{ColumnRef, TableName};
use crate::errors::DatabaseError;
use crate::expression::ScalarExpression;
use crate::orm::field::{Model, QuerySource};
use crate::orm::query::{
    at_step, bind_step, expr_bound, lemma_bound_extended, orm_of, BindPlanFrom, FromState, Outcome,
};
use crate::orm::scope::{
    lemma_extended_trans, ExprBindScope, IntoOrmExpression, OrmView, ScopeView,
};
use crate::planner::arena::{ArenaView, ExprRef, PlanArena};
use crate::planner::operator::join::{JoinCondition, JoinConditionView, JoinType, JoinView};
use crate::planner::operator::{valid_pairs, OperatorView};
use crate::planner::{LogicalPlan, PlanView};
use vstd::prelude::*;

verus! {

/// The plan of a further table, and the scope with it.
pub open spec fn right_bound(
    scope: ScopeView,
    table: Seq<char>,
    alias: Option<Seq<char>>,
    join_type: JoinType,
) -> Option<(PlanView, ScopeView)> {
    let tables = scope.binder.tables.map();
    if tables.contains_key(table) {
        let (plan, columns, arena) = source_view(
            scope.arena,
            tables[table],
            table,
            alias,
            false,
        );
        Some(
            (
                plan,
                ScopeView {
                    binder: BinderView {
                        sources: scope.binder.sources.push(
                            SourceView { table, alias, join_type: Some(join_type), columns },
                        ),
                        ..scope.binder
                    },
                    arena,
                },
            ),
        )
    } else {
        None
    }
}

/// A join of two plans.
pub open spec fn join_view(
    scope: ScopeView,
    left: PlanView,
    right: PlanView,
    join_type: JoinType,
    on: JoinConditionView,
) -> PlanView {
    pair(
        OperatorView::Join(
            JoinView { on, join_type, force_nested_loop: scope.binder.force_nested_loop },
        ),
        left,
        right,
    )
}

/// The outcome of a join on what is given. Columns of both sides that have to be equal become the
/// keys of the join.
pub open spec fn joined_on(
    from: FromState,
    right: (PlanView, Seq<ColumnRef>),
    join_type: JoinType,
    mid: ScopeView,
    given: Result<OrmView, DatabaseError>,
) -> Outcome<FromState> {
    match expr_bound(mid, given) {
        Outcome::Failed(err, scope) => Outcome::Failed(err, scope),
        Outcome::Done((expr, scope)) => {
            let left = row_columns(from.scope.binder.sources);
            let (on, filter, arena) = split_condition(scope.arena, left, right.1, expr);
            Outcome::Done(
                FromState {
                    scope: scope.with_arena(arena),
                    plan: join_view(
                        scope,
                        from.plan,
                        right.0,
                        join_type,
                        JoinConditionView::On { on, filter },
                    ),
                },
            )
        },
    }
}

/// The columns of the sources, side by side.
pub open spec fn row_columns(sources: Seq<SourceView>) -> Seq<ColumnRef>
    decreases sources.len(),
{
    if sources.len() == 0 {
        Seq::empty()
    } else {
        row_columns(sources.drop_last()) + sources.last().columns
    }
}

/// Whether both sides have a column of each name.
pub open spec fn shared(
    arena: ArenaView,
    left: Seq<ColumnRef>,
    right: Seq<ColumnRef>,
    names: Seq<Seq<char>>,
) -> bool {
    forall|i: int| 0 <= i < names.len() ==> shared_one(arena, left, right, #[trigger] names[i])
}

/// Whether both sides have a column of the name.
pub open spec fn shared_one(
    arena: ArenaView,
    left: Seq<ColumnRef>,
    right: Seq<ColumnRef>,
    name: Seq<char>,
) -> bool {
    find_column(arena, left, name, 0) is Some && find_column(arena, right, name, 0) is Some
}

/// Whether the error is about the first name that one of the sides has no column of.
pub open spec fn names_unshared(
    arena: ArenaView,
    left: Seq<ColumnRef>,
    right: Seq<ColumnRef>,
    names: Seq<Seq<char>>,
    err: DatabaseError,
) -> bool {
    err matches DatabaseError::ColumnNotFound { name, span } && span is None && exists|i: int|
        {
            &&& 0 <= i < names.len()
            &&& name@ == #[trigger] names[i]
            &&& !shared_one(arena, left, right, names[i])
            &&& shared(arena, left, right, names.take(i))
        }
}

/// The pairs of columns of the names, and the arena with them: for each name first the column of
/// the left row, then that of the right row.
pub open spec fn using_pairs(
    arena: ArenaView,
    left: Seq<ColumnRef>,
    right: Seq<ColumnRef>,
    names: Seq<Seq<char>>,
) -> (Seq<(ExprRef, ExprRef)>, ArenaView)
    decreases names.len(),
{
    if names.len() == 0 {
        (Seq::empty(), arena)
    } else {
        let front = using_pairs(arena, left, right, names.drop_last());
        let l = find_column(arena, left, names.last(), 0)->0;
        let r = find_column(arena, right, names.last(), 0)->0;
        let first = front.1.push_expr(column_view(left[l], l as usize));
        let second = first.push_expr(column_view(right[r], r as usize));
        (
            front.0.push(
                (
                    ExprRef(front.1.exprs.len() as usize),
                    ExprRef(first.exprs.len() as usize),
                ),
            ),
            second,
        )
    }
}

/// The texts of the names.
pub open spec fn texts(names: Seq<String>) -> Seq<Seq<char>> {
    names.map_values(|name: String| name@)
}

fn all_columns(sources: &Vec<BoundSource>, Ghost(arena): Ghost<ArenaView>) -> (res: Vec<ColumnRef>)
    requires
        sources_known(source_views(sources@), arena),
    ensures
        res@ == row_columns(source_views(sources@)),
        arena.has_columns(res@),
{
    let ghost views = source_views(sources@);
    let mut out: Vec<ColumnRef> = Vec::new();
    let mut i: usize = 0;
    assert(views.take(0) =~= Seq::empty());
    while i < sources.len()
        invariant
            i <= sources.len(),
            views == source_views(sources@),
            sources_known(views, arena),
            out@ == row_columns(views.take(i as int)),
            arena.has_columns(out@),
        decreases sources.len() - i,
    {
        let source = &sources[i];
        assert(views[i as int] == source@);
        assert(arena.has_columns(views[i as int].columns));
        let ghost before = out@;
        let mut j: usize = 0;
        while j < source.columns.len()
            invariant
                j <= source.columns.len(),
                arena.has_columns(before),
                arena.has_columns(source.columns@),
                out@ == before + source.columns@.take(j as int),
                arena.has_columns(out@),
            decreases source.columns.len() - j,
        {
            assert(arena.has_column(source.columns@[j as int]));
            out.push(source.columns[j]);
            assert(before + source.columns@.take(j + 1) =~= (before + source.columns@.take(
                j as int,
            )).push(source.columns@[j as int]));
            j += 1;
        }
        proof {
            assert(source.columns@.take(j as int) =~= source.columns@);
            let next = views.take(i + 1);
            assert(next.drop_last() =~= views.take(i as int));
            assert(next.last() == source@);
        }
        i += 1;
    }
    assert(views.take(i as int) =~= views);
    out
}

fn bind_right<'a>(scope: &mut ExprBindScope<'a>, source: QuerySource, join_type: JoinType) -> (res:
    Result<LogicalPlan, DatabaseError>)
    requires
        old(scope).known(),
    ensures
        match right_bound(
            old(scope)@,
            source.table_name@,
            match source.alias {
                Some(alias) => Some(alias@),
                None => None,
            },
            join_type,
        ) {
            Some((plan, after)) => (res matches Ok(right) && right@ == plan && bound(
                right@,
                after.arena,
            )) && final(scope)@ == after,
            None => res == Err::<LogicalPlan, DatabaseError>(DatabaseError::TableNotFound)
                && final(scope)@
                == old(scope)@,
        },
        final(scope).known(),
        old(scope)@.extended_by(final(scope)@),
{
    let mut with_pk: Option<TableName> = None;
    std::mem::swap(&mut with_pk, &mut scope.binder.with_pk);
    assert(scope@.binder == BinderView { with_pk: None, ..old(scope)@.binder });
    let res = scope.binder.bind_base_table_ref(
        Some(join_type),
        source.table_name,
        source.alias,
        &mut scope.arena,
    );
    let ghost mid = scope@;
    std::mem::swap(&mut with_pk, &mut scope.binder.with_pk);
    assert(scope@.binder == BinderView {
        with_pk: old(scope)@.binder.with_pk,
        ..mid.binder
    });
    res
}

impl<'s, 'a, M: Model> BindPlanFrom<'s, 'a, M> {
    fn join_on<N: Model, E: IntoOrmExpression, F>(
        self,
        join_type: JoinType,
        alias: Option<String>,
        build: F,
    ) -> (res: Result<Self, DatabaseError>) where
        F: FnOnce(&mut ExprBindScope<'a>) -> Result<E, DatabaseError>,

        requires
            self.state().wf(),
            forall|x: &mut ExprBindScope<'a>|
                x.known() ==> #[trigger] call_requires(build, (x,)),
            forall|x: &mut ExprBindScope<'a>, r: Result<E, DatabaseError>|
                x.known() && #[trigger] call_ensures(build, (x,), r) ==> final(x).known()
                    && x@.extended_by(final(x)@)
                        && (r matches Ok(given) ==> given.orm().fits(final(x)@.arena)),
        ensures
            match right_bound(self.state().scope, N::table(), match alias {
                        Some(alias) => Some(alias@),
                        None => None,
                    }, join_type) {
                None => res matches Err(DatabaseError::TableNotFound) && final(self.scope)@
                    == self.state().scope,
                Some((right, scope)) => exists|x: &mut ExprBindScope<'a>,
                    r: Result<E, DatabaseError>|
                    {
                        &&& x@ == at_step(scope, QueryBindStep::From)
                        &&& #[trigger] call_ensures(build, (x,), r)
                        &&& match joined_on(self.state(),
                            (right, scope.binder.sources.last().columns), join_type,
                            at_step(final(x)@, scope.binder.step), orm_of(r)) {
                            Outcome::Done(state) => res matches Ok(query) && query.state() == state
                                && state.wf()
                                && self.state().scope.extended_by(state.scope)
                                    && *final(query.scope)
                                == *final(self.scope),
                            Outcome::Failed(err, scope) => (res matches Err(e) && e == err)
                                && final(self.scope)@ == scope && scope.known()
                                && self.state().scope.extended_by(scope),
                        }
                    },
            },
    {
        let ghost from = self.state();
        let source = match alias {
            Some(alias) => QuerySource::model::<N>().with_alias(alias),
            None => QuerySource::model::<N>(),
        };
        let BindPlanFrom { scope, plan, marker } = self;
        let left = all_columns(&scope.binder.sources, Ghost(from.scope.arena));
        let right = match bind_right(scope, source, join_type) {
            Ok(right) => right,
            Err(err) => {
                return Err(err);
            },
        };
        let ghost first = scope@;
        assert(first.binder.sources.len() == from.scope.binder.sources.len() + 1);
        let last: usize = scope.binder.sources.len() - 1;
        let own = scope.binder.sources[last].columns.clone();
        assert(own@ =~= scope.binder.sources@[last as int].columns@);
        assert(first.binder.sources.last() == scope.binder.sources@[last as int]@);
        assert(sources_known(first.binder.sources, first.arena));
        assert(first.arena.has_columns(first.binder.sources[last as int].columns));
        let on = match bind_step(scope, QueryBindStep::From, build) {
            Ok(on) => on,
            Err(err) => {
                return Err(err);
            },
        };
        let ghost middle = scope@;
        let (keys, filter) = split_join_condition(on, &left, &own, &mut scope.arena);
        proof {
            lemma_extended_trans(first.arena, middle.arena, scope@.arena);
            lemma_known_extended(scope.binder@, middle.arena, scope@.arena);
            lemma_bound_extended(from.plan, from.scope.arena, scope@.arena);
            lemma_bound_extended(right@, first.arena, scope@.arena);
        }
        let plan = scope.binder.bind_join(
            plan,
            right,
            join_type,
            JoinCondition::On { on: keys, filter },
        );
        Ok(BindPlanFrom { scope, plan, marker })
    }

    /// Joins the rows for which the expression holds.
    pub fn inner_join<N: Model, E: IntoOrmExpression, F>(self, build: F) -> (res: Result<
        Self,
        DatabaseError,
    >) where F: FnOnce(&mut ExprBindScope<'a>) -> Result<E, DatabaseError>
        requires
            self.state().wf(),
            forall|x: &mut ExprBindScope<'a>|
                x.known() ==> #[trigger] call_requires(build, (x,)),
            forall|x: &mut ExprBindScope<'a>, r: Result<E, DatabaseError>|
                x.known() && #[trigger] call_ensures(build, (x,), r) ==> final(x).known()
                    && x@.extended_by(final(x)@)
                        && (r matches Ok(given) ==> given.orm().fits(final(x)@.arena)),
        ensures
            match right_bound(self.state().scope, N::table(), None, JoinType::Inner) {
                None => res matches Err(DatabaseError::TableNotFound) && final(self.scope)@
                    == self.state().scope,
                Some((right, scope)) => exists|x: &mut ExprBindScope<'a>,
                    r: Result<E, DatabaseError>|
                    {
                        &&& x@ == at_step(scope, QueryBindStep::From)
                        &&& #[trigger] call_ensures(build, (x,), r)
                        &&& match joined_on(self.state(),
                            (right, scope.binder.sources.last().columns), JoinType::Inner,
                            at_step(final(x)@, scope.binder.step), orm_of(r)) {
                            Outcome::Done(state) => res matches Ok(query) && query.state() == state
                                && state.wf()
                                && self.state().scope.extended_by(state.scope)
                                    && *final(query.scope)
                                == *final(self.scope),
                            Outcome::Failed(err, scope) => (res matches Err(e) && e == err)
                                && final(self.scope)@ == scope && scope.known()
                                && self.state().scope.extended_by(scope),
                        }
                    },
            },
    {
        self.join_on::<N, E, F>(JoinType::Inner, None, build)
    }

    /// Joins the rows of a table under another name for which the expression holds.
    pub fn inner_join_as<N: Model, E: IntoOrmExpression, F>(self, alias: String,
        build: F) -> (res: Result<
        Self,
        DatabaseError,
    >) where F: FnOnce(&mut ExprBindScope<'a>) -> Result<E, DatabaseError>
        requires
            self.state().wf(),
            forall|x: &mut ExprBindScope<'a>|
                x.known() ==> #[trigger] call_requires(build, (x,)),
            forall|x: &mut ExprBindScope<'a>, r: Result<E, DatabaseError>|
                x.known() && #[trigger] call_ensures(build, (x,), r) ==> final(x).known()
                    && x@.extended_by(final(x)@)
                        && (r matches Ok(given) ==> given.orm().fits(final(x)@.arena)),
        ensures
            match right_bound(self.state().scope, N::table(), Some(alias@), JoinType::Inner) {
                None => res matches Err(DatabaseError::TableNotFound) && final(self.scope)@
                    == self.state().scope,
                Some((right, scope)) => exists|x: &mut ExprBindScope<'a>,
                    r: Result<E, DatabaseError>|
                    {
                        &&& x@ == at_step(scope, QueryBindStep::From)
                        &&& #[trigger] call_ensures(build, (x,), r)
                        &&& match joined_on(self.state(),
                            (right, scope.binder.sources.last().columns), JoinType::Inner,
                            at_step(final(x)@, scope.binder.step), orm_of(r)) {
                            Outcome::Done(state) => res matches Ok(query) && query.state() == state
                                && state.wf()
                                && self.state().scope.extended_by(state.scope)
                                    && *final(query.scope)
                                == *final(self.scope),
                            Outcome::Failed(err, scope) => (res matches Err(e) && e == err)
                                && final(self.scope)@ == scope && scope.known()
                                && self.state().scope.extended_by(scope),
                        }
                    },
            },
    {
        self.join_on::<N, E, F>(JoinType::Inner, Some(alias), build)
    }

    /// As an inner join, and keeps the left rows without a right one.
    pub fn left_join<N: Model, E: IntoOrmExpression, F>(self, build: F) -> (res: Result<
        Self,
        DatabaseError,
    >) where F: FnOnce(&mut ExprBindScope<'a>) -> Result<E, DatabaseError>
        requires
            self.state().wf(),
            forall|x: &mut ExprBindScope<'a>|
                x.known() ==> #[trigger] call_requires(build, (x,)),
            forall|x: &mut ExprBindScope<'a>, r: Result<E, DatabaseError>|
                x.known() && #[trigger] call_ensures(build, (x,), r) ==> final(x).known()
                    && x@.extended_by(final(x)@)
                        && (r matches Ok(given) ==> given.orm().fits(final(x)@.arena)),
        ensures
            match right_bound(self.state().scope, N::table(), None, JoinType::LeftOuter) {
                None => res matches Err(DatabaseError::TableNotFound) && final(self.scope)@
                    == self.state().scope,
                Some((right, scope)) => exists|x: &mut ExprBindScope<'a>,
                    r: Result<E, DatabaseError>|
                    {
                        &&& x@ == at_step(scope, QueryBindStep::From)
                        &&& #[trigger] call_ensures(build, (x,), r)
                        &&& match joined_on(self.state(),
                            (right, scope.binder.sources.last().columns), JoinType::LeftOuter,
                            at_step(final(x)@, scope.binder.step), orm_of(r)) {
                            Outcome::Done(state) => res matches Ok(query) && query.state() == state
                                && state.wf()
                                && self.state().scope.extended_by(state.scope)
                                    && *final(query.scope)
                                == *final(self.scope),
                            Outcome::Failed(err, scope) => (res matches Err(e) && e == err)
                                && final(self.scope)@ == scope && scope.known()
                                && self.state().scope.extended_by(scope),
                        }
                    },
            },
    {
        self.join_on::<N, E, F>(JoinType::LeftOuter, None, build)
    }

    /// As a left join, with the table under another name.
    pub fn left_join_as<N: Model, E: IntoOrmExpression, F>(self, alias: String,
        build: F) -> (res: Result<
        Self,
        DatabaseError,
    >) where F: FnOnce(&mut ExprBindScope<'a>) -> Result<E, DatabaseError>
        requires
            self.state().wf(),
            forall|x: &mut ExprBindScope<'a>|
                x.known() ==> #[trigger] call_requires(build, (x,)),
            forall|x: &mut ExprBindScope<'a>, r: Result<E, DatabaseError>|
                x.known() && #[trigger] call_ensures(build, (x,), r) ==> final(x).known()
                    && x@.extended_by(final(x)@)
                        && (r matches Ok(given) ==> given.orm().fits(final(x)@.arena)),
        ensures
            match right_bound(self.state().scope, N::table(), Some(alias@), JoinType::LeftOuter) {
                None => res matches Err(DatabaseError::TableNotFound) && final(self.scope)@
                    == self.state().scope,
                Some((right, scope)) => exists|x: &mut ExprBindScope<'a>,
                    r: Result<E, DatabaseError>|
                    {
                        &&& x@ == at_step(scope, QueryBindStep::From)
                        &&& #[trigger] call_ensures(build, (x,), r)
                        &&& match joined_on(self.state(),
                            (right, scope.binder.sources.last().columns), JoinType::LeftOuter,
                            at_step(final(x)@, scope.binder.step), orm_of(r)) {
                            Outcome::Done(state) => res matches Ok(query) && query.state() == state
                                && state.wf()
                                && self.state().scope.extended_by(state.scope)
                                    && *final(query.scope)
                                == *final(self.scope),
                            Outcome::Failed(err, scope) => (res matches Err(e) && e == err)
                                && final(self.scope)@ == scope && scope.known()
                                && self.state().scope.extended_by(scope),
                        }
                    },
            },
    {
        self.join_on::<N, E, F>(JoinType::LeftOuter, Some(alias), build)
    }

    /// As an inner join, and keeps the right rows without a left one.
    pub fn right_join<N: Model, E: IntoOrmExpression, F>(self, build: F) -> (res: Result<
        Self,
        DatabaseError,
    >) where F: FnOnce(&mut ExprBindScope<'a>) -> Result<E, DatabaseError>
        requires
            self.state().wf(),
            forall|x: &mut ExprBindScope<'a>|
                x.known() ==> #[trigger] call_requires(build, (x,)),
            forall|x: &mut ExprBindScope<'a>, r: Result<E, DatabaseError>|
                x.known() && #[trigger] call_ensures(build, (x,), r) ==> final(x).known()
                    && x@.extended_by(final(x)@)
                        && (r matches Ok(given) ==> given.orm().fits(final(x)@.arena)),
        ensures
            match right_bound(self.state().scope, N::table(), None, JoinType::RightOuter) {
                None => res matches Err(DatabaseError::TableNotFound) && final(self.scope)@
                    == self.state().scope,
                Some((right, scope)) => exists|x: &mut ExprBindScope<'a>,
                    r: Result<E, DatabaseError>|
                    {
                        &&& x@ == at_step(scope, QueryBindStep::From)
                        &&& #[trigger] call_ensures(build, (x,), r)
                        &&& match joined_on(self.state(),
                            (right, scope.binder.sources.last().columns), JoinType::RightOuter,
                            at_step(final(x)@, scope.binder.step), orm_of(r)) {
                            Outcome::Done(state) => res matches Ok(query) && query.state() == state
                                && state.wf()
                                && self.state().scope.extended_by(state.scope)
                                    && *final(query.scope)
                                == *final(self.scope),
                            Outcome::Failed(err, scope) => (res matches Err(e) && e == err)
                                && final(self.scope)@ == scope && scope.known()
                                && self.state().scope.extended_by(scope),
                        }
                    },
            },
    {
        self.join_on::<N, E, F>(JoinType::RightOuter, None, build)
    }

    /// As an inner join, and keeps the rows of both sides without another.
    pub fn full_join<N: Model, E: IntoOrmExpression, F>(self, build: F) -> (res: Result<
        Self,
        DatabaseError,
    >) where F: FnOnce(&mut ExprBindScope<'a>) -> Result<E, DatabaseError>
        requires
            self.state().wf(),
            forall|x: &mut ExprBindScope<'a>|
                x.known() ==> #[trigger] call_requires(build, (x,)),
            forall|x: &mut ExprBindScope<'a>, r: Result<E, DatabaseError>|
                x.known() && #[trigger] call_ensures(build, (x,), r) ==> final(x).known()
                    && x@.extended_by(final(x)@)
                        && (r matches Ok(given) ==> given.orm().fits(final(x)@.arena)),
        ensures
            match right_bound(self.state().scope, N::table(), None, JoinType::Full) {
                None => res matches Err(DatabaseError::TableNotFound) && final(self.scope)@
                    == self.state().scope,
                Some((right, scope)) => exists|x: &mut ExprBindScope<'a>,
                    r: Result<E, DatabaseError>|
                    {
                        &&& x@ == at_step(scope, QueryBindStep::From)
                        &&& #[trigger] call_ensures(build, (x,), r)
                        &&& match joined_on(self.state(),
                            (right, scope.binder.sources.last().columns), JoinType::Full,
                            at_step(final(x)@, scope.binder.step), orm_of(r)) {
                            Outcome::Done(state) => res matches Ok(query) && query.state() == state
                                && state.wf()
                                && self.state().scope.extended_by(state.scope)
                                    && *final(query.scope)
                                == *final(self.scope),
                            Outcome::Failed(err, scope) => (res matches Err(e) && e == err)
                                && final(self.scope)@ == scope && scope.known()
                                && self.state().scope.extended_by(scope),
                        }
                    },
            },
    {
        self.join_on::<N, E, F>(JoinType::Full, None, build)
    }

    /// Joins every row with every row.
    pub fn cross_join<N: Model>(self) -> (res: Result<Self, DatabaseError>)
        requires
            self.state().wf(),
        ensures
            match right_bound(self.state().scope, N::table(), None, JoinType::Cross) {
                None => res matches Err(DatabaseError::TableNotFound) && final(self.scope)@
                    == self.state().scope,
                Some((right, scope)) => res matches Ok(query) && query.state() == (FromState {
                    scope,
                    plan: join_view(
                        scope,
                        self.state().plan,
                        right,
                        JoinType::Cross,
                        JoinConditionView::Nothing,
                    ),
                }) && query.state().wf() && *final(query.scope) == *final(self.scope),
            },
    {
        let ghost from = self.state();
        let BindPlanFrom { scope, plan, marker } = self;
        let right = match bind_right(scope, QuerySource::model::<N>(), JoinType::Cross) {
            Ok(right) => right,
            Err(err) => {
                return Err(err);
            },
        };
        proof {
            lemma_bound_extended(from.plan, from.scope.arena, scope@.arena);
        }
        let plan = scope.binder.bind_join(plan, right, JoinType::Cross, JoinCondition::Nothing);
        Ok(BindPlanFrom { scope, plan, marker })
    }

    fn join_using<N: Model>(self, join_type: JoinType, columns: Vec<String>) -> (res: Result<
        Self,
        DatabaseError,
    >)
        requires
            self.state().wf(),
        ensures
            match right_bound(self.state().scope, N::table(), None, join_type) {
                None => res matches Err(DatabaseError::TableNotFound) && final(self.scope)@
                    == self.state().scope,
                Some((right, scope)) => {
                    let left = row_columns(self.state().scope.binder.sources);
                    let own = scope.binder.sources.last().columns;
                    let names = texts(columns@);
                    if shared(scope.arena, left, own, names) {
                        let (on, arena) = using_pairs(scope.arena, left, own, names);
                        res matches Ok(query) && query.state() == (FromState {
                            scope: scope.with_arena(arena),
                            plan: join_view(
                                scope,
                                self.state().plan,
                                right,
                                join_type,
                                JoinConditionView::On { on, filter: None },
                            ),
                        }) && query.state().wf() && *final(query.scope) == *final(self.scope)
                    } else {
                        &&& res matches Err(err) && names_unshared(
                            scope.arena,
                            left,
                            own,
                            names,
                            err,
                        )
                        &&& final(self.scope)@ == scope
                    }
                },
            },
    {
        let ghost from = self.state();
        let BindPlanFrom { scope, plan, marker } = self;
        let left = all_columns(&scope.binder.sources, Ghost(from.scope.arena));
        let right = match bind_right(scope, QuerySource::model::<N>(), join_type) {
            Ok(right) => right,
            Err(err) => {
                return Err(err);
            },
        };
        let ghost first = scope@;
        let last: usize = scope.binder.sources.len() - 1;
        let own = scope.binder.sources[last].columns.clone();
        assert(own@ =~= scope.binder.sources@[last as int].columns@);
        assert(first.binder.sources.last() == scope.binder.sources@[last as int]@);
        assert(sources_known(first.binder.sources, first.arena));
        assert(first.arena.has_columns(first.binder.sources[last as int].columns));
        if let Err(err) = check_shared(&columns, &left, &own, &scope.arena) {
            return Err(err);
        }
        let on = bind_using(&columns, &left, &own, &mut scope.arena);
        proof {
            lemma_known_extended(scope.binder@, first.arena, scope@.arena);
            lemma_bound_extended(from.plan, from.scope.arena, scope@.arena);
            lemma_bound_extended(right@, first.arena, scope@.arena);
        }
        let plan = scope.binder.bind_join(
            plan,
            right,
            join_type,
            JoinCondition::On { on, filter: None },
        );
        Ok(BindPlanFrom { scope, plan, marker })
    }

    /// Joins the rows whose columns of the names are equal.
    pub fn inner_join_using<N: Model>(self,
        columns: Vec<String>) -> (res: Result<Self, DatabaseError>)
        requires
            self.state().wf(),
        ensures
            match right_bound(self.state().scope, N::table(), None, JoinType::Inner) {
                None => res matches Err(DatabaseError::TableNotFound) && final(self.scope)@
                    == self.state().scope,
                Some((right, scope)) => {
                    let left = row_columns(self.state().scope.binder.sources);
                    let own = scope.binder.sources.last().columns;
                    let names = texts(columns@);
                    if shared(scope.arena, left, own, names) {
                        let (on, arena) = using_pairs(scope.arena, left, own, names);
                        res matches Ok(query) && query.state() == (FromState {
                            scope: scope.with_arena(arena),
                            plan: join_view(
                                scope,
                                self.state().plan,
                                right,
                                JoinType::Inner,
                                JoinConditionView::On { on, filter: None },
                            ),
                        }) && query.state().wf() && *final(query.scope) == *final(self.scope)
                    } else {
                        &&& res matches Err(err) && names_unshared(
                            scope.arena,
                            left,
                            own,
                            names,
                            err,
                        )
                        &&& final(self.scope)@ == scope
                    }
                },
            },
    {
        self.join_using::<N>(JoinType::Inner, columns)
    }

    /// As an inner join, and keeps the left rows without a right one.
    pub fn left_join_using<N: Model>(self,
        columns: Vec<String>) -> (res: Result<Self, DatabaseError>)
        requires
            self.state().wf(),
        ensures
            match right_bound(self.state().scope, N::table(), None, JoinType::LeftOuter) {
                None => res matches Err(DatabaseError::TableNotFound) && final(self.scope)@
                    == self.state().scope,
                Some((right, scope)) => {
                    let left = row_columns(self.state().scope.binder.sources);
                    let own = scope.binder.sources.last().columns;
                    let names = texts(columns@);
                    if shared(scope.arena, left, own, names) {
                        let (on, arena) = using_pairs(scope.arena, left, own, names);
                        res matches Ok(query) && query.state() == (FromState {
                            scope: scope.with_arena(arena),
                            plan: join_view(
                                scope,
                                self.state().plan,
                                right,
                                JoinType::LeftOuter,
                                JoinConditionView::On { on, filter: None },
                            ),
                        }) && query.state().wf() && *final(query.scope) == *final(self.scope)
                    } else {
                        &&& res matches Err(err) && names_unshared(
                            scope.arena,
                            left,
                            own,
                            names,
                            err,
                        )
                        &&& final(self.scope)@ == scope
                    }
                },
            },
    {
        self.join_using::<N>(JoinType::LeftOuter, columns)
    }

    /// As an inner join, and keeps the right rows without a left one.
    pub fn right_join_using<N: Model>(self,
        columns: Vec<String>) -> (res: Result<Self, DatabaseError>)
        requires
            self.state().wf(),
        ensures
            match right_bound(self.state().scope, N::table(), None, JoinType::RightOuter) {
                None => res matches Err(DatabaseError::TableNotFound) && final(self.scope)@
                    == self.state().scope,
                Some((right, scope)) => {
                    let left = row_columns(self.state().scope.binder.sources);
                    let own = scope.binder.sources.last().columns;
                    let names = texts(columns@);
                    if shared(scope.arena, left, own, names) {
                        let (on, arena) = using_pairs(scope.arena, left, own, names);
                        res matches Ok(query) && query.state() == (FromState {
                            scope: scope.with_arena(arena),
                            plan: join_view(
                                scope,
                                self.state().plan,
                                right,
                                JoinType::RightOuter,
                                JoinConditionView::On { on, filter: None },
                            ),
                        }) && query.state().wf() && *final(query.scope) == *final(self.scope)
                    } else {
                        &&& res matches Err(err) && names_unshared(
                            scope.arena,
                            left,
                            own,
                            names,
                            err,
                        )
                        &&& final(self.scope)@ == scope
                    }
                },
            },
    {
        self.join_using::<N>(JoinType::RightOuter, columns)
    }

    /// As an inner join, and keeps the rows of both sides without another.
    pub fn full_join_using<N: Model>(self,
        columns: Vec<String>) -> (res: Result<Self, DatabaseError>)
        requires
            self.state().wf(),
        ensures
            match right_bound(self.state().scope, N::table(), None, JoinType::Full) {
                None => res matches Err(DatabaseError::TableNotFound) && final(self.scope)@
                    == self.state().scope,
                Some((right, scope)) => {
                    let left = row_columns(self.state().scope.binder.sources);
                    let own = scope.binder.sources.last().columns;
                    let names = texts(columns@);
                    if shared(scope.arena, left, own, names) {
                        let (on, arena) = using_pairs(scope.arena, left, own, names);
                        res matches Ok(query) && query.state() == (FromState {
                            scope: scope.with_arena(arena),
                            plan: join_view(
                                scope,
                                self.state().plan,
                                right,
                                JoinType::Full,
                                JoinConditionView::On { on, filter: None },
                            ),
                        }) && query.state().wf() && *final(query.scope) == *final(self.scope)
                    } else {
                        &&& res matches Err(err) && names_unshared(
                            scope.arena,
                            left,
                            own,
                            names,
                            err,
                        )
                        &&& final(self.scope)@ == scope
                    }
                },
            },
    {
        self.join_using::<N>(JoinType::Full, columns)
    }

}

fn check_shared(
    names: &Vec<String>,
    left: &Vec<ColumnRef>,
    right: &Vec<ColumnRef>,
    arena: &PlanArena,
) -> (res: Result<(), DatabaseError>)
    requires
        arena@.has_columns(left@),
        arena@.has_columns(right@),
    ensures
        res is Ok <==> shared(arena@, left@, right@, texts(names@)),
        res matches Err(err) ==> names_unshared(arena@, left@, right@, texts(names@), err),
{
    let mut i: usize = 0;
    while i < names.len()
        invariant
            i <= names.len(),
            arena@.has_columns(left@),
            arena@.has_columns(right@),
            forall|j: int|
                0 <= j < i ==> shared_one(arena@, left@, right@, #[trigger] texts(names@)[j]),
        decreases names.len() - i,
    {
        assert(texts(names@)[i as int] == names@[i as int]@);
        let name = names[i].as_str();
        if column_position(left, name, arena).is_none()
            || column_position(right, name, arena).is_none() {
            let ghost all = texts(names@);
            assert(!shared_one(arena@, left@, right@, all[i as int]));
            assert(shared(arena@, left@, right@, all.take(i as int)));
            return Err(DatabaseError::column_not_found(names[i].clone()));
        }
        i += 1;
    }
    Ok(())
}

fn bind_using(
    names: &Vec<String>,
    left: &Vec<ColumnRef>,
    right: &Vec<ColumnRef>,
    arena: &mut PlanArena,
) -> (res: Vec<(ExprRef, ExprRef)>)
    requires
        old(arena)@.wf(),
        old(arena)@.has_columns(left@),
        old(arena)@.has_columns(right@),
        shared(old(arena)@, left@, right@, texts(names@)),
    ensures
        (res@, final(arena)@) == using_pairs(old(arena)@, left@, right@, texts(names@)),
        final(arena)@.wf(),
        old(arena)@.extended_by(final(arena)@),
        valid_pairs(final(arena)@, res@),
{
    let ghost start = arena@;
    let ghost all = texts(names@);
    let mut out: Vec<(ExprRef, ExprRef)> = Vec::new();
    let mut i: usize = 0;
    assert(all.take(0) =~= Seq::empty());
    while i < names.len()
        invariant
            i <= names.len(),
            all == texts(names@),
            start.has_columns(left@),
            start.has_columns(right@),
            shared(start, left@, right@, all),
            arena@.wf(),
            arena@.columns == start.columns,
            start.extended_by(arena@),
            (out@, arena@) == using_pairs(start, left@, right@, all.take(i as int)),
            valid_pairs(arena@, out@),
        decreases names.len() - i,
    {
        assert(all[i as int] == names@[i as int]@);
        assert(shared_one(start, left@, right@, all[i as int]));
        let ghost before = arena@;
        proof {
            lemma_find_same(start, arena@, left@, all[i as int], 0);
            lemma_find_same(start, arena@, right@, all[i as int], 0);
            let next = all.take(i + 1);
            assert(next.drop_last() =~= all.take(i as int));
            assert(next.last() == all[i as int]);
        }
        let name = names[i].as_str();
        let l: usize = column_position(left, name, arena).unwrap();
        let r: usize = column_position(right, name, arena).unwrap();
        let first = arena.alloc_expression(ScalarExpression::column_expr(left[l], l));
        let ghost middle = arena@;
        let second = arena.alloc_expression(ScalarExpression::column_expr(right[r], r));
        out.push((first, second));
        proof {
            lemma_extended_trans(start, before, middle);
            lemma_extended_trans(start, middle, arena@);
        }
        i += 1;
    }
    assert(all.take(i as int) =~= all);
    out
}

proof fn lemma_find_same(
    before: ArenaView,
    after: ArenaView,
    columns: Seq<ColumnRef>,
    name: Seq<char>,
    from: int,
)
    requires
        before.columns == after.columns,
    ensures
        find_column(after, columns, name, from) == find_column(before, columns, name, from),
    decreases columns.len() - from,
{
    if 0 <= from < columns.len() && before.columns[columns[from].0 as int].name != name {
        lemma_find_same(before, after, columns, name, from + 1);
    }
}

} // verus!
