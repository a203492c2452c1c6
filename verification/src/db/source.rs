//! What a query can be run on: a database, or a transaction that is open.

use crate::binder::plan::bound;
use crate::db::database::{DBTransaction, Database};
use crate::db::iter::{DatabaseIter, ResultIter, StatementView, TransactionIter};
use crate::db::run::{planned, refused, runs, start_scope};
use crate::db::state::State;
use crate::errors::DatabaseError;
use crate::optimizer::rule::normalization::Stage;
use crate::orm::context::OrmContext;
use crate::orm::scope::ScopeView;
use crate::planner::arena::ArenaView;
use crate::planner::explain::plan_text;
use crate::planner::{LogicalPlan, PlanView};
use crate::storage::{Storage, Transaction};
use vstd::prelude::*;

verus! {

/// What a query was bound to.
pub open spec fn bound_to(built: Result<LogicalPlan, DatabaseError>, arena: ArenaView) -> Result<
    Stage,
    DatabaseError,
> {
    match built {
        Ok(plan) => Ok(Stage { plan: plan@, arena }),
        Err(err) => Err(err),
    }
}

/// Outcomes of starting a query in a statement that is open: the error of the query, an error of
/// the rules, or the statement.
pub open spec fn starts<S: Storage>(
    storage: S,
    state: State<S>,
    transaction: S::TransactionType,
    query: Result<Stage, DatabaseError>,
    res: Result<StatementView<S::Executor>, DatabaseError>,
) -> bool {
    match query {
        Err(err) => res == Err::<StatementView<S::Executor>, DatabaseError>(err),
        Ok(source) => match res {
            Ok(statement) => runs(storage, state, transaction, source, statement),
            Err(err) => refused(storage, state, source, err),
        },
    }
}

/// Outcomes of showing the plan of a query: the error of the query, an error of the rules, or a
/// plan that the rules may choose.
pub open spec fn shows_plan<S: Storage>(
    storage: S,
    state: State<S>,
    query: Result<Stage, DatabaseError>,
    res: Result<Seq<char>, DatabaseError>,
) -> bool {
    match query {
        Err(err) => res == Err::<Seq<char>, DatabaseError>(err),
        Ok(source) => match res {
            Ok(text) => exists|plan: PlanView, arena: ArenaView| #[trigger]
                planned(storage, state, source, plan, arena) && text == plan_text(arena, plan),
            Err(err) => refused(storage, state, source, err),
        },
    }
}

/// Outcomes of opening a statement in a transaction and starting a query in it. Where no statement
/// could be opened, there is no query.
pub open spec fn opens_and_starts<S: Storage>(
    storage: S,
    state: State<S>,
    transaction: S::TransactionType,
    query: Option<Result<Stage, DatabaseError>>,
    res: Result<(StatementView<S::Executor>, S::TransactionType), DatabaseError>,
) -> bool {
    exists|after: S::TransactionType, begun: Result<(), DatabaseError>|
        {
            &&& #[trigger] <S::TransactionType as Transaction>::begins(transaction, after, begun)
            &&& match begun {
                Err(err) => query is None && res == Err::<
                    (StatementView<S::Executor>, S::TransactionType),
                    DatabaseError,
                >(err),
                Ok(_) => query matches Some(query) && starts(
                    storage,
                    state,
                    after,
                    query,
                    match res {
                        Ok(pair) => Ok(pair.0),
                        Err(err) => Err(err),
                    },
                ) && (res matches Ok(pair) ==> pair.1 == after),
            }
        }
}

/// Outcomes of opening a statement in a transaction and showing the plan of a query.
pub open spec fn opens_and_shows<S: Storage>(
    storage: S,
    state: State<S>,
    transaction: S::TransactionType,
    query: Option<Result<Stage, DatabaseError>>,
    res: Result<Seq<char>, DatabaseError>,
) -> bool {
    exists|after: S::TransactionType, begun: Result<(), DatabaseError>|
        {
            &&& #[trigger] <S::TransactionType as Transaction>::begins(transaction, after, begun)
            &&& match begun {
                Err(err) => query is None && res == Err::<Seq<char>, DatabaseError>(err),
                Ok(_) => query matches Some(query) && shows_plan(storage, state, query, res),
            }
        }
}

/// What a query can be run on.
pub trait BindSource<'a>: Sized {
    type Iter: ResultIter;

    /// Whether the catalog is in order.
    spec fn bindable(&self) -> bool;

    /// The place where a query is written.
    spec fn scope(&self) -> ScopeView;

    /// Outcomes of running a query. Where no statement could be opened, there is no query.
    spec fn answers(
        self,
        query: Option<Result<Stage, DatabaseError>>,
        res: Result<Self::Iter, DatabaseError>,
    ) -> bool;

    /// Outcomes of showing the plan of a query. Where no statement could be opened, there is no
    /// query.
    spec fn shows(
        self,
        query: Option<Result<Stage, DatabaseError>>,
        res: Result<Seq<char>, DatabaseError>,
    ) -> bool;

    /// Runs a query.
    fn execute<F>(self, build: F) -> (res: Result<Self::Iter, DatabaseError>) where
        F: FnOnce(&mut OrmContext<'a>) -> Result<LogicalPlan, DatabaseError>,

        requires
            self.bindable(),
            forall|c: &mut OrmContext<'a>| c.known() ==> #[trigger] call_requires(build, (c,)),
            forall|c: &mut OrmContext<'a>, r: Result<LogicalPlan, DatabaseError>|
                c.known() && #[trigger] call_ensures(build, (c,), r) ==> final(c).known()
                    && c@.extended_by(final(c)@) && (r matches Ok(plan) ==> bound(
                    plan@,
                    final(c)@.arena,
                )),
        ensures
            self.answers(None, res) || exists|
                c: &mut OrmContext<'a>,
                r: Result<LogicalPlan, DatabaseError>,
            |
                {
                    &&& c@ == self.scope()
                    &&& #[trigger] call_ensures(build, (c,), r)
                    &&& self.answers(Some(bound_to(r, final(c)@.arena)), res)
                },
            res matches Ok(iter) ==> iter.ready(),
    ;

    /// Shows the plan of a query.
    fn explain<F>(self, build: F) -> (res: Result<String, DatabaseError>) where
        F: FnOnce(&mut OrmContext<'a>) -> Result<LogicalPlan, DatabaseError>,

        requires
            self.bindable(),
            forall|c: &mut OrmContext<'a>| c.known() ==> #[trigger] call_requires(build, (c,)),
            forall|c: &mut OrmContext<'a>, r: Result<LogicalPlan, DatabaseError>|
                c.known() && #[trigger] call_ensures(build, (c,), r) ==> final(c).known()
                    && c@.extended_by(final(c)@) && (r matches Ok(plan) ==> bound(
                    plan@,
                    final(c)@.arena,
                )),
        ensures
            ({
                let text: Result<Seq<char>, DatabaseError> = match res {
                    Ok(text) => Ok(text@),
                    Err(err) => Err(err),
                };
                self.shows(None, text) || exists|
                    c: &mut OrmContext<'a>,
                    r: Result<LogicalPlan, DatabaseError>,
                |
                    {
                        &&& c@ == self.scope()
                        &&& #[trigger] call_ensures(build, (c,), r)
                        &&& self.shows(Some(bound_to(r, final(c)@.arena)), text)
                    }
            }),
    ;
}

/// A transaction shows a query by the same plans as its database.
pub proof fn transaction_shows_plans_of_database<'a, 't, S: Storage>(
    database: &'a Database<S>,
    transaction: &'t mut DBTransaction<'a, S>,
    query: Result<Stage, DatabaseError>,
    res: Result<Seq<char>, DatabaseError>,
)
    requires
        transaction.state == database.state,
        transaction.storage == database.storage,
        database.shows(Some(query), res) || transaction.shows(Some(query), res),
    ensures
        shows_plan(database.storage, database.state, query, res),
{
}

impl<'a, S: Storage> BindSource<'a> for &'a Database<S> {
    type Iter = DatabaseIter<'a, S::TransactionType, S::Executor>;

    open spec fn bindable(&self) -> bool {
        (**self).wf()
    }

    open spec fn scope(&self) -> ScopeView {
        start_scope((**self).state)
    }

    /// The query runs in a transaction of its own.
    open spec fn answers(
        self,
        query: Option<Result<Stage, DatabaseError>>,
        res: Result<Self::Iter, DatabaseError>,
    ) -> bool {
        exists|opened: Result<S::TransactionType, DatabaseError>|
            {
                &&& #[trigger] self.storage.opens(self.transaction_isolation, opened)
                &&& match opened {
                    Err(err) => query is None && (res matches Err(e) && e == err),
                    Ok(fresh) => opens_and_starts(
                        self.storage,
                        self.state,
                        fresh,
                        query,
                        match res {
                            Ok(iter) => Ok(iter.state()),
                            Err(err) => Err(err),
                        },
                    ),
                }
            }
    }

    open spec fn shows(
        self,
        query: Option<Result<Stage, DatabaseError>>,
        res: Result<Seq<char>, DatabaseError>,
    ) -> bool {
        exists|opened: Result<S::TransactionType, DatabaseError>|
            {
                &&& #[trigger] self.storage.opens(self.transaction_isolation, opened)
                &&& match opened {
                    Err(err) => query is None && res == Err::<Seq<char>, DatabaseError>(err),
                    Ok(fresh) => opens_and_shows(self.storage, self.state, fresh, query, res),
                }
            }
    }

    fn execute<F>(self, build: F) -> (res: Result<Self::Iter, DatabaseError>) where
        F: FnOnce(&mut OrmContext<'a>) -> Result<LogicalPlan, DatabaseError>,
     {
        let opened = self.storage.transaction_with_isolation(self.transaction_isolation);
        assert(self.storage.opens(self.transaction_isolation, opened));
        let mut transaction = match opened {
            Ok(transaction) => transaction,
            Err(err) => {
                return Err(err);
            },
        };
        match self.state.execute(&self.storage, &mut transaction, build) {
            Ok(statement) => Ok(DatabaseIter { statement, transaction }),
            Err(err) => Err(err),
        }
    }

    fn explain<F>(self, build: F) -> (res: Result<String, DatabaseError>) where
        F: FnOnce(&mut OrmContext<'a>) -> Result<LogicalPlan, DatabaseError>,
     {
        let opened = self.storage.transaction_with_isolation(self.transaction_isolation);
        assert(self.storage.opens(self.transaction_isolation, opened));
        let mut transaction = match opened {
            Ok(transaction) => transaction,
            Err(err) => {
                return Err(err);
            },
        };
        let begun = transaction.begin_statement_scope();
        match begun {
            Ok(unit) => {
                assert(unit == ());
            },
            Err(err) => {
                return Err(err);
            },
        }
        let (plan, arena) = match self.state.build_plan(&self.storage, build) {
            Ok(built) => built,
            Err(err) => {
                return Err(err);
            },
        };
        Ok(plan.explain(&arena, 0))
    }
}

impl<'t, 'a, S: Storage> BindSource<'a> for &'t mut DBTransaction<'a, S> {
    type Iter = TransactionIter<'t, 'a, S::TransactionType, S::Executor>;

    open spec fn bindable(&self) -> bool {
        (**self).state.wf()
    }

    open spec fn scope(&self) -> ScopeView {
        start_scope(*(**self).state)
    }

    open spec fn answers(
        self,
        query: Option<Result<Stage, DatabaseError>>,
        res: Result<Self::Iter, DatabaseError>,
    ) -> bool {
        opens_and_starts(
            *self.storage,
            *self.state,
            self.inner,
            query,
            match res {
                Ok(iter) => Ok(iter.state()),
                Err(err) => Err(err),
            },
        )
    }

    open spec fn shows(
        self,
        query: Option<Result<Stage, DatabaseError>>,
        res: Result<Seq<char>, DatabaseError>,
    ) -> bool {
        opens_and_shows(*self.storage, *self.state, self.inner, query, res)
    }

    fn execute<F>(self, build: F) -> (res: Result<Self::Iter, DatabaseError>) where
        F: FnOnce(&mut OrmContext<'a>) -> Result<LogicalPlan, DatabaseError>,

        ensures
            res matches Ok(iter) ==> *final(iter.transaction) == final(self).inner,
            res is Err ==> exists|begun: Result<(), DatabaseError>| #[trigger]
                <S::TransactionType as Transaction>::begins(
                    old(self).inner,
                    final(self).inner,
                    begun,
                ),
            final(self).state == old(self).state,
            final(self).storage == old(self).storage,
    {
        let state: &'a State<S> = self.state;
        let storage: &'a S = self.storage;
        let started = state.execute(storage, &mut self.inner, build);
        proof {
            let begun = choose|begun: Result<(), DatabaseError>| #[trigger]
                <S::TransactionType as Transaction>::begins(old(self).inner, self.inner, begun);
            assert(<S::TransactionType as Transaction>::begins(
                old(self).inner,
                self.inner,
                begun,
            ));
        }
        match started {
            Ok(statement) => Ok(TransactionIter { statement, transaction: &mut self.inner }),
            Err(err) => Err(err),
        }
    }

    fn explain<F>(self, build: F) -> (res: Result<String, DatabaseError>) where
        F: FnOnce(&mut OrmContext<'a>) -> Result<LogicalPlan, DatabaseError>,

        ensures
            exists|begun: Result<(), DatabaseError>| #[trigger]
                <S::TransactionType as Transaction>::begins(
                    old(self).inner,
                    final(self).inner,
                    begun,
                ),
            final(self).state == old(self).state,
            final(self).storage == old(self).storage,
    {
        let begun = self.inner.begin_statement_scope();
        assert(<S::TransactionType as Transaction>::begins(old(self).inner, self.inner, begun));
        match begun {
            Ok(unit) => {
                assert(unit == ());
            },
            Err(err) => {
                return Err(err);
            },
        }
        let (plan, arena) = match self.state.build_plan(self.storage, build) {
            Ok(built) => built,
            Err(err) => {
                return Err(err);
            },
        };
        Ok(plan.explain(&arena, 0))
    }
}

} // verus!
