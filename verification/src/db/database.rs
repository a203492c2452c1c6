//! The database and the statements that run on it.

use crate::binder::table_known;
use crate::binder::plan::{bound, over};
use crate::binder::scan::scan_view;
use crate::catalog::{TableCatalog, TableName};
use crate::cache::CacheKey;
use crate::db::functions::{RowSource, ScalarFunction, TableFunction};
use crate::db::iter::{runs_out, StatementView};
use crate::db::run::{refused, runs, start_scope};
use crate::db::state::{
    apply_all, holds_columns, lemma_wf_filled, State, StateView,
};
use crate::errors::DatabaseError;
use crate::execution::ddl_apply::view_known;
use crate::optimizer::rule::normalization::Stage;
use crate::orm::context::OrmContext;
use crate::planner::arena::{column_views, ArenaView, TableArena};
use crate::planner::operator::dml::AnalyzeView;
use crate::planner::operator::OperatorView;
use crate::planner::LogicalPlan;
use crate::storage::{
    fills, CheckpointableStorage, StatisticsMeta, Storage, Transaction, TransactionIsolationLevel,
    ViewCatalog,
};
use crate::types::index::{IndexId, IndexMetaRef};
use vstd::prelude::*;

verus! {

/// What can be loaded into the catalog.
#[derive(Debug)]
pub enum CatalogKind {
    Table(TableName),
    View(TableName),
    ScalarFunction(ScalarFunction),
    TableFunction(RowSource),
}

/// A storage with a catalog over it.
#[derive(Debug)]
pub struct Database<S: Storage> {
    pub storage: S,
    pub transaction_isolation: TransactionIsolationLevel,
    pub state: State<S>,
}

/// A transaction that spans several statements.
#[derive(Debug)]
pub struct DBTransaction<'a, S: Storage> {
    pub inner: S::TransactionType,
    pub storage: &'a S,
    pub state: &'a State<S>,
}

/// Whether the result is the error, together with the statement that it came from.
pub open spec fn fails_in(
    res: Result<(), DatabaseError>,
    err: DatabaseError,
    context: Seq<char>,
) -> bool {
    res matches Err(DatabaseError::InStatement { context: c, source }) && c@ == context && *source
        == err
}

/// Outcomes of a statement that runs to its end in a transaction of its own. Only after the commit
/// is the catalog changed.
pub open spec fn completes<S: Storage>(
    storage: S,
    state: State<S>,
    transaction: S::TransactionType,
    source: Stage,
    context: Seq<char>,
    after: StateView,
    res: Result<(), DatabaseError>,
) -> bool {
    ||| exists|err: DatabaseError| #[trigger]
        refused(storage, state, source, err) && fails_in(res, err, context) && after == state@
    ||| exists|statement: StatementView<S::Executor>| #[trigger]
        runs(storage, state, transaction, source, statement) && concludes::<S>(
            state@,
            (statement, transaction),
            context,
            after,
            res,
        )
}

/// Outcomes of a statement that was started.
pub open spec fn concludes<S: Storage>(
    state: StateView,
    statement: (StatementView<S::Executor>, S::TransactionType),
    context: Seq<char>,
    after: StateView,
    res: Result<(), DatabaseError>,
) -> bool {
    exists|
        ended: (StatementView<S::Executor>, S::TransactionType),
        ran: Result<(), DatabaseError>,
    |
        {
            &&& #[trigger] runs_out(statement, ended, ran)
            &&& match ran {
                Err(err) => fails_in(res, err, context) && after == state,
                Ok(_) => committed::<S>(state, ended, context, after, res),
            }
        }
}

/// Outcomes of the commit of a statement that ended well.
pub open spec fn committed<S: Storage>(
    state: StateView,
    ended: (StatementView<S::Executor>, S::TransactionType),
    context: Seq<char>,
    after: StateView,
    res: Result<(), DatabaseError>,
) -> bool {
    exists|outcome: Result<(), DatabaseError>|
        {
            &&& #[trigger] ended.1.commits(outcome)
            &&& match outcome {
                Err(err) => fails_in(res, err, context) && after == state,
                Ok(_) => res is Ok && after == state.changed_by(
                    ended.0.ddl_apply,
                    ended.0.plan_arena@,
                ),
            }
        }
}

/// A statement that fails leaves the catalog as it was.
pub proof fn failed_statement_keeps_catalog<S: Storage>(
    storage: S,
    state: State<S>,
    transaction: S::TransactionType,
    source: Stage,
    context: Seq<char>,
    after: StateView,
    res: Result<(), DatabaseError>,
)
    requires
        completes(storage, state, transaction, source, context, after, res),
        res is Err,
    ensures
        after == state@,
{
}

impl<S: Storage> Database<S> {
    /// Whether the catalog is in order.
    pub open spec fn wf(&self) -> bool {
        self.state.wf()
    }

    /// Runs a statement to its end, commits it, and makes the changes of the catalog that it noted.
    pub fn execute_mut<F>(&mut self, context: &str,
        build: F) -> (res: Result<(), DatabaseError>) where
        F: FnOnce(&mut OrmContext<'_>) -> Result<LogicalPlan, DatabaseError>,

        requires
            old(self).wf(),
            forall|c: &mut OrmContext<'_>| c.known() ==> #[trigger] call_requires(build, (c,)),
            forall|c: &mut OrmContext<'_>, r: Result<LogicalPlan, DatabaseError>|
                c.known() && #[trigger] call_ensures(build, (c,), r) ==> final(c).known()
                    && c@.extended_by(final(c)@) && (r matches Ok(plan) ==> bound(
                    plan@,
                    final(c)@.arena,
                )),
        ensures
            exists|opened: Result<S::TransactionType, DatabaseError>|
                {
                    &&& #[trigger] old(self).storage.opens(
                        old(self).transaction_isolation,
                        opened,
                    )
                    &&& match opened {
                        Err(err) => (res matches Err(e) && e == err) && final(self).state@
                            == old(self).state@,
                        Ok(fresh) => exists|
                            transaction: S::TransactionType,
                            begun: Result<(), DatabaseError>,
                        |
                            {
                                &&& #[trigger] <S::TransactionType as Transaction>::begins(
                                    fresh,
                                    transaction,
                                    begun,
                                )
                                &&& match begun {
                                    Err(err) => fails_in(res, err, context@)
                                        && final(self).state@ == old(self).state@,
                                    Ok(_) => exists|
                                        c: &mut OrmContext<'_>,
                                        r: Result<LogicalPlan, DatabaseError>,
                                    |
                                        {
                                            &&& c@ == start_scope(old(self).state)
                                            &&& #[trigger] call_ensures(build, (c,), r)
                                            &&& match r {
                                                Err(err) => fails_in(res, err, context@)
                                                    && final(self).state@ == old(self).state@,
                                                Ok(source) => completes(
                                                    old(self).storage,
                                                    old(self).state,
                                                    transaction,
                                                    Stage {
                                                        plan: source@,
                                                        arena: final(c)@.arena,
                                                    },
                                                    context@,
                                                    final(self).state@,
                                                    res,
                                                ),
                                            }
                                        },
                                }
                            },
                    }
                },
            final(self).storage == old(self).storage,
            final(self).transaction_isolation == old(self).transaction_isolation,
            final(self).wf(),
    {
        let ghost storage = self.storage;
        let ghost before = self.state;
        let opened = self.storage.transaction_with_isolation(self.transaction_isolation);
        assert(storage.opens(self.transaction_isolation, opened));
        let mut transaction = match opened {
            Ok(transaction) => transaction,
            Err(err) => {
                return Err(err);
            },
        };
        let ghost fresh = transaction;
        let mut statement = match self.state.execute(&self.storage, &mut transaction, build) {
            Ok(statement) => statement,
            Err(err) => {
                return Err(err.with_sql_context(context));
            },
        };
        let ghost begun = (statement@, transaction);
        let ran = statement.run_out(&mut transaction);
        let ghost ended = (statement@, transaction);
        assert(runs_out(begun, ended, ran));
        if let Err(err) = ran {
            return Err(err.with_sql_context(context));
        }
        let (plan_arena, apply) = statement.into_parts();
        let outcome = transaction.commit();
        assert(ended.1.commits(outcome));
        if let Err(err) = outcome {
            return Err(err.with_sql_context(context));
        }
        let catalog_changed = match apply_all(apply, &mut self.state, &plan_arena) {
            Ok(catalog_changed) => catalog_changed,
            Err(err) => {
                return Err(err.with_sql_context(context));
            },
        };
        if catalog_changed {
            return self.state.recycle_table_arena();
        }
        Ok(())
    }
}

/// The plan that collects the statistics of a table, with its arena.
pub open spec fn analysis(state: StateView, name: Seq<char>) -> Option<Stage> {
    if state.tables.contains_key(name) {
        let (scan, arena) = scan_view(state.arena, state.tables[name], name, false);
        Some(
            Stage {
                plan: over(
                    OperatorView::Analyze(
                        AnalyzeView {
                            table_name: name,
                            index_metas: state.tables[name].indexes@,
                            histogram_buckets: None,
                        },
                    ),
                    scan,
                ),
                arena,
            },
        )
    } else {
        None
    }
}

/// The numbers of the indexes.
pub open spec fn index_ids(arena: ArenaView, indexes: Seq<IndexMetaRef>) -> Seq<IndexId> {
    indexes.map_values(|index: IndexMetaRef| arena.indexes[index.0 as int].id)
}

/// The statistics with those of the first indexes of a table.
pub open spec fn with_statistics(
    statistics: Map<(Seq<char>, IndexId), StatisticsMeta>,
    name: Seq<char>,
    ids: Seq<IndexId>,
    metas: Seq<Option<StatisticsMeta>>,
) -> Map<(Seq<char>, IndexId), StatisticsMeta>
    decreases metas.len(),
{
    if metas.len() == 0 {
        statistics
    } else {
        let front = with_statistics(statistics, name, ids, metas.drop_last());
        match metas.last() {
            Some(meta) => front.insert((name, ids[metas.len() - 1]), meta),
            None => front,
        }
    }
}

/// Whether the storage may give these answers for the first indexes.
pub open spec fn answers<T: Transaction>(
    transaction: T,
    name: Seq<char>,
    ids: Seq<IndexId>,
    metas: Seq<Option<StatisticsMeta>>,
) -> bool {
    &&& metas.len() <= ids.len()
    &&& forall|i: int|
        0 <= i < metas.len() ==> transaction.finds_statistics(name, ids[i], Ok(#[trigger] metas[i]))
}

/// Outcomes of reading the statistics of a table, which end at the first failure.
pub open spec fn reads_statistics<T: Transaction>(
    transaction: T,
    name: Seq<char>,
    ids: Seq<IndexId>,
    before: Map<(Seq<char>, IndexId), StatisticsMeta>,
    after: Map<(Seq<char>, IndexId), StatisticsMeta>,
    res: Result<(), DatabaseError>,
) -> bool {
    exists|metas: Seq<Option<StatisticsMeta>>|
        {
            &&& #[trigger] answers(transaction, name, ids, metas)
            &&& after == with_statistics(before, name, ids, metas)
            &&& match res {
                Ok(_) => metas.len() == ids.len(),
                Err(err) => metas.len() < ids.len() && transaction.finds_statistics(
                    name,
                    ids[metas.len() as int],
                    Err(err),
                ),
            }
        }
}

/// Outcomes of loading a table.
pub open spec fn loads_table<T: Transaction>(
    transaction: T,
    name: Seq<char>,
    arena: TableArena,
    before: StateView,
    after: StateView,
    res: Result<(), DatabaseError>,
) -> bool {
    exists|filled: TableArena, found: Result<Option<TableCatalog>, DatabaseError>|
        {
            &&& #[trigger] transaction.finds_table(name, arena, filled, found)
            &&& fills(arena, filled)
            &&& match found {
                Err(err) => res == Err::<(), DatabaseError>(err) && after == (StateView {
                    arena: filled@,
                    ..before
                }),
                Ok(None) => res == Err::<(), DatabaseError>(DatabaseError::TableNotFound) && after
                    == (StateView { arena: filled@, ..before }),
                Ok(Some(table)) => {
                    &&& reads_statistics(
                        transaction,
                        name,
                        index_ids(filled@, table.indexes@),
                        before.statistics,
                        after.statistics,
                        res,
                    )
                    &&& after == (StateView {
                        arena: filled@,
                        statistics: after.statistics,
                        tables: if res is Ok {
                            before.tables.insert(name, table)
                        } else {
                            before.tables
                        },
                        ..before
                    })
                },
            }
        }
}

/// Outcomes of loading a view.
pub open spec fn loads_view<T: Transaction>(
    transaction: T,
    name: Seq<char>,
    arena: TableArena,
    before: StateView,
    after: StateView,
    res: Result<(), DatabaseError>,
) -> bool {
    exists|filled: TableArena, found: Result<Option<ViewCatalog>, DatabaseError>|
        {
            &&& #[trigger] transaction.finds_view(name, arena, filled, found)
            &&& fills(arena, filled)
            &&& match found {
                Err(err) => res == Err::<(), DatabaseError>(err) && after == (StateView {
                    arena: filled@,
                    ..before
                }),
                Ok(None) => res == Err::<(), DatabaseError>(DatabaseError::ViewNotFound) && after
                    == (StateView { arena: filled@, ..before }),
                Ok(Some(view)) => res is Ok && after == (StateView {
                    arena: filled@,
                    views: before.views.insert(name, view),
                    ..before
                }),
            }
        }
}

/// Outcomes of loading a part of the catalog.
pub open spec fn loads<S: Storage>(
    storage: S,
    arena: TableArena,
    kind: CatalogKind,
    before: StateView,
    after: StateView,
    res: Result<(), DatabaseError>,
) -> bool {
    match kind {
        CatalogKind::ScalarFunction(function) => res is Ok && after == (StateView {
            scalars: before.scalars.insert(function.summary.name(), function),
            ..before
        }),
        CatalogKind::TableFunction(function) => res is Ok && loads_function(
            function,
            before,
            after,
        ),
        CatalogKind::Table(name) => exists|opened: Result<S::TransactionType, DatabaseError>|
            {
                &&& #[trigger] storage.opens(storage.default_isolation(), opened)
                &&& match opened {
                    Err(err) => res == Err::<(), DatabaseError>(err) && after == before,
                    Ok(transaction) => loads_table(transaction, name@, arena, before, after, res),
                }
            },
        CatalogKind::View(name) => exists|opened: Result<S::TransactionType, DatabaseError>|
            {
                &&& #[trigger] storage.opens(storage.default_isolation(), opened)
                &&& match opened {
                    Err(err) => res == Err::<(), DatabaseError>(err) && after == before,
                    Ok(transaction) => loads_view(transaction, name@, arena, before, after, res),
                }
            },
    }
}

/// Whether the function is registered, with columns of its own.
pub open spec fn loads_function(function: RowSource, before: StateView, after: StateView) -> bool {
    exists|loaded: TableFunction|
        {
            &&& loaded.summary == function.summary
            &&& holds_columns(after.arena, loaded.schema@, column_views(function.columns@))
            &&& after == (StateView {
                row_sources: #[trigger] before.row_sources.insert(function.summary.name(), loaded),
                arena: after.arena,
                ..before
            })
        }
}

fn load_statistics<S: Storage>(
    state: &mut State<S>,
    transaction: &S::TransactionType,
    name: &TableName,
    indexes: &Vec<IndexMetaRef>,
) -> (res: Result<(), DatabaseError>)
    requires
        old(state).wf(),
        forall|i: int|
            0 <= i < indexes@.len() ==> old(state)@.arena.has_index(#[trigger] indexes@[i]),
    ensures
        reads_statistics(
            *transaction,
            name@,
            index_ids(old(state)@.arena, indexes@),
            old(state)@.statistics,
            final(state)@.statistics,
            res,
        ),
        final(state)@ == (StateView { statistics: final(state)@.statistics, ..old(state)@ }),
        final(state).table_arena == old(state).table_arena,
        final(state).wf(),
{
    let ghost before = *state;
    let ghost ids = index_ids(before@.arena, indexes@);
    let ghost mut metas: Seq<Option<StatisticsMeta>> = Seq::empty();
    let mut i: usize = 0;
    while i < indexes.len()
        invariant
            i <= indexes.len(),
            i == metas.len(),
            before == *old(state),
            ids == index_ids(before@.arena, indexes@),
            forall|k: int|
                0 <= k < indexes@.len() ==> before@.arena.has_index(#[trigger] indexes@[k]),
            answers(*transaction, name@, ids, metas),
            state@ == (StateView {
                statistics: with_statistics(before@.statistics, name@, ids, metas),
                ..before@
            }),
            state.table_arena == before.table_arena,
            state.wf(),
        decreases indexes.len() - i,
    {
        assert(before@.arena.has_index(indexes@[i as int]));
        let index_id: IndexId = state.table_arena.indexes[indexes[i].0].id;
        assert(index_id == ids[i as int]) by {
            assert(before@.arena.indexes[indexes@[i as int].0 as int]
                == before.table_arena.indexes@[indexes@[i as int].0 as int]@);
        }
        let answer = transaction.statistics_meta(name, index_id);
        let ghost last = *state;
        match answer {
            Ok(found) => {
                proof {
                    let next = metas.push(found);
                    assert(next.drop_last() =~= metas);
                    assert forall|k: int| 0 <= k < next.len() implies transaction.finds_statistics(
                        name@,
                        ids[k],
                        Ok(#[trigger] next[k]),
                    ) by {
                        if k < metas.len() {
                            assert(next[k] == metas[k]);
                        }
                    }
                    metas = next;
                }
                if let Some(meta) = found {
                    state.meta_cache.insert((name.clone(), index_id), meta);
                    proof {
                        assert(state@ == StateView { statistics: state@.statistics, ..last@ });
                        assert forall|k: int| 0 <= k < state.table_arena.free@.len() implies
                            !state@.in_use(#[trigger] state.table_arena.free@[k]) by {
                            assert(!last@.in_use(last.table_arena.free@[k]));
                        }
                    }
                }
            },
            Err(err) => {
                assert(answers(*transaction, name@, ids, metas));
                return Err(err);
            },
        }
        i += 1;
    }
    assert(answers(*transaction, name@, ids, metas));
    Ok(())
}

impl<S: Storage> Database<S> {
    /// Collects the statistics of a table.
    pub fn analyze(&mut self, table_name: &str) -> (res: Result<(), DatabaseError>)
        requires
            old(self).wf(),
        ensures
            exists|opened: Result<S::TransactionType, DatabaseError>|
                {
                    &&& #[trigger] old(self).storage.opens(
                        old(self).transaction_isolation,
                        opened,
                    )
                    &&& match opened {
                        Err(err) => (res matches Err(e) && e == err) && final(self).state@
                            == old(self).state@,
                        Ok(fresh) => exists|
                            transaction: S::TransactionType,
                            begun: Result<(), DatabaseError>,
                        |
                            {
                                &&& #[trigger] <S::TransactionType as Transaction>::begins(
                                    fresh,
                                    transaction,
                                    begun,
                                )
                                &&& match begun {
                                    Err(err) => fails_in(res, err, "ANALYZE"@)
                                        && final(self).state@ == old(self).state@,
                                    Ok(_) => match analysis(
                                        old(self).state@,
                                        table_name@,
                                    ) {
                                        None => fails_in(
                                            res,
                                            DatabaseError::TableNotFound,
                                            "ANALYZE"@,
                                        ) && final(self).state@ == old(self).state@,
                                        Some(source) => completes(
                                            old(self).storage,
                                            old(self).state,
                                            transaction,
                                            source,
                                            "ANALYZE"@,
                                            final(self).state@,
                                            res,
                                        ),
                                    },
                                }
                            },
                    }
                },
            final(self).storage == old(self).storage,
            final(self).transaction_isolation == old(self).transaction_isolation,
            final(self).wf(),
    {
        let name: TableName = table_name.to_string();
        let ghost wanted = name@;
        let ghost state = self.state@;
        let bind = |ctx: &mut OrmContext<'_>| -> (plan: Result<LogicalPlan, DatabaseError>)
            requires
                old(ctx).known(),
            ensures
                final(ctx).known(),
                old(ctx)@.extended_by(final(ctx)@),
                plan matches Ok(plan) ==> bound(plan@, final(ctx)@.arena),
                old(ctx)@.binder.tables.map() == state.tables && old(ctx)@.binder.with_pk is None
                    && old(ctx)@.arena == state.arena ==> match analysis(state, wanted) {
                    Some(source) => plan matches Ok(plan) && plan@ == source.plan
                        && final(ctx)@.arena == source.arena,
                    None => plan == Err::<LogicalPlan, DatabaseError>(DatabaseError::TableNotFound),
                },
        { ctx.scope.binder.bind_analyze(name, &mut ctx.scope.arena) };
        self.execute_mut("ANALYZE", bind)
    }

    /// Loads a part of the stored catalog, or a function.
    pub fn load(&mut self, kind: CatalogKind) -> (res: Result<(), DatabaseError>)
        requires
            old(self).wf(),
            kind matches CatalogKind::TableFunction(function) ==> forall|i: int|
                0 <= i < function.columns@.len() ==> old(self).state@.arena.fits_column(
                    (#[trigger] function.columns@[i])@,
                ),
        ensures
            loads(
                old(self).storage,
                old(self).state.table_arena,
                kind,
                old(self).state@,
                final(self).state@,
                res,
            ),
            final(self).storage == old(self).storage,
            final(self).transaction_isolation == old(self).transaction_isolation,
            final(self).wf(),
    {
        let ghost before = self.state;
        match kind {
            CatalogKind::ScalarFunction(function) => {
                self.state.load_scalar_function(function);
                Ok(())
            },
            CatalogKind::TableFunction(function) => {
                match self.state.load_table_function(function) {
                    Ok(_) => self.state.recycle_table_arena(),
                    Err(err) => Err(err),
                }
            },
            CatalogKind::Table(name) => {
                let opened = self.storage.transaction_with_isolation(
                    self.storage.default_transaction_isolation(),
                );
                assert(self.storage.opens(self.storage.default_isolation(), opened));
                let transaction = match opened {
                    Ok(transaction) => transaction,
                    Err(err) => {
                        return Err(err);
                    },
                };
                let found = transaction.load_table(&mut self.state.table_arena, &name);
                let ghost filled = self.state.table_arena;
                assert(transaction.finds_table(name@, before.table_arena, filled, found));
                proof {
                    lemma_wf_filled(before, self.state);
                }
                let table = match found {
                    Ok(Some(table)) => table,
                    Ok(None) => {
                        return Err(DatabaseError::TableNotFound);
                    },
                    Err(err) => {
                        return Err(err);
                    },
                };
                match load_statistics(&mut self.state, &transaction, &name, &table.indexes) {
                    Ok(unit) => {
                        assert(unit == ());
                    },
                    Err(err) => {
                        return Err(err);
                    },
                }
                let ghost read = self.state;
                self.state.table_cache.insert(name, table);
                proof {
                    assert(self.state@ == StateView {
                        tables: before@.tables.insert(name@, table),
                        ..read@
                    });
                    assert(self.state.solid()) by {
                        assert forall|other: Seq<char>| #[trigger]
                            self.state@.tables.contains_key(other) implies table_known(
                            self.state@.tables[other],
                            self.state@.arena,
                        ) by {
                            if other != name@ {
                                assert(read@.tables.contains_key(other));
                            }
                        }
                    }
                }
                self.state.recycle_table_arena()
            },
            CatalogKind::View(name) => {
                let opened = self.storage.transaction_with_isolation(
                    self.storage.default_transaction_isolation(),
                );
                assert(self.storage.opens(self.storage.default_isolation(), opened));
                let transaction = match opened {
                    Ok(transaction) => transaction,
                    Err(err) => {
                        return Err(err);
                    },
                };
                let found = transaction.load_view(&mut self.state.table_arena, &name);
                let ghost filled = self.state.table_arena;
                assert(transaction.finds_view(name@, before.table_arena, filled, found));
                proof {
                    lemma_wf_filled(before, self.state);
                }
                let view = match found {
                    Ok(Some(view)) => view,
                    Ok(None) => {
                        return Err(DatabaseError::ViewNotFound);
                    },
                    Err(err) => {
                        return Err(err);
                    },
                };
                let ghost read = self.state;
                self.state.view_cache.insert(name, view);
                proof {
                    assert(self.state@ == StateView {
                        views: before@.views.insert(name@, view),
                        ..read@
                    });
                    assert(self.state.solid()) by {
                        assert forall|other: Seq<char>| #[trigger]
                            self.state@.views.contains_key(other) implies view_known(
                            self.state@.views[other],
                            self.state@.arena,
                        ) by {
                            if other != name@ {
                                assert(read@.views.contains_key(other));
                            }
                        }
                    }
                }
                self.state.recycle_table_arena()
            },
        }
    }

    /// Opens a transaction for several statements.
    pub fn new_transaction(&self) -> (res: Result<DBTransaction<'_, S>, DatabaseError>)
        ensures
            exists|opened: Result<S::TransactionType, DatabaseError>|
                {
                    &&& #[trigger] self.storage.opens(self.transaction_isolation, opened)
                    &&& match opened {
                        Ok(inner) => res matches Ok(transaction) && transaction.inner == inner
                            && *transaction.storage == self.storage && *transaction.state
                            == self.state,
                        Err(err) => res matches Err(e) && e == err,
                    }
                },
    {
        let opened = self.storage.transaction_with_isolation(self.transaction_isolation);
        assert(self.storage.opens(self.transaction_isolation, opened));
        match opened {
            Ok(inner) => Ok(DBTransaction { inner, storage: &self.storage, state: &self.state }),
            Err(err) => Err(err),
        }
    }

    /// What the storage counted, where it counts at all.
    pub fn storage_metrics(&self) -> (res: Option<S::Metrics>)
        ensures
            self.storage.counts(res),
    {
        self.storage.metrics()
    }

    /// The isolation of the transactions that the database opens.
    pub fn transaction_isolation(&self) -> (res: TransactionIsolationLevel)
        ensures
            res == self.transaction_isolation,
    {
        self.transaction_isolation
    }
}

impl<S: CheckpointableStorage> Database<S> {
    /// Copies the storage to a path.
    pub fn checkpoint(&self, path: &str) -> (res: Result<(), DatabaseError>)
        ensures
            self.storage.copies(path@, res),
    {
        self.storage.create_checkpoint(path)
    }
}

impl<'a, S: Storage> DBTransaction<'a, S> {
    /// Makes the changes of the transaction durable.
    pub fn commit(self) -> (res: Result<(), DatabaseError>)
        ensures
            self.inner.commits(res),
    {
        self.inner.commit()
    }
}

} // verus!
