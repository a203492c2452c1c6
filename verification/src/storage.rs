//! What a database asks of the storage under it, and what it keeps of the stored catalog.

use crate::binder::table_known;
use crate::cache::Cache;
use crate::catalog::{TableCatalog, TableName};
use crate::errors::DatabaseError;
use crate::execution::ddl_apply::view_known;
use crate::execution::{ExecutorNode, NoRows};
use crate::optimizer::rule::implementation::{CostModel, NoStatistics};
use crate::optimizer::rule::normalization::{NoRules, RuleLibrary};
use crate::planner::arena::TableArena;
use crate::planner::LogicalPlan;
use crate::types::index::IndexId;
use crate::types::tuple::Schema;
use vstd::prelude::*;

verus! {

/// How far concurrent transactions see each other.
#[derive(Clone, Copy, Debug, PartialEq, Eq, Hash, Structural)]
pub enum TransactionIsolationLevel {
    ReadCommitted,
    RepeatableRead,
}

/// What is known of the rows of an index.
#[derive(Debug, PartialEq, Eq)]
pub struct StatisticsMeta {
    pub index_id: IndexId,
    pub row_count: usize,
}

/// A named query.
#[derive(Debug, PartialEq, Eq)]
pub struct ViewCatalog {
    pub name: TableName,
    pub plan: LogicalPlan,
    pub schema: Schema,
}

/// The known tables by name.
pub type TableCache = Cache<TableName, TableCatalog>;

/// The known views by name.
pub type ViewCache = Cache<TableName, ViewCatalog>;

/// The known statistics by table and index.
pub type StatisticsMetaCache = Cache<(TableName, IndexId), StatisticsMeta>;

/// Whether the arena was only added to: columns went to free positions or to the end.
pub open spec fn fills(before: TableArena, after: TableArena) -> bool {
    &&& after@.steady()
    &&& after.free_fits()
    &&& before@.within(after@)
    &&& before@.exprs.is_prefix_of(after@.exprs)
    &&& forall|position: usize| #[trigger]
        after.free@.contains(position) ==> before.free@.contains(position)
    &&& forall|i: int|
        0 <= i < before@.columns.len() && !before.free@.contains(i as usize)
            ==> #[trigger] after@.columns[i] == before@.columns[i]
}

/// One transaction of a storage. What a call does to the transaction is up to the storage; each
/// relation holds of the outcomes that may occur.
pub trait Transaction: Sized {
    /// Outcomes of opening a statement.
    spec fn begins(before: Self, after: Self, res: Result<(), DatabaseError>) -> bool;

    /// Outcomes of closing a statement.
    spec fn ends(before: Self, after: Self, res: Result<(), DatabaseError>) -> bool;

    /// Outcomes of the commit.
    spec fn commits(self, res: Result<(), DatabaseError>) -> bool;

    /// Answers to the question for a table, and what they do to the arena of the tables.
    spec fn finds_table(
        self,
        name: Seq<char>,
        before: TableArena,
        after: TableArena,
        res: Result<Option<TableCatalog>, DatabaseError>,
    ) -> bool;

    /// Answers to the question for the statistics of an index.
    spec fn finds_statistics(
        self,
        name: Seq<char>,
        index_id: IndexId,
        res: Result<Option<StatisticsMeta>, DatabaseError>,
    ) -> bool;

    /// Answers to the question for a view.
    spec fn finds_view(
        self,
        name: Seq<char>,
        before: TableArena,
        after: TableArena,
        res: Result<Option<ViewCatalog>, DatabaseError>,
    ) -> bool;

    /// Opens a statement.
    fn begin_statement_scope(&mut self) -> (res: Result<(), DatabaseError>)
        ensures
            Self::begins(*old(self), *final(self), res),
    ;

    /// Closes a statement.
    fn end_statement_scope(&mut self) -> (res: Result<(), DatabaseError>)
        ensures
            Self::ends(*old(self), *final(self), res),
    ;

    /// Makes the changes durable.
    fn commit(self) -> (res: Result<(), DatabaseError>)
        ensures
            self.commits(res),
    ;

    /// Reads a table. Its columns and indexes are then in the arena.
    fn load_table(&self, arena: &mut TableArena, name: &TableName) -> (res: Result<
        Option<TableCatalog>,
        DatabaseError,
    >)
        requires
            old(arena)@.steady(),
            old(arena).free_fits(),
        ensures
            self.finds_table(name@, *old(arena), *final(arena), res),
            fills(*old(arena), *final(arena)),
            res matches Ok(Some(table)) ==> table_known(table, final(arena)@),
    ;

    /// Reads the statistics of an index.
    fn statistics_meta(&self, name: &TableName, index_id: IndexId) -> (res: Result<
        Option<StatisticsMeta>,
        DatabaseError,
    >)
        ensures
            self.finds_statistics(name@, index_id, res),
    ;

    /// Reads a view. What its plan refers to is then in the arena.
    fn load_view(&self, arena: &mut TableArena, name: &TableName) -> (res: Result<
        Option<ViewCatalog>,
        DatabaseError,
    >)
        requires
            old(arena)@.steady(),
            old(arena).free_fits(),
        ensures
            self.finds_view(name@, *old(arena), *final(arena), res),
            fills(*old(arena), *final(arena)),
            res matches Ok(Some(view)) ==> view_known(view, final(arena)@),
    ;
}

/// A place to keep tables, with the executors and rules that run on it.
pub trait Storage: Sized {
    type TransactionType: Transaction;

    type Metrics;

    type Executor: ExecutorNode<Self::TransactionType>;

    type Rules: RuleLibrary;

    type Costs: CostModel;

    /// Outcomes of opening a transaction.
    spec fn opens(
        self,
        isolation: TransactionIsolationLevel,
        res: Result<Self::TransactionType, DatabaseError>,
    ) -> bool;

    /// The isolation of a database that asks for none.
    spec fn default_isolation(self) -> TransactionIsolationLevel;

    /// Answers to the question whether an isolation is offered.
    spec fn validates(
        self,
        isolation: TransactionIsolationLevel,
        res: Result<(), DatabaseError>,
    ) -> bool;

    /// Opens a transaction.
    fn transaction_with_isolation(&self, isolation: TransactionIsolationLevel) -> (res: Result<
        Self::TransactionType,
        DatabaseError,
    >)
        ensures
            self.opens(isolation, res),
    ;

    /// The isolation of a database that asks for none.
    fn default_transaction_isolation(&self) -> (res: TransactionIsolationLevel)
        ensures
            res == self.default_isolation(),
    ;

    /// Whether an isolation is offered.
    fn validate_transaction_isolation(&self, isolation: TransactionIsolationLevel) -> (res: Result<
        (),
        DatabaseError,
    >)
        ensures
            self.validates(isolation, res),
    ;

    /// Answers to the question for what the storage counted.
    spec fn counts(self, res: Option<Self::Metrics>) -> bool;

    /// The rules that rewrite plans beside the built-in ones.
    spec fn rule_library(self) -> Self::Rules;

    /// What plans cost, given the statistics.
    spec fn cost_model(self, statistics: StatisticsMetaCache) -> Self::Costs;

    /// What the storage counted, where it counts at all.
    fn metrics(&self) -> (res: Option<Self::Metrics>)
        ensures
            self.counts(res),
    ;

    /// The rules that rewrite plans beside the built-in ones.
    fn rules(&self) -> (res: &Self::Rules)
        ensures
            *res == self.rule_library(),
    ;

    /// What plans cost, given the statistics.
    fn costs(&self, statistics: &StatisticsMetaCache) -> (res: Self::Costs)
        ensures
            res == self.cost_model(*statistics),
    ;
}

/// A storage that can be copied while it is in use.
pub trait CheckpointableStorage: Storage {
    /// Outcomes of the copy.
    spec fn copies(self, path: Seq<char>, res: Result<(), DatabaseError>) -> bool;

    /// Copies the storage to a path.
    fn create_checkpoint(&self, path: &str) -> (res: Result<(), DatabaseError>)
        ensures
            self.copies(path@, res),
    ;
}

/// A storage without anything in it, for planning alone: it finds no table, no view and no
/// statistics, it keeps nothing, and every statement on it runs to an empty end.
#[derive(Debug, Default)]
pub struct EmptyStorage {
    pub rules: NoRules,
}

impl EmptyStorage {
    pub fn new() -> (res: Self)
        ensures
            res.rules == NoRules,
    {
        EmptyStorage { rules: NoRules }
    }
}

/// A transaction of an [`EmptyStorage`].
#[derive(Debug)]
pub struct EmptyTransaction {
    /// How many statements were opened and not closed.
    pub open_statements: usize,
}

impl Transaction for EmptyTransaction {
    open spec fn begins(before: Self, after: Self, res: Result<(), DatabaseError>) -> bool {
        res is Ok && after.open_statements == if before.open_statements < usize::MAX {
            (before.open_statements + 1) as usize
        } else {
            usize::MAX
        }
    }

    open spec fn ends(before: Self, after: Self, res: Result<(), DatabaseError>) -> bool {
        res is Ok && after.open_statements == if before.open_statements > 0 {
            (before.open_statements - 1) as usize
        } else {
            0
        }
    }

    open spec fn commits(self, res: Result<(), DatabaseError>) -> bool {
        res is Ok
    }

    open spec fn finds_table(
        self,
        name: Seq<char>,
        before: TableArena,
        after: TableArena,
        res: Result<Option<TableCatalog>, DatabaseError>,
    ) -> bool {
        after == before && res == Ok::<Option<TableCatalog>, DatabaseError>(None)
    }

    open spec fn finds_statistics(
        self,
        name: Seq<char>,
        index_id: IndexId,
        res: Result<Option<StatisticsMeta>, DatabaseError>,
    ) -> bool {
        res == Ok::<Option<StatisticsMeta>, DatabaseError>(None)
    }

    open spec fn finds_view(
        self,
        name: Seq<char>,
        before: TableArena,
        after: TableArena,
        res: Result<Option<ViewCatalog>, DatabaseError>,
    ) -> bool {
        after == before && res == Ok::<Option<ViewCatalog>, DatabaseError>(None)
    }

    fn begin_statement_scope(&mut self) -> (res: Result<(), DatabaseError>) {
        if self.open_statements < usize::MAX {
            self.open_statements = self.open_statements + 1;
        }
        Ok(())
    }

    fn end_statement_scope(&mut self) -> (res: Result<(), DatabaseError>) {
        if self.open_statements > 0 {
            self.open_statements = self.open_statements - 1;
        }
        Ok(())
    }

    fn commit(self) -> (res: Result<(), DatabaseError>) {
        Ok(())
    }

    fn load_table(&self, arena: &mut TableArena, name: &TableName) -> (res: Result<
        Option<TableCatalog>,
        DatabaseError,
    >) {
        Ok(None)
    }

    fn statistics_meta(&self, name: &TableName, index_id: IndexId) -> (res: Result<
        Option<StatisticsMeta>,
        DatabaseError,
    >) {
        Ok(None)
    }

    fn load_view(&self, arena: &mut TableArena, name: &TableName) -> (res: Result<
        Option<ViewCatalog>,
        DatabaseError,
    >) {
        Ok(None)
    }
}

impl Storage for EmptyStorage {
    type TransactionType = EmptyTransaction;

    type Metrics = ();

    type Executor = NoRows;

    type Rules = NoRules;

    type Costs = NoStatistics;

    open spec fn opens(
        self,
        isolation: TransactionIsolationLevel,
        res: Result<EmptyTransaction, DatabaseError>,
    ) -> bool {
        res == Ok::<EmptyTransaction, DatabaseError>(EmptyTransaction { open_statements: 0 })
    }

    open spec fn default_isolation(self) -> TransactionIsolationLevel {
        TransactionIsolationLevel::ReadCommitted
    }

    open spec fn validates(
        self,
        isolation: TransactionIsolationLevel,
        res: Result<(), DatabaseError>,
    ) -> bool {
        match isolation {
            TransactionIsolationLevel::ReadCommitted => res is Ok,
            TransactionIsolationLevel::RepeatableRead => res
                == Err::<(), DatabaseError>(DatabaseError::UnsupportedIsolation),
        }
    }

    open spec fn counts(self, res: Option<()>) -> bool {
        res is None
    }

    open spec fn rule_library(self) -> NoRules {
        self.rules
    }

    open spec fn cost_model(self, statistics: StatisticsMetaCache) -> NoStatistics {
        NoStatistics
    }

    fn transaction_with_isolation(&self, isolation: TransactionIsolationLevel) -> (res: Result<
        EmptyTransaction,
        DatabaseError,
    >) {
        Ok(EmptyTransaction { open_statements: 0 })
    }

    fn default_transaction_isolation(&self) -> (res: TransactionIsolationLevel) {
        TransactionIsolationLevel::ReadCommitted
    }

    fn validate_transaction_isolation(&self, isolation: TransactionIsolationLevel) -> (res: Result<
        (),
        DatabaseError,
    >) {
        match isolation {
            TransactionIsolationLevel::ReadCommitted => Ok(()),
            TransactionIsolationLevel::RepeatableRead => Err(DatabaseError::UnsupportedIsolation),
        }
    }

    fn metrics(&self) -> (res: Option<()>) {
        None
    }

    fn rules(&self) -> (res: &NoRules) {
        &self.rules
    }

    fn costs(&self, statistics: &StatisticsMetaCache) -> (res: NoStatistics) {
        NoStatistics
    }
}

} // verus!
