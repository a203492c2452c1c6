//! Results of statements, row by row.

use crate::catalog::ColumnRef;
use crate::errors::DatabaseError;
use crate::execution::ddl_apply::{all_noted_known, lemma_noted_within};
use crate::execution::{draws, DDLApply, ExecArenaView, ExecId, Executor, ExecutorNode};
use crate::orm::row::FromQueryRow;
use crate::planner::arena::PlanArena;
use crate::storage::Transaction;
use crate::types::tuple::{Schema, SchemaView, Tuple};
use std::marker::PhantomData;
use vstd::prelude::*;

verus! {

/// A statement that was started: its executors, its columns, and what it leaves behind.
#[derive(Debug)]
pub struct Statement<'a, E> {
    executor: Option<Executor<'a, E>>,
    plan_arena: PlanArena,
    schema: Schema,
    statement_scope_active: bool,
    ddl_apply: Vec<DDLApply>,
}

/// Mathematical model of a [`Statement`].
pub struct StatementView<E> {
    /// The executors and the one that delivers the rows, until the end is reached.
    pub executor: Option<(ExecArenaView<E>, ExecId)>,
    pub plan_arena: PlanArena,
    pub schema: Seq<ColumnRef>,
    /// Whether the transaction still counts the statement as open.
    pub active: bool,
    pub ddl_apply: Seq<DDLApply>,
}

impl<E> StatementView<E> {
    /// The statement after its end: the executors are gone and their changes are noted.
    pub open spec fn closed(self) -> StatementView<E> {
        StatementView {
            executor: None,
            active: false,
            ddl_apply: match self.executor {
                Some((arena, _)) => self.ddl_apply + arena.ddl_apply,
                None => self.ddl_apply,
            },
            ..self
        }
    }

    /// The statement with its executors in another state.
    pub open spec fn with_arena(self, arena: ExecArenaView<E>,
        plan_arena: PlanArena) -> StatementView<
        E,
    > {
        StatementView { executor: Some((arena, (self.executor->0).1)), plan_arena, ..self }
    }

    /// Whether columns and noted changes are in the arena, the root is at rest, and the statement is
    /// open as long as it has executors.
    pub open spec fn wf(self) -> bool {
        &&& self.active == (self.executor is Some)
        &&& self.plan_arena@.steady()
        &&& self.plan_arena@.has_columns(self.schema)
        &&& all_noted_known(self.ddl_apply, self.plan_arena@)
        &&& self.executor matches Some((arena, root)) ==> root < arena.nodes.len()
            && arena.nodes[root as int] !is Empty && all_noted_known(
            arena.ddl_apply,
            self.plan_arena@,
        )
    }
}

/// Outcomes of closing a statement: a closed one stays as it is.
pub open spec fn closes<E, T: Transaction>(
    before: (StatementView<E>, T),
    after: (StatementView<E>, T),
    res: Result<(), DatabaseError>,
) -> bool {
    if before.0.active {
        after.0 == before.0.closed() && T::ends(before.1, after.1, res)
    } else {
        after == before && res is Ok
    }
}

/// Whether asking for a row may deliver the row. The reader of the row leaves `left` in its place.
pub open spec fn delivers<E: ExecutorNode<T>, T: Transaction>(
    before: (StatementView<E>, T),
    row: Tuple,
    left: Tuple,
    after: (StatementView<E>, T),
) -> bool {
    exists|drawn: ExecArenaView<E>|
        {
            &&& before.0.executor is Some
            &&& #[trigger] draws(
                (before.0.executor->0).1 as int,
                ((before.0.executor->0).0, before.0.plan_arena, before.1),
                (drawn, after.0.plan_arena, after.1),
                Ok(true),
            )
            &&& row == drawn.tuple
            &&& after.0 == before.0.with_arena(
                ExecArenaView { tuple: left, ..drawn },
                after.0.plan_arena,
            )
        }
}

/// Whether asking for a row may end the statement: at the end of the rows, or by an error. An
/// error of closing the statement comes before the error that closed it.
pub open spec fn stops<E: ExecutorNode<T>, T: Transaction>(
    before: (StatementView<E>, T),
    after: (StatementView<E>, T),
    res: Result<(), DatabaseError>,
) -> bool {
    if before.0.executor is None {
        after == before && res is Ok
    } else {
        exists|
            drawn: ExecArenaView<E>,
            transaction: T,
            more: Result<bool, DatabaseError>,
            ended: Result<(), DatabaseError>,
        |
            {
                &&& #[trigger] draws(
                    (before.0.executor->0).1 as int,
                    ((before.0.executor->0).0, before.0.plan_arena, before.1),
                    (drawn, after.0.plan_arena, transaction),
                    more,
                )
                &&& more != Ok::<bool, DatabaseError>(true)
                &&& #[trigger] closes(
                    (before.0.with_arena(drawn, after.0.plan_arena), transaction),
                    after,
                    ended,
                )
                &&& res == match ended {
                    Err(err) => Err(err),
                    Ok(_) => match more {
                        Ok(_) => Ok(()),
                        Err(err) => Err(err),
                    },
                }
            }
    }
}

/// Whether the state is reached by so many rows that nobody changed.
pub open spec fn skips<E: ExecutorNode<T>, T: Transaction>(
    count: nat,
    before: (StatementView<E>, T),
    after: (StatementView<E>, T),
) -> bool
    decreases count,
{
    if count == 0 {
        after == before
    } else {
        exists|middle: (StatementView<E>, T), row: Tuple|
            {
                &&& skips((count - 1) as nat, before, middle)
                &&& #[trigger] delivers(middle, row, row, after)
            }
    }
}

/// Outcomes of giving up on rows that cannot be counted any more.
pub open spec fn overflows<E: ExecutorNode<T>, T: Transaction>(
    before: (StatementView<E>, T),
    after: (StatementView<E>, T),
    res: Result<(), DatabaseError>,
) -> bool {
    exists|ended: Result<(), DatabaseError>| #[trigger]
        closes(before, after, ended) && res == match ended {
            Err(err) => Err::<(), DatabaseError>(err),
            Ok(_) => Err::<(), DatabaseError>(DatabaseError::TooManyRows),
        }
}

/// Outcomes of drawing all rows that are left. Only the last row, or an error, ends them; it is an
/// error, too, if they cannot be counted.
pub open spec fn runs_out<E: ExecutorNode<T>, T: Transaction>(
    before: (StatementView<E>, T),
    after: (StatementView<E>, T),
    res: Result<(), DatabaseError>,
) -> bool {
    exists|count: nat, last: (StatementView<E>, T)|
        {
            &&& #[trigger] skips(count, before, last)
            &&& stops(last, after, res) || (count == u64::MAX && overflows(last, after, res))
        }
}

/// Drawing all rows succeeds only after the last one.
pub proof fn only_the_last_row_ends_well<E: ExecutorNode<T>, T: Transaction>(
    before: (StatementView<E>, T),
    after: (StatementView<E>, T),
)
    requires
        runs_out(before, after, Ok(())),
    ensures
        exists|count: nat, last: (StatementView<E>, T)|
            {
                &&& #[trigger] skips(count, before, last)
                &&& stops(last, after, Ok(()))
            },
{
}

/// A statement is closed once: what closes it again changes nothing.
pub proof fn statement_is_closed_once<E, T: Transaction>(
    before: (StatementView<E>, T),
    middle: (StatementView<E>, T),
    after: (StatementView<E>, T),
    first: Result<(), DatabaseError>,
    second: Result<(), DatabaseError>,
)
    requires
        closes(before, middle, first),
        closes(middle, after, second),
    ensures
        after == middle,
        second is Ok,
{
}

/// After its end a result has no more rows, and asking for them changes nothing.
pub proof fn ended_result_stays_ended<E: ExecutorNode<T>, T: Transaction>(
    before: (StatementView<E>, T),
    middle: (StatementView<E>, T),
    after: (StatementView<E>, T),
    first: Result<(), DatabaseError>,
    second: Result<(), DatabaseError>,
    row: Tuple,
    left: Tuple,
)
    requires
        before.0.wf(),
        stops(before, middle, first),
    ensures
        !delivers(middle, row, left, after),
        stops(middle, after, second) ==> after == middle && second is Ok,
{
}

impl<'a, E> View for Statement<'a, E> {
    type V = StatementView<E>;

    closed spec fn view(&self) -> StatementView<E> {
        StatementView {
            executor: match self.executor {
                Some(executor) => Some((executor.arena(), executor.root())),
                None => None,
            },
            plan_arena: self.plan_arena,
            schema: self.schema@,
            active: self.statement_scope_active,
            ddl_apply: self.ddl_apply@,
        }
    }
}

impl<'a, E> Statement<'a, E> {
    /// A statement that was just started.
    pub fn new(schema: Schema, plan_arena: PlanArena, executor: Executor<'a, E>) -> (res: Self)
        ensures
            res@ == (StatementView {
                executor: Some((executor.arena(), executor.root())),
                plan_arena,
                schema: schema@,
                active: true,
                ddl_apply: Seq::empty(),
            }),
    {
        let res = Statement {
            executor: Some(executor),
            plan_arena,
            schema,
            statement_scope_active: true,
            ddl_apply: Vec::new(),
        };
        assert(res@.ddl_apply =~= Seq::empty());
        res
    }

    /// Tells the transaction that the statement is over, once.
    pub fn finish_statement_scope<T: Transaction>(&mut self, transaction: &mut T) -> (res: Result<
        (),
        DatabaseError,
    >)
        ensures
            closes((old(self)@, *old(transaction)), (final(self)@, *final(transaction)), res),
            old(self)@.wf() ==> final(self)@.wf(),
    {
        if !self.statement_scope_active {
            return Ok(());
        }
        let ghost before = self@;
        let mut executor: Option<Executor<'a, E>> = None;
        std::mem::swap(&mut executor, &mut self.executor);
        if let Some(mut executor) = executor {
            let mut noted = executor.take_ddl_apply();
            self.ddl_apply.append(&mut noted);
        }
        self.statement_scope_active = false;
        assert(self@ == before.closed());
        transaction.end_statement_scope()
    }

    /// Reads the columns of the rows.
    pub fn schema<R, F>(&self, f: F) -> (res: R) where F: FnOnce(&SchemaView<'_>) -> R
        requires
            self@.wf(),
            forall|view: &SchemaView<'_>|
                view.arena@.has_columns(view.schema@) ==> #[trigger] call_requires(f, (view,)),
        ensures
            exists|view: &SchemaView<'_>|
                {
                    &&& view.schema@ == self@.schema
                    &&& *view.arena == self@.plan_arena
                    &&& #[trigger] call_ensures(f, (view,), res)
                },
    {
        let view = SchemaView::new(&self.schema, &self.plan_arena);
        f(&view)
    }

    /// Reads the next row, where there is one.
    pub fn next_tuple<R, T: Transaction, F>(&mut self, transaction: &mut T, f: F) -> (res: Result<
        Option<R>,
        DatabaseError,
    >) where E: ExecutorNode<T>, F: FnOnce(&SchemaView<'_>, &mut Tuple) -> R
        requires
            old(self)@.wf(),
            forall|view: &SchemaView<'_>, tuple: &mut Tuple|
                view.arena@.has_columns(view.schema@) ==> #[trigger] call_requires(
                    f,
                    (view, tuple),
                ),
        ensures
            res matches Ok(Some(_)) ==> exists|view: &SchemaView<'_>, tuple: &mut Tuple, value: R|
                {
                    &&& res == Ok::<Option<R>, DatabaseError>(Some(value))
                    &&& view.schema@ == final(self)@.schema
                    &&& *view.arena == final(self)@.plan_arena
                    &&& #[trigger] call_ensures(f, (view, tuple), value)
                    &&& delivers(
                        (old(self)@, *old(transaction)),
                        *tuple,
                        *final(tuple),
                        (final(self)@, *final(transaction)),
                    )
                },
            res matches Ok(None) ==> stops(
                (old(self)@, *old(transaction)),
                (final(self)@, *final(transaction)),
                Ok(()),
            ),
            res matches Err(err) ==> stops(
                (old(self)@, *old(transaction)),
                (final(self)@, *final(transaction)),
                Err(err),
            ),
            final(self)@.wf(),
            final(self)@.schema == old(self)@.schema,
            old(self)@.plan_arena@.within(final(self)@.plan_arena@),
    {
        let ghost before = self@;
        let executor = match &mut self.executor {
            Some(executor) => executor,
            None => {
                return Ok(None);
            },
        };
        let drawn = executor.next_tuple(&mut self.plan_arena, transaction);
        proof {
            lemma_noted_within(before.ddl_apply, before.plan_arena@, self.plan_arena@);
        }
        match drawn {
            Ok(Some(tuple)) => {
                let view = SchemaView::new(&self.schema, &self.plan_arena);
                let value = f(&view, tuple);
                Ok(Some(value))
            },
            Ok(None) => {
                let ghost middle = (self@, *transaction);
                let ended = self.finish_statement_scope(transaction);
                proof {
                    let drawn = (middle.0.executor->0).0;
                    assert(draws(
                        (before.executor->0).1 as int,
                        ((before.executor->0).0, before.plan_arena, *old(transaction)),
                        (drawn, self@.plan_arena, middle.1),
                        Ok(false),
                    ));
                    assert(closes(
                        (before.with_arena(drawn, self@.plan_arena), middle.1),
                        (self@, *transaction),
                        ended,
                    ));
                }
                match ended {
                    Ok(unit) => {
                        assert(unit == ());
                        Ok(None)
                    },
                    Err(err) => Err(err),
                }
            },
            Err(err) => {
                let ghost middle = (self@, *transaction);
                let ended = self.finish_statement_scope(transaction);
                proof {
                    let drawn = (middle.0.executor->0).0;
                    assert(draws(
                        (before.executor->0).1 as int,
                        ((before.executor->0).0, before.plan_arena, *old(transaction)),
                        (drawn, self@.plan_arena, middle.1),
                        Err(err),
                    ));
                    assert(closes(
                        (before.with_arena(drawn, self@.plan_arena), middle.1),
                        (self@, *transaction),
                        ended,
                    ));
                }
                match ended {
                    Ok(unit) => {
                        assert(unit == ());
                        Err(err)
                    },
                    Err(err) => Err(err),
                }
            },
        }
    }
}

/// Reads a row and leaves it as it is.
fn leave_row(view: &SchemaView<'_>, tuple: &mut Tuple)
    ensures
        *final(tuple) == *old(tuple),
{
}

impl<'a, E> Statement<'a, E> {
    /// Draws all rows that are left.
    pub fn run_out<T: Transaction>(&mut self, transaction: &mut T) -> (res: Result<
        (),
        DatabaseError,
    >) where E: ExecutorNode<T>
        requires
            old(self)@.wf(),
        ensures
            runs_out((old(self)@, *old(transaction)), (final(self)@, *final(transaction)), res),
            final(self)@.wf(),
            final(self)@.schema == old(self)@.schema,
            old(self)@.plan_arena@.within(final(self)@.plan_arena@),
    {
        let ghost start = (self@, *transaction);
        let mut count: u64 = 0;
        while count < u64::MAX
            invariant
                self@.wf(),
                self@.schema == old(self)@.schema,
                old(self)@.plan_arena@.within(self@.plan_arena@),
                start == (old(self)@, *old(transaction)),
                skips(count as nat, start, (self@, *transaction)),
            decreases u64::MAX - count,
        {
            let ghost last = (self@, *transaction);
            match self.next_tuple(transaction, leave_row) {
                Ok(Some(_)) => {
                    count += 1;
                },
                Ok(None) => {
                    assert(stops(last, (self@, *transaction), Ok(())));
                    return Ok(());
                },
                Err(err) => {
                    assert(stops(last, (self@, *transaction), Err(err)));
                    return Err(err);
                },
            }
        }
        let ghost last = (self@, *transaction);
        let ended = self.finish_statement_scope(transaction);
        assert(closes(last, (self@, *transaction), ended));
        match ended {
            Ok(unit) => {
                assert(unit == ());
                assert(overflows(
                    last,
                    (self@, *transaction),
                    Err::<(), DatabaseError>(DatabaseError::TooManyRows),
                ));
                Err(DatabaseError::TooManyRows)
            },
            Err(err) => Err(err),
        }
    }

    /// Gives up the arena of the plan and the noted changes of the catalog.
    pub fn into_parts(self) -> (res: (PlanArena, Vec<DDLApply>))
        ensures
            res.0 == self@.plan_arena,
            res.1@ == self@.ddl_apply,
    {
        (self.plan_arena, self.ddl_apply)
    }
}

/// A result that is read row by row.
pub trait ResultIter: Sized {
    /// Whether rows can be asked for.
    spec fn ready(&self) -> bool;

    /// The columns of the rows, and the arena that names them.
    spec fn header(&self) -> (Seq<ColumnRef>, PlanArena);

    /// Whether asking for a row may deliver the row, in whose place the reader leaves another.
    spec fn gives(before: Self, row: Tuple, left: Tuple, after: Self) -> bool;

    /// Whether asking for a row may meet the end of the rows, or an error.
    spec fn halts(before: Self, after: Self, res: Result<(), DatabaseError>) -> bool;

    /// Outcomes of finishing the result.
    spec fn finishes(self, res: Result<(), DatabaseError>) -> bool;

    /// Outcomes of giving the result up before its last row.
    spec fn leaves(self, res: Result<(), DatabaseError>) -> bool;

    /// Reads the columns of the rows.
    fn schema<R, F>(&self, f: F) -> (res: R) where F: FnOnce(&SchemaView<'_>) -> R
        requires
            self.ready(),
            forall|view: &SchemaView<'_>|
                view.arena@.has_columns(view.schema@) ==> #[trigger] call_requires(f, (view,)),
        ensures
            exists|view: &SchemaView<'_>|
                {
                    &&& (view.schema@, *view.arena) == self.header()
                    &&& #[trigger] call_ensures(f, (view,), res)
                },
    ;

    /// Reads the next row, where there is one.
    fn next_tuple<R, F>(&mut self, f: F) -> (res: Result<Option<R>, DatabaseError>) where
        F: FnOnce(&SchemaView<'_>, &mut Tuple) -> R,

        requires
            old(self).ready(),
            forall|view: &SchemaView<'_>, tuple: &mut Tuple|
                view.arena@.has_columns(view.schema@) ==> #[trigger] call_requires(
                    f,
                    (view, tuple),
                ),
        ensures
            res matches Ok(Some(_)) ==> exists|view: &SchemaView<'_>, tuple: &mut Tuple, value: R|
                {
                    &&& res == Ok::<Option<R>, DatabaseError>(Some(value))
                    &&& (view.schema@, *view.arena) == final(self).header()
                    &&& #[trigger] call_ensures(f, (view, tuple), value)
                    &&& Self::gives(*old(self), *tuple, *final(tuple), *final(self))
                },
            res matches Ok(None) ==> Self::halts(*old(self), *final(self), Ok(())),
            res matches Err(err) ==> Self::halts(*old(self), *final(self), Err(err)),
            final(self).ready(),
            final(self).header().0 == old(self).header().0,
    ;

    /// Draws the rows that are left and finishes the result.
    fn done(self) -> (res: Result<(), DatabaseError>)
        requires
            self.ready(),
        ensures
            self.finishes(res),
    ;

    /// Closes the result without drawing the rows that are left.
    fn close(self) -> (res: Result<(), DatabaseError>)
        ensures
            self.leaves(res),
    ;

    /// Reads the rows as values of a type.
    fn orm<T: FromQueryRow>(self) -> (res: OrmIter<Self, T>)
        ensures
            res.inner == self,
    {
        OrmIter { inner: self, marker: PhantomData }
    }
}

/// A result inside a transaction that goes on after it. Its statement is over once the rows are
/// drawn; before that the result has to be closed by hand.
#[derive(Debug)]
pub struct TransactionIter<'t, 'a, T, E> {
    pub statement: Statement<'a, E>,
    pub transaction: &'t mut T,
}

impl<'t, 'a, T: Transaction, E: ExecutorNode<T>> TransactionIter<'t, 'a, T, E> {
    /// The statement and its transaction.
    pub open spec fn state(self) -> (StatementView<E>, T) {
        (self.statement@, *self.transaction)
    }

    /// The result of a statement that was just started.
    pub fn new(
        schema: Schema,
        plan_arena: PlanArena,
        executor: Executor<'a, E>,
        transaction: &'t mut T,
    ) -> (res: Self)
        ensures
            res.state() == (
                StatementView {
                    executor: Some((executor.arena(), executor.root())),
                    plan_arena,
                    schema: schema@,
                    active: true,
                    ddl_apply: Seq::empty(),
                },
                *old(transaction),
            ),
            *final(res.transaction) == *final(transaction),
    {
        TransactionIter { statement: Statement::new(schema, plan_arena, executor), transaction }
    }

    /// Draws all rows and hands out the changes of the catalog, with the arena that they refer to.
    pub fn done_with_ddl_apply(self) -> (res: Result<(PlanArena, Vec<DDLApply>), DatabaseError>)
        requires
            self.statement@.wf(),
        ensures
            exists|after: StatementView<E>, ran: Result<(), DatabaseError>|
                {
                    &&& #[trigger] runs_out(self.state(), (after, *final(self.transaction)), ran)
                    &&& match ran {
                        Ok(_) => res matches Ok((arena, apply)) && arena == after.plan_arena
                            && apply@ == after.ddl_apply,
                        Err(err) => res matches Err(e) && e == err,
                    }
                },
    {
        let ghost start = self.state();
        let TransactionIter { mut statement, transaction } = self;
        let ran = statement.run_out(transaction);
        assert(runs_out(start, (statement@, *transaction), ran));
        match ran {
            Ok(unit) => {
                assert(unit == ());
                Ok(statement.into_parts())
            },
            Err(err) => Err(err),
        }
    }
}

impl<'t, 'a, T: Transaction, E: ExecutorNode<T>> ResultIter for TransactionIter<'t, 'a, T, E> {
    open spec fn ready(&self) -> bool {
        self.statement@.wf()
    }

    open spec fn header(&self) -> (Seq<ColumnRef>, PlanArena) {
        (self.statement@.schema, self.statement@.plan_arena)
    }

    open spec fn gives(before: Self, row: Tuple, left: Tuple, after: Self) -> bool {
        delivers(before.state(), row, left, after.state())
    }

    open spec fn halts(before: Self, after: Self, res: Result<(), DatabaseError>) -> bool {
        stops(before.state(), after.state(), res)
    }

    open spec fn finishes(self, res: Result<(), DatabaseError>) -> bool {
        exists|after: (StatementView<E>, T)| #[trigger] runs_out(self.state(), after, res)
    }

    open spec fn leaves(self, res: Result<(), DatabaseError>) -> bool {
        exists|after: (StatementView<E>, T)| #[trigger] closes(self.state(), after, res)
    }

    fn schema<R, F>(&self, f: F) -> (res: R) where F: FnOnce(&SchemaView<'_>) -> R {
        self.statement.schema(f)
    }

    fn next_tuple<R, F>(&mut self, f: F) -> (res: Result<Option<R>, DatabaseError>) where
        F: FnOnce(&SchemaView<'_>, &mut Tuple) -> R,

        ensures
            *final(final(self).transaction) == *final(old(self).transaction),
    {
        self.statement.next_tuple(self.transaction, f)
    }

    fn done(self) -> (res: Result<(), DatabaseError>)
        ensures
            exists|after: StatementView<E>| #[trigger]
                runs_out(self.state(), (after, *final(self.transaction)), res),
    {
        let ghost start = self.state();
        let TransactionIter { mut statement, transaction } = self;
        let ran = statement.run_out(transaction);
        assert(runs_out(start, (statement@, *transaction), ran));
        ran
    }

    fn close(self) -> (res: Result<(), DatabaseError>)
        ensures
            exists|after: StatementView<E>| #[trigger]
                closes(self.state(), (after, *final(self.transaction)), res),
    {
        let ghost start = self.state();
        let TransactionIter { mut statement, transaction } = self;
        let ended = statement.finish_statement_scope(transaction);
        assert(closes(start, (statement@, *transaction), ended));
        ended
    }
}

/// A result in a transaction of its own, which is committed once the rows are drawn. Before that
/// the result has to be closed by hand.
#[derive(Debug)]
pub struct DatabaseIter<'a, T, E> {
    pub statement: Statement<'a, E>,
    pub transaction: T,
}

impl<'a, T: Transaction, E: ExecutorNode<T>> DatabaseIter<'a, T, E> {
    /// The statement and its transaction.
    pub open spec fn state(self) -> (StatementView<E>, T) {
        (self.statement@, self.transaction)
    }
}

impl<'a, T: Transaction, E: ExecutorNode<T>> ResultIter for DatabaseIter<'a, T, E> {
    open spec fn ready(&self) -> bool {
        self.statement@.wf()
    }

    open spec fn header(&self) -> (Seq<ColumnRef>, PlanArena) {
        (self.statement@.schema, self.statement@.plan_arena)
    }

    open spec fn gives(before: Self, row: Tuple, left: Tuple, after: Self) -> bool {
        delivers(before.state(), row, left, after.state())
    }

    open spec fn halts(before: Self, after: Self, res: Result<(), DatabaseError>) -> bool {
        stops(before.state(), after.state(), res)
    }

    /// The transaction is committed once all rows were drawn without an error.
    open spec fn finishes(self, res: Result<(), DatabaseError>) -> bool {
        exists|after: (StatementView<E>, T), ran: Result<(), DatabaseError>|
            {
                &&& #[trigger] runs_out(self.state(), after, ran)
                &&& match ran {
                    Ok(_) => after.1.commits(res),
                    Err(err) => res == Err::<(), DatabaseError>(err),
                }
            }
    }

    /// The transaction is never committed.
    open spec fn leaves(self, res: Result<(), DatabaseError>) -> bool {
        exists|after: (StatementView<E>, T)| #[trigger] closes(self.state(), after, res)
    }

    fn schema<R, F>(&self, f: F) -> (res: R) where F: FnOnce(&SchemaView<'_>) -> R {
        self.statement.schema(f)
    }

    fn next_tuple<R, F>(&mut self, f: F) -> (res: Result<Option<R>, DatabaseError>) where
        F: FnOnce(&SchemaView<'_>, &mut Tuple) -> R,
     {
        self.statement.next_tuple(&mut self.transaction, f)
    }

    fn done(self) -> (res: Result<(), DatabaseError>) {
        let ghost start = self.state();
        let DatabaseIter { mut statement, mut transaction } = self;
        let ran = statement.run_out(&mut transaction);
        assert(runs_out(start, (statement@, transaction), ran));
        match ran {
            Ok(unit) => {
                assert(unit == ());
                transaction.commit()
            },
            Err(err) => Err(err),
        }
    }

    fn close(self) -> (res: Result<(), DatabaseError>) {
        let ghost start = self.state();
        let DatabaseIter { mut statement, mut transaction } = self;
        let ended = statement.finish_statement_scope(&mut transaction);
        assert(closes(start, (statement@, transaction), ended));
        ended
    }
}

/// A result in a transaction of its own is finished well only if its last row was drawn and the
/// transaction was committed after it. Where drawing the rows fails, that is the error.
pub proof fn done_commits_after_the_last_row<'a, T: Transaction, E: ExecutorNode<T>>(
    iter: DatabaseIter<'a, T, E>,
    res: Result<(), DatabaseError>,
)
    requires
        iter.finishes(res),
    ensures
        (exists|count: nat, last: (StatementView<E>, T), after: (StatementView<E>, T)|
            {
                &&& #[trigger] skips(count, iter.state(), last)
                &&& #[trigger] stops(last, after, Ok(()))
                &&& after.1.commits(res)
            }) || (res is Err && exists|after: (StatementView<E>, T)| #[trigger]
            runs_out(iter.state(), after, res)),
{
    let (after, ran) = choose|after: (StatementView<E>, T), ran: Result<(), DatabaseError>|
        {
            &&& #[trigger] runs_out(iter.state(), after, ran)
            &&& match ran {
                Ok(_) => after.1.commits(res),
                Err(err) => res == Err::<(), DatabaseError>(err),
            }
        };
    if let Ok(unit) = ran {
        assert(unit == ());
        only_the_last_row_ends_well(iter.state(), after);
    }
}

/// A result that is read as values of a type.
#[derive(Debug)]
pub struct OrmIter<I, T> {
    pub inner: I,
    pub marker: PhantomData<T>,
}

/// Outcomes of reading the next row as a value of a type.
pub open spec fn next_model<I: ResultIter, T: FromQueryRow>(
    before: I,
    after: I,
    res: Option<Result<T, DatabaseError>>,
) -> bool {
    match res {
        None => I::halts(before, after, Ok(())),
        Some(value) => {
            ||| value matches Err(err) && I::halts(before, after, Err(err))
            ||| exists|row: Tuple, left: Tuple|
                {
                    &&& #[trigger] I::gives(before, row, left, after)
                    &&& T::decodes_row(
                        after.header().1@,
                        after.header().0,
                        row.values@,
                        left.values@,
                        value,
                    )
                }
        },
    }
}

impl<I: ResultIter, T: FromQueryRow> OrmIter<I, T> {
    pub fn new(inner: I) -> (res: Self)
        ensures
            res.inner == inner,
    {
        OrmIter { inner, marker: PhantomData }
    }

    /// Reads the columns of the rows.
    pub fn schema<R, F>(&self, f: F) -> (res: R) where F: FnOnce(&SchemaView<'_>) -> R
        requires
            self.inner.ready(),
            forall|view: &SchemaView<'_>|
                view.arena@.has_columns(view.schema@) ==> #[trigger] call_requires(f, (view,)),
        ensures
            exists|view: &SchemaView<'_>|
                {
                    &&& (view.schema@, *view.arena) == self.inner.header()
                    &&& #[trigger] call_ensures(f, (view,), res)
                },
    {
        self.inner.schema(f)
    }

    /// The next row, where there is one.
    pub fn next(&mut self) -> (res: Option<Result<T, DatabaseError>>)
        requires
            old(self).inner.ready(),
        ensures
            next_model(old(self).inner, final(self).inner, res),
            final(self).inner.ready(),
    {
        match self.inner.next_tuple(T::from_query_row) {
            Ok(Some(value)) => Some(value),
            Ok(None) => None,
            Err(err) => Some(Err(err)),
        }
    }

    /// Draws the rows that are left and finishes the result.
    pub fn done(self) -> (res: Result<(), DatabaseError>)
        requires
            self.inner.ready(),
        ensures
            self.inner.finishes(res),
    {
        self.inner.done()
    }

    /// Closes the result without drawing the rows that are left.
    pub fn close(self) -> (res: Result<(), DatabaseError>)
        ensures
            self.inner.leaves(res),
    {
        self.inner.close()
    }
}

} // verus!
