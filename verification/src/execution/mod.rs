//! Execution of plans: which executors a plan needs, and how rows are drawn from them.

pub mod choice;
pub mod choice_laws;
pub mod ddl_apply;
pub mod node;

pub use crate::execution::choice::{build_read, build_write};
pub use crate::execution::ddl_apply::DDLApply;
pub use crate::execution::node::{ExecNode, ExecutorNode};

use crate::db::{ScalaFunctions, TableFunctions};
use crate::errors::DatabaseError;
use crate::execution::choice::ExecInput;
use crate::execution::node::{Building, Running};
use crate::expression::ScalarExpression;
use crate::execution::ddl_apply::all_noted_known;
use crate::planner::arena::{ArenaView, PlanArena};
use crate::storage::{StatisticsMetaCache, TableCache, ViewCache};
use crate::types::index::RuntimeIndexProbe;
use crate::types::tuple::Tuple;
use crate::types::value::DataValue;
use vstd::prelude::*;

verus! {

/// The catalog that executors may look at.
#[derive(Clone, Copy, Debug)]
pub struct ExecutionContext<'a> {
    table_cache: &'a TableCache,
    view_cache: &'a ViewCache,
    meta_cache: &'a StatisticsMetaCache,
    scala_functions: &'a ScalaFunctions,
    table_functions: &'a TableFunctions,
}

impl<'a> ExecutionContext<'a> {
    /// The known tables.
    pub closed spec fn tables(self) -> TableCache {
        *self.table_cache
    }

    /// The known views.
    pub closed spec fn views(self) -> ViewCache {
        *self.view_cache
    }

    /// The known statistics.
    pub closed spec fn statistics(self) -> StatisticsMetaCache {
        *self.meta_cache
    }

    /// The known scalar functions.
    pub closed spec fn scalars(self) -> ScalaFunctions {
        *self.scala_functions
    }

    /// The known table functions.
    pub closed spec fn row_sources(self) -> TableFunctions {
        *self.table_functions
    }

    pub fn new(
        table_cache: &'a TableCache,
        view_cache: &'a ViewCache,
        meta_cache: &'a StatisticsMetaCache,
        scala_functions: &'a ScalaFunctions,
        table_functions: &'a TableFunctions,
    ) -> (res: Self)
        ensures
            res.tables() == *table_cache,
            res.views() == *view_cache,
            res.statistics() == *meta_cache,
            res.scalars() == *scala_functions,
            res.row_sources() == *table_functions,
    {
        ExecutionContext { table_cache, view_cache, meta_cache, scala_functions, table_functions }
    }

    pub fn table_cache(self) -> (res: &'a TableCache)
        ensures
            *res == self.tables(),
    {
        self.table_cache
    }

    pub fn scala_functions(self) -> (res: &'a ScalaFunctions)
        ensures
            *res == self.scalars(),
    {
        self.scala_functions
    }

    pub fn table_functions(self) -> (res: &'a TableFunctions)
        ensures
            *res == self.row_sources(),
    {
        self.table_functions
    }
}

/// Position of an executor in its arena.
pub type ExecId = usize;

/// Whether an executor delivered a row or is at its end.
#[derive(Clone, Copy, Debug, PartialEq, Eq, Structural)]
pub enum ExecStatus {
    Continue,
    End,
}

/// What the last executor left behind.
#[derive(Debug)]
pub struct ExecResult {
    pub tuple: Tuple,
    pub status: Option<ExecStatus>,
}

/// Rows that a recursive query reads back.
#[derive(Debug, PartialEq, Eq)]
pub struct RecursiveInput {
    pub tuples: Vec<Tuple>,
}

/// The executors of a statement, and what they share.
#[derive(Debug)]
pub struct ExecArena<'a, E> {
    nodes: Vec<ExecNode<E>>,
    result: ExecResult,
    projection_tmp: Vec<DataValue>,
    context: Option<ExecutionContext<'a>>,
    runtime_probe_stack: Vec<RuntimeIndexProbe>,
    ddl_apply: Vec<DDLApply>,
    recursive_input: Option<RecursiveInput>,
}

/// Mathematical model of an [`ExecArena`].
pub struct ExecArenaView<E> {
    pub nodes: Seq<ExecNode<E>>,
    pub tuple: Tuple,
    pub status: Option<ExecStatus>,
    pub projection_tmp: Seq<DataValue>,
    pub context: Option<ExecutionContext<'static>>,
    pub probes: Seq<RuntimeIndexProbe>,
    pub ddl_apply: Seq<DDLApply>,
    pub recursive_input: Option<RecursiveInput>,
}

impl<E> ExecArenaView<E> {
    /// The arena while the executor at the position is running.
    pub open spec fn running(self, id: int) -> ExecArenaView<E> {
        ExecArenaView { nodes: self.nodes.update(id, ExecNode::Empty), status: None, ..self }
    }

    /// The arena with an executor put back.
    pub open spec fn restored(self, id: int, node: ExecNode<E>) -> ExecArenaView<E> {
        ExecArenaView { nodes: self.nodes.update(id, node), ..self }
    }
}

impl<'a, E> View for ExecArena<'a, E> {
    type V = ExecArenaView<E>;

    closed spec fn view(&self) -> ExecArenaView<E> {
        ExecArenaView {
            nodes: self.nodes@,
            tuple: self.result.tuple,
            status: self.result.status,
            projection_tmp: self.projection_tmp@,
            context: self.context,
            probes: self.runtime_probe_stack@,
            ddl_apply: self.ddl_apply@,
            recursive_input: self.recursive_input,
        }
    }
}

/// Whether the arena of the plan is in order and holds all that the noted changes refer to.
pub open spec fn steady_run<E>(arena: ExecArenaView<E>, plan_arena: ArenaView) -> bool {
    plan_arena.steady() && all_noted_known(arena.ddl_apply, plan_arena)
}

/// Whether the arena of the plan did not shrink, and is in order if it was.
pub open spec fn stays_steady<E>(
    before: (ExecArenaView<E>, ArenaView),
    after: (ExecArenaView<E>, ArenaView),
) -> bool {
    &&& before.1.within(after.1)
    &&& steady_run(before.0, before.1) ==> steady_run(after.0, after.1)
}

/// Whether asking the executor at the position for a row may turn one state into the other. The
/// arena keeps its places meanwhile, so that the executor goes back to its own.
pub open spec fn draws<E: ExecutorNode<T>, T>(
    id: int,
    before: (ExecArenaView<E>, PlanArena, T),
    after: (ExecArenaView<E>, PlanArena, T),
    res: Result<bool, DatabaseError>,
) -> bool {
    exists|executor: E, arena: ExecArenaView<E>, pulled: Result<(), DatabaseError>|
        {
            &&& #[trigger] E::pulls(
                Running {
                    executor: before.0.nodes[id].executor()->0,
                    arena: before.0.running(id),
                    plan_arena: before.1,
                    transaction: before.2,
                },
                Running { executor, arena, plan_arena: after.1, transaction: after.2 },
                pulled,
            )
            &&& before.0.nodes.len() <= arena.nodes.len()
            &&& after.0 == arena.restored(id, before.0.nodes[id].with(executor))
            &&& match pulled {
                Ok(_) => res == Ok::<bool, DatabaseError>(
                    arena.status == Some(ExecStatus::Continue),
                ),
                Err(err) => res == Err::<bool, DatabaseError>(err),
            }
        }
}

/// An executor that was asked for a row is back in its place, whether or not it failed. The outcome
/// is its own: its error, or else that there is a row exactly if it left the note that there is one.
pub proof fn drawn_executor_is_back<E: ExecutorNode<T>, T>(
    id: int,
    before: (ExecArenaView<E>, PlanArena, T),
    after: (ExecArenaView<E>, PlanArena, T),
    res: Result<bool, DatabaseError>,
)
    requires
        0 <= id < before.0.nodes.len(),
        before.0.nodes[id] !is Empty,
        draws(id, before, after, res),
    ensures
        id < after.0.nodes.len(),
        after.0.nodes[id] !is Empty,
        exists|executor: E, arena: ExecArenaView<E>, pulled: Result<(), DatabaseError>|
            {
                &&& #[trigger] E::pulls(
                    Running {
                        executor: before.0.nodes[id].executor()->0,
                        arena: before.0.running(id),
                        plan_arena: before.1,
                        transaction: before.2,
                    },
                    Running { executor, arena, plan_arena: after.1, transaction: after.2 },
                    pulled,
                )
                &&& after.0.nodes[id] == before.0.nodes[id].with(executor)
                &&& after.0.nodes[id].executor() == Some(executor)
                &&& after.0.status == arena.status
                &&& res is Err <==> pulled is Err
                &&& pulled matches Err(err) ==> res == Err::<bool, DatabaseError>(err)
                &&& pulled is Ok ==> res == Ok::<bool, DatabaseError>(
                    arena.status == Some(ExecStatus::Continue),
                )
            },
{
    let (executor, arena, pulled) = choose|
        executor: E,
        arena: ExecArenaView<E>,
        pulled: Result<(), DatabaseError>,
    |
        {
            &&& #[trigger] E::pulls(
                Running {
                    executor: before.0.nodes[id].executor()->0,
                    arena: before.0.running(id),
                    plan_arena: before.1,
                    transaction: before.2,
                },
                Running { executor, arena, plan_arena: after.1, transaction: after.2 },
                pulled,
            )
            &&& before.0.nodes.len() <= arena.nodes.len()
            &&& after.0 == arena.restored(id, before.0.nodes[id].with(executor))
            &&& match pulled {
                Ok(_) => res == Ok::<bool, DatabaseError>(
                    arena.status == Some(ExecStatus::Continue),
                ),
                Err(err) => res == Err::<bool, DatabaseError>(err),
            }
        };
    assert(after.0.nodes[id] == before.0.nodes[id].with(executor));
}

/// What an earlier call noted about its row has no effect on the next call.
pub proof fn earlier_status_has_no_effect<E: ExecutorNode<T>, T>(
    id: int,
    before: (ExecArenaView<E>, PlanArena, T),
    status: Option<ExecStatus>,
    after: (ExecArenaView<E>, PlanArena, T),
    res: Result<bool, DatabaseError>,
)
    ensures
        draws(id, before, after, res) == draws(
            id,
            (ExecArenaView { status, ..before.0 }, before.1, before.2),
            after,
            res,
        ),
{
    let other = ExecArenaView { status, ..before.0 };
    assert(other.running(id) == before.0.running(id));
}

impl<'a, E> ExecArena<'a, E> {
    /// An arena without executors.
    pub fn new() -> (res: Self)
        ensures
            res@.nodes == Seq::<ExecNode<E>>::empty(),
            res@.tuple.pk is None,
            res@.tuple.values@ == Seq::<DataValue>::empty(),
            res@.status is None,
            res@.projection_tmp == Seq::<DataValue>::empty(),
            res@.context is None,
            res@.probes == Seq::<RuntimeIndexProbe>::empty(),
            res@.ddl_apply == Seq::<DDLApply>::empty(),
            res@.recursive_input is None,
    {
        ExecArena {
            nodes: Vec::new(),
            result: ExecResult { tuple: Tuple::default(), status: None },
            projection_tmp: Vec::new(),
            context: None,
            runtime_probe_stack: Vec::new(),
            ddl_apply: Vec::new(),
            recursive_input: None,
        }
    }

    /// Sets the catalog. It can be set once, or again to the same.
    pub fn init_context(&mut self, context: ExecutionContext<'a>)
        requires
            old(self)@.context matches Some(current) ==> current == context,
        ensures
            final(self)@ == (ExecArenaView { context: Some(context), ..old(self)@ }),
    {
        if self.context.is_none() {
            self.context = Some(context);
        }
    }

    /// Adds an executor.
    pub fn push(&mut self, node: ExecNode<E>) -> (id: ExecId)
        ensures
            id == old(self)@.nodes.len(),
            final(self)@ == (ExecArenaView { nodes: old(self)@.nodes.push(node), ..old(self)@ }),
    {
        let id: ExecId = self.nodes.len();
        self.nodes.push(node);
        id
    }

    /// Notes a change of the catalog.
    pub fn push_ddl_apply(&mut self, apply: DDLApply)
        ensures
            final(self)@ == (ExecArenaView {
                ddl_apply: old(self)@.ddl_apply.push(apply),
                ..old(self)@
            }),
    {
        self.ddl_apply.push(apply);
    }

    /// Takes the noted changes of the catalog.
    pub fn take_ddl_apply(&mut self) -> (res: Vec<DDLApply>)
        ensures
            res@ == old(self)@.ddl_apply,
            final(self)@ == (ExecArenaView { ddl_apply: Seq::empty(), ..old(self)@ }),
    {
        let mut res: Vec<DDLApply> = Vec::new();
        std::mem::swap(&mut res, &mut self.ddl_apply);
        res
    }

    /// The catalog.
    pub fn context(&self) -> (res: ExecutionContext<'a>)
        requires
            self@.context is Some,
        ensures
            Some(res) == self@.context,
    {
        self.context.unwrap()
    }

    /// The known tables.
    pub fn table_cache(&self) -> (res: &TableCache)
        requires
            self@.context is Some,
        ensures
            *res == (self@.context->0).tables(),
    {
        self.context.unwrap().table_cache
    }

    /// Hands a key to the index scans below.
    pub fn push_runtime_probe(&mut self, value: RuntimeIndexProbe)
        ensures
            final(self)@ == (ExecArenaView { probes: old(self)@.probes.push(value), ..old(self)@ }),
    {
        self.runtime_probe_stack.push(value);
    }

    /// Takes the key that was handed over last.
    pub fn pop_runtime_probe(&mut self) -> (res: RuntimeIndexProbe)
        requires
            old(self)@.probes.len() > 0,
        ensures
            res == old(self)@.probes.last(),
            final(self)@ == (ExecArenaView {
                probes: old(self)@.probes.drop_last(),
                ..old(self)@
            }),
    {
        self.runtime_probe_stack.pop().unwrap()
    }

    /// How many keys are handed over.
    pub fn runtime_probe_depth(&self) -> (res: usize)
        ensures
            res == self@.probes.len(),
    {
        self.runtime_probe_stack.len()
    }

    /// Hands rows to a recursive scan.
    pub fn set_recursive_input(&mut self, input: RecursiveInput)
        requires
            old(self)@.recursive_input is None,
        ensures
            final(self)@ == (ExecArenaView { recursive_input: Some(input), ..old(self)@ }),
    {
        self.recursive_input = Some(input);
    }

    /// Takes the rows for a recursive scan.
    pub fn take_recursive_input(&mut self) -> (res: RecursiveInput)
        requires
            old(self)@.recursive_input is Some,
        ensures
            Some(res) == old(self)@.recursive_input,
            final(self)@ == (ExecArenaView { recursive_input: None, ..old(self)@ }),
    {
        let mut input: Option<RecursiveInput> = None;
        std::mem::swap(&mut input, &mut self.recursive_input);
        input.unwrap()
    }

    /// Drops the executors, so that the plan can be built again.
    pub fn reset_for_rebuild(&mut self)
        requires
            old(self)@.probes.len() == 0,
            old(self)@.ddl_apply.len() == 0,
        ensures
            final(self)@ == (ExecArenaView {
                nodes: Seq::empty(),
                status: None,
                recursive_input: None,
                ..old(self)@
            }),
    {
        self.nodes.clear();
        self.result.status = None;
        self.recursive_input = None;
    }

    /// The current row.
    pub fn result_tuple(&self) -> (res: &Tuple)
        ensures
            *res == self@.tuple,
    {
        &self.result.tuple
    }

    /// The current row, to be changed in place.
    pub fn result_tuple_mut(&mut self) -> (res: &mut Tuple)
        ensures
            *res == old(self)@.tuple,
            final(self)@ == (ExecArenaView { tuple: *final(res), ..old(self)@ }),
    {
        &mut self.result.tuple
    }

    /// Runs a function with an empty buffer, which is empty again afterwards.
    pub fn with_projection_tmp<R, F>(&mut self, f: F) -> (res: Result<R, DatabaseError>) where
        F: FnOnce(&mut Self, &mut Vec<DataValue>) -> Result<R, DatabaseError>,

        requires
            forall|arena: &mut Self, tmp: &mut Vec<DataValue>| #[trigger]
                call_requires(f, (arena, tmp)),
        ensures
            exists|arena: &mut Self, tmp: &mut Vec<DataValue>|
                {
                    &&& arena@ == (ExecArenaView { projection_tmp: Seq::empty(), ..old(self)@ })
                    &&& tmp@ == Seq::<DataValue>::empty()
                    &&& #[trigger] call_ensures(f, (arena, tmp), res)
                    &&& final(self)@ == (ExecArenaView {
                        projection_tmp: Seq::empty(),
                        ..final(arena)@
                    })
                },
    {
        let mut projection_tmp: Vec<DataValue> = Vec::new();
        std::mem::swap(&mut projection_tmp, &mut self.projection_tmp);
        projection_tmp.clear();
        let ret = f(self, &mut projection_tmp);
        projection_tmp.clear();
        self.projection_tmp = projection_tmp;
        ret
    }

    /// Notes that there is a row.
    pub fn resume(&mut self)
        ensures
            final(self)@ == (ExecArenaView {
                status: Some(ExecStatus::Continue),
                ..old(self)@
            }),
    {
        self.result.status = Some(ExecStatus::Continue);
    }

    /// Notes that there is no row left.
    pub fn finish(&mut self)
        ensures
            final(self)@ == (ExecArenaView { status: Some(ExecStatus::End), ..old(self)@ }),
    {
        self.result.status = Some(ExecStatus::End);
    }

    /// Delivers a row.
    pub fn produce_tuple(&mut self, tuple: Tuple)
        ensures
            final(self)@ == (ExecArenaView {
                tuple,
                status: Some(ExecStatus::Continue),
                ..old(self)@
            }),
    {
        self.result.tuple = tuple;
        self.resume();
    }

    /// Asks an executor for its next row, and says whether there is one. While it runs, its place
    /// is empty; afterwards it is back, whether or not it failed.
    pub fn next_tuple<T>(
        &mut self,
        id: ExecId,
        plan_arena: &mut PlanArena,
        transaction: &mut T,
    ) -> (res: Result<bool, DatabaseError>) where E: ExecutorNode<T>
        requires
            id < old(self)@.nodes.len(),
            old(self)@.nodes[id as int] !is Empty,
        ensures
            draws(
                id as int,
                (old(self)@, *old(plan_arena), *old(transaction)),
                (final(self)@, *final(plan_arena), *final(transaction)),
                res,
            ),
            id < final(self)@.nodes.len(),
            final(self)@.nodes[id as int] !is Empty,
            stays_steady((old(self)@, old(plan_arena)@), (final(self)@, final(plan_arena)@)),
    {
        let ghost before = self@;
        self.result.status = None;
        let mut node = ExecNode::Empty;
        std::mem::swap(&mut node, &mut self.nodes[id]);
        assert(self@ == before.running(id as int)) by {
            assert(self@.nodes =~= before.nodes.update(id as int, ExecNode::Empty));
        }
        let result = node.next_tuple(self, plan_arena, transaction);
        let ghost pulled = self@;
        self.nodes[id] = node;
        assert(self@ == pulled.restored(id as int, node)) by {
            assert(self@.nodes =~= pulled.nodes.update(id as int, node));
        }
        match result {
            Ok(unit) => {
                assert(unit == ());
                match self.result.status {
                    Some(ExecStatus::Continue) => Ok(true),
                    _ => Ok(false),
                }
            },
            Err(err) => Err(err),
        }
    }
}

/// The row that the values form: nothing of none, the value itself of one, else a row value.
pub open spec fn row_value(values: Seq<DataValue>, value: DataValue) -> bool {
    if values.len() == 1 {
        value == values[0]
    } else {
        value matches DataValue::Tuple(parts, false) && parts@ == values
    }
}

/// Whether the results are those of the expressions up to the first that fails.
pub open spec fn evaluates<V: Fn(&ScalarExpression, &Tuple) -> Result<DataValue, DatabaseError>>(
    eval: V,
    tuple: Tuple,
    exprs: Seq<ScalarExpression>,
    results: Seq<Result<DataValue, DatabaseError>>,
) -> bool {
    &&& results.len() <= exprs.len()
    &&& forall|i: int|
        0 <= i < results.len() ==> call_ensures(eval, (&exprs[i], &tuple), #[trigger] results[i])
    &&& forall|i: int| 0 <= i < results.len() - 1 ==> (#[trigger] results[i]) is Ok
    &&& results.len() < exprs.len() ==> results.len() > 0 && results.last() is Err
}

/// The given row, or the current one.
pub open spec fn row_of(given: Option<&Tuple>, current: Tuple) -> Tuple {
    match given {
        Some(tuple) => *tuple,
        None => current,
    }
}

/// Evaluates the expressions over the given row, or over the current one, and hands the row value
/// that they form on. Without expressions nothing is handed on.
pub fn with_projection_tmp_value<'a, E, V, F>(
    exec_arena: &mut ExecArena<'a, E>,
    tuple: Option<&Tuple>,
    exprs: &Vec<ScalarExpression>,
    eval: V,
    f: F,
) -> (res: Result<(), DatabaseError>) where
    V: Fn(&ScalarExpression, &Tuple) -> Result<DataValue, DatabaseError>,
    F: FnOnce(&mut ExecArena<'a, E>, DataValue) -> Result<(), DatabaseError>,

    requires
        forall|expr: &ScalarExpression, tuple: &Tuple| #[trigger]
            call_requires(eval, (expr, tuple)),
        forall|arena: &mut ExecArena<'a, E>, value: DataValue| #[trigger]
            call_requires(f, (arena, value)),
    ensures
        exists|results: Seq<Result<DataValue, DatabaseError>>|
            {
                &&& #[trigger] evaluates(
                    eval,
                    row_of(tuple, old(exec_arena)@.tuple),
                    exprs@,
                    results,
                )
                &&& if results.len() > 0 && results.last() is Err {
                    &&& res == Err::<(), DatabaseError>(results.last()->Err_0)
                    &&& final(exec_arena)@ == old(exec_arena)@
                } else if results.len() == 0 {
                    &&& res is Ok
                    &&& final(exec_arena)@ == old(exec_arena)@
                } else {
                    exists|arena: &mut ExecArena<'a, E>, value: DataValue|
                        {
                            &&& *arena == *old(exec_arena)
                            &&& row_value(
                                results.map_values(|r: Result<DataValue, DatabaseError>| r->Ok_0),
                                value,
                            )
                            &&& #[trigger] call_ensures(f, (arena, value), res)
                            &&& *final(exec_arena) == *final(arena)
                        }
                }
            },
{
    let mut values: Vec<DataValue> = Vec::new();
    let ghost row = row_of(tuple, exec_arena@.tuple);
    let ghost mut results: Seq<Result<DataValue, DatabaseError>> = Seq::empty();
    let mut i: usize = 0;
    while i < exprs.len()
        invariant
            i <= exprs.len(),
            *exec_arena == *old(exec_arena),
            row == row_of(tuple, exec_arena@.tuple),
            values@.len() == i,
            results.len() == i,
            forall|j: int| 0 <= j < i ==> #[trigger] results[j]
                == Ok::<DataValue, DatabaseError>(values@[j]),
            forall|j: int|
                0 <= j < i ==> call_ensures(eval, (&exprs@[j], &row), #[trigger] results[j]),
            forall|expr: &ScalarExpression, tuple: &Tuple| #[trigger]
                call_requires(eval, (expr, tuple)),
        decreases exprs.len() - i,
    {
        let value = match tuple {
            Some(tuple) => eval(&exprs[i], tuple),
            None => eval(&exprs[i], exec_arena.result_tuple()),
        };
        proof {
            results = results.push(value);
        }
        match value {
            Ok(value) => {
                values.push(value);
            },
            Err(err) => {
                assert(evaluates(eval, row, exprs@, results));
                return Err(err);
            },
        }
        i += 1;
    }
    assert(evaluates(eval, row, exprs@, results));
    assert(results.map_values(|r: Result<DataValue, DatabaseError>| r->Ok_0) =~= values@);
    if values.len() == 0 {
        return Ok(());
    }
    if values.len() == 1 {
        let value = values.pop().unwrap();
        return f(exec_arena, value);
    }
    let value = DataValue::Tuple(values, false);
    f(exec_arena, value)
}

/// The executors of one statement and the one that delivers its rows.
#[derive(Debug)]
pub struct Executor<'a, E> {
    arena: ExecArena<'a, E>,
    root: ExecId,
}

impl<'a, E> Executor<'a, E> {
    /// The executors and what they share.
    pub closed spec fn arena(self) -> ExecArenaView<E> {
        self.arena@
    }

    /// The executor that delivers the rows.
    pub closed spec fn root(self) -> ExecId {
        self.root
    }

    /// The root is there and at rest.
    pub open spec fn wf(self) -> bool {
        self.root() < self.arena().nodes.len() && self.arena().nodes[self.root() as int] !is Empty
    }

    pub fn new(arena: ExecArena<'a, E>, root: ExecId) -> (res: Self)
        ensures
            res.arena() == arena@,
            res.root() == root,
    {
        Executor { arena, root }
    }

    /// The next row, where there is one.
    pub fn next_tuple<T>(&mut self, plan_arena: &mut PlanArena,
        transaction: &mut T) -> (res: Result<
        Option<&mut Tuple>,
        DatabaseError,
    >) where E: ExecutorNode<T>
        requires
            old(self).wf(),
        ensures
            final(self).root() == old(self).root(),
            exists|drawn: ExecArenaView<E>, more: Result<bool, DatabaseError>|
                {
                    &&& #[trigger] draws(
                        old(self).root() as int,
                        (old(self).arena(), *old(plan_arena), *old(transaction)),
                        (drawn, *final(plan_arena), *final(transaction)),
                        more,
                    )
                    &&& match more {
                        Ok(true) => res matches Ok(Some(tuple)) && *tuple == drawn.tuple
                            && final(self).arena() == (ExecArenaView {
                            tuple: *final(tuple),
                            ..drawn
                        }),
                        Ok(false) => (res matches Ok(None)) && final(self).arena() == drawn,
                        Err(err) => (res matches Err(e) && e == err) && final(self).arena()
                            == drawn,
                    }
                },
            final(self).wf(),
            stays_steady(
                (old(self).arena(), old(plan_arena)@),
                (final(self).arena(), final(plan_arena)@),
            ),
    {
        match self.arena.next_tuple(self.root, plan_arena, transaction) {
            Ok(more) => {
                if !more {
                    return Ok(None);
                }
                Ok(Some(self.arena.result_tuple_mut()))
            },
            Err(err) => Err(err),
        }
    }

    /// Takes the changes of the catalog that the executors noted.
    pub fn take_ddl_apply(&mut self) -> (res: Vec<DDLApply>)
        ensures
            res@ == old(self).arena().ddl_apply,
            final(self).root() == old(self).root(),
            final(self).arena() == (ExecArenaView {
                ddl_apply: Seq::empty(),
                ..old(self).arena()
            }),
    {
        self.arena.take_ddl_apply()
    }
}

/// An executor that delivers nothing and changes nothing, whatever it was built for.
#[derive(Debug)]
pub struct NoRows {
    pub input: ExecInput,
}

impl NoRows {
    fn placed(input: ExecInput) -> (res: ExecNode<NoRows>)
        ensures
            res == input.node(NoRows { input }),
    {
        match &input {
            ExecInput::Dummy => ExecNode::Dummy(NoRows { input }),
            ExecInput::SimpleAgg(..) => ExecNode::SimpleAgg(NoRows { input }),
            ExecInput::StreamDistinct(..) => ExecNode::StreamDistinct(NoRows { input }),
            ExecInput::StreamAgg(..) => ExecNode::StreamAgg(NoRows { input }),
            ExecInput::HashAgg(..) => ExecNode::HashAgg(NoRows { input }),
            ExecInput::Filter(..) => ExecNode::Filter(NoRows { input }),
            ExecInput::ScalarApply(..) => ExecNode::ScalarApply(NoRows { input }),
            ExecInput::MarkApply(..) => ExecNode::MarkApply(NoRows { input }),
            ExecInput::HashJoin(..) => ExecNode::HashJoin(NoRows { input }),
            ExecInput::NestedLoopJoin(..) => ExecNode::NestedLoopJoin(NoRows { input }),
            ExecInput::Projection(..) => ExecNode::Projection(NoRows { input }),
            ExecInput::ScalarSubquery(..) => ExecNode::ScalarSubquery(NoRows { input }),
            ExecInput::IndexScan { .. } => ExecNode::IndexScan(NoRows { input }),
            ExecInput::SeqScan(..) => ExecNode::SeqScan(NoRows { input }),
            ExecInput::FunctionScan(..) => ExecNode::FunctionScan(NoRows { input }),
            ExecInput::ExternalSort(..) => ExecNode::ExternalSort(NoRows { input }),
            ExecInput::Sort(..) => ExecNode::Sort(NoRows { input }),
            ExecInput::Limit(..) => ExecNode::Limit(NoRows { input }),
            ExecInput::TopK(..) => ExecNode::TopK(NoRows { input }),
            ExecInput::Values(..) => ExecNode::Values(NoRows { input }),
            ExecInput::Window(..) => ExecNode::Window(NoRows { input }),
            ExecInput::ShowTables => ExecNode::ShowTables(NoRows { input }),
            ExecInput::ShowViews => ExecNode::ShowViews(NoRows { input }),
            ExecInput::Explain(..) => ExecNode::Explain(NoRows { input }),
            ExecInput::Describe(..) => ExecNode::Describe(NoRows { input }),
            ExecInput::Union(..) => ExecNode::Union(NoRows { input }),
            ExecInput::RecursiveCte(..) => ExecNode::RecursiveCte(NoRows { input }),
            ExecInput::RecursiveScan(..) => ExecNode::RecursiveScan(NoRows { input }),
            ExecInput::SetMembership(..) => ExecNode::SetMembership(NoRows { input }),
            ExecInput::Insert(..) => ExecNode::Insert(NoRows { input }),
            ExecInput::Update(..) => ExecNode::Update(NoRows { input }),
            ExecInput::Delete(..) => ExecNode::Delete(NoRows { input }),
            ExecInput::AddColumn(..) => ExecNode::AddColumn(NoRows { input }),
            ExecInput::ChangeColumn(..) => ExecNode::ChangeColumn(NoRows { input }),
            ExecInput::DropColumn(..) => ExecNode::DropColumn(NoRows { input }),
            ExecInput::CreateTable(..) => ExecNode::CreateTable(NoRows { input }),
            ExecInput::CreateIndex(..) => ExecNode::CreateIndex(NoRows { input }),
            ExecInput::CreateView(..) => ExecNode::CreateView(NoRows { input }),
            ExecInput::DropTable(..) => ExecNode::DropTable(NoRows { input }),
            ExecInput::DropView(..) => ExecNode::DropView(NoRows { input }),
            ExecInput::DropIndex(..) => ExecNode::DropIndex(NoRows { input }),
            ExecInput::Truncate(..) => ExecNode::Truncate(NoRows { input }),
            ExecInput::CopyFromFile(..) => ExecNode::CopyFromFile(NoRows { input }),
            ExecInput::CopyToFile(..) => ExecNode::CopyToFile(NoRows { input }),
            ExecInput::Analyze(..) => ExecNode::Analyze(NoRows { input }),
        }
    }
}

impl<T> ExecutorNode<T> for NoRows {
    open spec fn builds(
        input: ExecInput,
        context: ExecutionContext,
        transaction: T,
        before: Building<Self>,
        after: Building<Self>,
        id: ExecId,
    ) -> bool {
        &&& id == before.arena.nodes.len()
        &&& after.arena == (ExecArenaView {
            nodes: before.arena.nodes.push(input.node(NoRows { input })),
            ..before.arena
        })
        &&& after.plan_arena == before.plan_arena
    }

    open spec fn pulls(
        before: Running<Self, T>,
        after: Running<Self, T>,
        res: Result<(), DatabaseError>,
    ) -> bool {
        &&& res is Ok
        &&& after == (Running {
            arena: ExecArenaView { status: Some(ExecStatus::End), ..before.arena },
            ..before
        })
    }

    fn into_executor(
        input: ExecInput,
        arena: &mut ExecArena<'_, Self>,
        plan_arena: &mut PlanArena,
        context: ExecutionContext<'_>,
        transaction: &T,
    ) -> (id: ExecId) {
        let ghost own = input.node(NoRows { input });
        let id = arena.push(NoRows::placed(input));
        assert(arena@.nodes[id as int] == own);
        id
    }

    fn next_tuple(
        &mut self,
        arena: &mut ExecArena<'_, Self>,
        plan_arena: &mut PlanArena,
        transaction: &mut T,
    ) -> (res: Result<(), DatabaseError>) {
        arena.finish();
        Ok(())
    }
}

} // verus!
