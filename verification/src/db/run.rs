//! From a query to a running statement.

use crate::binder::plan::bound;
use crate::binder::{source_views, table_known, Binder, BinderView, BoundSource};
use crate::db::iter::{Statement, StatementView};
use crate::db::state::State;
use crate::errors::DatabaseError;
use crate::execution::choice::{shaped_plan_has_executor, write_input};
use crate::execution::ddl_apply::all_noted_known;
use crate::execution::node::Building;
use crate::execution::{
    build_write, DDLApply, ExecArena, ExecArenaView, ExecId, ExecNode, ExecutionContext, Executor,
    ExecutorNode,
};
use crate::optimizer::heuristic::optimizer::optimizes;
use crate::optimizer::rule::normalization::Stage;
use crate::orm::context::OrmContext;
use crate::orm::scope::ScopeView;
use crate::planner::arena::{ArenaView, PlanArena};
use crate::planner::operator::dml::AnalyzeView;
use crate::planner::operator::{Operator, OperatorView};
use crate::planner::schema::output;
use crate::planner::shape::{lemma_output_shape, lemma_shaped_ready};
use crate::planner::{LogicalPlan, PlanView};
use crate::storage::{Storage, Transaction};
use crate::types::index::RuntimeIndexProbe;
use crate::types::value::DataValue;
use vstd::prelude::*;

verus! {

/// The place where a query over the catalog is written.
pub open spec fn start_scope<S>(state: State<S>) -> ScopeView {
    ScopeView {
        binder: BinderView::fresh(state.table_cache, state.scala_functions, Seq::empty()),
        arena: state.table_arena@,
    }
}

/// A collection of statistics gets the number of buckets of the database, if it names none.
pub open spec fn with_buckets(plan: PlanView, buckets: Option<usize>) -> PlanView {
    match plan.operator {
        OperatorView::Analyze(op) => if op.histogram_buckets is None {
            PlanView {
                operator: OperatorView::Analyze(AnalyzeView { histogram_buckets: buckets, ..op }),
                ..plan
            }
        } else {
            plan
        },
        _ => plan,
    }
}

/// Whether the rules of the database may turn a plan into the other one.
pub open spec fn planned<S: Storage>(
    storage: S,
    state: State<S>,
    source: Stage,
    plan: PlanView,
    arena: ArenaView,
) -> bool {
    exists|best: Stage|
        {
            &&& #[trigger] optimizes(
                &storage.rule_library(),
                Some(&storage.cost_model(state.meta_cache)),
                state@.pipeline,
                source,
                best,
                Ok(()),
            )
            &&& plan == with_buckets(best.plan, state@.buckets)
            &&& arena == best.arena
        }
}

/// Whether the rules of the database may fail on a plan.
pub open spec fn refused<S: Storage>(
    storage: S,
    state: State<S>,
    source: Stage,
    err: DatabaseError,
) -> bool {
    exists|last: Stage| #[trigger]
        optimizes(
            &storage.rule_library(),
            Some(&storage.cost_model(state.meta_cache)),
            state@.pipeline,
            source,
            last,
            Err(err),
        )
}

/// Whether executors see the catalog.
pub open spec fn sees<S>(context: ExecutionContext<'_>, state: State<S>) -> bool {
    &&& context.tables() == state.table_cache
    &&& context.views() == state.view_cache
    &&& context.statistics() == state.meta_cache
    &&& context.scalars() == state.scala_functions
    &&& context.row_sources() == state.table_functions
}

/// Whether no executor was built yet.
pub open spec fn unbuilt<E>(arena: ExecArenaView<E>, context: ExecutionContext<'_>) -> bool {
    &&& arena.nodes == Seq::<ExecNode<E>>::empty()
    &&& arena.tuple.pk is None
    &&& arena.tuple.values@ == Seq::<DataValue>::empty()
    &&& arena.status is None
    &&& arena.projection_tmp == Seq::<DataValue>::empty()
    &&& arena.context == Some(context)
    &&& arena.probes == Seq::<RuntimeIndexProbe>::empty()
    &&& arena.ddl_apply == Seq::<DDLApply>::empty()
    &&& arena.recursive_input is None
}

/// Whether the statement may be what a plan is started as.
pub open spec fn started<S, T, E: ExecutorNode<T>>(
    state: State<S>,
    transaction: T,
    plan: PlanView,
    arena: ArenaView,
    statement: StatementView<E>,
) -> bool {
    exists|
        taken: LogicalPlan,
        context: ExecutionContext<'_>,
        before: Building<E>,
        after: Building<E>,
        root: ExecId,
    |
        {
            &&& #[trigger] E::builds(
                write_input(taken)->0,
                context,
                transaction,
                before,
                after,
                root,
            )
            &&& taken@ == (PlanView { schema: None, ..output(plan, arena).plan })
            &&& before.plan_arena@ == output(plan, arena).arena
            &&& sees(context, state)
            &&& unbuilt(before.arena, context)
            &&& statement == (StatementView {
                executor: Some((after.arena, root)),
                plan_arena: after.plan_arena,
                schema: output(plan, arena).schema,
                active: true,
                ddl_apply: Seq::empty(),
            })
        }
}

/// Whether a source plan may be run as the statement.
pub open spec fn runs<S: Storage>(
    storage: S,
    state: State<S>,
    transaction: S::TransactionType,
    source: Stage,
    statement: StatementView<S::Executor>,
) -> bool {
    exists|plan: PlanView, arena: ArenaView|
        {
            &&& #[trigger] planned(storage, state, source, plan, arena)
            &&& started(state, transaction, plan, arena, statement)
        }
}

impl<S: Storage> State<S> {
    /// Binds a query and lets the rules find the best plan for it.
    pub fn build_plan<'a, F>(&'a self, storage: &S, build: F) -> (res: Result<
        (LogicalPlan, PlanArena),
        DatabaseError,
    >) where F: FnOnce(&mut OrmContext<'a>) -> Result<LogicalPlan, DatabaseError>
        requires
            self.wf(),
            forall|c: &mut OrmContext<'a>| c.known() ==> #[trigger] call_requires(build, (c,)),
            forall|c: &mut OrmContext<'a>, r: Result<LogicalPlan, DatabaseError>|
                c.known() && #[trigger] call_ensures(build, (c,), r) ==> final(c).known()
                    && c@.extended_by(final(c)@) && (r matches Ok(plan) ==> bound(
                    plan@,
                    final(c)@.arena,
                )),
        ensures
            exists|c: &mut OrmContext<'a>, r: Result<LogicalPlan, DatabaseError>|
                {
                    &&& c@ == start_scope(*self)
                    &&& #[trigger] call_ensures(build, (c,), r)
                    &&& match r {
                        Err(err) => res matches Err(e) && e == err,
                        Ok(source) => match res {
                            Ok((plan, arena)) => planned(
                                *storage,
                                *self,
                                Stage { plan: source@, arena: final(c)@.arena },
                                plan@,
                                arena@,
                            ),
                            Err(err) => refused(
                                *storage,
                                *self,
                                Stage { plan: source@, arena: final(c)@.arena },
                                err,
                            ),
                        },
                    }
                },
            res matches Ok((plan, arena)) ==> arena@.steady() && bound(plan@, arena@)
                && self@.arena.within(arena@),
    {
        let outer: Vec<BoundSource> = Vec::new();
        let binder = Binder::new(&self.table_cache, &self.scala_functions, outer);
        let mut context = OrmContext::new(binder, PlanArena::new(&self.table_arena));
        proof {
            assert(source_views(outer@) =~= Seq::empty());
            assert(context@ == start_scope(*self));
            assert forall|name: Seq<char>| #[trigger]
                self.table_cache.map().contains_key(name) implies table_known(
                self.table_cache.map()[name],
                self.table_arena@,
            ) by {
                assert(self@.tables.contains_key(name));
            }
            assert(context.known());
        }
        let source = match build(&mut context) {
            Ok(source) => source,
            Err(err) => {
                return Err(err);
            },
        };
        let mut plan_arena = context.scope.arena;
        let costs = storage.costs(&self.meta_cache);
        let ghost before = Stage { plan: source@, arena: plan_arena@ };
        let rules = storage.rules();
        let mut best = match self.optimizer_pipeline.instantiate(source).find_best(
            Some(&costs),
            &mut plan_arena,
            rules,
        ) {
            Ok(best) => best,
            Err(err) => {
                proof {
                    let last = choose|last: Stage| #[trigger]
                        optimizes(rules, Some(&costs), self@.pipeline, before, last, Err(err));
                    assert(optimizes(
                        &storage.rule_library(),
                        Some(&storage.cost_model(self.meta_cache)),
                        self@.pipeline,
                        before,
                        last,
                        Err(err),
                    ));
                }
                return Err(err);
            },
        };
        let ghost found = best@;
        if let Operator::Analyze(op) = &mut best.operator {
            if op.histogram_buckets.is_none() {
                op.histogram_buckets = self.histogram_buckets;
            }
        }
        proof {
            assert(best@ == with_buckets(found, self@.buckets));
            assert(optimizes(
                &storage.rule_library(),
                Some(&storage.cost_model(self.meta_cache)),
                self@.pipeline,
                before,
                Stage { plan: found, arena: plan_arena@ },
                Ok(()),
            ));
            assert(planned(*storage, *self, before, best@, plan_arena@));
        }
        Ok((best, plan_arena))
    }

    /// Builds the executors of a plan.
    pub fn start_plan<'a>(
        &'a self,
        plan: LogicalPlan,
        plan_arena: PlanArena,
        transaction: &S::TransactionType,
    ) -> (res: Statement<'a, S::Executor>)
        requires
            plan_arena@.steady(),
            bound(plan@, plan_arena@),
        ensures
            started(*self, *transaction, plan@, plan_arena@, res@),
            res@.wf(),
            plan_arena@.within(res@.plan_arena@),
    {
        let mut plan = plan;
        let mut plan_arena = plan_arena;
        let ghost first = (plan@, plan_arena@);
        proof {
            lemma_shaped_ready(plan@);
            lemma_output_shape(plan@, plan_arena@);
        }
        let schema = plan.take_schema(&mut plan_arena);
        let ghost taken = plan;
        proof {
            assert(plan@.shaped());
            shaped_plan_has_executor(plan);
        }
        let mut arena: ExecArena<'a, S::Executor> = ExecArena::new();
        let context = ExecutionContext::new(
            &self.table_cache,
            &self.view_cache,
            &self.meta_cache,
            &self.scala_functions,
            &self.table_functions,
        );
        let ghost before = Building::<S::Executor> {
            arena: ExecArenaView { context: Some(context), ..arena@ },
            plan_arena,
        };
        let root = build_write(&mut arena, &mut plan_arena, plan, context, transaction);
        let ghost after = Building::<S::Executor> { arena: arena@, plan_arena };
        let executor = Executor::new(arena, root);
        let res = Statement::new(schema, plan_arena, executor);
        proof {
            assert(unbuilt(before.arena, context));
            assert(all_noted_known(before.arena.ddl_apply, before.plan_arena@));
            assert(<S::Executor as ExecutorNode<S::TransactionType>>::builds(
                write_input(taken)->0,
                context,
                *transaction,
                before,
                after,
                root,
            ));
            assert(started(*self, *transaction, first.0, first.1, res@));
        }
        res
    }

    /// Opens a statement and starts a query.
    pub fn execute<'a, F>(&'a self, storage: &S, transaction: &mut S::TransactionType,
        build: F) -> (res:
        Result<Statement<'a, S::Executor>, DatabaseError>) where
        F: FnOnce(&mut OrmContext<'a>) -> Result<LogicalPlan, DatabaseError>,

        requires
            self.wf(),
            forall|c: &mut OrmContext<'a>| c.known() ==> #[trigger] call_requires(build, (c,)),
            forall|c: &mut OrmContext<'a>, r: Result<LogicalPlan, DatabaseError>|
                c.known() && #[trigger] call_ensures(build, (c,), r) ==> final(c).known()
                    && c@.extended_by(final(c)@) && (r matches Ok(plan) ==> bound(
                    plan@,
                    final(c)@.arena,
                )),
        ensures
            exists|begun: Result<(), DatabaseError>|
                {
                    &&& #[trigger] <S::TransactionType as Transaction>::begins(
                        *old(transaction),
                        *final(transaction),
                        begun,
                    )
                    &&& match begun {
                        Err(err) => res matches Err(e) && e == err,
                        Ok(_) => exists|c: &mut OrmContext<'a>, r: Result<
                            LogicalPlan,
                            DatabaseError,
                        >|
                            {
                                &&& c@ == start_scope(*self)
                                &&& #[trigger] call_ensures(build, (c,), r)
                                &&& match r {
                                    Err(err) => res matches Err(e) && e == err,
                                    Ok(source) => match res {
                                        Ok(statement) => runs(
                                            *storage,
                                            *self,
                                            *final(transaction),
                                            Stage { plan: source@, arena: final(c)@.arena },
                                            statement@,
                                        ),
                                        Err(err) => refused(
                                            *storage,
                                            *self,
                                            Stage { plan: source@, arena: final(c)@.arena },
                                            err,
                                        ),
                                    },
                                }
                            },
                    }
                },
            res matches Ok(statement) ==> statement@.wf() && self@.arena.within(
                statement@.plan_arena@,
            ),
    {
        let begun = transaction.begin_statement_scope();
        assert(<S::TransactionType as Transaction>::begins(*old(transaction), *transaction, begun));
        match begun {
            Ok(unit) => {
                assert(unit == ());
            },
            Err(err) => {
                return Err(err);
            },
        }
        let (plan, plan_arena) = match self.build_plan(storage, build) {
            Ok(built) => built,
            Err(err) => {
                return Err(err);
            },
        };
        let statement = self.start_plan(plan, plan_arena, transaction);
        assert forall|source: Stage| #[trigger]
            planned(*storage, *self, source, plan@, plan_arena@) implies runs(
            *storage,
            *self,
            *transaction,
            source,
            statement@,
        ) by {}
        Ok(statement)
    }
}

} // verus!
