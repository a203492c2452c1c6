//! The catalog of a database, and how statements change it.

use crate::binder::table_known;
use crate::cache::CacheKey;
use crate::catalog::{ColumnCatalog, ColumnRef, ColumnView, TableCatalog, TableName};
use crate::db::functions::{
    FunctionSummary, RowSource, ScalaFunctions, ScalarFunction, TableFunction, TableFunctions,
};
use crate::errors::DatabaseError;
use crate::execution::ddl_apply::{all_noted_known, noted_known, view_known};
use crate::execution::DDLApply;
use crate::optimizer::heuristic::optimizer::{HepOptimizerPipeline, PipelineView};
use crate::planner::arena::{column_views, ArenaView, PlanArena, TableArena};
use crate::planner::columns::lemma_plan_columns_extend;
use crate::planner::schema::lemma_plan_valid_within;
use crate::storage::{
    fills, StatisticsMeta, StatisticsMetaCache, TableCache, ViewCache, ViewCatalog,
};
use crate::types::index::IndexId;
use crate::types::LogicalTypeView;
use std::collections::HashSet;
use std::marker::PhantomData;
use vstd::prelude::*;

verus! {

broadcast use vstd::std_specs::hash::group_hash_axioms;

/// What a database knows beside its storage.
#[derive(Debug)]
pub struct State<S> {
    pub scala_functions: ScalaFunctions,
    pub table_functions: TableFunctions,
    pub meta_cache: StatisticsMetaCache,
    pub table_cache: TableCache,
    pub view_cache: ViewCache,
    pub table_arena: TableArena,
    pub optimizer_pipeline: HepOptimizerPipeline,
    pub histogram_buckets: Option<usize>,
    pub marker: PhantomData<S>,
}

/// Mathematical model of a [`State`].
pub struct StateView {
    pub scalars: Map<(Seq<char>, Seq<LogicalTypeView>), ScalarFunction>,
    pub row_sources: Map<(Seq<char>, Seq<LogicalTypeView>), TableFunction>,
    pub statistics: Map<(Seq<char>, IndexId), StatisticsMeta>,
    pub tables: Map<Seq<char>, TableCatalog>,
    pub views: Map<Seq<char>, ViewCatalog>,
    pub arena: ArenaView,
    pub pipeline: PipelineView,
    pub buckets: Option<usize>,
}

impl<S> View for State<S> {
    type V = StateView;

    open spec fn view(&self) -> StateView {
        StateView {
            scalars: self.scala_functions.map(),
            row_sources: self.table_functions.map(),
            statistics: self.meta_cache.map(),
            tables: self.table_cache.map(),
            views: self.view_cache.map(),
            arena: self.table_arena@,
            pipeline: self.optimizer_pipeline@,
            buckets: self.histogram_buckets,
        }
    }
}

/// Whether one of the columns stands at the position.
pub open spec fn uses(columns: Seq<ColumnRef>, position: usize) -> bool {
    exists|i: int| 0 <= i < columns.len() && (#[trigger] columns[i]).0 == position
}

/// Whether plan or columns of a view refer to the position.
pub open spec fn view_uses(view: ViewCatalog, arena: ArenaView, position: usize) -> bool {
    uses(view.plan@.columns(arena.exprs), position) || uses(view.schema@, position)
}

impl StateView {
    /// Whether a table, a view or a function refers to the column at the position.
    pub open spec fn in_use(self, position: usize) -> bool {
        ||| exists|name: Seq<char>| #[trigger]
            self.tables.contains_key(name) && uses(self.tables[name].columns@, position)
        ||| exists|name: Seq<char>| #[trigger]
            self.views.contains_key(name) && view_uses(self.views[name], self.arena, position)
        ||| exists|name: (Seq<char>, Seq<LogicalTypeView>)| #[trigger]
            self.row_sources.contains_key(name) && uses(self.row_sources[name].schema@, position)
    }

    /// Whether everything that the catalog refers to is in the arena.
    pub open spec fn known(self) -> bool {
        &&& self.arena.steady()
        &&& forall|name: Seq<char>| #[trigger]
            self.tables.contains_key(name) ==> table_known(self.tables[name], self.arena)
        &&& forall|name: Seq<char>| #[trigger]
            self.views.contains_key(name) ==> view_known(self.views[name], self.arena)
        &&& forall|name: (Seq<char>, Seq<LogicalTypeView>)| #[trigger]
            self.row_sources.contains_key(name) ==> self.arena.has_columns(
                self.row_sources[name].schema@,
            )
    }

    /// The catalog after a change, whose references are those of the arena.
    pub open spec fn changed(self, apply: DDLApply, arena: ArenaView) -> StateView {
        match apply {
            DDLApply::UpsertTable { table, clear_statistics } => StateView {
                tables: self.tables.insert(table.name@, table),
                statistics: if clear_statistics {
                    forgotten(self.statistics, table.name@)
                } else {
                    self.statistics
                },
                arena,
                ..self
            },
            DDLApply::DropTable { name } => StateView {
                tables: self.tables.remove(name@),
                statistics: forgotten(self.statistics, name@),
                ..self
            },
            DDLApply::UpsertView { view } => StateView {
                views: self.views.insert(view.name@, view),
                arena,
                ..self
            },
            DDLApply::DropView { name } => StateView { views: self.views.remove(name@), ..self },
            DDLApply::UpsertStatisticsMeta { table_name, index_id, meta } => StateView {
                statistics: self.statistics.insert((table_name@, index_id), meta),
                ..self
            },
            DDLApply::RemoveStatisticsMeta { table_name, index_id } => StateView {
                statistics: self.statistics.remove((table_name@, index_id)),
                ..self
            },
        }
    }

    /// The catalog after changes, one after the other.
    pub open spec fn changed_by(self, applies: Seq<DDLApply>, arena: ArenaView) -> StateView
        decreases applies.len(),
    {
        if applies.len() == 0 {
            self
        } else {
            self.changed_by(applies.drop_last(), arena).changed(applies.last(), arena)
        }
    }
}

/// The statistics without those of the table.
pub open spec fn forgotten(
    statistics: Map<(Seq<char>, IndexId), StatisticsMeta>,
    name: Seq<char>,
) -> Map<(Seq<char>, IndexId), StatisticsMeta> {
    statistics.remove_keys(Set::new(|key: (Seq<char>, IndexId)| key.0 == name))
}

/// Whether a change adds or removes a table or a view.
pub open spec fn changes_catalog(apply: DDLApply) -> bool {
    !(apply is UpsertStatisticsMeta) && !(apply is RemoveStatisticsMeta)
}

/// Whether one of the changes adds or removes a table or a view.
pub open spec fn any_changes_catalog(applies: Seq<DDLApply>) -> bool {
    exists|i: int| 0 <= i < applies.len() && changes_catalog(#[trigger] applies[i])
}

/// After a table is dropped, neither it nor statistics of it are left.
pub proof fn dropped_table_is_gone(state: StateView, name: TableName, arena: ArenaView,
    index: IndexId)
    ensures
        ({
            let after = state.changed(DDLApply::DropTable { name }, arena);
            !after.tables.contains_key(name@) && !after.statistics.contains_key((name@, index))
        }),
{
}

/// A change of one table leaves the other tables and their statistics alone.
pub proof fn other_tables_stay(
    state: StateView,
    apply: DDLApply,
    arena: ArenaView,
    other: Seq<char>,
    index: IndexId,
)
    requires
        match apply {
            DDLApply::UpsertTable { table, .. } => table.name@ != other,
            DDLApply::DropTable { name } => name@ != other,
            DDLApply::UpsertStatisticsMeta { table_name, .. } => table_name@ != other,
            DDLApply::RemoveStatisticsMeta { table_name, .. } => table_name@ != other,
            _ => true,
        },
    ensures
        ({
            let after = state.changed(apply, arena);
            &&& after.tables.contains_key(other) == state.tables.contains_key(other)
            &&& state.tables.contains_key(other) ==> after.tables[other] == state.tables[other]
            &&& after.statistics.contains_key((other, index)) == state.statistics.contains_key(
                (other, index),
            )
            &&& state.statistics.contains_key((other, index)) ==> after.statistics[(other, index)]
                == state.statistics[(other, index)]
        }),
{
}

/// Changes keep the catalog in its arena.
proof fn lemma_changed_known(state: StateView, apply: DDLApply, arena: ArenaView)
    requires
        state.known(),
        arena.steady(),
        state.arena.within(arena),
        noted_known(apply, arena),
    ensures
        state.changed(apply, arena).known(),
        state.changed(apply, arena).arena.within(arena),
{
    let after = state.changed(apply, arena);
    assert forall|name: Seq<char>| #[trigger] after.tables.contains_key(name) implies table_known(
        after.tables[name],
        after.arena,
    ) by {
        if state.tables.contains_key(name) {
            assert(table_known(state.tables[name], state.arena));
        }
    }
    assert forall|name: Seq<char>| #[trigger] after.views.contains_key(name) implies view_known(
        after.views[name],
        after.arena,
    ) by {
        if state.views.contains_key(name) {
            assert(view_known(state.views[name], state.arena));
            lemma_plan_valid_within(state.views[name].plan@, state.arena, after.arena);
        }
    }
    assert forall|name: (Seq<char>, Seq<LogicalTypeView>)| #[trigger]
        after.row_sources.contains_key(name) implies after.arena.has_columns(
        after.row_sources[name].schema@,
    ) by {
        assert(state.arena.has_columns(state.row_sources[name].schema@));
    }
}

fn mark(columns: &Vec<ColumnRef>, live: &mut HashSet<usize>)
    ensures
        forall|position: usize| #[trigger]
            final(live)@.contains(position) <==> old(live)@.contains(position) || uses(
                columns@,
                position,
            ),
{
    let ghost start = live@;
    let mut i: usize = 0;
    while i < columns.len()
        invariant
            i <= columns.len(),
            forall|position: usize| #[trigger]
                live@.contains(position) <==> start.contains(position) || uses(
                    columns@.take(i as int),
                    position,
                ),
        decreases columns.len() - i,
    {
        let ghost before = live@;
        let _ = live.insert(columns[i].pos());
        proof {
            assert forall|position: usize| #[trigger]
                live@.contains(position) <==> start.contains(position) || uses(
                    columns@.take(i + 1),
                    position,
                ) by {
                let next = columns@.take(i + 1);
                let last = columns@.take(i as int);
                if uses(last, position) {
                    let k = choose|k: int| 0 <= k < last.len() && (#[trigger] last[k]).0
                        == position;
                    assert(next[k].0 == position);
                }
                if uses(next, position) && position != columns@[i as int].0 {
                    let k = choose|k: int| 0 <= k < next.len() && (#[trigger] next[k]).0
                        == position;
                    assert(last[k].0 == position);
                }
                assert(next[i as int] == columns@[i as int]);
            }
        }
        i += 1;
    }
    assert(columns@.take(i as int) =~= columns@);
}

/// Whether one of the first tables refers to the position.
spec fn tables_use(entries: Seq<(TableName, TableCatalog)>, count: int, position: usize) -> bool {
    exists|i: int| 0 <= i < count && uses((#[trigger] entries[i]).1.columns@, position)
}

/// Whether one of the first views refers to the position.
spec fn views_use(
    entries: Seq<(TableName, ViewCatalog)>,
    arena: ArenaView,
    count: int,
    position: usize,
) -> bool {
    exists|i: int| 0 <= i < count && view_uses((#[trigger] entries[i]).1, arena, position)
}

/// Whether one of the first functions refers to the position.
spec fn functions_use(
    entries: Seq<(FunctionSummary, TableFunction)>,
    count: int,
    position: usize,
) -> bool {
    exists|i: int| 0 <= i < count && uses((#[trigger] entries[i]).1.schema@, position)
}

impl<S> State<S> {
    /// Whether no cache holds a key twice, all that the catalog refers to is in its arena, and every
    /// batch of the pipeline has a limit.
    pub open spec fn solid(&self) -> bool {
        &&& self.scala_functions.wf()
        &&& self.table_functions.wf()
        &&& self.meta_cache.wf()
        &&& self.table_cache.wf()
        &&& self.view_cache.wf()
        &&& self@.known()
        &&& self.table_arena.free_fits()
        &&& self@.pipeline.limited()
    }

    /// Whether the catalog is solid and refers to no free position.
    pub open spec fn wf(&self) -> bool {
        &&& self.solid()
        &&& forall|i: int|
            0 <= i < self.table_arena.free@.len() ==> !self@.in_use(
                #[trigger] self.table_arena.free@[i],
            )
    }

    fn mark_tables(&self, live: &mut HashSet<usize>)
        ensures
            forall|position: usize| #[trigger]
                final(live)@.contains(position) <==> old(live)@.contains(position) || tables_use(
                    self.table_cache.entries(),
                    self.table_cache.entries().len() as int,
                    position,
                ),
    {
        let ghost entries = self.table_cache.entries();
        let ghost start = live@;
        let mut i: usize = 0;
        while i < self.table_cache.len()
            invariant
                i <= entries.len(),
                entries == self.table_cache.entries(),
                forall|position: usize| #[trigger]
                    live@.contains(position) <==> start.contains(position) || tables_use(
                        entries,
                        i as int,
                        position,
                    ),
            decreases entries.len() - i,
        {
            mark(&self.table_cache.entry(i).1.columns, live);
            i += 1;
            assert forall|position: usize|
                tables_use(entries, i as int, position) <==> tables_use(entries, i - 1, position)
                    || uses(entries[i - 1].1.columns@, position) by {
                if uses(entries[i - 1].1.columns@, position) {
                    assert(tables_use(entries, i as int, position));
                }
            }
        }
    }

    fn mark_views(&self, live: &mut HashSet<usize>)
        requires
            self.solid(),
        ensures
            forall|position: usize| #[trigger]
                final(live)@.contains(position) <==> old(live)@.contains(position) || views_use(
                    self.view_cache.entries(),
                    self.table_arena@,
                    self.view_cache.entries().len() as int,
                    position,
                ),
    {
        let ghost entries = self.view_cache.entries();
        let ghost start = live@;
        let arena = PlanArena::new(&self.table_arena);
        let mut i: usize = 0;
        while i < self.view_cache.len()
            invariant
                i <= entries.len(),
                entries == self.view_cache.entries(),
                self.solid(),
                arena@ == self.table_arena@,
                forall|position: usize| #[trigger]
                    live@.contains(position) <==> start.contains(position) || views_use(
                        entries,
                        arena@,
                        i as int,
                        position,
                    ),
            decreases entries.len() - i,
        {
            let view = &self.view_cache.entry(i).1;
            proof {
                self.view_cache.lemma_entry(i as int);
                assert(self@.views.contains_key(entries[i as int].0.name()));
                assert(view_known(*view, arena@));
            }
            let mut found: Vec<ColumnRef> = Vec::new();
            view.plan.visit_column_refs(&arena, &mut found);
            assert(found@ =~= view.plan@.columns(arena@.exprs));
            mark(&found, live);
            mark(&view.schema, live);
            i += 1;
            assert forall|position: usize|
                views_use(entries, arena@, i as int, position) <==> views_use(
                    entries,
                    arena@,
                    i - 1,
                    position,
                ) || view_uses(entries[i - 1].1, arena@, position) by {
                if view_uses(entries[i - 1].1, arena@, position) {
                    assert(views_use(entries, arena@, i as int, position));
                }
            }
        }
    }

    fn mark_functions(&self, live: &mut HashSet<usize>)
        ensures
            forall|position: usize| #[trigger]
                final(live)@.contains(position) <==> old(live)@.contains(position)
                    || functions_use(
                    self.table_functions.entries(),
                    self.table_functions.entries().len() as int,
                    position,
                ),
    {
        let ghost entries = self.table_functions.entries();
        let ghost start = live@;
        let mut i: usize = 0;
        while i < self.table_functions.len()
            invariant
                i <= entries.len(),
                entries == self.table_functions.entries(),
                forall|position: usize| #[trigger]
                    live@.contains(position) <==> start.contains(position) || functions_use(
                        entries,
                        i as int,
                        position,
                    ),
            decreases entries.len() - i,
        {
            mark(&self.table_functions.entry(i).1.schema, live);
            i += 1;
            assert forall|position: usize|
                functions_use(entries, i as int, position) <==> functions_use(
                    entries,
                    i - 1,
                    position,
                ) || uses(entries[i - 1].1.schema@, position) by {
                if uses(entries[i - 1].1.schema@, position) {
                    assert(functions_use(entries, i as int, position));
                }
            }
        }
    }

    proof fn lemma_in_use(&self, position: usize)
        requires
            self.solid(),
        ensures
            self@.in_use(position) <==> tables_use(
                self.table_cache.entries(),
                self.table_cache.entries().len() as int,
                position,
            ) || views_use(
                self.view_cache.entries(),
                self.table_arena@,
                self.view_cache.entries().len() as int,
                position,
            ) || functions_use(
                self.table_functions.entries(),
                self.table_functions.entries().len() as int,
                position,
            ),
    {
        let tables = self.table_cache.entries();
        let views = self.view_cache.entries();
        let functions = self.table_functions.entries();
        if tables_use(tables, tables.len() as int, position) {
            let i = choose|i: int|
                0 <= i < tables.len() && uses((#[trigger] tables[i]).1.columns@, position);
            self.table_cache.lemma_entry(i);
            assert(self@.tables.contains_key(tables[i].0.name()));
        }
        if views_use(views, self.table_arena@, views.len() as int, position) {
            let i = choose|i: int|
                0 <= i < views.len() && view_uses(
                    (#[trigger] views[i]).1,
                    self.table_arena@,
                    position,
                );
            self.view_cache.lemma_entry(i);
            assert(self@.views.contains_key(views[i].0.name()));
        }
        if functions_use(functions, functions.len() as int, position) {
            let i = choose|i: int|
                0 <= i < functions.len() && uses((#[trigger] functions[i]).1.schema@, position);
            self.table_functions.lemma_entry(i);
            assert(self@.row_sources.contains_key(functions[i].0.name()));
        }
        if self@.in_use(position) {
            if exists|name: Seq<char>| #[trigger]
                self@.tables.contains_key(name) && uses(self@.tables[name].columns@, position) {
                let name = choose|name: Seq<char>| #[trigger]
                    self@.tables.contains_key(name) && uses(self@.tables[name].columns@, position);
                let i = choose|i: int| self.table_cache.at(name, i);
                assert(self.table_cache.at(name, i));
                self.table_cache.lemma_entry(i);
            } else if exists|name: Seq<char>| #[trigger]
                self@.views.contains_key(name) && view_uses(
                    self@.views[name],
                    self@.arena,
                    position,
                ) {
                let name = choose|name: Seq<char>| #[trigger]
                    self@.views.contains_key(name) && view_uses(
                        self@.views[name],
                        self@.arena,
                        position,
                    );
                let i = choose|i: int| self.view_cache.at(name, i);
                assert(self.view_cache.at(name, i));
                self.view_cache.lemma_entry(i);
            } else {
                let name = choose|name: (Seq<char>, Seq<LogicalTypeView>)| #[trigger]
                    self@.row_sources.contains_key(name) && uses(
                        self@.row_sources[name].schema@,
                        position,
                    );
                let i = choose|i: int| self.table_functions.at(name, i);
                assert(self.table_functions.at(name, i));
                self.table_functions.lemma_entry(i);
            }
        }
    }

    /// Frees the positions of the columns that nothing in the catalog refers to.
    pub fn recycle_table_arena(&mut self) -> (res: Result<(), DatabaseError>)
        requires
            old(self).solid(),
        ensures
            res is Ok,
            final(self)@ == old(self)@,
            final(self).wf(),
            forall|position: usize| #[trigger]
                final(self).table_arena.free@.contains(position) <==> position
                    < old(self)@.arena.columns.len() && !old(self)@.in_use(position),
    {
            let ghost before = *self;
        let mut live: HashSet<usize> = HashSet::new();
        self.mark_tables(&mut live);
        self.mark_views(&mut live);
        self.mark_functions(&mut live);
        assert forall|position: usize| #[trigger]
            live@.contains(position) <==> before@.in_use(position) by {
            before.lemma_in_use(position);
        }
        self.table_arena.recycle_unreferenced_positions(&live);
        proof {
            assert(self@ == before@);
            assert forall|i: int| 0 <= i < self.table_arena.free@.len() implies !self@.in_use(
                #[trigger] self.table_arena.free@[i],
            ) by {
                assert(self.table_arena.free@.contains(self.table_arena.free@[i]));
            }
        }
        Ok(())
    }
}

/// Whether the columns stand at the positions of the schema.
pub open spec fn holds_columns(
    arena: ArenaView,
    schema: Seq<ColumnRef>,
    columns: Seq<ColumnView>,
) -> bool {
    &&& schema.len() == columns.len()
    &&& forall|i: int|
        0 <= i < schema.len() ==> arena.has_column(#[trigger] schema[i])
            && arena.columns[schema[i].0 as int] == columns[i]
}

impl<S> State<S> {
    /// The known scalar functions.
    pub fn scala_functions(&self) -> (res: &ScalaFunctions)
        ensures
            *res == self.scala_functions,
    {
        &self.scala_functions
    }

    /// The known table functions.
    pub fn table_functions(&self) -> (res: &TableFunctions)
        ensures
            *res == self.table_functions,
    {
        &self.table_functions
    }

    /// The known statistics.
    pub fn meta_cache(&self) -> (res: &StatisticsMetaCache)
        ensures
            *res == self.meta_cache,
    {
        &self.meta_cache
    }

    /// The known tables.
    pub fn table_cache(&self) -> (res: &TableCache)
        ensures
            *res == self.table_cache,
    {
        &self.table_cache
    }

    /// The known views.
    pub fn view_cache(&self) -> (res: &ViewCache)
        ensures
            *res == self.view_cache,
    {
        &self.view_cache
    }

    /// The columns, indexes and expressions that the catalog refers to.
    pub fn table_arena(&self) -> (res: &TableArena)
        ensures
            *res == self.table_arena,
    {
        &self.table_arena
    }
}

impl<S> State<S> {
    /// Registers a scalar function, in place of one with the same name and arguments.
    pub fn load_scalar_function(&mut self, function: ScalarFunction)
        requires
            old(self).wf(),
        ensures
            final(self)@ == (StateView {
                scalars: old(self)@.scalars.insert(function.summary.name(), function),
                ..old(self)@
            }),
            final(self).wf(),
    {
        let ghost before = *self;
        self.scala_functions.insert(function.summary.copy(), function);
        assert(self@ == StateView {
            scalars: before@.scalars.insert(function.summary.name(), function),
            ..before@
        });
        assert forall|i: int| 0 <= i < self.table_arena.free@.len() implies !self@.in_use(
            #[trigger] self.table_arena.free@[i],
        ) by {
            assert(!before@.in_use(before.table_arena.free@[i]));
        }
    }

    fn alloc_columns(&mut self, columns: Vec<ColumnCatalog>) -> (res: Vec<ColumnRef>)
        requires
            old(self).wf(),
            forall|i: int|
                0 <= i < columns@.len() ==> old(self)@.arena.fits_column(
                    (#[trigger] columns@[i])@,
                ),
        ensures
            final(self)@ == (StateView { arena: final(self)@.arena, ..old(self)@ }),
            holds_columns(final(self)@.arena, res@, column_views(columns@)),
            fills(old(self).table_arena, final(self).table_arena),
            final(self)@.arena.exprs == old(self)@.arena.exprs,
            final(self).wf(),
            forall|i: int|
                0 <= i < res@.len() ==> !final(self).table_arena.free@.contains(
                    (#[trigger] res@[i]).0,
                ),
    {
        let ghost before = *self;
        let ghost all = columns@;
        let mut columns = columns;
        let mut rest: Vec<ColumnCatalog> = Vec::new();
        while columns.len() > 0
            invariant
                columns@ + rest@.reverse() =~= all,
            decreases columns.len(),
        {
            let ghost whole = columns@ + rest@.reverse();
            let column = columns.pop().unwrap();
            rest.push(column);
            assert(columns@ + rest@.reverse() =~= whole);
        }
        assert(rest@.reverse() =~= all);
        let mut out: Vec<ColumnRef> = Vec::new();
        while rest.len() > 0
            invariant
                out@.len() + rest@.len() == all.len(),
                rest@.reverse() =~= all.skip(out@.len() as int),
                forall|i: int|
                    0 <= i < all.len() ==> before@.arena.fits_column((#[trigger] all[i])@),
                self.solid(),
                self@ == (StateView { arena: self@.arena, ..before@ }),
                self@.arena.exprs == before@.arena.exprs,
                before@.arena.within(self@.arena),
                forall|p: int|
                    0 <= p < before@.arena.columns.len() && !before.table_arena.free@.contains(
                        p as usize,
                    ) ==> #[trigger] self@.arena.columns[p] == before@.arena.columns[p],
                forall|p: usize| #[trigger]
                    self.table_arena.free@.contains(p) ==> before.table_arena.free@.contains(p),
                holds_columns(
                    self@.arena,
                    out@,
                    column_views(all.take(out@.len() as int)),
                ),
                forall|i: int|
                    0 <= i < out@.len() ==> !self.table_arena.free@.contains(
                        (#[trigger] out@[i]).0,
                    ),
                before.wf(),
            decreases rest.len(),
        {
            let ghost whole = rest@;
            let ghost step = *self;
            let ghost done = out@;
            let column = rest.pop().unwrap();
            proof {
                assert(whole.reverse()[0] == column);
                assert(all.skip(done.len() as int)[0] == all[done.len() as int]);
                assert(before@.arena.fits_column(all[done.len() as int]@));
                assert(rest@.reverse() =~= all.skip(done.len() as int + 1)) by {
                    assert forall|i: int| 0 <= i < rest@.len() implies rest@.reverse()[i]
                        == all.skip(done.len() as int + 1)[i] by {
                        assert(rest@.reverse()[i] == whole.reverse()[i + 1]);
                    }
                }
            }
            let res = self.table_arena.alloc_column(column);
            out.push(res);
            proof {
                lemma_solid_within(step, *self);
                let free = step.table_arena.free@;
                if free.len() > 0 {
                    assert(free[free.len() - 1] == res.0);
                    assert(free.contains(res.0));
                    assert(before.table_arena.free@.contains(res.0));
                    assert forall|p: usize| #[trigger] self.table_arena.free@.contains(p) implies
                        free.contains(p) && p != res.0 by {
                        let k = choose|k: int| 0 <= k < free.len() - 1 && free[k] == p;
                        assert(free[k] == p);
                    }
                } else {
                    assert forall|p: usize| !self.table_arena.free@.contains(p) by {}
                }
                let views = column_views(all.take(out@.len() as int));
                assert forall|i: int| 0 <= i < out@.len() implies self@.arena.has_column(
                    #[trigger] out@[i],
                ) && self@.arena.columns[out@[i].0 as int] == views[i] by {
                    if i < done.len() {
                        assert(step@.arena.has_column(done[i]));
                        assert(step@.arena.columns[done[i].0 as int] == column_views(
                            all.take(done.len() as int),
                        )[i]);
                        assert(!free.contains(done[i].0));
                    }
                }
                assert forall|i: int| 0 <= i < out@.len() implies !self.table_arena.free@.contains(
                    (#[trigger] out@[i]).0,
                ) by {
                    if i < done.len() {
                        assert(!free.contains(done[i].0));
                    }
                }
            }
        }
        proof {
            assert(all.take(out@.len() as int) =~= all);
            assert forall|i: int| 0 <= i < self.table_arena.free@.len() implies !self@.in_use(
                #[trigger] self.table_arena.free@[i],
            ) by {
                let position = self.table_arena.free@[i];
                assert(self.table_arena.free@.contains(position));
                let k = choose|k: int|
                    0 <= k < before.table_arena.free@.len() && before.table_arena.free@[k]
                        == position;
                assert(!before@.in_use(before.table_arena.free@[k]));
            }
        }
        out
    }

    /// Registers a function that delivers rows, in place of one with the same name and arguments.
    pub fn load_table_function(&mut self, function: RowSource) -> (res: Result<(), DatabaseError>)
        requires
            old(self).wf(),
            forall|i: int|
                0 <= i < function.columns@.len() ==> old(self)@.arena.fits_column(
                    (#[trigger] function.columns@[i])@,
                ),
        ensures
            res is Ok,
            exists|loaded: TableFunction|
                {
                    &&& loaded.summary == function.summary
                    &&& holds_columns(
                        final(self)@.arena,
                        loaded.schema@,
                        column_views(function.columns@),
                    )
                    &&& final(self)@ == (StateView {
                        row_sources: #[trigger] old(self)@.row_sources.insert(
                            function.summary.name(),
                            loaded,
                        ),
                        arena: final(self)@.arena,
                        ..old(self)@
                    })
                },
            fills(old(self).table_arena, final(self).table_arena),
            final(self).wf(),
    {
        let ghost before = *self;
        let RowSource { summary, columns } = function;
        let schema = self.alloc_columns(columns);
        let ghost middle = *self;
        let loaded = TableFunction { summary, schema };
        self.table_functions.insert(loaded.summary.copy(), loaded);
        proof {
            let after = self@;
            assert(after == StateView {
                row_sources: before@.row_sources.insert(summary.name(), loaded),
                ..middle@
            });
            assert(after.arena.has_columns(schema@));
            assert(after.known()) by {
                assert forall|name: (Seq<char>, Seq<LogicalTypeView>)| #[trigger]
                    after.row_sources.contains_key(name) implies after.arena.has_columns(
                    after.row_sources[name].schema@,
                ) by {
                    if name != summary.name() {
                        assert(middle@.row_sources.contains_key(name));
                    }
                }
            }
            assert forall|i: int| 0 <= i < self.table_arena.free@.len() implies !after.in_use(
                #[trigger] self.table_arena.free@[i],
            ) by {
                let position = self.table_arena.free@[i];
                assert(!middle@.in_use(middle.table_arena.free@[i]));
                assert(middle.table_arena.free@.contains(position));
                if after.in_use(position) {
                    if exists|name: (Seq<char>, Seq<LogicalTypeView>)| #[trigger]
                        after.row_sources.contains_key(name) && uses(
                            after.row_sources[name].schema@,
                            position,
                        ) {
                        let name = choose|name: (Seq<char>, Seq<LogicalTypeView>)| #[trigger]
                            after.row_sources.contains_key(name) && uses(
                                after.row_sources[name].schema@,
                                position,
                            );
                        if name == summary.name() {
                            let k = choose|k: int|
                                0 <= k < schema@.len() && (#[trigger] schema@[k]).0 == position;
                            assert(!middle.table_arena.free@.contains(schema@[k].0));
                            assert(false);
                        } else {
                            assert(middle@.row_sources.contains_key(name));
                            assert(middle@.in_use(position));
                        }
                    } else {
                        assert(middle@.in_use(position));
                    }
                }
            }
        }
        Ok(())
    }
}

/// A catalog stays solid when only its arena grows.
proof fn lemma_solid_within<S>(before: State<S>, after: State<S>)
    requires
        before.solid(),
        after == (State { table_arena: after.table_arena, ..before }),
        after@.arena.steady(),
        after.table_arena.free_fits(),
        before@.arena.within(after@.arena),
    ensures
        after.solid(),
{
    assert forall|name: Seq<char>| #[trigger] after@.tables.contains_key(name) implies table_known(
        after@.tables[name],
        after@.arena,
    ) by {
        assert(table_known(before@.tables[name], before@.arena));
    }
    assert forall|name: Seq<char>| #[trigger] after@.views.contains_key(name) implies view_known(
        after@.views[name],
        after@.arena,
    ) by {
        assert(view_known(before@.views[name], before@.arena));
        lemma_plan_valid_within(before@.views[name].plan@, before@.arena, after@.arena);
    }
    assert forall|name: (Seq<char>, Seq<LogicalTypeView>)| #[trigger]
        after@.row_sources.contains_key(name) implies after@.arena.has_columns(
        after@.row_sources[name].schema@,
    ) by {
        assert(before@.arena.has_columns(before@.row_sources[name].schema@));
    }
}

/// What is added to the arena leaves the catalog in order.
pub proof fn lemma_wf_filled<S>(before: State<S>, after: State<S>)
    requires
        before.wf(),
        after == (State { table_arena: after.table_arena, ..before }),
        fills(before.table_arena, after.table_arena),
    ensures
        after.wf(),
{
    lemma_solid_within(before, after);
    assert forall|i: int| 0 <= i < after.table_arena.free@.len() implies !after@.in_use(
        #[trigger] after.table_arena.free@[i],
    ) by {
        let position = after.table_arena.free@[i];
        assert(after.table_arena.free@.contains(position));
        let k = choose|k: int|
            0 <= k < before.table_arena.free@.len() && before.table_arena.free@[k] == position;
        assert(!before@.in_use(before.table_arena.free@[k]));
        if exists|name: Seq<char>| #[trigger]
            after@.views.contains_key(name)
                && view_uses(after@.views[name], after@.arena, position) {
            let name = choose|name: Seq<char>| #[trigger]
                after@.views.contains_key(name) && view_uses(
                    after@.views[name],
                    after@.arena,
                    position,
                );
            assert(before@.views.contains_key(name));
            assert(view_known(before@.views[name], before@.arena));
            lemma_plan_columns_extend(before@.views[name].plan@, before@.arena, after@.arena);
            assert(before@.in_use(position));
        }
        assert(before@.tables == after@.tables && before@.row_sources == after@.row_sources);
        if after@.in_use(position) {
            assert(before@.in_use(position));
        }
    }
}

/// What is added to the arena leaves the columns that the catalog refers to as they are.
pub proof fn columns_in_use_stay<S>(before: State<S>, after: TableArena, position: usize)
    requires
        before.wf(),
        fills(before.table_arena, after),
        before@.in_use(position),
        position < before@.arena.columns.len(),
    ensures
        after@.columns[position as int] == before@.arena.columns[position as int],
{
    if before.table_arena.free@.contains(position) {
        let k = choose|k: int|
            0 <= k < before.table_arena.free@.len() && before.table_arena.free@[k] == position;
        assert(!before@.in_use(before.table_arena.free@[k]));
    }
    assert(!before.table_arena.free@.contains((position as int) as usize));
}

impl DDLApply {
    /// Makes the change, and says whether it adds or removes a table or a view.
    pub fn apply_to<S>(self, state: &mut State<S>, plan_arena: &PlanArena) -> (res: Result<
        bool,
        DatabaseError,
    >)
        requires
            old(state).wf(),
            plan_arena@.steady(),
            old(state)@.arena.within(plan_arena@),
            noted_known(self, plan_arena@),
        ensures
            res == Ok::<bool, DatabaseError>(changes_catalog(self)),
            final(state)@ == old(state)@.changed(self, plan_arena@),
            final(state).wf(),
            final(state)@.arena.within(plan_arena@),
    {
        let ghost before = *state;
        proof {
            lemma_changed_known(state@, self, plan_arena@);
        }
        let mut catalog_changed = false;
        match self {
            DDLApply::UpsertTable { table, clear_statistics } => {
                let name = table.name.clone();
                plan_arena.materialize_into_table_arena(&mut state.table_arena);
                state.table_cache.insert(name.clone(), table);
                if clear_statistics {
                    state.meta_cache.forget_table(&name);
                }
                catalog_changed = true;
            },
            DDLApply::DropTable { name } => {
                state.table_cache.remove(&name);
                state.meta_cache.forget_table(&name);
                catalog_changed = true;
            },
            DDLApply::UpsertView { view } => {
                let name = view.name.clone();
                plan_arena.materialize_into_table_arena(&mut state.table_arena);
                state.view_cache.insert(name, view);
                catalog_changed = true;
            },
            DDLApply::DropView { name } => {
                state.view_cache.remove(&name);
                catalog_changed = true;
            },
            DDLApply::UpsertStatisticsMeta { table_name, index_id, meta } => {
                state.meta_cache.insert((table_name, index_id), meta);
            },
            DDLApply::RemoveStatisticsMeta { table_name, index_id } => {
                state.meta_cache.remove(&(table_name, index_id));
            },
        }
        proof {
            assert(state@ == before@.changed(self, plan_arena@));
            assert forall|i: int| 0 <= i < state.table_arena.free@.len() implies !state@.in_use(
                #[trigger] state.table_arena.free@[i],
            ) by {
                assert(!before@.in_use(before.table_arena.free@[i]));
                let position = state.table_arena.free@[i];
                if state@.in_use(position) {
                    if exists|name: Seq<char>| #[trigger]
                        state@.tables.contains_key(name) && uses(
                            state@.tables[name].columns@,
                            position,
                        ) {
                        let name = choose|name: Seq<char>| #[trigger]
                            state@.tables.contains_key(name) && uses(
                                state@.tables[name].columns@,
                                position,
                            );
                        assert(before@.tables.contains_key(name));
                    } else if exists|name: Seq<char>| #[trigger]
                        state@.views.contains_key(name) && view_uses(
                            state@.views[name],
                            state@.arena,
                            position,
                        ) {
                        let name = choose|name: Seq<char>| #[trigger]
                            state@.views.contains_key(name) && view_uses(
                                state@.views[name],
                                state@.arena,
                                position,
                            );
                        assert(before@.views.contains_key(name));
                    }
                }
            }
        }
        Ok(catalog_changed)
    }
}

/// Makes changes one after the other, and says whether one of them adds or removes a table or a
/// view.
pub fn apply_all<S>(applies: Vec<DDLApply>, state: &mut State<S>,
    plan_arena: &PlanArena) -> (res: Result<
    bool,
    DatabaseError,
>)
    requires
        old(state).wf(),
        plan_arena@.steady(),
        old(state)@.arena.within(plan_arena@),
        all_noted_known(applies@, plan_arena@),
    ensures
        res == Ok::<bool, DatabaseError>(any_changes_catalog(applies@)),
        final(state)@ == old(state)@.changed_by(applies@, plan_arena@),
        final(state).wf(),
{
    let ghost all = applies@;
    let ghost start = state@;
    let mut applies = applies;
    let mut rest: Vec<DDLApply> = Vec::new();
    while applies.len() > 0
        invariant
            applies@ + rest@.reverse() =~= all,
        decreases applies.len(),
    {
        let ghost whole = applies@ + rest@.reverse();
        let apply = applies.pop().unwrap();
        rest.push(apply);
        assert(applies@ + rest@.reverse() =~= whole);
    }
    assert(rest@.reverse() =~= all);
    let mut catalog_changed = false;
    let ghost mut done: int = 0;
    assert(all.take(0) =~= Seq::empty());
    while rest.len() > 0
        invariant
            done + rest@.len() == all.len(),
            0 <= done,
            rest@.reverse() =~= all.skip(done),
            all_noted_known(all, plan_arena@),
            plan_arena@.steady(),
            state.wf(),
            state@.arena.within(plan_arena@),
            state@ == start.changed_by(all.take(done), plan_arena@),
            catalog_changed == any_changes_catalog(all.take(done)),
        decreases rest.len(),
    {
        let ghost whole = rest@;
        let apply = rest.pop().unwrap();
        proof {
            assert(whole.reverse()[0] == apply);
            assert(all.skip(done)[0] == all[done]);
            assert(noted_known(all[done], plan_arena@));
            assert(rest@.reverse() =~= all.skip(done + 1)) by {
                assert forall|i: int| 0 <= i < rest@.len() implies rest@.reverse()[i] == all.skip(
                    done + 1,
                )[i] by {
                    assert(rest@.reverse()[i] == whole.reverse()[i + 1]);
                }
            }
            let next = all.take(done + 1);
            assert(next.drop_last() =~= all.take(done));
            assert(next.last() == apply);
            if any_changes_catalog(all.take(done)) {
                let k = choose|k: int|
                    0 <= k < all.take(done).len() && changes_catalog(#[trigger] all.take(done)[k]);
                assert(changes_catalog(next[k]));
            }
            if changes_catalog(apply) {
                assert(changes_catalog(next[done]));
            }
            if any_changes_catalog(next) && !changes_catalog(apply) {
                let k = choose|k: int| 0 <= k < next.len() && changes_catalog(#[trigger] next[k]);
                assert(changes_catalog(all.take(done)[k]));
            }
            done = done + 1;
        }
        match apply.apply_to(state, plan_arena) {
            Ok(changed) => {
                catalog_changed = catalog_changed || changed;
            },
            Err(err) => {
                return Err(err);
            },
        }
    }
    assert(all.take(done) =~= all);
    Ok(catalog_changed)
}

} // verus!
