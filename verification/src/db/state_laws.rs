//! What changes of the catalog change, and what they leave as it is; and the order of the rules that
//! every statement goes through.

use crate::catalog::TableName;
use crate::db::database::{loads_table, loads_view, with_statistics};
use crate::db::pipeline::default_pipeline;
use crate::db::run::with_buckets;
use crate::errors::DatabaseError;
use crate::planner::operator::OperatorView;
use crate::planner::PlanView;
use crate::storage::{StatisticsMeta, Transaction};
use crate::db::state::{any_changes_catalog, changes_catalog, StateView};
use crate::execution::DDLApply;
use crate::optimizer::heuristic::batch::{rules_of, steps_keep_rules};
use crate::optimizer::heuristic::passes::BatchView;
use crate::optimizer::rule::normalization::NormalizationRuleImpl;
use crate::planner::arena::{ArenaView, TableArena};
use crate::types::index::IndexId;
use vstd::prelude::*;

verus! {

/// After a change a table is known exactly if it was written by the change, or was known before and
/// was not dropped by it; and it is what was written, or what it was before.
pub proof fn changed_tables_are_those_written(
    state: StateView,
    apply: DDLApply,
    arena: ArenaView,
    name: Seq<char>,
)
    ensures
        ({
            let after = state.changed(apply, arena);
            let written = apply is UpsertTable && apply->table.name@ == name;
            let dropped = apply is DropTable && apply->DropTable_name@ == name;
            &&& after.tables.contains_key(name) <==> written || (state.tables.contains_key(name)
                && !dropped)
            &&& written ==> after.tables[name] == apply->table
            &&& !written && !dropped && state.tables.contains_key(name) ==> after.tables[name]
                == state.tables[name]
        }),
{
}

/// After a change a view is known exactly if it was written by the change, or was known before and
/// was not dropped by it; and it is what was written, or what it was before.
pub proof fn changed_views_are_those_written(
    state: StateView,
    apply: DDLApply,
    arena: ArenaView,
    name: Seq<char>,
)
    ensures
        ({
            let after = state.changed(apply, arena);
            let written = apply is UpsertView && apply->view.name@ == name;
            let dropped = apply is DropView && apply->DropView_name@ == name;
            &&& after.views.contains_key(name) <==> written || (state.views.contains_key(name)
                && !dropped)
            &&& written ==> after.views[name] == apply->view
            &&& !written && !dropped && state.views.contains_key(name) ==> after.views[name]
                == state.views[name]
        }),
{
}

/// Statistics are known after a change exactly if they were written by it, or were known before and
/// neither removed by it nor forgotten with their table.
pub proof fn changed_statistics_are_those_written(
    state: StateView,
    apply: DDLApply,
    arena: ArenaView,
    name: Seq<char>,
    index: IndexId,
)
    ensures
        ({
            let after = state.changed(apply, arena);
            let key = (name, index);
            let written = apply matches DDLApply::UpsertStatisticsMeta { table_name, index_id, .. }
                && table_name@ == name && index_id == index;
            let removed = apply matches DDLApply::RemoveStatisticsMeta { table_name, index_id }
                && table_name@ == name && index_id == index;
            let lost = match apply {
                DDLApply::UpsertTable { table, clear_statistics } => clear_statistics
                    && table.name@ == name,
                DDLApply::DropTable { name: dropped } => dropped@ == name,
                _ => false,
            };
            &&& after.statistics.contains_key(key) <==> written || (state.statistics.contains_key(
                key,
            ) && !removed && !lost)
            &&& written ==> after.statistics[key] == apply->meta
            &&& !written && after.statistics.contains_key(key) ==> after.statistics[key]
                == state.statistics[key]
        }),
{
}

/// No change touches functions, rules or settings, and one that touches tables or views says so.
pub proof fn changes_say_what_they_touch(state: StateView, apply: DDLApply, arena: ArenaView)
    ensures
        ({
            let after = state.changed(apply, arena);
            &&& after.scalars == state.scalars
            &&& after.row_sources == state.row_sources
            &&& after.pipeline == state.pipeline
            &&& after.buckets == state.buckets
            &&& after.arena == state.arena || after.arena == arena
            &&& !changes_catalog(apply) ==> after.tables == state.tables && after.views
                == state.views && after.arena == state.arena
            &&& changes_catalog(apply) <==> apply is UpsertTable || apply is DropTable || apply
                is UpsertView || apply is DropView
        }),
{
}

/// Changes are made one after the other: those of two lists together are those of the first and then
/// those of the second.
pub proof fn changes_follow_each_other(
    state: StateView,
    first: Seq<DDLApply>,
    second: Seq<DDLApply>,
    arena: ArenaView,
)
    ensures
        state.changed_by(first + second, arena) == state.changed_by(first, arena).changed_by(
            second,
            arena,
        ),
        any_changes_catalog(first + second) <==> any_changes_catalog(first) || any_changes_catalog(
            second,
        ),
    decreases second.len(),
{
    let all = first + second;
    if second.len() > 0 {
        changes_follow_each_other(state, first, second.drop_last(), arena);
        assert(all.drop_last() =~= first + second.drop_last());
        assert(all.last() == second.last());
    } else {
        assert(all =~= first);
    }
    if any_changes_catalog(first) {
        let i = choose|i: int| 0 <= i < first.len() && changes_catalog(#[trigger] first[i]);
        assert(changes_catalog(all[i]));
    }
    if any_changes_catalog(second) {
        let i = choose|i: int| 0 <= i < second.len() && changes_catalog(#[trigger] second[i]);
        assert(all[first.len() + i] == second[i]);
        assert(changes_catalog(all[first.len() + i]));
    }
    if any_changes_catalog(all) {
        let i = choose|i: int| 0 <= i < all.len() && changes_catalog(#[trigger] all[i]);
        if i < first.len() {
            assert(changes_catalog(first[i]));
        } else {
            assert(changes_catalog(second[i - first.len()]));
        }
    }
}

/// The last of several changes of a table decides whether it is known.
pub proof fn last_change_of_a_table_decides(
    state: StateView,
    applies: Seq<DDLApply>,
    name: TableName,
    arena: ArenaView,
)
    ensures
        !state.changed_by(applies.push(DDLApply::DropTable { name }), arena).tables.contains_key(
            name@,
        ),
{
    let all = applies.push(DDLApply::DropTable { name });
    assert(all.drop_last() =~= applies);
}

/// All batches of the default rules, in the order in which they run.
pub open spec fn default_batches() -> Seq<BatchView> {
    default_pipeline().before + default_pipeline().after
}

/// Whether the rule is one of those of the batch at the position.
pub open spec fn runs_in(rule: NormalizationRuleImpl, at: int) -> bool {
    &&& 0 <= at < default_batches().len()
    &&& rules_of(default_batches()[at].steps).contains(rule)
}

/// The position of the batch that a rule runs in.
pub open spec fn batch_of(rule: NormalizationRuleImpl) -> int {
    match rule {
        NormalizationRuleImpl::ColumnPruning => 0,
        NormalizationRuleImpl::SimplifyFilter => 1,
        NormalizationRuleImpl::ConstantCalculation => 2,
        NormalizationRuleImpl::PushPredicateThroughJoin
        | NormalizationRuleImpl::PushJoinPredicateIntoScan
        | NormalizationRuleImpl::PushPredicateIntoScan => 3,
        NormalizationRuleImpl::LimitProjectTranspose
        | NormalizationRuleImpl::PushLimitThroughJoin => 4,
        NormalizationRuleImpl::MinMaxToTopK | NormalizationRuleImpl::TopK => 5,
        NormalizationRuleImpl::CollapseProject | NormalizationRuleImpl::CollapseGroupByAgg
        | NormalizationRuleImpl::CombineFilter => 6,
        NormalizationRuleImpl::ParameterizeMarkApply
        | NormalizationRuleImpl::ParameterizeInnerJoin => 7,
        NormalizationRuleImpl::EliminateIndexFilter => 8,
        NormalizationRuleImpl::EvaluatorBind => 9,
        NormalizationRuleImpl::PushLimitIntoTableScan => 10,
    }
}

/// Every rule runs in just one batch. Columns are pruned before anything else; ranges are pushed into
/// scans before ways to carry out operators are chosen; and filters are cut only after the last lookup
/// was chosen.
pub proof fn every_rule_runs_in_its_turn(rule: NormalizationRuleImpl, at: int)
    ensures
        runs_in(rule, at) <==> at == batch_of(rule),
        batch_of(NormalizationRuleImpl::ColumnPruning) == 0,
        batch_of(NormalizationRuleImpl::PushPredicateThroughJoin)
            < default_pipeline().before.len(),
        batch_of(NormalizationRuleImpl::PushPredicateIntoScan) < default_pipeline().before.len()
            <= batch_of(NormalizationRuleImpl::ParameterizeInnerJoin) < batch_of(
            NormalizationRuleImpl::EliminateIndexFilter,
        ) < batch_of(NormalizationRuleImpl::EvaluatorBind),
{
    let lists = default_rules();
    if 0 <= at < default_batches().len() {
        steps_keep_rules(lists[at]);
        assert(rules_of(default_batches()[at].steps) == lists[at]);
    }
    if runs_in(rule, at) {
        let k = choose|k: int| 0 <= k < lists[at].len() && lists[at][k] == rule;
        assert(lists[at][k] == rule);
        assert(at == batch_of(rule));
    }
    let own = batch_of(rule);
    if at == own {
        assert(lists[own][0] == rule || lists[own][1] == rule || lists[own][2] == rule);
    }
}

/// The rules of the default batches.
spec fn default_rules() -> Seq<Seq<NormalizationRuleImpl>> {
    seq![
        seq![NormalizationRuleImpl::ColumnPruning],
        seq![NormalizationRuleImpl::SimplifyFilter],
        seq![NormalizationRuleImpl::ConstantCalculation],
        seq![
            NormalizationRuleImpl::PushPredicateThroughJoin,
            NormalizationRuleImpl::PushJoinPredicateIntoScan,
            NormalizationRuleImpl::PushPredicateIntoScan,
        ],
        seq![
            NormalizationRuleImpl::LimitProjectTranspose,
            NormalizationRuleImpl::PushLimitThroughJoin,
        ],
        seq![NormalizationRuleImpl::MinMaxToTopK, NormalizationRuleImpl::TopK],
        seq![
            NormalizationRuleImpl::CollapseProject,
            NormalizationRuleImpl::CollapseGroupByAgg,
            NormalizationRuleImpl::CombineFilter,
        ],
        seq![
            NormalizationRuleImpl::ParameterizeMarkApply,
            NormalizationRuleImpl::ParameterizeInnerJoin,
        ],
        seq![NormalizationRuleImpl::EliminateIndexFilter],
        seq![NormalizationRuleImpl::EvaluatorBind],
        seq![NormalizationRuleImpl::PushLimitIntoTableScan],
    ]
}

/// Statistics that were read are known under their table and index; those of other tables stay.
pub proof fn read_statistics_are_known(
    statistics: Map<(Seq<char>, IndexId), StatisticsMeta>,
    name: Seq<char>,
    ids: Seq<IndexId>,
    metas: Seq<Option<StatisticsMeta>>,
    key: (Seq<char>, IndexId),
)
    requires
        metas.len() <= ids.len(),
    ensures
        ({
            let after = with_statistics(statistics, name, ids, metas);
            let read = key.0 == name && exists|i: int|
                0 <= i < metas.len() && #[trigger] metas[i] is Some && ids[i] == key.1;
            &&& after.contains_key(key) <==> read || statistics.contains_key(key)
            &&& read ==> exists|i: int|
                0 <= i < metas.len() && #[trigger] metas[i] == Some(after[key]) && ids[i] == key.1
            &&& !read && statistics.contains_key(key) ==> after[key] == statistics[key]
        }),
    decreases metas.len(),
{
    let after = with_statistics(statistics, name, ids, metas);
    if metas.len() > 0 {
        let front = metas.drop_last();
        read_statistics_are_known(statistics, name, ids, front, key);
        let before = with_statistics(statistics, name, ids, front);
        let last = metas.len() - 1;
        if metas[last] is Some && key == (name, ids[last]) {
            assert(metas[last] == Some(after[key]));
        } else {
            assert(after.contains_key(key) == before.contains_key(key));
            if exists|i: int| 0 <= i < front.len() && #[trigger] front[i] is Some && ids[i] == key.1 {
                let i = choose|i: int|
                    0 <= i < front.len() && #[trigger] front[i] is Some && ids[i] == key.1;
                assert(metas[i] is Some);
                if key.0 == name {
                    let j = choose|j: int|
                        0 <= j < front.len() && #[trigger] front[j] == Some(before[key]) && ids[j]
                            == key.1;
                    assert(metas[j] == Some(after[key]));
                }
            }
            if exists|i: int| 0 <= i < metas.len() && #[trigger] metas[i] is Some && ids[i] == key.1 {
                let i = choose|i: int|
                    0 <= i < metas.len() && #[trigger] metas[i] is Some && ids[i] == key.1;
                if key.0 == name {
                    assert(i < front.len());
                    assert(front[i] is Some);
                }
            }
        }
    }
}

/// A table that was loaded is known, and where loading fails, no table is known that was not before.
/// Other tables, views and functions stay in any case.
pub proof fn loading_a_table_adds_it<T: Transaction>(
    transaction: T,
    name: Seq<char>,
    arena: TableArena,
    before: StateView,
    after: StateView,
    res: Result<(), DatabaseError>,
    other: Seq<char>,
)
    requires
        loads_table(transaction, name, arena, before, after, res),
    ensures
        res is Ok ==> after.tables.contains_key(name),
        res is Err ==> after.tables == before.tables,
        other != name ==> after.tables.contains_key(other) == before.tables.contains_key(other) && (
        before.tables.contains_key(other) ==> after.tables[other] == before.tables[other]),
        after.views == before.views,
        after.scalars == before.scalars,
        after.row_sources == before.row_sources,
        after.pipeline == before.pipeline,
        after.buckets == before.buckets,
{
}

/// A view that was loaded is known, and where loading fails, the known views stay. Other views and
/// tables stay in any case.
pub proof fn loading_a_view_adds_it<T: Transaction>(
    transaction: T,
    name: Seq<char>,
    arena: TableArena,
    before: StateView,
    after: StateView,
    res: Result<(), DatabaseError>,
    other: Seq<char>,
)
    requires
        loads_view(transaction, name, arena, before, after, res),
    ensures
        res is Ok ==> after.views.contains_key(name),
        res is Err ==> after.views == before.views,
        other != name ==> after.views.contains_key(other) == before.views.contains_key(other) && (
        before.views.contains_key(other) ==> after.views[other] == before.views[other]),
        after.tables == before.tables,
        after.statistics == before.statistics,
        after.scalars == before.scalars,
        after.row_sources == before.row_sources,
{
}

/// A statement that collects statistics uses the number of buckets that it names, else that of the
/// database; any other statement stays as it is.
pub proof fn named_buckets_come_first(plan: PlanView, buckets: Option<usize>)
    ensures
        ({
            let after = with_buckets(plan, buckets);
            &&& after.children == plan.children
            &&& after.physical == plan.physical
            &&& after.schema == plan.schema
            &&& match (plan.operator, after.operator) {
                (OperatorView::Analyze(op), OperatorView::Analyze(used)) => {
                    &&& used.table_name == op.table_name
                    &&& used.index_metas == op.index_metas
                    &&& op.histogram_buckets is Some ==> used.histogram_buckets
                        == op.histogram_buckets
                    &&& op.histogram_buckets is None ==> used.histogram_buckets == buckets
                },
                (operator, same) => operator == same && !(operator is Analyze),
            }
        }),
{
}

} // verus!
