//! Which executors a plan needs.

use crate::execution::node::{Building, ExecNode, ExecutorNode};
use crate::execution::{stays_steady, ExecArena, ExecArenaView, ExecId, ExecutionContext};
use crate::optimizer::rule::normalization::elimination::SPILL;
use crate::planner::arena::PlanArena;
use crate::planner::operator::aggregate::AggregateOperator;
use crate::planner::operator::ddl::{
    AddColumnOperator, ChangeColumnOperator, CreateIndexOperator, CreateTableOperator,
    CreateViewOperator, DescribeOperator, DropColumnOperator, DropIndexOperator, DropTableOperator,
    DropViewOperator, TruncateOperator,
};
use crate::planner::operator::dml::{
    AnalyzeOperator, CopyFromFileOperator, CopyToFileOperator, DeleteOperator, InsertOperator,
    UpdateOperator,
};
use crate::planner::operator::filter::FilterOperator;
use crate::planner::operator::join::{JoinCondition, JoinOperator};
use crate::planner::operator::limit::LimitOperator;
use crate::planner::operator::mark_apply::MarkApplyOperator;
use crate::planner::operator::project::ProjectOperator;
use crate::planner::operator::set_operation::{RecursiveScanOperator, SetMembershipKind};
use crate::planner::operator::sort::SortOperator;
use crate::planner::operator::table_scan::{FunctionScanOperator, TableScanOperator};
use crate::planner::operator::top_k::TopKOperator;
use crate::planner::operator::values::ValuesOperator;
use crate::planner::operator::window::WindowOperator;
use crate::planner::operator::{
    Operator, PhysicalOption, PlanImpl, ScalarApplyOperator, ScalarSubqueryOperator,
};
use crate::planner::{Childrens, LogicalPlan};
use crate::types::index::{IndexLookup, IndexMetaRef, TupleValueSerializableImpl};
use vstd::prelude::*;

verus! {

/// An executor to be built, with what it is built from.
#[derive(Debug)]
pub enum ExecInput {
    Dummy,
    SimpleAgg(AggregateOperator, LogicalPlan),
    StreamDistinct(AggregateOperator, LogicalPlan),
    StreamAgg(AggregateOperator, LogicalPlan),
    HashAgg(AggregateOperator, LogicalPlan),
    Filter(FilterOperator, LogicalPlan),
    ScalarApply(ScalarApplyOperator, LogicalPlan, LogicalPlan),
    MarkApply(MarkApplyOperator, LogicalPlan, LogicalPlan),
    HashJoin(JoinOperator, LogicalPlan, LogicalPlan),
    NestedLoopJoin(JoinOperator, LogicalPlan, LogicalPlan),
    Projection(ProjectOperator, LogicalPlan),
    ScalarSubquery(ScalarSubqueryOperator, LogicalPlan),
    IndexScan {
        op: TableScanOperator,
        meta: IndexMetaRef,
        lookup: IndexLookup,
        covered_deserializers: Option<Vec<TupleValueSerializableImpl>>,
        cover_mapping: Option<Vec<usize>>,
    },
    SeqScan(TableScanOperator),
    FunctionScan(FunctionScanOperator),
    ExternalSort(SortOperator, LogicalPlan),
    Sort(SortOperator, LogicalPlan),
    Limit(LimitOperator, LogicalPlan),
    TopK(TopKOperator, LogicalPlan),
    Values(ValuesOperator),
    Window(WindowOperator, LogicalPlan),
    ShowTables,
    ShowViews,
    Explain(LogicalPlan),
    Describe(DescribeOperator),
    Union(LogicalPlan, LogicalPlan),
    RecursiveCte(LogicalPlan, LogicalPlan),
    RecursiveScan(RecursiveScanOperator),
    SetMembership(SetMembershipKind, LogicalPlan, LogicalPlan),
    Insert(InsertOperator, LogicalPlan),
    Update(UpdateOperator, LogicalPlan),
    Delete(DeleteOperator, LogicalPlan),
    AddColumn(AddColumnOperator),
    ChangeColumn(ChangeColumnOperator),
    DropColumn(DropColumnOperator),
    CreateTable(CreateTableOperator),
    CreateIndex(CreateIndexOperator, LogicalPlan),
    CreateView(CreateViewOperator),
    DropTable(DropTableOperator),
    DropView(DropViewOperator),
    DropIndex(DropIndexOperator),
    Truncate(TruncateOperator),
    CopyFromFile(CopyFromFileOperator),
    CopyToFile(CopyToFileOperator, LogicalPlan),
    Analyze(AnalyzeOperator, LogicalPlan),
}

impl ExecInput {
    /// The place of an executor that was built from this.
    pub open spec fn node<E>(self, exec: E) -> ExecNode<E> {
        match self {
            ExecInput::Dummy => ExecNode::Dummy(exec),
            ExecInput::SimpleAgg(..) => ExecNode::SimpleAgg(exec),
            ExecInput::StreamDistinct(..) => ExecNode::StreamDistinct(exec),
            ExecInput::StreamAgg(..) => ExecNode::StreamAgg(exec),
            ExecInput::HashAgg(..) => ExecNode::HashAgg(exec),
            ExecInput::Filter(..) => ExecNode::Filter(exec),
            ExecInput::ScalarApply(..) => ExecNode::ScalarApply(exec),
            ExecInput::MarkApply(..) => ExecNode::MarkApply(exec),
            ExecInput::HashJoin(..) => ExecNode::HashJoin(exec),
            ExecInput::NestedLoopJoin(..) => ExecNode::NestedLoopJoin(exec),
            ExecInput::Projection(..) => ExecNode::Projection(exec),
            ExecInput::ScalarSubquery(..) => ExecNode::ScalarSubquery(exec),
            ExecInput::IndexScan { .. } => ExecNode::IndexScan(exec),
            ExecInput::SeqScan(..) => ExecNode::SeqScan(exec),
            ExecInput::FunctionScan(..) => ExecNode::FunctionScan(exec),
            ExecInput::ExternalSort(..) => ExecNode::ExternalSort(exec),
            ExecInput::Sort(..) => ExecNode::Sort(exec),
            ExecInput::Limit(..) => ExecNode::Limit(exec),
            ExecInput::TopK(..) => ExecNode::TopK(exec),
            ExecInput::Values(..) => ExecNode::Values(exec),
            ExecInput::Window(..) => ExecNode::Window(exec),
            ExecInput::ShowTables => ExecNode::ShowTables(exec),
            ExecInput::ShowViews => ExecNode::ShowViews(exec),
            ExecInput::Explain(..) => ExecNode::Explain(exec),
            ExecInput::Describe(..) => ExecNode::Describe(exec),
            ExecInput::Union(..) => ExecNode::Union(exec),
            ExecInput::RecursiveCte(..) => ExecNode::RecursiveCte(exec),
            ExecInput::RecursiveScan(..) => ExecNode::RecursiveScan(exec),
            ExecInput::SetMembership(..) => ExecNode::SetMembership(exec),
            ExecInput::Insert(..) => ExecNode::Insert(exec),
            ExecInput::Update(..) => ExecNode::Update(exec),
            ExecInput::Delete(..) => ExecNode::Delete(exec),
            ExecInput::AddColumn(..) => ExecNode::AddColumn(exec),
            ExecInput::ChangeColumn(..) => ExecNode::ChangeColumn(exec),
            ExecInput::DropColumn(..) => ExecNode::DropColumn(exec),
            ExecInput::CreateTable(..) => ExecNode::CreateTable(exec),
            ExecInput::CreateIndex(..) => ExecNode::CreateIndex(exec),
            ExecInput::CreateView(..) => ExecNode::CreateView(exec),
            ExecInput::DropTable(..) => ExecNode::DropTable(exec),
            ExecInput::DropView(..) => ExecNode::DropView(exec),
            ExecInput::DropIndex(..) => ExecNode::DropIndex(exec),
            ExecInput::Truncate(..) => ExecNode::Truncate(exec),
            ExecInput::CopyFromFile(..) => ExecNode::CopyFromFile(exec),
            ExecInput::CopyToFile(..) => ExecNode::CopyToFile(exec),
            ExecInput::Analyze(..) => ExecNode::Analyze(exec),
        }
    }
}

/// Whether the implementation was chosen for the plan.
pub open spec fn chose(option: Option<PhysicalOption>, plan: PlanImpl) -> bool {
    option matches Some(option) && option.plan == plan
}

/// The lookup of an index scan that was chosen for the plan.
pub open spec fn chosen_lookup(option: Option<PhysicalOption>) -> Option<IndexLookup> {
    match option {
        Some(PhysicalOption { plan: PlanImpl::IndexScan(info), .. }) => info.lookup,
        _ => None,
    }
}

/// Whether the join compares columns of both sides for equality.
pub open spec fn has_keys(op: JoinOperator) -> bool {
    op.on matches JoinCondition::On { on, .. } && on@.len() > 0
}

/// The executor of a grouping: without groups a single row; over ordered input streams, as far as
/// they were chosen; else hashing.
pub open spec fn aggregate_input(
    op: AggregateOperator,
    option: Option<PhysicalOption>,
    input: LogicalPlan,
) -> ExecInput {
    if op.groupby_exprs@.len() == 0 {
        ExecInput::SimpleAgg(op, input)
    } else if op.is_distinct && op.agg_calls@.len() == 0 && chose(
        option,
        PlanImpl::StreamDistinct,
    ) {
        ExecInput::StreamDistinct(op, input)
    } else if chose(option, PlanImpl::StreamAggregate) {
        ExecInput::StreamAgg(op, input)
    } else {
        ExecInput::HashAgg(op, input)
    }
}

/// The executor of a plan that only reads.
pub open spec fn read_input(plan: LogicalPlan) -> Option<ExecInput> {
    let option = plan.physical_option;
    match (plan.operator, *plan.childrens) {
        (Operator::Dummy, _) => Some(ExecInput::Dummy),
        (Operator::Aggregate(op), Childrens::Only(input)) => Some(
            aggregate_input(op, option, *input),
        ),
        (Operator::Filter(op), Childrens::Only(input)) => Some(ExecInput::Filter(op, *input)),
        (Operator::ScalarApply(op), Childrens::Twins { left, right }) => Some(
            ExecInput::ScalarApply(op, *left, *right),
        ),
        (Operator::MarkApply(op), Childrens::Twins { left, right }) => Some(
            ExecInput::MarkApply(op, *left, *right),
        ),
        (Operator::Join(op), Childrens::Twins { left, right }) => Some(
            if has_keys(op) && chose(option, PlanImpl::HashJoin) {
                ExecInput::HashJoin(op, *left, *right)
            } else {
                ExecInput::NestedLoopJoin(op, *left, *right)
            },
        ),
        (Operator::Project(op), Childrens::Only(input)) => Some(ExecInput::Projection(op, *input)),
        (Operator::ScalarSubquery(op), Childrens::Only(input)) => Some(
            ExecInput::ScalarSubquery(op, *input),
        ),
        (Operator::TableScan(op), _) => match chosen_lookup(option) {
            Some(lookup) => {
                let info = option->0.plan->IndexScan_0;
                Some(
                    ExecInput::IndexScan {
                        op,
                        meta: info.meta,
                        lookup,
                        covered_deserializers: info.covered_deserializers,
                        cover_mapping: info.cover_mapping,
                    },
                )
            },
            None => Some(ExecInput::SeqScan(op)),
        },
        (Operator::FunctionScan(op), _) => Some(ExecInput::FunctionScan(op)),
        (Operator::Sort(op), Childrens::Only(input)) => Some(
            if SPILL {
                ExecInput::ExternalSort(op, *input)
            } else {
                ExecInput::Sort(op, *input)
            },
        ),
        (Operator::Limit(op), Childrens::Only(input)) => Some(ExecInput::Limit(op, *input)),
        (Operator::TopK(op), Childrens::Only(input)) => Some(ExecInput::TopK(op, *input)),
        (Operator::Values(op), _) => Some(ExecInput::Values(op)),
        (Operator::Window(op), Childrens::Only(input)) => Some(ExecInput::Window(op, *input)),
        (Operator::ShowTable, _) => Some(ExecInput::ShowTables),
        (Operator::ShowView, _) => Some(ExecInput::ShowViews),
        (Operator::Explain, Childrens::Only(input)) => Some(ExecInput::Explain(*input)),
        (Operator::Describe(op), _) => Some(ExecInput::Describe(op)),
        (Operator::Union(_), Childrens::Twins { left, right }) => Some(
            ExecInput::Union(*left, *right),
        ),
        (Operator::RecursiveCte(_), Childrens::Twins { left, right }) => Some(
            ExecInput::RecursiveCte(*left, *right),
        ),
        (Operator::RecursiveScan(op), _) => Some(ExecInput::RecursiveScan(op)),
        (Operator::SetMembership(op), Childrens::Twins { left, right }) => Some(
            ExecInput::SetMembership(op.kind, *left, *right),
        ),
        _ => None,
    }
}

/// The executor of any plan: changes of rows and of the catalog, and all that only reads.
pub open spec fn write_input(plan: LogicalPlan) -> Option<ExecInput> {
    match (plan.operator, *plan.childrens) {
        (Operator::Insert(op), Childrens::Only(input)) => Some(ExecInput::Insert(op, *input)),
        (Operator::Update(op), Childrens::Only(input)) => Some(ExecInput::Update(op, *input)),
        (Operator::Delete(op), Childrens::Only(input)) => Some(ExecInput::Delete(op, *input)),
        (Operator::AddColumn(op), _) => Some(ExecInput::AddColumn(op)),
        (Operator::ChangeColumn(op), _) => Some(ExecInput::ChangeColumn(op)),
        (Operator::DropColumn(op), _) => Some(ExecInput::DropColumn(op)),
        (Operator::CreateTable(op), _) => Some(ExecInput::CreateTable(op)),
        (Operator::CreateIndex(op), Childrens::Only(input)) => Some(
            ExecInput::CreateIndex(op, *input),
        ),
        (Operator::CreateView(op), _) => Some(ExecInput::CreateView(op)),
        (Operator::DropTable(op), _) => Some(ExecInput::DropTable(op)),
        (Operator::DropView(op), _) => Some(ExecInput::DropView(op)),
        (Operator::DropIndex(op), _) => Some(ExecInput::DropIndex(op)),
        (Operator::Truncate(op), _) => Some(ExecInput::Truncate(op)),
        (Operator::CopyFromFile(op), _) => Some(ExecInput::CopyFromFile(op)),
        (Operator::CopyToFile(op), Childrens::Only(input)) => Some(
            ExecInput::CopyToFile(op, *input),
        ),
        (Operator::Analyze(op), Childrens::Only(input)) => Some(ExecInput::Analyze(op, *input)),
        _ => read_input(plan),
    }
}

/// Every plan whose operators have their inputs has an executor.
pub proof fn shaped_plan_has_executor(plan: LogicalPlan)
    requires
        plan@.shaped(),
    ensures
        write_input(plan) is Some,
{
}

/// A plan that only reads is built alike, whether or not the statement may write.
pub proof fn reads_are_built_alike(plan: LogicalPlan)
    requires
        read_input(plan) is Some,
    ensures
        write_input(plan) == read_input(plan),
{
}

/// The computed columns of a plan do not matter for its executor.
pub proof fn schema_cache_does_not_matter(plan: LogicalPlan, other: LogicalPlan)
    requires
        other == (LogicalPlan { output_schema: other.output_schema, ..plan }),
    ensures
        write_input(other) == write_input(plan),
        read_input(other) == read_input(plan),
{
}

fn has_implementation(option: &Option<PhysicalOption>, hash_join: bool,
    distinct: bool) -> (res: bool)
    ensures
        res == chose(
            *option,
            if hash_join {
                PlanImpl::HashJoin
            } else if distinct {
                PlanImpl::StreamDistinct
            } else {
                PlanImpl::StreamAggregate
            },
        ),
{
    match option {
        Some(PhysicalOption { plan: PlanImpl::HashJoin, .. }) => hash_join,
        Some(PhysicalOption { plan: PlanImpl::StreamDistinct, .. }) => !hash_join && distinct,
        Some(PhysicalOption { plan: PlanImpl::StreamAggregate, .. }) => !hash_join && !distinct,
        _ => false,
    }
}

/// Builds the executors of a plan that only reads, and gives the one that delivers its rows.
pub fn build_read<'a, E, T>(
    arena: &mut ExecArena<'a, E>,
    plan_arena: &mut PlanArena,
    plan: LogicalPlan,
    cache: ExecutionContext<'_>,
    transaction: &T,
) -> (id: ExecId) where E: ExecutorNode<T>
    requires
        read_input(plan) is Some,
    ensures
        E::builds(
            read_input(plan)->0,
            cache,
            *transaction,
            (Building { arena: old(arena)@, plan_arena: *old(plan_arena) }),
            (Building { arena: final(arena)@, plan_arena: *final(plan_arena) }),
            id,
        ),
        id < final(arena)@.nodes.len(),
        exists|exec: E| final(arena)@.nodes[id as int] == #[trigger] read_input(plan)->0.node(exec),
        final(arena)@.context == old(arena)@.context,
        stays_steady((old(arena)@, old(plan_arena)@), (final(arena)@, final(plan_arena)@)),
{
    let LogicalPlan { operator, childrens, physical_option, .. } = plan;
    let childrens: Childrens = *childrens;
    let input = match operator {
        Operator::Dummy => ExecInput::Dummy,
        Operator::Aggregate(op) => {
            let input = childrens.pop_only();
            if op.groupby_exprs.len() == 0 {
                ExecInput::SimpleAgg(op, input)
            } else if op.is_distinct && op.agg_calls.len() == 0 && has_implementation(
                &physical_option,
                false,
                true,
            ) {
                ExecInput::StreamDistinct(op, input)
            } else if has_implementation(&physical_option, false, false) {
                ExecInput::StreamAgg(op, input)
            } else {
                ExecInput::HashAgg(op, input)
            }
        },
        Operator::Filter(op) => ExecInput::Filter(op, childrens.pop_only()),
        Operator::ScalarApply(op) => {
            let (left, right) = childrens.pop_twins();
            ExecInput::ScalarApply(op, left, right)
        },
        Operator::MarkApply(op) => {
            let (left, right) = childrens.pop_twins();
            ExecInput::MarkApply(op, left, right)
        },
        Operator::Join(op) => {
            let keyed = match &op.on {
                JoinCondition::On { on, .. } => on.len() > 0,
                _ => false,
            };
            let use_hash_join = keyed && has_implementation(&physical_option, true, false);
            let (left, right) = childrens.pop_twins();
            if use_hash_join {
                ExecInput::HashJoin(op, left, right)
            } else {
                ExecInput::NestedLoopJoin(op, left, right)
            }
        },
        Operator::Project(op) => ExecInput::Projection(op, childrens.pop_only()),
        Operator::ScalarSubquery(op) => ExecInput::ScalarSubquery(op, childrens.pop_only()),
        Operator::TableScan(op) => match physical_option {
            Some(PhysicalOption { plan: PlanImpl::IndexScan(info), .. }) => {
                let info = *info;
                match info.lookup {
                    Some(lookup) => ExecInput::IndexScan {
                        op,
                        meta: info.meta,
                        lookup,
                        covered_deserializers: info.covered_deserializers,
                        cover_mapping: info.cover_mapping,
                    },
                    None => ExecInput::SeqScan(op),
                }
            },
            _ => ExecInput::SeqScan(op),
        },
        Operator::FunctionScan(op) => ExecInput::FunctionScan(op),
        Operator::Sort(op) => {
            if SPILL {
                ExecInput::ExternalSort(op, childrens.pop_only())
            } else {
                ExecInput::Sort(op, childrens.pop_only())
            }
        },
        Operator::Limit(op) => ExecInput::Limit(op, childrens.pop_only()),
        Operator::TopK(op) => ExecInput::TopK(op, childrens.pop_only()),
        Operator::Values(op) => ExecInput::Values(op),
        Operator::Window(op) => ExecInput::Window(op, childrens.pop_only()),
        Operator::ShowTable => ExecInput::ShowTables,
        Operator::ShowView => ExecInput::ShowViews,
        Operator::Explain => ExecInput::Explain(childrens.pop_only()),
        Operator::Describe(op) => ExecInput::Describe(op),
        Operator::Union(_) => {
            let (left, right) = childrens.pop_twins();
            ExecInput::Union(left, right)
        },
        Operator::RecursiveCte(_) => {
            let (left, right) = childrens.pop_twins();
            ExecInput::RecursiveCte(left, right)
        },
        Operator::RecursiveScan(op) => ExecInput::RecursiveScan(op),
        Operator::SetMembership(op) => {
            let (left, right) = childrens.pop_twins();
            ExecInput::SetMembership(op.kind, left, right)
        },
        _ => {
            assert(false);
            ExecInput::Dummy
        },
    };
    assert(Some(input) == read_input(plan));
    E::into_executor(input, arena, plan_arena, cache, transaction)
}

/// Builds the executors of any plan, and gives the one that delivers its rows.
pub fn build_write<'a, E, T>(
    arena: &mut ExecArena<'a, E>,
    plan_arena: &mut PlanArena,
    plan: LogicalPlan,
    cache: ExecutionContext<'a>,
    transaction: &T,
) -> (id: ExecId) where E: ExecutorNode<T>
    requires
        write_input(plan) is Some,
        old(arena)@.context matches Some(current) ==> current == cache,
    ensures
        E::builds(
            write_input(plan)->0,
            cache,
            *transaction,
            (Building {
                arena: ExecArenaView { context: Some(cache), ..old(arena)@ },
                plan_arena: *old(plan_arena),
            }),
            (Building { arena: final(arena)@, plan_arena: *final(plan_arena) }),
            id,
        ),
        id < final(arena)@.nodes.len(),
        exists|exec: E| final(arena)@.nodes[id as int] == #[trigger] write_input(plan)->0.node(exec),
        final(arena)@.context == Some(cache),
        stays_steady((old(arena)@, old(plan_arena)@), (final(arena)@, final(plan_arena)@)),
{
    arena.init_context(cache);
    let LogicalPlan { operator, childrens, physical_option, .. } = plan;
    let childrens: Childrens = *childrens;
    let input = match operator {
        Operator::Insert(op) => ExecInput::Insert(op, childrens.pop_only()),
        Operator::Update(op) => ExecInput::Update(op, childrens.pop_only()),
        Operator::Delete(op) => ExecInput::Delete(op, childrens.pop_only()),
        Operator::AddColumn(op) => ExecInput::AddColumn(op),
        Operator::ChangeColumn(op) => ExecInput::ChangeColumn(op),
        Operator::DropColumn(op) => ExecInput::DropColumn(op),
        Operator::CreateTable(op) => ExecInput::CreateTable(op),
        Operator::CreateIndex(op) => ExecInput::CreateIndex(op, childrens.pop_only()),
        Operator::CreateView(op) => ExecInput::CreateView(op),
        Operator::DropTable(op) => ExecInput::DropTable(op),
        Operator::DropView(op) => ExecInput::DropView(op),
        Operator::DropIndex(op) => ExecInput::DropIndex(op),
        Operator::Truncate(op) => ExecInput::Truncate(op),
        Operator::CopyFromFile(op) => ExecInput::CopyFromFile(op),
        Operator::CopyToFile(op) => ExecInput::CopyToFile(op, childrens.pop_only()),
        Operator::Analyze(op) => ExecInput::Analyze(op, childrens.pop_only()),
        operator => {
            let mut read = LogicalPlan::new(operator, childrens);
            read.physical_option = physical_option;
            assert(read == (LogicalPlan { output_schema: read.output_schema, ..plan }));
            proof {
                schema_cache_does_not_matter(plan, read);
            }
            return build_read(arena, plan_arena, read, cache, transaction);
        },
    };
    assert(Some(input) == write_input(plan));
    E::into_executor(input, arena, plan_arena, cache, transaction)
}

} // verus!
