//! Operators of a plan, and the ways in which they can be carried out.

pub mod aggregate;
pub mod ddl;
pub mod dml;
pub mod filter;
pub mod join;
pub mod limit;
pub mod mark_apply;
pub mod project;
pub mod set_operation;
pub mod sort;
pub mod table_scan;
pub mod top_k;
pub mod values;
pub mod window;

use crate::catalog::ColumnRef;
use crate::planner::arena::{ArenaView, ExprRef};
use crate::planner::operator::aggregate::{AggregateOperator, AggregateView};
use crate::planner::operator::ddl::{
    AddColumnOperator, ChangeColumnOperator, CreateIndexOperator, CreateIndexView,
    CreateTableOperator, CreateTableView, CreateViewOperator, DescribeOperator, DropColumnOperator,
    DropIndexOperator, DropTableOperator, DropViewOperator, TruncateOperator,
};
use crate::planner::operator::dml::{
    AnalyzeOperator, AnalyzeView, CopyFromFileOperator, CopyToFileOperator, DeleteOperator,
    DeleteView, InsertOperator, UpdateOperator, UpdateView,
};
use crate::planner::operator::filter::FilterOperator;
use crate::planner::operator::join::{JoinConditionView, JoinOperator, JoinView};
use crate::planner::operator::limit::LimitOperator;
use crate::planner::operator::mark_apply::{MarkApplyOperator, MarkApplyView};
use crate::planner::operator::project::ProjectOperator;
use crate::planner::operator::set_operation::{
    RecursiveCteOperator, RecursiveScanOperator, SetMembershipKind, SetMembershipOperator,
    UnionOperator,
};
use crate::planner::operator::sort::{SortField, SortOperator};
use crate::planner::operator::table_scan::{
    FunctionScanOperator, FunctionScanView, TableScanOperator, TableScanView,
};
use crate::planner::operator::top_k::{TopKOperator, TopKView};
use crate::planner::operator::values::{ValuesOperator, ValuesView};
use crate::planner::operator::window::{WindowOperator, WindowView};
use crate::types::index::{IndexInfo, IndexInfoView};
use vstd::prelude::*;

verus! {

/// Order in which an operator delivers its rows.
#[derive(Debug, PartialEq, Eq, Hash)]
pub enum SortOption {
    /// By the fields; the first `ignore_prefix_len` fields are constant and may be left out.
    OrderBy { fields: Vec<SortField>, ignore_prefix_len: usize },
    /// The order of its input.
    Follow,
    /// No particular order.
    Nothing,
}

/// Mathematical model of a [`SortOption`].
pub enum SortOptionView {
    OrderBy { fields: Seq<SortField>, ignore_prefix_len: usize },
    Follow,
    Nothing,
}

impl View for SortOption {
    type V = SortOptionView;

    open spec fn view(&self) -> SortOptionView {
        match self {
            SortOption::OrderBy { fields, ignore_prefix_len } => SortOptionView::OrderBy {
                fields: fields@,
                ignore_prefix_len: *ignore_prefix_len,
            },
            SortOption::Follow => SortOptionView::Follow,
            SortOption::Nothing => SortOptionView::Nothing,
        }
    }
}

impl Clone for SortOption {
    fn clone(&self) -> (res: Self)
        ensures
            res@ == self@,
    {
        match self {
            SortOption::OrderBy { fields, ignore_prefix_len } => {
                let copy = fields.clone();
                assert(copy@ =~= fields@);
                SortOption::OrderBy { fields: copy, ignore_prefix_len: *ignore_prefix_len }
            },
            SortOption::Follow => SortOption::Follow,
            SortOption::Nothing => SortOption::Nothing,
        }
    }
}

/// How an operator is carried out.
#[derive(Debug, PartialEq, Eq, Hash)]
pub enum PlanImpl {
    Dummy,
    SimpleAggregate,
    HashAggregate,
    StreamAggregate,
    StreamDistinct,
    Filter,
    HashJoin,
    NestLoopJoin,
    Project,
    SeqScan,
    FunctionScan,
    IndexScan(Box<IndexInfo>),
    Sort,
    Limit,
    TopK,
    Values,
    Window,
    MarkApply,
    ScalarApply,
    ScalarSubquery,
    Insert,
    Update,
    Delete,
    AddColumn,
    ChangeColumn,
    DropColumn,
    CreateTable,
    DropTable,
    Truncate,
    CopyFromFile,
    CopyToFile,
    Analyze,
}

/// Mathematical model of a [`PlanImpl`].
pub enum PlanImplView {
    Plain(PlanImpl),
    IndexScan(IndexInfoView),
}

impl View for PlanImpl {
    type V = PlanImplView;

    open spec fn view(&self) -> PlanImplView {
        match self {
            PlanImpl::IndexScan(info) => PlanImplView::IndexScan(info@),
            plain => PlanImplView::Plain(*plain),
        }
    }
}

impl Clone for PlanImpl {
    fn clone(&self) -> (res: Self)
        ensures
            res@ == self@,
    {
        match self {
            PlanImpl::Dummy => PlanImpl::Dummy,
            PlanImpl::SimpleAggregate => PlanImpl::SimpleAggregate,
            PlanImpl::HashAggregate => PlanImpl::HashAggregate,
            PlanImpl::StreamAggregate => PlanImpl::StreamAggregate,
            PlanImpl::StreamDistinct => PlanImpl::StreamDistinct,
            PlanImpl::Filter => PlanImpl::Filter,
            PlanImpl::HashJoin => PlanImpl::HashJoin,
            PlanImpl::NestLoopJoin => PlanImpl::NestLoopJoin,
            PlanImpl::Project => PlanImpl::Project,
            PlanImpl::SeqScan => PlanImpl::SeqScan,
            PlanImpl::FunctionScan => PlanImpl::FunctionScan,
            PlanImpl::IndexScan(info) => {
                let copy: IndexInfo = (&**info).clone();
                PlanImpl::IndexScan(Box::new(copy))
            },
            PlanImpl::Sort => PlanImpl::Sort,
            PlanImpl::Limit => PlanImpl::Limit,
            PlanImpl::TopK => PlanImpl::TopK,
            PlanImpl::Values => PlanImpl::Values,
            PlanImpl::Window => PlanImpl::Window,
            PlanImpl::MarkApply => PlanImpl::MarkApply,
            PlanImpl::ScalarApply => PlanImpl::ScalarApply,
            PlanImpl::ScalarSubquery => PlanImpl::ScalarSubquery,
            PlanImpl::Insert => PlanImpl::Insert,
            PlanImpl::Update => PlanImpl::Update,
            PlanImpl::Delete => PlanImpl::Delete,
            PlanImpl::AddColumn => PlanImpl::AddColumn,
            PlanImpl::ChangeColumn => PlanImpl::ChangeColumn,
            PlanImpl::DropColumn => PlanImpl::DropColumn,
            PlanImpl::CreateTable => PlanImpl::CreateTable,
            PlanImpl::DropTable => PlanImpl::DropTable,
            PlanImpl::Truncate => PlanImpl::Truncate,
            PlanImpl::CopyFromFile => PlanImpl::CopyFromFile,
            PlanImpl::CopyToFile => PlanImpl::CopyToFile,
            PlanImpl::Analyze => PlanImpl::Analyze,
        }
    }
}

/// The chosen implementation of an operator, and the order of its rows.
#[derive(Debug, PartialEq, Eq, Hash)]
pub struct PhysicalOption {
    pub plan: PlanImpl,
    pub sort_option: SortOption,
}

/// Mathematical model of a [`PhysicalOption`].
pub struct PhysicalOptionView {
    pub plan: PlanImplView,
    pub sort_option: SortOptionView,
}

impl View for PhysicalOption {
    type V = PhysicalOptionView;

    open spec fn view(&self) -> PhysicalOptionView {
        PhysicalOptionView { plan: self.plan@, sort_option: self.sort_option@ }
    }
}

impl PhysicalOption {
    pub fn new(plan: PlanImpl, sort_option: SortOption) -> (res: Self)
        ensures
            res == (PhysicalOption { plan, sort_option }),
    {
        PhysicalOption { plan, sort_option }
    }

    /// The order of the rows.
    pub fn sort_option(&self) -> (res: &SortOption)
        ensures
            *res == self.sort_option,
            res@ == self@.sort_option,
    {
        &self.sort_option
    }
}

impl Clone for PhysicalOption {
    fn clone(&self) -> (res: Self)
        ensures
            res@ == self@,
    {
        PhysicalOption { plan: self.plan.clone(), sort_option: self.sort_option.clone() }
    }
}

/// One step of a plan.
#[derive(Debug, PartialEq, Eq, Hash)]
pub enum Operator {
    // queries
    Dummy,
    Aggregate(AggregateOperator),
    ScalarApply(ScalarApplyOperator),
    MarkApply(MarkApplyOperator),
    Filter(FilterOperator),
    Join(JoinOperator),
    Project(ProjectOperator),
    ScalarSubquery(ScalarSubqueryOperator),
    TableScan(TableScanOperator),
    FunctionScan(FunctionScanOperator),
    Sort(SortOperator),
    Limit(LimitOperator),
    TopK(TopKOperator),
    Values(ValuesOperator),
    Window(WindowOperator),
    ShowTable,
    ShowView,
    Explain,
    Describe(DescribeOperator),
    Union(UnionOperator),
    SetMembership(SetMembershipOperator),
    RecursiveCte(RecursiveCteOperator),
    RecursiveScan(RecursiveScanOperator),
    // changes of rows
    Insert(InsertOperator),
    Update(UpdateOperator),
    Delete(DeleteOperator),
    Analyze(AnalyzeOperator),
    CopyFromFile(CopyFromFileOperator),
    CopyToFile(CopyToFileOperator),
    // changes of the catalog
    AddColumn(AddColumnOperator),
    ChangeColumn(ChangeColumnOperator),
    DropColumn(DropColumnOperator),
    CreateTable(CreateTableOperator),
    CreateIndex(CreateIndexOperator),
    CreateView(CreateViewOperator),
    DropTable(DropTableOperator),
    DropView(DropViewOperator),
    DropIndex(DropIndexOperator),
    Truncate(TruncateOperator),
}

/// Appends the value of a scalar subquery to each row.
#[derive(Clone, Copy, Debug, PartialEq, Eq, Hash, Structural)]
pub struct ScalarApplyOperator;

/// Passes on the only row of a subquery.
#[derive(Clone, Copy, Debug, PartialEq, Eq, Hash, Structural)]
pub struct ScalarSubqueryOperator;

/// Mathematical model of an [`Operator`]. Operators without sequences stand for themselves.
pub enum OperatorView {
    Plain(Operator),
    Aggregate(AggregateView),
    MarkApply(MarkApplyView),
    Filter(FilterOperator),
    Join(JoinView),
    Project(Seq<ExprRef>),
    TableScan(TableScanView),
    FunctionScan(FunctionScanView),
    Sort(Seq<SortField>),
    Limit(LimitOperator),
    TopK(TopKView),
    Values(ValuesView),
    Window(WindowView),
    Union(Seq<ColumnRef>, Seq<ColumnRef>),
    SetMembership(SetMembershipKind, Seq<ColumnRef>, Seq<ColumnRef>),
    RecursiveCte(Seq<ColumnRef>),
    RecursiveScan(Seq<ColumnRef>),
    Update(UpdateView),
    Delete(DeleteView),
    Analyze(AnalyzeView),
    CreateTable(CreateTableView),
    CreateIndex(CreateIndexView),
}

impl View for Operator {
    type V = OperatorView;

    open spec fn view(&self) -> OperatorView {
        match self {
            Operator::Aggregate(op) => OperatorView::Aggregate(op@),
            Operator::MarkApply(op) => OperatorView::MarkApply(op@),
            Operator::Filter(op) => OperatorView::Filter(*op),
            Operator::Join(op) => OperatorView::Join(op@),
            Operator::Project(op) => OperatorView::Project(op.exprs@),
            Operator::TableScan(op) => OperatorView::TableScan(op@),
            Operator::FunctionScan(op) => OperatorView::FunctionScan(op@),
            Operator::Sort(op) => OperatorView::Sort(op.sort_fields@),
            Operator::Limit(op) => OperatorView::Limit(*op),
            Operator::TopK(op) => OperatorView::TopK(op@),
            Operator::Values(op) => OperatorView::Values(op@),
            Operator::Window(op) => OperatorView::Window(op@),
            Operator::Union(op) => OperatorView::Union(op.left_schema_ref@, op.right_schema_ref@),
            Operator::SetMembership(op) => OperatorView::SetMembership(
                op.kind,
                op.left_schema_ref@,
                op.right_schema_ref@,
            ),
            Operator::RecursiveCte(op) => OperatorView::RecursiveCte(op.schema_ref@),
            Operator::RecursiveScan(op) => OperatorView::RecursiveScan(op.schema_ref@),
            Operator::Update(op) => OperatorView::Update(op@),
            Operator::Delete(op) => OperatorView::Delete(op@),
            Operator::Analyze(op) => OperatorView::Analyze(op@),
            Operator::CreateTable(op) => OperatorView::CreateTable(op@),
            Operator::CreateIndex(op) => OperatorView::CreateIndex(op@),
            plain => OperatorView::Plain(*plain),
        }
    }
}

impl Clone for Operator {
    fn clone(&self) -> (res: Self)
        ensures
            res@ == self@,
    {
        match self {
            Operator::Dummy => Operator::Dummy,
            Operator::Aggregate(op) => Operator::Aggregate(op.clone()),
            Operator::ScalarApply(op) => Operator::ScalarApply(*op),
            Operator::MarkApply(op) => Operator::MarkApply(op.clone()),
            Operator::Filter(op) => Operator::Filter(*op),
            Operator::Join(op) => Operator::Join(op.clone()),
            Operator::Project(op) => Operator::Project(op.clone()),
            Operator::ScalarSubquery(op) => Operator::ScalarSubquery(*op),
            Operator::TableScan(op) => Operator::TableScan(op.clone()),
            Operator::FunctionScan(op) => Operator::FunctionScan(op.clone()),
            Operator::Sort(op) => Operator::Sort(op.clone()),
            Operator::Limit(op) => Operator::Limit(*op),
            Operator::TopK(op) => Operator::TopK(op.clone()),
            Operator::Values(op) => Operator::Values(op.clone()),
            Operator::Window(op) => Operator::Window(op.clone()),
            Operator::ShowTable => Operator::ShowTable,
            Operator::ShowView => Operator::ShowView,
            Operator::Explain => Operator::Explain,
            Operator::Describe(op) => Operator::Describe(op.clone()),
            Operator::Union(op) => Operator::Union(op.clone()),
            Operator::SetMembership(op) => Operator::SetMembership(op.clone()),
            Operator::RecursiveCte(op) => Operator::RecursiveCte(op.clone()),
            Operator::RecursiveScan(op) => Operator::RecursiveScan(op.clone()),
            Operator::Insert(op) => Operator::Insert(op.clone()),
            Operator::Update(op) => Operator::Update(op.clone()),
            Operator::Delete(op) => Operator::Delete(op.clone()),
            Operator::Analyze(op) => Operator::Analyze(op.clone()),
            Operator::CopyFromFile(op) => Operator::CopyFromFile(op.clone()),
            Operator::CopyToFile(op) => Operator::CopyToFile(op.clone()),
            Operator::AddColumn(op) => Operator::AddColumn(op.clone()),
            Operator::ChangeColumn(op) => Operator::ChangeColumn(op.clone()),
            Operator::DropColumn(op) => Operator::DropColumn(op.clone()),
            Operator::CreateTable(op) => Operator::CreateTable(op.clone()),
            Operator::CreateIndex(op) => Operator::CreateIndex(op.clone()),
            Operator::CreateView(op) => Operator::CreateView(op.clone()),
            Operator::DropTable(op) => Operator::DropTable(op.clone()),
            Operator::DropView(op) => Operator::DropView(op.clone()),
            Operator::DropIndex(op) => Operator::DropIndex(op.clone()),
            Operator::Truncate(op) => Operator::Truncate(op.clone()),
        }
    }
}

impl IndexInfoView {
    /// Whether everything that the index information refers to is in the arena.
    pub open spec fn valid(self, arena: ArenaView) -> bool {
        &&& arena.has_index(self.meta)
        &&& self.sort_option.valid(arena)
        &&& self.residual_predicate matches Some(expr) ==> arena.has_expr(expr)
    }
}

impl SortOptionView {
    /// Whether every key of the order is in the arena.
    pub open spec fn valid(self, arena: ArenaView) -> bool {
        self matches SortOptionView::OrderBy { fields, .. } ==> valid_fields(arena, fields)
    }
}

impl PhysicalOptionView {
    /// Whether everything that the option refers to is in the arena.
    pub open spec fn valid(self, arena: ArenaView) -> bool {
        &&& self.sort_option.valid(arena)
        &&& self.plan matches PlanImplView::IndexScan(info) ==> info.valid(arena)
    }
}

/// Whether every key is in the arena.
pub open spec fn valid_fields(arena: ArenaView, fields: Seq<SortField>) -> bool {
    forall|i: int| 0 <= i < fields.len() ==> arena.has_expr((#[trigger] fields[i]).expr)
}

/// Whether both sides of every pair are in the arena.
pub open spec fn valid_pairs(arena: ArenaView, pairs: Seq<(ExprRef, ExprRef)>) -> bool {
    forall|i: int|
        0 <= i < pairs.len() ==> arena.has_expr((#[trigger] pairs[i]).0) && arena.has_expr(
            pairs[i].1,
        )
}

impl OperatorView {
    /// Whether everything that the operator refers to is in the arena.
    pub open spec fn valid(self, arena: ArenaView) -> bool {
        match self {
            OperatorView::Plain(_) => true,
            OperatorView::Aggregate(op) => arena.has_exprs(op.groupby_exprs) && arena.has_exprs(
                op.agg_calls,
            ),
            OperatorView::MarkApply(op) => {
                &&& arena.has_exprs(op.predicates)
                &&& op.output_column matches Some(column) ==> arena.has_column(column)
                &&& op.parameterized_probe matches Some(probe) ==> arena.has_expr(probe)
            },
            OperatorView::Filter(op) => arena.has_expr(op.predicate),
            OperatorView::Join(op) => match op.on {
                JoinConditionView::On { on, filter } => {
                    &&& valid_pairs(arena, on)
                    &&& filter matches Some(expr) ==> arena.has_expr(expr)
                },
                JoinConditionView::Nothing => true,
            },
            OperatorView::Project(exprs) => arena.has_exprs(exprs),
            OperatorView::TableScan(op) => {
                &&& arena.has_columns(op.columns)
                &&& forall|i: int|
                    0 <= i < op.index_infos.len() ==> (#[trigger] op.index_infos[i]).valid(arena)
            },
            OperatorView::FunctionScan(op) => arena.has_exprs(op.args) && arena.has_columns(
                op.schema,
            ),
            OperatorView::Sort(fields) => valid_fields(arena, fields),
            OperatorView::Limit(_) => true,
            OperatorView::TopK(op) => valid_fields(arena, op.sort_fields),
            OperatorView::Values(op) => arena.has_columns(op.schema_ref),
            OperatorView::Window(op) => {
                &&& arena.has_exprs(op.partition_by)
                &&& valid_fields(arena, op.order_by)
                &&& arena.has_exprs(op.functions)
                &&& arena.has_columns(op.output_columns)
            },
            OperatorView::Union(left, right) => arena.has_columns(left) && arena.has_columns(right),
            OperatorView::SetMembership(_, left, right) => arena.has_columns(left)
                && arena.has_columns(right),
            OperatorView::RecursiveCte(schema) => arena.has_columns(schema),
            OperatorView::RecursiveScan(schema) => arena.has_columns(schema),
            OperatorView::Update(op) => forall|i: int|
                0 <= i < op.value_exprs.len() ==> arena.has_column(
                    (#[trigger] op.value_exprs[i]).0,
                ) && arena.has_expr(op.value_exprs[i].1),
            OperatorView::Delete(op) => arena.has_columns(op.primary_keys),
            OperatorView::Analyze(op) => forall|i: int|
                0 <= i < op.index_metas.len() ==> arena.has_index(#[trigger] op.index_metas[i]),
            OperatorView::CreateTable(op) => arena.has_columns(op.columns),
            OperatorView::CreateIndex(op) => arena.has_columns(op.columns),
        }
    }
}

} // verus!
