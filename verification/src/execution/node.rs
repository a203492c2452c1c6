//! Executors, by the step of the plan that they carry out.

use crate::errors::DatabaseError;
use crate::execution::choice::ExecInput;
use crate::execution::{stays_steady, ExecArena, ExecArenaView, ExecId, ExecutionContext};
use crate::planner::arena::PlanArena;
use vstd::prelude::*;

verus! {

/// An executor under the step that it carries out.
#[derive(Debug)]
pub enum ExecNode<E> {
    AddColumn(E),
    Analyze(E),
    ChangeColumn(E),
    CopyFromFile(E),
    CopyToFile(E),
    CreateIndex(E),
    CreateTable(E),
    CreateView(E),
    Delete(E),
    Describe(E),
    DropColumn(E),
    DropIndex(E),
    DropTable(E),
    DropView(E),
    Dummy(E),
    Explain(E),
    ExternalSort(E),
    Filter(E),
    FunctionScan(E),
    HashAgg(E),
    HashJoin(E),
    IndexScan(E),
    Insert(E),
    Limit(E),
    MarkApply(E),
    NestedLoopJoin(E),
    Projection(E),
    RecursiveCte(E),
    RecursiveScan(E),
    ScalarApply(E),
    ScalarSubquery(E),
    SetMembership(E),
    SeqScan(E),
    ShowTables(E),
    ShowViews(E),
    SimpleAgg(E),
    Sort(E),
    StreamAgg(E),
    StreamDistinct(E),
    TopK(E),
    Truncate(E),
    Union(E),
    Update(E),
    Values(E),
    Window(E),
    /// Stands in for an executor that is running.
    Empty,
}

/// What an executor may read and change while it makes a row.
pub struct Running<E, T> {
    pub executor: E,
    pub arena: ExecArenaView<E>,
    pub plan_arena: PlanArena,
    pub transaction: T,
}

/// What is read and changed while an executor is built.
pub struct Building<E> {
    pub arena: ExecArenaView<E>,
    pub plan_arena: PlanArena,
}

/// The executors of a storage. What they read and write is up to them; each relation holds of the
/// outcomes that may occur.
pub trait ExecutorNode<T>: Sized {
    /// Outcomes of building an executor.
    spec fn builds(
        input: ExecInput,
        context: ExecutionContext,
        transaction: T,
        before: Building<Self>,
        after: Building<Self>,
        id: ExecId,
    ) -> bool;

    /// Outcomes of asking an executor for its next row.
    spec fn pulls(
        before: Running<Self, T>,
        after: Running<Self, T>,
        res: Result<(), DatabaseError>,
    ) -> bool;

    /// Builds an executor, with those that it reads from, and adds it to the arena, in the place for
    /// what it was built from. No arena ever shrinks, and an arena that is in order stays so.
    fn into_executor(
        input: ExecInput,
        arena: &mut ExecArena<'_, Self>,
        plan_arena: &mut PlanArena,
        context: ExecutionContext<'_>,
        transaction: &T,
    ) -> (id: ExecId)
        ensures
            Self::builds(
                input,
                context,
                *transaction,
                (Building { arena: old(arena)@, plan_arena: *old(plan_arena) }),
                (Building { arena: final(arena)@, plan_arena: *final(plan_arena) }),
                id,
            ),
            id < final(arena)@.nodes.len(),
            exists|exec: Self| final(arena)@.nodes[id as int] == #[trigger] input.node(exec),
            final(arena)@.context == old(arena)@.context,
            stays_steady((old(arena)@, old(plan_arena)@), (final(arena)@, final(plan_arena)@)),
    ;

    /// Leaves the next row in the arena, or the note that there is none. No arena ever
    /// shrinks, and an arena that is in order stays so.
    fn next_tuple(
        &mut self,
        arena: &mut ExecArena<'_, Self>,
        plan_arena: &mut PlanArena,
        transaction: &mut T,
    ) -> (res: Result<(), DatabaseError>)
        ensures
            Self::pulls(
                (Running {
                    executor: *old(self),
                    arena: old(arena)@,
                    plan_arena: *old(plan_arena),
                    transaction: *old(transaction),
                }),
                (Running {
                    executor: *final(self),
                    arena: final(arena)@,
                    plan_arena: *final(plan_arena),
                    transaction: *final(transaction),
                }),
                res,
            ),
            old(arena)@.nodes.len() <= final(arena)@.nodes.len(),
            stays_steady((old(arena)@, old(plan_arena)@), (final(arena)@, final(plan_arena)@)),
    ;
}

impl<E> ExecNode<E> {
    /// The executor.
    pub open spec fn executor(self) -> Option<E> {
        match self {
            ExecNode::AddColumn(exec) => Some(exec),
            ExecNode::Analyze(exec) => Some(exec),
            ExecNode::ChangeColumn(exec) => Some(exec),
            ExecNode::CopyFromFile(exec) => Some(exec),
            ExecNode::CopyToFile(exec) => Some(exec),
            ExecNode::CreateIndex(exec) => Some(exec),
            ExecNode::CreateTable(exec) => Some(exec),
            ExecNode::CreateView(exec) => Some(exec),
            ExecNode::Delete(exec) => Some(exec),
            ExecNode::Describe(exec) => Some(exec),
            ExecNode::DropColumn(exec) => Some(exec),
            ExecNode::DropIndex(exec) => Some(exec),
            ExecNode::DropTable(exec) => Some(exec),
            ExecNode::DropView(exec) => Some(exec),
            ExecNode::Dummy(exec) => Some(exec),
            ExecNode::Explain(exec) => Some(exec),
            ExecNode::ExternalSort(exec) => Some(exec),
            ExecNode::Filter(exec) => Some(exec),
            ExecNode::FunctionScan(exec) => Some(exec),
            ExecNode::HashAgg(exec) => Some(exec),
            ExecNode::HashJoin(exec) => Some(exec),
            ExecNode::IndexScan(exec) => Some(exec),
            ExecNode::Insert(exec) => Some(exec),
            ExecNode::Limit(exec) => Some(exec),
            ExecNode::MarkApply(exec) => Some(exec),
            ExecNode::NestedLoopJoin(exec) => Some(exec),
            ExecNode::Projection(exec) => Some(exec),
            ExecNode::RecursiveCte(exec) => Some(exec),
            ExecNode::RecursiveScan(exec) => Some(exec),
            ExecNode::ScalarApply(exec) => Some(exec),
            ExecNode::ScalarSubquery(exec) => Some(exec),
            ExecNode::SetMembership(exec) => Some(exec),
            ExecNode::SeqScan(exec) => Some(exec),
            ExecNode::ShowTables(exec) => Some(exec),
            ExecNode::ShowViews(exec) => Some(exec),
            ExecNode::SimpleAgg(exec) => Some(exec),
            ExecNode::Sort(exec) => Some(exec),
            ExecNode::StreamAgg(exec) => Some(exec),
            ExecNode::StreamDistinct(exec) => Some(exec),
            ExecNode::TopK(exec) => Some(exec),
            ExecNode::Truncate(exec) => Some(exec),
            ExecNode::Union(exec) => Some(exec),
            ExecNode::Update(exec) => Some(exec),
            ExecNode::Values(exec) => Some(exec),
            ExecNode::Window(exec) => Some(exec),
            ExecNode::Empty => None,
        }
    }

    /// The same step with another executor.
    pub open spec fn with(self, exec: E) -> ExecNode<E> {
        match self {
            ExecNode::AddColumn(_) => ExecNode::AddColumn(exec),
            ExecNode::Analyze(_) => ExecNode::Analyze(exec),
            ExecNode::ChangeColumn(_) => ExecNode::ChangeColumn(exec),
            ExecNode::CopyFromFile(_) => ExecNode::CopyFromFile(exec),
            ExecNode::CopyToFile(_) => ExecNode::CopyToFile(exec),
            ExecNode::CreateIndex(_) => ExecNode::CreateIndex(exec),
            ExecNode::CreateTable(_) => ExecNode::CreateTable(exec),
            ExecNode::CreateView(_) => ExecNode::CreateView(exec),
            ExecNode::Delete(_) => ExecNode::Delete(exec),
            ExecNode::Describe(_) => ExecNode::Describe(exec),
            ExecNode::DropColumn(_) => ExecNode::DropColumn(exec),
            ExecNode::DropIndex(_) => ExecNode::DropIndex(exec),
            ExecNode::DropTable(_) => ExecNode::DropTable(exec),
            ExecNode::DropView(_) => ExecNode::DropView(exec),
            ExecNode::Dummy(_) => ExecNode::Dummy(exec),
            ExecNode::Explain(_) => ExecNode::Explain(exec),
            ExecNode::ExternalSort(_) => ExecNode::ExternalSort(exec),
            ExecNode::Filter(_) => ExecNode::Filter(exec),
            ExecNode::FunctionScan(_) => ExecNode::FunctionScan(exec),
            ExecNode::HashAgg(_) => ExecNode::HashAgg(exec),
            ExecNode::HashJoin(_) => ExecNode::HashJoin(exec),
            ExecNode::IndexScan(_) => ExecNode::IndexScan(exec),
            ExecNode::Insert(_) => ExecNode::Insert(exec),
            ExecNode::Limit(_) => ExecNode::Limit(exec),
            ExecNode::MarkApply(_) => ExecNode::MarkApply(exec),
            ExecNode::NestedLoopJoin(_) => ExecNode::NestedLoopJoin(exec),
            ExecNode::Projection(_) => ExecNode::Projection(exec),
            ExecNode::RecursiveCte(_) => ExecNode::RecursiveCte(exec),
            ExecNode::RecursiveScan(_) => ExecNode::RecursiveScan(exec),
            ExecNode::ScalarApply(_) => ExecNode::ScalarApply(exec),
            ExecNode::ScalarSubquery(_) => ExecNode::ScalarSubquery(exec),
            ExecNode::SetMembership(_) => ExecNode::SetMembership(exec),
            ExecNode::SeqScan(_) => ExecNode::SeqScan(exec),
            ExecNode::ShowTables(_) => ExecNode::ShowTables(exec),
            ExecNode::ShowViews(_) => ExecNode::ShowViews(exec),
            ExecNode::SimpleAgg(_) => ExecNode::SimpleAgg(exec),
            ExecNode::Sort(_) => ExecNode::Sort(exec),
            ExecNode::StreamAgg(_) => ExecNode::StreamAgg(exec),
            ExecNode::StreamDistinct(_) => ExecNode::StreamDistinct(exec),
            ExecNode::TopK(_) => ExecNode::TopK(exec),
            ExecNode::Truncate(_) => ExecNode::Truncate(exec),
            ExecNode::Union(_) => ExecNode::Union(exec),
            ExecNode::Update(_) => ExecNode::Update(exec),
            ExecNode::Values(_) => ExecNode::Values(exec),
            ExecNode::Window(_) => ExecNode::Window(exec),
            ExecNode::Empty => ExecNode::Empty,
        }
    }

    /// Asks the executor for its next row.
    pub fn next_tuple<T>(
        &mut self,
        arena: &mut ExecArena<'_, E>,
        plan_arena: &mut PlanArena,
        transaction: &mut T,
    ) -> (res: Result<(), DatabaseError>) where E: ExecutorNode<T>
        requires
            *old(self) !is Empty,
        ensures
            *final(self) !is Empty,
            *final(self) == old(self).with(final(self).executor()->0),
            E::pulls(
                (Running {
                    executor: old(self).executor()->0,
                    arena: old(arena)@,
                    plan_arena: *old(plan_arena),
                    transaction: *old(transaction),
                }),
                (Running {
                    executor: final(self).executor()->0,
                    arena: final(arena)@,
                    plan_arena: *final(plan_arena),
                    transaction: *final(transaction),
                }),
                res,
            ),
            old(arena)@.nodes.len() <= final(arena)@.nodes.len(),
            stays_steady((old(arena)@, old(plan_arena)@), (final(arena)@, final(plan_arena)@)),
    {
        match self {
            ExecNode::AddColumn(exec) => exec.next_tuple(arena, plan_arena, transaction),
            ExecNode::Analyze(exec) => exec.next_tuple(arena, plan_arena, transaction),
            ExecNode::ChangeColumn(exec) => exec.next_tuple(arena, plan_arena, transaction),
            ExecNode::CopyFromFile(exec) => exec.next_tuple(arena, plan_arena, transaction),
            ExecNode::CopyToFile(exec) => exec.next_tuple(arena, plan_arena, transaction),
            ExecNode::CreateIndex(exec) => exec.next_tuple(arena, plan_arena, transaction),
            ExecNode::CreateTable(exec) => exec.next_tuple(arena, plan_arena, transaction),
            ExecNode::CreateView(exec) => exec.next_tuple(arena, plan_arena, transaction),
            ExecNode::Delete(exec) => exec.next_tuple(arena, plan_arena, transaction),
            ExecNode::Describe(exec) => exec.next_tuple(arena, plan_arena, transaction),
            ExecNode::DropColumn(exec) => exec.next_tuple(arena, plan_arena, transaction),
            ExecNode::DropIndex(exec) => exec.next_tuple(arena, plan_arena, transaction),
            ExecNode::DropTable(exec) => exec.next_tuple(arena, plan_arena, transaction),
            ExecNode::DropView(exec) => exec.next_tuple(arena, plan_arena, transaction),
            ExecNode::Dummy(exec) => exec.next_tuple(arena, plan_arena, transaction),
            ExecNode::Explain(exec) => exec.next_tuple(arena, plan_arena, transaction),
            ExecNode::ExternalSort(exec) => exec.next_tuple(arena, plan_arena, transaction),
            ExecNode::Filter(exec) => exec.next_tuple(arena, plan_arena, transaction),
            ExecNode::FunctionScan(exec) => exec.next_tuple(arena, plan_arena, transaction),
            ExecNode::HashAgg(exec) => exec.next_tuple(arena, plan_arena, transaction),
            ExecNode::HashJoin(exec) => exec.next_tuple(arena, plan_arena, transaction),
            ExecNode::IndexScan(exec) => exec.next_tuple(arena, plan_arena, transaction),
            ExecNode::Insert(exec) => exec.next_tuple(arena, plan_arena, transaction),
            ExecNode::Limit(exec) => exec.next_tuple(arena, plan_arena, transaction),
            ExecNode::MarkApply(exec) => exec.next_tuple(arena, plan_arena, transaction),
            ExecNode::NestedLoopJoin(exec) => exec.next_tuple(arena, plan_arena, transaction),
            ExecNode::Projection(exec) => exec.next_tuple(arena, plan_arena, transaction),
            ExecNode::RecursiveCte(exec) => exec.next_tuple(arena, plan_arena, transaction),
            ExecNode::RecursiveScan(exec) => exec.next_tuple(arena, plan_arena, transaction),
            ExecNode::ScalarApply(exec) => exec.next_tuple(arena, plan_arena, transaction),
            ExecNode::ScalarSubquery(exec) => exec.next_tuple(arena, plan_arena, transaction),
            ExecNode::SetMembership(exec) => exec.next_tuple(arena, plan_arena, transaction),
            ExecNode::SeqScan(exec) => exec.next_tuple(arena, plan_arena, transaction),
            ExecNode::ShowTables(exec) => exec.next_tuple(arena, plan_arena, transaction),
            ExecNode::ShowViews(exec) => exec.next_tuple(arena, plan_arena, transaction),
            ExecNode::SimpleAgg(exec) => exec.next_tuple(arena, plan_arena, transaction),
            ExecNode::Sort(exec) => exec.next_tuple(arena, plan_arena, transaction),
            ExecNode::StreamAgg(exec) => exec.next_tuple(arena, plan_arena, transaction),
            ExecNode::StreamDistinct(exec) => exec.next_tuple(arena, plan_arena, transaction),
            ExecNode::TopK(exec) => exec.next_tuple(arena, plan_arena, transaction),
            ExecNode::Truncate(exec) => exec.next_tuple(arena, plan_arena, transaction),
            ExecNode::Union(exec) => exec.next_tuple(arena, plan_arena, transaction),
            ExecNode::Update(exec) => exec.next_tuple(arena, plan_arena, transaction),
            ExecNode::Values(exec) => exec.next_tuple(arena, plan_arena, transaction),
            ExecNode::Window(exec) => exec.next_tuple(arena, plan_arena, transaction),
            ExecNode::Empty => {
                assert(false);
                Ok(())
            },
        }
    }
}

} // verus!
