//! Executors against the plans that they were built for.

use crate::execution::choice::{read_input, write_input, ExecInput};
use crate::execution::node::ExecNode;
use crate::optimizer::rule::normalization::elimination::SPILL;
use crate::planner::operator::join::JoinCondition;
use crate::planner::operator::{Operator, PlanImpl};
use crate::planner::{Childrens, LogicalPlan};
use vstd::prelude::*;

verus! {

/// The plans that an executor draws its rows from, the left one first.
pub open spec fn drawn_plans(input: ExecInput) -> Seq<LogicalPlan> {
    match input {
        ExecInput::SimpleAgg(_, input) => seq![input],
        ExecInput::StreamDistinct(_, input) => seq![input],
        ExecInput::StreamAgg(_, input) => seq![input],
        ExecInput::HashAgg(_, input) => seq![input],
        ExecInput::Filter(_, input) => seq![input],
        ExecInput::Projection(_, input) => seq![input],
        ExecInput::ScalarSubquery(_, input) => seq![input],
        ExecInput::ExternalSort(_, input) => seq![input],
        ExecInput::Sort(_, input) => seq![input],
        ExecInput::Limit(_, input) => seq![input],
        ExecInput::TopK(_, input) => seq![input],
        ExecInput::Window(_, input) => seq![input],
        ExecInput::Insert(_, input) => seq![input],
        ExecInput::Update(_, input) => seq![input],
        ExecInput::Delete(_, input) => seq![input],
        ExecInput::CreateIndex(_, input) => seq![input],
        ExecInput::CopyToFile(_, input) => seq![input],
        ExecInput::Analyze(_, input) => seq![input],
        ExecInput::Explain(input) => seq![input],
        ExecInput::ScalarApply(_, left, right) => seq![left, right],
        ExecInput::MarkApply(_, left, right) => seq![left, right],
        ExecInput::HashJoin(_, left, right) => seq![left, right],
        ExecInput::NestedLoopJoin(_, left, right) => seq![left, right],
        ExecInput::SetMembership(_, left, right) => seq![left, right],
        ExecInput::Union(left, right) => seq![left, right],
        ExecInput::RecursiveCte(initial, step) => seq![initial, step],
        _ => Seq::empty(),
    }
}

/// The inputs of a plan, the left one first.
pub open spec fn plan_inputs(plan: LogicalPlan) -> Seq<LogicalPlan> {
    match *plan.childrens {
        Childrens::Only(input) => seq![*input],
        Childrens::Twins { left, right } => seq![*left, *right],
        Childrens::Leaf => Seq::empty(),
    }
}

/// Whether an executor carries out the operator.
pub open spec fn carries_out(input: ExecInput, operator: Operator) -> bool {
    match input {
        ExecInput::Dummy => operator is Dummy,
        ExecInput::ShowTables => operator is ShowTable,
        ExecInput::ShowViews => operator is ShowView,
        ExecInput::Explain(_) => operator is Explain,
        ExecInput::Union(..) => operator is Union,
        ExecInput::RecursiveCte(..) => operator is RecursiveCte,
        ExecInput::SetMembership(kind, ..) => operator matches Operator::SetMembership(op)
            && op.kind == kind,
        ExecInput::IndexScan { op, .. } => operator == Operator::TableScan(op),
        ExecInput::SeqScan(op) => operator == Operator::TableScan(op),
        ExecInput::FunctionScan(op) => operator == Operator::FunctionScan(op),
        ExecInput::Values(op) => operator == Operator::Values(op),
        ExecInput::Describe(op) => operator == Operator::Describe(op),
        ExecInput::RecursiveScan(op) => operator == Operator::RecursiveScan(op),
        ExecInput::AddColumn(op) => operator == Operator::AddColumn(op),
        ExecInput::ChangeColumn(op) => operator == Operator::ChangeColumn(op),
        ExecInput::DropColumn(op) => operator == Operator::DropColumn(op),
        ExecInput::CreateTable(op) => operator == Operator::CreateTable(op),
        ExecInput::CreateView(op) => operator == Operator::CreateView(op),
        ExecInput::DropTable(op) => operator == Operator::DropTable(op),
        ExecInput::DropView(op) => operator == Operator::DropView(op),
        ExecInput::DropIndex(op) => operator == Operator::DropIndex(op),
        ExecInput::Truncate(op) => operator == Operator::Truncate(op),
        ExecInput::CopyFromFile(op) => operator == Operator::CopyFromFile(op),
        ExecInput::SimpleAgg(op, _) => operator == Operator::Aggregate(op),
        ExecInput::StreamDistinct(op, _) => operator == Operator::Aggregate(op),
        ExecInput::StreamAgg(op, _) => operator == Operator::Aggregate(op),
        ExecInput::HashAgg(op, _) => operator == Operator::Aggregate(op),
        ExecInput::Filter(op, _) => operator == Operator::Filter(op),
        ExecInput::Projection(op, _) => operator == Operator::Project(op),
        ExecInput::ScalarSubquery(op, _) => operator == Operator::ScalarSubquery(op),
        ExecInput::ExternalSort(op, _) => operator == Operator::Sort(op),
        ExecInput::Sort(op, _) => operator == Operator::Sort(op),
        ExecInput::Limit(op, _) => operator == Operator::Limit(op),
        ExecInput::TopK(op, _) => operator == Operator::TopK(op),
        ExecInput::Window(op, _) => operator == Operator::Window(op),
        ExecInput::Insert(op, _) => operator == Operator::Insert(op),
        ExecInput::Update(op, _) => operator == Operator::Update(op),
        ExecInput::Delete(op, _) => operator == Operator::Delete(op),
        ExecInput::CreateIndex(op, _) => operator == Operator::CreateIndex(op),
        ExecInput::CopyToFile(op, _) => operator == Operator::CopyToFile(op),
        ExecInput::Analyze(op, _) => operator == Operator::Analyze(op),
        ExecInput::ScalarApply(op, ..) => operator == Operator::ScalarApply(op),
        ExecInput::MarkApply(op, ..) => operator == Operator::MarkApply(op),
        ExecInput::HashJoin(op, ..) => operator == Operator::Join(op),
        ExecInput::NestedLoopJoin(op, ..) => operator == Operator::Join(op),
    }
}

/// Whether the place is one for the operator.
pub open spec fn place_for<E>(node: ExecNode<E>, operator: Operator) -> bool {
    match node {
        ExecNode::Dummy(_) => operator is Dummy,
        ExecNode::ShowTables(_) => operator is ShowTable,
        ExecNode::ShowViews(_) => operator is ShowView,
        ExecNode::Explain(_) => operator is Explain,
        ExecNode::Union(_) => operator is Union,
        ExecNode::RecursiveCte(_) => operator is RecursiveCte,
        ExecNode::SetMembership(_) => operator is SetMembership,
        ExecNode::IndexScan(_) => operator is TableScan,
        ExecNode::SeqScan(_) => operator is TableScan,
        ExecNode::FunctionScan(_) => operator is FunctionScan,
        ExecNode::Values(_) => operator is Values,
        ExecNode::Describe(_) => operator is Describe,
        ExecNode::RecursiveScan(_) => operator is RecursiveScan,
        ExecNode::AddColumn(_) => operator is AddColumn,
        ExecNode::ChangeColumn(_) => operator is ChangeColumn,
        ExecNode::DropColumn(_) => operator is DropColumn,
        ExecNode::CreateTable(_) => operator is CreateTable,
        ExecNode::CreateView(_) => operator is CreateView,
        ExecNode::DropTable(_) => operator is DropTable,
        ExecNode::DropView(_) => operator is DropView,
        ExecNode::DropIndex(_) => operator is DropIndex,
        ExecNode::Truncate(_) => operator is Truncate,
        ExecNode::CopyFromFile(_) => operator is CopyFromFile,
        ExecNode::SimpleAgg(_) => operator is Aggregate,
        ExecNode::StreamDistinct(_) => operator is Aggregate,
        ExecNode::StreamAgg(_) => operator is Aggregate,
        ExecNode::HashAgg(_) => operator is Aggregate,
        ExecNode::Filter(_) => operator is Filter,
        ExecNode::Projection(_) => operator is Project,
        ExecNode::ScalarSubquery(_) => operator is ScalarSubquery,
        ExecNode::ExternalSort(_) => operator is Sort,
        ExecNode::Sort(_) => operator is Sort,
        ExecNode::Limit(_) => operator is Limit,
        ExecNode::TopK(_) => operator is TopK,
        ExecNode::Window(_) => operator is Window,
        ExecNode::Insert(_) => operator is Insert,
        ExecNode::Update(_) => operator is Update,
        ExecNode::Delete(_) => operator is Delete,
        ExecNode::CreateIndex(_) => operator is CreateIndex,
        ExecNode::CopyToFile(_) => operator is CopyToFile,
        ExecNode::Analyze(_) => operator is Analyze,
        ExecNode::ScalarApply(_) => operator is ScalarApply,
        ExecNode::MarkApply(_) => operator is MarkApply,
        ExecNode::HashJoin(_) => operator is Join,
        ExecNode::NestedLoopJoin(_) => operator is Join,
        ExecNode::Empty => false,
    }
}

/// An executor that reads carries out the operator of its plan, and where it draws rows, it draws
/// them from the inputs of the plan: the left one is its left one and the right one is its right one.
pub proof fn reader_takes_the_inputs_of_its_plan(plan: LogicalPlan)
    requires
        read_input(plan) is Some,
    ensures
        carries_out(read_input(plan)->0, plan.operator),
        drawn_plans(read_input(plan)->0).len() > 0 ==> drawn_plans(read_input(plan)->0)
            == plan_inputs(plan),
{
    let drawn = drawn_plans(read_input(plan)->0);
    assert(drawn.len() > 0 ==> drawn =~= plan_inputs(plan));
}

/// An executor carries out the operator of its plan, and where it draws rows, it draws them from the
/// inputs of the plan: the left one is its left one and the right one is its right one.
pub proof fn executor_takes_the_inputs_of_its_plan(plan: LogicalPlan)
    requires
        write_input(plan) is Some,
    ensures
        carries_out(write_input(plan)->0, plan.operator),
        drawn_plans(write_input(plan)->0).len() > 0 ==> drawn_plans(write_input(plan)->0)
            == plan_inputs(plan),
{
    let drawn = drawn_plans(write_input(plan)->0);
    assert(drawn.len() > 0 ==> drawn =~= plan_inputs(plan));
}

/// An executor stands in the place for what it carries out, and can be taken out of it again.
pub proof fn executor_stands_in_its_place<E>(input: ExecInput, operator: Operator, exec: E, other: E)
    requires
        carries_out(input, operator),
    ensures
        place_for(input.node(exec), operator),
        input.node(exec).executor() == Some(exec),
        input.node(exec).with(other) == input.node(other),
{
}

/// Another executor in a place takes the place of the one there, and nothing else changes.
pub proof fn replacing_keeps_the_place<E>(node: ExecNode<E>, operator: Operator, exec: E)
    requires
        place_for(node, operator),
    ensures
        place_for(node.with(exec), operator),
        node.with(exec).executor() == Some(exec),
        node.with(node.executor()->0) == node,
{
}

/// Executors of two different kinds never share a place.
pub proof fn places_tell_executors_apart<E>(first: ExecInput, second: ExecInput, exec: E)
    requires
        first.node(exec) == second.node(exec),
    ensures
        drawn_plans(first).len() == drawn_plans(second).len(),
        forall|operator: Operator|
            carries_out(first, operator) ==> #[trigger] place_for(second.node(exec), operator),
{
}

/// Rows are hashed by keys only where a join has keys, and an index is searched only where it was
/// chosen for the scan, with what the choice says.
pub proof fn implementation_was_chosen(plan: LogicalPlan)
    requires
        read_input(plan) is Some,
    ensures
        match read_input(plan)->0 {
            ExecInput::HashJoin(op, ..) => {
                &&& op.on matches JoinCondition::On { on, .. } && on@.len() > 0
                &&& plan.physical_option->0.plan is HashJoin
            },
            ExecInput::NestedLoopJoin(op, ..) => plan.physical_option is None
                || !(plan.physical_option->0.plan is HashJoin) || !(op.on is On)
                || op.on->on@.len() == 0,
            ExecInput::IndexScan { meta, lookup, covered_deserializers, cover_mapping, .. } => {
                &&& plan.physical_option is Some
                &&& plan.physical_option->0.plan matches PlanImpl::IndexScan(info) && info.meta
                    == meta && info.lookup == Some(lookup) && info.covered_deserializers
                    == covered_deserializers && info.cover_mapping == cover_mapping
            },
            ExecInput::SeqScan(_) => !(plan.physical_option matches Some(option)
                && (option.plan matches PlanImpl::IndexScan(info) && info.lookup is Some)),
            ExecInput::SimpleAgg(op, _) => op.groupby_exprs@.len() == 0,
            ExecInput::StreamDistinct(op, _) => {
                &&& op.groupby_exprs@.len() > 0 && op.agg_calls@.len() == 0 && op.is_distinct
                &&& plan.physical_option->0.plan is StreamDistinct
            },
            ExecInput::StreamAgg(op, _) => {
                &&& op.groupby_exprs@.len() > 0
                &&& plan.physical_option->0.plan is StreamAggregate
            },
            ExecInput::HashAgg(op, _) => {
                &&& op.groupby_exprs@.len() > 0
                &&& plan.physical_option is None || !(
                plan.physical_option->0.plan is StreamAggregate)
            },
            ExecInput::ExternalSort(..) => SPILL,
            ExecInput::Sort(..) => !SPILL,
            _ => true,
        },
{
}

} // verus!
