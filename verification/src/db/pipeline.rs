//! The rules that every statement goes through.

use crate::optimizer::heuristic::batch::{steps_of, HepBatchStrategy};
use crate::optimizer::heuristic::optimizer::{HepOptimizerPipeline, PipelineView};
use crate::optimizer::heuristic::passes::BatchView;
use crate::optimizer::rule::implementation::ImplementationRuleImpl;
use crate::optimizer::rule::normalization::NormalizationRuleImpl;
use vstd::prelude::*;

verus! {

/// A batch that is repeated until it changes nothing, but no more than so many times.
pub open spec fn run(times: usize, rules: Seq<NormalizationRuleImpl>) -> BatchView {
    BatchView { steps: steps_of(rules), strategy: HepBatchStrategy::MaxTimes(times) }
}

/// The rules that every statement goes through, in order.
pub open spec fn default_pipeline() -> PipelineView {
    PipelineView {
        before: seq![
            run(1, seq![NormalizationRuleImpl::ColumnPruning]),
            run(10, seq![NormalizationRuleImpl::SimplifyFilter]),
            run(1, seq![NormalizationRuleImpl::ConstantCalculation]),
            run(10, seq![NormalizationRuleImpl::PushPredicateThroughJoin,
                NormalizationRuleImpl::PushJoinPredicateIntoScan,
                NormalizationRuleImpl::PushPredicateIntoScan]),
            run(10, seq![NormalizationRuleImpl::LimitProjectTranspose,
                NormalizationRuleImpl::PushLimitThroughJoin]),
            run(1, seq![NormalizationRuleImpl::MinMaxToTopK, NormalizationRuleImpl::TopK]),
            run(10, seq![NormalizationRuleImpl::CollapseProject,
                NormalizationRuleImpl::CollapseGroupByAgg, NormalizationRuleImpl::CombineFilter]),
        ],
        after: seq![
            run(1, seq![NormalizationRuleImpl::ParameterizeMarkApply,
                NormalizationRuleImpl::ParameterizeInnerJoin]),
            run(1, seq![NormalizationRuleImpl::EliminateIndexFilter]),
            run(1, seq![NormalizationRuleImpl::EvaluatorBind]),
            run(10, seq![NormalizationRuleImpl::PushLimitIntoTableScan]),
        ],
        implementations: seq![
            ImplementationRuleImpl::SimpleAggregate,
            ImplementationRuleImpl::GroupByAggregate,
            ImplementationRuleImpl::Dummy,
            ImplementationRuleImpl::Filter,
            ImplementationRuleImpl::HashJoin,
            ImplementationRuleImpl::Limit,
            ImplementationRuleImpl::Projection,
            ImplementationRuleImpl::ScalarSubquery,
            ImplementationRuleImpl::SeqScan,
            ImplementationRuleImpl::IndexScan,
            ImplementationRuleImpl::FunctionScan,
            ImplementationRuleImpl::Sort,
            ImplementationRuleImpl::TopK,
            ImplementationRuleImpl::Values,
            ImplementationRuleImpl::Window,
            ImplementationRuleImpl::Analyze,
            ImplementationRuleImpl::CopyFromFile,
            ImplementationRuleImpl::CopyToFile,
            ImplementationRuleImpl::Delete,
            ImplementationRuleImpl::Insert,
            ImplementationRuleImpl::Update,
            ImplementationRuleImpl::AddColumn,
            ImplementationRuleImpl::ChangeColumn,
            ImplementationRuleImpl::CreateTable,
            ImplementationRuleImpl::DropColumn,
            ImplementationRuleImpl::DropTable,
            ImplementationRuleImpl::Truncate,
        ],
    }
}

/// The rules that every statement goes through, in order.
pub fn default_optimizer_pipeline() -> (res: HepOptimizerPipeline)
    ensures
        res@ == default_pipeline(),
{
    let builder = HepOptimizerPipeline::builder();
    let rules: Vec<NormalizationRuleImpl> = vec![NormalizationRuleImpl::ColumnPruning];
    assert(rules@ =~= seq![NormalizationRuleImpl::ColumnPruning]);
    let builder = builder.before_batch("Column Pruning".to_string(),
        HepBatchStrategy::once_topdown(), rules);
    let rules: Vec<NormalizationRuleImpl> = vec![NormalizationRuleImpl::SimplifyFilter];
    assert(rules@ =~= seq![NormalizationRuleImpl::SimplifyFilter]);
    let builder = builder.before_batch("Simplify Filter".to_string(),
        HepBatchStrategy::fix_point_topdown(10), rules);
    let rules: Vec<NormalizationRuleImpl> = vec![NormalizationRuleImpl::ConstantCalculation];
    assert(rules@ =~= seq![NormalizationRuleImpl::ConstantCalculation]);
    let builder = builder.before_batch("Constant Calculation".to_string(),
        HepBatchStrategy::once_topdown(), rules);
    let rules: Vec<NormalizationRuleImpl> = vec![NormalizationRuleImpl::PushPredicateThroughJoin,
        NormalizationRuleImpl::PushJoinPredicateIntoScan,
        NormalizationRuleImpl::PushPredicateIntoScan];
    assert(rules@ =~= seq![NormalizationRuleImpl::PushPredicateThroughJoin,
        NormalizationRuleImpl::PushJoinPredicateIntoScan,
        NormalizationRuleImpl::PushPredicateIntoScan]);
    let builder = builder.before_batch("Predicate Pushdown".to_string(),
        HepBatchStrategy::fix_point_topdown(10), rules);
    let rules: Vec<NormalizationRuleImpl> = vec![NormalizationRuleImpl::LimitProjectTranspose,
        NormalizationRuleImpl::PushLimitThroughJoin];
    assert(rules@ =~= seq![NormalizationRuleImpl::LimitProjectTranspose,
        NormalizationRuleImpl::PushLimitThroughJoin]);
    let builder = builder.before_batch("Limit Pushdown".to_string(),
        HepBatchStrategy::fix_point_topdown(10), rules);
    let rules: Vec<NormalizationRuleImpl> = vec![NormalizationRuleImpl::MinMaxToTopK,
        NormalizationRuleImpl::TopK];
    assert(rules@ =~= seq![NormalizationRuleImpl::MinMaxToTopK, NormalizationRuleImpl::TopK]);
    let builder = builder.before_batch("TopK".to_string(), HepBatchStrategy::once_topdown(), rules);
    let rules: Vec<NormalizationRuleImpl> = vec![NormalizationRuleImpl::CollapseProject,
        NormalizationRuleImpl::CollapseGroupByAgg, NormalizationRuleImpl::CombineFilter];
    assert(rules@ =~= seq![NormalizationRuleImpl::CollapseProject,
        NormalizationRuleImpl::CollapseGroupByAgg, NormalizationRuleImpl::CombineFilter]);
    let builder = builder.before_batch("Combine Operators".to_string(),
        HepBatchStrategy::fix_point_topdown(10), rules);
    let rules: Vec<NormalizationRuleImpl> = vec![NormalizationRuleImpl::ParameterizeMarkApply,
        NormalizationRuleImpl::ParameterizeInnerJoin];
    assert(rules@ =~= seq![NormalizationRuleImpl::ParameterizeMarkApply,
        NormalizationRuleImpl::ParameterizeInnerJoin]);
    let builder = builder.after_batch("Parameterize Mark Apply".to_string(),
        HepBatchStrategy::once_topdown(), rules);
    // Predicates may only be discarded once parameterization has chosen the final lookup: a probe
    // must not inherit what is left of a replaced range.
    let rules: Vec<NormalizationRuleImpl> = vec![NormalizationRuleImpl::EliminateIndexFilter];
    assert(rules@ =~= seq![NormalizationRuleImpl::EliminateIndexFilter]);
    let builder = builder.after_batch("Eliminate Index Filter".to_string(),
        HepBatchStrategy::once_topdown(), rules);
    let rules: Vec<NormalizationRuleImpl> = vec![NormalizationRuleImpl::EvaluatorBind];
    assert(rules@ =~= seq![NormalizationRuleImpl::EvaluatorBind]);
    let builder = builder.after_batch("Expression Remapper".to_string(),
        HepBatchStrategy::once_topdown(), rules);
    let rules: Vec<NormalizationRuleImpl> = vec![NormalizationRuleImpl::PushLimitIntoTableScan];
    assert(rules@ =~= seq![NormalizationRuleImpl::PushLimitIntoTableScan]);
    let builder = builder.after_batch("Limit Into Scan".to_string(),
        HepBatchStrategy::fix_point_topdown(10), rules);
    let builder = builder.implementations(
        vec![
            ImplementationRuleImpl::SimpleAggregate,
            ImplementationRuleImpl::GroupByAggregate,
            ImplementationRuleImpl::Dummy,
            ImplementationRuleImpl::Filter,
            ImplementationRuleImpl::HashJoin,
            ImplementationRuleImpl::Limit,
            ImplementationRuleImpl::Projection,
            ImplementationRuleImpl::ScalarSubquery,
            ImplementationRuleImpl::SeqScan,
            ImplementationRuleImpl::IndexScan,
            ImplementationRuleImpl::FunctionScan,
            ImplementationRuleImpl::Sort,
            ImplementationRuleImpl::TopK,
            ImplementationRuleImpl::Values,
            ImplementationRuleImpl::Window,
            ImplementationRuleImpl::Analyze,
            ImplementationRuleImpl::CopyFromFile,
            ImplementationRuleImpl::CopyToFile,
            ImplementationRuleImpl::Delete,
            ImplementationRuleImpl::Insert,
            ImplementationRuleImpl::Update,
            ImplementationRuleImpl::AddColumn,
            ImplementationRuleImpl::ChangeColumn,
            ImplementationRuleImpl::CreateTable,
            ImplementationRuleImpl::DropColumn,
            ImplementationRuleImpl::DropTable,
            ImplementationRuleImpl::Truncate,
        ],
    );
    let res = builder.build();
    assert(res@.before =~= default_pipeline().before);
    assert(res@.after =~= default_pipeline().after);
    assert(res@.implementations =~= default_pipeline().implementations);
    res
}

} // verus!
