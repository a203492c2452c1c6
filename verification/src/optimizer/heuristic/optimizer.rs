//! Optimization of a plan by a pipeline of rules.

use crate::errors::DatabaseError;
use crate::optimizer::heuristic::annotation::{
    annotate_hints_and_physical_options, annotated, HintsView, ScanHints,
};
use crate::optimizer::heuristic::batch::{
    steps_of, HepBatch, HepBatchStep, HepBatchStrategy, StepView,
};
use crate::optimizer::heuristic::passes::{
    all_come_to_rest, apply_batches, batch_views, batches_rewrite, BatchView,
};
use crate::optimizer::rule::implementation::{
    CostModel, ImplementationRuleImpl, ImplementationRuleIndex,
};
use crate::optimizer::rule::normalization::{
    follows, sound, NormalizationPassKind, NormalizationRuleImpl, RuleLibrary, Stage,
};
use crate::planner::arena::PlanArena;
use crate::planner::LogicalPlan;
use vstd::prelude::*;

verus! {

/// A plan on its way through a pipeline.
pub struct HepOptimizer<'a> {
    before_batches: &'a Vec<HepBatch>,
    after_batches: &'a Vec<HepBatch>,
    implementation_index: &'a ImplementationRuleIndex,
    max_local_rules_len: usize,
    plan: LogicalPlan,
}

/// Mathematical model of a [`HepOptimizerPipeline`].
pub struct PipelineView {
    pub before: Seq<BatchView>,
    pub after: Seq<BatchView>,
    pub implementations: Seq<ImplementationRuleImpl>,
}

impl PipelineView {
    /// Whether every batch has a limit.
    pub open spec fn limited(self) -> bool {
        &&& forall|i: int|
            0 <= i < self.before.len() ==> (#[trigger] self.before[i]).strategy.limit() is Some
        &&& forall|i: int|
            0 <= i < self.after.len() ==> (#[trigger] self.after[i]).strategy.limit() is Some
    }
}

/// What choosing how operators are carried out does, if anything is known about the costs and there
/// are rules for it.
pub open spec fn may_annotate<C: CostModel>(
    costs: Option<&C>,
    rules: Seq<ImplementationRuleImpl>,
    before: Stage,
    after: Stage,
    res: Result<(), DatabaseError>,
) -> bool {
    match costs {
        Some(costs) if rules.len() > 0 => annotated(
            costs,
            rules,
            HintsView::nothing(),
            before.arena,
            before.plan,
            after.plan,
            res,
        ) && after.arena == before.arena,
        _ => after == before && res == Ok::<(), DatabaseError>(()),
    }
}

/// What a pipeline does to a plan: the first batches, the choice of how operators are carried out,
/// the last batches. It ends at the first failure.
pub open spec fn optimizes<L: RuleLibrary, C: CostModel>(
    library: &L,
    costs: Option<&C>,
    pipeline: PipelineView,
    before: Stage,
    after: Stage,
    res: Result<(), DatabaseError>,
) -> bool {
    exists|rewritten: Stage, outcome: Result<(), DatabaseError>| #[trigger]
        batches_rewrite(library, pipeline.before, before, rewritten, outcome) && match outcome {
            Err(_) => after == rewritten && res == outcome,
            Ok(_) => exists|chosen: Stage, outcome: Result<(), DatabaseError>| #[trigger]
                may_annotate(costs, pipeline.implementations, rewritten, chosen, outcome)
                    && match outcome {
                    Err(_) => after == chosen && res == outcome,
                    Ok(_) => batches_rewrite(library, pipeline.after, chosen, after, res),
                },
        }
}

impl<'a> HepOptimizer<'a> {
    /// The pipeline that the plan goes through.
    pub closed spec fn pipeline(&self) -> PipelineView {
        PipelineView {
            before: batch_views(self.before_batches@),
            after: batch_views(self.after_batches@),
            implementations: self.implementation_index.rules@,
        }
    }

    /// The plan.
    pub closed spec fn plan(&self) -> LogicalPlan {
        self.plan
    }

    fn new(
        plan: LogicalPlan,
        before_batches: &'a Vec<HepBatch>,
        after_batches: &'a Vec<HepBatch>,
        implementation_index: &'a ImplementationRuleIndex,
        max_local_rules_len: usize,
    ) -> (res: Self)
        ensures
            res.plan() == plan,
            res.pipeline() == (PipelineView {
                before: batch_views(before_batches@),
                after: batch_views(after_batches@),
                implementations: implementation_index.rules@,
            }),
    {
        HepOptimizer {
            before_batches,
            after_batches,
            implementation_index,
            max_local_rules_len,
            plan,
        }
    }

    /// The plan that the pipeline makes of a plan.
    pub fn find_best<C: CostModel, L: RuleLibrary>(
        self,
        loader: Option<&C>,
        arena: &mut PlanArena,
        library: &L,
    ) -> (res: Result<LogicalPlan, DatabaseError>)
        requires
            sound(self.plan()@, old(arena)@),
            all_come_to_rest(library, self.pipeline().before),
            all_come_to_rest(library, self.pipeline().after),
        ensures
            match res {
                Ok(plan) => {
                    let after = Stage { plan: plan@, arena: final(arena)@ };
                    &&& optimizes(
                        library,
                        loader,
                        self.pipeline(),
                        Stage { plan: self.plan()@, arena: old(arena)@ },
                        after,
                        Ok(()),
                    )
                    &&& follows((Stage { plan: self.plan()@, arena: old(arena)@ }), after)
                },
                Err(err) => exists|after: Stage| #[trigger]
                    optimizes(
                        library,
                        loader,
                        self.pipeline(),
                        Stage { plan: self.plan()@, arena: old(arena)@ },
                        after,
                        Err(err),
                    ),
            },
    {
        let ghost pipeline = self.pipeline();
        let ghost start = Stage { plan: self.plan@, arena: arena@ };
        let mut plan = self.plan;
        let mut applied_rules: Vec<bool> = Vec::with_capacity(self.max_local_rules_len);
        let first = apply_batches(
            &mut plan,
            self.before_batches,
            &mut applied_rules,
            arena,
            library,
        );
        let ghost rewritten = Stage { plan: plan@, arena: arena@ };
        assert(batches_rewrite(library, pipeline.before, start, rewritten, first));
        if let Err(err) = first {
            assert(optimizes(library, loader, pipeline, start, rewritten, Err(err)));
            return Err(err);
        }
        let second = match loader {
            Some(loader) => {
                if !self.implementation_index.is_empty() {
                    let hints = ScanHints::nothing();
                    annotate_hints_and_physical_options(
                        &mut plan,
                        loader,
                        self.implementation_index,
                        &hints,
                        arena,
                    )
                } else {
                    Ok(())
                }
            },
            None => Ok(()),
        };
        let ghost chosen = Stage { plan: plan@, arena: arena@ };
        assert(may_annotate(loader, pipeline.implementations, rewritten, chosen, second));
        if let Err(err) = second {
            assert(optimizes(library, loader, pipeline, start, chosen, Err(err)));
            return Err(err);
        }
        let third = apply_batches(
            &mut plan,
            self.after_batches,
            &mut applied_rules,
            arena,
            library,
        );
        let ghost after = Stage { plan: plan@, arena: arena@ };
        assert(batches_rewrite(library, pipeline.after, chosen, after, third));
        assert(optimizes(library, loader, pipeline, start, after, third));
        match third {
            Err(err) => Err(err),
            Ok(unit) => {
                assert(unit == ());
                Ok(plan)
            },
        }
    }
}

/// The rules that plans go through, in order.
#[derive(Clone, Debug)]
pub struct HepOptimizerPipeline {
    before_batches: Vec<HepBatch>,
    after_batches: Vec<HepBatch>,
    implementation_index: ImplementationRuleIndex,
    max_local_rules_len: usize,
}

/// The largest number of rules in a step that goes operator by operator.
pub open spec fn longest_local(steps: Seq<StepView>) -> nat
    decreases steps.len(),
{
    if steps.len() == 0 {
        0
    } else {
        let front = longest_local(steps.drop_last());
        if steps.last().pass == NormalizationPassKind::LocalRewrite && front
            < steps.last().rules.len() {
            steps.last().rules.len()
        } else {
            front
        }
    }
}

/// The largest number of rules in a step of the batches that goes operator by operator.
pub open spec fn longest_step(batches: Seq<BatchView>) -> nat
    decreases batches.len(),
{
    if batches.len() == 0 {
        0
    } else {
        let front = longest_step(batches.drop_last());
        let last = longest_local(batches.last().steps);
        if front < last {
            last
        } else {
            front
        }
    }
}

fn longest_local_step(batch: &HepBatch) -> (res: usize)
    ensures
        res == longest_local(batch@.steps),
{
    let ghost steps = batch@.steps;
    let mut res: usize = 0;
    let mut i: usize = 0;
    assert(steps.take(0) =~= Seq::empty());
    while i < batch.steps.len()
        invariant
            i <= batch.steps.len(),
            steps == batch@.steps,
            steps.len() == batch.steps@.len(),
            res == longest_local(steps.take(i as int)),
        decreases batch.steps.len() - i,
    {
        proof {
            let next = steps.take(i + 1);
            assert(next.drop_last() =~= steps.take(i as int));
            assert(next.last() == steps[i as int]);
            assert(steps[i as int] == batch.steps@[i as int]@);
        }
        if let HepBatchStep::LocalRewrite(rules) = &batch.steps[i] {
            if res < rules.len() {
                res = rules.len();
            }
        }
        i += 1;
    }
    assert(steps.take(i as int) =~= steps);
    res
}

fn longest_batch_step(batches: &Vec<HepBatch>) -> (res: usize)
    ensures
        res == longest_step(batch_views(batches@)),
{
    let ghost views = batch_views(batches@);
    let mut res: usize = 0;
    let mut i: usize = 0;
    assert(views.take(0) =~= Seq::empty());
    while i < batches.len()
        invariant
            i <= batches.len(),
            views == batch_views(batches@),
            views.len() == batches@.len(),
            res == longest_step(views.take(i as int)),
        decreases batches.len() - i,
    {
        proof {
            let next = views.take(i + 1);
            assert(next.drop_last() =~= views.take(i as int));
            assert(next.last() == views[i as int]);
            assert(views[i as int] == batches@[i as int]@);
        }
        let len: usize = longest_local_step(&batches[i]);
        if res < len {
            res = len;
        }
        i += 1;
    }
    assert(views.take(i as int) =~= views);
    res
}

impl View for HepOptimizerPipeline {
    type V = PipelineView;

    closed spec fn view(&self) -> PipelineView {
        PipelineView {
            before: batch_views(self.before_batches@),
            after: batch_views(self.after_batches@),
            implementations: self.implementation_index.rules@,
        }
    }
}

impl HepOptimizerPipeline {
    /// The room that is made for the flags of the rules of one step.
    pub closed spec fn room(&self) -> nat {
        self.max_local_rules_len as nat
    }

    /// A pipeline without rules, to be extended.
    pub fn builder() -> (res: HepOptimizerPipelineBuilder)
        ensures
            res@ == (PipelineView {
                before: Seq::empty(),
                after: Seq::empty(),
                implementations: Seq::empty(),
            }),
    {
        let res = HepOptimizerPipelineBuilder {
            before_batches: Vec::new(),
            after_batches: Vec::new(),
            implementations: Vec::new(),
        };
        assert(batch_views(res.before_batches@) =~= Seq::empty());
        assert(batch_views(res.after_batches@) =~= Seq::empty());
        res
    }

    /// A pipeline of batches and implementation rules.
    pub fn new(
        before_batches: Vec<HepBatch>,
        after_batches: Vec<HepBatch>,
        implementations: Vec<ImplementationRuleImpl>,
    ) -> (res: Self)
        ensures
            res@ == (PipelineView {
                before: batch_views(before_batches@),
                after: batch_views(after_batches@),
                implementations: implementations@,
            }),
            res.room() == if longest_step(res@.before) < longest_step(res@.after) {
                longest_step(res@.after)
            } else {
                longest_step(res@.before)
            },
    {
        let before_len: usize = longest_batch_step(&before_batches);
        let after_len: usize = longest_batch_step(&after_batches);
        let max_local_rules_len: usize = if before_len < after_len {
            after_len
        } else {
            before_len
        };
        HepOptimizerPipeline {
            before_batches,
            after_batches,
            implementation_index: ImplementationRuleIndex::new(implementations),
            max_local_rules_len,
        }
    }

    /// Sends a plan through the pipeline.
    pub fn instantiate(&self, plan: LogicalPlan) -> (res: HepOptimizer<'_>)
        ensures
            res.plan() == plan,
            res.pipeline() == self@,
    {
        HepOptimizer::new(
            plan,
            &self.before_batches,
            &self.after_batches,
            &self.implementation_index,
            self.max_local_rules_len,
        )
    }
}

impl Default for HepOptimizerPipeline {
    fn default() -> (res: Self)
        ensures
            res@ == (PipelineView {
                before: Seq::empty(),
                after: Seq::empty(),
                implementations: Seq::empty(),
            }),
    {
        HepOptimizerPipeline::builder().build()
    }
}

/// A pipeline in the making.
pub struct HepOptimizerPipelineBuilder {
    before_batches: Vec<HepBatch>,
    after_batches: Vec<HepBatch>,
    implementations: Vec<ImplementationRuleImpl>,
}

impl View for HepOptimizerPipelineBuilder {
    type V = PipelineView;

    closed spec fn view(&self) -> PipelineView {
        PipelineView {
            before: batch_views(self.before_batches@),
            after: batch_views(self.after_batches@),
            implementations: self.implementations@,
        }
    }
}

impl HepOptimizerPipelineBuilder {
    /// Adds a batch that runs before the choice of how operators are carried out.
    pub fn before_batch(
        self,
        name: String,
        strategy: HepBatchStrategy,
        rules: Vec<NormalizationRuleImpl>,
    ) -> (res: Self)
        ensures
            res@ == (PipelineView {
                before: self@.before.push(BatchView { steps: steps_of(rules@), strategy }),
                ..self@
            }),
    {
        let mut res = self;
        let ghost before = batch_views(res.before_batches@);
        res.before_batches.push(HepBatch::new(name, strategy, rules));
        assert(batch_views(res.before_batches@) =~= before.push(
            BatchView { steps: steps_of(rules@), strategy },
        ));
        res
    }

    /// Adds a batch that runs after the choice of how operators are carried out.
    pub fn after_batch(
        self,
        name: String,
        strategy: HepBatchStrategy,
        rules: Vec<NormalizationRuleImpl>,
    ) -> (res: Self)
        ensures
            res@ == (PipelineView {
                after: self@.after.push(BatchView { steps: steps_of(rules@), strategy }),
                ..self@
            }),
    {
        let mut res = self;
        let ghost before = batch_views(res.after_batches@);
        res.after_batches.push(HepBatch::new(name, strategy, rules));
        assert(batch_views(res.after_batches@) =~= before.push(
            BatchView { steps: steps_of(rules@), strategy },
        ));
        res
    }

    /// Sets the rules that choose how operators are carried out.
    pub fn implementations(self, implementations: Vec<ImplementationRuleImpl>) -> (res: Self)
        ensures
            res@ == (PipelineView { implementations: implementations@, ..self@ }),
    {
        let mut res = self;
        res.implementations = implementations;
        res
    }

    /// The pipeline.
    pub fn build(self) -> (res: HepOptimizerPipeline)
        ensures
            res@ == self@,
    {
        HepOptimizerPipeline::new(self.before_batches, self.after_batches, self.implementations)
    }
}

/// A pipeline without rules leaves every plan as it is.
pub proof fn empty_pipeline_changes_nothing<L: RuleLibrary, C: CostModel>(
    library: &L,
    costs: Option<&C>,
    before: Stage,
    after: Stage,
    res: Result<(), DatabaseError>,
)
    requires
        optimizes(
            library,
            costs,
            (PipelineView {
                before: Seq::empty(),
                after: Seq::empty(),
                implementations: Seq::empty(),
            }),
            before,
            after,
            res,
        ),
    ensures
        after == before,
        res is Ok,
{
}

} // verus!
