//! Passes over whole plans, and the repetition of batches.

use crate::errors::DatabaseError;
use crate::optimizer::heuristic::batch::{
    step_views, HepBatch, HepBatchStep, HepBatchStrategy, HepLocalRewriteBatch, HepWholeTreePass,
    StepView,
};
use crate::optimizer::heuristic::rewriting::{
    apply_local_rules_inner, changed, children_sound, lemma_children_sound, lemma_follows_trans,
    lemma_uncached_follows, lemma_with_inputs_sound, tree_rules, uncached, with_inputs,
};
use crate::optimizer::rule::normalization::{
    follows, rule_rewrites, sound, NormalizationPassKind, NormalizationRuleImpl, RuleLibrary,
    Stage, WholeTreePassKind,
};
use crate::planner::arena::{ArenaView, PlanArena};
use crate::planner::schema::lemma_plan_valid_within;
use crate::planner::{ChildrenView, Childrens, LogicalPlan};
use vstd::prelude::*;

verus! {

/// What trying the rules of a pass on the whole plan, one after the other, does.
pub open spec fn pass_rules<L: RuleLibrary>(
    library: &L,
    rules: Seq<NormalizationRuleImpl>,
    before: Stage,
    after: Stage,
    res: Result<bool, DatabaseError>,
) -> bool
    decreases rules.len(),
{
    if rules.len() == 0 {
        after == before && res == Ok::<bool, DatabaseError>(false)
    } else {
        exists|middle: Stage, sofar: Result<bool, DatabaseError>|
            pass_rules(library, rules.drop_last(), before, middle, sofar) && #[trigger] passes_rule(
                library,
                rules.last(),
                middle,
                sofar,
                after,
                res,
            )
    }
}

/// What trying one more rule of a pass does.
pub open spec fn passes_rule<L: RuleLibrary>(
    library: &L,
    rule: NormalizationRuleImpl,
    before: Stage,
    sofar: Result<bool, DatabaseError>,
    after: Stage,
    res: Result<bool, DatabaseError>,
) -> bool {
    match sofar {
        Err(_) => after == before && res == sofar,
        Ok(applied) => exists|outcome: Result<bool, DatabaseError>| #[trigger]
            rule_rewrites(library, rule, before, after, outcome) && res == match outcome {
                Ok(fired) => Ok(applied || fired),
                Err(err) => Err(err),
            },
    }
}

/// What rewriting the expressions of one operator does, first by calculating constants, then by
/// preparing evaluators.
pub open spec fn node_exprs<L: RuleLibrary>(
    library: &L,
    constants: bool,
    evaluators: bool,
    before: Stage,
    after: Stage,
    res: Result<(), DatabaseError>,
) -> bool {
    exists|middle: Stage, outcome: Result<(), DatabaseError>| #[trigger]
        may_recompute(
            library,
            constants,
            NormalizationRuleImpl::ConstantCalculation,
            before,
            middle,
            outcome,
        ) && match outcome {
            Err(_) => after == middle && res == outcome,
            Ok(_) => may_recompute(
                library,
                evaluators,
                NormalizationRuleImpl::EvaluatorBind,
                middle,
                after,
                res,
            ),
        }
}

/// What rewriting the expressions of one operator does, if it is asked for.
pub open spec fn may_recompute<L: RuleLibrary>(
    library: &L,
    asked: bool,
    rule: NormalizationRuleImpl,
    before: Stage,
    after: Stage,
    res: Result<(), DatabaseError>,
) -> bool {
    if asked {
        library.recomputes(rule, before, after, res)
    } else {
        after == before && res == Ok::<(), DatabaseError>(())
    }
}

/// Always true: this says nothing about a stage of a rewriting. It only mentions one, which gives a
/// quantifier over stages something to match.
pub open spec fn mentions_stage(stage: Stage, res: Result<(), DatabaseError>) -> bool {
    true
}

/// What rewriting the expressions of every operator does, the inputs before the operator, the left
/// input before the right one.
pub open spec fn tree_exprs<L: RuleLibrary>(
    library: &L,
    constants: bool,
    evaluators: bool,
    before: Stage,
    after: Stage,
    res: Result<(), DatabaseError>,
) -> bool
    decreases before.plan,
{
    exists|inputs: Stage, outcome: Result<(), DatabaseError>| #[trigger]
        mentions_stage(inputs, outcome) && (match before.plan.children {
            ChildrenView::Leaf => inputs == before && outcome == Ok::<(), DatabaseError>(()),
            ChildrenView::Only(child) => exists|below: Stage| #[trigger]
                mentions_stage(below, outcome) && tree_exprs(
                    library,
                    constants,
                    evaluators,
                    Stage { plan: *child, arena: before.arena },
                    below,
                    outcome,
                ) && inputs == Stage {
                    plan: with_inputs(
                        before.plan,
                        ChildrenView::Only(Box::new(below.plan)),
                        false,
                    ),
                    arena: below.arena,
                },
            ChildrenView::Twins { left, right } => exists|
                first: Stage,
                left_outcome: Result<(), DatabaseError>,
                second: Stage,
            |
                #[trigger] mentions_stage(first, left_outcome) && #[trigger] mentions_stage(second, outcome)
                    && tree_exprs(
                    library,
                    constants,
                    evaluators,
                    Stage { plan: *left, arena: before.arena },
                    first,
                    left_outcome,
                ) && (match left_outcome {
                    Err(_) => second == (Stage { plan: *right, arena: first.arena }) && outcome
                        == left_outcome,
                    Ok(_) => tree_exprs(
                        library,
                        constants,
                        evaluators,
                        Stage { plan: *right, arena: first.arena },
                        second,
                        outcome,
                    ),
                }) && inputs == Stage {
                    plan: with_inputs(
                        before.plan,
                        ChildrenView::Twins {
                            left: Box::new(first.plan),
                            right: Box::new(second.plan),
                        },
                        false,
                    ),
                    arena: second.arena,
                },
        }) && (match outcome {
            Err(_) => after == inputs && res == outcome,
            Ok(_) => node_exprs(library, constants, evaluators, inputs, after, res),
        })
}

/// The flags of rules none of which has fired.
pub open spec fn none_fired(len: nat) -> Seq<bool> {
    Seq::new(len, |i: int| false)
}

/// What a step of a batch does to a plan.
pub open spec fn step_rewrites<L: RuleLibrary>(
    library: &L,
    step: StepView,
    before: Stage,
    after: Stage,
    res: Result<bool, DatabaseError>,
) -> bool {
    match step.pass {
        NormalizationPassKind::LocalRewrite => exists|depth: nat, now_fired: Seq<bool>| #[trigger]
            tree_rules(
                library,
                step.rules,
                depth,
                before,
                none_fired(step.rules.len()),
                after,
                now_fired,
                res,
            ),
        NormalizationPassKind::WholeTreePass(WholeTreePassKind::ColumnPruning) => exists|
            middle: Stage,
        |
            #[trigger] pass_rules(library, step.rules, before, middle, res) && after == if changed(
                res,
            ) {
                uncached(middle)
            } else {
                middle
            },
        NormalizationPassKind::WholeTreePass(WholeTreePassKind::ExpressionRewrite) => exists|
            middle: Stage,
            outcome: Result<(), DatabaseError>,
        |
            #[trigger] tree_exprs(
                library,
                step.rules.contains(NormalizationRuleImpl::ConstantCalculation),
                step.rules.contains(NormalizationRuleImpl::EvaluatorBind),
                before,
                middle,
                outcome,
            ) && match outcome {
                Err(err) => after == middle && res == Err::<bool, _>(err),
                Ok(_) => after == uncached(middle) && res == Ok::<bool, DatabaseError>(true),
            },
    }
}

/// What the steps of a batch, one after the other, do to a plan.
pub open spec fn round_rewrites<L: RuleLibrary>(
    library: &L,
    steps: Seq<StepView>,
    before: Stage,
    after: Stage,
    res: Result<bool, DatabaseError>,
) -> bool
    decreases steps.len(),
{
    if steps.len() == 0 {
        after == before && res == Ok::<bool, DatabaseError>(false)
    } else {
        exists|middle: Stage, sofar: Result<bool, DatabaseError>|
            round_rewrites(library, steps.drop_last(), before, middle, sofar)
                && #[trigger] steps_on(library, steps.last(), middle, sofar, after, res)
    }
}

/// What one more step of a batch does to a plan.
pub open spec fn steps_on<L: RuleLibrary>(
    library: &L,
    step: StepView,
    before: Stage,
    sofar: Result<bool, DatabaseError>,
    after: Stage,
    res: Result<bool, DatabaseError>,
) -> bool {
    match sofar {
        Err(_) => after == before && res == sofar,
        Ok(applied) => exists|outcome: Result<bool, DatabaseError>| #[trigger]
            step_rewrites(library, step, before, after, outcome) && res == match outcome {
                Ok(fired) => Ok(applied || fired),
                Err(err) => Err(err),
            },
    }
}

/// Whether a plan comes from another one by so many rounds, each of which changed something.
pub open spec fn rounds<L: RuleLibrary>(
    library: &L,
    steps: Seq<StepView>,
    count: nat,
    before: Stage,
    after: Stage,
) -> bool
    decreases count,
{
    if count == 0 {
        after == before
    } else {
        exists|middle: Stage|
            rounds(library, steps, (count - 1) as nat, before, middle)
                && #[trigger] round_rewrites(
                library,
                steps,
                middle,
                after,
                Ok::<bool, DatabaseError>(true),
            )
    }
}

/// Whether a batch cannot change something so many times, one round after the other.
pub open spec fn rests_after<L: RuleLibrary>(
    library: &L,
    steps: Seq<StepView>,
    count: nat,
    before: Stage,
) -> bool {
    forall|after: Stage| !(#[trigger] rounds(library, steps, count, before, after))
}

/// Whether a batch changes a plan only so often, however many times it is repeated.
pub open spec fn rests_from<L: RuleLibrary>(
    library: &L,
    steps: Seq<StepView>,
    before: Stage,
) -> bool {
    exists|count: nat| #[trigger] rests_after(library, steps, count, before)
}

/// Whether the repetition of a batch comes to an end: it has a limit, or there is no plan that the
/// batch changes again and again.
pub open spec fn comes_to_rest<L: RuleLibrary>(library: &L, batch: BatchView) -> bool {
    batch.strategy.limit() is None ==> forall|before: Stage|
        sound(before.plan, before.arena) ==> #[trigger] rests_from(library, batch.steps, before)
}

/// Whether the repetition of every batch comes to an end.
pub open spec fn all_come_to_rest<L: RuleLibrary>(library: &L, batches: Seq<BatchView>) -> bool {
    forall|i: int| 0 <= i < batches.len() ==> comes_to_rest(library, #[trigger] batches[i])
}

/// What a batch does to a plan: it is repeated as long as it changes something and its limit, if
/// it has one, is not reached.
pub open spec fn batch_rewrites<L: RuleLibrary>(
    library: &L,
    steps: Seq<StepView>,
    strategy: HepBatchStrategy,
    before: Stage,
    after: Stage,
    res: Result<(), DatabaseError>,
) -> bool {
    exists|count: nat, middle: Stage| #[trigger]
        rounds(library, steps, count, before, middle) && (strategy.limit() matches Some(limit)
            ==> count <= limit) && if strategy.limit() == Some(count) {
            after == middle && res == Ok::<(), DatabaseError>(())
        } else {
            exists|outcome: Result<bool, DatabaseError>| #[trigger]
                round_rewrites(library, steps, middle, after, outcome) && match outcome {
                    Ok(fired) => !fired && res == Ok::<(), DatabaseError>(()),
                    Err(err) => res == Err::<(), _>(err),
                }
        }
}

/// Mathematical model of a batch: its steps, and how often it is repeated.
pub struct BatchView {
    pub steps: Seq<StepView>,
    pub strategy: HepBatchStrategy,
}

impl View for HepBatch {
    type V = BatchView;

    open spec fn view(&self) -> BatchView {
        BatchView { steps: step_views(self.steps@), strategy: self.strategy }
    }
}

/// The models of the batches.
pub open spec fn batch_views(batches: Seq<HepBatch>) -> Seq<BatchView> {
    batches.map_values(|batch: HepBatch| batch@)
}

/// What batches, one after the other, do to a plan.
pub open spec fn batches_rewrite<L: RuleLibrary>(
    library: &L,
    batches: Seq<BatchView>,
    before: Stage,
    after: Stage,
    res: Result<(), DatabaseError>,
) -> bool
    decreases batches.len(),
{
    if batches.len() == 0 {
        after == before && res == Ok::<(), DatabaseError>(())
    } else {
        exists|middle: Stage, sofar: Result<(), DatabaseError>|
            batches_rewrite(library, batches.drop_last(), before, middle, sofar)
                && #[trigger] batches_on(library, batches.last(), middle, sofar, after, res)
    }
}

/// What one more batch does to a plan.
pub open spec fn batches_on<L: RuleLibrary>(
    library: &L,
    batch: BatchView,
    before: Stage,
    sofar: Result<(), DatabaseError>,
    after: Stage,
    res: Result<(), DatabaseError>,
) -> bool {
    match sofar {
        Err(_) => after == before && res == sofar,
        Ok(_) => batch_rewrites(library, batch.steps, batch.strategy, before, after, res),
    }
}

/// Tries the rules of a list at each operator of a plan; a rule that fired once is not tried again.
pub fn apply_local_rules<L: RuleLibrary>(
    plan: &mut LogicalPlan,
    rules: &HepLocalRewriteBatch,
    applied_rules: &mut Vec<bool>,
    arena: &mut PlanArena,
    library: &L,
) -> (res: Result<bool, DatabaseError>)
    requires
        sound(old(plan)@, old(arena)@),
    ensures
        step_rewrites(
            library,
            (StepView { pass: NormalizationPassKind::LocalRewrite, rules: rules.rules@ }),
            (Stage { plan: old(plan)@, arena: old(arena)@ }),
            (Stage { plan: final(plan)@, arena: final(arena)@ }),
            res,
        ),
        follows(
            (Stage { plan: old(plan)@, arena: old(arena)@ }),
            (Stage { plan: final(plan)@, arena: final(arena)@ }),
        ),
{
    applied_rules.clear();
    let len: usize = rules.len();
    let mut i: usize = 0;
    while i < len
        invariant
            i <= len,
            applied_rules@.len() == i,
            forall|j: int| 0 <= j < i ==> !applied_rules@[j],
        decreases len - i,
    {
        applied_rules.push(false);
        i += 1;
    }
    assert(applied_rules@ =~= none_fired(rules.rules@.len()));
    let ghost start = Stage { plan: plan@, arena: arena@ };
    let res = apply_local_rules_inner(plan, rules, applied_rules, arena, library);
    proof {
        let after = Stage { plan: plan@, arena: arena@ };
        let step = StepView { pass: NormalizationPassKind::LocalRewrite, rules: rules.rules@ };
        let depth = choose|depth: nat| #[trigger]
            tree_rules(
                library,
                rules.rules@,
                depth,
                start,
                none_fired(rules.rules@.len()),
                after,
                applied_rules@,
                res,
            );
        assert(tree_rules(
            library,
            step.rules,
            depth,
            start,
            none_fired(step.rules.len()),
            after,
            applied_rules@,
            res,
        ));
    }
    res
}

/// Rewrites the expressions of the topmost operator.
fn rewrite_current<L: RuleLibrary>(
    plan: &mut LogicalPlan,
    has_constant_calculation: bool,
    has_evaluator_bind: bool,
    arena: &mut PlanArena,
    library: &L,
) -> (res: Result<(), DatabaseError>)
    requires
        sound(old(plan)@, old(arena)@),
    ensures
        node_exprs(
            library,
            has_constant_calculation,
            has_evaluator_bind,
            (Stage { plan: old(plan)@, arena: old(arena)@ }),
            (Stage { plan: final(plan)@, arena: final(arena)@ }),
            res,
        ),
        follows(
            (Stage { plan: old(plan)@, arena: old(arena)@ }),
            (Stage { plan: final(plan)@, arena: final(arena)@ }),
        ),
{
    let ghost start = Stage { plan: plan@, arena: arena@ };
    let outcome = if has_constant_calculation {
        library.apply_current(NormalizationRuleImpl::ConstantCalculation, plan, arena)
    } else {
        Ok(())
    };
    let ghost middle = Stage { plan: plan@, arena: arena@ };
    assert(may_recompute(
        library,
        has_constant_calculation,
        NormalizationRuleImpl::ConstantCalculation,
        start,
        middle,
        outcome,
    ));
    if outcome.is_err() {
        return outcome;
    }
    if has_evaluator_bind {
        let res = library.apply_current(NormalizationRuleImpl::EvaluatorBind, plan, arena);
        proof {
            lemma_follows_trans(start, middle, (Stage { plan: plan@, arena: arena@ }));
        }
        return res;
    }
    Ok(())
}

/// Rewrites the expressions of every operator, the inputs before the operator.
pub fn apply_expression_rewrite_pass<L: RuleLibrary>(
    plan: &mut LogicalPlan,
    has_constant_calculation: bool,
    has_evaluator_bind: bool,
    arena: &mut PlanArena,
    library: &L,
) -> (res: Result<(), DatabaseError>)
    requires
        sound(old(plan)@, old(arena)@),
    ensures
        tree_exprs(
            library,
            has_constant_calculation,
            has_evaluator_bind,
            (Stage { plan: old(plan)@, arena: old(arena)@ }),
            (Stage { plan: final(plan)@, arena: final(arena)@ }),
            res,
        ),
        follows(
            (Stage { plan: old(plan)@, arena: old(arena)@ }),
            (Stage { plan: final(plan)@, arena: final(arena)@ }),
        ),
    decreases *old(plan), 0nat,
{
    let ghost start = Stage { plan: plan@, arena: arena@ };
    proof {
        assert(plan.childrens@ == plan@.children);
        lemma_children_sound(plan@, arena@);
    }
    let below = (&mut *plan.childrens).rewrite_exprs(
        has_constant_calculation,
        has_evaluator_bind,
        arena,
        library,
    );
    let ghost inputs = Stage { plan: plan@, arena: arena@ };
    proof {
        assert(plan.childrens@ == plan@.children);
        lemma_with_inputs_sound(start, plan@.children, arena@, false);
        assert(inputs.plan == with_inputs(start.plan, plan@.children, false));
        assert(mentions_stage(inputs, below));
    }
    if below.is_err() {
        return below;
    }
    let res = rewrite_current(
        plan,
        has_constant_calculation,
        has_evaluator_bind,
        arena,
        library,
    );
    proof {
        lemma_follows_trans(start, inputs, (Stage { plan: plan@, arena: arena@ }));
    }
    res
}

/// What rewriting the expressions of the inputs does to them.
pub open spec fn children_exprs<L: RuleLibrary>(
    library: &L,
    constants: bool,
    evaluators: bool,
    before: ChildrenView,
    before_arena: ArenaView,
    after: ChildrenView,
    after_arena: ArenaView,
    res: Result<(), DatabaseError>,
) -> bool {
    match before {
        ChildrenView::Leaf => after == before && after_arena == before_arena && res == Ok::<
            (),
            DatabaseError,
        >(()),
        ChildrenView::Only(child) => {
            let below = Stage { plan: *after->Only_0, arena: after_arena };
            after is Only && mentions_stage(below, res) && tree_exprs(
                library,
                constants,
                evaluators,
                Stage { plan: *child, arena: before_arena },
                below,
                res,
            )
        },
        ChildrenView::Twins { left, right } => exists|
            first: Stage,
            left_outcome: Result<(), DatabaseError>,
            second: Stage,
        |
            #[trigger] mentions_stage(first, left_outcome) && #[trigger] mentions_stage(second, res)
                && tree_exprs(
                library,
                constants,
                evaluators,
                Stage { plan: *left, arena: before_arena },
                first,
                left_outcome,
            ) && (match left_outcome {
                Err(_) => second == (Stage { plan: *right, arena: first.arena }) && res
                    == left_outcome,
                Ok(_) => tree_exprs(
                    library,
                    constants,
                    evaluators,
                    Stage { plan: *right, arena: first.arena },
                    second,
                    res,
                ),
            }) && after == (ChildrenView::Twins {
                left: Box::new(first.plan),
                right: Box::new(second.plan),
            }) && after_arena == second.arena,
    }
}

impl Childrens {
    /// Rewrites the expressions of every operator of the inputs.
    fn rewrite_exprs<L: RuleLibrary>(
        &mut self,
        has_constant_calculation: bool,
        has_evaluator_bind: bool,
        arena: &mut PlanArena,
        library: &L,
    ) -> (res: Result<(), DatabaseError>)
        requires
            children_sound(old(self)@, old(arena)@),
        ensures
            children_exprs(
                library,
                has_constant_calculation,
                has_evaluator_bind,
                old(self)@,
                old(arena)@,
                final(self)@,
                final(arena)@,
                res,
            ),
            children_sound(final(self)@, final(arena)@),
            old(arena)@.within(final(arena)@),
            old(arena)@.indexes == final(arena)@.indexes,
            final(self)@.same_arity(old(self)@),
        decreases *old(self), 1nat,
    {
        match self {
            Childrens::Leaf => Ok(()),
            Childrens::Only(child) => apply_expression_rewrite_pass(
                &mut **child,
                has_constant_calculation,
                has_evaluator_bind,
                arena,
                library,
            ),
            Childrens::Twins { left, right } => {
                let ghost before = arena@;
                let ghost right_view = right@;
                let first_res = apply_expression_rewrite_pass(
                    &mut **left,
                    has_constant_calculation,
                    has_evaluator_bind,
                    arena,
                    library,
                );
                let ghost first = Stage { plan: left@, arena: arena@ };
                proof {
                    assert(mentions_stage(first, first_res));
                    lemma_plan_valid_within(right_view, before, first.arena);
                    assert(mentions_stage((Stage { plan: right_view, arena: first.arena }), first_res));
                }
                if first_res.is_err() {
                    return first_res;
                }
                let res = apply_expression_rewrite_pass(
                    &mut **right,
                    has_constant_calculation,
                    has_evaluator_bind,
                    arena,
                    library,
                );
                proof {
                    lemma_plan_valid_within(first.plan, first.arena, arena@);
                    assert(mentions_stage((Stage { plan: right@, arena: arena@ }), res));
                }
                res
            },
        }
    }
}

/// After a failure the remaining rules are not tried.
proof fn lemma_failed_pass<L: RuleLibrary>(
    library: &L,
    rules: Seq<NormalizationRuleImpl>,
    len: int,
    before: Stage,
    after: Stage,
    err: DatabaseError,
)
    requires
        0 < len <= rules.len(),
        pass_rules(library, rules.take(len), before, after, Err(err)),
    ensures
        pass_rules(library, rules, before, after, Err(err)),
    decreases rules.len() - len,
{
    if len == rules.len() {
        assert(rules.take(len) =~= rules);
    } else {
        let longer = rules.take(len + 1);
        assert(longer.drop_last() =~= rules.take(len));
        assert(passes_rule(library, longer.last(), after, Err(err), after, Err(err)));
        assert(pass_rules(library, longer, before, after, Err(err)));
        lemma_failed_pass(library, rules, len + 1, before, after, err);
    }
}

/// Tries the rules of a pass on the whole plan.
fn apply_pass_rules<L: RuleLibrary>(
    plan: &mut LogicalPlan,
    rules: &Vec<NormalizationRuleImpl>,
    arena: &mut PlanArena,
    library: &L,
) -> (res: Result<bool, DatabaseError>)
    requires
        sound(old(plan)@, old(arena)@),
    ensures
        pass_rules(
            library,
            rules@,
            (Stage { plan: old(plan)@, arena: old(arena)@ }),
            (Stage { plan: final(plan)@, arena: final(arena)@ }),
            res,
        ),
        follows(
            (Stage { plan: old(plan)@, arena: old(arena)@ }),
            (Stage { plan: final(plan)@, arena: final(arena)@ }),
        ),
{
    let ghost start = Stage { plan: plan@, arena: arena@ };
    let ghost list = rules@;
    let mut applied = false;
    let mut i: usize = 0;
    assert(list.take(0) =~= Seq::empty());
    while i < rules.len()
        invariant
            i <= list.len(),
            list == rules@,
            start == (Stage { plan: old(plan)@, arena: old(arena)@ }),
            pass_rules(
                library,
                list.take(i as int),
                start,
                (Stage { plan: plan@, arena: arena@ }),
                Ok(applied),
            ),
            follows(start, (Stage { plan: plan@, arena: arena@ })),
        decreases list.len() - i,
    {
        let ghost middle = Stage { plan: plan@, arena: arena@ };
        let ghost sofar: Result<bool, DatabaseError> = Ok(applied);
        let ghost longer = list.take(i + 1);
        proof {
            assert(longer.drop_last() =~= list.take(i as int));
            assert(longer.last() == list[i as int]);
        }
        let outcome = rules[i].apply(plan, arena, library);
        let ghost after = Stage { plan: plan@, arena: arena@ };
        proof {
            assert(rule_rewrites(library, list[i as int], middle, after, outcome));
            lemma_follows_trans(start, middle, after);
        }
        match outcome {
            Err(err) => {
                proof {
                    assert(passes_rule(library, longer.last(), middle, sofar, after, Err(err)));
                    assert(pass_rules(library, longer, start, after, Err(err)));
                    lemma_failed_pass(library, list, i + 1, start, after, err);
                }
                return Err(err);
            },
            Ok(fired) => {
                if fired {
                    applied = true;
                }
                proof {
                    assert(passes_rule(library, longer.last(), middle, sofar, after, Ok(applied)));
                    assert(pass_rules(library, longer, start, after, Ok(applied)));
                }
            },
        }
        i += 1;
    }
    assert(list.take(i as int) =~= list);
    Ok(applied)
}

/// Whether a rule is in a list.
fn contains_rule(rules: &Vec<NormalizationRuleImpl>, rule: NormalizationRuleImpl) -> (res: bool)
    ensures
        res == rules@.contains(rule),
{
    let mut i: usize = 0;
    while i < rules.len()
        invariant
            i <= rules.len(),
            forall|j: int| 0 <= j < i ==> rules@[j] != rule,
        decreases rules.len() - i,
    {
        if rules[i] == rule {
            return true;
        }
        i += 1;
    }
    false
}

/// Runs a pass over a whole plan.
pub fn apply_whole_tree_pass<L: RuleLibrary>(
    plan: &mut LogicalPlan,
    pass: &HepWholeTreePass,
    arena: &mut PlanArena,
    library: &L,
) -> (res: Result<bool, DatabaseError>)
    requires
        sound(old(plan)@, old(arena)@),
    ensures
        step_rewrites(
            library,
            (StepView {
                pass: NormalizationPassKind::WholeTreePass(pass.kind),
                rules: pass.rules@,
            }),
            (Stage { plan: old(plan)@, arena: old(arena)@ }),
            (Stage { plan: final(plan)@, arena: final(arena)@ }),
            res,
        ),
        follows(
            (Stage { plan: old(plan)@, arena: old(arena)@ }),
            (Stage { plan: final(plan)@, arena: final(arena)@ }),
        ),
{
    let ghost start = Stage { plan: plan@, arena: arena@ };
    let ghost step = StepView {
        pass: NormalizationPassKind::WholeTreePass(pass.kind),
        rules: pass.rules@,
    };
    match pass.kind {
        WholeTreePassKind::ColumnPruning => {
            let res = apply_pass_rules(plan, &pass.rules, arena, library);
            let ghost middle = Stage { plan: plan@, arena: arena@ };
            assert(pass_rules(library, step.rules, start, middle, res));
            if let Ok(true) = res {
                plan.reset_output_schema_cache_recursive();
                proof {
                    lemma_uncached_follows(start, middle);
                }
            }
            res
        },
        WholeTreePassKind::ExpressionRewrite => {
            let has_constant_calculation = contains_rule(
                &pass.rules,
                NormalizationRuleImpl::ConstantCalculation,
            );
            let has_evaluator_bind = contains_rule(
                &pass.rules,
                NormalizationRuleImpl::EvaluatorBind,
            );
            let outcome = apply_expression_rewrite_pass(
                plan,
                has_constant_calculation,
                has_evaluator_bind,
                arena,
                library,
            );
            let ghost middle = Stage { plan: plan@, arena: arena@ };
            assert(tree_exprs(
                library,
                step.rules.contains(NormalizationRuleImpl::ConstantCalculation),
                step.rules.contains(NormalizationRuleImpl::EvaluatorBind),
                start,
                middle,
                outcome,
            ));
            match outcome {
                Err(err) => Err(err),
                Ok(_) => {
                    plan.reset_output_schema_cache_recursive();
                    proof {
                        lemma_uncached_follows(start, middle);
                    }
                    Ok(true)
                },
            }
        },
    }
}

/// After a failure the remaining steps are not run.
proof fn lemma_failed_round<L: RuleLibrary>(
    library: &L,
    steps: Seq<StepView>,
    len: int,
    before: Stage,
    after: Stage,
    err: DatabaseError,
)
    requires
        0 < len <= steps.len(),
        round_rewrites(library, steps.take(len), before, after, Err(err)),
    ensures
        round_rewrites(library, steps, before, after, Err(err)),
    decreases steps.len() - len,
{
    if len == steps.len() {
        assert(steps.take(len) =~= steps);
    } else {
        let longer = steps.take(len + 1);
        assert(longer.drop_last() =~= steps.take(len));
        assert(steps_on(library, longer.last(), after, Err(err), after, Err(err)));
        assert(round_rewrites(library, longer, before, after, Err(err)));
        lemma_failed_round(library, steps, len + 1, before, after, err);
    }
}

/// Runs the steps of a batch once; tells whether anything changed.
pub fn apply_batch<L: RuleLibrary>(
    plan: &mut LogicalPlan,
    batch: &HepBatch,
    applied_rules: &mut Vec<bool>,
    arena: &mut PlanArena,
    library: &L,
) -> (res: Result<bool, DatabaseError>)
    requires
        sound(old(plan)@, old(arena)@),
    ensures
        round_rewrites(
            library,
            batch@.steps,
            (Stage { plan: old(plan)@, arena: old(arena)@ }),
            (Stage { plan: final(plan)@, arena: final(arena)@ }),
            res,
        ),
        follows(
            (Stage { plan: old(plan)@, arena: old(arena)@ }),
            (Stage { plan: final(plan)@, arena: final(arena)@ }),
        ),
{
    let ghost start = Stage { plan: plan@, arena: arena@ };
    let ghost list = batch@.steps;
    let mut applied = false;
    let mut i: usize = 0;
    assert(list.take(0) =~= Seq::empty());
    while i < batch.steps.len()
        invariant
            i <= list.len(),
            list == batch@.steps,
            list.len() == batch.steps@.len(),
            start == (Stage { plan: old(plan)@, arena: old(arena)@ }),
            round_rewrites(
                library,
                list.take(i as int),
                start,
                (Stage { plan: plan@, arena: arena@ }),
                Ok(applied),
            ),
            follows(start, (Stage { plan: plan@, arena: arena@ })),
        decreases list.len() - i,
    {
        let ghost middle = Stage { plan: plan@, arena: arena@ };
        let ghost sofar: Result<bool, DatabaseError> = Ok(applied);
        let ghost longer = list.take(i + 1);
        proof {
            assert(longer.drop_last() =~= list.take(i as int));
            assert(longer.last() == list[i as int]);
            assert(list[i as int] == batch.steps@[i as int]@);
        }
        let outcome = match &batch.steps[i] {
            HepBatchStep::WholeTree(pass) => apply_whole_tree_pass(plan, pass, arena, library),
            HepBatchStep::LocalRewrite(rules) => apply_local_rules(
                plan,
                rules,
                applied_rules,
                arena,
                library,
            ),
        };
        let ghost after = Stage { plan: plan@, arena: arena@ };
        proof {
            assert(step_rewrites(library, list[i as int], middle, after, outcome));
            lemma_follows_trans(start, middle, after);
        }
        match outcome {
            Err(err) => {
                proof {
                    assert(steps_on(library, longer.last(), middle, sofar, after, Err(err)));
                    assert(round_rewrites(library, longer, start, after, Err(err)));
                    lemma_failed_round(library, list, i + 1, start, after, err);
                }
                return Err(err);
            },
            Ok(fired) => {
                if fired {
                    applied = true;
                }
                proof {
                    assert(steps_on(library, longer.last(), middle, sofar, after, Ok(applied)));
                    assert(round_rewrites(library, longer, start, after, Ok(applied)));
                }
            },
        }
        i += 1;
    }
    assert(list.take(i as int) =~= list);
    Ok(applied)
}

/// Repeats a batch as long as it changes something and its limit, if it has one, is not reached.
fn apply_rounds<L: RuleLibrary>(
    plan: &mut LogicalPlan,
    batch: &HepBatch,
    applied_rules: &mut Vec<bool>,
    arena: &mut PlanArena,
    library: &L,
) -> (res: Result<(), DatabaseError>)
    requires
        sound(old(plan)@, old(arena)@),
        comes_to_rest(library, batch@),
    ensures
        batch_rewrites(
            library,
            batch@.steps,
            batch@.strategy,
            (Stage { plan: old(plan)@, arena: old(arena)@ }),
            (Stage { plan: final(plan)@, arena: final(arena)@ }),
            res,
        ),
        follows(
            (Stage { plan: old(plan)@, arena: old(arena)@ }),
            (Stage { plan: final(plan)@, arena: final(arena)@ }),
        ),
{
    let ghost start = Stage { plan: plan@, arena: arena@ };
    let ghost steps = batch@.steps;
    let limit: usize = match batch.strategy {
        HepBatchStrategy::MaxTimes(max_iteration) => max_iteration,
        HepBatchStrategy::LoopIfApplied => {
            return apply_until_rest(plan, batch, applied_rules, arena, library);
        },
    };
    let mut count: usize = 0;
    while count < limit
        invariant
            count <= limit,
            batch@.strategy.limit() == Some(limit as nat),
            steps == batch@.steps,
            start == (Stage { plan: old(plan)@, arena: old(arena)@ }),
            rounds(library, steps, count as nat, start, (Stage { plan: plan@, arena: arena@ })),
            follows(start, (Stage { plan: plan@, arena: arena@ })),
        decreases limit - count,
    {
        let ghost middle = Stage { plan: plan@, arena: arena@ };
        let outcome = apply_batch(plan, batch, applied_rules, arena, library);
        let ghost after = Stage { plan: plan@, arena: arena@ };
        proof {
            assert(round_rewrites(library, steps, middle, after, outcome));
            lemma_follows_trans(start, middle, after);
        }
        match outcome {
            Err(err) => {
                return Err(err);
            },
            Ok(false) => {
                return Ok(());
            },
            Ok(true) => {
                assert(rounds(library, steps, (count + 1) as nat, start, after));
            },
        }
        count += 1;
    }
    Ok(())
}

/// Repeats a batch as long as it changes something.
fn apply_until_rest<L: RuleLibrary>(
    plan: &mut LogicalPlan,
    batch: &HepBatch,
    applied_rules: &mut Vec<bool>,
    arena: &mut PlanArena,
    library: &L,
) -> (res: Result<(), DatabaseError>)
    requires
        sound(old(plan)@, old(arena)@),
        batch@.strategy.limit() is None,
        comes_to_rest(library, batch@),
    ensures
        batch_rewrites(
            library,
            batch@.steps,
            batch@.strategy,
            (Stage { plan: old(plan)@, arena: old(arena)@ }),
            (Stage { plan: final(plan)@, arena: final(arena)@ }),
            res,
        ),
        follows(
            (Stage { plan: old(plan)@, arena: old(arena)@ }),
            (Stage { plan: final(plan)@, arena: final(arena)@ }),
        ),
{
    let ghost start = Stage { plan: plan@, arena: arena@ };
    let ghost steps = batch@.steps;
    assert(rests_from(library, steps, start));
    let ghost bound = choose|bound: nat| #[trigger] rests_after(library, steps, bound, start);
    let ghost mut count: nat = 0;
    assert(rounds(library, steps, 0, start, start));
    loop
        invariant
            count < bound,
            rests_after(library, steps, bound, start),
            batch@.strategy.limit() is None,
            steps == batch@.steps,
            start == (Stage { plan: old(plan)@, arena: old(arena)@ }),
            rounds(library, steps, count, start, (Stage { plan: plan@, arena: arena@ })),
            follows(start, (Stage { plan: plan@, arena: arena@ })),
        decreases bound - count,
    {
        let ghost middle = Stage { plan: plan@, arena: arena@ };
        let outcome = apply_batch(plan, batch, applied_rules, arena, library);
        let ghost after = Stage { plan: plan@, arena: arena@ };
        proof {
            assert(round_rewrites(library, steps, middle, after, outcome));
            lemma_follows_trans(start, middle, after);
        }
        match outcome {
            Err(err) => {
                return Err(err);
            },
            Ok(false) => {
                return Ok(());
            },
            Ok(true) => {
                assert(rounds(library, steps, count + 1, start, after));
            },
        }
        proof {
            count = count + 1;
        }
    }
}

/// After a failure the remaining batches are not run.
proof fn lemma_failed_batches<L: RuleLibrary>(
    library: &L,
    batches: Seq<BatchView>,
    len: int,
    before: Stage,
    after: Stage,
    err: DatabaseError,
)
    requires
        0 < len <= batches.len(),
        batches_rewrite(library, batches.take(len), before, after, Err(err)),
    ensures
        batches_rewrite(library, batches, before, after, Err(err)),
    decreases batches.len() - len,
{
    if len == batches.len() {
        assert(batches.take(len) =~= batches);
    } else {
        let longer = batches.take(len + 1);
        assert(longer.drop_last() =~= batches.take(len));
        assert(batches_on(library, longer.last(), after, Err(err), after, Err(err)));
        assert(batches_rewrite(library, longer, before, after, Err(err)));
        lemma_failed_batches(library, batches, len + 1, before, after, err);
    }
}

/// Runs batches one after the other.
pub fn apply_batches<L: RuleLibrary>(
    plan: &mut LogicalPlan,
    batches: &Vec<HepBatch>,
    applied_rules: &mut Vec<bool>,
    arena: &mut PlanArena,
    library: &L,
) -> (res: Result<(), DatabaseError>)
    requires
        sound(old(plan)@, old(arena)@),
        all_come_to_rest(library, batch_views(batches@)),
    ensures
        batches_rewrite(
            library,
            batch_views(batches@),
            (Stage { plan: old(plan)@, arena: old(arena)@ }),
            (Stage { plan: final(plan)@, arena: final(arena)@ }),
            res,
        ),
        follows(
            (Stage { plan: old(plan)@, arena: old(arena)@ }),
            (Stage { plan: final(plan)@, arena: final(arena)@ }),
        ),
{
    let ghost start = Stage { plan: plan@, arena: arena@ };
    let ghost list = batch_views(batches@);
    let mut i: usize = 0;
    let ghost mut sofar: Result<(), DatabaseError> = Ok(());
    assert(list.take(0) =~= Seq::empty());
    while i < batches.len()
        invariant
            i <= list.len(),
            list == batch_views(batches@),
            list.len() == batches@.len(),
            all_come_to_rest(library, list),
            start == (Stage { plan: old(plan)@, arena: old(arena)@ }),
            sofar is Ok,
            batches_rewrite(
                library,
                list.take(i as int),
                start,
                (Stage { plan: plan@, arena: arena@ }),
                sofar,
            ),
            follows(start, (Stage { plan: plan@, arena: arena@ })),
        decreases list.len() - i,
    {
        let ghost middle = Stage { plan: plan@, arena: arena@ };
        let ghost longer = list.take(i + 1);
        proof {
            assert(longer.drop_last() =~= list.take(i as int));
            assert(longer.last() == list[i as int]);
            assert(list[i as int] == batches@[i as int]@);
            assert(comes_to_rest(library, list[i as int]));
        }
        let outcome = apply_rounds(plan, &batches[i], applied_rules, arena, library);
        let ghost after = Stage { plan: plan@, arena: arena@ };
        proof {
            lemma_follows_trans(start, middle, after);
            assert(batches_on(library, longer.last(), middle, sofar, after, outcome));
            assert(batches_rewrite(library, longer, start, after, outcome));
        }
        match outcome {
            Err(err) => {
                proof {
                    lemma_failed_batches(library, list, i + 1, start, after, err);
                }
                return Err(err);
            },
            Ok(_) => {
                proof {
                    sofar = outcome;
                }
            },
        }
        i += 1;
    }
    assert(list.take(i as int) =~= list);
    assert(sofar == Ok::<(), DatabaseError>(()));
    Ok(())
}

} // verus!
