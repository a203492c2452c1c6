//! Batches of rules.

use crate::optimizer::rule::normalization::{
    pass_of, tag_of, view_tag, NormalizationPassKind, NormalizationRuleImpl,
    NormalizationRuleRootTag, WholeTreePassKind,
};
use crate::planner::operator::{Operator, OperatorView};
use vstd::prelude::*;

verus! {

/// How often a batch is repeated.
#[derive(Clone, Copy, Debug, PartialEq, Eq, Structural)]
pub enum HepBatchStrategy {
    /// Until it changes nothing any more, but no more than so many times.
    MaxTimes(usize),
    /// Until it changes nothing any more.
    LoopIfApplied,
}

impl HepBatchStrategy {
    /// Once.
    pub fn once_topdown() -> (res: Self)
        ensures
            res == HepBatchStrategy::MaxTimes(1),
    {
        HepBatchStrategy::MaxTimes(1)
    }

    /// Until nothing changes, but no more than so many times.
    pub fn fix_point_topdown(max_iteration: usize) -> (res: Self)
        ensures
            res == HepBatchStrategy::MaxTimes(max_iteration),
    {
        HepBatchStrategy::MaxTimes(max_iteration)
    }

    /// The largest number of repetitions, if there is one.
    pub open spec fn limit(self) -> Option<nat> {
        match self {
            HepBatchStrategy::MaxTimes(max_iteration) => Some(max_iteration as nat),
            HepBatchStrategy::LoopIfApplied => None,
        }
    }
}

/// A pass over a whole plan for several rules.
#[derive(Clone, Debug)]
pub struct HepWholeTreePass {
    pub kind: WholeTreePassKind,
    pub rules: Vec<NormalizationRuleImpl>,
}

/// Rules that are tried operator by operator.
#[derive(Clone, Debug)]
pub struct HepLocalRewriteBatch {
    pub rules: Vec<NormalizationRuleImpl>,
}

/// A step of a batch.
#[derive(Clone, Debug)]
pub enum HepBatchStep {
    WholeTree(HepWholeTreePass),
    LocalRewrite(HepLocalRewriteBatch),
}

/// Mathematical model of a [`HepBatchStep`]: how its rules are applied, and the rules.
pub struct StepView {
    pub pass: NormalizationPassKind,
    pub rules: Seq<NormalizationRuleImpl>,
}

impl View for HepBatchStep {
    type V = StepView;

    open spec fn view(&self) -> StepView {
        match self {
            HepBatchStep::WholeTree(pass) => StepView {
                pass: NormalizationPassKind::WholeTreePass(pass.kind),
                rules: pass.rules@,
            },
            HepBatchStep::LocalRewrite(rules) => StepView {
                pass: NormalizationPassKind::LocalRewrite,
                rules: rules.rules@,
            },
        }
    }
}

/// The models of the steps.
pub open spec fn step_views(steps: Seq<HepBatchStep>) -> Seq<StepView> {
    steps.map_values(|step: HepBatchStep| step@)
}

/// Whether a rule is tried at an operator.
pub open spec fn rule_matches(rule: NormalizationRuleImpl, operator: OperatorView) -> bool {
    tag_of(rule) == NormalizationRuleRootTag::Any || view_tag(operator) == Some(tag_of(rule))
}

impl HepLocalRewriteBatch {
    /// The number of rules.
    pub fn len(&self) -> (len: usize)
        ensures
            len == self.rules@.len(),
    {
        self.rules.len()
    }

    /// Whether the rule at a position is tried at an operator.
    pub fn matches_at(&self, index: usize, operator: &Operator) -> (res: bool)
        requires
            index < self.rules@.len(),
        ensures
            res == rule_matches(self.rules@[index as int], operator@),
    {
        let tag = self.rules[index].root_tag();
        if tag == NormalizationRuleRootTag::Any {
            return true;
        }
        match NormalizationRuleRootTag::from_operator(operator) {
            Some(root) => root == tag,
            None => false,
        }
    }
}

/// A named list of rules, grouped into steps.
#[derive(Clone, Debug)]
pub struct HepBatch {
    pub name: String,
    pub strategy: HepBatchStrategy,
    pub steps: Vec<HepBatchStep>,
}

/// The steps with one more rule: neighbours that are applied alike share a step.
pub open spec fn joined(steps: Seq<StepView>, rule: NormalizationRuleImpl) -> Seq<StepView> {
    if steps.len() > 0 && steps.last().pass == pass_of(rule) {
        steps.drop_last().push(
            StepView { rules: steps.last().rules.push(rule), ..steps.last() },
        )
    } else {
        steps.push(StepView { pass: pass_of(rule), rules: seq![rule] })
    }
}

/// The steps of a list of rules.
pub open spec fn steps_of(rules: Seq<NormalizationRuleImpl>) -> Seq<StepView>
    decreases rules.len(),
{
    if rules.len() == 0 {
        Seq::empty()
    } else {
        joined(steps_of(rules.drop_last()), rules.last())
    }
}

/// The rules of the steps, step after step.
pub open spec fn rules_of(steps: Seq<StepView>) -> Seq<NormalizationRuleImpl>
    decreases steps.len(),
{
    if steps.len() == 0 {
        Seq::empty()
    } else {
        rules_of(steps.drop_last()) + steps.last().rules
    }
}

/// Grouping rules into steps neither drops nor reorders them.
pub proof fn steps_keep_rules(rules: Seq<NormalizationRuleImpl>)
    ensures
        rules_of(steps_of(rules)) == rules,
    decreases rules.len(),
{
    if rules.len() > 0 {
        let front = rules.drop_last();
        let steps = steps_of(front);
        let rule = rules.last();
        steps_keep_rules(front);
        let all = joined(steps, rule);
        if steps.len() > 0 && steps.last().pass == pass_of(rule) {
            assert(all.drop_last() =~= steps.drop_last());
        } else {
            assert(all.drop_last() =~= steps);
        }
        assert(rules_of(all) =~= front.push(rule));
        assert(rules =~= front.push(rule));
    } else {
        assert(rules_of(steps_of(rules)) =~= rules);
    }
}

/// Neighbouring steps are applied in different ways.
pub proof fn neighbouring_steps_differ(rules: Seq<NormalizationRuleImpl>)
    ensures
        forall|i: int|
            0 <= i < steps_of(rules).len() - 1 ==> (#[trigger] steps_of(rules)[i]).pass
                != steps_of(rules)[i + 1].pass,
    decreases rules.len(),
{
    if rules.len() > 0 {
        let steps = steps_of(rules.drop_last());
        neighbouring_steps_differ(rules.drop_last());
        let all = steps_of(rules);
        assert forall|i: int| 0 <= i < all.len() - 1 implies (#[trigger] all[i]).pass != all[i
            + 1].pass by {
            if i + 1 < steps.len() {
                assert(steps[i].pass != steps[i + 1].pass);
            }
        }
    }
}

impl HepBatch {
    /// A batch of rules; neighbours that are applied alike share a step.
    pub fn new(
        name: String,
        strategy: HepBatchStrategy,
        rules: Vec<NormalizationRuleImpl>,
    ) -> (res: Self)
        ensures
            res.name == name,
            res.strategy == strategy,
            step_views(res.steps@) == steps_of(rules@),
    {
        let mut steps: Vec<HepBatchStep> = Vec::new();
        let mut i: usize = 0;
        assert(rules@.take(0) =~= Seq::empty());
        assert(step_views(steps@) =~= steps_of(rules@.take(0)));
        while i < rules.len()
            invariant
                i <= rules.len(),
                step_views(steps@) == steps_of(rules@.take(i as int)),
            decreases rules.len() - i,
        {
            let rule = rules[i];
            let ghost before = steps@;
            proof {
                assert(rules@.take(i + 1).drop_last() =~= rules@.take(i as int));
                assert(rules@.take(i + 1).last() == rule);
                assert(step_views(before).len() == before.len());
                if before.len() > 0 {
                    assert(step_views(before).last() == before.last()@);
                }
            }
            let last = steps.pop();
            let ghost front = steps@;
            assert(step_views(front) =~= if before.len() > 0 {
                step_views(before).drop_last()
            } else {
                step_views(before)
            });
            match last {
                Some(HepBatchStep::WholeTree(pass)) => {
                    let same = match rule.pass_kind() {
                        NormalizationPassKind::WholeTreePass(kind) => kind == pass.kind,
                        NormalizationPassKind::LocalRewrite => false,
                    };
                    let mut pass = pass;
                    if same {
                        pass.rules.push(rule);
                        steps.push(HepBatchStep::WholeTree(pass));
                        assert(step_views(steps@) =~= step_views(front).push(steps@.last()@));
                    } else {
                        steps.push(HepBatchStep::WholeTree(pass));
                        assert(step_views(steps@) =~= step_views(before));
                        steps.push(new_step(rule));
                        assert(step_views(steps@) =~= step_views(before).push(steps@.last()@));
                    }
                },
                Some(HepBatchStep::LocalRewrite(local)) => {
                    let same = match rule.pass_kind() {
                        NormalizationPassKind::WholeTreePass(_) => false,
                        NormalizationPassKind::LocalRewrite => true,
                    };
                    let mut local = local;
                    if same {
                        local.rules.push(rule);
                        steps.push(HepBatchStep::LocalRewrite(local));
                        assert(step_views(steps@) =~= step_views(front).push(steps@.last()@));
                    } else {
                        steps.push(HepBatchStep::LocalRewrite(local));
                        assert(step_views(steps@) =~= step_views(before));
                        steps.push(new_step(rule));
                        assert(step_views(steps@) =~= step_views(before).push(steps@.last()@));
                    }
                },
                None => {
                    steps.push(new_step(rule));
                    assert(step_views(steps@) =~= step_views(before).push(steps@.last()@));
                },
            }
            i += 1;
        }
        assert(rules@.take(i as int) =~= rules@);
        HepBatch { name, strategy, steps }
    }
}

/// A step for a single rule.
fn new_step(rule: NormalizationRuleImpl) -> (step: HepBatchStep)
    ensures
        step@ == (StepView { pass: pass_of(rule), rules: seq![rule] }),
{
    let mut rules: Vec<NormalizationRuleImpl> = Vec::new();
    rules.push(rule);
    assert(rules@ =~= seq![rule]);
    match rule.pass_kind() {
        NormalizationPassKind::WholeTreePass(kind) => HepBatchStep::WholeTree(
            HepWholeTreePass { kind, rules },
        ),
        NormalizationPassKind::LocalRewrite => HepBatchStep::LocalRewrite(
            HepLocalRewriteBatch { rules },
        ),
    }
}

} // verus!
