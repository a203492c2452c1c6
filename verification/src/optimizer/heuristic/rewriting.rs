//! Running batches of rules over a plan.

use crate::errors::DatabaseError;
use crate::optimizer::heuristic::batch::{rule_matches, HepLocalRewriteBatch};
use crate::optimizer::rule::normalization::{
    follows, rule_rewrites, sound, NormalizationRuleImpl, RuleLibrary, Stage,
};
use crate::planner::arena::{ArenaView, PlanArena};
use crate::planner::schema::lemma_plan_valid_within;
use crate::planner::shape::lemma_uncached_shape;
use crate::planner::{ChildrenView, Childrens, LogicalPlan, PlanView};
use vstd::prelude::*;

verus! {

/// A stage without any computed columns.
pub open spec fn uncached(stage: Stage) -> Stage {
    Stage { plan: stage.plan.uncached(), ..stage }
}

/// What trying one rule of a list at an operator does. A rule is passed over if it does not match
/// the operator or fired before.
pub open spec fn tries_rule<L: RuleLibrary>(
    library: &L,
    rule: NormalizationRuleImpl,
    index: int,
    before: Stage,
    fired: Seq<bool>,
    sofar: Result<bool, DatabaseError>,
    after: Stage,
    now_fired: Seq<bool>,
    res: Result<bool, DatabaseError>,
) -> bool {
    if sofar is Err || fired[index] || !rule_matches(rule, before.plan.operator) {
        after == before && now_fired == fired && res == sofar
    } else {
        exists|tried: Stage, outcome: Result<bool, DatabaseError>| #[trigger]
            rule_rewrites(library, rule, before, tried, outcome) && match outcome {
                Err(err) => after == tried && now_fired == fired && res == Err::<bool, _>(err),
                Ok(false) => after == tried && now_fired == fired && res == sofar,
                Ok(true) => after == uncached(tried) && now_fired == fired.update(index, true)
                    && res == Ok::<bool, DatabaseError>(true),
            }
    }
}

/// What trying the rules of a list at an operator, one after the other, does.
pub open spec fn node_rules<L: RuleLibrary>(
    library: &L,
    rules: Seq<NormalizationRuleImpl>,
    before: Stage,
    fired: Seq<bool>,
    after: Stage,
    now_fired: Seq<bool>,
    res: Result<bool, DatabaseError>,
) -> bool
    decreases rules.len(),
{
    if rules.len() == 0 {
        after == before && now_fired == fired && res == Ok::<bool, DatabaseError>(false)
    } else {
        exists|middle: Stage, middle_fired: Seq<bool>, sofar: Result<bool, DatabaseError>|
            node_rules(
                library,
                rules.drop_last(),
                before,
                fired,
                middle,
                middle_fired,
                sofar,
            ) && #[trigger] tries_rule(
                library,
                rules.last(),
                rules.len() - 1,
                middle,
                middle_fired,
                sofar,
                after,
                now_fired,
                res,
            )
    }
}

/// The plan with other inputs, its computed columns forgotten if the inputs changed.
pub open spec fn with_inputs(
    plan: PlanView,
    children: ChildrenView,
    changed_inputs: bool,
) -> PlanView {
    PlanView {
        children,
        schema: if changed_inputs {
            None
        } else {
            plan.schema
        },
        ..plan
    }
}

/// Whether an outcome tells of a change.
pub open spec fn changed(outcome: Result<bool, DatabaseError>) -> bool {
    outcome == Ok::<bool, DatabaseError>(true)
}

/// The outcome for a plan, given the outcome at its operator and at its inputs.
pub open spec fn merge_outcomes(
    applied: bool,
    below: Result<bool, DatabaseError>,
) -> Result<bool, DatabaseError> {
    match below {
        Ok(changed) => Ok(applied || changed),
        Err(err) => Err(err),
    }
}

/// Always true: this says nothing about a point that rules come to. It only mentions one, which gives
/// a quantifier over points something to match.
pub open spec fn mentions_point(
    depth: nat,
    stage: Stage,
    fired: Seq<bool>,
    res: Result<bool, DatabaseError>,
) -> bool {
    true
}

/// What trying the rules of a list at each operator of a plan does, an operator before its inputs,
/// the left input before the right one. A rule that fired once is not tried again.
pub open spec fn tree_rules<L: RuleLibrary>(
    library: &L,
    rules: Seq<NormalizationRuleImpl>,
    depth: nat,
    before: Stage,
    fired: Seq<bool>,
    after: Stage,
    now_fired: Seq<bool>,
    res: Result<bool, DatabaseError>,
) -> bool
    decreases depth, 1nat,
{
    exists|middle: Stage, middle_fired: Seq<bool>, sofar: Result<bool, DatabaseError>|
        #[trigger]
        node_rules(library, rules, before, fired, middle, middle_fired, sofar) && match sofar {
            Err(err) => after == middle && now_fired == middle_fired && res == sofar,
            Ok(applied) => input_rules(
                library,
                rules,
                depth,
                middle,
                middle_fired,
                applied,
                after,
                now_fired,
                res,
            ),
        }
}

/// What trying the rules of a list at the inputs of a plan does.
pub open spec fn input_rules<L: RuleLibrary>(
    library: &L,
    rules: Seq<NormalizationRuleImpl>,
    depth: nat,
    before: Stage,
    fired: Seq<bool>,
    applied: bool,
    after: Stage,
    now_fired: Seq<bool>,
    res: Result<bool, DatabaseError>,
) -> bool
    decreases depth, 0nat,
{
    match before.plan.children {
        ChildrenView::Leaf => after == before && now_fired == fired && res == Ok::<
            bool,
            DatabaseError,
        >(applied),
        ChildrenView::Only(child) => exists|
            below: nat,
            input: Stage,
            outcome: Result<bool, DatabaseError>,
        |
            #[trigger] mentions_point(below, input, now_fired, outcome) && below < depth && tree_rules(
                library,
                rules,
                below,
                Stage { plan: *child, arena: before.arena },
                fired,
                input,
                now_fired,
                outcome,
            ) && after == Stage {
                plan: with_inputs(
                    before.plan,
                    ChildrenView::Only(Box::new(input.plan)),
                    outcome == Ok::<bool, DatabaseError>(true),
                ),
                arena: input.arena,
            } && res == merge_outcomes(applied, outcome),
        ChildrenView::Twins { left, right } => exists|
            below: nat,
            first: Stage,
            first_fired: Seq<bool>,
            outcome: Result<bool, DatabaseError>,
        |
            #[trigger] mentions_point(below, first, first_fired, outcome) && below < depth && tree_rules(
                library,
                rules,
                below,
                Stage { plan: *left, arena: before.arena },
                fired,
                first,
                first_fired,
                outcome,
            ) && match outcome {
                Err(err) => after == Stage {
                    plan: with_inputs(
                        before.plan,
                        ChildrenView::Twins { left: Box::new(first.plan), right },
                        false,
                    ),
                    arena: first.arena,
                } && now_fired == first_fired && res == outcome,
                Ok(left_applied) => exists|
                    other: nat,
                    second: Stage,
                    outcome: Result<bool, DatabaseError>,
                |
                    #[trigger] mentions_point(other, second, now_fired, outcome) && other < depth
                        && tree_rules(
                        library,
                        rules,
                        other,
                        Stage { plan: *right, arena: first.arena },
                        first_fired,
                        second,
                        now_fired,
                        outcome,
                    ) && after == Stage {
                        plan: with_inputs(
                            before.plan,
                            ChildrenView::Twins {
                                left: Box::new(first.plan),
                                right: Box::new(second.plan),
                            },
                            outcome is Ok && (left_applied || outcome->Ok_0),
                        ),
                        arena: second.arena,
                    } && res == merge_outcomes(applied || left_applied, outcome),
            },
    }
}

/// The number of rules that have not fired yet.
pub open spec fn unfired(fired: Seq<bool>) -> nat
    decreases fired.len(),
{
    if fired.len() == 0 {
        0
    } else {
        unfired(fired.drop_last()) + if fired.last() {
            0nat
        } else {
            1nat
        }
    }
}

proof fn lemma_fire(fired: Seq<bool>, index: int)
    requires
        0 <= index < fired.len(),
        !fired[index],
    ensures
        unfired(fired.update(index, true)) < unfired(fired),
    decreases fired.len(),
{
    let after = fired.update(index, true);
    if index == fired.len() - 1 {
        assert(after.drop_last() =~= fired.drop_last());
    } else {
        assert(after.drop_last() =~= fired.drop_last().update(index, true));
        lemma_fire(fired.drop_last(), index);
    }
}

/// Forgetting computed columns leaves everything in order.
pub proof fn lemma_uncached_follows(before: Stage, after: Stage)
    requires
        follows(before, after),
    ensures
        follows(before, uncached(after)),
        uncached(after).plan.height() == after.plan.height(),
{
    lemma_uncached_shape(after.plan, after.arena);
}

pub proof fn lemma_follows_trans(a: Stage, b: Stage, c: Stage)
    requires
        follows(a, b),
        follows(b, c),
    ensures
        follows(a, c),
{
}

/// Tries the rules of a list at an operator, one after the other.
fn apply_node_rules<L: RuleLibrary>(
    plan: &mut LogicalPlan,
    rules: &HepLocalRewriteBatch,
    applied_rules: &mut Vec<bool>,
    arena: &mut PlanArena,
    library: &L,
) -> (res: Result<bool, DatabaseError>)
    requires
        sound(old(plan)@, old(arena)@),
        old(applied_rules)@.len() == rules.rules@.len(),
    ensures
        node_rules(
            library,
            rules.rules@,
            (Stage { plan: old(plan)@, arena: old(arena)@ }),
            old(applied_rules)@,
            (Stage { plan: final(plan)@, arena: final(arena)@ }),
            final(applied_rules)@,
            res,
        ),
        follows(
            (Stage { plan: old(plan)@, arena: old(arena)@ }),
            (Stage { plan: final(plan)@, arena: final(arena)@ }),
        ),
        final(applied_rules)@.len() == old(applied_rules)@.len(),
        unfired(final(applied_rules)@) <= unfired(old(applied_rules)@),
        res is Ok && unfired(final(applied_rules)@) == unfired(old(applied_rules)@)
            ==> final(plan)@.height() <= old(plan)@.height(),
{
    let ghost start = Stage { plan: plan@, arena: arena@ };
    let ghost start_fired = applied_rules@;
    let ghost list = rules.rules@;
    let mut applied = false;
    let mut idx: usize = 0;
    assert(list.take(0) =~= Seq::empty());
    while idx < rules.len()
        invariant
            idx <= list.len(),
            list == rules.rules@,
            start == (Stage { plan: old(plan)@, arena: old(arena)@ }),
            start_fired == old(applied_rules)@,
            sound(start.plan, start.arena),
            applied_rules@.len() == list.len(),
            start_fired.len() == list.len(),
            node_rules(
                library,
                list.take(idx as int),
                start,
                start_fired,
                (Stage { plan: plan@, arena: arena@ }),
                applied_rules@,
                Ok(applied),
            ),
            follows(start, (Stage { plan: plan@, arena: arena@ })),
            unfired(applied_rules@) < unfired(start_fired) || (unfired(applied_rules@) == unfired(
                start_fired,
            ) && plan@.height() <= start.plan.height()),
        decreases list.len() - idx,
    {
        let ghost middle = Stage { plan: plan@, arena: arena@ };
        let ghost middle_fired = applied_rules@;
        let ghost sofar: Result<bool, DatabaseError> = Ok(applied);
        let ghost longer = list.take(idx + 1);
        proof {
            assert(longer.drop_last() =~= list.take(idx as int));
            assert(longer.last() == list[idx as int]);
        }
        if applied_rules[idx] || !rules.matches_at(idx, &plan.operator) {
            proof {
                assert(tries_rule(
                    library,
                    longer.last(),
                    longer.len() - 1,
                    middle,
                    middle_fired,
                    sofar,
                    middle,
                    middle_fired,
                    sofar,
                ));
                assert(node_rules(
                    library,
                    longer,
                    start,
                    start_fired,
                    middle,
                    middle_fired,
                    sofar,
                ));
            }
            idx += 1;
            continue;
        }
        let rule = rules.rules[idx];
        let outcome = rule.apply(plan, arena, library);
        let ghost tried = Stage { plan: plan@, arena: arena@ };
        proof {
            assert(rule_rewrites(library, rule, middle, tried, outcome));
            lemma_follows_trans(start, middle, tried);
        }
        match outcome {
            Err(err) => {
                proof {
                    assert(tries_rule(
                        library,
                        longer.last(),
                        longer.len() - 1,
                        middle,
                        middle_fired,
                        sofar,
                        tried,
                        middle_fired,
                        Err(err),
                    ));
                    assert(node_rules(
                        library,
                        longer,
                        start,
                        start_fired,
                        tried,
                        middle_fired,
                        Err(err),
                    ));
                    lemma_failed_rules(
                        library,
                        list,
                        idx + 1,
                        start,
                        start_fired,
                        tried,
                        middle_fired,
                        err,
                    );
                }
                return Err(err);
            },
            Ok(applied_rule) => {
                if applied_rule {
                    applied_rules.set(idx, true);
                    applied = true;
                    plan.reset_output_schema_cache_recursive();
                    proof {
                        lemma_uncached_follows(start, tried);
                        lemma_fire(middle_fired, idx as int);
                    }
                }
                proof {
                    let after = Stage { plan: plan@, arena: arena@ };
                    assert(tries_rule(
                        library,
                        longer.last(),
                        longer.len() - 1,
                        middle,
                        middle_fired,
                        sofar,
                        after,
                        applied_rules@,
                        Ok(applied),
                    ));
                    assert(node_rules(
                        library,
                        longer,
                        start,
                        start_fired,
                        after,
                        applied_rules@,
                        Ok(applied),
                    ));
                }
            },
        }
        idx += 1;
    }
    assert(list.take(idx as int) =~= list);
    Ok(applied)
}

/// After a failure the remaining rules are not tried.
proof fn lemma_failed_rules<L: RuleLibrary>(
    library: &L,
    rules: Seq<NormalizationRuleImpl>,
    len: int,
    before: Stage,
    fired: Seq<bool>,
    after: Stage,
    now_fired: Seq<bool>,
    err: DatabaseError,
)
    requires
        0 < len <= rules.len(),
        node_rules(library, rules.take(len), before, fired, after, now_fired, Err(err)),
    ensures
        node_rules(library, rules, before, fired, after, now_fired, Err(err)),
    decreases rules.len() - len,
{
    if len == rules.len() {
        assert(rules.take(len) =~= rules);
    } else {
        let longer = rules.take(len + 1);
        assert(longer.drop_last() =~= rules.take(len));
        assert(tries_rule(
            library,
            longer.last(),
            longer.len() - 1,
            after,
            now_fired,
            Err(err),
            after,
            now_fired,
            Err(err),
        ));
        assert(node_rules(library, longer, before, fired, after, now_fired, Err(err)));
        lemma_failed_rules(library, rules, len + 1, before, fired, after, now_fired, err);
    }
}

impl Childrens {
    /// Tries the rules of a list at each operator of the inputs.
    fn apply_local_rules<L: RuleLibrary>(
        &mut self,
        rules: &HepLocalRewriteBatch,
        applied_rules: &mut Vec<bool>,
        arena: &mut PlanArena,
        library: &L,
    ) -> (res: Result<bool, DatabaseError>)
        requires
            children_sound(old(self)@, old(arena)@),
            old(applied_rules)@.len() == rules.rules@.len(),
        ensures
            children_rules(
                library,
                rules.rules@,
                old(self)@,
                old(arena)@,
                old(applied_rules)@,
                final(self)@,
                final(arena)@,
                final(applied_rules)@,
                res,
            ),
            children_sound(final(self)@, final(arena)@),
            old(arena)@.within(final(arena)@),
            old(arena)@.indexes == final(arena)@.indexes,
            final(applied_rules)@.len() == old(applied_rules)@.len(),
            final(self)@.same_arity(old(self)@),
            unfired(final(applied_rules)@) <= unfired(old(applied_rules)@),
        decreases unfired(old(applied_rules)@), old(self)@.height(), 1nat,
    {
        match self {
            Childrens::Leaf => Ok(false),
            Childrens::Only(child) => {
                let ghost before = Stage { plan: child@, arena: arena@ };
                let ghost fired = applied_rules@;
                let res = apply_local_rules_inner(
                    &mut **child,
                    rules,
                    applied_rules,
                    arena,
                    library,
                );
                proof {
                    let after = Stage { plan: child@, arena: arena@ };
                    let depth = choose|depth: nat| #[trigger]
                        tree_rules(
                            library,
                            rules.rules@,
                            depth,
                            before,
                            fired,
                            after,
                            applied_rules@,
                            res,
                        );
                    assert(mentions_point(depth, after, applied_rules@, res));
                }
                res
            },
            Childrens::Twins { left, right } => {
                let ghost before = Stage { plan: left@, arena: arena@ };
                let ghost fired = applied_rules@;
                let ghost right_view = right@;
                let ghost height = ChildrenView::Twins {
                    left: Box::new(left@),
                    right: Box::new(right@),
                }.height();
                let first_res = apply_local_rules_inner(
                    &mut **left,
                    rules,
                    applied_rules,
                    arena,
                    library,
                );
                let ghost first = Stage { plan: left@, arena: arena@ };
                let ghost first_fired = applied_rules@;
                proof {
                    let depth = choose|depth: nat| #[trigger]
                        tree_rules(
                            library,
                            rules.rules@,
                            depth,
                            before,
                            fired,
                            first,
                            first_fired,
                            first_res,
                        );
                    assert(mentions_point(depth, first, first_fired, first_res));
                    lemma_plan_valid_within(right_view, before.arena, first.arena);
                }
                let left_applied = match first_res {
                    Ok(applied) => applied,
                    Err(err) => {
                        return Err(err);
                    },
                };
                let second_res = apply_local_rules_inner(
                    &mut **right,
                    rules,
                    applied_rules,
                    arena,
                    library,
                );
                proof {
                    let second = Stage { plan: right@, arena: arena@ };
                    let depth = choose|depth: nat| #[trigger]
                        tree_rules(
                            library,
                            rules.rules@,
                            depth,
                            Stage { plan: right_view, arena: first.arena },
                            first_fired,
                            second,
                            applied_rules@,
                            second_res,
                        );
                    assert(mentions_point(depth, second, applied_rules@, second_res));
                    lemma_plan_valid_within(first.plan, first.arena, second.arena);
                }
                match second_res {
                    Ok(right_applied) => Ok(left_applied || right_applied),
                    Err(err) => Err(err),
                }
            },
        }
    }
}

/// Whether inputs and their arena fit each other.
pub open spec fn children_sound(children: ChildrenView, arena: ArenaView) -> bool {
    match children {
        ChildrenView::Leaf => arena.wf(),
        ChildrenView::Only(plan) => sound(*plan, arena),
        ChildrenView::Twins { left, right } => sound(*left, arena) && sound(*right, arena),
    }
}

/// What trying the rules of a list at the inputs does to them.
pub open spec fn children_rules<L: RuleLibrary>(
    library: &L,
    rules: Seq<NormalizationRuleImpl>,
    before: ChildrenView,
    before_arena: ArenaView,
    fired: Seq<bool>,
    after: ChildrenView,
    after_arena: ArenaView,
    now_fired: Seq<bool>,
    res: Result<bool, DatabaseError>,
) -> bool {
    match before {
        ChildrenView::Leaf => after == before && after_arena == before_arena && now_fired == fired
            && res == Ok::<bool, DatabaseError>(false),
        ChildrenView::Only(child) => exists|
            below: nat,
            input: Stage,
            outcome: Result<bool, DatabaseError>,
        |
            #[trigger] mentions_point(below, input, now_fired, outcome) && tree_rules(
                library,
                rules,
                below,
                Stage { plan: *child, arena: before_arena },
                fired,
                input,
                now_fired,
                outcome,
            ) && after == ChildrenView::Only(Box::new(input.plan)) && after_arena == input.arena
                && res == outcome,
        ChildrenView::Twins { left, right } => exists|
            below: nat,
            first: Stage,
            first_fired: Seq<bool>,
            outcome: Result<bool, DatabaseError>,
        |
            #[trigger] mentions_point(below, first, first_fired, outcome) && tree_rules(
                library,
                rules,
                below,
                Stage { plan: *left, arena: before_arena },
                fired,
                first,
                first_fired,
                outcome,
            ) && twins_rest(
                library,
                rules,
                right,
                first,
                first_fired,
                outcome,
                after,
                after_arena,
                now_fired,
                res,
            ),
    }
}

/// What trying the rules of a list at the right input does, after the left one.
pub open spec fn twins_rest<L: RuleLibrary>(
    library: &L,
    rules: Seq<NormalizationRuleImpl>,
    right: Box<PlanView>,
    first: Stage,
    first_fired: Seq<bool>,
    left_outcome: Result<bool, DatabaseError>,
    after: ChildrenView,
    after_arena: ArenaView,
    now_fired: Seq<bool>,
    res: Result<bool, DatabaseError>,
) -> bool {
    match left_outcome {
        Err(err) => after == (ChildrenView::Twins { left: Box::new(first.plan), right })
            && after_arena == first.arena && now_fired == first_fired && res == left_outcome,
        Ok(left_applied) => exists|
            other: nat,
            second: Stage,
            outcome: Result<bool, DatabaseError>,
        |
            #[trigger] mentions_point(other, second, now_fired, outcome) && tree_rules(
                library,
                rules,
                other,
                Stage { plan: *right, arena: first.arena },
                first_fired,
                second,
                now_fired,
                outcome,
            ) && after == (ChildrenView::Twins {
                left: Box::new(first.plan),
                right: Box::new(second.plan),
            }) && after_arena == second.arena && res == merge_outcomes(left_applied, outcome),
    }
}

/// Tries the rules of a list at each operator of a plan, an operator before its inputs.
pub fn apply_local_rules_inner<L: RuleLibrary>(
    plan: &mut LogicalPlan,
    rules: &HepLocalRewriteBatch,
    applied_rules: &mut Vec<bool>,
    arena: &mut PlanArena,
    library: &L,
) -> (res: Result<bool, DatabaseError>)
    requires
        sound(old(plan)@, old(arena)@),
        old(applied_rules)@.len() == rules.rules@.len(),
    ensures
        exists|depth: nat| #[trigger]
            tree_rules(
                library,
                rules.rules@,
                depth,
                Stage { plan: old(plan)@, arena: old(arena)@ },
                old(applied_rules)@,
                Stage { plan: final(plan)@, arena: final(arena)@ },
                final(applied_rules)@,
                res,
            ),
        follows(
            (Stage { plan: old(plan)@, arena: old(arena)@ }),
            (Stage { plan: final(plan)@, arena: final(arena)@ }),
        ),
        final(applied_rules)@.len() == old(applied_rules)@.len(),
        unfired(final(applied_rules)@) <= unfired(old(applied_rules)@),
    decreases unfired(old(applied_rules)@), old(plan)@.height(), 0nat,
{
    let ghost start = Stage { plan: plan@, arena: arena@ };
    let ghost start_fired = applied_rules@;
    let at_node = apply_node_rules(plan, rules, applied_rules, arena, library);
    let ghost middle = Stage { plan: plan@, arena: arena@ };
    let ghost middle_fired = applied_rules@;
    let applied = match at_node {
        Ok(applied) => applied,
        Err(err) => {
            assert(tree_rules(
                library,
                rules.rules@,
                0,
                start,
                start_fired,
                middle,
                middle_fired,
                Err(err),
            ));
            return Err(err);
        },
    };
    proof {
        assert(plan.childrens@ == plan@.children);
        lemma_children_sound(middle.plan, middle.arena);
    }
    let below = (&mut *plan.childrens).apply_local_rules(rules, applied_rules, arena, library);
    assert(plan.childrens@ == plan@.children);
    let ghost walked = plan@;
    if let Ok(true) = below {
        plan.reset_output_schema_cache();
    }
    let ghost after = Stage { plan: plan@, arena: arena@ };
    let res = match below {
        Ok(changed) => Ok(applied || changed),
        Err(err) => Err(err),
    };
    proof {
        lemma_input_rules(
            library,
            rules.rules@,
            middle,
            middle_fired,
            applied,
            walked.children,
            arena@,
            applied_rules@,
            below,
        );
        let depth = choose|depth: nat| #[trigger]
            input_rules(
                library,
                rules.rules@,
                depth,
                middle,
                middle_fired,
                applied,
                after,
                applied_rules@,
                res,
            );
        assert(tree_rules(
            library,
            rules.rules@,
            depth,
            start,
            start_fired,
            after,
            applied_rules@,
            res,
        ));
        lemma_with_inputs_sound(middle, walked.children, arena@, changed(below));
        lemma_follows_trans(start, middle, after);
    }
    res
}

pub proof fn lemma_children_sound(plan: PlanView, arena: ArenaView)
    requires
        sound(plan, arena),
    ensures
        children_sound(plan.children, arena),
        plan.children.height() < plan.height(),
{
    assert(plan.children.valid(arena));
    assert(plan.children.shaped());
}

pub proof fn lemma_with_inputs_sound(
    before: Stage,
    children: ChildrenView,
    arena: ArenaView,
    changed: bool,
)
    requires
        sound(before.plan, before.arena),
        children_sound(children, arena),
        children.same_arity(before.plan.children),
        before.arena.within(arena),
        before.arena.indexes == arena.indexes,
    ensures
        follows(
            before,
            (Stage { plan: with_inputs(before.plan, children, changed), arena }),
        ),
{
    lemma_plan_valid_within(before.plan, before.arena, arena);
    assert(children.valid(arena));
    assert(children.shaped());
}

/// The inputs after the rules, seen from the plan above them.
proof fn lemma_input_rules<L: RuleLibrary>(
    library: &L,
    rules: Seq<NormalizationRuleImpl>,
    before: Stage,
    fired: Seq<bool>,
    applied: bool,
    children: ChildrenView,
    arena: ArenaView,
    now_fired: Seq<bool>,
    below: Result<bool, DatabaseError>,
)
    requires
        children_rules(
            library,
            rules,
            before.plan.children,
            before.arena,
            fired,
            children,
            arena,
            now_fired,
            below,
        ),
    ensures
        exists|depth: nat| #[trigger]
            input_rules(
                library,
                rules,
                depth,
                before,
                fired,
                applied,
                Stage {
                    plan: with_inputs(
                        before.plan,
                        children,
                        changed(below),
                    ),
                    arena,
                },
                now_fired,
                merge_outcomes(applied, below),
            ),
{
    let after = Stage {
        plan: with_inputs(before.plan, children, changed(below)),
        arena,
    };
    let res = merge_outcomes(applied, below);
    match before.plan.children {
        ChildrenView::Leaf => {
            assert(input_rules(
                library,
                rules,
                0,
                before,
                fired,
                applied,
                after,
                now_fired,
                res,
            ));
        },
        ChildrenView::Only(child) => {
            let (depth, input, outcome) = choose|
                depth: nat,
                input: Stage,
                outcome: Result<bool, DatabaseError>,
            |
                #[trigger] mentions_point(depth, input, now_fired, outcome) && tree_rules(
                    library,
                    rules,
                    depth,
                    Stage { plan: *child, arena: before.arena },
                    fired,
                    input,
                    now_fired,
                    outcome,
                ) && children == ChildrenView::Only(Box::new(input.plan)) && arena == input.arena
                    && below == outcome;
            assert(mentions_point(depth, input, now_fired, outcome) && depth < depth + 1);
            assert(input_rules(
                library,
                rules,
                depth + 1,
                before,
                fired,
                applied,
                after,
                now_fired,
                res,
            ));
        },
        ChildrenView::Twins { left, right } => {
            let (depth, first, first_fired, outcome) = choose|
                depth: nat,
                first: Stage,
                first_fired: Seq<bool>,
                outcome: Result<bool, DatabaseError>,
            |
                #[trigger] mentions_point(depth, first, first_fired, outcome) && tree_rules(
                    library,
                    rules,
                    depth,
                    Stage { plan: *left, arena: before.arena },
                    fired,
                    first,
                    first_fired,
                    outcome,
                ) && twins_rest(
                    library,
                    rules,
                    right,
                    first,
                    first_fired,
                    outcome,
                    children,
                    arena,
                    now_fired,
                    below,
                );
            if let Ok(left_applied) = outcome {
                let (other, second, rest) = choose|
                    other: nat,
                    second: Stage,
                    rest: Result<bool, DatabaseError>,
                |
                    #[trigger] mentions_point(other, second, now_fired, rest) && tree_rules(
                        library,
                        rules,
                        other,
                        Stage { plan: *right, arena: first.arena },
                        first_fired,
                        second,
                        now_fired,
                        rest,
                    ) && children == (ChildrenView::Twins {
                        left: Box::new(first.plan),
                        right: Box::new(second.plan),
                    }) && arena == second.arena && below == merge_outcomes(left_applied, rest);
                let top = if depth < other {
                    other + 1
                } else {
                    depth + 1
                };
                assert(mentions_point(depth, first, first_fired, outcome) && depth < top);
                assert(mentions_point(other, second, now_fired, rest) && other < top);
                assert(input_rules(
                    library,
                    rules,
                    top,
                    before,
                    fired,
                    applied,
                    after,
                    now_fired,
                    res,
                ));
            } else {
                assert(mentions_point(depth, first, first_fired, outcome) && depth < depth + 1);
                assert(input_rules(
                    library,
                    rules,
                    depth + 1,
                    before,
                    fired,
                    applied,
                    after,
                    now_fired,
                    res,
                ));
            }
        },
    }
}

} // verus!
