//! What trying rules and asking for orders keeps.

use crate::errors::DatabaseError;
use crate::optimizer::heuristic::annotation::HintsView;
use crate::optimizer::heuristic::batch::{HepBatchStrategy, StepView};
use crate::optimizer::heuristic::passes::{batch_rewrites, round_rewrites, rounds};
use crate::optimizer::heuristic::rewriting::{
    input_rules, mentions_point, merge_outcomes, node_rules, tree_rules, tries_rule,
};
use crate::optimizer::rule::normalization::{NormalizationRuleImpl, RuleLibrary, Stage};
use crate::planner::operator::OperatorView;
use crate::planner::ChildrenView;
use vstd::prelude::*;

verus! {

/// Whether every rule that fired before has still fired.
pub open spec fn still_fired(fired: Seq<bool>, now_fired: Seq<bool>) -> bool {
    &&& now_fired.len() == fired.len()
    &&& forall|i: int| 0 <= i < fired.len() && #[trigger] fired[i] ==> now_fired[i]
}

/// Whether a rule fired that had not fired before.
pub open spec fn fired_anew(fired: Seq<bool>, now_fired: Seq<bool>) -> bool {
    exists|i: int| 0 <= i < fired.len() && !(#[trigger] fired[i]) && now_fired[i]
}

/// Whether the outcome tells of a change exactly if a rule fired anew.
pub open spec fn tells_of_fired(
    fired: Seq<bool>,
    now_fired: Seq<bool>,
    res: Result<bool, DatabaseError>,
) -> bool {
    res matches Ok(applied) ==> (applied <==> fired_anew(fired, now_fired))
}

proof fn lemma_fired_chain(first: Seq<bool>, second: Seq<bool>, third: Seq<bool>)
    requires
        still_fired(first, second),
        still_fired(second, third),
    ensures
        still_fired(first, third),
        fired_anew(first, third) <==> fired_anew(first, second) || fired_anew(second, third),
{
    assert forall|i: int| 0 <= i < first.len() && #[trigger] first[i] implies third[i] by {
        assert(second[i]);
    }
    if fired_anew(first, second) {
        let i = choose|i: int| 0 <= i < first.len() && !(#[trigger] first[i]) && second[i];
        assert(!first[i] && third[i]);
    }
    if fired_anew(second, third) {
        let i = choose|i: int| 0 <= i < second.len() && !(#[trigger] second[i]) && third[i];
        assert(!first[i] && third[i]);
    }
    if fired_anew(first, third) {
        let i = choose|i: int| 0 <= i < first.len() && !(#[trigger] first[i]) && third[i];
        if !second[i] {
            assert(!second[i] && third[i]);
        }
    }
}

/// Rules that are tried at an operator stay fired, and a change is told of exactly if one of them
/// fired anew.
pub proof fn rules_at_an_operator_fire_once<L: RuleLibrary>(
    library: &L,
    rules: Seq<NormalizationRuleImpl>,
    before: Stage,
    fired: Seq<bool>,
    after: Stage,
    now_fired: Seq<bool>,
    res: Result<bool, DatabaseError>,
)
    requires
        node_rules(library, rules, before, fired, after, now_fired, res),
        rules.len() <= fired.len(),
    ensures
        still_fired(fired, now_fired),
        tells_of_fired(fired, now_fired, res),
    decreases rules.len(),
{
    if rules.len() > 0 {
        let (middle, middle_fired, sofar) = choose|
            middle: Stage,
            middle_fired: Seq<bool>,
            sofar: Result<bool, DatabaseError>,
        |
            node_rules(
                library,
                rules.drop_last(),
                before,
                fired,
                middle,
                middle_fired,
                sofar,
            ) && #[trigger] tries_rule(
                library,
                rules.last(),
                rules.len() - 1,
                middle,
                middle_fired,
                sofar,
                after,
                now_fired,
                res,
            );
        rules_at_an_operator_fire_once(
            library,
            rules.drop_last(),
            before,
            fired,
            middle,
            middle_fired,
            sofar,
        );
        let last = rules.len() - 1;
        assert(still_fired(middle_fired, now_fired));
        if now_fired != middle_fired {
            assert(!middle_fired[last] && now_fired[last]);
            assert(fired_anew(middle_fired, now_fired));
        }
        lemma_fired_chain(fired, middle_fired, now_fired);
    }
}

/// Rules that are tried all over a plan stay fired, so that none fires twice, and a change is told of
/// exactly if one of them fired anew.
pub proof fn rules_fire_once<L: RuleLibrary>(
    library: &L,
    rules: Seq<NormalizationRuleImpl>,
    depth: nat,
    before: Stage,
    fired: Seq<bool>,
    after: Stage,
    now_fired: Seq<bool>,
    res: Result<bool, DatabaseError>,
)
    requires
        tree_rules(library, rules, depth, before, fired, after, now_fired, res),
        rules.len() <= fired.len(),
    ensures
        still_fired(fired, now_fired),
        tells_of_fired(fired, now_fired, res),
    decreases depth, 1nat,
{
    let (middle, middle_fired, sofar) = choose|
        middle: Stage,
        middle_fired: Seq<bool>,
        sofar: Result<bool, DatabaseError>,
    |
        #[trigger]
        node_rules(library, rules, before, fired, middle, middle_fired, sofar) && match sofar {
            Err(err) => after == middle && now_fired == middle_fired && res == sofar,
            Ok(applied) => input_rules(
                library,
                rules,
                depth,
                middle,
                middle_fired,
                applied,
                after,
                now_fired,
                res,
            ),
        };
    rules_at_an_operator_fire_once(library, rules, before, fired, middle, middle_fired, sofar);
    if let Ok(applied) = sofar {
        lemma_inputs_fire_once(
            library,
            rules,
            depth,
            middle,
            middle_fired,
            applied,
            after,
            now_fired,
            res,
        );
        lemma_fired_chain(fired, middle_fired, now_fired);
    }
}

proof fn lemma_inputs_fire_once<L: RuleLibrary>(
    library: &L,
    rules: Seq<NormalizationRuleImpl>,
    depth: nat,
    before: Stage,
    fired: Seq<bool>,
    applied: bool,
    after: Stage,
    now_fired: Seq<bool>,
    res: Result<bool, DatabaseError>,
)
    requires
        input_rules(library, rules, depth, before, fired, applied, after, now_fired, res),
        rules.len() <= fired.len(),
    ensures
        still_fired(fired, now_fired),
        res matches Ok(changed) ==> (changed <==> applied || fired_anew(fired, now_fired)),
    decreases depth, 0nat,
{
    match before.plan.children {
        ChildrenView::Leaf => {},
        ChildrenView::Only(child) => {
            let (below, input, outcome) = choose|
                below: nat,
                input: Stage,
                outcome: Result<bool, DatabaseError>,
            |
                #[trigger] mentions_point(below, input, now_fired, outcome) && below < depth
                    && tree_rules(
                    library,
                    rules,
                    below,
                    Stage { plan: *child, arena: before.arena },
                    fired,
                    input,
                    now_fired,
                    outcome,
                ) && res
                    == merge_outcomes(applied, outcome);
            rules_fire_once(
                library,
                rules,
                below,
                Stage { plan: *child, arena: before.arena },
                fired,
                input,
                now_fired,
                outcome,
            );
        },
        ChildrenView::Twins { left, right } => {
            let start = Stage { plan: *left, arena: before.arena };
            let (below, first, first_fired, outcome) = choose|
                below: nat,
                first: Stage,
                first_fired: Seq<bool>,
                outcome: Result<bool, DatabaseError>,
            |
                #[trigger] mentions_point(below, first, first_fired, outcome) && below < depth
                    && tree_rules(
                    library,
                    rules,
                    below,
                    start,
                    fired,
                    first,
                    first_fired,
                    outcome,
                ) && match outcome {
                    Err(err) => now_fired == first_fired && res == outcome,
                    Ok(left_applied) => exists|
                        other: nat,
                        second: Stage,
                        last: Result<bool, DatabaseError>,
                    |
                        #[trigger] mentions_point(other, second, now_fired, last) && other < depth
                            && tree_rules(
                            library,
                            rules,
                            other,
                            Stage { plan: *right, arena: first.arena },
                            first_fired,
                            second,
                            now_fired,
                            last,
                        ) && res == merge_outcomes(
                            applied || left_applied,
                            last,
                        ),
                };
            rules_fire_once(library, rules, below, start, fired, first, first_fired, outcome);
            if let Ok(left_applied) = outcome {
                let (other, second, last) = choose|
                    other: nat,
                    second: Stage,
                    last: Result<bool, DatabaseError>,
                |
                    #[trigger] mentions_point(other, second, now_fired, last) && other < depth
                        && tree_rules(
                        library,
                        rules,
                        other,
                        Stage { plan: *right, arena: first.arena },
                        first_fired,
                        second,
                        now_fired,
                        last,
                    ) && res == merge_outcomes(
                        applied || left_applied,
                        last,
                    );
                rules_fire_once(
                    library,
                    rules,
                    other,
                    Stage { plan: *right, arena: first.arena },
                    first_fired,
                    second,
                    now_fired,
                    last,
                );
                lemma_fired_chain(fired, first_fired, now_fired);
            }
        },
    }
}

/// An order that is asked for below an operator is one that it sorts or groups by itself, or one that
/// was asked of it and that its rows keep or that it makes itself; and every order that is asked of
/// one that keeps orders is asked for below it too.
pub proof fn orders_are_asked_where_they_help(hints: HintsView, operator: OperatorView, i: int)
    ensures
        ({
            let below = hints.below(operator);
            let keeps = operator is Filter || operator is Project || operator is Limit || operator
                is TopK || operator is Sort;
            &&& 0 <= i < below.sorts.len() ==> (operator matches OperatorView::Sort(keys)
                && below.sorts[i] == keys) || (keeps && hints.sorts.contains(below.sorts[i]))
            &&& keeps && 0 <= i < hints.sorts.len() ==> below.sorts.contains(hints.sorts[i])
            &&& operator matches OperatorView::Sort(keys) ==> below.sorts.contains(keys)
            &&& below.groups matches Some(exprs) ==> exprs.len() > 0 && (operator matches
                OperatorView::Aggregate(op) && exprs == op.groupby_exprs) || (keeps
                && hints.groups == Some(exprs))
            &&& operator matches OperatorView::Aggregate(op) ==> (below.groups is Some
                <==> op.groupby_exprs.len() > 0)
        }),
{
    let below = hints.below(operator);
    if let OperatorView::Sort(keys) = operator {
        assert(below.sorts[hints.sorts.len() as int] == keys);
        if 0 <= i < hints.sorts.len() {
            assert(below.sorts[i] == hints.sorts[i]);
        }
    } else if 0 <= i < hints.sorts.len() {
        assert(hints.sorts.contains(hints.sorts[i]));
    }
}

/// A batch that may not run leaves the plan as it is; one that runs once goes through its steps exactly
/// once, and fails exactly if they do.
pub proof fn batch_runs_within_its_limit<L: RuleLibrary>(
    library: &L,
    steps: Seq<StepView>,
    before: Stage,
    after: Stage,
    res: Result<(), DatabaseError>,
)
    ensures
        batch_rewrites(library, steps, HepBatchStrategy::MaxTimes(0), before, after, res)
            ==> after == before && res is Ok,
        batch_rewrites(library, steps, HepBatchStrategy::MaxTimes(1), before, after, res)
            ==> exists|outcome: Result<bool, DatabaseError>|
            #[trigger] round_rewrites(library, steps, before, after, outcome) && (res is Ok
                <==> outcome is Ok),
{
    let once = HepBatchStrategy::MaxTimes(1);
    if batch_rewrites(library, steps, once, before, after, res) {
        let (count, middle) = choose|count: nat, middle: Stage| #[trigger]
            rounds(library, steps, count, before, middle) && count <= 1 && if count == 1 {
                after == middle && res == Ok::<(), DatabaseError>(())
            } else {
                exists|outcome: Result<bool, DatabaseError>| #[trigger]
                    round_rewrites(library, steps, middle, after, outcome) && match outcome {
                        Ok(fired) => !fired && res == Ok::<(), DatabaseError>(()),
                        Err(err) => res == Err::<(), _>(err),
                    }
            };
        if count == 1 {
            let start = choose|start: Stage|
                rounds(library, steps, 0, before, start) && #[trigger] round_rewrites(
                    library,
                    steps,
                    start,
                    middle,
                    Ok::<bool, DatabaseError>(true),
                );
            assert(start == before);
            assert(round_rewrites(library, steps, before, after, Ok::<bool, DatabaseError>(true)));
        } else {
            assert(middle == before);
        }
    }
}

} // verus!
