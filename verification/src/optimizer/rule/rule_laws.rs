//! Rules against the operators that they are for.

use crate::errors::DatabaseError;
use crate::optimizer::heuristic::batch::rule_matches;
use crate::optimizer::rule::implementation::{direct_option, rule_is_for, ImplementationRuleImpl};
use crate::optimizer::rule::normalization::{
    pass_of, rule_rewrites, NormalizationPassKind, NormalizationRuleImpl, RuleLibrary, Stage,
    WholeTreePassKind,
};
use crate::planner::operator::{Operator, OperatorView, PlanImpl, PlanImplView, SortOptionView};
use vstd::prelude::*;

verus! {

/// Whether the rule is one of those that are defined here.
pub open spec fn defined_here(rule: NormalizationRuleImpl) -> bool {
    rule == NormalizationRuleImpl::PushPredicateThroughJoin || rule
        == NormalizationRuleImpl::PushJoinPredicateIntoScan || rule
        == NormalizationRuleImpl::PushPredicateIntoScan || rule
        == NormalizationRuleImpl::EliminateIndexFilter || rule
        == NormalizationRuleImpl::ParameterizeMarkApply || rule
        == NormalizationRuleImpl::ParameterizeInnerJoin
}

/// A rule is tried at every operator at which it changes something.
pub proof fn rules_are_tried_where_they_apply<L: RuleLibrary>(
    library: &L,
    rule: NormalizationRuleImpl,
    before: Stage,
    after: Stage,
    res: Result<bool, DatabaseError>,
)
    requires
        defined_here(rule),
        rule_rewrites(library, rule, before, after, res),
        res == Ok::<bool, DatabaseError>(true),
    ensures
        rule_matches(rule, before.plan.operator),
        pass_of(rule) == NormalizationPassKind::LocalRewrite,
{
}

/// A rule that starts at one kind of operator is tried at all of these, and at no other.
pub proof fn rules_start_at_their_operators(rule: NormalizationRuleImpl, operator: OperatorView)
    ensures
        match rule {
            NormalizationRuleImpl::CollapseProject => rule_matches(rule, operator) <==> operator
                is Project,
            NormalizationRuleImpl::CollapseGroupByAgg | NormalizationRuleImpl::MinMaxToTopK => {
                rule_matches(rule, operator) <==> operator is Aggregate
            },
            NormalizationRuleImpl::LimitProjectTranspose
            | NormalizationRuleImpl::PushLimitThroughJoin
            | NormalizationRuleImpl::PushLimitIntoTableScan
            | NormalizationRuleImpl::TopK => rule_matches(rule, operator) <==> operator is Limit,
            NormalizationRuleImpl::CombineFilter | NormalizationRuleImpl::SimplifyFilter
            | NormalizationRuleImpl::PushPredicateThroughJoin
            | NormalizationRuleImpl::PushPredicateIntoScan
            | NormalizationRuleImpl::EliminateIndexFilter => rule_matches(rule, operator)
                <==> operator is Filter,
            NormalizationRuleImpl::PushJoinPredicateIntoScan
            | NormalizationRuleImpl::ParameterizeInnerJoin => rule_matches(rule, operator)
                <==> operator is Join,
            NormalizationRuleImpl::ParameterizeMarkApply => rule_matches(rule, operator)
                <==> operator is MarkApply,
            _ => rule_matches(rule, operator),
        },
{
}

/// Columns are pruned and expressions rewritten over the whole plan; every other rule goes operator
/// by operator.
pub proof fn only_passes_see_the_whole_plan(rule: NormalizationRuleImpl)
    ensures
        pass_of(rule) matches NormalizationPassKind::WholeTreePass(kind) ==> {
            &&& kind == WholeTreePassKind::ColumnPruning <==> rule
                == NormalizationRuleImpl::ColumnPruning
            &&& kind == WholeTreePassKind::ExpressionRewrite ==> rule
                == NormalizationRuleImpl::ConstantCalculation || rule
                == NormalizationRuleImpl::EvaluatorBind
        },
        rule == NormalizationRuleImpl::ColumnPruning || rule
            == NormalizationRuleImpl::ConstantCalculation || rule
            == NormalizationRuleImpl::EvaluatorBind <==> pass_of(rule) is WholeTreePass,
{
}

/// Whether an operator leaves the order of its input, or of its left input, as it is.
pub open spec fn keeps_order(operator: OperatorView) -> bool {
    match operator {
        OperatorView::Filter(_) | OperatorView::Limit(_) | OperatorView::Project(_)
        | OperatorView::MarkApply(_) => true,
        OperatorView::Plain(Operator::ScalarApply(_)) => true,
        OperatorView::Plain(Operator::ScalarSubquery(_)) => true,
        _ => false,
    }
}

/// Whether a way to carry out an operator does what the operator says.
pub open spec fn way_fits(plan: PlanImpl, operator: OperatorView) -> bool {
    match plan {
        PlanImpl::Dummy => operator matches OperatorView::Plain(plain) && plain is Dummy,
        PlanImpl::SimpleAggregate => operator matches OperatorView::Aggregate(op)
            && op.groupby_exprs.len() == 0,
        PlanImpl::HashAggregate | PlanImpl::StreamAggregate => operator matches
            OperatorView::Aggregate(op) && op.groupby_exprs.len() > 0,
        PlanImpl::StreamDistinct => operator matches OperatorView::Aggregate(op)
            && op.groupby_exprs.len() > 0 && op.is_distinct && op.agg_calls.len() == 0,
        PlanImpl::Filter => operator is Filter,
        PlanImpl::HashJoin => operator matches OperatorView::Join(op) && op.has_keys()
            && !op.force_nested_loop,
        PlanImpl::NestLoopJoin => operator is Join,
        PlanImpl::Project => operator is Project,
        PlanImpl::SeqScan => operator is TableScan,
        PlanImpl::FunctionScan => operator is FunctionScan,
        PlanImpl::IndexScan(_) => operator is TableScan,
        PlanImpl::Sort => operator is Sort,
        PlanImpl::Limit => operator is Limit,
        PlanImpl::TopK => operator is TopK,
        PlanImpl::Values => operator is Values,
        PlanImpl::Window => operator is Window,
        PlanImpl::MarkApply => operator is MarkApply,
        PlanImpl::ScalarApply => operator matches OperatorView::Plain(plain)
            && plain is ScalarApply,
        PlanImpl::ScalarSubquery => operator matches OperatorView::Plain(plain)
            && plain is ScalarSubquery,
        PlanImpl::Insert => operator matches OperatorView::Plain(plain) && plain is Insert,
        PlanImpl::Update => operator is Update,
        PlanImpl::Delete => operator is Delete,
        PlanImpl::AddColumn => operator matches OperatorView::Plain(plain) && plain is AddColumn,
        PlanImpl::ChangeColumn => operator matches OperatorView::Plain(plain)
            && plain is ChangeColumn,
        PlanImpl::DropColumn => operator matches OperatorView::Plain(plain) && plain is DropColumn,
        PlanImpl::CreateTable => operator is CreateTable,
        PlanImpl::DropTable => operator matches OperatorView::Plain(plain) && plain is DropTable,
        PlanImpl::Truncate => operator matches OperatorView::Plain(plain) && plain is Truncate,
        PlanImpl::CopyFromFile => operator matches OperatorView::Plain(plain)
            && plain is CopyFromFile,
        PlanImpl::CopyToFile => operator matches OperatorView::Plain(plain) && plain is CopyToFile,
        PlanImpl::Analyze => operator is Analyze,
    }
}

/// A way that is chosen without comparing does what the operator says, and promises no order but the
/// one that its rows have: that of its input where it keeps it, or the one by the keys that it sorts
/// by.
pub proof fn chosen_way_fits_its_operator(
    rules: Seq<ImplementationRuleImpl>,
    operator: OperatorView,
)
    ensures
        direct_option(rules, operator) matches Some(option) ==> {
            &&& option.plan matches PlanImplView::Plain(plan) && way_fits(plan, operator)
            &&& option.sort_option is Follow ==> keeps_order(operator)
            &&& option.sort_option matches SortOptionView::OrderBy { fields, ignore_prefix_len } ==> {
                &&& ignore_prefix_len == 0
                &&& match operator {
                    OperatorView::Sort(keys) => fields == keys,
                    OperatorView::TopK(op) => fields == op.sort_fields,
                    OperatorView::Window(op) => {
                        &&& fields.len() == op.partition_by.len() + op.order_by.len()
                        &&& forall|i: int|
                            0 <= i < op.partition_by.len() ==> (#[trigger] fields[i]).expr
                                == op.partition_by[i]
                        &&& forall|i: int|
                            op.partition_by.len() <= i < fields.len() ==> #[trigger] fields[i]
                                == op.order_by[i - op.partition_by.len()]
                    },
                    _ => false,
                }
            }
        },
        operator is Sort || operator is TopK ==> (direct_option(rules, operator) matches Some(option)
            ==> option.sort_option is OrderBy),
        keeps_order(operator) ==> (direct_option(rules, operator) matches Some(option)
            ==> option.sort_option is Follow),
        operator matches OperatorView::Join(op) ==> (direct_option(rules, operator) matches Some(
            option,
        ) ==> (option.plan == PlanImplView::Plain(PlanImpl::HashJoin) <==> op.has_keys()
            && !op.force_nested_loop)),
{
}

/// A way is chosen exactly if one of the rules is about the operator; scans, whose ways are compared
/// with each other, are left aside.
pub proof fn a_way_needs_its_rule(rules: Seq<ImplementationRuleImpl>, operator: OperatorView)
    requires
        !(operator is TableScan),
    ensures
        direct_option(rules, operator) is Some <==> exists|i: int|
            0 <= i < rules.len() && rule_is_for(#[trigger] rules[i], operator),
{
    if direct_option(rules, operator) is Some {
        assert(exists|rule: ImplementationRuleImpl| #[trigger]
            rules.contains(rule) && rule_is_for(rule, operator));
        let rule = choose|rule: ImplementationRuleImpl| #[trigger]
            rules.contains(rule) && rule_is_for(rule, operator);
        let i = choose|i: int| 0 <= i < rules.len() && rules[i] == rule;
        assert(rule_is_for(rules[i], operator));
    }
    if exists|i: int| 0 <= i < rules.len() && rule_is_for(#[trigger] rules[i], operator) {
        let i = choose|i: int| 0 <= i < rules.len() && rule_is_for(#[trigger] rules[i], operator);
        assert(rules.contains(rules[i]));
    }
}

} // verus!
