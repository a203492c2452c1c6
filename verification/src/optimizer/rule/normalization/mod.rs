//! Rules that rewrite a plan into a better one.

pub mod elimination;
pub mod key_laws;
pub mod order_laws;
pub mod order_meaning;
pub mod parameterized_index;
pub mod parameterized_join;
pub mod parameterized_laws;
pub mod parameterized_meaning;
pub mod pushdown_laws;
pub mod pushdown_meaning;
pub mod pushdown_predicates;
pub mod remap;
pub mod remap_laws;
pub mod scan_meaning;
pub mod scan_predicates;
pub mod searched_join_laws;
pub mod shapes;

use crate::errors::DatabaseError;
use crate::expression::analysis::bare;
use crate::expression::{AliasType, ScalarExpression};
use crate::optimizer::rule::normalization::elimination::{
    lemma_index_filter_valid, without_index_filter, EliminateIndexFilter,
};
use crate::optimizer::rule::normalization::parameterized_index::{
    marking_apply, search_right, ParameterizeMarkApply,
};
use crate::optimizer::rule::normalization::parameterized_join::{
    join_keys, join_search, searched_join, ParameterizeInnerJoin,
};
use crate::optimizer::rule::normalization::pushdown_predicates::{
    filter_above_join, input_schemas, pushes_condition, pushes_through_join,
    PushJoinPredicateIntoScan, PushPredicateThroughJoin,
};
use crate::optimizer::rule::normalization::scan_predicates::{
    asks_some_range, filtered_scan, pushable, scan_pushed, usable_len, with_scan,
    PushPredicateIntoScan,
};
use crate::optimizer::rule::normalization::shapes::{
    lemma_condition_shape, lemma_index_filter_shape, lemma_inputs_ready, lemma_join_search_shape,
    lemma_search_right_shape, lemma_through_join_shape,
};
use crate::planner::arena::{ArenaView, ExprRef, PlanArena};
use crate::planner::operator::mark_apply::MarkApplyView;
use crate::planner::operator::{Operator, OperatorView};
use crate::planner::shape::lemma_shaped_ready;
use crate::planner::{ChildrenView, LogicalPlan, PlanView};
use crate::types::index::IndexMetaView;
use vstd::prelude::*;

verus! {

/// The rules that rewrite plans.
#[derive(Clone, Copy, Debug, PartialEq, Eq, Structural)]
pub enum NormalizationRuleImpl {
    ColumnPruning,
    CollapseProject,
    CollapseGroupByAgg,
    CombineFilter,
    LimitProjectTranspose,
    PushLimitThroughJoin,
    PushLimitIntoTableScan,
    PushPredicateThroughJoin,
    PushJoinPredicateIntoScan,
    PushPredicateIntoScan,
    SimplifyFilter,
    ConstantCalculation,
    EvaluatorBind,
    MinMaxToTopK,
    TopK,
    ParameterizeMarkApply,
    ParameterizeInnerJoin,
    EliminateIndexFilter,
}

/// What a pass over a whole plan does.
#[derive(Clone, Copy, Debug, PartialEq, Eq, Structural)]
pub enum WholeTreePassKind {
    ColumnPruning,
    ExpressionRewrite,
}

/// The kinds of operator that rules are kept by.
#[derive(Clone, Copy, Debug, PartialEq, Eq, Structural)]
pub enum NormalizationRuleRootTag {
    Any,
    Aggregate,
    Filter,
    Join,
    Limit,
    MarkApply,
    Project,
    SortLike,
}

/// The kind of operator that an operator is of, if rules are kept by that kind.
pub open spec fn operator_tag(operator: Operator) -> Option<NormalizationRuleRootTag> {
    match operator {
        Operator::Aggregate(_) => Some(NormalizationRuleRootTag::Aggregate),
        Operator::MarkApply(_) => Some(NormalizationRuleRootTag::MarkApply),
        Operator::ScalarApply(_) => Some(NormalizationRuleRootTag::Any),
        Operator::Filter(_) => Some(NormalizationRuleRootTag::Filter),
        Operator::Join(_) => Some(NormalizationRuleRootTag::Join),
        Operator::Limit(_) => Some(NormalizationRuleRootTag::Limit),
        Operator::Project(_) => Some(NormalizationRuleRootTag::Project),
        Operator::Sort(_) => Some(NormalizationRuleRootTag::SortLike),
        Operator::TopK(_) => Some(NormalizationRuleRootTag::SortLike),
        _ => None,
    }
}

/// The kind of operator that an operator is of, read off its model.
pub open spec fn view_tag(operator: OperatorView) -> Option<NormalizationRuleRootTag> {
    match operator {
        OperatorView::Aggregate(_) => Some(NormalizationRuleRootTag::Aggregate),
        OperatorView::MarkApply(_) => Some(NormalizationRuleRootTag::MarkApply),
        OperatorView::Plain(Operator::ScalarApply(_)) => Some(NormalizationRuleRootTag::Any),
        OperatorView::Filter(_) => Some(NormalizationRuleRootTag::Filter),
        OperatorView::Join(_) => Some(NormalizationRuleRootTag::Join),
        OperatorView::Limit(_) => Some(NormalizationRuleRootTag::Limit),
        OperatorView::Project(_) => Some(NormalizationRuleRootTag::Project),
        OperatorView::Sort(_) => Some(NormalizationRuleRootTag::SortLike),
        OperatorView::TopK(_) => Some(NormalizationRuleRootTag::SortLike),
        _ => None,
    }
}

impl NormalizationRuleRootTag {
    /// The number of kinds.
    pub const COUNT: usize = 8;

    /// The kind of operator that an operator is of, if rules are kept by that kind.
    pub fn from_operator(operator: &Operator) -> (res: Option<Self>)
        ensures
            res == operator_tag(*operator),
            res == view_tag(operator@),
    {
        match operator {
            Operator::Aggregate(_) => Some(NormalizationRuleRootTag::Aggregate),
            Operator::MarkApply(_) => Some(NormalizationRuleRootTag::MarkApply),
            Operator::ScalarApply(_) => Some(NormalizationRuleRootTag::Any),
            Operator::Filter(_) => Some(NormalizationRuleRootTag::Filter),
            Operator::Join(_) => Some(NormalizationRuleRootTag::Join),
            Operator::Limit(_) => Some(NormalizationRuleRootTag::Limit),
            Operator::Project(_) => Some(NormalizationRuleRootTag::Project),
            Operator::Sort(_) | Operator::TopK(_) => Some(NormalizationRuleRootTag::SortLike),
            _ => None,
        }
    }
}

/// How a rule is applied: in a pass over the whole plan, or operator by operator.
#[derive(Clone, Copy, Debug, PartialEq, Eq, Structural)]
pub enum NormalizationPassKind {
    WholeTreePass(WholeTreePassKind),
    LocalRewrite,
}

/// How a rule is applied.
pub open spec fn pass_of(rule: NormalizationRuleImpl) -> NormalizationPassKind {
    match rule {
        NormalizationRuleImpl::ColumnPruning => NormalizationPassKind::WholeTreePass(
            WholeTreePassKind::ColumnPruning,
        ),
        NormalizationRuleImpl::ConstantCalculation => NormalizationPassKind::WholeTreePass(
            WholeTreePassKind::ExpressionRewrite,
        ),
        NormalizationRuleImpl::EvaluatorBind => NormalizationPassKind::WholeTreePass(
            WholeTreePassKind::ExpressionRewrite,
        ),
        _ => NormalizationPassKind::LocalRewrite,
    }
}

/// The kind of operator that a rule starts at.
pub open spec fn tag_of(rule: NormalizationRuleImpl) -> NormalizationRuleRootTag {
    match rule {
        NormalizationRuleImpl::ColumnPruning => NormalizationRuleRootTag::Any,
        NormalizationRuleImpl::CollapseProject => NormalizationRuleRootTag::Project,
        NormalizationRuleImpl::CollapseGroupByAgg => NormalizationRuleRootTag::Aggregate,
        NormalizationRuleImpl::CombineFilter => NormalizationRuleRootTag::Filter,
        NormalizationRuleImpl::LimitProjectTranspose => NormalizationRuleRootTag::Limit,
        NormalizationRuleImpl::PushLimitThroughJoin => NormalizationRuleRootTag::Limit,
        NormalizationRuleImpl::PushLimitIntoTableScan => NormalizationRuleRootTag::Limit,
        NormalizationRuleImpl::TopK => NormalizationRuleRootTag::Limit,
        NormalizationRuleImpl::PushPredicateThroughJoin => NormalizationRuleRootTag::Filter,
        NormalizationRuleImpl::PushPredicateIntoScan => NormalizationRuleRootTag::Filter,
        NormalizationRuleImpl::SimplifyFilter => NormalizationRuleRootTag::Filter,
        NormalizationRuleImpl::PushJoinPredicateIntoScan => NormalizationRuleRootTag::Join,
        NormalizationRuleImpl::ConstantCalculation => NormalizationRuleRootTag::Any,
        NormalizationRuleImpl::EvaluatorBind => NormalizationRuleRootTag::Any,
        NormalizationRuleImpl::MinMaxToTopK => NormalizationRuleRootTag::Aggregate,
        NormalizationRuleImpl::EliminateIndexFilter => NormalizationRuleRootTag::Filter,
        NormalizationRuleImpl::ParameterizeInnerJoin => NormalizationRuleRootTag::Join,
        NormalizationRuleImpl::ParameterizeMarkApply => NormalizationRuleRootTag::MarkApply,
    }
}

/// Whether an index has a column, and a type for each of its columns.
pub open spec fn index_fits(index: IndexMetaView) -> bool {
    0 < index.column_ids.len() <= index.column_types().len()
}

/// Whether a plan and its arena fit each other, every operator has the inputs that it needs, and
/// every index has columns of known types.
pub open spec fn sound(plan: PlanView, arena: ArenaView) -> bool {
    &&& arena.wf()
    &&& forall|i: int| 0 <= i < arena.indexes.len() ==> index_fits(#[trigger] arena.indexes[i])
    &&& plan.valid(arena)
    &&& plan.shaped()
}

/// A plan and its arena at some point of a rewriting.
pub struct Stage {
    pub plan: PlanView,
    pub arena: ArenaView,
}

/// Whether a rewriting left everything in order: the plan is sound, the arena did not shrink and
/// kept its indexes.
pub open spec fn follows(before: Stage, after: Stage) -> bool {
    &&& sound(after.plan, after.arena)
    &&& before.arena.within(after.arena)
    &&& before.arena.indexes == after.arena.indexes
}

/// Rules whose definition is not part of this module.
pub trait RuleLibrary {
    /// What trying a rule does to a plan.
    spec fn rewrites(
        &self,
        rule: NormalizationRuleImpl,
        before: Stage,
        after: Stage,
        res: Result<bool, DatabaseError>,
    ) -> bool;

    /// Tries a rule; tells whether the plan changed.
    fn apply(
        &self,
        rule: NormalizationRuleImpl,
        plan: &mut LogicalPlan,
        arena: &mut PlanArena,
    ) -> (res: Result<bool, DatabaseError>)
        requires
            sound(old(plan)@, old(arena)@),
        ensures
            self.rewrites(
                rule,
                (Stage { plan: old(plan)@, arena: old(arena)@ }),
                (Stage { plan: final(plan)@, arena: final(arena)@ }),
                res,
            ),
            follows(
                (Stage { plan: old(plan)@, arena: old(arena)@ }),
                (Stage { plan: final(plan)@, arena: final(arena)@ }),
            ),
            res == Ok::<bool, DatabaseError>(false) ==> final(plan)@.height() <= old(
                plan,
            )@.height(),
    ;

    /// What rewriting the expressions of one operator does to the plan below which it stands.
    spec fn recomputes(
        &self,
        rule: NormalizationRuleImpl,
        before: Stage,
        after: Stage,
        res: Result<(), DatabaseError>,
    ) -> bool;

    /// Rewrites the expressions of the topmost operator.
    fn apply_current(
        &self,
        rule: NormalizationRuleImpl,
        plan: &mut LogicalPlan,
        arena: &mut PlanArena,
    ) -> (res: Result<(), DatabaseError>)
        requires
            sound(old(plan)@, old(arena)@),
        ensures
            self.recomputes(
                rule,
                (Stage { plan: old(plan)@, arena: old(arena)@ }),
                (Stage { plan: final(plan)@, arena: final(arena)@ }),
                res,
            ),
            follows(
                (Stage { plan: old(plan)@, arena: old(arena)@ }),
                (Stage { plan: final(plan)@, arena: final(arena)@ }),
            ),
    ;
}

/// A library without rules: nothing is ever rewritten.
#[derive(Debug, Default)]
pub struct NoRules;

impl RuleLibrary for NoRules {
    open spec fn rewrites(
        &self,
        rule: NormalizationRuleImpl,
        before: Stage,
        after: Stage,
        res: Result<bool, DatabaseError>,
    ) -> bool {
        after == before && res == Ok::<bool, DatabaseError>(false)
    }

    fn apply(
        &self,
        rule: NormalizationRuleImpl,
        plan: &mut LogicalPlan,
        arena: &mut PlanArena,
    ) -> (res: Result<bool, DatabaseError>) {
        Ok(false)
    }

    open spec fn recomputes(
        &self,
        rule: NormalizationRuleImpl,
        before: Stage,
        after: Stage,
        res: Result<(), DatabaseError>,
    ) -> bool {
        after == before && res == Ok::<(), DatabaseError>(())
    }

    fn apply_current(
        &self,
        rule: NormalizationRuleImpl,
        plan: &mut LogicalPlan,
        arena: &mut PlanArena,
    ) -> (res: Result<(), DatabaseError>) {
        Ok(())
    }
}

/// What pushing a filter into the scan below it does.
pub open spec fn pushes_into_scan(
    before: Stage,
    after: Stage,
    res: Result<bool, DatabaseError>,
) -> bool {
    match filtered_scan(before.plan) {
        None => after == before && res == Ok::<bool, DatabaseError>(false),
        Some((predicate, scan)) => {
            &&& filtered_scan(after.plan) matches Some((_, pushed)) && scan_pushed(
                before.arena,
                after.arena,
                predicate,
                scan,
                pushed,
            ) && after.plan == with_scan(before.plan, pushed)
            &&& match res {
                Ok(changed) => usable_len(scan.index_infos) == scan.index_infos.len() && changed
                    == asks_some_range(before.arena, predicate, scan.index_infos),
                Err(err) => err is InvalidIndex && usable_len(scan.index_infos)
                    < scan.index_infos.len(),
            }
        },
    }
}

/// What letting an application search its right input does.
pub open spec fn searches_right(
    before: Stage,
    after: Stage,
    res: Result<bool, DatabaseError>,
) -> bool {
    match marking_apply(before.plan) {
        None => after == before && res == Ok::<bool, DatabaseError>(false),
        Some(op) => {
            let inputs = input_schemas(before.plan.children, before.arena);
            let (right, probe) = search_right(op, before.plan.children, before.arena);
            &&& res == Ok::<bool, DatabaseError>(op.parameterized_probe != probe)
            &&& after.arena == inputs.arena
            &&& after.plan == PlanView {
                operator: OperatorView::MarkApply(
                    MarkApplyView { parameterized_probe: probe, ..op },
                ),
                children: ChildrenView::Twins {
                    left: inputs.children->left,
                    right: Box::new(right),
                },
                ..before.plan
            }
        },
    }
}

/// What letting an inner join search one of its inputs does.
pub open spec fn searches_input(
    before: Stage,
    after: Stage,
    res: Result<bool, DatabaseError>,
) -> bool {
    let search = match join_keys(before.plan) {
        Some((on, _)) => join_search(
            *before.plan.children->left,
            *before.plan.children->right,
            on,
            before.arena,
        ),
        None => None,
    };
    &&& res == Ok::<bool, DatabaseError>(search is Some)
    &&& match search {
        None => after == before,
        Some(search) => (after.plan, after.arena) == searched_join(
            search,
            (join_keys(before.plan)->0).1,
        ),
    }
}

/// What trying a rule does to a plan.
pub open spec fn rule_rewrites<L: RuleLibrary>(
    library: &L,
    rule: NormalizationRuleImpl,
    before: Stage,
    after: Stage,
    res: Result<bool, DatabaseError>,
) -> bool {
    match rule {
        NormalizationRuleImpl::PushPredicateThroughJoin => res is Ok && pushes_through_join(
            before.plan,
            before.arena,
            after.plan,
            after.arena,
            res->Ok_0,
        ),
        NormalizationRuleImpl::PushJoinPredicateIntoScan => res is Ok && pushes_condition(
            before.plan,
            before.arena,
            after.plan,
            after.arena,
            res->Ok_0,
        ),
        NormalizationRuleImpl::PushPredicateIntoScan => pushes_into_scan(before, after, res),
        NormalizationRuleImpl::EliminateIndexFilter => res is Ok && (after.plan, res->Ok_0)
            == without_index_filter(before.plan) && after.arena == before.arena,
        NormalizationRuleImpl::ParameterizeMarkApply => searches_right(before, after, res),
        NormalizationRuleImpl::ParameterizeInnerJoin => searches_input(before, after, res),
        rule => library.rewrites(rule, before, after, res),
    }
}

impl NormalizationRuleImpl {
    /// How the rule is applied.
    pub fn pass_kind(&self) -> (res: NormalizationPassKind)
        ensures
            res == pass_of(*self),
    {
        match self {
            NormalizationRuleImpl::ColumnPruning => NormalizationPassKind::WholeTreePass(
                WholeTreePassKind::ColumnPruning,
            ),
            NormalizationRuleImpl::ConstantCalculation | NormalizationRuleImpl::EvaluatorBind => {
                NormalizationPassKind::WholeTreePass(WholeTreePassKind::ExpressionRewrite)
            },
            _ => NormalizationPassKind::LocalRewrite,
        }
    }

    /// The kind of operator that the rule starts at.
    pub fn root_tag(&self) -> (res: NormalizationRuleRootTag)
        ensures
            res == tag_of(*self),
    {
        match self {
            NormalizationRuleImpl::ColumnPruning | NormalizationRuleImpl::ConstantCalculation
            | NormalizationRuleImpl::EvaluatorBind => NormalizationRuleRootTag::Any,
            NormalizationRuleImpl::CollapseProject => NormalizationRuleRootTag::Project,
            NormalizationRuleImpl::CollapseGroupByAgg | NormalizationRuleImpl::MinMaxToTopK => {
                NormalizationRuleRootTag::Aggregate
            },
            NormalizationRuleImpl::LimitProjectTranspose
            | NormalizationRuleImpl::PushLimitThroughJoin
            | NormalizationRuleImpl::PushLimitIntoTableScan
            | NormalizationRuleImpl::TopK => NormalizationRuleRootTag::Limit,
            NormalizationRuleImpl::CombineFilter | NormalizationRuleImpl::PushPredicateThroughJoin
            | NormalizationRuleImpl::PushPredicateIntoScan | NormalizationRuleImpl::SimplifyFilter
            | NormalizationRuleImpl::EliminateIndexFilter => NormalizationRuleRootTag::Filter,
            NormalizationRuleImpl::PushJoinPredicateIntoScan
            | NormalizationRuleImpl::ParameterizeInnerJoin => NormalizationRuleRootTag::Join,
            NormalizationRuleImpl::ParameterizeMarkApply => NormalizationRuleRootTag::MarkApply,
        }
    }

    /// Tries the rule; tells whether the plan changed.
    pub fn apply<L: RuleLibrary>(
        &self,
        plan: &mut LogicalPlan,
        arena: &mut PlanArena,
        library: &L,
    ) -> (res: Result<bool, DatabaseError>)
        requires
            sound(old(plan)@, old(arena)@),
        ensures
            rule_rewrites(
                library,
                *self,
                (Stage { plan: old(plan)@, arena: old(arena)@ }),
                (Stage { plan: final(plan)@, arena: final(arena)@ }),
                res,
            ),
            follows(
                (Stage { plan: old(plan)@, arena: old(arena)@ }),
                (Stage { plan: final(plan)@, arena: final(arena)@ }),
            ),
            res == Ok::<bool, DatabaseError>(false) ==> final(plan)@.height() <= old(
                plan,
            )@.height(),
    {
        let ghost start = plan@;
        let ghost before = arena@;
        match self {
            NormalizationRuleImpl::PushPredicateThroughJoin => {
                proof {
                    if filter_above_join(start) {
                        let join = *start.children->Only_0;
                        assert(start.children.shaped() == join.shaped());
                        lemma_inputs_ready(join.children);
                    }
                }
                let res = PushPredicateThroughJoin.apply(plan, arena);
                proof {
                    lemma_through_join_shape(start, before, plan@, arena@, res->Ok_0);
                }
                res
            },
            NormalizationRuleImpl::PushJoinPredicateIntoScan => {
                proof {
                    lemma_inputs_ready(start.children);
                }
                let res = PushJoinPredicateIntoScan.apply(plan, arena);
                proof {
                    lemma_condition_shape(start, before, plan@, arena@, res->Ok_0);
                }
                res
            },
            NormalizationRuleImpl::PushPredicateIntoScan => {
                proof {
                    lemma_pushable(start, before);
                }
                let res = PushPredicateIntoScan.apply(plan, arena);
                proof {
                    if let Some((_, scan)) = filtered_scan(start) {
                        let child = *start.children->Only_0;
                        assert(start.children.shaped() == child.shaped());
                        let after = *plan@.children->Only_0;
                        assert(after.children == child.children);
                        assert(plan@.children.shaped() == after.shaped());
                        assert(after.height() == child.height());
                        assert(plan@.children.height() == start.children.height());
                    }
                }
                res
            },
            NormalizationRuleImpl::EliminateIndexFilter => {
                proof {
                    lemma_index_filter_shape(start);
                    lemma_index_filter_valid(start, before);
                }
                EliminateIndexFilter.apply(plan, arena)
            },
            NormalizationRuleImpl::ParameterizeMarkApply => {
                proof {
                    lemma_inputs_ready(start.children);
                    if let Some(op) = marking_apply(start) {
                        lemma_search_right_shape(op, start.children, before);
                    }
                }
                ParameterizeMarkApply.apply(plan, arena)
            },
            NormalizationRuleImpl::ParameterizeInnerJoin => {
                proof {
                    if let Some((on, filter)) = join_keys(start) {
                        let left = *start.children->left;
                        let right = *start.children->right;
                        assert(start.children.shaped() == (left.shaped() && right.shaped()));
                        lemma_shaped_ready(left);
                        lemma_shaped_ready(right);
                        lemma_join_search_shape(left, right, on, before, filter);
                    }
                }
                ParameterizeInnerJoin.apply(plan, arena)
            },
            rule => library.apply(*rule, plan, arena),
        }
    }
}

/// A filter can be pushed into any scan whose indexes have columns of known types.
proof fn lemma_pushable(plan: PlanView, arena: ArenaView)
    requires
        sound(plan, arena),
    ensures
        filtered_scan(plan) matches Some((predicate, scan)) ==> forall|i: int|
            0 <= i < usable_len(scan.index_infos) ==> pushable(
                arena,
                scan.columns,
                predicate,
                #[trigger] scan.index_infos[i],
            ),
{
    if let Some((predicate, scan)) = filtered_scan(plan) {
        let child = *plan.children->Only_0;
        assert(plan.children.valid(arena));
        assert(child.valid(arena));
        scan_predicates::lemma_usable_len(scan.index_infos);
        assert forall|i: int| 0 <= i < usable_len(scan.index_infos) implies pushable(
            arena,
            scan.columns,
            predicate,
            #[trigger] scan.index_infos[i],
        ) by {
            assert(scan.index_infos[i].valid(arena));
            assert(index_fits(arena.indexes[scan.index_infos[i].meta.0 as int]));
        }
    }
}

/// The expression behind all aliases.
pub fn strip_alias(expr: ExprRef, arena: &PlanArena) -> (res: ExprRef)
    requires
        arena@.wf(),
        arena@.has_expr(expr),
    ensures
        res == bare(arena@.exprs, expr),
    decreases expr.0,
{
    match arena.expression(expr) {
        ScalarExpression::Alias { expr: inner, alias: AliasType::Name(_) } => {
            assert(arena@.exprs[expr.0 as int].children[0] == *inner);
            strip_alias(*inner, arena)
        },
        ScalarExpression::Alias { alias: AliasType::Expr(alias_expr), .. } => {
            assert(arena@.exprs[expr.0 as int].children[1] == *alias_expr);
            strip_alias(*alias_expr, arena)
        },
        _ => expr,
    }
}

} // verus!
