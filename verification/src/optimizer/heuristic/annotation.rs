//! The choice of how each operator of a plan is carried out.

use crate::errors::DatabaseError;
use crate::optimizer::rule::implementation::{
    best_valid, best_view, direct_option, rule_is_for, BestPhysicalOption, CostModel,
    ImplementationRuleImpl, ImplementationRuleIndex,
};
use crate::optimizer::rule::normalization::elimination::{
    apply_annotated_post_rules, apply_scan_order_hint, group_fields, hint_scan,
    lemma_group_fields_valid, passes_hints, post_rules, with_stream_aggregate, without_sort,
    OrderHintKind, ScanOrderHint,
};
use crate::optimizer::rule::normalization::shapes::{
    lemma_post_rules_shape, lemma_without_sort_shape,
};
use crate::planner::arena::{ArenaView, ExprRef, PlanArena};
use crate::planner::operator::sort::SortField;
use crate::planner::operator::table_scan::{TableScanOperator, TableScanView};
use crate::planner::operator::{
    valid_fields, Operator, OperatorView, PhysicalOption, PhysicalOptionView,
};
use crate::planner::{option_view, ChildrenView, Childrens, LogicalPlan, PlanView};
use vstd::prelude::*;

verus! {

/// The orders that the operators above a scan ask for.
#[derive(Debug)]
pub struct ScanHints {
    /// The keys of the sorts, the outermost first.
    pub sorts: Vec<Vec<SortField>>,
    /// The groups of an aggregation.
    pub groups: Option<Vec<ExprRef>>,
}

/// Mathematical model of [`ScanHints`].
pub struct HintsView {
    pub sorts: Seq<Seq<SortField>>,
    pub groups: Option<Seq<ExprRef>>,
}

impl View for ScanHints {
    type V = HintsView;

    open spec fn view(&self) -> HintsView {
        HintsView {
            sorts: self.sorts@.map_values(|fields: Vec<SortField>| fields@),
            groups: match self.groups {
                Some(exprs) => Some(exprs@),
                None => None,
            },
        }
    }
}

impl HintsView {
    /// No order is asked for.
    pub open spec fn nothing() -> HintsView {
        HintsView { sorts: Seq::empty(), groups: None }
    }

    /// Whether all keys and groups are in the arena.
    pub open spec fn valid(self, arena: ArenaView) -> bool {
        &&& forall|i: int| 0 <= i < self.sorts.len()
            ==> valid_fields(arena, #[trigger] self.sorts[i])
        &&& self.groups matches Some(exprs) ==> arena.has_exprs(exprs)
    }

    /// The orders that are asked for below an operator. A sort adds its keys, an aggregation asks
    /// for its groups, operators that hand on rows hand on what is asked of them, and below any
    /// other operator nothing is asked for.
    pub open spec fn below(self, operator: OperatorView) -> HintsView {
        HintsView {
            sorts: match operator {
                OperatorView::Sort(fields) => self.sorts.push(fields),
                operator => if passes_hints(operator) {
                    self.sorts
                } else {
                    Seq::empty()
                },
            },
            groups: match operator {
                OperatorView::Aggregate(op) => if op.groupby_exprs.len() > 0 {
                    Some(op.groupby_exprs)
                } else {
                    None
                },
                operator => if passes_hints(operator) {
                    self.groups
                } else {
                    None
                },
            },
        }
    }
}

/// A scan that is told about the sorts above it.
pub open spec fn hint_sorts(
    scan: TableScanView,
    sorts: Seq<Seq<SortField>>,
    arena: ArenaView,
) -> TableScanView
    decreases sorts.len(),
{
    if sorts.len() == 0 {
        scan
    } else {
        hint_scan(
            hint_sorts(scan, sorts.drop_last(), arena),
            sorts.last(),
            OrderHintKind::SortElimination,
            arena,
        )
    }
}

/// A scan that is told about all orders that the operators above it ask for.
pub open spec fn hint_all(scan: TableScanView, hints: HintsView,
    arena: ArenaView) -> TableScanView {
    let sorted = hint_sorts(scan, hints.sorts, arena);
    match hints.groups {
        Some(exprs) => hint_scan(
            sorted,
            group_fields(exprs),
            OrderHintKind::StreamAggregate,
            arena,
        ),
        None => sorted,
    }
}

/// An operator, told about the orders that are asked for if it is a scan.
pub open spec fn hinted(operator: OperatorView, hints: HintsView,
    arena: ArenaView) -> OperatorView {
    match operator {
        OperatorView::TableScan(scan) => OperatorView::TableScan(hint_all(scan, hints, arena)),
        operator => operator,
    }
}

/// What rules make of the best way found so far, one after the other.
pub open spec fn rules_improve<C: CostModel>(
    costs: &C,
    rules: Seq<ImplementationRuleImpl>,
    operator: OperatorView,
    arena: ArenaView,
    best: Option<(PhysicalOptionView, Option<usize>)>,
    res: Result<(), DatabaseError>,
) -> bool
    decreases rules.len(),
{
    if rules.len() == 0 {
        best is None && res == Ok::<(), DatabaseError>(())
    } else {
        exists|
            sofar: Option<(PhysicalOptionView, Option<usize>)>,
            outcome: Result<(), DatabaseError>,
        |
            rules_improve(costs, rules.drop_last(), operator, arena, sofar, outcome)
                && #[trigger] improves_on(
                costs,
                rules.last(),
                operator,
                arena,
                sofar,
                outcome,
                best,
                res,
            )
    }
}

/// What one more rule makes of the best way found so far.
pub open spec fn improves_on<C: CostModel>(
    costs: &C,
    rule: ImplementationRuleImpl,
    operator: OperatorView,
    arena: ArenaView,
    sofar: Option<(PhysicalOptionView, Option<usize>)>,
    outcome: Result<(), DatabaseError>,
    best: Option<(PhysicalOptionView, Option<usize>)>,
    res: Result<(), DatabaseError>,
) -> bool {
    match outcome {
        Err(_) => best == sofar && res == outcome,
        Ok(_) => costs.improves(rule, operator, arena, sofar, best, res),
    }
}

/// The rules that are about an operator.
pub open spec fn rules_for(
    rules: Seq<ImplementationRuleImpl>,
    operator: OperatorView,
) -> Seq<ImplementationRuleImpl> {
    rules.filter(|rule: ImplementationRuleImpl| rule_is_for(rule, operator))
}

/// What becomes of the chosen way to carry out an operator: the only way where there is one, else
/// the best way that the rules find; where they find none, the earlier choice stays.
pub open spec fn chooses<C: CostModel>(
    costs: &C,
    rules: Seq<ImplementationRuleImpl>,
    operator: OperatorView,
    arena: ArenaView,
    before: Option<PhysicalOptionView>,
    after: Option<PhysicalOptionView>,
    res: Result<(), DatabaseError>,
) -> bool {
    match direct_option(rules, operator) {
        Some(option) => after == Some(option) && res == Ok::<(), DatabaseError>(()),
        None => exists|
            best: Option<(PhysicalOptionView, Option<usize>)>,
        |
            #[trigger] rules_improve(
                costs,
                rules_for(rules, operator),
                operator,
                arena,
                best,
                res,
            ) && after == match (res, best) {
                (Ok(_), Some((option, _))) => Some(option),
                _ => before,
            },
    }
}

/// Always true: this says nothing about a choice. It only mentions one, which gives a quantifier over
/// choices something to match.
pub open spec fn mentions_choice(
    option: Option<PhysicalOptionView>,
    children: ChildrenView,
    res: Result<(), DatabaseError>,
) -> bool {
    true
}

/// What choosing how each operator is carried out does to a plan: scans are told about the orders
/// that are asked for, a way is chosen, the same is done to the inputs, and at last the rules that
/// need these choices are applied.
pub open spec fn annotated<C: CostModel>(
    costs: &C,
    rules: Seq<ImplementationRuleImpl>,
    hints: HintsView,
    arena: ArenaView,
    before: PlanView,
    after: PlanView,
    res: Result<(), DatabaseError>,
) -> bool
    decreases before, 1nat,
{
    let operator = hinted(before.operator, hints, arena);
    exists|option: Option<PhysicalOptionView>, outcome: Result<(), DatabaseError>| #[trigger]
        chooses(costs, rules, operator, arena, before.physical, option, outcome) && match outcome {
            Err(_) => after == (PlanView { operator, physical: option, ..before }) && res
                == outcome,
            Ok(_) => exists|children: ChildrenView, below: Result<(), DatabaseError>| #[trigger]
                mentions_choice(option, children, below) && annotated_inputs(
                    costs,
                    rules,
                    hints.below(operator),
                    arena,
                    before.children,
                    children,
                    below,
                ) && {
                    let annotated = PlanView { operator, physical: option, children, ..before };
                    match below {
                        Err(_) => after == annotated && res == below,
                        Ok(_) => after == post_rules(annotated, arena).0 && res == Ok::<
                            (),
                            DatabaseError,
                        >(()),
                    }
                },
        }
}

/// What choosing how each operator is carried out does to the inputs of a plan.
pub open spec fn annotated_inputs<C: CostModel>(
    costs: &C,
    rules: Seq<ImplementationRuleImpl>,
    hints: HintsView,
    arena: ArenaView,
    before: ChildrenView,
    after: ChildrenView,
    res: Result<(), DatabaseError>,
) -> bool
    decreases before, 0nat,
{
    match before {
        ChildrenView::Leaf => after == before && res == Ok::<(), DatabaseError>(()),
        ChildrenView::Only(child) => after is Only && annotated(
            costs,
            rules,
            hints,
            arena,
            *child,
            *after->Only_0,
            res,
        ),
        ChildrenView::Twins { left, right } => after is Twins && exists|
            outcome: Result<(), DatabaseError>,
        |
            #[trigger] mentions_choice(None, after, outcome) && annotated(
                costs,
                rules,
                hints,
                arena,
                *left,
                *after->left,
                outcome,
            ) && match outcome {
                Err(_) => after->right == right && res == outcome,
                Ok(_) => annotated(costs, rules, hints, arena, *right, *after->right, res),
            },
    }
}

/// Copies lists of keys.
fn clone_sorts(sorts: &Vec<Vec<SortField>>) -> (res: Vec<Vec<SortField>>)
    ensures
        res@.map_values(|fields: Vec<SortField>| fields@) == sorts@.map_values(
            |fields: Vec<SortField>| fields@,
        ),
{
    let mut res: Vec<Vec<SortField>> = Vec::new();
    let mut i: usize = 0;
    while i < sorts.len()
        invariant
            i <= sorts.len(),
            res@.len() == i,
            forall|j: int| 0 <= j < i ==> (#[trigger] res@[j])@ == sorts@[j]@,
        decreases sorts.len() - i,
    {
        let fields = sorts[i].clone();
        assert(fields@ =~= sorts@[i as int]@);
        res.push(fields);
        i += 1;
    }
    assert(res@.map_values(|fields: Vec<SortField>| fields@) =~= sorts@.map_values(
        |fields: Vec<SortField>| fields@,
    ));
    res
}

impl ScanHints {
    /// No order is asked for.
    pub fn nothing() -> (res: Self)
        ensures
            res@ == HintsView::nothing(),
    {
        let res = ScanHints { sorts: Vec::new(), groups: None };
        assert(res@.sorts =~= Seq::empty());
        res
    }

    /// The sorts that are asked for below an operator.
    fn with_child_sort_hints(&self, operator: &Operator) -> (res: Vec<Vec<SortField>>)
        ensures
            res@.map_values(|fields: Vec<SortField>| fields@) == self@.below(operator@).sorts,
    {
        match operator {
            Operator::Sort(op) => {
                let mut sorts = clone_sorts(&self.sorts);
                let ghost before = sorts@.map_values(|fields: Vec<SortField>| fields@);
                let fields = op.sort_fields.clone();
                assert(fields@ =~= op.sort_fields@);
                sorts.push(fields);
                assert(sorts@.map_values(|fields: Vec<SortField>| fields@) =~= before.push(fields@));
                sorts
            },
            Operator::Filter(_) | Operator::Project(_) | Operator::Limit(_) | Operator::TopK(_) => {
                clone_sorts(&self.sorts)
            },
            _ => {
                let sorts: Vec<Vec<SortField>> = Vec::new();
                assert(sorts@.map_values(|fields: Vec<SortField>| fields@) =~= Seq::empty());
                sorts
            },
        }
    }

    /// The groups that are asked for below an operator.
    fn with_child_stream_aggregate_hints(&self, operator: &Operator) -> (res: Option<Vec<ExprRef>>)
        ensures
            match res {
                Some(exprs) => self@.below(operator@).groups == Some(exprs@),
                None => self@.below(operator@).groups is None,
            },
    {
        match operator {
            Operator::Aggregate(op) => {
                if op.groupby_exprs.len() == 0 {
                    return None;
                }
                let exprs = op.groupby_exprs.clone();
                assert(exprs@ =~= op.groupby_exprs@);
                Some(exprs)
            },
            Operator::Filter(_) | Operator::Project(_) | Operator::Limit(_) | Operator::TopK(_)
            | Operator::Sort(_) => match &self.groups {
                Some(exprs) => {
                    let copy = exprs.clone();
                    assert(copy@ =~= exprs@);
                    Some(copy)
                },
                None => None,
            },
            _ => None,
        }
    }

    /// The orders that are asked for below an operator.
    pub fn below(&self, operator: &Operator) -> (res: Self)
        ensures
            res@ == self@.below(operator@),
    {
        ScanHints {
            sorts: self.with_child_sort_hints(operator),
            groups: self.with_child_stream_aggregate_hints(operator),
        }
    }

    /// Tells a scan about all orders that are asked for.
    fn apply(&self, scan_op: &mut TableScanOperator, arena: &PlanArena)
        requires
            arena@.wf(),
            self@.valid(arena@),
            OperatorView::TableScan(old(scan_op)@).valid(arena@),
        ensures
            final(scan_op)@ == hint_all(old(scan_op)@, self@, arena@),
            OperatorView::TableScan(final(scan_op)@).valid(arena@),
    {
        let ghost start = scan_op@;
        let ghost sorts = self@.sorts;
        let mut i: usize = 0;
        assert(sorts.take(0) =~= Seq::empty());
        while i < self.sorts.len()
            invariant
                i <= self.sorts.len(),
                sorts == self@.sorts,
                sorts.len() == self.sorts@.len(),
                arena@.wf(),
                self@.valid(arena@),
                OperatorView::TableScan(scan_op@).valid(arena@),
                scan_op@ == hint_sorts(start, sorts.take(i as int), arena@),
            decreases self.sorts.len() - i,
        {
            proof {
                let next = sorts.take(i + 1);
                assert(next.drop_last() =~= sorts.take(i as int));
                assert(next.last() == sorts[i as int]);
                assert(sorts[i as int] == self.sorts@[i as int]@);
                assert(valid_fields(arena@, sorts[i as int]));
                lemma_hint_scan_valid(
                    scan_op@,
                    sorts[i as int],
                    OrderHintKind::SortElimination,
                    arena@,
                );
            }
            apply_scan_order_hint(
                scan_op,
                ScanOrderHint::sort_fields(&self.sorts[i]),
                OrderHintKind::SortElimination,
                arena,
            );
            i += 1;
        }
        assert(sorts.take(i as int) =~= sorts);
        if let Some(exprs) = &self.groups {
            proof {
                lemma_group_fields_valid(arena@, exprs@);
                lemma_hint_scan_valid(
                    scan_op@,
                    group_fields(exprs@),
                    OrderHintKind::StreamAggregate,
                    arena@,
                );
            }
            apply_scan_order_hint(
                scan_op,
                ScanOrderHint::groupby(exprs),
                OrderHintKind::StreamAggregate,
                arena,
            );
        }
    }
}

/// Telling a scan about an order refers to nothing new.
proof fn lemma_hint_scan_valid(
    scan: TableScanView,
    required: Seq<SortField>,
    kind: OrderHintKind,
    arena: ArenaView,
)
    requires
        OperatorView::TableScan(scan).valid(arena),
    ensures
        OperatorView::TableScan(hint_scan(scan, required, kind, arena)).valid(arena),
{
    let after = hint_scan(scan, required, kind, arena);
    assert forall|i: int| 0 <= i < after.index_infos.len() implies (
    #[trigger] after.index_infos[i]).valid(arena) by {
        assert(scan.index_infos[i].valid(arena));
    }
}

/// What is asked for below an operator is in the arena.
proof fn lemma_below_valid(hints: HintsView, operator: OperatorView, arena: ArenaView)
    requires
        hints.valid(arena),
        operator.valid(arena),
    ensures
        hints.below(operator).valid(arena),
{
    let below = hints.below(operator);
    assert forall|i: int| 0 <= i < below.sorts.len() implies valid_fields(
        arena,
        #[trigger] below.sorts[i],
    ) by {
        if i < hints.sorts.len() {
            assert(valid_fields(arena, hints.sorts[i]));
        }
    }
    if let OperatorView::Aggregate(op) = operator {
        assert(arena.has_exprs(op.groupby_exprs));
    }
}

/// After a failure the remaining rules are not asked.
proof fn lemma_failed_improvement<C: CostModel>(
    costs: &C,
    rules: Seq<ImplementationRuleImpl>,
    len: int,
    operator: OperatorView,
    arena: ArenaView,
    best: Option<(PhysicalOptionView, Option<usize>)>,
    err: DatabaseError,
)
    requires
        0 < len <= rules.len(),
        rules_improve(costs, rules.take(len), operator, arena, best, Err(err)),
    ensures
        rules_improve(costs, rules, operator, arena, best, Err(err)),
    decreases rules.len() - len,
{
    if len == rules.len() {
        assert(rules.take(len) =~= rules);
    } else {
        let longer = rules.take(len + 1);
        assert(longer.drop_last() =~= rules.take(len));
        assert(improves_on(
            costs,
            longer.last(),
            operator,
            arena,
            best,
            Err(err),
            best,
            Err(err),
        ));
        assert(rules_improve(costs, longer, operator, arena, best, Err(err)));
        lemma_failed_improvement(costs, rules, len + 1, operator, arena, best, err);
    }
}

/// The best way to carry out an operator that the rules find.
fn find_best_option<C: CostModel>(
    operator: &Operator,
    rules: &Vec<ImplementationRuleImpl>,
    costs: &C,
    arena: &PlanArena,
) -> (res: Result<BestPhysicalOption, DatabaseError>)
    requires
        arena@.wf(),
        operator@.valid(arena@),
    ensures
        match res {
            Ok(best) => best_valid(best_view(best), arena@) && rules_improve(
                costs,
                rules@,
                operator@,
                arena@,
                best_view(best),
                Ok(()),
            ),
            Err(err) => exists|best: Option<(PhysicalOptionView, Option<usize>)>| #[trigger]
                rules_improve(costs, rules@, operator@, arena@, best, Err::<(), _>(err)),
        },
{
    let ghost list = rules@;
    let ghost sofar: Result<(), DatabaseError> = Ok(());
    let mut best: BestPhysicalOption = None;
    let mut i: usize = 0;
    assert(list.take(0) =~= Seq::empty());
    while i < rules.len()
        invariant
            i <= rules.len(),
            list == rules@,
            arena@.wf(),
            operator@.valid(arena@),
            best_valid(best_view(best), arena@),
            sofar == Ok::<(), DatabaseError>(()),
            rules_improve(
                costs,
                list.take(i as int),
                operator@,
                arena@,
                best_view(best),
                sofar,
            ),
        decreases rules.len() - i,
    {
        let ghost before = best_view(best);
        let ghost longer = list.take(i + 1);
        proof {
            assert(longer.drop_last() =~= list.take(i as int));
            assert(longer.last() == list[i as int]);
        }
        let outcome = costs.update_best_option(rules[i], operator, arena, &mut best);
        proof {
            assert(improves_on(
                costs,
                longer.last(),
                operator@,
                arena@,
                before,
                sofar,
                best_view(best),
                outcome,
            ));
            assert(rules_improve(costs, longer, operator@, arena@, best_view(best), outcome));
        }
        match outcome {
            Err(err) => {
                proof {
                    lemma_failed_improvement(
                        costs,
                        list,
                        i + 1,
                        operator@,
                        arena@,
                        best_view(best),
                        err,
                    );
                }
                return Err(err);
            },
            Ok(unit) => {
                assert(unit == ());
            },
        }
        i += 1;
    }
    assert(list.take(i as int) =~= list);
    Ok(best)
}

/// Chooses how an operator is carried out.
fn choose_option<C: CostModel>(
    operator: &Operator,
    physical_option: &mut Option<PhysicalOption>,
    costs: &C,
    implementation_index: &ImplementationRuleIndex,
    arena: &PlanArena,
) -> (res: Result<(), DatabaseError>)
    requires
        arena@.wf(),
        operator@.valid(arena@),
        option_view(*old(physical_option)) matches Some(option) ==> option.valid(arena@),
    ensures
        chooses(
            costs,
            implementation_index.rules@,
            operator@,
            arena@,
            option_view(*old(physical_option)),
            option_view(*final(physical_option)),
            res,
        ),
        option_view(*final(physical_option)) matches Some(option) ==> option.valid(arena@),
{
    let ghost rules = implementation_index.rules@;
    let ghost before = option_view(*physical_option);
    if let Some(option) = implementation_index.direct_physical_option(operator) {
        proof {
            lemma_direct_valid(rules, operator@, arena@);
        }
        *physical_option = Some(option);
        return Ok(());
    }
    let matching = implementation_index.for_matching_operator(operator);
    assert(matching@ == rules_for(rules, operator@));
    match find_best_option(operator, &matching, costs, arena) {
        Err(err) => Err(err),
        Ok(best) => {
            let ghost view = best_view(best);
            assert(rules_improve(
                costs,
                rules_for(rules, operator@),
                operator@,
                arena@,
                view,
                Ok::<(), DatabaseError>(()),
            ));
            if let Some((option, _)) = best {
                *physical_option = Some(option);
            }
            Ok(())
        },
    }
}

/// The only way to carry out an operator refers to nothing new.
proof fn lemma_direct_valid(
    rules: Seq<ImplementationRuleImpl>,
    operator: OperatorView,
    arena: ArenaView,
)
    requires
        operator.valid(arena),
    ensures
        direct_option(rules, operator) matches Some(option) ==> option.valid(arena),
{
    if let OperatorView::Window(op) = operator {
        let fields = op.fields();
        assert forall|i: int| 0 <= i < fields.len() implies arena.has_expr(
            (#[trigger] fields[i]).expr,
        ) by {
            if i < op.partition_by.len() {
                assert(arena.has_expr(op.partition_by[i]));
            } else {
                assert(arena.has_expr(op.order_by[i - op.partition_by.len()].expr));
            }
        }
    }
}

/// Chooses how each operator of a plan is carried out, from the root down, and applies the rules
/// that need these choices on the way back.
pub fn annotate_hints_and_physical_options<C: CostModel>(
    plan: &mut LogicalPlan,
    costs: &C,
    implementation_index: &ImplementationRuleIndex,
    hints: &ScanHints,
    arena: &PlanArena,
) -> (res: Result<(), DatabaseError>)
    requires
        arena@.wf(),
        old(plan)@.valid(arena@),
        old(plan)@.shaped(),
        hints@.valid(arena@),
    ensures
        annotated(
            costs,
            implementation_index.rules@,
            hints@,
            arena@,
            old(plan)@,
            final(plan)@,
            res,
        ),
        final(plan)@.valid(arena@),
        final(plan)@.shaped(),
    decreases *old(plan), 0nat,
{
    let ghost start = plan@;
    let ghost rules = implementation_index.rules@;
    let ghost operator = hinted(start.operator, hints@, arena@);
    assert(plan.childrens@ == plan@.children);
    if let Operator::TableScan(scan_op) = &mut plan.operator {
        hints.apply(scan_op, arena);
    }
    assert(plan.operator@ == operator);
    assert(plan.childrens@ == start.children);
    let outcome = choose_option(
        &plan.operator,
        &mut plan.physical_option,
        costs,
        implementation_index,
        arena,
    );
    let ghost option = option_view(plan.physical_option);
    proof {
        assert(plan.childrens@ == plan@.children);
        assert(chooses(costs, rules, operator, arena@, start.physical, option, outcome));
        assert(start.children.valid(arena@));
    }
    if outcome.is_err() {
        return outcome;
    }
    let child_hints = hints.below(&plan.operator);
    proof {
        lemma_below_valid(hints@, operator, arena@);
    }
    let below = (&mut *plan.childrens).annotate(costs, implementation_index, &child_hints, arena);
    let ghost middle = plan@;
    proof {
        assert(plan.childrens@ == plan@.children);
        assert(mentions_choice(option, middle.children, below));
        assert(middle.valid(arena@));
        assert(middle.shaped());
    }
    match below {
        Err(err) => Err(err),
        Ok(_) => {
            proof {
                lemma_post_shape(middle, arena@);
                if let ChildrenView::Only(child) = middle.children {
                    assert(child.shaped());
                }
            }
            match apply_annotated_post_rules(plan, arena) {
                Err(err) => Err(err),
                Ok(_) => Ok(()),
            }
        },
    }
}

/// The rules that need the chosen ways keep the shape of a plan.
proof fn lemma_post_shape(plan: PlanView, arena: ArenaView)
    requires
        plan.shaped(),
    ensures
        post_rules(plan, arena).0.shaped(),
{
    lemma_without_sort_shape(plan, arena);
    let unsorted = without_sort(plan, arena).0;
    lemma_post_rules_shape(unsorted, arena);
    lemma_post_rules_shape(with_stream_aggregate(unsorted, arena).0, arena);
}

impl Childrens {
    /// Chooses how each operator of the inputs is carried out.
    fn annotate<C: CostModel>(
        &mut self,
        costs: &C,
        implementation_index: &ImplementationRuleIndex,
        hints: &ScanHints,
        arena: &PlanArena,
    ) -> (res: Result<(), DatabaseError>)
        requires
            arena@.wf(),
            old(self)@.valid(arena@),
            old(self)@.shaped(),
            hints@.valid(arena@),
        ensures
            annotated_inputs(
                costs,
                implementation_index.rules@,
                hints@,
                arena@,
                old(self)@,
                final(self)@,
                res,
            ),
            final(self)@.valid(arena@),
            final(self)@.shaped(),
            final(self)@.same_arity(old(self)@),
        decreases *old(self), 1nat,
    {
        match self {
            Childrens::Leaf => Ok(()),
            Childrens::Only(child) => annotate_hints_and_physical_options(
                &mut **child,
                costs,
                implementation_index,
                hints,
                arena,
            ),
            Childrens::Twins { left, right } => {
                let first = annotate_hints_and_physical_options(
                    &mut **left,
                    costs,
                    implementation_index,
                    hints,
                    arena,
                );
                if first.is_err() {
                    proof {
                        let after = ChildrenView::Twins {
                            left: Box::new(left@),
                            right: Box::new(right@),
                        };
                        assert(mentions_choice(None, after, first));
                    }
                    return first;
                }
                let second = annotate_hints_and_physical_options(
                    &mut **right,
                    costs,
                    implementation_index,
                    hints,
                    arena,
                );
                proof {
                    let after = ChildrenView::Twins {
                        left: Box::new(left@),
                        right: Box::new(right@),
                    };
                    assert(mentions_choice(None, after, first));
                }
                second
            },
        }
    }
}

} // verus!
