//! Inner joins that search one input by a key of each row of the other.

use crate::catalog::ColumnRef;
use crate::errors::DatabaseError;
use crate::expression::analysis::{bare, type_of};
use crate::expression::conjunction::conjuncts;
use crate::expression::visitor_mut::{shift_expr, PositionShift};
use crate::expression::{BinaryOperator, ExprHead, ExprView, ScalarExpression};
use crate::optimizer::plan_utils::above;
use crate::optimizer::rule::normalization::elimination::following;
use crate::optimizer::rule::normalization::parameterized_index::{
    probe_scan, probing, probing_scan,
};
use crate::optimizer::rule::normalization::scan_predicates::{find_slot, scan_slot};
use crate::planner::arena::{ArenaView, ExprRef, PlanArena};
use crate::planner::operator::filter::FilterOperator;
use crate::planner::operator::join::{clone_pairs, JoinCondition, JoinConditionView, JoinType};
use crate::planner::operator::mark_apply::{MarkApplyKind, MarkApplyOperator, MarkApplyView};
use crate::planner::operator::project::ProjectOperator;
use crate::planner::operator::table_scan::TableScanOperator;
use crate::planner::operator::{
    valid_pairs, Operator, OperatorView, PhysicalOption, PlanImpl, SortOption,
};
use crate::planner::schema::{clone_schema, lemma_plan_valid_within, output};
use crate::planner::{ChildrenView, Childrens, LogicalPlan, PlanView};
use crate::types::index::IndexInfoView;
use crate::types::{ColumnId, LogicalType, LogicalTypeView};
use vstd::prelude::*;

verus! {

/// The constant and the expression that a predicate sets equal.
pub open spec fn constant_key(exprs: Seq<ExprView>, expr: ExprRef) -> Seq<(ExprRef, ExprRef)> {
    let node = exprs[expr.0 as int];
    if (node.head matches ExprHead::Binary { op, .. } && op == BinaryOperator::Eq)
        && node.children.len() == 2 {
        if exprs[node.children[1].0 as int].head is Constant {
            seq![(node.children[1], node.children[0])]
        } else if exprs[node.children[0].0 as int].head is Constant {
            seq![(node.children[0], node.children[1])]
        } else {
            Seq::empty()
        }
    } else {
        Seq::empty()
    }
}

/// The constants and the expressions that predicates set equal.
pub open spec fn constant_keys_of(
    exprs: Seq<ExprView>,
    parts: Seq<ExprRef>,
) -> Seq<(ExprRef, ExprRef)>
    decreases parts.len(),
{
    if parts.len() == 0 {
        Seq::empty()
    } else {
        constant_keys_of(exprs, parts.drop_last()) + constant_key(exprs, parts.last())
    }
}

/// The constant keys of joined lists are the joined constant keys.
proof fn lemma_constant_keys_concat(
    exprs: Seq<ExprView>,
    left: Seq<ExprRef>,
    right: Seq<ExprRef>,
)
    ensures
        constant_keys_of(exprs, left + right) == constant_keys_of(exprs, left) + constant_keys_of(
            exprs,
            right,
        ),
    decreases right.len(),
{
    if right.len() == 0 {
        assert(left + right =~= left);
        assert(constant_keys_of(exprs, left) + constant_keys_of(exprs, right) =~= constant_keys_of(
            exprs,
            left,
        ));
    } else {
        lemma_constant_keys_concat(exprs, left, right.drop_last());
        assert((left + right).drop_last() =~= left + right.drop_last());
        assert((left + right).last() == right.last());
        assert(constant_keys_of(exprs, left + right) =~= constant_keys_of(exprs, left)
            + constant_keys_of(exprs, right));
    }
}

/// The value that the first fitting key sets a column to. A key is a value and the expression that
/// it equals; it fits if the expression is the column and the value has its type.
pub open spec fn key_value(
    arena: ArenaView,
    candidate: ColumnRef,
    keys: Seq<(ExprRef, ExprRef)>,
) -> Option<ExprRef>
    decreases keys.len(),
{
    if keys.len() == 0 {
        None
    } else {
        match key_value(arena, candidate, keys.drop_last()) {
            Some(value) => Some(value),
            None => if key_fits(arena, candidate, keys.last()) {
                Some(keys.last().0)
            } else {
                None
            },
        }
    }
}

/// Whether a key sets a column to a value of its type.
pub open spec fn key_fits(
    arena: ArenaView,
    candidate: ColumnRef,
    key: (ExprRef, ExprRef),
) -> bool {
    (arena.exprs[bare(arena.exprs, key.1).0 as int].head matches ExprHead::ColumnRef { column, .. }
        && arena.same_column(candidate, column)) && type_of(arena, key.0)
        == arena.columns[candidate.0 as int].ty
}

/// The values of the first columns of an index, as long as the keys set them.
pub open spec fn index_probe(
    arena: ArenaView,
    columns: Seq<ColumnRef>,
    column_ids: Seq<ColumnId>,
    keys: Seq<(ExprRef, ExprRef)>,
) -> Option<Seq<ExprRef>>
    decreases column_ids.len(),
{
    if column_ids.len() == 0 {
        Some(Seq::empty())
    } else {
        match index_probe(arena, columns, column_ids.drop_last(), keys) {
            None => None,
            Some(probe) => match scan_slot(arena, columns, column_ids.last()) {
                None => None,
                Some(slot) => match key_value(arena, columns[slot as int], keys) {
                    None => None,
                    Some(value) => Some(probe.push(value)),
                },
            },
        }
    }
}

/// The first index all of whose columns the keys set, with the values.
pub open spec fn first_probed(
    arena: ArenaView,
    columns: Seq<ColumnRef>,
    infos: Seq<IndexInfoView>,
    keys: Seq<(ExprRef, ExprRef)>,
) -> Option<(nat, Seq<ExprRef>)>
    decreases infos.len(),
{
    if infos.len() == 0 {
        None
    } else {
        match first_probed(arena, columns, infos.drop_last(), keys) {
            Some(found) => Some(found),
            None => match index_probe(
                arena,
                columns,
                arena.indexes[infos.last().meta.0 as int].column_ids,
                keys,
            ) {
                Some(probe) => Some(((infos.len() - 1) as nat, probe)),
                None => None,
            },
        }
    }
}

/// An index that is searched by a key that covers all its columns.
pub open spec fn fully_probing(info: IndexInfoView) -> IndexInfoView {
    IndexInfoView { residual_predicate: None, ..probing(info) }
}

/// The plan with its scan searched by the keys, and the values to search for; only filters may
/// stand above the scan, and their constants count as keys.
pub open spec fn parameterized(
    plan: PlanView,
    keys: Seq<(ExprRef, ExprRef)>,
    arena: ArenaView,
) -> Option<(PlanView, Seq<ExprRef>)>
    decreases plan,
{
    match (plan.operator, plan.children) {
        (OperatorView::Filter(filter), ChildrenView::Only(child)) => match parameterized(
            *child,
            keys + constant_keys_of(arena.exprs, conjuncts(arena.exprs, filter.predicate)),
            arena,
        ) {
            Some((child, probe)) => Some(
                (PlanView { children: ChildrenView::Only(Box::new(child)), ..plan }, probe),
            ),
            None => None,
        },
        (OperatorView::TableScan(scan), _) => if scan.limit == (None::<usize>, None::<usize>) {
            match first_probed(arena, scan.columns, scan.index_infos, keys) {
                Some((position, probe)) => Some(
                    (
                        probing_scan(
                            plan,
                            scan,
                            position,
                            fully_probing(scan.index_infos[position as int]),
                        ),
                        probe,
                    ),
                ),
                None => None,
            }
        } else {
            None
        },
        _ => None,
    }
}

/// The predicates of the filters of a plan, from the root down to its first other operator.
pub open spec fn filter_predicates(plan: PlanView) -> Seq<ExprRef>
    decreases plan,
{
    match (plan.operator, plan.children) {
        (OperatorView::Filter(filter), ChildrenView::Only(child)) => seq![filter.predicate]
            + filter_predicates(*child),
        _ => Seq::empty(),
    }
}

/// Searching a scan leaves every filter above it in place.
pub proof fn probe_keeps_filters(
    plan: PlanView,
    keys: Seq<(ExprRef, ExprRef)>,
    arena: ArenaView,
)
    ensures
        parameterized(plan, keys, arena) matches Some((res, _)) ==> filter_predicates(res)
            == filter_predicates(plan),
    decreases plan,
{
    if let (OperatorView::Filter(filter), ChildrenView::Only(child)) = (
        plan.operator,
        plan.children,
    ) {
        probe_keeps_filters(
            *child,
            keys + constant_keys_of(arena.exprs, conjuncts(arena.exprs, filter.predicate)),
            arena,
        );
    }
}

/// Collects the constants and the expressions that a predicate sets equal. The predicate stays as
/// it is: it still has to be checked where the index is searched by a key of the running query.
pub fn constant_keys(expr: ExprRef, keys: &mut Vec<(ExprRef, ExprRef)>, arena: &PlanArena)
    requires
        arena@.wf(),
        arena@.has_expr(expr),
        valid_pairs(arena@, old(keys)@),
    ensures
        final(keys)@ == old(keys)@ + constant_keys_of(arena@.exprs, conjuncts(arena@.exprs, expr)),
        valid_pairs(arena@, final(keys)@),
    decreases expr.0,
{
    let ghost start = keys@;
    let ghost parts = conjuncts(arena@.exprs, expr);
    match arena.expression(expr) {
        ScalarExpression::Binary { op, left_expr, right_expr, .. } => {
            assert(arena@.exprs[expr.0 as int].children[0] == *left_expr);
            assert(arena@.exprs[expr.0 as int].children[1] == *right_expr);
            match op {
                BinaryOperator::And => {
                    constant_keys(*left_expr, keys, arena);
                    constant_keys(*right_expr, keys, arena);
                    proof {
                        lemma_constant_keys_concat(
                            arena@.exprs,
                            conjuncts(arena@.exprs, *left_expr),
                            conjuncts(arena@.exprs, *right_expr),
                        );
                        assert(keys@ =~= start + constant_keys_of(arena@.exprs, parts));
                    }
                    return;
                },
                BinaryOperator::Eq => {
                    if matches!(arena.expression(*right_expr), ScalarExpression::Constant(_)) {
                        keys.push((*right_expr, *left_expr));
                    } else if matches!(arena.expression(*left_expr),
                        ScalarExpression::Constant(_)) {
                        keys.push((*left_expr, *right_expr));
                    }
                },
                _ => {},
            }
        },
        _ => {},
    }
    proof {
        assert(parts == seq![expr]);
        assert(parts.drop_last() =~= Seq::empty());
        assert(constant_keys_of(arena@.exprs, parts.drop_last()) =~= Seq::empty());
        assert(constant_keys_of(arena@.exprs, parts) =~= constant_key(arena@.exprs, expr));
        assert(keys@ =~= start + constant_keys_of(arena@.exprs, parts));
    }
}

/// The first fitting key decides.
proof fn lemma_key_value(
    arena: ArenaView,
    candidate: ColumnRef,
    keys: Seq<(ExprRef, ExprRef)>,
    len: int,
)
    requires
        0 <= len <= keys.len(),
        key_value(arena, candidate, keys.take(len)) is Some,
    ensures
        key_value(arena, candidate, keys) == key_value(arena, candidate, keys.take(len)),
    decreases keys.len(),
{
    if len < keys.len() {
        assert(keys.drop_last().take(len) =~= keys.take(len));
        lemma_key_value(arena, candidate, keys.drop_last(), len);
    } else {
        assert(keys.take(len) =~= keys);
    }
}

/// The value that the first fitting key sets a column to.
fn find_key_value(candidate: ColumnRef, keys: &Vec<(ExprRef, ExprRef)>, arena: &PlanArena) -> (res:
    Option<ExprRef>)
    requires
        arena@.wf(),
        arena@.has_column(candidate),
        valid_pairs(arena@, keys@),
    ensures
        res == key_value(arena@, candidate, keys@),
        res matches Some(value) ==> arena@.has_expr(value),
{
    let mut i: usize = 0;
    assert(keys@.take(0) =~= Seq::empty());
    while i < keys.len()
        invariant
            i <= keys.len(),
            arena@.wf(),
            arena@.has_column(candidate),
            valid_pairs(arena@, keys@),
            key_value(arena@, candidate, keys@.take(i as int)) is None,
        decreases keys.len() - i,
    {
        proof {
            let next = keys@.take(i + 1);
            assert(next.drop_last() =~= keys@.take(i as int));
            assert(next.last() == keys@[i as int]);
            assert(arena@.has_expr(keys@[i as int].0) && arena@.has_expr(keys@[i as int].1));
        }
        let value = keys[i].0;
        let expr = keys[i].1.unpack_alias(arena);
        if let ScalarExpression::ColumnRef { column, .. } = arena.expression(expr) {
            assert(arena@.exprs[expr.0 as int].head == ExprHead::ColumnRef {
                column: *column,
                position: arena@.exprs[expr.0 as int].head->position,
            });
            if arena.same_column(candidate, *column) && value.return_type(arena).same(
                arena.column(candidate).datatype(),
            ) {
                proof {
                    lemma_key_value(arena@, candidate, keys@, i + 1);
                }
                return Some(value);
            }
        }
        i += 1;
    }
    assert(keys@.take(i as int) =~= keys@);
    None
}

/// An index that has no value for one of its first columns has none for all of them.
proof fn lemma_index_probe_stops(
    arena: ArenaView,
    columns: Seq<ColumnRef>,
    column_ids: Seq<ColumnId>,
    keys: Seq<(ExprRef, ExprRef)>,
    len: int,
)
    requires
        0 <= len <= column_ids.len(),
        index_probe(arena, columns, column_ids.take(len), keys) is None,
    ensures
        index_probe(arena, columns, column_ids, keys) is None,
    decreases column_ids.len(),
{
    if len < column_ids.len() {
        assert(column_ids.drop_last().take(len) =~= column_ids.take(len));
        lemma_index_probe_stops(arena, columns, column_ids.drop_last(), keys, len);
    } else {
        assert(column_ids.take(len) =~= column_ids);
    }
}

/// The values of all columns of an index, if the keys set them.
fn find_index_probe(
    columns: &Vec<ColumnRef>,
    column_ids: &Vec<ColumnId>,
    keys: &Vec<(ExprRef, ExprRef)>,
    arena: &PlanArena,
) -> (res: Option<Vec<ExprRef>>)
    requires
        arena@.wf(),
        arena@.has_columns(columns@),
        valid_pairs(arena@, keys@),
    ensures
        match res {
            Some(probe) => index_probe(arena@, columns@, column_ids@, keys@) == Some(probe@)
                && arena@.has_exprs(probe@),
            None => index_probe(arena@, columns@, column_ids@, keys@) is None,
        },
{
    let mut probe: Vec<ExprRef> = Vec::new();
    let mut i: usize = 0;
    assert(column_ids@.take(0) =~= Seq::empty());
    assert(probe@ =~= Seq::empty());
    while i < column_ids.len()
        invariant
            i <= column_ids.len(),
            arena@.wf(),
            arena@.has_columns(columns@),
            valid_pairs(arena@, keys@),
            arena@.has_exprs(probe@),
            index_probe(arena@, columns@, column_ids@.take(i as int), keys@) == Some(probe@),
        decreases column_ids.len() - i,
    {
        proof {
            let next = column_ids@.take(i + 1);
            assert(next.drop_last() =~= column_ids@.take(i as int));
            assert(next.last() == column_ids@[i as int]);
        }
        match find_slot(columns, column_ids[i], arena) {
            None => {
                proof {
                    lemma_index_probe_stops(arena@, columns@, column_ids@, keys@, i + 1);
                }
                return None;
            },
            Some(slot) => {
                assert(arena@.has_column(columns@[slot as int]));
                match find_key_value(columns[slot], keys, arena) {
                    None => {
                        proof {
                            lemma_index_probe_stops(arena@, columns@, column_ids@, keys@, i + 1);
                        }
                        return None;
                    },
                    Some(value) => {
                        probe.push(value);
                    },
                }
            },
        }
        i += 1;
    }
    assert(column_ids@.take(i as int) =~= column_ids@);
    Some(probe)
}

/// The first index that can be searched decides.
proof fn lemma_first_probed(
    arena: ArenaView,
    columns: Seq<ColumnRef>,
    infos: Seq<IndexInfoView>,
    keys: Seq<(ExprRef, ExprRef)>,
    len: int,
)
    requires
        0 <= len <= infos.len(),
        first_probed(arena, columns, infos.take(len), keys) is Some,
    ensures
        first_probed(arena, columns, infos, keys) == first_probed(
            arena,
            columns,
            infos.take(len),
            keys,
        ),
    decreases infos.len(),
{
    if len < infos.len() {
        assert(infos.drop_last().take(len) =~= infos.take(len));
        lemma_first_probed(arena, columns, infos.drop_last(), keys, len);
    } else {
        assert(infos.take(len) =~= infos);
    }
}

/// The first index all of whose columns the keys set, with the values.
fn find_probed(scan_op: &TableScanOperator, keys: &Vec<(ExprRef, ExprRef)>,
    arena: &PlanArena) -> (res:
    Option<(usize, Vec<ExprRef>)>)
    requires
        arena@.wf(),
        OperatorView::TableScan(scan_op@).valid(arena@),
        valid_pairs(arena@, keys@),
    ensures
        match res {
            Some((position, probe)) => {
                &&& first_probed(arena@, scan_op@.columns, scan_op@.index_infos, keys@) == Some(
                    (position as nat, probe@),
                )
                &&& position < scan_op@.index_infos.len()
                &&& arena@.has_exprs(probe@)
            },
            None => first_probed(arena@, scan_op@.columns, scan_op@.index_infos, keys@) is None,
        },
{
    let ghost infos = scan_op@.index_infos;
    let mut i: usize = 0;
    assert(infos.take(0) =~= Seq::empty());
    while i < scan_op.index_infos.len()
        invariant
            i <= scan_op.index_infos.len(),
            infos == scan_op@.index_infos,
            infos.len() == scan_op.index_infos.len(),
            arena@.wf(),
            OperatorView::TableScan(scan_op@).valid(arena@),
            valid_pairs(arena@, keys@),
            first_probed(arena@, scan_op@.columns, infos.take(i as int), keys@) is None,
        decreases scan_op.index_infos.len() - i,
    {
        proof {
            let next = infos.take(i + 1);
            assert(next.drop_last() =~= infos.take(i as int));
            assert(next.last() == infos[i as int]);
            assert(infos[i as int].valid(arena@));
            assert(infos[i as int] == scan_op.index_infos@[i as int]@);
        }
        let meta = arena.index(scan_op.index_infos[i].meta);
        if let Some(probe) = find_index_probe(&scan_op.columns, &meta.column_ids, keys, arena) {
            proof {
                lemma_first_probed(arena@, scan_op@.columns, infos, keys@, i + 1);
            }
            return Some((i, probe));
        }
        i += 1;
    }
    assert(infos.take(i as int) =~= infos);
    None
}

/// Lets the scan below filters be searched by the keys; gives the values to search for.
pub fn parameterize(plan: &mut LogicalPlan, keys: Vec<(ExprRef, ExprRef)>,
    arena: &PlanArena) -> (res:
    Option<Vec<ExprRef>>)
    requires
        arena@.wf(),
        old(plan)@.valid(arena@),
        valid_pairs(arena@, keys@),
    ensures
        match res {
            Some(probe) => {
                &&& parameterized(old(plan)@, keys@, arena@) == Some((final(plan)@, probe@))
                &&& arena@.has_exprs(probe@)
            },
            None => parameterized(old(plan)@, keys@, arena@) is None && final(plan)@ == old(plan)@,
        },
        final(plan)@.valid(arena@),
    decreases *old(plan),
{
    let mut keys = keys;
    assert(plan.childrens@ == plan@.children);
    let found: Option<(usize, Vec<ExprRef>)> = match (&plan.operator, &*plan.childrens) {
        (Operator::Filter(filter), Childrens::Only(_)) => {
            constant_keys(filter.predicate, &mut keys, arena);
            None
        },
        (Operator::TableScan(scan_op), _) => {
            if scan_op.limit.0.is_some() || scan_op.limit.1.is_some() {
                return None;
            }
            match find_probed(scan_op, &keys, arena) {
                None => {
                    return None;
                },
                found => found,
            }
        },
        _ => {
            return None;
        },
    };
    match found {
        Some((position, probe)) => {
            let ghost scan = plan@.operator->TableScan_0;
            proof {
                assert(scan.index_infos[position as int].valid(arena@));
            }
            probe_scan(plan, position, true);
            assert(plan@.children.valid(arena@));
            Some(probe)
        },
        None => {
            let probe = (&mut *plan.childrens).parameterize_keys(keys, arena);
            assert(plan.childrens@ == plan@.children);
            probe
        },
    }
}

impl Childrens {
    /// Lets the scan below the only input be searched by the keys.
    fn parameterize_keys(&mut self, keys: Vec<(ExprRef, ExprRef)>, arena: &PlanArena) -> (res:
        Option<Vec<ExprRef>>)
        requires
            arena@.wf(),
            old(self)@.valid(arena@),
            old(self)@ is Only,
            valid_pairs(arena@, keys@),
        ensures
            match res {
                Some(probe) => {
                    &&& parameterized(*(old(self)@->Only_0), keys@, arena@) == Some(
                        (*(final(self)@->Only_0), probe@),
                    )
                    &&& final(self)@ is Only
                    &&& arena@.has_exprs(probe@)
                },
                None => parameterized(*(old(self)@->Only_0), keys@, arena@) is None
                    && final(self)@ == old(self)@,
            },
            final(self)@.valid(arena@),
        decreases *old(self),
    {
        match self {
            Childrens::Only(child) => parameterize(&mut **child, keys, arena),
            _ => {
                assert(false);
                None
            },
        }
    }
}

/// The keys of an inner join with keys, and its further condition.
pub open spec fn join_keys(plan: PlanView) -> Option<(Seq<(ExprRef, ExprRef)>, Option<ExprRef>)> {
    match (plan.operator, plan.children) {
        (OperatorView::Join(join), ChildrenView::Twins { .. }) => match join.on {
            JoinConditionView::On { on, filter } => if join.join_type == JoinType::Inner
                && !join.force_nested_loop && on.len() > 0 {
                Some((on, filter))
            } else {
                None
            },
            JoinConditionView::Nothing => None,
        },
        _ => None,
    }
}

/// The keys with their sides swapped.
pub open spec fn swapped(keys: Seq<(ExprRef, ExprRef)>) -> Seq<(ExprRef, ExprRef)> {
    keys.map_values(|key: (ExprRef, ExprRef)| (key.1, key.0))
}

/// The position, in a row of the right input followed by the left one, of a column of the left
/// input followed by the right one.
pub open spec fn reordered_position(i: int, left_len: int, right_len: int) -> int {
    if i < left_len {
        right_len + i
    } else {
        i - left_len
    }
}

/// The expressions that bring the columns of swapped inputs back into their order.
pub open spec fn reorder_exprs(left: Seq<ColumnRef>, right: Seq<ColumnRef>) -> Seq<ExprView> {
    Seq::new(
        left.len() + right.len(),
        |i: int|
            ExprView {
                head: ExprHead::ColumnRef {
                    column: (left + right)[i],
                    position: reordered_position(i, left.len() as int, right.len() as int) as usize,
                },
                children: Seq::empty(),
            },
    )
}

/// References to expressions that stand side by side.
pub open spec fn refs_from(start: nat, len: nat) -> Seq<ExprRef> {
    Seq::new(len, |i: int| ExprRef((start + i) as usize))
}

/// Each expression that restores the order of swapped inputs reads the slot in which its column
/// stands.
pub proof fn reorder_restores_slots(left: Seq<ColumnRef>, right: Seq<ColumnRef>, i: int)
    requires
        0 <= i < left.len() + right.len(),
        left.len() + right.len() <= usize::MAX,
    ensures
        ({
            let expr = reorder_exprs(left, right)[i];
            let row = right + left;
            &&& expr.head is ColumnRef
            &&& 0 <= expr.head->position < row.len()
            &&& row[expr.head->position as int] == (left + right)[i]
            &&& expr.head->ColumnRef_column == (left + right)[i]
        }),
{
}

/// The inputs of a join, one of them searched by a key of the rows of the other.
pub struct JoinSearch {
    pub outer: PlanView,
    pub inner: PlanView,
    pub keys: Seq<(ExprRef, ExprRef)>,
    pub probe: Seq<ExprRef>,
    pub arena: ArenaView,
    /// The expressions that restore the order of the columns where the inputs were swapped.
    pub reorder: Option<Seq<ExprRef>>,
}

/// How a join can search one of its inputs: the right one if that is possible, else the left one.
pub open spec fn join_search(
    left: PlanView,
    right: PlanView,
    on: Seq<(ExprRef, ExprRef)>,
    arena: ArenaView,
) -> Option<JoinSearch> {
    match parameterized(right, on, arena) {
        Some((inner, probe)) => Some(
            JoinSearch { outer: left, inner, keys: on, probe, arena, reorder: None },
        ),
        None => match parameterized(left, swapped(on), arena) {
            Some((inner, probe)) => {
                let first = output(inner, arena);
                let second = output(right, first.arena);
                let exprs = reorder_exprs(first.schema, second.schema);
                Some(
                    JoinSearch {
                        outer: second.plan,
                        inner: first.plan,
                        keys: swapped(on),
                        probe,
                        arena: ArenaView { exprs: second.arena.exprs + exprs, ..second.arena },
                        reorder: Some(refs_from(second.arena.exprs.len(), exprs.len())),
                    },
                )
            },
            None => None,
        },
    }
}

/// An equality of two expressions.
pub open spec fn eq_view(left_expr: ExprRef, right_expr: ExprRef) -> ExprView {
    ExprView {
        head: ExprHead::Binary {
            op: BinaryOperator::Eq,
            evaluator: None,
            ty: LogicalTypeView::Plain(LogicalType::Boolean),
        },
        children: seq![left_expr, right_expr],
    }
}

/// The equalities of the keys over a joined row, whose right columns stand behind the left ones.
pub open spec fn key_predicates(
    exprs: Seq<ExprView>,
    keys: Seq<(ExprRef, ExprRef)>,
    left_len: nat,
) -> (Seq<ExprView>, Seq<ExprRef>)
    decreases keys.len(),
{
    if keys.len() == 0 {
        (exprs, Seq::empty())
    } else {
        let (sofar, refs) = key_predicates(exprs, keys.drop_last(), left_len);
        let moved = shift_expr(sofar, keys.last().1, left_len as int);
        (
            moved.push(eq_view(keys.last().0, keys.last().1)),
            refs.push(ExprRef(moved.len() as usize)),
        )
    }
}

/// The application that takes the place of a join, with the arena afterwards.
pub open spec fn searched_join(search: JoinSearch, filter: Option<ExprRef>) -> (PlanView,
    ArenaView) {
    let outer = output(search.outer, search.arena);
    let (probe, with_probe) = if search.probe.len() == 1 {
        (search.probe[0], outer.arena.exprs)
    } else {
        (
            ExprRef(outer.arena.exprs.len() as usize),
            outer.arena.exprs.push(
                ExprView { head: ExprHead::Tuple, children: search.probe },
            ),
        )
    };
    let (exprs, predicates) = key_predicates(with_probe, search.keys, outer.schema.len());
    let apply = PlanView {
        operator: OperatorView::MarkApply(
            MarkApplyView {
                kind: MarkApplyKind::InnerJoin,
                predicates,
                output_column: None,
                parameterized_probe: Some(probe),
            },
        ),
        children: ChildrenView::Twins {
            left: Box::new(outer.plan),
            right: Box::new(search.inner),
        },
        physical: None,
        schema: None,
    };
    let ordered = match search.reorder {
        Some(exprs) => PlanView {
            physical: following(PlanImpl::Project),
            ..above(OperatorView::Project(exprs), apply)
        },
        None => apply,
    };
    let filtered = match filter {
        Some(predicate) => PlanView {
            physical: following(PlanImpl::Filter),
            ..above(
                OperatorView::Filter(
                    FilterOperator { predicate, is_optimized: false, having: false },
                ),
                ordered,
            )
        },
        None => ordered,
    };
    (filtered, ArenaView { exprs, ..outer.arena })
}

/// A searched scan delivers the columns of the scan.
proof fn lemma_parameterized_ready(
    plan: PlanView,
    keys: Seq<(ExprRef, ExprRef)>,
    arena: ArenaView,
)
    requires
        plan.ready(),
    ensures
        parameterized(plan, keys, arena) matches Some((res, _)) ==> res.ready(),
    decreases plan,
{
    if let (OperatorView::Filter(filter), ChildrenView::Only(child)) = (
        plan.operator,
        plan.children,
    ) {
        if plan.schema is None {
            lemma_parameterized_ready(
                *child,
                keys + constant_keys_of(arena.exprs, conjuncts(arena.exprs, filter.predicate)),
                arena,
            );
        }
    }
}

/// Swaps the sides of the keys.
fn swap_keys(keys: &Vec<(ExprRef, ExprRef)>) -> (res: Vec<(ExprRef, ExprRef)>)
    ensures
        res@ == swapped(keys@),
{
    let mut res: Vec<(ExprRef, ExprRef)> = Vec::new();
    let mut i: usize = 0;
    while i < keys.len()
        invariant
            i <= keys.len(),
            res@ == swapped(keys@).take(i as int),
        decreases keys.len() - i,
    {
        res.push((keys[i].1, keys[i].0));
        i += 1;
        assert(res@ =~= swapped(keys@).take(i as int));
    }
    assert(res@ =~= swapped(keys@));
    res
}

/// Adds one of the expressions that bring the columns of swapped inputs back into their order.
fn alloc_slot(
    column: ColumnRef,
    position: u128,
    arena: &mut PlanArena,
    res: &mut Vec<ExprRef>,
)
    requires
        old(arena)@.wf(),
        old(arena)@.has_column(column),
    ensures
        final(arena)@ == old(arena)@.push_expr(
            ExprView {
                head: ExprHead::ColumnRef { column, position: position as usize },
                children: Seq::empty(),
            },
        ),
        final(res)@ == old(res)@.push(ExprRef(old(arena)@.exprs.len() as usize)),
        final(arena)@.wf(),
{
    let position: usize = #[verifier::truncate] (position as usize);
    let expr = arena.alloc_expression(ScalarExpression::column_expr(column, position));
    res.push(expr);
}

/// Adds the expressions that bring the columns of swapped inputs back into their order.
fn alloc_reorder(left: &Vec<ColumnRef>, right: &Vec<ColumnRef>, arena: &mut PlanArena) -> (res: Vec<
    ExprRef,
>)
    requires
        old(arena)@.wf(),
        old(arena)@.has_columns(left@),
        old(arena)@.has_columns(right@),
    ensures
        final(arena)@ == (ArenaView {
            exprs: old(arena)@.exprs + reorder_exprs(left@, right@),
            ..old(arena)@
        }),
        res@ == refs_from(old(arena)@.exprs.len(), left@.len() + right@.len()),
        final(arena)@.wf(),
{
    let ghost start = arena@;
    let ghost all = reorder_exprs(left@, right@);
    let mut res: Vec<ExprRef> = Vec::new();
    let mut i: usize = 0;
    assert(start.exprs + all.take(0) =~= start.exprs);
    while i < left.len()
        invariant
            i <= left.len(),
            start == old(arena)@,
            start.has_columns(left@),
            all == reorder_exprs(left@, right@),
            arena@.wf(),
            arena@ == (ArenaView { exprs: start.exprs + all.take(i as int), ..start }),
            res@ == refs_from(start.exprs.len(), i as nat),
        decreases left.len() - i,
    {
        assert(start.has_column(left@[i as int]));
        alloc_slot(left[i], right.len() as u128 + i as u128, arena, &mut res);
        proof {
            assert((left@ + right@)[i as int] == left@[i as int]);
            assert(all.take(i + 1) =~= all.take(i as int).push(all[i as int]));
            assert(start.exprs + all.take(i + 1) =~= (start.exprs + all.take(i as int)).push(
                all[i as int],
            ));
        }
        i += 1;
        assert(res@ =~= refs_from(start.exprs.len(), i as nat));
    }
    let mut j: usize = 0;
    while j < right.len()
        invariant
            j <= right.len(),
            start == old(arena)@,
            start.has_columns(right@),
            all == reorder_exprs(left@, right@),
            arena@.wf(),
            arena@ == (ArenaView { exprs: start.exprs + all.take(left@.len() + j), ..start }),
            res@ == refs_from(start.exprs.len(), left@.len() + j as nat),
        decreases right.len() - j,
    {
        assert(start.has_column(right@[j as int]));
        alloc_slot(right[j], j as u128, arena, &mut res);
        proof {
            let k = left@.len() + j;
            assert((left@ + right@)[k] == right@[j as int]);
            assert(all.take(k + 1) =~= all.take(k).push(all[k]));
            assert(start.exprs + all.take(k + 1) =~= (start.exprs + all.take(k)).push(all[k]));
        }
        j += 1;
        assert(res@ =~= refs_from(start.exprs.len(), left@.len() + j as nat));
    }
    assert(all.take(left@.len() + j) =~= all);
    res
}

/// Adds the equalities of the keys over a joined row.
fn alloc_key_predicates(keys: &Vec<(ExprRef, ExprRef)>, left_len: usize,
    arena: &mut PlanArena) -> (res:
    Vec<ExprRef>)
    requires
        old(arena)@.wf(),
        valid_pairs(old(arena)@, keys@),
    ensures
        ({
            let (exprs, refs) = key_predicates(old(arena)@.exprs, keys@, left_len as nat);
            &&& final(arena)@ == (ArenaView { exprs, ..old(arena)@ })
            &&& res@ == refs
        }),
        final(arena)@.wf(),
        final(arena)@.has_exprs(res@),
        old(arena)@.within(final(arena)@),
{
    let ghost start = arena@;
    let shift = PositionShift { delta: left_len as i128 };
    let mut res: Vec<ExprRef> = Vec::new();
    let mut i: usize = 0;
    assert(keys@.take(0) =~= Seq::empty());
    assert(res@ =~= Seq::empty());
    while i < keys.len()
        invariant
            i <= keys.len(),
            start == old(arena)@,
            valid_pairs(start, keys@),
            shift.delta == left_len,
            arena@.wf(),
            arena@ == (ArenaView {
                exprs: key_predicates(
                    start.exprs,
                    keys@.take(i as int),
                    left_len as nat,
                ).0,
                ..start
            }),
            res@ == key_predicates(start.exprs, keys@.take(i as int), left_len as nat).1,
            arena@.has_exprs(res@),
            start.within(arena@),
        decreases keys.len() - i,
    {
        proof {
            let next = keys@.take(i + 1);
            assert(next.drop_last() =~= keys@.take(i as int));
            assert(next.last() == keys@[i as int]);
            assert(start.has_expr(keys@[i as int].0) && start.has_expr(keys@[i as int].1));
        }
        let (left_expr, right_expr): (ExprRef, ExprRef) = (keys[i].0, keys[i].1);
        shift.visit(right_expr, arena);
        let eq = ScalarExpression::Binary {
            op: BinaryOperator::Eq,
            left_expr,
            right_expr,
            evaluator: None,
            ty: LogicalType::Boolean,
        };
        assert(eq@.children =~= eq_view(left_expr, right_expr).children);
        let predicate = arena.alloc_expression(eq);
        res.push(predicate);
        i += 1;
    }
    assert(keys@.take(i as int) =~= keys@);
    res
}

/// Puts the application that searches one input in the place of a join.
fn build_search(
    outer: LogicalPlan,
    inner: LogicalPlan,
    keys: &Vec<(ExprRef, ExprRef)>,
    probe_keys: Vec<ExprRef>,
    reorder: Option<Vec<ExprRef>>,
    filter: Option<ExprRef>,
    arena: &mut PlanArena,
) -> (res: LogicalPlan)
    requires
        old(arena)@.wf(),
        outer@.valid(old(arena)@),
        outer@.ready(),
        inner@.valid(old(arena)@),
        valid_pairs(old(arena)@, keys@),
        old(arena)@.has_exprs(probe_keys@),
        reorder matches Some(exprs) ==> old(arena)@.has_exprs(exprs@),
        filter matches Some(expr) ==> old(arena)@.has_expr(expr),
    ensures
        (res@, final(arena)@) == searched_join(
            JoinSearch {
                outer: outer@,
                inner: inner@,
                keys: keys@,
                probe: probe_keys@,
                arena: old(arena)@,
                reorder: match reorder {
                    Some(exprs) => Some(exprs@),
                    None => None,
                },
            },
            filter,
        ),
        final(arena)@.wf(),
        old(arena)@.within(final(arena)@),
        final(arena)@.indexes == old(arena)@.indexes,
        res@.valid(final(arena)@),
{
    let ghost start = arena@;
    let mut left = outer;
    let left_len: usize = (&mut left).output_schema(arena).len();
    let ghost middle = arena@;
    let probe: ExprRef = if probe_keys.len() == 1 {
        assert(start.has_expr(probe_keys@[0]));
        probe_keys[0]
    } else {
        let tuple = ScalarExpression::Tuple(probe_keys);
        arena.alloc_expression(tuple)
    };
    assert(valid_pairs(arena@, keys@));
    let ghost with_probe = arena@;
    let predicates = alloc_key_predicates(keys, left_len, arena);
    proof {
        assert(middle.within(with_probe));
        lemma_plan_valid_within(left@, middle, arena@);
        lemma_plan_valid_within(inner@, start, arena@);
    }
    let mut plan = LogicalPlan::new(
        Operator::MarkApply(MarkApplyOperator::new_inner_join(predicates, probe)),
        Childrens::Twins { left: Box::new(left), right: Box::new(inner) },
    );
    assert(plan@.children.valid(arena@));
    assert(plan@.valid(arena@));
    match reorder {
        Some(exprs) => {
            let mut project = LogicalPlan::new(
                Operator::Project(ProjectOperator { exprs }),
                Childrens::Only(Box::new(plan)),
            );
            project.physical_option = Some(
                PhysicalOption::new(PlanImpl::Project, SortOption::Follow),
            );
            plan = project;
            assert(plan@.children.valid(arena@));
        },
        None => {},
    }
    match filter {
        Some(filter) => {
            let mut filtered = FilterOperator::build(filter, plan, false);
            filtered.physical_option = Some(
                PhysicalOption::new(PlanImpl::Filter, SortOption::Follow),
            );
            plan = filtered;
            assert(plan@.children.valid(arena@));
        },
        None => {},
    }
    plan
}

/// Lets an inner join search one of its inputs by the keys of each row of the other, where the keys
/// set all columns of an index.
pub struct ParameterizeInnerJoin;

/// Whether a join may look at the columns of its inputs where it has to.
pub open spec fn search_ready(
    left: PlanView,
    right: PlanView,
    on: Seq<(ExprRef, ExprRef)>,
    arena: ArenaView,
) -> bool {
    match parameterized(right, on, arena) {
        Some(_) => left.ready(),
        None => match parameterized(left, swapped(on), arena) {
            Some(_) => left.ready() && right.ready(),
            None => true,
        },
    }
}

impl ParameterizeInnerJoin {
    pub fn apply(&self, plan: &mut LogicalPlan, arena: &mut PlanArena) -> (res: Result<
        bool,
        DatabaseError,
    >)
        requires
            old(arena)@.wf(),
            old(plan)@.valid(old(arena)@),
            join_keys(old(plan)@) matches Some((on, _)) ==> search_ready(
                *(old(plan)@.children->left),
                *(old(plan)@.children->right),
                on,
                old(arena)@,
            ),
        ensures
            final(arena)@.wf(),
            old(arena)@.within(final(arena)@),
            final(arena)@.indexes == old(arena)@.indexes,
            final(plan)@.valid(final(arena)@),
            ({
                let search = match join_keys(old(plan)@) {
                    Some((on, _)) => join_search(
                        *(old(plan)@.children->left),
                        *(old(plan)@.children->right),
                        on,
                        old(arena)@,
                    ),
                    None => None,
                };
                &&& res == Ok::<bool, DatabaseError>(search is Some)
                &&& match search {
                    None => final(plan)@ == old(plan)@ && final(arena)@ == old(arena)@,
                    Some(search) => (final(plan)@, final(arena)@) == searched_join(
                        search,
                        (join_keys(old(plan)@)->0).1,
                    ),
                }
            }),
    {
        let ghost start = plan@;
        let ghost before = arena@;
        assert(plan.childrens@ == plan@.children);
        let (mut keys, filter): (Vec<(ExprRef, ExprRef)>, Option<ExprRef>) = match (
            &plan.operator,
            &*plan.childrens,
        ) {
            (Operator::Join(join), Childrens::Twins { .. }) => {
                if join.join_type != JoinType::Inner || join.force_nested_loop {
                    return Ok(false);
                }
                match &join.on {
                    JoinCondition::On { on, filter } => {
                        if on.len() == 0 {
                            return Ok(false);
                        }
                        (clone_pairs(on), *filter)
                    },
                    JoinCondition::Nothing => {
                        return Ok(false);
                    },
                }
            },
            _ => {
                return Ok(false);
            },
        };
        let ghost on = keys@;
        assert(start.children.valid(before));
        let whole = plan.take();
        let (mut left, mut right) = whole.childrens.pop_twins();
        let ghost left_view = left@;
        let ghost right_view = right@;
        assert(left_view == *start.children->left && right_view == *start.children->right);
        if let Some(probe) = parameterize(&mut right, clone_pairs(&keys), arena) {
            *plan = build_search(left, right, &keys, probe, None, filter, arena);
            return Ok(true);
        }
        keys = swap_keys(&keys);
        assert(valid_pairs(before, keys@)) by {
            assert forall|i: int| 0 <= i < keys@.len() implies before.has_expr(
                (#[trigger] keys@[i]).0,
            ) && before.has_expr(keys@[i].1) by {
                assert(before.has_expr(on[i].0) && before.has_expr(on[i].1));
            }
        }
        match parameterize(&mut left, clone_pairs(&keys), arena) {
            None => {
                *plan = LogicalPlan {
                    operator: whole.operator,
                    childrens: Box::new(
                        Childrens::Twins { left: Box::new(left), right: Box::new(right) },
                    ),
                    physical_option: whole.physical_option,
                    output_schema: whole.output_schema,
                };
                assert(plan.childrens@ == plan@.children);
                Ok(false)
            },
            Some(probe) => {
                proof {
                    lemma_parameterized_ready(left_view, keys@, before);
                }
                let left_schema = clone_schema((&mut left).output_schema(arena));
                let ghost first = left@;
                let ghost middle = arena@;
                proof {
                    lemma_plan_valid_within(right_view, before, middle);
                }
                let right_schema = clone_schema((&mut right).output_schema(arena));
                let ghost second = arena@;
                proof {
                    lemma_plan_valid_within(first, middle, second);
                }
                let exprs = alloc_reorder(&left_schema, &right_schema, arena);
                proof {
                    lemma_plan_valid_within(first, second, arena@);
                    lemma_plan_valid_within(right@, second, arena@);
                    assert(valid_pairs(arena@, keys@));
                }
                *plan = build_search(right, left, &keys, probe, Some(exprs), filter, arena);
                Ok(true)
            },
        }
    }
}

} // verus!
