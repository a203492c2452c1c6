//! Sorts and filters that the chosen indexes make needless, and orders that the indexes are told
//! about.

use crate::catalog::ColumnRef;
use crate::errors::DatabaseError;
use crate::expression::analysis::{columns_of, eq_ignoring_positions};
use crate::optimizer::plan_utils::{
    above, only_child_mut, replace_with_only_child, wrap_child_with,
};
use crate::planner::arena::{ArenaView, ExprRef, PlanArena};
use crate::planner::operator::aggregate::AggregateView;
use crate::planner::operator::filter::FilterOperator;
use crate::planner::operator::limit::LimitOperator;
use crate::planner::operator::sort::{SortField, SortOperator};
use crate::planner::operator::table_scan::{TableScanOperator, TableScanView};
use crate::planner::operator::{
    valid_fields, Operator, OperatorView, PhysicalOption, PhysicalOptionView, PlanImpl,
    PlanImplView, SortOption, SortOptionView,
};
use crate::planner::{ChildrenView, Childrens, LogicalPlan, PlanView};
use crate::types::index::{IndexInfoView, IndexLookup, IndexLookupView, IndexOrderHint};
use vstd::prelude::*;

verus! {

/// Whether sorting and aggregation may write to disk when memory runs short.
pub const SPILL: bool = true;

/// Removes a sort whose input is already in that order.
pub struct EliminateRedundantSort;

/// Removes a filter that the range of the chosen index makes needless.
pub struct EliminateIndexFilter;

/// Aggregates group by group where the input is ordered by the groups.
pub struct UseStreamAggregate;

/// Sorts the input of an aggregation that must not keep its groups in memory.
pub struct ForceSpillAggregate;

/// What an order is asked for.
#[derive(Clone, Copy, Debug, PartialEq, Eq, Structural)]
pub enum OrderHintKind {
    SortElimination,
    StreamAggregate,
}

/// The order that an operator above a scan asks for.
#[derive(Clone, Copy)]
pub enum ScanOrderHint<'a> {
    SortFields(&'a Vec<SortField>),
    GroupBy(&'a Vec<ExprRef>),
}

/// The keys of an order in which equal groups are neighbours: each ascending, nulls last.
pub open spec fn group_fields(exprs: Seq<ExprRef>) -> Seq<SortField> {
    exprs.map_values(|expr: ExprRef| SortField { expr, asc: true, nulls_first: false })
}

/// Whether two keys sort alike.
pub open spec fn field_matches(
    arena: ArenaView,
    required: SortField,
    provided: SortField,
) -> bool {
    &&& required.asc == provided.asc
    &&& required.nulls_first == provided.nulls_first
    &&& eq_ignoring_positions(arena, required.expr, provided.expr)
}

/// Whether the required keys are those that follow the first `skip` provided ones.
pub open spec fn covers_from(
    arena: ArenaView,
    required: Seq<SortField>,
    fields: Seq<SortField>,
    skip: int,
) -> bool {
    &&& skip + required.len() <= fields.len()
    &&& forall|i: int|
        #![trigger required[i]]
        0 <= i < required.len() ==> field_matches(arena, required[i], fields[skip + i])
}

/// Whether rows in the provided order are in the required one: the required keys are the first
/// provided ones, once some of those that may be left out are left out.
pub open spec fn covers(
    arena: ArenaView,
    required: Seq<SortField>,
    provided: SortOptionView,
) -> bool {
    required.len() == 0 || (provided matches SortOptionView::OrderBy { fields, ignore_prefix_len }
        && exists|skip: int|
        0 <= skip <= ignore_prefix_len && #[trigger] covers_from(arena, required, fields, skip))
}

/// Whether the rows of a plan come in the required order.
pub open spec fn ordered(plan: PlanView, required: Seq<SortField>, arena: ArenaView) -> bool
    decreases plan,
{
    match plan.physical {
        None => false,
        Some(option) => {
            ||| (option.plan matches PlanImplView::IndexScan(info) && covers(
                arena,
                required,
                info.sort_option,
            ))
            ||| match option.sort_option {
                SortOptionView::OrderBy { .. } => covers(arena, required, option.sort_option),
                SortOptionView::Follow => match plan.children {
                    ChildrenView::Only(child) => ordered(*child, required, arena),
                    _ => false,
                },
                SortOptionView::Nothing => false,
            }
        },
    }
}

/// A hint for at least `covered` keys.
pub open spec fn merged(hint: Option<IndexOrderHint>, covered: usize) -> Option<IndexOrderHint> {
    match hint {
        Some(hint) if hint.covered >= covered => Some(hint),
        _ => Some(IndexOrderHint { covered }),
    }
}

/// An index that is told that its order is asked for, if it delivers that order.
pub open spec fn hint_info(
    info: IndexInfoView,
    required: Seq<SortField>,
    kind: OrderHintKind,
    arena: ArenaView,
) -> IndexInfoView {
    if covers(arena, required, info.sort_option) {
        match kind {
            OrderHintKind::SortElimination => IndexInfoView {
                sort_elimination_hint: merged(info.sort_elimination_hint, required.len() as usize),
                ..info
            },
            OrderHintKind::StreamAggregate => IndexInfoView {
                stream_aggregate_hint: merged(info.stream_aggregate_hint, required.len() as usize),
                ..info
            },
        }
    } else {
        info
    }
}

/// Whether the keys refer to no other columns than the given ones.
pub open spec fn keys_from(
    arena: ArenaView,
    columns: Seq<ColumnRef>,
    required: Seq<SortField>,
) -> bool {
    forall|i: int, j: int|
        #![trigger columns_of(arena.exprs, required[i].expr)[j]]
        0 <= i < required.len() && 0 <= j < columns_of(arena.exprs, required[i].expr).len()
            ==> arena.schema_contains(columns, columns_of(arena.exprs, required[i].expr)[j])
}

/// A scan whose indexes are told about an order over its columns.
pub open spec fn hint_scan(
    scan: TableScanView,
    required: Seq<SortField>,
    kind: OrderHintKind,
    arena: ArenaView,
) -> TableScanView {
    if keys_from(arena, scan.columns, required) {
        TableScanView {
            index_infos: scan.index_infos.map_values(
                |info: IndexInfoView| hint_info(info, required, kind, arena),
            ),
            ..scan
        }
    } else {
        scan
    }
}

/// Whether an operator delivers rows in the order of its only input, or sorts them itself.
pub open spec fn passes_hints(operator: OperatorView) -> bool {
    operator is Filter || operator is Project || operator is Limit || operator is TopK
        || operator is Sort
}

/// A plan whose scan, below operators that keep an order, is told about the order.
pub open spec fn hint_plan(
    plan: PlanView,
    required: Seq<SortField>,
    kind: OrderHintKind,
    arena: ArenaView,
) -> PlanView
    decreases plan,
{
    if required.len() == 0 {
        plan
    } else if passes_hints(plan.operator) {
        match plan.children {
            ChildrenView::Only(child) => PlanView {
                children: ChildrenView::Only(Box::new(hint_plan(*child, required, kind, arena))),
                ..plan
            },
            _ => plan,
        }
    } else {
        match plan.operator {
            OperatorView::TableScan(scan) => PlanView {
                operator: OperatorView::TableScan(hint_scan(scan, required, kind, arena)),
                ..plan
            },
            _ => plan,
        }
    }
}

impl<'a> ScanOrderHint<'a> {
    /// The keys that are asked for.
    pub open spec fn fields(self) -> Seq<SortField> {
        match self {
            ScanOrderHint::SortFields(fields) => fields@,
            ScanOrderHint::GroupBy(exprs) => group_fields(exprs@),
        }
    }

    /// Asks for an order by the fields.
    pub fn sort_fields(fields: &'a Vec<SortField>) -> (res: Self)
        ensures
            res == ScanOrderHint::SortFields(fields),
            res.fields() == fields@,
    {
        ScanOrderHint::SortFields(fields)
    }

    /// Asks for an order in which equal groups are neighbours.
    pub fn groupby(groupby_exprs: &'a Vec<ExprRef>) -> (res: Self)
        ensures
            res == ScanOrderHint::GroupBy(groupby_exprs),
            res.fields() == group_fields(groupby_exprs@),
    {
        ScanOrderHint::GroupBy(groupby_exprs)
    }

    /// One of the keys.
    fn field(&self, index: usize) -> (res: SortField)
        requires
            index < self.fields().len(),
        ensures
            res == self.fields()[index as int],
    {
        match self {
            ScanOrderHint::SortFields(fields) => fields[index],
            ScanOrderHint::GroupBy(exprs) => SortField::new(exprs[index], true, false),
        }
    }
}

/// The number of keys that are asked for.
fn hint_len(required: ScanOrderHint<'_>) -> (len: usize)
    ensures
        len == required.fields().len(),
{
    match required {
        ScanOrderHint::SortFields(fields) => fields.len(),
        ScanOrderHint::GroupBy(exprs) => exprs.len(),
    }
}

/// Whether two keys sort alike.
fn sort_field_matches(required: &SortField, provided: &SortField, arena: &PlanArena) -> (res: bool)
    requires
        arena@.wf(),
        arena@.has_expr(required.expr),
        arena@.has_expr(provided.expr),
    ensures
        res == field_matches(arena@, *required, *provided),
{
    required.asc == provided.asc && required.nulls_first == provided.nulls_first
        && required.expr.eq_ignore_colref_pos(provided.expr, arena)
}

/// Whether rows in the provided order are in the required one.
pub fn hint_covers(required: ScanOrderHint<'_>, provided: &SortOption, arena: &PlanArena) -> (res:
    bool)
    requires
        arena@.wf(),
        valid_fields(arena@, required.fields()),
        provided@.valid(arena@),
    ensures
        res == covers(arena@, required.fields(), provided@),
{
    let len: usize = hint_len(required);
    if len == 0 {
        return true;
    }
    match provided {
        SortOption::OrderBy { fields, ignore_prefix_len } => {
            if fields.len() == 0 {
                assert(provided@->fields.len() == 0);
                return false;
            }
            let max_skip: usize = if *ignore_prefix_len < fields.len() {
                *ignore_prefix_len
            } else {
                fields.len()
            };
            let ghost keys = required.fields();
            let mut skip: usize = 0;
            while skip <= max_skip && len <= fields.len() - skip
                invariant
                    arena@.wf(),
                    keys == required.fields(),
                    valid_fields(arena@, keys),
                    valid_fields(arena@, fields@),
                    len == keys.len(),
                    skip <= fields.len(),
                    max_skip <= fields.len(),
                    len > 0,
                    max_skip <= *ignore_prefix_len,
                    *provided == (SortOption::OrderBy {
                        fields: *fields,
                        ignore_prefix_len: *ignore_prefix_len,
                    }),
                    forall|s: int| 0 <= s < skip
                        ==> !#[trigger] covers_from(arena@, keys, fields@, s),
                decreases fields.len() + 1 - skip,
            {
                let mut all = true;
                let mut i: usize = 0;
                while i < len && all
                    invariant
                        arena@.wf(),
                        keys == required.fields(),
                        valid_fields(arena@, keys),
                        valid_fields(arena@, fields@),
                        len == keys.len(),
                        skip + len <= fields.len(),
                        i <= len,
                        all ==> forall|k: int|
                            #![trigger keys[k]]
                            0 <= k < i ==> field_matches(arena@, keys[k], fields@[skip + k]),
                        !all ==> !covers_from(arena@, keys, fields@, skip as int),
                    decreases
                        len - i + if all {
                            1int
                        } else {
                            0int
                        },
                {
                    let key = required.field(i);
                    assert(arena@.has_expr(keys[i as int].expr));
                    assert(arena@.has_expr(fields@[skip + i].expr));
                    if !sort_field_matches(&key, &fields[skip + i], arena) {
                        all = false;
                        assert(!field_matches(arena@, keys[i as int], fields@[skip + i]));
                    } else {
                        i += 1;
                    }
                }
                if all {
                    assert(provided@->fields == fields@);
                    assert(covers_from(arena@, keys, provided@->fields, skip as int));
                    return true;
                }
                skip += 1;
            }
            proof {
                assert forall|s: int| 0 <= s <= *ignore_prefix_len implies !#[trigger] covers_from(
                    arena@,
                    keys,
                    fields@,
                    s,
                ) by {
                    if s >= skip {
                        assert(s + len > fields.len());
                    }
                }
            }
            false
        },
        SortOption::Follow | SortOption::Nothing => false,
    }
}

/// Whether the schema holds all the columns.
fn contains_all(columns: &Vec<ColumnRef>, wanted: &Vec<ColumnRef>, arena: &PlanArena) -> (res: bool)
    requires
        arena@.has_columns(columns@),
        arena@.has_columns(wanted@),
    ensures
        res == (forall|j: int|
            0 <= j < wanted@.len() ==> arena@.schema_contains(columns@, #[trigger] wanted@[j])),
{
    let mut j: usize = 0;
    while j < wanted.len()
        invariant
            j <= wanted.len(),
            arena@.has_columns(columns@),
            arena@.has_columns(wanted@),
            forall|k: int|
                0 <= k < j ==> arena@.schema_contains(columns@, #[trigger] wanted@[k]),
        decreases wanted.len() - j,
    {
        assert(arena@.has_column(wanted@[j as int]));
        if !schema_contains_column(columns, &wanted[j], arena) {
            return false;
        }
        j += 1;
    }
    true
}

/// Whether the schema holds the column, under this or another reference.
pub fn schema_contains_column(
    schema: &Vec<ColumnRef>,
    column: &ColumnRef,
    arena: &PlanArena,
) -> (res: bool)
    requires
        arena@.has_columns(schema@),
        arena@.has_column(*column),
    ensures
        res == arena@.schema_contains(schema@, *column),
{
    let mut i: usize = 0;
    while i < schema.len()
        invariant
            i <= schema.len(),
            arena@.has_columns(schema@),
            arena@.has_column(*column),
            forall|k: int| 0 <= k < i ==> !arena@.same_column(#[trigger] schema@[k], *column),
        decreases schema.len() - i,
    {
        assert(arena@.has_column(schema@[i as int]));
        if arena.same_column(schema[i], *column) {
            return true;
        }
        i += 1;
    }
    false
}

fn merge_hint(hint: &mut Option<IndexOrderHint>, covered: usize)
    ensures
        *final(hint) == merged(*old(hint), covered),
{
    match hint {
        Some(hint) => {
            hint.merge_cover_num(covered);
        },
        None => {
            *hint = Some(IndexOrderHint::new(covered));
        },
    }
}

/// Tells the indexes of a scan that an order is asked for.
pub fn apply_scan_order_hint(
    scan_op: &mut TableScanOperator,
    required: ScanOrderHint<'_>,
    hint: OrderHintKind,
    arena: &PlanArena,
)
    requires
        arena@.wf(),
        valid_fields(arena@, required.fields()),
        OperatorView::TableScan(old(scan_op)@).valid(arena@),
    ensures
        final(scan_op)@ == hint_scan(old(scan_op)@, required.fields(), hint, arena@),
{
    let len: usize = hint_len(required);
    let ghost keys = required.fields();
    let ghost before = scan_op@;
    let mut index: usize = 0;
    while index < len
        invariant
            index <= len,
            len == keys.len(),
            keys == required.fields(),
            arena@.wf(),
            valid_fields(arena@, keys),
            *scan_op == *old(scan_op),
            before == scan_op@,
            arena@.has_columns(before.columns),
            forall|i: int, j: int|
                #![trigger columns_of(arena@.exprs, keys[i].expr)[j]]
                0 <= i < index && 0 <= j < columns_of(arena@.exprs, keys[i].expr).len()
                    ==> arena@.schema_contains(
                    before.columns,
                    columns_of(arena@.exprs, keys[i].expr)[j],
                ),
        decreases len - index,
    {
        let key = required.field(index);
        assert(arena@.has_expr(keys[index as int].expr));
        let wanted = key.expr.referenced_columns(arena);
        if !contains_all(&scan_op.columns, &wanted, arena) {
            proof {
                let j = choose|j: int|
                    0 <= j < wanted@.len() && !arena@.schema_contains(
                        before.columns,
                        #[trigger] wanted@[j],
                    );
                assert(columns_of(arena@.exprs, keys[index as int].expr)[j] == wanted@[j]);
                assert(!keys_from(arena@, before.columns, keys));
            }
            return;
        }
        index += 1;
    }
    let mut i: usize = 0;
    while i < scan_op.index_infos.len()
        invariant
            i <= scan_op.index_infos.len(),
            len == keys.len(),
            keys == required.fields(),
            arena@.wf(),
            valid_fields(arena@, keys),
            before == old(scan_op)@,
            OperatorView::TableScan(before).valid(arena@),
            scan_op.table_name == old(scan_op).table_name,
            scan_op.columns == old(scan_op).columns,
            scan_op.limit == old(scan_op).limit,
            scan_op.with_pk == old(scan_op).with_pk,
            scan_op.index_infos@.len() == before.index_infos.len(),
            forall|k: int|
                0 <= k < i ==> (#[trigger] scan_op.index_infos@[k])@ == hint_info(
                    before.index_infos[k],
                    keys,
                    hint,
                    arena@,
                ),
            forall|k: int|
                i <= k < before.index_infos.len() ==> (#[trigger] scan_op.index_infos@[k])@
                    == before.index_infos[k],
        decreases scan_op.index_infos.len() - i,
    {
        assert(before.index_infos[i as int].valid(arena@));
        if hint_covers(required, &scan_op.index_infos[i].sort_option, arena) {
            let ghost was = scan_op.index_infos@[i as int];
            match hint {
                OrderHintKind::SortElimination => {
                    merge_hint(&mut scan_op.index_infos[i].sort_elimination_hint, len);
                },
                OrderHintKind::StreamAggregate => {
                    merge_hint(&mut scan_op.index_infos[i].stream_aggregate_hint, len);
                },
            }
        }
        i += 1;
    }
    assert(scan_op@.index_infos =~= hint_scan(before, keys, hint, arena@).index_infos);
}

/// The keys of an order in which equal groups are neighbours.
pub fn groupby_sort_fields(groupby_exprs: &Vec<ExprRef>) -> (res: Vec<SortField>)
    ensures
        res@ == group_fields(groupby_exprs@),
{
    let mut res: Vec<SortField> = Vec::new();
    let mut i: usize = 0;
    while i < groupby_exprs.len()
        invariant
            i <= groupby_exprs.len(),
            res@ == group_fields(groupby_exprs@).take(i as int),
        decreases groupby_exprs.len() - i,
    {
        res.push(SortField::new(groupby_exprs[i], true, false));
        i += 1;
        assert(res@ =~= group_fields(groupby_exprs@).take(i as int));
    }
    assert(res@ =~= group_fields(groupby_exprs@));
    res
}

/// Tells the scan below operators that keep an order about the order.
pub fn mark_order_hint(
    plan: &mut LogicalPlan,
    required: &Vec<SortField>,
    hint: OrderHintKind,
    arena: &PlanArena,
)
    requires
        arena@.wf(),
        valid_fields(arena@, required@),
        old(plan)@.valid(arena@),
    ensures
        final(plan)@ == hint_plan(old(plan)@, required@, hint, arena@),
    decreases *old(plan),
{
    if required.len() == 0 {
        return;
    }
    match &mut plan.operator {
        Operator::Filter(_) | Operator::Project(_) | Operator::Limit(_) | Operator::TopK(_)
        | Operator::Sort(_) => {
            (&mut *plan.childrens).mark_order_hint(required, hint, arena);
        },
        Operator::TableScan(scan_op) => {
            apply_scan_order_hint(scan_op, ScanOrderHint::sort_fields(required), hint, arena);
        },
        _ => {},
    }
}

impl Childrens {
    fn mark_order_hint(
        &mut self,
        required: &Vec<SortField>,
        hint: OrderHintKind,
        arena: &PlanArena,
    )
        requires
            arena@.wf(),
            required@.len() > 0,
            valid_fields(arena@, required@),
            old(self)@.valid(arena@),
        ensures
            final(self)@ == (match old(self)@ {
                ChildrenView::Only(child) => ChildrenView::Only(
                    Box::new(hint_plan(*child, required@, hint, arena@)),
                ),
                other => other,
            }),
        decreases *old(self),
    {
        if let Childrens::Only(child) = self {
            mark_order_hint(&mut **child, required, hint, arena);
        }
    }
}

/// Tells the scan below a sort about the order of the sort.
pub fn mark_sort_preserving_indexes(
    plan: &mut LogicalPlan,
    required: &Vec<SortField>,
    arena: &PlanArena,
)
    requires
        arena@.wf(),
        valid_fields(arena@, required@),
        old(plan)@.valid(arena@),
    ensures
        final(plan)@ == hint_plan(
            old(plan)@,
            required@,
            OrderHintKind::SortElimination,
            arena@,
        ),
{
    mark_order_hint(plan, required, OrderHintKind::SortElimination, arena);
}

/// Whether the rows of a plan come in the required order.
pub fn ensure_order(plan: &LogicalPlan, required: &Vec<SortField>, arena: &PlanArena) -> (res: bool)
    requires
        arena@.wf(),
        valid_fields(arena@, required@),
        plan@.valid(arena@),
    ensures
        res == ordered(plan@, required@, arena@),
    decreases plan,
{
    let keys = ScanOrderHint::sort_fields(required);
    match &plan.physical_option {
        None => false,
        Some(option) => {
            if let PlanImpl::IndexScan(info) = &option.plan {
                if hint_covers(keys, &info.sort_option, arena) {
                    return true;
                }
            }
            match &option.sort_option {
                SortOption::OrderBy { .. } => hint_covers(keys, &option.sort_option, arena),
                SortOption::Follow => match &*plan.childrens {
                    Childrens::Only(child) => {
                        assert(plan.childrens@ == plan@.children);
                        ensure_order(&**child, required, arena)
                    },
                    _ => false,
                },
                SortOption::Nothing => false,
            }
        },
    }
}

/// The keys by which an operator sorts.
pub open spec fn sort_keys(operator: OperatorView) -> Option<Seq<SortField>> {
    match operator {
        OperatorView::Sort(fields) => Some(fields),
        OperatorView::TopK(op) => Some(op.sort_fields),
        _ => None,
    }
}

/// An implementation that keeps the order of its input.
pub open spec fn following(plan: PlanImpl) -> Option<PhysicalOptionView> {
    Some(
        PhysicalOptionView {
            plan: PlanImplView::Plain(plan),
            sort_option: SortOptionView::Follow,
        },
    )
}

/// A plan without its topmost sort, where the input comes in that order: a sort gives way to its
/// input, the first rows of an order to the first rows. In any case the scan below is told about
/// the order.
pub open spec fn without_sort(plan: PlanView, arena: ArenaView) -> (PlanView, bool) {
    match (sort_keys(plan.operator), plan.children) {
        (Some(keys), ChildrenView::Only(child)) => {
            let hinted = hint_plan(*child, keys, OrderHintKind::SortElimination, arena);
            if !ordered(hinted, keys, arena) {
                (PlanView { children: ChildrenView::Only(Box::new(hinted)), ..plan }, false)
            } else {
                match plan.operator {
                    OperatorView::TopK(op) => (
                        PlanView {
                            operator: OperatorView::Limit(
                                LimitOperator { offset: op.offset, limit: Some(op.limit) },
                            ),
                            children: ChildrenView::Only(Box::new(hinted)),
                            physical: following(PlanImpl::Limit),
                            ..plan
                        },
                        true,
                    ),
                    _ => (hinted, true),
                }
            }
        },
        _ => (plan, false),
    }
}

impl EliminateRedundantSort {
    pub fn apply(&self, plan: &mut LogicalPlan, arena: &PlanArena) -> (res: Result<
        bool,
        DatabaseError,
    >)
        requires
            arena@.wf(),
            old(plan)@.valid(arena@),
        ensures
            res is Ok,
            (final(plan)@, res->Ok_0) == without_sort(old(plan)@, arena@),
    {
        let (keys, first): (Vec<SortField>, Option<(usize, Option<usize>)>) = match &plan.operator {
            Operator::Sort(op) => (op.clone().sort_fields, None),
            Operator::TopK(op) => (op.clone().sort_fields, Some((op.limit, op.offset))),
            _ => {
                return Ok(false);
            },
        };
        let can_remove = match only_child_mut(plan) {
            Some(child) => {
                mark_sort_preserving_indexes(child, &keys, arena);
                proof {
                    lemma_hint_plan_valid(
                        *(old(plan)@.children->Only_0),
                        keys@,
                        OrderHintKind::SortElimination,
                        arena@,
                    );
                }
                ensure_order(child, &keys, arena)
            },
            None => {
                return Ok(false);
            },
        };
        assert(plan.childrens@ == plan@.children);
        if !can_remove {
            return Ok(false);
        }
        if let Some((limit, offset)) = first {
            plan.operator = Operator::Limit(LimitOperator { offset, limit: Some(limit) });
            plan.physical_option = Some(PhysicalOption::new(PlanImpl::Limit, SortOption::Follow));
            return Ok(true);
        }
        Ok(replace_with_only_child(plan))
    }
}

/// What a filter above an index scan with a static range becomes: a filter for the rest of its
/// predicate, or nothing where the range says it all. Any other plan stays.
pub open spec fn without_index_filter(plan: PlanView) -> (PlanView, bool) {
    match (plan.operator, plan.children) {
        (OperatorView::Filter(filter), ChildrenView::Only(child)) => match child.physical {
            Some(PhysicalOptionView { plan: PlanImplView::IndexScan(info), .. }) => {
                match info.lookup {
                    Some(IndexLookupView::Static(_)) => match info.residual_predicate {
                        Some(residual) => (
                            PlanView {
                                operator: OperatorView::Filter(
                                    FilterOperator { predicate: residual, ..filter },
                                ),
                                ..plan
                            },
                            true,
                        ),
                        None => (*child, true),
                    },
                    _ => (plan, false),
                }
            },
            _ => (plan, false),
        },
        _ => (plan, false),
    }
}

impl EliminateIndexFilter {
    pub fn apply(&self, plan: &mut LogicalPlan, arena: &PlanArena) -> (res: Result<
        bool,
        DatabaseError,
    >)
        ensures
            res is Ok,
            (final(plan)@, res->Ok_0) == without_index_filter(old(plan)@),
    {
        let Operator::Filter(filter) = &plan.operator else {
            return Ok(false);
        };
        let filter: FilterOperator = *filter;
        assert(plan.childrens@ == plan@.children);
        let residual: Option<ExprRef> = match &*plan.childrens {
            Childrens::Only(child) => match &child.physical_option {
                Some(PhysicalOption { plan: PlanImpl::IndexScan(info), .. }) => match &info.lookup {
                    Some(IndexLookup::Static(_)) => info.residual_predicate,
                    _ => {
                        return Ok(false);
                    },
                },
                _ => {
                    return Ok(false);
                },
            },
            _ => {
                return Ok(false);
            },
        };
        if let Some(predicate) = residual {
            plan.operator = Operator::Filter(
                FilterOperator {
                    predicate,
                    is_optimized: filter.is_optimized,
                    having: filter.having,
                },
            );
            return Ok(true);
        }
        Ok(replace_with_only_child(plan))
    }
}

/// Whether the operator is a grouping that is carried out by hashing.
pub open spec fn hashed_groups(plan: PlanView) -> bool {
    &&& plan.operator matches OperatorView::Aggregate(op) && op.groupby_exprs.len() > 0
    &&& plan.physical matches Some(option) && option.plan == PlanImplView::Plain(
        PlanImpl::HashAggregate,
    )
}

/// How a grouping is carried out on ordered rows.
pub open spec fn stream_impl(op: AggregateView) -> PlanImpl {
    if op.is_distinct && op.agg_calls.len() == 0 {
        PlanImpl::StreamDistinct
    } else {
        PlanImpl::StreamAggregate
    }
}

/// A grouping by hashing whose input is ordered by the groups goes group by group instead.
pub open spec fn with_stream_aggregate(plan: PlanView, arena: ArenaView) -> (PlanView, bool) {
    if hashed_groups(plan) && (plan.children matches ChildrenView::Only(child) && ordered(
        *child,
        group_fields(plan.operator->Aggregate_0.groupby_exprs),
        arena,
    )) {
        (
            PlanView { physical: following(stream_impl(plan.operator->Aggregate_0)), ..plan },
            true,
        )
    } else {
        (plan, false)
    }
}

fn stream_implementation(distinct: bool) -> (res: PlanImpl)
    ensures
        res == if distinct {
            PlanImpl::StreamDistinct
        } else {
            PlanImpl::StreamAggregate
        },
{
    if distinct {
        PlanImpl::StreamDistinct
    } else {
        PlanImpl::StreamAggregate
    }
}

impl UseStreamAggregate {
    pub fn apply(&self, plan: &mut LogicalPlan, arena: &PlanArena) -> (res: Result<
        bool,
        DatabaseError,
    >)
        requires
            arena@.wf(),
            old(plan)@.valid(arena@),
        ensures
            res is Ok,
            (final(plan)@, res->Ok_0) == with_stream_aggregate(old(plan)@, arena@),
    {
        let Operator::Aggregate(op) = &plan.operator else {
            return Ok(false);
        };
        if op.groupby_exprs.len() == 0 {
            return Ok(false);
        }
        match &plan.physical_option {
            Some(PhysicalOption { plan: PlanImpl::HashAggregate, .. }) => {},
            _ => {
                return Ok(false);
            },
        }
        let distinct = op.is_distinct && op.agg_calls.len() == 0;
        let required = groupby_sort_fields(&op.groupby_exprs);
        proof {
            lemma_group_fields_valid(arena@, op.groupby_exprs@);
        }
        assert(plan.childrens@ == plan@.children);
        match &*plan.childrens {
            Childrens::Only(child) => {
                if !ensure_order(&**child, &required, arena) {
                    return Ok(false);
                }
            },
            _ => {
                return Ok(false);
            },
        }
        plan.physical_option =
        Some(PhysicalOption::new(stream_implementation(distinct), SortOption::Follow));
        Ok(true)
    }
}

/// A sort that delivers the given order.
pub open spec fn sort_above(fields: Seq<SortField>, child: PlanView) -> PlanView {
    PlanView {
        physical: Some(
            PhysicalOptionView {
                plan: PlanImplView::Plain(PlanImpl::Sort),
                sort_option: SortOptionView::OrderBy { fields, ignore_prefix_len: 0 },
            },
        ),
        ..above(OperatorView::Sort(fields), child)
    }
}

/// Whether a grouping by hashing must not keep its groups in memory.
pub open spec fn must_spill(plan: PlanView) -> bool {
    hashed_groups(plan) && plan.operator->Aggregate_0.force_spill
}

/// A grouping that must not keep its groups in memory goes group by group over a sort.
pub open spec fn with_forced_sort(plan: PlanView) -> (PlanView, bool) {
    match plan.children {
        ChildrenView::Only(child) if must_spill(plan) => {
            let op = plan.operator->Aggregate_0;
            (
                PlanView {
                    children: ChildrenView::Only(
                        Box::new(sort_above(group_fields(op.groupby_exprs), *child)),
                    ),
                    physical: following(stream_impl(op)),
                    ..plan
                },
                true,
            )
        },
        _ => (plan, false),
    }
}

impl ForceSpillAggregate {
    pub fn apply(&self, plan: &mut LogicalPlan, arena: &PlanArena) -> (res: Result<
        bool,
        DatabaseError,
    >)
        requires
            must_spill(old(plan)@) ==> !(old(plan)@.children is Twins),
        ensures
            res is Err <==> must_spill(old(plan)@) && !SPILL,
            res is Ok ==> (final(plan)@, res->Ok_0) == with_forced_sort(old(plan)@),
            res matches Err(err) ==> (err matches DatabaseError::UnsupportedStmt(text) && text@
                == "FORCE_AGG_SPILL requires the `spill` feature"@) && *final(plan) == *old(plan),
    {
        let (distinct, fields): (bool, Vec<SortField>) = match (
            &plan.operator,
            &plan.physical_option,
        ) {
            (
                Operator::Aggregate(op),
                Some(PhysicalOption { plan: PlanImpl::HashAggregate, .. }),
            ) => {
                if !op.force_spill || op.groupby_exprs.len() == 0 {
                    return Ok(false);
                }
                (
                    op.is_distinct && op.agg_calls.len() == 0,
                    groupby_sort_fields(&op.groupby_exprs),
                )
            },
            _ => {
                return Ok(false);
            },
        };
        if !SPILL {
            return Err(
                DatabaseError::UnsupportedStmt(
                    "FORCE_AGG_SPILL requires the `spill` feature".to_string(),
                ),
            );
        }
        let order = fields.clone();
        assert(order@ =~= fields@);
        let sort_option = SortOption::OrderBy { fields: order, ignore_prefix_len: 0 };
        if !wrap_child_with(plan, 0, Operator::Sort(SortOperator { sort_fields: fields })) {
            return Ok(false);
        }
        assert(plan.childrens@ == plan@.children);
        if let Some(sort) = only_child_mut(plan) {
            sort.physical_option = Some(PhysicalOption::new(PlanImpl::Sort, sort_option));
        }
        plan.physical_option =
        Some(PhysicalOption::new(stream_implementation(distinct), SortOption::Follow));
        assert(plan.childrens@ == plan@.children);
        Ok(true)
    }
}

/// The keys of an order by groups are in the arena where the groups are.
pub proof fn lemma_group_fields_valid(arena: ArenaView, exprs: Seq<ExprRef>)
    requires
        arena.has_exprs(exprs),
    ensures
        valid_fields(arena, group_fields(exprs)),
{
    assert forall|i: int| 0 <= i < group_fields(exprs).len() implies arena.has_expr(
        (#[trigger] group_fields(exprs)[i]).expr,
    ) by {
        assert(arena.has_expr(exprs[i]));
    }
}

/// Telling a scan about an order refers to nothing new.
pub proof fn lemma_hint_plan_valid(
    plan: PlanView,
    required: Seq<SortField>,
    kind: OrderHintKind,
    arena: ArenaView,
)
    requires
        plan.valid(arena),
    ensures
        hint_plan(plan, required, kind, arena).valid(arena),
    decreases plan,
{
    if required.len() > 0 {
        if passes_hints(plan.operator) {
            if plan.children is Only {
                lemma_hint_plan_valid(*(plan.children->Only_0), required, kind, arena);
                assert(hint_plan(plan, required, kind, arena).children.valid(arena));
            }
        } else if plan.operator is TableScan {
            let scan = plan.operator->TableScan_0;
            let hinted = hint_scan(scan, required, kind, arena);
            assert forall|i: int| 0 <= i < hinted.index_infos.len() implies (
            #[trigger] hinted.index_infos[i]).valid(arena) by {
                assert(scan.index_infos[i].valid(arena));
            }
        }
    }
}

/// A plan after its needless sort was removed, its aggregation made to go group by group where
/// the order allows it, and a sort added where the aggregation must not keep its groups in memory.
pub open spec fn post_rules(plan: PlanView, arena: ArenaView) -> (PlanView, bool) {
    let (unsorted, removed) = without_sort(plan, arena);
    let (streamed, streams) = with_stream_aggregate(unsorted, arena);
    let (forced, added) = with_forced_sort(streamed);
    (forced, removed || streams || added)
}

/// Removing a sort refers to nothing new.
proof fn lemma_without_sort_valid(plan: PlanView, arena: ArenaView)
    requires
        plan.valid(arena),
    ensures
        without_sort(plan, arena).0.valid(arena),
{
    if let (Some(keys), ChildrenView::Only(child)) = (sort_keys(plan.operator), plan.children) {
        assert(child.valid(arena));
        lemma_hint_plan_valid(*child, keys, OrderHintKind::SortElimination, arena);
        let hinted = hint_plan(*child, keys, OrderHintKind::SortElimination, arena);
        assert(ChildrenView::Only(Box::new(hinted)).valid(arena));
    }
}

/// Adding a sort refers to nothing new.
proof fn lemma_forced_sort_valid(plan: PlanView, arena: ArenaView)
    requires
        plan.valid(arena),
    ensures
        with_forced_sort(plan).0.valid(arena),
{
    if with_forced_sort(plan).1 {
        let exprs = plan.operator->Aggregate_0.groupby_exprs;
        lemma_group_fields_valid(arena, exprs);
        let child = *plan.children->Only_0;
        assert(child.valid(arena));
        let sort = sort_above(group_fields(exprs), child);
        assert(sort.children.valid(arena));
        assert(sort.valid(arena));
        assert(ChildrenView::Only(Box::new(sort)).valid(arena));
    }
}

/// What the rules that run on annotated plans make of a valid plan is valid.
pub proof fn lemma_post_rules_valid(plan: PlanView, arena: ArenaView)
    requires
        plan.valid(arena),
    ensures
        post_rules(plan, arena).0.valid(arena),
{
    lemma_without_sort_valid(plan, arena);
    lemma_forced_sort_valid(
        with_stream_aggregate(without_sort(plan, arena).0, arena).0,
        arena,
    );
}

/// What is left of a needless filter is valid.
pub proof fn lemma_index_filter_valid(plan: PlanView, arena: ArenaView)
    requires
        plan.valid(arena),
    ensures
        without_index_filter(plan).0.valid(arena),
{
    if let ChildrenView::Only(child) = plan.children {
        assert(child.valid(arena));
    }
}

/// Applies the rules that need the chosen implementations: removes a needless sort, lets an
/// aggregation go group by group, and, last, so that an ordered input is used before, sorts the
/// input of an aggregation that must not keep its groups in memory.
pub fn apply_annotated_post_rules(plan: &mut LogicalPlan, arena: &PlanArena) -> (res: Result<
    bool,
    DatabaseError,
>)
    requires
        arena@.wf(),
        old(plan)@.valid(arena@),
        old(plan)@.operator is Aggregate ==> !(old(plan)@.children is Twins),
        old(plan)@.children matches ChildrenView::Only(child) ==> (child.operator is Aggregate
            ==> !(child.children is Twins)),
    ensures
        res is Ok,
        (final(plan)@, res->Ok_0) == post_rules(old(plan)@, arena@),
        final(plan)@.valid(arena@),
{
    let ghost start = plan@;
    let mut changed = false;
    proof {
        lemma_without_sort_valid(start, arena@);
        lemma_post_rules_valid(start, arena@);
    }
    match EliminateRedundantSort.apply(plan, arena) {
        Ok(applied) => {
            if applied {
                changed = true;
            }
        },
        Err(err) => {
            return Err(err);
        },
    }
    match UseStreamAggregate.apply(plan, arena) {
        Ok(applied) => {
            if applied {
                changed = true;
            }
        },
        Err(err) => {
            return Err(err);
        },
    }
    match ForceSpillAggregate.apply(plan, arena) {
        Ok(applied) => {
            if applied {
                changed = true;
            }
        },
        Err(err) => {
            return Err(err);
        },
    }
    Ok(changed)
}

} // verus!
