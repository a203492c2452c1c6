//! Predicates that become ranges of the indexes of a scan.

use crate::catalog::ColumnRef;
use crate::errors::DatabaseError;
use crate::expression::conjunction::{
    conjunction_of, conjuncts, lemma_conjunction_extend, lemma_conjuncts_bounded,
    lemma_conjuncts_extend,
};
use crate::expression::range_detacher::{
    combined, detach_parts, lemma_detach_extend, prefix_range, range_views, DetachedPredicate,
    Range, RangeDetacher, RangeView,
};
use crate::planner::arena::{ArenaView, ExprRef, PlanArena};
use crate::planner::operator::filter::FilterOperator;
use crate::planner::operator::table_scan::{TableScanOperator, TableScanView};
use crate::planner::operator::{Operator, OperatorView, SortOption, SortOptionView};
use crate::optimizer::plan_utils::only_child_mut;
use crate::planner::schema::lemma_plan_valid_within;
use crate::planner::{ChildrenView, Childrens, LogicalPlan, PlanView};
use crate::types::index::{
    IndexInfo, IndexInfoView, IndexLookup, IndexLookupView, IndexMeta, IndexMetaRef, IndexMetaView,
    IndexType, serializer_views, SerializerView, TupleValueSerializableImpl,
};
use crate::types::{ColumnId, LogicalType};
use vstd::prelude::*;

verus! {

/// How far predicates fix the columns of an index, column after column.
pub struct KeyPrefix {
    /// The ranges of the first columns, as long as they are single values.
    pub eqs: Seq<RangeView>,
    /// The range of the first column that has more than one value.
    pub tail: Option<RangeView>,
    /// The number of columns with a range.
    pub used: nat,
    /// The predicates that no range covers.
    pub rest: Seq<ExprRef>,
}

/// How far predicates fix the columns of an index from a position on, behind single values of the
/// columns before.
pub open spec fn key_prefix(
    arena: ArenaView,
    index: IndexMetaView,
    position: nat,
    parts: Seq<ExprRef>,
    eqs: Seq<RangeView>,
) -> KeyPrefix
    decreases index.column_ids.len() - position,
{
    let stop = KeyPrefix { eqs, tail: None, used: position, rest: parts };
    if position >= index.column_ids.len() || parts.len() == 0 {
        stop
    } else {
        let detached = detach_parts(
            arena,
            index.table_name,
            index.column_ids[position as int],
            parts,
        );
        match detached.range {
            None => stop,
            Some(range) => if Range::single_values(range) {
                key_prefix(arena, index, position + 1, detached.rest, eqs.push(range))
            } else {
                KeyPrefix { eqs, tail: Some(range), used: position + 1, rest: detached.rest }
            },
        }
    }
}

/// The range of composite keys for fixed columns.
pub open spec fn key_range(prefix: KeyPrefix, column_count: nat) -> Option<RangeView> {
    let with_tail = match prefix.tail {
        Some(range) => combined(range, prefix.eqs),
        None => None,
    };
    let range = if with_tail is None && prefix.eqs.len() > 0 {
        combined(prefix.eqs.last(), prefix.eqs.drop_last())
    } else {
        with_tail
    };
    match range {
        Some(range) => if Range::single_values(range) && prefix.used != column_count {
            Some(prefix_range(range))
        } else {
            Some(range)
        },
        None => None,
    }
}

/// Appending expressions does not change how far the earlier ones fix the columns of an index.
proof fn lemma_key_prefix_extend(
    before: ArenaView,
    after: ArenaView,
    index: IndexMetaView,
    position: nat,
    parts: Seq<ExprRef>,
    eqs: Seq<RangeView>,
)
    requires
        before.wf(),
        before.exprs.is_prefix_of(after.exprs),
        before.columns == after.columns,
        before.has_exprs(parts),
    ensures
        key_prefix(after, index, position, parts, eqs) == key_prefix(
            before,
            index,
            position,
            parts,
            eqs,
        ),
        before.has_exprs(key_prefix(before, index, position, parts, eqs).rest),
    decreases index.column_ids.len() - position,
{
    if position < index.column_ids.len() && parts.len() > 0 {
        let column_id = index.column_ids[position as int];
        lemma_detach_extend(before, after, index.table_name, column_id, parts);
        let detached = detach_parts(before, index.table_name, column_id, parts);
        if let Some(range) = detached.range {
            lemma_key_prefix_extend(
                before,
                after,
                index,
                position + 1,
                detached.rest,
                eqs.push(range),
            );
        }
    }
}

/// Whether the keys of an index are composite.
pub open spec fn composite(ty: IndexType) -> bool {
    match ty {
        IndexType::PrimaryKey { is_multiple } => is_multiple,
        IndexType::Unique => false,
        IndexType::Normal => false,
        IndexType::Composite => true,
    }
}

/// What a predicate means for the keys of an index.
pub struct KeySearch {
    pub range: Option<RangeView>,
    pub rest: Seq<ExprRef>,
    /// The number of leading columns with a single value, for composite keys.
    pub prefix_len: Option<nat>,
}

/// What a predicate means for the keys of an index.
pub open spec fn key_search(
    arena: ArenaView,
    index: IndexMetaView,
    predicate: ExprRef,
) -> KeySearch {
    let parts = conjuncts(arena.exprs, predicate);
    if composite(index.ty) {
        let prefix = key_prefix(arena, index, 0, parts, Seq::empty());
        KeySearch {
            range: key_range(prefix, index.column_ids.len()),
            rest: prefix.rest,
            prefix_len: Some(prefix.eqs.len()),
        }
    } else {
        let detached = detach_parts(arena, index.table_name, index.column_ids[0], parts);
        KeySearch { range: detached.range, rest: detached.rest, prefix_len: None }
    }
}

/// The position of the first column of a scan that has the number, if there is one.
pub open spec fn scan_slot(
    arena: ArenaView,
    columns: Seq<ColumnRef>,
    column_id: ColumnId,
) -> Option<nat>
    decreases columns.len(),
{
    if columns.len() == 0 {
        None
    } else {
        match scan_slot(arena, columns.drop_last(), column_id) {
            Some(slot) => Some(slot),
            None => if arena.columns[columns.last().0 as int].id == Some(column_id) {
                Some((columns.len() - 1) as nat)
            } else {
                None
            },
        }
    }
}

/// The last of the index columns that a scan column is read from, if there is one.
pub open spec fn key_slot(
    arena: ArenaView,
    columns: Seq<ColumnRef>,
    column_ids: Seq<ColumnId>,
    slot: nat,
) -> Option<nat>
    decreases column_ids.len(),
{
    if column_ids.len() == 0 {
        None
    } else if scan_slot(arena, columns, column_ids.last()) == Some(slot) {
        Some((column_ids.len() - 1) as nat)
    } else {
        key_slot(arena, columns, column_ids.drop_last(), slot)
    }
}

/// Whether every column of the scan is a column of the index.
pub open spec fn covers_scan(
    arena: ArenaView,
    columns: Seq<ColumnRef>,
    column_ids: Seq<ColumnId>,
) -> bool {
    forall|slot: nat|
        slot < columns.len() ==> #[trigger] key_slot(arena, columns, column_ids, slot) is Some
}

/// Whether the columns of the scan stand in another order than those of the index.
pub open spec fn reordered(
    arena: ArenaView,
    columns: Seq<ColumnRef>,
    column_ids: Seq<ColumnId>,
) -> bool {
    exists|i: int|
        0 <= i < column_ids.len() && (scan_slot(arena, columns, #[trigger] column_ids[i]) matches
            Some(slot) && slot != i)
}

/// How the columns of an index entry are read: those of the scan as what they are, the others
/// skipped.
pub open spec fn key_readers(
    arena: ArenaView,
    columns: Seq<ColumnRef>,
    index: IndexMetaView,
) -> Seq<SerializerView> {
    Seq::new(
        index.column_ids.len(),
        |i: int|
            match scan_slot(arena, columns, index.column_ids[i]) {
                Some(slot) => SerializerView::Read(
                    arena.columns[columns[slot as int].0 as int].ty,
                ),
                None => SerializerView::Skip(index.column_types()[i]),
            },
    )
}

/// The index column that each scan column is read from.
pub open spec fn key_mapping(
    arena: ArenaView,
    columns: Seq<ColumnRef>,
    column_ids: Seq<ColumnId>,
) -> Seq<usize> {
    Seq::new(
        columns.len(),
        |slot: int| key_slot(arena, columns, column_ids, slot as nat)->0 as usize,
    )
}

/// Whether the type of every index column that the scan does not have is known.
pub open spec fn skips_known(
    arena: ArenaView,
    columns: Seq<ColumnRef>,
    index: IndexMetaView,
) -> bool {
    forall|i: int|
        0 <= i < index.column_ids.len() ==> scan_slot(
            arena,
            columns,
            #[trigger] index.column_ids[i],
        ) is Some || i < index.column_types().len()
}

/// An index of a scan after a predicate was pushed into it.
pub open spec fn pushed_info(
    arena: ArenaView,
    columns: Seq<ColumnRef>,
    predicate: ExprRef,
    info: IndexInfoView,
    residual: Option<ExprRef>,
) -> IndexInfoView {
    let index = arena.indexes[info.meta.0 as int];
    let search = key_search(arena, index, predicate);
    let sort_option = match search.prefix_len {
        Some(len) => SortOptionView::OrderBy {
            fields: info.sort_option->fields,
            ignore_prefix_len: len as usize,
        },
        None => info.sort_option,
    };
    match search.range {
        None => IndexInfoView { sort_option, residual_predicate: None, ..info },
        Some(range) => {
            let covered = covers_scan(arena, columns, index.column_ids);
            IndexInfoView {
                sort_option,
                lookup: Some(IndexLookupView::Static(range)),
                residual_predicate: residual,
                covered_deserializers: if covered {
                    Some(key_readers(arena, columns, index))
                } else {
                    None
                },
                cover_mapping: if covered && reordered(arena, columns, index.column_ids) {
                    Some(key_mapping(arena, columns, index.column_ids))
                } else {
                    None
                },
                ..info
            }
        },
    }
}

/// A slot is a position of the scan.
proof fn lemma_scan_slot(arena: ArenaView, columns: Seq<ColumnRef>, column_id: ColumnId)
    ensures
        scan_slot(arena, columns, column_id) matches Some(slot) ==> slot < columns.len(),
    decreases columns.len(),
{
    if columns.len() > 0 {
        lemma_scan_slot(arena, columns.drop_last(), column_id);
    }
}

/// A slot of the first columns is a slot of all of them.
proof fn lemma_scan_slot_found(
    arena: ArenaView,
    columns: Seq<ColumnRef>,
    column_id: ColumnId,
    len: int,
)
    requires
        0 <= len <= columns.len(),
        scan_slot(arena, columns.take(len), column_id) is Some,
    ensures
        scan_slot(arena, columns, column_id) == scan_slot(arena, columns.take(len), column_id),
    decreases columns.len(),
{
    if len < columns.len() {
        assert(columns.drop_last().take(len) =~= columns.take(len));
        lemma_scan_slot_found(arena, columns.drop_last(), column_id, len);
    } else {
        assert(columns.take(len) =~= columns);
    }
}

/// The position of the first column of a scan that has the number, if there is one.
pub fn find_slot(columns: &Vec<ColumnRef>, column_id: ColumnId, arena: &PlanArena) -> (res: Option<
    usize,
>)
    requires
        arena@.has_columns(columns@),
    ensures
        match res {
            Some(slot) => scan_slot(arena@, columns@, column_id) == Some(slot as nat) && slot
                < columns@.len(),
            None => scan_slot(arena@, columns@, column_id) is None,
        },
{
    let mut i: usize = 0;
    assert(columns@.take(0) =~= Seq::empty());
    while i < columns.len()
        invariant
            i <= columns.len(),
            arena@.has_columns(columns@),
            scan_slot(arena@, columns@.take(i as int), column_id) is None,
        decreases columns.len() - i,
    {
        proof {
            let next = columns@.take(i + 1);
            assert(next.drop_last() =~= columns@.take(i as int));
            assert(next.last() == columns@[i as int]);
            assert(arena@.has_column(columns@[i as int]));
        }
        if let Some(id) = arena.column(columns[i]).id() {
            if id == column_id {
                proof {
                    lemma_scan_slot_found(arena@, columns@, column_id, i + 1);
                }
                return Some(i);
            }
        }
        i += 1;
    }
    assert(columns@.take(i as int) =~= columns@);
    None
}

/// Mark of a scan column that no index column was found for.
const NO_SLOT: usize = usize::MAX;

/// How index entries are read in place of the rows of the table, if they hold every column of the
/// scan: the readers of the index columns, and, where the order differs, the index column for each
/// column of the scan.
fn cover_scan(columns: &Vec<ColumnRef>, meta: IndexMetaRef, arena: &PlanArena) -> (res: (
    Option<Vec<TupleValueSerializableImpl>>,
    Option<Vec<usize>>,
))
    requires
        arena@.has_columns(columns@),
        arena@.has_index(meta),
        skips_known(arena@, columns@, arena@.indexes[meta.0 as int]),
    ensures
        ({
            let index = arena@.indexes[meta.0 as int];
            let covered = covers_scan(arena@, columns@, index.column_ids);
            &&& match res.0 {
                Some(readers) => covered && serializer_views(readers@) == key_readers(
                    arena@,
                    columns@,
                    index,
                ),
                None => !covered,
            }
            &&& match res.1 {
                Some(mapping) => covered && reordered(arena@, columns@, index.column_ids)
                    && mapping@ == key_mapping(arena@, columns@, index.column_ids),
                None => !(covered && reordered(arena@, columns@, index.column_ids)),
            }
        }),
{
    let index = arena.index(meta);
    let ghost view = arena@.indexes[meta.0 as int];
    let ghost ids = view.column_ids;
    let mut slots: Vec<usize> = Vec::new();
    let mut k: usize = 0;
    while k < columns.len()
        invariant
            k <= columns.len(),
            slots@.len() == k,
            forall|j: int| 0 <= j < k ==> slots@[j] == NO_SLOT,
        decreases columns.len() - k,
    {
        slots.push(NO_SLOT);
        k += 1;
    }
    let mut readers: Vec<TupleValueSerializableImpl> = Vec::new();
    let mut needs_mapping = false;
    let mut i: usize = 0;
    assert(ids.take(0) =~= Seq::empty());
    while i < index.column_ids.len()
        invariant
            i <= index.column_ids.len(),
            index@ == view,
            view == arena@.indexes[meta.0 as int],
            ids == view.column_ids,
            ids == index.column_ids@,
            arena@.has_columns(columns@),
            skips_known(arena@, columns@, view),
            readers@.len() == i,
            forall|j: int|
                0 <= j < i ==> (#[trigger] readers@[j])@ == key_readers(arena@, columns@, view)[j],
            slots@.len() == columns@.len(),
            forall|slot: int|
                0 <= slot < columns@.len() ==> match key_slot(
                    arena@,
                    columns@,
                    ids.take(i as int),
                    slot as nat,
                ) {
                    Some(key) => #[trigger] slots@[slot] == key && key < i,
                    None => slots@[slot] == NO_SLOT,
                },
            needs_mapping == exists|j: int|
                0 <= j < i && (scan_slot(arena@, columns@, #[trigger] ids[j]) matches Some(slot)
                    && slot != j),
        decreases index.column_ids.len() - i,
    {
        let column_id: ColumnId = index.column_ids[i];
        proof {
            let next = ids.take(i + 1);
            assert(next.drop_last() =~= ids.take(i as int));
            assert(next.last() == ids[i as int]);
            assert(column_id == ids[i as int]);
        }
        let ghost before = slots@;
        match find_slot(columns, column_id, arena) {
            Some(slot) => {
                slots[slot] = i;
                if slot != i {
                    needs_mapping = true;
                }
                assert(arena@.has_column(columns@[slot as int]));
                readers.push(arena.column(columns[slot]).datatype().serializable());
            },
            None => {
                assert(scan_slot(arena@, columns@, view.column_ids[i as int]) is None);
                readers.push(index_column_type(index, i).skip_serializable());
            },
        }
        assert forall|slot: int| 0 <= slot < columns@.len() implies match key_slot(
            arena@,
            columns@,
            ids.take(i + 1),
            slot as nat,
        ) {
            Some(key) => #[trigger] slots@[slot] == key && key < i + 1,
            None => slots@[slot] == NO_SLOT,
        } by {
            assert(match key_slot(arena@, columns@, ids.take(i as int), slot as nat) {
                Some(key) => before[slot] == key && key < i,
                None => before[slot] == NO_SLOT,
            });
        }
        i += 1;
    }
    assert(ids.take(i as int) =~= ids);
    let mut covered = true;
    let mut j: usize = 0;
    while j < slots.len()
        invariant
            j <= slots.len(),
            ids == view.column_ids,
            ids.len() <= usize::MAX,
            slots@.len() == columns@.len(),
            forall|slot: int|
                0 <= slot < columns@.len() ==> match key_slot(
                    arena@,
                    columns@,
                    ids,
                    slot as nat,
                ) {
                    Some(key) => #[trigger] slots@[slot] == key && key < ids.len(),
                    None => slots@[slot] == NO_SLOT,
                },
            covered == forall|slot: int|
                0 <= slot < j ==> (#[trigger] slots@[slot]) != NO_SLOT,
        decreases slots.len() - j,
    {
        if slots[j] == NO_SLOT {
            covered = false;
        }
        j += 1;
    }
    proof {
        if covered {
            assert forall|slot: nat| slot < columns@.len() implies #[trigger] key_slot(
                arena@,
                columns@,
                ids,
                slot,
            ) is Some by {
                assert(slots@[slot as int] != NO_SLOT);
            }
        } else {
            let slot = choose|slot: int| 0 <= slot < j && (#[trigger] slots@[slot]) == NO_SLOT;
            assert(key_slot(arena@, columns@, ids, slot as nat) is None);
        }
    }
    if !covered {
        return (None, None);
    }
    assert(serializer_views(readers@) =~= key_readers(arena@, columns@, view));
    if needs_mapping {
        assert(slots@ =~= key_mapping(arena@, columns@, ids)) by {
            assert forall|slot: int| 0 <= slot < columns@.len() implies slots@[slot]
                == key_mapping(arena@, columns@, ids)[slot] by {
                assert(key_slot(arena@, columns@, ids, slot as nat) is Some);
            }
        }
        (Some(readers), Some(slots))
    } else {
        (Some(readers), None)
    }
}

/// The type of a column of an index.
fn index_column_type<'a>(index: &'a IndexMeta, position: usize) -> (ty: &'a LogicalType)
    requires
        position < index@.column_types().len(),
    ensures
        ty@ == index@.column_types()[position as int],
{
    match &index.value_ty {
        LogicalType::Tuple(types) => &types[position],
        ty => ty,
    }
}

/// Whether an index has a lookup already or an order of its own.
pub open spec fn usable(info: IndexInfoView) -> bool {
    info.lookup is Some || info.sort_option is OrderBy
}

/// The number of indexes before the first that has neither a lookup nor an order.
pub open spec fn usable_len(infos: Seq<IndexInfoView>) -> nat
    decreases infos.len(),
{
    if infos.len() == 0 {
        0
    } else {
        let len = usable_len(infos.drop_last());
        if len == infos.len() - 1 && usable(infos.last()) {
            infos.len()
        } else {
            len
        }
    }
}

/// Whether an index was given the range that a predicate asks for.
pub open spec fn info_pushed(
    before: ArenaView,
    after: ArenaView,
    columns: Seq<ColumnRef>,
    predicate: ExprRef,
    info: IndexInfoView,
    res: IndexInfoView,
) -> bool {
    if info.lookup is Some {
        res == info
    } else {
        let search = key_search(before, before.indexes[info.meta.0 as int], predicate);
        &&& res == pushed_info(before, columns, predicate, info, res.residual_predicate)
        &&& search.range is Some ==> conjunction_of(
            after.exprs,
            res.residual_predicate,
            search.rest,
        )
    }
}

/// Whether a predicate asks for a range of an index that has none yet.
pub open spec fn asks_range(arena: ArenaView, predicate: ExprRef, info: IndexInfoView) -> bool {
    info.lookup is None && key_search(
        arena,
        arena.indexes[info.meta.0 as int],
        predicate,
    ).range is Some
}

/// Whether an index has a column, and the types of what has to be skipped are known.
pub open spec fn pushable(
    arena: ArenaView,
    columns: Seq<ColumnRef>,
    predicate: ExprRef,
    info: IndexInfoView,
) -> bool {
    let index = arena.indexes[info.meta.0 as int];
    info.lookup is None ==> {
        &&& composite(index.ty) || index.column_ids.len() > 0
        &&& asks_range(arena, predicate, info) ==> skips_known(arena, columns, index)
    }
}

/// Whether all indexes before the first one without an order were given the range that a predicate
/// asks for.
pub open spec fn scan_pushed(
    before: ArenaView,
    after: ArenaView,
    predicate: ExprRef,
    scan: TableScanView,
    res: TableScanView,
) -> bool {
    let len = usable_len(scan.index_infos);
    &&& res == TableScanView { index_infos: res.index_infos, ..scan }
    &&& res.index_infos.len() == scan.index_infos.len()
    &&& forall|i: int|
        0 <= i < len ==> info_pushed(
            before,
            after,
            scan.columns,
            predicate,
            scan.index_infos[i],
            #[trigger] res.index_infos[i],
        )
    &&& forall|i: int|
        len <= i < scan.index_infos.len() ==> #[trigger] res.index_infos[i] == scan.index_infos[i]
}

/// Whether a predicate asks for a range of one of the first indexes.
pub open spec fn asks_some_range(
    arena: ArenaView,
    predicate: ExprRef,
    infos: Seq<IndexInfoView>,
) -> bool {
    exists|i: int|
        0 <= i < usable_len(infos) && asks_range(arena, predicate, #[trigger] infos[i])
}

/// The filter and the scan of a plan that is a filter above a scan.
pub open spec fn filtered_scan(plan: PlanView) -> Option<(ExprRef, TableScanView)> {
    match (plan.operator, plan.children) {
        (OperatorView::Filter(op), ChildrenView::Only(child)) => match child.operator {
            OperatorView::TableScan(scan) => Some((op.predicate, scan)),
            _ => None,
        },
        _ => None,
    }
}

/// The plan with another scan below its operator.
pub open spec fn with_scan(plan: PlanView, scan: TableScanView) -> PlanView {
    match plan.children {
        ChildrenView::Only(child) => PlanView {
            children: ChildrenView::Only(
                Box::new(PlanView { operator: OperatorView::TableScan(scan), ..*child }),
            ),
            ..plan
        },
        _ => plan,
    }
}

pub proof fn lemma_usable_len(infos: Seq<IndexInfoView>)
    ensures
        usable_len(infos) <= infos.len(),
        forall|i: int| 0 <= i < usable_len(infos) ==> usable(#[trigger] infos[i]),
        usable_len(infos) < infos.len() ==> !usable(infos[usable_len(infos) as int]),
    decreases infos.len(),
{
    if infos.len() > 0 {
        lemma_usable_len(infos.drop_last());
        assert forall|i: int| 0 <= i < usable_len(infos) implies usable(#[trigger] infos[i]) by {
            if i < infos.len() - 1 {
                assert(infos.drop_last()[i] == infos[i]);
            }
        }
    }
}

/// Appending expressions does not change what an earlier predicate means for an index.
proof fn lemma_key_search_extend(
    before: ArenaView,
    after: ArenaView,
    index: IndexMetaView,
    predicate: ExprRef,
)
    requires
        before.wf(),
        before.exprs.is_prefix_of(after.exprs),
        before.columns == after.columns,
        before.has_expr(predicate),
    ensures
        key_search(after, index, predicate) == key_search(before, index, predicate),
        before.has_exprs(key_search(before, index, predicate).rest),
{
    let parts = conjuncts(before.exprs, predicate);
    lemma_conjuncts_extend(before.exprs, after.exprs, predicate);
    lemma_conjuncts_bounded(before.exprs, predicate);
    lemma_key_prefix_extend(before, after, index, 0, parts, Seq::empty());
    lemma_detach_extend(before, after, index.table_name, index.column_ids[0], parts);
}

/// A larger arena reads the slots of the same columns.
proof fn lemma_slots_same(before: ArenaView, after: ArenaView, columns: Seq<ColumnRef>)
    requires
        before.columns == after.columns,
    ensures
        forall|id: ColumnId|
            #![trigger scan_slot(after, columns, id)]
            #![trigger scan_slot(before, columns, id)]
            scan_slot(after, columns, id) == scan_slot(before, columns, id),
    decreases columns.len(),
{
    if columns.len() > 0 {
        lemma_slots_same(before, after, columns.drop_last());
        assert forall|id: ColumnId|
            #![trigger scan_slot(after, columns, id)]
            #![trigger scan_slot(before, columns, id)]
            scan_slot(after, columns, id) == scan_slot(before, columns, id) by {
            assert(scan_slot(after, columns.drop_last(), id) == scan_slot(
                before,
                columns.drop_last(),
                id,
            ));
        }
    }
}

proof fn lemma_key_slots_same(
    before: ArenaView,
    after: ArenaView,
    columns: Seq<ColumnRef>,
    column_ids: Seq<ColumnId>,
)
    requires
        before.columns == after.columns,
    ensures
        forall|slot: nat|
            #![trigger key_slot(after, columns, column_ids, slot)]
            #![trigger key_slot(before, columns, column_ids, slot)]
            key_slot(after, columns, column_ids, slot) == key_slot(
                before,
                columns,
                column_ids,
                slot,
            ),
    decreases column_ids.len(),
{
    lemma_slots_same(before, after, columns);
    if column_ids.len() > 0 {
        lemma_key_slots_same(before, after, columns, column_ids.drop_last());
        assert forall|slot: nat|
            #![trigger key_slot(after, columns, column_ids, slot)]
            #![trigger key_slot(before, columns, column_ids, slot)]
            key_slot(after, columns, column_ids, slot) == key_slot(
                before,
                columns,
                column_ids,
                slot,
            ) by {
            assert(key_slot(after, columns, column_ids.drop_last(), slot) == key_slot(
                before,
                columns,
                column_ids.drop_last(),
                slot,
            ));
        }
    }
}

/// Appending expressions does not change what pushing an earlier predicate does.
proof fn lemma_pushed_extend(
    before: ArenaView,
    after: ArenaView,
    columns: Seq<ColumnRef>,
    predicate: ExprRef,
    info: IndexInfoView,
    residual: Option<ExprRef>,
)
    requires
        before.wf(),
        before.extended_by(after),
        before.columns == after.columns,
        before.has_expr(predicate),
    ensures
        pushed_info(after, columns, predicate, info, residual) == pushed_info(
            before,
            columns,
            predicate,
            info,
            residual,
        ),
        pushable(after, columns, predicate, info) == pushable(before, columns, predicate, info),
{
    let index = before.indexes[info.meta.0 as int];
    lemma_key_search_extend(before, after, index, predicate);
    lemma_slots_same(before, after, columns);
    lemma_key_slots_same(before, after, columns, index.column_ids);
    assert(key_readers(after, columns, index) =~= key_readers(before, columns, index));
    assert(key_mapping(after, columns, index.column_ids) =~= key_mapping(
        before,
        columns,
        index.column_ids,
    ));
    assert(covers_scan(after, columns, index.column_ids) == covers_scan(
        before,
        columns,
        index.column_ids,
    ));
    assert(reordered(after, columns, index.column_ids) == reordered(
        before,
        columns,
        index.column_ids,
    ));
    assert(skips_known(after, columns, index) == skips_known(before, columns, index));
}

/// Gives an index the range that a filter asks for.
fn push_info(
    info: &mut IndexInfo,
    columns: &Vec<ColumnRef>,
    filter_op: &FilterOperator,
    arena: &mut PlanArena,
) -> (res: Result<bool, DatabaseError>)
    requires
        old(arena)@.wf(),
        old(arena)@.has_expr(filter_op.predicate),
        old(arena)@.has_columns(columns@),
        old(info)@.valid(old(arena)@),
        usable(old(info)@) ==> pushable(old(arena)@, columns@, filter_op.predicate, old(info)@),
    ensures
        final(arena)@.wf(),
        old(arena)@.extended_by(final(arena)@),
        final(arena)@.columns == old(arena)@.columns,
        final(info)@.valid(final(arena)@),
        match res {
            Ok(changed) => {
                &&& usable(old(info)@)
                &&& info_pushed(
                    old(arena)@,
                    final(arena)@,
                    columns@,
                    filter_op.predicate,
                    old(info)@,
                    final(info)@,
                )
                &&& changed == asks_range(old(arena)@, filter_op.predicate, old(info)@)
            },
            Err(err) => err is InvalidIndex && !usable(old(info)@) && final(info)@ == old(info)@
                && final(arena)@ == old(arena)@,
        },
{
    let ghost start = arena@;
    if info.lookup.is_some() {
        return Ok(false);
    }
    let ghost before = info@;
    let ghost index = start.indexes[info.meta.0 as int];
    let ghost search = key_search(start, index, filter_op.predicate);
    let index_type: IndexType = arena.index(info.meta).ty;
    let meta = info.meta;
    let is_composite = match index_type {
        IndexType::PrimaryKey { is_multiple } => is_multiple,
        IndexType::Unique => false,
        IndexType::Normal => false,
        IndexType::Composite => true,
    };
    let mut prefix_len: usize = 0;
    match &info.sort_option {
        SortOption::OrderBy { .. } => {},
        _ => {
            return Err(DatabaseError::InvalidIndex);
        },
    }
    let detached = if is_composite {
        PushPredicateIntoScan::composite_range(filter_op, meta, &mut prefix_len, arena)
    } else {
        RangeDetacher::for_index(meta, 0, arena).detach(filter_op.predicate)
    };
    proof {
        lemma_conjuncts_bounded(start.exprs, filter_op.predicate);
        lemma_key_search_extend(start, arena@, index, filter_op.predicate);
        lemma_slots_same(start, arena@, columns@);
        lemma_key_slots_same(start, arena@, columns@, index.column_ids);
    }
    if is_composite {
        let fields = match &info.sort_option {
            SortOption::OrderBy { fields, .. } => {
                let copy = fields.clone();
                assert(copy@ =~= fields@);
                copy
            },
            _ => Vec::new(),
        };
        info.sort_option = SortOption::OrderBy { fields, ignore_prefix_len: prefix_len };
    }
    match detached {
        Err(err) => Err(err),
        Ok(None) => {
            info.lookup = None;
            info.residual_predicate = None;
            Ok(false)
        },
        Ok(Some(split)) => {
            assert(skips_known(arena@, columns@, index));
            let (readers, mapping) = cover_scan(columns, meta, arena);
            assert(key_readers(arena@, columns@, index) =~= key_readers(start, columns@, index));
            assert(key_mapping(arena@, columns@, index.column_ids) =~= key_mapping(
                start,
                columns@,
                index.column_ids,
            ));
            info.lookup = Some(IndexLookup::Static(split.range));
            info.residual_predicate = split.residual;
            info.covered_deserializers = readers;
            info.cover_mapping = mapping;
            Ok(true)
        },
    }
}

/// Gives the indexes of a scan the ranges that a filter asks for.
fn push_scan(
    scan_op: &mut TableScanOperator,
    filter_op: &FilterOperator,
    arena: &mut PlanArena,
) -> (res: Result<bool, DatabaseError>)
    requires
        old(arena)@.wf(),
        old(arena)@.has_expr(filter_op.predicate),
        OperatorView::TableScan(old(scan_op)@).valid(old(arena)@),
        forall|i: int|
            0 <= i < usable_len(old(scan_op)@.index_infos) ==> pushable(
                old(arena)@,
                old(scan_op)@.columns,
                filter_op.predicate,
                #[trigger] old(scan_op)@.index_infos[i],
            ),
    ensures
        final(arena)@.wf(),
        old(arena)@.extended_by(final(arena)@),
        final(arena)@.columns == old(arena)@.columns,
        OperatorView::TableScan(final(scan_op)@).valid(final(arena)@),
        scan_pushed(
            old(arena)@,
            final(arena)@,
            filter_op.predicate,
            old(scan_op)@,
            final(scan_op)@,
        ),
        match res {
            Ok(changed) => {
                &&& usable_len(old(scan_op)@.index_infos) == old(scan_op)@.index_infos.len()
                &&& changed == asks_some_range(
                    old(arena)@,
                    filter_op.predicate,
                    old(scan_op)@.index_infos,
                )
            },
            Err(err) => err is InvalidIndex && usable_len(old(scan_op)@.index_infos) < old(
                scan_op,
            )@.index_infos.len(),
        },
{
    let ghost start = arena@;
    let ghost before = scan_op@;
    let ghost predicate = filter_op.predicate;
    let mut changed = false;
    let mut i: usize = 0;
    proof {
        lemma_usable_len(before.index_infos);
    }
    while i < scan_op.index_infos.len()
        invariant
            i <= scan_op.index_infos.len(),
            start == old(arena)@,
            before == old(scan_op)@,
            predicate == filter_op.predicate,
            start.wf(),
            start.has_expr(predicate),
            OperatorView::TableScan(before).valid(start),
            arena@.wf(),
            start.extended_by(arena@),
            arena@.columns == start.columns,
            scan_op.table_name == old(scan_op).table_name,
            scan_op.columns == old(scan_op).columns,
            scan_op.limit == old(scan_op).limit,
            scan_op.with_pk == old(scan_op).with_pk,
            scan_op.index_infos@.len() == before.index_infos.len(),
            i <= usable_len(before.index_infos) <= before.index_infos.len(),
            forall|k: int|
                0 <= k < usable_len(before.index_infos) ==> usable(
                    #[trigger] before.index_infos[k],
                ),
            usable_len(before.index_infos) < before.index_infos.len() ==> !usable(
                before.index_infos[usable_len(before.index_infos) as int],
            ),
            forall|k: int|
                0 <= k < usable_len(before.index_infos) ==> pushable(
                    start,
                    before.columns,
                    predicate,
                    #[trigger] before.index_infos[k],
                ),
            forall|k: int|
                0 <= k < i ==> {
                    &&& info_pushed(
                        start,
                        arena@,
                        before.columns,
                        predicate,
                        before.index_infos[k],
                        (#[trigger] scan_op.index_infos@[k])@,
                    )
                    &&& scan_op.index_infos@[k]@.valid(arena@)
                },
            forall|k: int|
                i <= k < before.index_infos.len() ==> (#[trigger] scan_op.index_infos@[k])@
                    == before.index_infos[k],
            changed == exists|k: int|
                0 <= k < i && asks_range(start, predicate, #[trigger] before.index_infos[k]),
        decreases scan_op.index_infos.len() - i,
    {
        let ghost middle = arena@;
        let ghost infos = scan_op.index_infos@;
        let ghost info = before.index_infos[i as int];
        proof {
            assert(infos[i as int]@ == info);
            assert(info.valid(start));
            lemma_key_search_extend(
                start,
                middle,
                start.indexes[info.meta.0 as int],
                predicate,
            );
            lemma_pushed_extend(start, middle, before.columns, predicate, info, None);
        }
        let pushed = push_info(&mut scan_op.index_infos[i], &scan_op.columns, filter_op, arena);
        let ghost done = scan_op.index_infos@;
        proof {
            assert(done =~= infos.update(i as int, done[i as int]));
            assert forall|k: int| 0 <= k < i implies {
                &&& info_pushed(
                    start,
                    arena@,
                    before.columns,
                    predicate,
                    before.index_infos[k],
                    (#[trigger] done[k])@,
                )
                &&& done[k]@.valid(arena@)
            } by {
                assert(done[k] == infos[k]);
                assert(infos[k]@.valid(middle));
                let search = key_search(
                    start,
                    start.indexes[before.index_infos[k].meta.0 as int],
                    predicate,
                );
                if before.index_infos[k].lookup is None && search.range is Some {
                    lemma_conjunction_extend(
                        middle.exprs,
                        arena@.exprs,
                        infos[k]@.residual_predicate,
                        search.rest,
                    );
                }
            }
        }
        match pushed {
            Err(err) => {
                proof {
                    assert forall|k: int|
                        0 <= k < before.index_infos.len() implies (
                    #[trigger] scan_op@.index_infos[k]).valid(arena@) by {
                        assert(scan_op@.index_infos[k] == done[k]@);
                        assert(before.index_infos[k].valid(start));
                    }
                }
                return Err(err);
            },
            Ok(applied) => {
                proof {
                    lemma_pushed_extend(
                        start,
                        middle,
                        before.columns,
                        predicate,
                        info,
                        done[i as int]@.residual_predicate,
                    );
                }
                if applied {
                    changed = true;
                }
            },
        }
        i += 1;
    }
    proof {
        assert forall|k: int| 0 <= k < before.index_infos.len() implies (
        #[trigger] scan_op@.index_infos[k]).valid(arena@) by {
            assert(scan_op@.index_infos[k] == scan_op.index_infos@[k]@);
        }
    }
    Ok(changed)
}

/// Turns a filter above a scan into ranges of the indexes of the scan.
pub struct PushPredicateIntoScan;

impl PushPredicateIntoScan {
    /// Gives the indexes of a scan below a filter the ranges that the filter asks for; fails at
    /// the first index that has neither a lookup nor an order.
    pub fn apply(&self, plan: &mut LogicalPlan, arena: &mut PlanArena) -> (res: Result<
        bool,
        DatabaseError,
    >)
        requires
            old(arena)@.wf(),
            old(plan)@.valid(old(arena)@),
            filtered_scan(old(plan)@) matches Some((predicate, scan)) ==> forall|i: int|
                0 <= i < usable_len(scan.index_infos) ==> pushable(
                    old(arena)@,
                    scan.columns,
                    predicate,
                    #[trigger] scan.index_infos[i],
                ),
        ensures
            final(arena)@.wf(),
            old(arena)@.extended_by(final(arena)@),
            final(arena)@.columns == old(arena)@.columns,
            final(plan)@.valid(final(arena)@),
            match filtered_scan(old(plan)@) {
                None => res == Ok::<bool, DatabaseError>(false) && final(plan)@ == old(plan)@
                    && final(arena)@ == old(arena)@,
                Some((predicate, scan)) => {
                    &&& filtered_scan(final(plan)@) matches Some((_, pushed)) && scan_pushed(
                        old(arena)@,
                        final(arena)@,
                        predicate,
                        scan,
                        pushed,
                    ) && final(plan)@ == with_scan(old(plan)@, pushed)
                    &&& match res {
                        Ok(changed) => usable_len(scan.index_infos) == scan.index_infos.len()
                            && changed == asks_some_range(
                            old(arena)@,
                            predicate,
                            scan.index_infos,
                        ),
                        Err(err) => err is InvalidIndex && usable_len(scan.index_infos)
                            < scan.index_infos.len(),
                    }
                },
            },
    {
        let ghost start = plan@;
        assert(plan.childrens@ == plan@.children);
        let filter_op = match &plan.operator {
            Operator::Filter(op) => FilterOperator {
                predicate: op.predicate,
                is_optimized: op.is_optimized,
                having: op.having,
            },
            _ => {
                return Ok(false);
            },
        };
        match &*plan.childrens {
            Childrens::Only(child) => match &child.operator {
                Operator::TableScan(_) => {},
                _ => {
                    return Ok(false);
                },
            },
            _ => {
                return Ok(false);
            },
        }
        proof {
            assert(start.children.valid(arena@));
            assert((*start.children->Only_0).valid(arena@));
        }
        let res = match only_child_mut(plan) {
            Some(child) => match &mut child.operator {
                Operator::TableScan(scan_op) => push_scan(scan_op, &filter_op, arena),
                _ => Ok(false),
            },
            None => Ok(false),
        };
        proof {
            assert(plan.childrens@ == plan@.children);
            lemma_plan_valid_within(start, old(arena)@, arena@);
            let child = *start.children->Only_0;
            let pushed = *plan@.children->Only_0;
            assert(start.children.valid(arena@));
            assert(child.valid(arena@));
            assert(pushed.children == child.children);
            assert(pushed.valid(arena@));
            assert(plan@.children.valid(arena@));
        }
        res
    }

    /// The range of composite keys that a filter asks for, and the predicates that it does not
    /// cover; nothing if the filter does not restrict the first column. The number of leading
    /// columns with a single value is written to `ignore_prefix_len`.
    pub fn composite_range(
        op: &FilterOperator,
        meta: IndexMetaRef,
        ignore_prefix_len: &mut usize,
        arena: &mut PlanArena,
    ) -> (res: Result<Option<DetachedPredicate>, DatabaseError>)
        requires
            old(arena)@.wf(),
            old(arena)@.has_expr(op.predicate),
            old(arena)@.has_index(meta),
        ensures
            final(arena)@.wf(),
            old(arena)@.extended_by(final(arena)@),
            final(arena)@.columns == old(arena)@.columns,
            ({
                let index = old(arena)@.indexes[meta.0 as int];
                let prefix = key_prefix(
                    old(arena)@,
                    index,
                    0,
                    conjuncts(old(arena)@.exprs, op.predicate),
                    Seq::empty(),
                );
                &&& *final(ignore_prefix_len) == prefix.eqs.len()
                &&& match res {
                    Ok(Some(split)) => {
                        &&& key_range(prefix, index.column_ids.len()) == Some(split.range@)
                        &&& conjunction_of(final(arena)@.exprs, split.residual, prefix.rest)
                    },
                    Ok(None) => key_range(prefix, index.column_ids.len()) is None,
                    Err(_) => false,
                }
            }),
    {
        let ghost start = arena@;
        let ghost index = arena@.indexes[meta.0 as int];
        let column_count: usize = arena.index(meta).column_ids.len();
        let mut tail: Option<Range> = None;
        let mut eq_ranges: Vec<Range> = Vec::new();
        let mut apply_column_count: usize = 0;
        let mut residual: Option<ExprRef> = Some(op.predicate);
        let mut position: usize = 0;
        let mut more = true;
        let ghost all = conjuncts(start.exprs, op.predicate);
        let ghost whole = key_prefix(start, index, 0, all, Seq::empty());
        let ghost mut parts = all;
        proof {
            lemma_conjuncts_bounded(start.exprs, op.predicate);
            assert(range_views(eq_ranges@) =~= Seq::empty());
        }
        while more && position < column_count
            invariant
                position <= column_count,
                index == start.indexes[meta.0 as int],
                column_count == index.column_ids.len(),
                start.wf(),
                start.has_index(meta),
                arena@.wf(),
                start.extended_by(arena@),
                arena@.columns == start.columns,
                start.has_exprs(parts),
                conjunction_of(arena@.exprs, residual, parts),
                more ==> {
                    &&& tail is None
                    &&& apply_column_count == position
                    &&& whole == key_prefix(
                        start,
                        index,
                        position as nat,
                        parts,
                        range_views(eq_ranges@),
                    )
                },
                !more ==> {
                    &&& whole.eqs == range_views(eq_ranges@)
                    &&& whole.rest == parts
                    &&& whole.used == apply_column_count
                    &&& match tail {
                        Some(range) => whole.tail == Some(range@),
                        None => whole.tail is None,
                    }
                },
            decreases column_count - position + if more {
                1int
            } else {
                0int
            },
        {
            match residual {
                None => {
                    more = false;
                },
                Some(predicate) => {
                    let ghost middle = arena@;
                    proof {
                        lemma_conjuncts_bounded(middle.exprs, predicate);
                        lemma_detach_extend(
                            start,
                            middle,
                            index.table_name,
                            index.column_ids[position as int],
                            parts,
                        );
                    }
                    let detached = RangeDetacher::for_index(meta, position, arena).detach(
                        predicate,
                    );
                    match detached {
                        Err(err) => {
                            return Err(err);
                        },
                        Ok(None) => {
                            more = false;
                        },
                        Ok(Some(split)) => {
                            proof {
                                parts = detach_parts(
                                    start,
                                    index.table_name,
                                    index.column_ids[position as int],
                                    parts,
                                ).rest;
                            }
                            residual = split.residual;
                            apply_column_count += 1;
                            let range = split.range;
                            if range.only_eq() {
                                let ghost views = range_views(eq_ranges@);
                                eq_ranges.push(range);
                                assert(range_views(eq_ranges@) =~= views.push(range@));
                                position += 1;
                            } else {
                                tail = Some(range);
                                more = false;
                            }
                        },
                    }
                },
            }
        }
        assert(whole.eqs == range_views(eq_ranges@));
        assert(range_views(eq_ranges@).len() == eq_ranges@.len());
        *ignore_prefix_len = eq_ranges.len();
        let mut res: Option<Range> = match &tail {
            Some(range) => range.combining_eqs(&eq_ranges),
            None => None,
        };
        if res.is_none() {
            if let Some(range) = eq_ranges.pop() {
                assert(range_views(eq_ranges@) =~= whole.eqs.drop_last());
                assert(whole.eqs.last() == range@);
                res = range.combining_eqs(&eq_ranges);
            }
        }
        match res {
            None => Ok(None),
            Some(range) => {
                let range = if range.only_eq() && apply_column_count != column_count {
                    range.eq_to_scope()
                } else {
                    range
                };
                Ok(Some(DetachedPredicate { range, residual }))
            },
        }
    }
}

} // verus!
