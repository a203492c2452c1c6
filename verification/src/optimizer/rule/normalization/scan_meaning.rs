//! Predicates that were pushed into scans, as they show in the rows: what an index finds and what is
//! left of the predicate say the same as the predicate.

use crate::catalog::ColumnRef;
use crate::expression::analysis::{bare, lemma_bare_bounded};
use crate::expression::conjunction::{conjuncts, lemma_conjuncts_bounded};
use crate::expression::meaning::{
    all_met, by_column, conjoins, conjunction_holds_with_its_parts, holds, lemma_value_bare,
    lemma_all_met_concat, lemma_met_parts, lemma_value_extend, lemma_values_of, met, met_if_any, value_of, values_of, Meaning,
};
use crate::expression::range_detacher::{
    contains, detach_parts, detached_range_holds_matching_values, flipped_comparison_agrees,
    is_key_column, key_comparison, key_range, satisfies,
};
use crate::expression::{BinaryOperator, ExprHead};
use crate::optimizer::rule::normalization::elimination::without_index_filter;
use crate::optimizer::rule::normalization::parameterized_meaning::Row;
use crate::optimizer::rule::normalization::scan_predicates::{
    composite, info_pushed, key_search, key_slot, reordered, scan_slot,
};
use crate::planner::arena::{ArenaView, ExprRef};
use crate::planner::operator::{OperatorView, PlanImplView};
use crate::planner::{ChildrenView, PlanView};
use crate::types::index::{IndexInfoView, IndexLookupView, SerializerView};
use crate::types::value::{DataValue, DataValueView, Order};
use crate::types::ColumnId;
use vstd::prelude::*;

verus! {

/// Whether comparisons hold as the order of the values says.
pub open spec fn compares_by_order(meaning: Meaning) -> bool {
    forall|head: ExprHead, values: Seq<DataValueView>|
        head is Binary && values.len() == 2 ==> {
            let order = DataValue::order(values[0], values[1]);
            let held = holds(#[trigger] meaning(head, values));
            match head->Binary_op {
                BinaryOperator::Eq => held <==> order == Some(Order::Same),
                BinaryOperator::Gt => held <==> order == Some(Order::After),
                BinaryOperator::Lt => held <==> order == Some(Order::Before),
                BinaryOperator::GtEq => held <==> order == Some(Order::Same) || order == Some(
                    Order::After,
                ),
                BinaryOperator::LtEq => held <==> order == Some(Order::Same) || order == Some(
                    Order::Before,
                ),
                _ => true,
            }
        }
}

/// Whether disjunctions hold exactly where one of the operands holds.
pub open spec fn disjoins(meaning: Meaning) -> bool {
    forall|head: ExprHead, values: Seq<DataValueView>|
        (head matches ExprHead::Binary { op, .. } && op == BinaryOperator::Or) && values.len() == 2
            ==> (holds(#[trigger] meaning(head, values)) <==> holds(values[0]) || holds(values[1]))
}

/// A row of a table, by the numbers of its columns.
pub type Stored = spec_fn(ColumnId) -> DataValueView;

/// Whether a row holds what is stored for the columns of a table.
pub open spec fn holds_stored(
    arena: ArenaView,
    table: Seq<char>,
    stored: Stored,
    row: Row,
) -> bool {
    forall|column: ColumnRef|
        {
            let catalog = arena.columns[column.0 as int];
            catalog.table == Some(table) && catalog.id is Some ==> #[trigger] row(column)
                == stored(catalog.id->0)
        }
}

/// A key column has the stored value.
proof fn lemma_key_column_value(
    meaning: Meaning,
    arena: ArenaView,
    table: Seq<char>,
    column_id: ColumnId,
    expr: ExprRef,
    stored: Stored,
    row: Row,
)
    requires
        holds_stored(arena, table, stored, row),
        expr.0 < arena.exprs.len(),
        is_key_column(arena, table, column_id, expr),
    ensures
        value_of(meaning, arena.exprs, expr, by_column(row)) == stored(column_id),
{
    let column = arena.exprs[expr.0 as int].head->ColumnRef_column;
    assert(row(column) == stored(column_id));
}

/// A predicate on a key column holds exactly where the stored value satisfies it.
pub proof fn key_predicate_reads_the_stored_value(
    meaning: Meaning,
    arena: ArenaView,
    table: Seq<char>,
    column_id: ColumnId,
    expr: ExprRef,
    stored: Stored,
    row: Row,
)
    requires
        arena.wf(),
        conjoins(meaning),
        disjoins(meaning),
        compares_by_order(meaning),
        holds_stored(arena, table, stored, row),
        expr.0 < arena.exprs.len(),
        key_range(arena, table, column_id, expr) is Some,
    ensures
        met(meaning, arena.exprs, expr, by_column(row)) <==> satisfies(
            arena,
            table,
            column_id,
            expr,
            stored(column_id),
        ),
    decreases expr.0,
{
    let exprs = arena.exprs;
    let reader = by_column(row);
    let node = exprs[expr.0 as int];
    let (left, right) = (node.children[0], node.children[1]);
    let values = values_of(meaning, exprs, node.children, expr.0 as nat, reader);
    lemma_values_of(meaning, exprs, node.children, expr.0 as nat, reader);
    assert(value_of(meaning, exprs, expr, reader) == meaning(node.head, values));
    assert(left.0 < expr.0 && right.0 < expr.0) by {
        assert(node.children[0].0 < expr.0);
        assert(node.children[1].0 < expr.0);
    }
    assert(values[0] == value_of(meaning, exprs, left, reader));
    assert(values[1] == value_of(meaning, exprs, right, reader));
    lemma_value_bare(meaning, exprs, left, reader);
    lemma_value_bare(meaning, exprs, right, reader);
    lemma_bare_bounded(exprs, left);
    lemma_bare_bounded(exprs, right);
    if key_comparison(arena, table, column_id, expr) is Some {
        let (bare_left, bare_right) = (
            bare(exprs, left),
            bare(exprs, right),
        );
        if is_key_column(arena, table, column_id, bare_left) {
            lemma_key_column_value(meaning, arena, table, column_id, bare_left, stored, row);
        }
        if is_key_column(arena, table, column_id, bare_right) {
            lemma_key_column_value(meaning, arena, table, column_id, bare_right, stored, row);
        }
        flipped_comparison_agrees(node.head->Binary_op, values[0], values[1]);
    } else {
        key_predicate_reads_the_stored_value(
            meaning,
            arena,
            table,
            column_id,
            left,
            stored,
            row,
        );
        key_predicate_reads_the_stored_value(
            meaning,
            arena,
            table,
            column_id,
            right,
            stored,
            row,
        );
    }
}

/// Predicates that are split hold exactly where both parts of the split hold, and those that were
/// taken are predicates on the key column.
proof fn lemma_detached_met(
    meaning: Meaning,
    arena: ArenaView,
    table: Seq<char>,
    column_id: ColumnId,
    parts: Seq<ExprRef>,
    row: Row,
)
    requires
        arena.has_exprs(parts),
    ensures
        ({
            let detached = detach_parts(arena, table, column_id, parts);
            &&& all_met(meaning, arena.exprs, parts, by_column(row)) <==> all_met(
                meaning,
                arena.exprs,
                detached.taken,
                by_column(row),
            ) && all_met(meaning, arena.exprs, detached.rest, by_column(row))
            &&& arena.has_exprs(detached.taken)
            &&& arena.has_exprs(detached.rest)
            &&& forall|i: int|
                0 <= i < detached.taken.len() ==> key_range(
                    arena,
                    table,
                    column_id,
                    #[trigger] detached.taken[i],
                ) is Some
        }),
    decreases parts.len(),
{
    let exprs = arena.exprs;
    let reader = by_column(row);
    if parts.len() > 0 {
        let front = parts.drop_last();
        let last = parts.last();
        assert(arena.has_exprs(front)) by {
            assert forall|i: int| 0 <= i < front.len() implies arena.has_expr(
                #[trigger] front[i],
            ) by {
                assert(front[i] == parts[i]);
            }
        }
        assert(arena.has_expr(parts[parts.len() - 1]));
        lemma_detached_met(meaning, arena, table, column_id, front, row);
        let sofar = detach_parts(arena, table, column_id, front);
        lemma_all_met_push(meaning, arena, front, last, row);
        assert(front.push(last) =~= parts);
        lemma_all_met_push(meaning, arena, sofar.taken, last, row);
        lemma_all_met_push(meaning, arena, sofar.rest, last, row);
    }
}

/// A longer list holds exactly where the shorter one and its last predicate hold.
proof fn lemma_all_met_push(
    meaning: Meaning,
    arena: ArenaView,
    list: Seq<ExprRef>,
    last: ExprRef,
    row: Row,
)
    ensures
        all_met(meaning, arena.exprs, list.push(last), by_column(row)) <==> all_met(
            meaning,
            arena.exprs,
            list,
            by_column(row),
        ) && met(meaning, arena.exprs, last, by_column(row)),
{
    lemma_all_met_concat(
        meaning,
        arena.exprs,
        list,
        seq![last],
        by_column(row),
    );
    assert(list + seq![last] =~= list.push(last));
    if met(meaning, arena.exprs, last, by_column(row)) {
        assert(all_met(meaning, arena.exprs, seq![last], by_column(row)));
    } else {
        assert(seq![last][0] == last);
    }
}

/// Predicates hold exactly where the stored value is in their range and the rest holds.
pub proof fn range_and_rest_mean_the_predicates(
    meaning: Meaning,
    arena: ArenaView,
    table: Seq<char>,
    column_id: ColumnId,
    parts: Seq<ExprRef>,
    stored: Stored,
    row: Row,
)
    requires
        arena.wf(),
        conjoins(meaning),
        disjoins(meaning),
        compares_by_order(meaning),
        holds_stored(arena, table, stored, row),
        arena.has_exprs(parts),
    ensures
        ({
            let detached = detach_parts(arena, table, column_id, parts);
            &&& all_met(meaning, arena.exprs, parts, by_column(row)) <==> (detached.range matches
                Some(range) ==> contains(range, stored(column_id))) && all_met(
                meaning,
                arena.exprs,
                detached.rest,
                by_column(row),
            )
            &&& arena.has_exprs(detached.rest)
        }),
{
    let detached = detach_parts(arena, table, column_id, parts);
    let value = stored(column_id);
    let reader = by_column(row);
    lemma_detached_met(meaning, arena, table, column_id, parts, row);
    detached_range_holds_matching_values(arena, table, column_id, parts, value);
    assert forall|i: int| 0 <= i < detached.taken.len() implies met(
        meaning,
        arena.exprs,
        #[trigger] detached.taken[i],
        reader,
    ) == satisfies(arena, table, column_id, detached.taken[i], value) by {
        assert(arena.has_expr(detached.taken[i]));
        key_predicate_reads_the_stored_value(
            meaning,
            arena,
            table,
            column_id,
            detached.taken[i],
            stored,
            row,
        );
    }
    if detached.range is Some && contains(detached.range->0, value) {
        assert forall|i: int| 0 <= i < detached.taken.len() implies met(
            meaning,
            arena.exprs,
            #[trigger] detached.taken[i],
            reader,
        ) by {
            assert(satisfies(arena, table, column_id, detached.taken[i], value));
        }
    }
    if all_met(meaning, arena.exprs, detached.taken, reader) {
        assert forall|i: int| 0 <= i < detached.taken.len() implies satisfies(
            arena,
            table,
            column_id,
            #[trigger] detached.taken[i],
            value,
        ) by {
            assert(met(meaning, arena.exprs, detached.taken[i], reader));
        }
    }
}

/// A predicate that was pushed to an index with one column holds exactly where the stored value is in
/// the range that is looked up and what is left of the predicate holds.
pub proof fn pushed_range_means_the_predicate(
    meaning: Meaning,
    before: ArenaView,
    after: ArenaView,
    columns: Seq<ColumnRef>,
    predicate: ExprRef,
    info: IndexInfoView,
    res: IndexInfoView,
    stored: Stored,
    row: Row,
)
    requires
        before.wf(),
        before.exprs.is_prefix_of(after.exprs),
        before.has_expr(predicate),
        conjoins(meaning),
        disjoins(meaning),
        compares_by_order(meaning),
        info_pushed(before, after, columns, predicate, info, res),
        ({
            let index = before.indexes[info.meta.0 as int];
            &&& !composite(index.ty)
            &&& holds_stored(before, index.table_name, stored, row)
        }),
    ensures
        res.meta == info.meta,
        info.lookup is None && res.lookup is Some ==> {
            let first = before.indexes[info.meta.0 as int].column_ids[0];
            &&& res.lookup matches Some(IndexLookupView::Static(range)) && (met(
                meaning,
                before.exprs,
                predicate,
                by_column(row),
            ) <==> contains(range, stored(first)) && met_if_any(
                meaning,
                after.exprs,
                res.residual_predicate,
                by_column(row),
            ))
        },
{
    let index = before.indexes[info.meta.0 as int];
    let parts = conjuncts(before.exprs, predicate);
    let reader = by_column(row);
    conjunction_holds_with_its_parts(meaning, before.exprs, predicate, reader);
    lemma_conjuncts_bounded(before.exprs, predicate);
    assert(before.has_exprs(parts)) by {
        assert forall|i: int| 0 <= i < parts.len() implies before.has_expr(
            #[trigger] parts[i],
        ) by {}
    }
    range_and_rest_mean_the_predicates(
        meaning,
        before,
        index.table_name,
        index.column_ids[0],
        parts,
        stored,
        row,
    );
    let search = key_search(before, index, predicate);
    if info.lookup is None && search.range is Some {
        lemma_met_parts(meaning, after.exprs, res.residual_predicate, reader);
        assert forall|i: int| 0 <= i < search.rest.len() implies value_of(
            meaning,
            after.exprs,
            #[trigger] search.rest[i],
            reader,
        ) == value_of(meaning, before.exprs, search.rest[i], reader) by {
            assert(before.has_expr(search.rest[i]));
            lemma_value_extend(meaning, before.exprs, after.exprs, search.rest[i], reader);
        }
        assert(all_met(meaning, after.exprs, search.rest, reader) == all_met(
            meaning,
            before.exprs,
            search.rest,
            reader,
        )) by {
            if all_met(meaning, after.exprs, search.rest, reader) {
                assert forall|i: int| 0 <= i < search.rest.len() implies met(
                    meaning,
                    before.exprs,
                    #[trigger] search.rest[i],
                    reader,
                ) by {
                    assert(met(meaning, after.exprs, search.rest[i], reader));
                }
            }
            if all_met(meaning, before.exprs, search.rest, reader) {
                assert forall|i: int| 0 <= i < search.rest.len() implies met(
                    meaning,
                    after.exprs,
                    #[trigger] search.rest[i],
                    reader,
                ) by {
                    assert(met(meaning, before.exprs, search.rest[i], reader));
                }
            }
        }
    }
}

/// A slot has the number of the column.
proof fn lemma_scan_slot_column(arena: ArenaView, columns: Seq<ColumnRef>, column_id: ColumnId)
    ensures
        scan_slot(arena, columns, column_id) matches Some(slot) ==> slot < columns.len()
            && arena.columns[columns[slot as int].0 as int].id == Some(column_id),
    decreases columns.len(),
{
    if columns.len() > 0 {
        lemma_scan_slot_column(arena, columns.drop_last(), column_id);
    }
}

/// A scan column is read from an index column that it stands for.
proof fn lemma_key_slot_column(
    arena: ArenaView,
    columns: Seq<ColumnRef>,
    column_ids: Seq<ColumnId>,
    slot: nat,
)
    ensures
        key_slot(arena, columns, column_ids, slot) matches Some(at) ==> at < column_ids.len()
            && scan_slot(arena, columns, column_ids[at as int]) == Some(slot),
    decreases column_ids.len(),
{
    if column_ids.len() > 0 {
        lemma_key_slot_column(arena, columns, column_ids.drop_last(), slot);
    }
}

/// Where rows are read from an index alone, every column of the scan is read as what it is, from the
/// index column with its number.
pub proof fn covered_columns_are_read_from_the_index(
    before: ArenaView,
    after: ArenaView,
    columns: Seq<ColumnRef>,
    predicate: ExprRef,
    info: IndexInfoView,
    res: IndexInfoView,
    slot: int,
)
    requires
        info_pushed(before, after, columns, predicate, info, res),
        info.lookup is None,
        info.covered_deserializers is None,
        info.cover_mapping is None,
        res.covered_deserializers is Some,
        0 <= slot < columns.len(),
        before.indexes[info.meta.0 as int].column_ids.len() <= usize::MAX,
    ensures
        ({
            let index = before.indexes[info.meta.0 as int];
            let readers = res.covered_deserializers->0;
            let column = before.columns[columns[slot].0 as int];
            let at: int = match res.cover_mapping {
                Some(mapping) => mapping[slot] as int,
                None => slot,
            };
            &&& readers.len() == index.column_ids.len()
            &&& res.cover_mapping matches Some(mapping) ==> mapping.len() == columns.len()
            &&& 0 <= at < readers.len()
            &&& column.id == Some(index.column_ids[at])
            &&& readers[at] == SerializerView::Read(column.ty)
        }),
{
    let index = before.indexes[info.meta.0 as int];
    let ids = index.column_ids;
    assert(key_slot(before, columns, ids, slot as nat) is Some);
    lemma_key_slot_column(before, columns, ids, slot as nat);
    let at = key_slot(before, columns, ids, slot as nat)->0 as int;
    lemma_scan_slot_column(before, columns, ids[at]);
    if !reordered(before, columns, ids) {
        assert(scan_slot(before, columns, ids[at]) == Some(slot as nat));
        assert(at == slot);
    }
}

/// Whether a row comes through a plan: past a filter where its predicate holds, and out of anything
/// else as given.
pub open spec fn comes_through(
    meaning: Meaning,
    arena: ArenaView,
    plan: PlanView,
    delivered: spec_fn(PlanView, Row) -> bool,
    row: Row,
) -> bool {
    match (plan.operator, plan.children) {
        (OperatorView::Filter(filter), ChildrenView::Only(child)) => delivered(*child, row) && met(
            meaning,
            arena.exprs,
            filter.predicate,
            by_column(row),
        ),
        _ => delivered(plan, row),
    }
}

/// Where a range and what is left of a predicate mean the predicate, an index that delivers the range
/// gives the same rows after the filter was cut down as before.
pub proof fn cut_filter_keeps_the_rows(
    meaning: Meaning,
    arena: ArenaView,
    plan: PlanView,
    delivered: spec_fn(PlanView, Row) -> bool,
    row: Row,
)
    requires
        without_index_filter(plan).1,
        !(plan.children->Only_0.operator is Filter),
        ({
            let child = *plan.children->Only_0;
            &&& plan.operator matches OperatorView::Filter(filter) && (
            child.physical->0.plan matches PlanImplView::IndexScan(info) && (met(
                meaning,
                arena.exprs,
                filter.predicate,
                by_column(row),
            ) <==> delivered(child, row) && met_if_any(
                meaning,
                arena.exprs,
                info.residual_predicate,
                by_column(row),
            )))
        }),
    ensures
        comes_through(meaning, arena, without_index_filter(plan).0, delivered, row)
            == comes_through(meaning, arena, plan, delivered, row),
        ({
            let child = *plan.children->Only_0;
            child.physical->0.plan->IndexScan_0.lookup matches Some(IndexLookupView::Static(_))
        }),
{
}

} // verus!
