//! Searching an input by a key finds every row that matches.

use crate::catalog::ColumnRef;
use crate::expression::analysis::{bare, columns_of, lemma_bare_bounded, type_of};
use crate::expression::conjunction::{conjuncts, lemma_conjuncts_bounded};
use crate::expression::meaning::{
    all_met, by_column, by_position, column_nodes, column_nodes_all, conjoins,
    conjunction_holds_with_its_parts, equates, is_column, lemma_column_nodes, lemma_equality_holds,
    lemma_value_agrees, lemma_value_bare, lemma_value_extend, lemma_values_of, met,
    respects_columns, value_of, values_of, Meaning, Reader,
};
use crate::expression::shift_laws::{
    other_expressions_keep_their_values, shifted_expression_reads_shifted_rows, slot,
};
use crate::expression::visitor_mut::{
    columns_are_leaves, lemma_shift_structure_all, shift_all, shift_expr,
};
use crate::expression::{BinaryOperator, ExprHead, ExprView};
use crate::optimizer::rule::normalization::parameterized_index::{
    apply_probe, best_index_is_first_best, first_probe, predicate_probe, probed, side_probe,
};
use crate::optimizer::rule::normalization::parameterized_join::{
    constant_key, constant_keys_of, filter_predicates, first_probed, index_probe, key_predicates,
    key_value, parameterized,
};
use crate::optimizer::rule::normalization::parameterized_laws::lemma_shift_below;
use crate::optimizer::rule::normalization::pushdown_meaning::lemma_node_column;
use crate::optimizer::rule::normalization::pushdown_predicates::lemma_shift_prefix;
use crate::optimizer::rule::normalization::scan_predicates::scan_slot;
use crate::planner::arena::{ArenaView, ExprRef};
use crate::planner::operator::mark_apply::{MarkApplyKind, MarkApplyQuantifier};
use crate::planner::operator::table_scan::TableScanView;
use crate::planner::operator::OperatorView;
use crate::planner::{ChildrenView, PlanView};
use crate::types::index::{IndexInfoView, IndexLookupView};
use crate::types::value::DataValueView;
use crate::types::ColumnId;
use vstd::prelude::*;

verus! {

/// A row, as what it holds for each column.
pub type Row = spec_fn(ColumnRef) -> DataValueView;

/// What a left and a right row together hold: the columns of the right input from the right row, all
/// others from the left one.
pub open spec fn side_by_side(
    arena: ArenaView,
    right_schema: Seq<ColumnRef>,
    left: Row,
    right: Row,
) -> Reader {
    |column: ColumnRef, position: usize|
        if arena.schema_contains(right_schema, column) {
            right(column)
        } else {
            left(column)
        }
}

/// A key that a side of an equality gives holds for every pair of rows on which both sides have the
/// same value.
proof fn lemma_side_probe(
    meaning: Meaning,
    arena: ArenaView,
    right_expr: ExprRef,
    left_expr: ExprRef,
    left_schema: Seq<ColumnRef>,
    right_schema: Seq<ColumnRef>,
    left: Row,
    right: Row,
)
    requires
        arena.wf(),
        arena.has_expr(left_expr),
        arena.has_expr(right_expr),
        value_of(
            meaning,
            arena.exprs,
            right_expr,
            side_by_side(arena, right_schema, left, right),
        ) == value_of(
            meaning,
            arena.exprs,
            left_expr,
            side_by_side(arena, right_schema, left, right),
        ),
    ensures
        side_probe(arena, right_expr, left_expr, left_schema, right_schema) matches Some(
            (column, key),
        ) ==> right(column) == value_of(meaning, arena.exprs, key, by_column(left))
            && arena.schema_contains(right_schema, column) && arena.has_expr(key),
{
    let exprs = arena.exprs;
    let row = side_by_side(arena, right_schema, left, right);
    if let Some((column, key)) = side_probe(
        arena,
        right_expr,
        left_expr,
        left_schema,
        right_schema,
    ) {
        lemma_value_bare(meaning, exprs, right_expr, row);
        lemma_bare_bounded(exprs, right_expr);
        assert forall|node: ExprRef| #[trigger]
            column_nodes(exprs, left_expr).contains(node) implies value_of(
            meaning,
            exprs,
            node,
            row,
        ) == value_of(meaning, exprs, node, by_column(left)) by {
            lemma_node_column(exprs, left_expr, node);
            lemma_column_nodes(exprs, left_expr);
            let nodes = column_nodes(exprs, left_expr);
            assert(is_column(exprs, nodes[nodes.index_of(node)]));
            let columns = columns_of(exprs, left_expr);
            let own = exprs[node.0 as int].head->ColumnRef_column;
            assert(!arena.schema_contains(right_schema, columns[columns.index_of(own)]));
        }
        lemma_value_agrees(meaning, exprs, left_expr, row, by_column(left));
    }
}

/// A key by which a predicate lets the right input be searched is sound: on every pair of a left and
/// a right row on which the predicate holds, the right row holds in the column the value that the
/// key has on the left row.
pub proof fn probe_holds_wherever_the_predicate_does(
    meaning: Meaning,
    arena: ArenaView,
    predicate: ExprRef,
    left_schema: Seq<ColumnRef>,
    right_schema: Seq<ColumnRef>,
    left: Row,
    right: Row,
)
    requires
        equates(meaning),
        arena.wf(),
        arena.has_expr(predicate),
        met(meaning, arena.exprs, predicate, side_by_side(arena, right_schema, left, right)),
    ensures
        predicate_probe(arena, predicate, left_schema, right_schema) matches Some((column, key))
            ==> right(column) == value_of(meaning, arena.exprs, key, by_column(left))
            && arena.schema_contains(right_schema, column),
{
    let exprs = arena.exprs;
    let row = side_by_side(arena, right_schema, left, right);
    let inner = bare(exprs, predicate);
    lemma_value_bare(meaning, exprs, predicate, row);
    lemma_bare_bounded(exprs, predicate);
    let node = exprs[inner.0 as int];
    if predicate_probe(arena, predicate, left_schema, right_schema) is Some {
        assert(exprs[inner.0 as int].children[0].0 < inner.0);
        assert(exprs[inner.0 as int].children[1].0 < inner.0);
        lemma_equality_holds(meaning, exprs, inner, row);
        lemma_side_probe(
            meaning,
            arena,
            node.children[0],
            node.children[1],
            left_schema,
            right_schema,
            left,
            right,
        );
        lemma_side_probe(
            meaning,
            arena,
            node.children[1],
            node.children[0],
            left_schema,
            right_schema,
            left,
            right,
        );
    }
}

/// The first key is the key of one of the predicates.
proof fn lemma_first_probe(
    arena: ArenaView,
    predicates: Seq<ExprRef>,
    left_schema: Seq<ColumnRef>,
    right_schema: Seq<ColumnRef>,
)
    ensures
        first_probe(arena, predicates, left_schema, right_schema) is Some ==> exists|i: int|
            0 <= i < predicates.len() && predicate_probe(
                arena,
                #[trigger] predicates[i],
                left_schema,
                right_schema,
            ) == first_probe(arena, predicates, left_schema, right_schema),
    decreases predicates.len(),
{
    if predicates.len() > 0 {
        let front = predicates.drop_last();
        lemma_first_probe(arena, front, left_schema, right_schema);
        if first_probe(arena, front, left_schema, right_schema) is Some {
            let i = choose|i: int|
                0 <= i < front.len() && predicate_probe(
                    arena,
                    #[trigger] front[i],
                    left_schema,
                    right_schema,
                ) == first_probe(arena, front, left_schema, right_schema);
            assert(predicates[i] == front[i]);
        } else {
            assert(predicates[predicates.len() - 1] == predicates.last());
        }
    }
}

/// Whether the mark of an application is true for a left row and the rows of its right input: for a
/// test of existence or of membership some row has to meet the predicates, for a comparison with all
/// rows every row has to.
pub open spec fn marked(
    meaning: Meaning,
    arena: ArenaView,
    kind: MarkApplyKind,
    predicates: Seq<ExprRef>,
    right_schema: Seq<ColumnRef>,
    left: Row,
    rows: Seq<Row>,
) -> bool {
    match kind {
        MarkApplyKind::Quantified(MarkApplyQuantifier::All) => forall|i: int|
            0 <= i < rows.len() ==> all_met(
                meaning,
                arena.exprs,
                predicates,
                side_by_side(arena, right_schema, left, #[trigger] rows[i]),
            ),
        _ => exists|i: int|
            0 <= i < rows.len() && all_met(
                meaning,
                arena.exprs,
                predicates,
                side_by_side(arena, right_schema, left, #[trigger] rows[i]),
            ),
    }
}

/// Searching the right input of an application by its key does not change the mark: the rows that
/// hold the key in the column, among them alone, give the mark that all rows give.
pub proof fn searching_keeps_the_mark(
    meaning: Meaning,
    arena: ArenaView,
    kind: MarkApplyKind,
    predicates: Seq<ExprRef>,
    left_schema: Seq<ColumnRef>,
    right_schema: Seq<ColumnRef>,
    left: Row,
    rows: Seq<Row>,
    found: Seq<Row>,
)
    requires
        equates(meaning),
        arena.wf(),
        arena.has_exprs(predicates),
        apply_probe(arena, kind, predicates, left_schema, right_schema) is Some,
        forall|row: Row| #[trigger] found.contains(row) ==> rows.contains(row),
        ({
            let (column, key) = apply_probe(
                arena,
                kind,
                predicates,
                left_schema,
                right_schema,
            )->0;
            forall|row: Row| #[trigger]
                rows.contains(row) && row(column) == value_of(
                    meaning,
                    arena.exprs,
                    key,
                    by_column(left),
                ) ==> found.contains(row)
        }),
    ensures
        marked(meaning, arena, kind, predicates, right_schema, left, found) == marked(
            meaning,
            arena,
            kind,
            predicates,
            right_schema,
            left,
            rows,
        ),
{
    let (column, key) = apply_probe(arena, kind, predicates, left_schema, right_schema)->0;
    lemma_first_probe(arena, predicates, left_schema, right_schema);
    let i = choose|i: int|
        0 <= i < predicates.len() && predicate_probe(
            arena,
            #[trigger] predicates[i],
            left_schema,
            right_schema,
        ) == Some((column, key));
    assert(0 <= i < predicates.len() && predicate_probe(
        arena,
        predicates[i],
        left_schema,
        right_schema,
    ) == Some((column, key))) by {
        if kind is Quantified {
            assert(predicate_probe(arena, predicates[0], left_schema, right_schema) == Some(
                (column, key),
            ));
        }
    }
    if marked(meaning, arena, kind, predicates, right_schema, left, rows) {
        let k = choose|k: int|
            0 <= k < rows.len() && all_met(
                meaning,
                arena.exprs,
                predicates,
                side_by_side(arena, right_schema, left, #[trigger] rows[k]),
            );
        assert(met(
            meaning,
            arena.exprs,
            predicates[i],
            side_by_side(arena, right_schema, left, rows[k]),
        ));
        assert(arena.has_expr(predicates[i]));
        probe_holds_wherever_the_predicate_does(
            meaning,
            arena,
            predicates[i],
            left_schema,
            right_schema,
            left,
            rows[k],
        );
        assert(rows.contains(rows[k]));
        assert(found.contains(rows[k]));
        assert(found[found.index_of(rows[k])] == rows[k]);
    }
    if marked(meaning, arena, kind, predicates, right_schema, left, found) {
        let k = choose|k: int|
            0 <= k < found.len() && all_met(
                meaning,
                arena.exprs,
                predicates,
                side_by_side(arena, right_schema, left, #[trigger] found[k]),
            );
        assert(found.contains(found[k]));
        assert(rows[rows.index_of(found[k])] == found[k]);
    }
}

/// The scan that a plan is searched at: the one below all its other operators.
pub open spec fn lowest_scan(plan: PlanView) -> Option<TableScanView>
    decreases plan,
{
    match (plan.operator, plan.children) {
        (OperatorView::TableScan(scan), _) => Some(scan),
        (_, ChildrenView::Only(child)) => lowest_scan(*child),
        _ => None,
    }
}

/// A plan that is searched by a column is searched by an index of the table of the column whose
/// first column it is. That index is told so; nothing else about the scan changes.
pub proof fn searched_index_starts_with_the_column(
    plan: PlanView,
    column: ColumnRef,
    arena: ArenaView,
)
    ensures
        probed(plan, column, arena) matches Some(res) ==> (lowest_scan(plan) matches Some(before)
            && lowest_scan(res) matches Some(after) && exists|i: int|
            {
                &&& 0 <= i < before.index_infos.len()
                &&& after.index_infos == before.index_infos.update(
                    i,
                    IndexInfoView { lookup: Some(IndexLookupView::Probe), ..before.index_infos[i] },
                )
                &&& after == (TableScanView { index_infos: after.index_infos, ..before })
                &&& ({
                    let meta = arena.indexes[(#[trigger] before.index_infos[i]).meta.0 as int];
                    &&& meta.column_ids.len() > 0
                    &&& arena.columns[column.0 as int].id == Some(meta.column_ids[0])
                    &&& arena.columns[column.0 as int].table == Some(meta.table_name)
                    &&& before.table_name == meta.table_name
                })
            }),
    decreases plan,
{
    match plan.operator {
        OperatorView::TableScan(scan) => {
            let own = arena.columns[column.0 as int];
            if own.table is Some && own.id is Some {
                best_index_is_first_best(arena, scan.index_infos, own.table->0, own.id->0);
            }
            if let Some(res) = probed(plan, column, arena) {
                let i = (crate::optimizer::rule::normalization::parameterized_index::scan_probe(
                    arena,
                    scan,
                    column,
                )->0) as int;
                let after = lowest_scan(res)->0;
                assert(after.index_infos == scan.index_infos.update(
                    i,
                    IndexInfoView { lookup: Some(IndexLookupView::Probe), ..scan.index_infos[i] },
                ));
            }
        },
        _ => {
            if let ChildrenView::Only(child) = plan.children {
                searched_index_starts_with_the_column(*child, column, arena);
            }
        },
    }
}

/// Whether a pair of an outer and an inner row agrees on a key.
pub open spec fn agrees(
    meaning: Meaning,
    arena: ArenaView,
    key: (ExprRef, ExprRef),
    outer: Row,
    inner: Row,
) -> bool {
    value_of(meaning, arena.exprs, key.0, by_column(outer)) == value_of(
        meaning,
        arena.exprs,
        key.1,
        by_column(inner),
    )
}

/// Whether a pair of an outer and an inner row agrees on all keys.
pub open spec fn all_agree(
    meaning: Meaning,
    arena: ArenaView,
    keys: Seq<(ExprRef, ExprRef)>,
    outer: Row,
    inner: Row,
) -> bool {
    forall|i: int| 0 <= i < keys.len() ==> agrees(meaning, arena, #[trigger] keys[i], outer, inner)
}

/// The value that keys set a column to is the value of the column in every inner row that agrees on
/// the keys, and it has the type of the column.
pub proof fn key_value_is_the_value_of_the_column(
    meaning: Meaning,
    arena: ArenaView,
    candidate: ColumnRef,
    keys: Seq<(ExprRef, ExprRef)>,
    outer: Row,
    inner: Row,
)
    requires
        respects_columns(arena, inner),
        all_agree(meaning, arena, keys, outer, inner),
        forall|i: int| 0 <= i < keys.len() ==> arena.has_expr((#[trigger] keys[i]).1),
    ensures
        key_value(arena, candidate, keys) matches Some(value) ==> inner(candidate) == value_of(
            meaning,
            arena.exprs,
            value,
            by_column(outer),
        ) && type_of(arena, value) == arena.columns[candidate.0 as int].ty,
    decreases keys.len(),
{
    if keys.len() > 0 {
        let front = keys.drop_last();
        assert forall|i: int| 0 <= i < front.len() implies agrees(
            meaning,
            arena,
            #[trigger] front[i],
            outer,
            inner,
        ) && arena.has_expr(front[i].1) by {
            assert(front[i] == keys[i]);
        }
        key_value_is_the_value_of_the_column(meaning, arena, candidate, front, outer, inner);
        let last = keys.last();
        assert(last == keys[keys.len() - 1]);
        assert(agrees(meaning, arena, keys[keys.len() - 1], outer, inner));
        lemma_value_bare(meaning, arena.exprs, last.1, by_column(inner));
        lemma_bare_bounded(arena.exprs, last.1);
    }
}

/// A column that has the number.
proof fn lemma_scan_slot(arena: ArenaView, columns: Seq<ColumnRef>, column_id: ColumnId)
    ensures
        scan_slot(arena, columns, column_id) matches Some(slot) ==> slot < columns.len()
            && arena.columns[columns[slot as int].0 as int].id == Some(column_id),
    decreases columns.len(),
{
    if columns.len() > 0 {
        lemma_scan_slot(arena, columns.drop_last(), column_id);
    }
}

/// Whether an inner row holds the values of a search in the columns of an index, in their order.
pub open spec fn holds_key(
    meaning: Meaning,
    arena: ArenaView,
    columns: Seq<ColumnRef>,
    column_ids: Seq<ColumnId>,
    probe: Seq<ExprRef>,
    outer: Row,
    inner: Row,
) -> bool {
    &&& probe.len() == column_ids.len()
    &&& forall|i: int|
        0 <= i < column_ids.len() ==> exists|column: ColumnRef|
            {
                &&& #[trigger] columns.contains(column)
                &&& arena.columns[column.0 as int].id == Some(#[trigger] column_ids[i])
                &&& inner(column) == value_of(meaning, arena.exprs, probe[i], by_column(outer))
            }
}

/// An index is searched by a key that every inner row that agrees on the join keys holds in the
/// columns of the index, each value at the place of its column.
pub proof fn index_key_is_held_by_every_match(
    meaning: Meaning,
    arena: ArenaView,
    columns: Seq<ColumnRef>,
    column_ids: Seq<ColumnId>,
    keys: Seq<(ExprRef, ExprRef)>,
    outer: Row,
    inner: Row,
)
    requires
        respects_columns(arena, inner),
        all_agree(meaning, arena, keys, outer, inner),
        forall|i: int| 0 <= i < keys.len() ==> arena.has_expr((#[trigger] keys[i]).1),
    ensures
        index_probe(arena, columns, column_ids, keys) matches Some(probe) ==> holds_key(
            meaning,
            arena,
            columns,
            column_ids,
            probe,
            outer,
            inner,
        ),
    decreases column_ids.len(),
{
    if column_ids.len() > 0 {
        let front = column_ids.drop_last();
        index_key_is_held_by_every_match(meaning, arena, columns, front, keys, outer, inner);
        if let Some(probe) = index_probe(arena, columns, column_ids, keys) {
            let before = index_probe(arena, columns, front, keys)->0;
            lemma_scan_slot(arena, columns, column_ids.last());
            let at = scan_slot(arena, columns, column_ids.last())->0;
            let own = columns[at as int];
            key_value_is_the_value_of_the_column(meaning, arena, own, keys, outer, inner);
            assert(probe == before.push(key_value(arena, own, keys)->0));
            assert forall|i: int| 0 <= i < column_ids.len() implies exists|column: ColumnRef|
                {
                    &&& #[trigger] columns.contains(column)
                    &&& arena.columns[column.0 as int].id == Some(#[trigger] column_ids[i])
                    &&& inner(column) == value_of(meaning, arena.exprs, probe[i], by_column(outer))
                } by {
                if i < front.len() {
                    assert(front[i] == column_ids[i]);
                    let column = choose|column: ColumnRef|
                        {
                            &&& #[trigger] columns.contains(column)
                            &&& arena.columns[column.0 as int].id == Some(front[i])
                            &&& inner(column) == value_of(
                                meaning,
                                arena.exprs,
                                before[i],
                                by_column(outer),
                            )
                        };
                    assert(columns.contains(column));
                } else {
                    assert(columns.contains(own));
                }
            }
        }
    }
}

/// An equality with a constant that holds is a key on which every pair of rows agrees.
proof fn lemma_constant_key(
    meaning: Meaning,
    arena: ArenaView,
    expr: ExprRef,
    outer: Row,
    inner: Row,
)
    requires
        equates(meaning),
        arena.wf(),
        arena.has_expr(expr),
        met(meaning, arena.exprs, expr, by_column(inner)),
    ensures
        all_agree(meaning, arena, constant_key(arena.exprs, expr), outer, inner),
        forall|i: int|
            0 <= i < constant_key(arena.exprs, expr).len() ==> arena.has_expr(
                (#[trigger] constant_key(arena.exprs, expr)[i]).1,
            ),
{
    let exprs = arena.exprs;
    let node = exprs[expr.0 as int];
    if constant_key(exprs, expr).len() > 0 {
        assert(exprs[expr.0 as int].children[0].0 < expr.0);
        assert(exprs[expr.0 as int].children[1].0 < expr.0);
        lemma_equality_holds(meaning, exprs, expr, by_column(inner));
    }
}

/// Equalities with constants that hold are keys on which every pair of rows agrees.
proof fn lemma_constant_keys(
    meaning: Meaning,
    arena: ArenaView,
    parts: Seq<ExprRef>,
    outer: Row,
    inner: Row,
)
    requires
        equates(meaning),
        arena.wf(),
        arena.has_exprs(parts),
        all_met(meaning, arena.exprs, parts, by_column(inner)),
    ensures
        all_agree(meaning, arena, constant_keys_of(arena.exprs, parts), outer, inner),
        forall|i: int|
            0 <= i < constant_keys_of(arena.exprs, parts).len() ==> arena.has_expr(
                (#[trigger] constant_keys_of(arena.exprs, parts)[i]).1,
            ),
    decreases parts.len(),
{
    if parts.len() > 0 {
        let front = parts.drop_last();
        assert forall|i: int| 0 <= i < front.len() implies met(
            meaning,
            arena.exprs,
            #[trigger] front[i],
            by_column(inner),
        ) && arena.has_expr(front[i]) by {
            assert(front[i] == parts[i]);
        }
        lemma_constant_keys(meaning, arena, front, outer, inner);
        let last = parts[parts.len() - 1];
        assert(arena.has_expr(last));
        lemma_constant_key(meaning, arena, last, outer, inner);
        lemma_agree_concat(
            meaning,
            arena,
            constant_keys_of(arena.exprs, front),
            constant_key(arena.exprs, last),
            outer,
            inner,
        );
    }
}

/// Rows that agree on two lists of keys agree on both together.
proof fn lemma_agree_concat(
    meaning: Meaning,
    arena: ArenaView,
    first: Seq<(ExprRef, ExprRef)>,
    second: Seq<(ExprRef, ExprRef)>,
    outer: Row,
    inner: Row,
)
    requires
        all_agree(meaning, arena, first, outer, inner),
        all_agree(meaning, arena, second, outer, inner),
        forall|i: int| 0 <= i < first.len() ==> arena.has_expr((#[trigger] first[i]).1),
        forall|i: int| 0 <= i < second.len() ==> arena.has_expr((#[trigger] second[i]).1),
    ensures
        all_agree(meaning, arena, first + second, outer, inner),
        forall|i: int|
            0 <= i < (first + second).len() ==> arena.has_expr((#[trigger] (first + second)[i]).1),
{
    let both = first + second;
    assert forall|i: int| 0 <= i < both.len() implies agrees(
        meaning,
        arena,
        #[trigger] both[i],
        outer,
        inner,
    ) && arena.has_expr(both[i].1) by {
        if i < first.len() {
            assert(both[i] == first[i]);
        } else {
            assert(both[i] == second[i - first.len()]);
        }
    }
}

/// The first index that is searched is searched by its key.
proof fn lemma_first_probed_key(
    arena: ArenaView,
    columns: Seq<ColumnRef>,
    infos: Seq<IndexInfoView>,
    keys: Seq<(ExprRef, ExprRef)>,
)
    ensures
        first_probed(arena, columns, infos, keys) matches Some((position, probe)) ==> position
            < infos.len() && index_probe(
            arena,
            columns,
            arena.indexes[infos[position as int].meta.0 as int].column_ids,
            keys,
        ) == Some(probe),
    decreases infos.len(),
{
    if infos.len() > 0 {
        lemma_first_probed_key(arena, columns, infos.drop_last(), keys);
    }
}

/// Whether a scan differs from another one in that it searches one of its indexes, and an inner row
/// holds the key of the search in all columns of that index.
pub open spec fn searched_at(
    meaning: Meaning,
    arena: ArenaView,
    before: TableScanView,
    after: TableScanView,
    probe: Seq<ExprRef>,
    outer: Row,
    inner: Row,
    i: int,
) -> bool {
    &&& 0 <= i < before.index_infos.len()
    &&& after.index_infos == before.index_infos.update(
        i,
        IndexInfoView {
            lookup: Some(IndexLookupView::Probe),
            residual_predicate: None,
            ..before.index_infos[i]
        },
    )
    &&& after == (TableScanView { index_infos: after.index_infos, ..before })
    &&& before.limit == (None::<usize>, None::<usize>)
    &&& holds_key(
        meaning,
        arena,
        before.columns,
        arena.indexes[before.index_infos[i].meta.0 as int].column_ids,
        probe,
        outer,
        inner,
    )
}

/// Whether a plan searches an index of its scan by a key that an inner row holds, and the scan
/// differs in that alone.
pub open spec fn searched(
    meaning: Meaning,
    arena: ArenaView,
    before: PlanView,
    after: PlanView,
    probe: Seq<ExprRef>,
    outer: Row,
    inner: Row,
) -> bool {
    &&& lowest_scan(before) is Some
    &&& lowest_scan(after) is Some
    &&& exists|i: int| #[trigger]
        searched_at(
            meaning,
            arena,
            lowest_scan(before)->0,
            lowest_scan(after)->0,
            probe,
            outer,
            inner,
            i,
        )
}

/// A plan that is searched by join keys finds every row that it delivered and that agrees on the
/// keys: such a row holds the key of the search in all columns of the index that is searched. The
/// scan differs in that index alone.
pub proof fn searched_plan_finds_every_match(
    meaning: Meaning,
    plan: PlanView,
    keys: Seq<(ExprRef, ExprRef)>,
    arena: ArenaView,
    outer: Row,
    inner: Row,
)
    requires
        equates(meaning),
        conjoins(meaning),
        arena.wf(),
        plan.valid(arena),
        respects_columns(arena, inner),
        all_agree(meaning, arena, keys, outer, inner),
        forall|i: int| 0 <= i < keys.len() ==> arena.has_expr((#[trigger] keys[i]).1),
        all_met(meaning, arena.exprs, filter_predicates(plan), by_column(inner)),
    ensures
        parameterized(plan, keys, arena) matches Some((res, probe)) ==> searched(
            meaning,
            arena,
            plan,
            res,
            probe,
            outer,
            inner,
        ),
    decreases plan,
{
    match (plan.operator, plan.children) {
        (OperatorView::Filter(filter), ChildrenView::Only(child)) => {
            let exprs = arena.exprs;
            let list = filter_predicates(plan);
            assert(list[0] == filter.predicate);
            assert(met(meaning, exprs, list[0], by_column(inner)));
            let parts = conjuncts(exprs, filter.predicate);
            conjunction_holds_with_its_parts(meaning, exprs, filter.predicate, by_column(inner));
            lemma_conjuncts_bounded(exprs, filter.predicate);
            assert(arena.has_exprs(parts));
            lemma_constant_keys(meaning, arena, parts, outer, inner);
            lemma_agree_concat(
                meaning,
                arena,
                keys,
                constant_keys_of(exprs, parts),
                outer,
                inner,
            );
            assert(all_met(meaning, exprs, filter_predicates(*child), by_column(inner))) by {
                let rest = filter_predicates(*child);
                assert forall|i: int| 0 <= i < rest.len() implies met(
                    meaning,
                    exprs,
                    #[trigger] rest[i],
                    by_column(inner),
                ) by {
                    assert(list[i + 1] == rest[i]);
                }
            }
            assert(plan.children.valid(arena));
            searched_plan_finds_every_match(
                meaning,
                *child,
                keys + constant_keys_of(exprs, parts),
                arena,
                outer,
                inner,
            );
            if let Some((res, probe)) = parameterized(plan, keys, arena) {
                let below = parameterized(
                    *child,
                    keys + constant_keys_of(exprs, parts),
                    arena,
                )->0;
                assert(*res.children->Only_0 == below.0 && probe == below.1);
                assert(lowest_scan(res) == lowest_scan(below.0));
                assert(lowest_scan(plan) == lowest_scan(*child));
            }
        },
        (OperatorView::TableScan(scan), _) => {
            lemma_first_probed_key(arena, scan.columns, scan.index_infos, keys);
            if let Some((res, probe)) = parameterized(plan, keys, arena) {
                let position = (first_probed(arena, scan.columns, scan.index_infos, keys)->0).0;
                let i = position as int;
                let meta = arena.indexes[scan.index_infos[i].meta.0 as int];
                index_key_is_held_by_every_match(
                    meaning,
                    arena,
                    scan.columns,
                    meta.column_ids,
                    keys,
                    outer,
                    inner,
                );
                let after = lowest_scan(res)->0;
                assert(after.index_infos =~= scan.index_infos.update(
                    i,
                    IndexInfoView {
                        lookup: Some(IndexLookupView::Probe),
                        residual_predicate: None,
                        ..scan.index_infos[i]
                    },
                ));
                assert(lowest_scan(plan) == Some(scan));
                assert(res.operator is TableScan);
                assert(lowest_scan(res) == Some(after));
                let own = lowest_scan(plan)->0;
                assert(own == scan);
                assert(searched_at(meaning, arena, own, after, probe, outer, inner, i));
            }
        },
        _ => {
            assert(parameterized(plan, keys, arena) is None);
        },
    }
}

/// The second parts of the keys.
pub open spec fn second_parts(keys: Seq<(ExprRef, ExprRef)>) -> Seq<ExprRef> {
    keys.map_values(|key: (ExprRef, ExprRef)| key.1)
}

/// Whether a node is the equality of the parts of a key.
pub open spec fn is_key_equality(
    exprs: Seq<ExprView>,
    refs: Seq<ExprRef>,
    start: nat,
    keys: Seq<(ExprRef, ExprRef)>,
    i: int,
) -> bool {
    &&& refs[i].0 == start + i
    &&& exprs[start + i].children == seq![keys[i].0, keys[i].1]
    &&& exprs[start + i].head matches ExprHead::Binary { op, .. } && op == BinaryOperator::Eq
}

/// Building the equalities of keys moves the references of their second parts, one after the other,
/// and adds the equalities.
pub proof fn lemma_key_predicates(
    exprs: Seq<ExprView>,
    keys: Seq<(ExprRef, ExprRef)>,
    left_len: nat,
)
    requires
        forall|i: int| 0 <= i < keys.len() ==> (#[trigger] keys[i]).1.0 < exprs.len(),
        key_predicates(exprs, keys, left_len).0.len() <= usize::MAX,
    ensures
        ({
            let (after, refs) = key_predicates(exprs, keys, left_len);
            let n = exprs.len();
            &&& after.len() == n + keys.len()
            &&& after.take(n as int) == shift_all(exprs, second_parts(keys), n, left_len as int)
            &&& refs.len() == keys.len()
            &&& forall|i: int|
                0 <= i < keys.len() ==> #[trigger] is_key_equality(after, refs, n, keys, i)
        }),
    decreases keys.len(),
{
    let n = exprs.len();
    let delta = left_len as int;
    if keys.len() == 0 {
        assert(second_parts(keys) =~= Seq::empty());
        assert(exprs.take(n as int) =~= exprs);
    } else {
        let front = keys.drop_last();
        let last = keys.last();
        assert(last == keys[keys.len() - 1]);
        assert forall|i: int| 0 <= i < front.len() implies (#[trigger] front[i]).1.0 < n by {
            assert(front[i] == keys[i]);
        }
        let (sofar, before) = key_predicates(exprs, front, left_len);
        let moved = shift_expr(sofar, last.1, delta);
        lemma_shift_below(sofar, last.1, delta);
        let (after, refs) = key_predicates(exprs, keys, left_len);
        assert(after.len() == moved.len() + 1);
        lemma_key_predicates(exprs, front, left_len);
        lemma_shift_prefix(sofar, last.1, n, delta);
        assert(after.take(n as int) =~= moved.take(n as int));
        assert(second_parts(keys).drop_last() =~= second_parts(front));
        assert(second_parts(keys).last() == last.1);
        assert(shift_all(exprs, second_parts(keys), n, delta) == shift_expr(
            shift_all(exprs, second_parts(front), n, delta),
            last.1,
            delta,
        ));
        assert(after.take(n as int) == shift_all(exprs, second_parts(keys), n, delta));
        assert(refs.len() == keys.len());
        assert forall|i: int| 0 <= i < keys.len() implies #[trigger] is_key_equality(
            after,
            refs,
            n,
            keys,
            i,
        ) by {
            if i < front.len() {
                assert(is_key_equality(sofar, before, n, front, i));
                assert(refs[i] == before[i]);
                assert(front[i] == keys[i]);
                assert(moved[n + i] == sofar[n + i]);
            } else {
                assert(refs[i].0 == moved.len());
            }
        }
    }
}

/// The equalities of keys over a joined row mean what the keys mean over its parts: each is an
/// equality of the value that the first part has on the left row with the value that the second part
/// has on the right row.
pub proof fn key_predicates_compare_the_keys(
    meaning: Meaning,
    exprs: Seq<ExprView>,
    keys: Seq<(ExprRef, ExprRef)>,
    i: int,
    l: Seq<DataValueView>,
    r: Seq<DataValueView>,
)
    requires
        columns_are_leaves(exprs),
        0 <= i < keys.len(),
        forall|k: int|
            0 <= k < keys.len() ==> (#[trigger] keys[k]).0.0 < exprs.len() && keys[k].1.0
                < exprs.len(),
        column_nodes_all(exprs, second_parts(keys), exprs.len()).no_duplicates(),
        forall|node: ExprRef| #[trigger]
            column_nodes(exprs, keys[i].0).contains(node) ==> slot(exprs, node) < l.len()
                && !column_nodes_all(exprs, second_parts(keys), exprs.len()).contains(node),
        forall|node: ExprRef| #[trigger]
            column_nodes(exprs, keys[i].1).contains(node) ==> slot(exprs, node) < r.len(),
        l.len() + r.len() <= usize::MAX,
        key_predicates(exprs, keys, l.len()).0.len() <= usize::MAX,
    ensures
        ({
            let (after, refs) = key_predicates(exprs, keys, l.len());
            let node = after[refs[i].0 as int];
            &&& node.head matches ExprHead::Binary { op, .. } && op == BinaryOperator::Eq
            &&& value_of(meaning, after, refs[i], by_position(l + r)) == meaning(
                node.head,
                seq![
                    value_of(meaning, exprs, keys[i].0, by_position(l)),
                    value_of(meaning, exprs, keys[i].1, by_position(r)),
                ],
            )
        }),
{
    let n = exprs.len();
    let delta = l.len() as int;
    let list = second_parts(keys);
    let (after, refs) = key_predicates(exprs, keys, l.len());
    lemma_key_predicates(exprs, keys, l.len());
    let shifted = shift_all(exprs, list, n, delta);
    lemma_shift_structure_all(exprs, list, n, delta);
    assert(shifted.is_prefix_of(after)) by {
        assert(after.take(n as int) == shifted);
    }
    let key = keys[i];
    assert(is_key_equality(after, refs, n, keys, i));
    assert(list[i] == key.1);
    let row = by_position(l + r);
    assert forall|node: ExprRef| #[trigger] column_nodes(exprs, list[i]).contains(node) implies 0
        <= slot(exprs, node) + delta <= usize::MAX && (l + r)[slot(exprs, node) + delta]
        == r[slot(exprs, node)] by {
        lemma_column_nodes(exprs, key.1);
    }
    shifted_expression_reads_shifted_rows(meaning, exprs, list, delta, i, r, l + r);
    lemma_value_extend(meaning, shifted, after, key.1, row);
    other_expressions_keep_their_values(meaning, exprs, list, delta, key.0, row);
    lemma_value_extend(meaning, shifted, after, key.0, row);
    assert forall|node: ExprRef| #[trigger] column_nodes(exprs, key.0).contains(node) implies value_of(
        meaning,
        exprs,
        node,
        row,
    ) == value_of(meaning, exprs, node, by_position(l)) by {
        lemma_column_nodes(exprs, key.0);
        let nodes = column_nodes(exprs, key.0);
        assert(is_column(exprs, nodes[nodes.index_of(node)]));
        assert(slot(exprs, node) < l.len());
    }
    lemma_value_agrees(meaning, exprs, key.0, row, by_position(l));
    let node = after[refs[i].0 as int];
    lemma_values_of(meaning, after, node.children, refs[i].0 as nat, row);
    assert(values_of(meaning, after, node.children, refs[i].0 as nat, row) =~= seq![
        value_of(meaning, exprs, key.0, by_position(l)),
        value_of(meaning, exprs, key.1, by_position(r)),
    ]);
}

} // verus!
