//! Tables in a query: what their scans know of their indexes, and columns under another name.

use crate::binder::scan::{
    find_id, index_order, index_order_follows_index, named_columns, ordered_infos, scan_view,
};
use crate::catalog::{ColumnRef, TableCatalog};
use crate::expression::meaning::{by_position, lemma_value_extend, value_of, Meaning};
use crate::expression::ExprHead;
use crate::planner::arena::{ArenaView, ExprRef};
use crate::planner::operator::{OperatorView, SortOptionView};
use crate::planner::schema::column_for;
use crate::types::index::IndexMetaRef;
use crate::types::value::DataValueView;
use crate::types::ColumnId;
use vstd::prelude::*;

verus! {

/// The column that is found has the number, and no column before it has.
pub proof fn found_column_has_the_number(
    arena: ArenaView,
    columns: Seq<ColumnRef>,
    id: ColumnId,
    from: int,
)
    requires
        0 <= from,
    ensures
        match find_id(arena, columns, id, from) {
            Some(at) => from <= at < columns.len() && arena.columns[columns[at].0 as int].id
                == Some(id) && forall|i: int|
                from <= i < at ==> arena.columns[(#[trigger] columns[i]).0 as int].id != Some(id),
            None => forall|i: int|
                from <= i < columns.len() ==> arena.columns[(#[trigger] columns[i]).0 as int].id
                    != Some(id),
        },
    decreases columns.len() - from,
{
    if from < columns.len() && arena.columns[columns[from].0 as int].id != Some(id) {
        found_column_has_the_number(arena, columns, id, from + 1);
    }
}

/// Whether the expression reads the column of the number from rows with the columns.
pub open spec fn reads_number(
    arena: ArenaView,
    expr: ExprRef,
    columns: Seq<ColumnRef>,
    id: ColumnId,
) -> bool {
    &&& expr.0 < arena.exprs.len()
    &&& arena.exprs[expr.0 as int].head matches ExprHead::ColumnRef { column, position } && position
        < columns.len() && columns[position as int] == column && arena.columns[column.0 as int].id
        == Some(id)
}

proof fn lemma_order_bounds(arena: ArenaView, columns: Seq<ColumnRef>, ids: Seq<ColumnId>)
    requires
        arena.exprs.len() + ids.len() <= usize::MAX,
    ensures
        ({
            let (fields, after) = index_order(arena, columns, ids);
            &&& fields.len() <= ids.len()
            &&& after.exprs.len() == arena.exprs.len() + fields.len()
            &&& arena.exprs.is_prefix_of(after.exprs)
            &&& after.columns == arena.columns
            &&& after.indexes == arena.indexes
            &&& forall|k: int|
                0 <= k < fields.len() ==> (#[trigger] fields[k]).expr.0 < after.exprs.len()
        }),
    decreases ids.len(),
{
    if ids.len() > 0 {
        lemma_order_bounds(arena, columns, ids.drop_last());
        let (fields, before) = index_order(arena, columns, ids.drop_last());
        let (all, after) = index_order(arena, columns, ids);
        assert(arena.exprs =~= after.exprs.take(arena.exprs.len() as int)) by {
            assert(before.exprs.take(arena.exprs.len() as int) =~= arena.exprs);
        }
    }
}

/// The order of an index is ascending by the columns of the index, from the first on, and goes as far
/// as the table has them.
pub proof fn index_order_goes_by_its_columns(
    arena: ArenaView,
    columns: Seq<ColumnRef>,
    ids: Seq<ColumnId>,
    i: int,
)
    requires
        arena.exprs.len() + ids.len() <= usize::MAX,
        columns.len() <= usize::MAX,
        0 <= i < ids.len(),
    ensures
        ({
            let (fields, after) = index_order(arena, columns, ids);
            &&& i < fields.len() ==> fields[i].asc && !fields[i].nulls_first && reads_number(
                after,
                fields[i].expr,
                columns,
                ids[i],
            )
            &&& i == fields.len() ==> forall|k: int|
                0 <= k < columns.len() ==> arena.columns[(#[trigger] columns[k]).0 as int].id
                    != Some(ids[i])
        }),
    decreases ids.len(),
{
    let (fields, after) = index_order(arena, columns, ids);
    lemma_order_bounds(arena, columns, ids);
    found_column_has_the_number(arena, columns, ids[i], 0);
    if i < fields.len() {
        index_order_follows_index(arena, columns, ids, i);
    } else if i == fields.len() {
        lemma_order_stops(arena, columns, ids);
    }
}

proof fn lemma_order_stops(arena: ArenaView, columns: Seq<ColumnRef>, ids: Seq<ColumnId>)
    requires
        index_order(arena, columns, ids).0.len() < ids.len(),
    ensures
        find_id(arena, columns, ids[index_order(arena, columns, ids).0.len() as int], 0) is None,
    decreases ids.len(),
{
    let front = ids.drop_last();
    let (fields, before) = index_order(arena, columns, front);
    if fields.len() < front.len() {
        lemma_order_stops(arena, columns, front);
        assert(front[fields.len() as int] == ids[fields.len() as int]);
    } else {
        lemma_order_most(arena, columns, front);
        assert(ids[front.len() as int] == ids.last());
    }
}

proof fn lemma_order_most(arena: ArenaView, columns: Seq<ColumnRef>, ids: Seq<ColumnId>)
    ensures
        index_order(arena, columns, ids).0.len() <= ids.len(),
    decreases ids.len(),
{
    if ids.len() > 0 {
        lemma_order_most(arena, columns, ids.drop_last());
    }
}

/// The number of columns of all indexes.
pub open spec fn all_ids(arena: ArenaView, indexes: Seq<IndexMetaRef>) -> nat
    decreases indexes.len(),
{
    if indexes.len() == 0 {
        0
    } else {
        all_ids(arena, indexes.drop_last()) + arena.indexes[indexes.last().0 as int].column_ids.len()
    }
}

/// A scan knows every index of its table, in their order, each with its own order and without a
/// lookup.
pub proof fn scan_knows_its_indexes(
    arena: ArenaView,
    columns: Seq<ColumnRef>,
    indexes: Seq<IndexMetaRef>,
    i: int,
    k: int,
)
    requires
        arena.exprs.len() + all_ids(arena, indexes) <= usize::MAX,
        columns.len() <= usize::MAX,
        0 <= i < indexes.len(),
    ensures
        ({
            let (infos, after) = ordered_infos(arena, columns, indexes);
            let ids = arena.indexes[indexes[i].0 as int].column_ids;
            &&& infos.len() == indexes.len()
            &&& infos[i].meta == indexes[i]
            &&& infos[i].lookup is None
            &&& infos[i].residual_predicate is None
            &&& infos[i].sort_option matches SortOptionView::OrderBy { fields, ignore_prefix_len }
                && ignore_prefix_len == 0 && fields.len() <= ids.len() && (0 <= k < fields.len()
                ==> fields[k].asc && !fields[k].nulls_first && reads_number(
                after,
                fields[k].expr,
                columns,
                ids[k],
            ))
            &&& after.exprs.len() <= arena.exprs.len() + all_ids(arena, indexes)
            &&& after.columns == arena.columns
            &&& after.indexes == arena.indexes
        }),
    decreases indexes.len(),
{
    let front = indexes.drop_last();
    let (infos, after) = ordered_infos(arena, columns, indexes);
    let (front_infos, before) = ordered_infos(arena, columns, front);
    if front.len() > 0 {
        let at: int = if i < front.len() {
            i
        } else {
            0
        };
        scan_knows_its_indexes(arena, columns, front, at, k);
    } else {
        assert(ordered_infos(arena, columns, front).0.len() == 0);
    }
    let last = arena.indexes[indexes.last().0 as int].column_ids;
    lemma_order_bounds(before, columns, last);
    if i < front.len() {
        assert(front[i] == indexes[i]);
        assert(infos[i] == front_infos[i]);
        let fields = infos[i].sort_option->fields;
        if 0 <= k < fields.len() {
            let expr = fields[k].expr;
            assert(after.exprs[expr.0 as int] == before.exprs[expr.0 as int]);
        }
    } else {
        let fields = infos[i].sort_option->fields;
        if 0 <= k < fields.len() {
            index_order_goes_by_its_columns(before, columns, last, k);
        }
    }
}

/// A scan reads all columns of its table, under the name of the table, and all of its rows.
pub proof fn scan_reads_the_whole_table(
    arena: ArenaView,
    table: TableCatalog,
    name: Seq<char>,
    with_pk: bool,
)
    ensures
        scan_view(arena, table, name, with_pk).0.operator matches OperatorView::TableScan(scan)
            && scan.table_name == name && scan.columns == table.columns@ && scan.limit.0 is None
            && scan.limit.1 is None && scan.with_pk == with_pk,
        scan_view(arena, table, name, with_pk).0.children is Leaf,
{
}

/// A table that goes by another name is read column by column: each expression has the value at its
/// own place and makes the column of its own place, which is like that of the table but goes by the
/// other name.
pub proof fn named_columns_are_read_in_order(
    meaning: Meaning,
    arena: ArenaView,
    columns: Seq<ColumnRef>,
    alias: Seq<char>,
    values: Seq<DataValueView>,
    i: int,
)
    requires
        arena.exprs.len() + 3 * columns.len() <= usize::MAX,
        arena.columns.len() + columns.len() <= usize::MAX,
        arena.has_columns(columns),
        0 <= i < columns.len(),
    ensures
        ({
            let (own, exprs, after) = named_columns(arena, columns, alias);
            let made = after.columns[own[i].0 as int];
            let read = arena.columns[columns[i].0 as int];
            &&& own.len() == columns.len()
            &&& exprs.len() == columns.len()
            &&& arena.columns.is_prefix_of(after.columns)
            &&& after.columns.len() == arena.columns.len() + columns.len()
            &&& after.exprs.len() == arena.exprs.len() + 3 * columns.len()
            &&& value_of(meaning, after.exprs, exprs[i], by_position(values)) == values[i]
            &&& column_for(after, exprs[i]) == (own[i], after)
            &&& exprs[i].0 < after.exprs.len()
            &&& own[i].0 < after.columns.len()
            &&& made.table == Some(alias)
            &&& made.name == read.name
            &&& made.ty == read.ty
            &&& made.nullable == read.nullable
            &&& made.is_temp
            &&& read.id is Some ==> made.id == read.id
        }),
    decreases columns.len(),
{
    let front = columns.drop_last();
    let (own, exprs, after) = named_columns(arena, columns, alias);
    let (front_own, front_exprs, before) = named_columns(arena, front, alias);
    assert(arena.has_columns(front)) by {
        assert forall|k: int| 0 <= k < front.len() implies arena.has_column(
            #[trigger] front[k],
        ) by {
            assert(front[k] == columns[k]);
        }
    }
    assert(arena.has_column(columns[columns.len() - 1]));
    if front.len() > 0 {
        let at: int = if i < front.len() {
            i
        } else {
            0
        };
        named_columns_are_read_in_order(meaning, arena, front, alias, values, at);
    } else {
        assert(named_columns(arena, front, alias) == (
            Seq::<ColumnRef>::empty(),
            Seq::<ExprRef>::empty(),
            arena,
        ));
    }
    assert(arena.columns =~= after.columns.take(arena.columns.len() as int)) by {
        assert(before.columns.take(arena.columns.len() as int) =~= arena.columns);
    }
    if i < front.len() {
        assert(front[i] == columns[i]);
        assert(own[i] == front_own[i] && exprs[i] == front_exprs[i]);
        assert(before.exprs.is_prefix_of(after.exprs));
        lemma_value_extend(
            meaning,
            before.exprs,
            after.exprs,
            exprs[i],
            by_position(values),
        );
        assert(after.columns[own[i].0 as int] == before.columns[own[i].0 as int]);
        lemma_column_same(before, after, exprs[i], own[i]);
    } else {
        let first = before.exprs.len();
        let second = ExprRef((first + 1) as usize);
        let expr = exprs[i];
        assert(expr.0 == first + 2);
        assert(after.exprs[expr.0 as int].children[1] == second);
        assert(after.exprs[second.0 as int].head == ExprHead::ColumnRef {
            column: own[i],
            position: i as usize,
        });
        assert(value_of(meaning, after.exprs, second, by_position(values)) == values[i]);
        assert(column_for(after, second) == (own[i], after));
    }
}

/// An expression that makes a column that is there makes the same one when the arena grows.
proof fn lemma_column_same(before: ArenaView, after: ArenaView, expr: ExprRef, column: ColumnRef)
    requires
        before.exprs.is_prefix_of(after.exprs),
        expr.0 < before.exprs.len(),
        column_for(before, expr) == (column, before),
    ensures
        column_for(after, expr) == (column, after),
    decreases expr.0,
{
    let node = before.exprs[expr.0 as int];
    assert(after.exprs[expr.0 as int] == node);
    match node.head {
        ExprHead::AliasExpr if node.children.len() == 2 && node.children[1].0 < expr.0 => {
            lemma_column_same(before, after, node.children[1], column);
        },
        ExprHead::ColumnRef { .. } => {},
        _ => {
            assert(column_for(before, expr).1.columns.len() == before.columns.len() + 1);
        },
    }
}

} // verus!
