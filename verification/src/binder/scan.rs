//! Scans: a table of the catalog as a query first knows it.

use crate::binder::column_view;
use crate::binder::plan::{leaf, over};
use crate::catalog::{ColumnRef, ColumnView, TableCatalog, TableName};
use crate::expression::{AliasType, ExprHead, ExprView, ScalarExpression};
use crate::orm::scope::lemma_extended_trans;
use crate::planner::arena::{ArenaView, ExprRef, PlanArena};
use crate::planner::operator::sort::SortField;
use crate::planner::operator::table_scan::TableScanView;
use crate::planner::operator::{valid_fields, OperatorView, SortOption, SortOptionView};
use crate::planner::PlanView;
use crate::types::index::{info_views, IndexInfo, IndexInfoView, IndexMetaRef};
use crate::types::ColumnId;
use vstd::prelude::*;

verus! {

/// The first position, from one on, of the column with the number.
pub open spec fn find_id(
    arena: ArenaView,
    columns: Seq<ColumnRef>,
    id: ColumnId,
    from: int,
) -> Option<int>
    decreases columns.len() - from,
{
    if from < 0 || from >= columns.len() {
        None
    } else if arena.columns[columns[from].0 as int].id == Some(id) {
        Some(from)
    } else {
        find_id(arena, columns, id, from + 1)
    }
}

/// The order in which an index keeps the rows of a table, and the arena with its keys: ascending by
/// the columns of the index, as far as the table has them.
pub open spec fn index_order(
    arena: ArenaView,
    columns: Seq<ColumnRef>,
    ids: Seq<ColumnId>,
) -> (Seq<SortField>, ArenaView)
    decreases ids.len(),
{
    if ids.len() == 0 {
        (Seq::empty(), arena)
    } else {
        let (fields, before) = index_order(arena, columns, ids.drop_last());
        match find_id(arena, columns, ids.last(), 0) {
            Some(position) => if fields.len() == ids.len() - 1 {
                (
                    fields.push(
                        SortField {
                            expr: ExprRef(before.exprs.len() as usize),
                            asc: true,
                            nulls_first: false,
                        },
                    ),
                    before.push_expr(column_view(columns[position], position as usize)),
                )
            } else {
                (fields, before)
            },
            None => (fields, before),
        }
    }
}

/// An index as a scan first knows it.
pub open spec fn ordered_info(meta: IndexMetaRef, fields: Seq<SortField>) -> IndexInfoView {
    IndexInfoView {
        meta,
        sort_option: SortOptionView::OrderBy { fields, ignore_prefix_len: 0 },
        lookup: None,
        residual_predicate: None,
        covered_deserializers: None,
        cover_mapping: None,
        sort_elimination_hint: None,
        stream_aggregate_hint: None,
    }
}

/// The indexes of a scan, and the arena with the keys of their orders.
pub open spec fn ordered_infos(
    arena: ArenaView,
    columns: Seq<ColumnRef>,
    indexes: Seq<IndexMetaRef>,
) -> (Seq<IndexInfoView>, ArenaView)
    decreases indexes.len(),
{
    if indexes.len() == 0 {
        (Seq::empty(), arena)
    } else {
        let (infos, before) = ordered_infos(arena, columns, indexes.drop_last());
        let meta = indexes.last();
        let (fields, after) = index_order(
            before,
            columns,
            before.indexes[meta.0 as int].column_ids,
        );
        (infos.push(ordered_info(meta, fields)), after)
    }
}

/// A scan of all columns of a table, and the arena with the keys of its indexes.
pub open spec fn scan_view(
    arena: ArenaView,
    table: TableCatalog,
    name: Seq<char>,
    with_pk: bool,
) -> (PlanView, ArenaView) {
    let (index_infos, after) = ordered_infos(arena, table.columns@, table.indexes@);
    (
        leaf(
            OperatorView::TableScan(
                TableScanView {
                    table_name: name,
                    columns: table.columns@,
                    limit: (None, None),
                    index_infos,
                    with_pk,
                },
            ),
        ),
        after,
    )
}

/// A column of a table that goes by another name. Its number stays, or is its position where it
/// has none.
pub open spec fn renamed(column: ColumnView, alias: Seq<char>, position: int) -> ColumnView {
    ColumnView {
        table: Some(alias),
        id: match column.id {
            Some(id) => Some(id),
            None => Some(position as ColumnId),
        },
        is_temp: true,
        ..column
    }
}

/// Columns of their own for a table that goes by another name, the expressions that compute them
/// from the columns of the table, and the arena with both.
pub open spec fn named_columns(
    arena: ArenaView,
    columns: Seq<ColumnRef>,
    alias: Seq<char>,
) -> (Seq<ColumnRef>, Seq<ExprRef>, ArenaView)
    decreases columns.len(),
{
    if columns.len() == 0 {
        (Seq::empty(), Seq::empty(), arena)
    } else {
        let (own, exprs, before) = named_columns(arena, columns.drop_last(), alias);
        let position = columns.len() - 1;
        let column = ColumnRef(before.columns.len() as usize);
        let first = before.exprs.len();
        (
            own.push(column),
            exprs.push(ExprRef((first + 2) as usize)),
            before.push_column(
                renamed(before.columns[columns.last().0 as int], alias, position),
            ).push_expr(column_view(columns.last(), position as usize)).push_expr(
                column_view(column, position as usize),
            ).push_expr(
                ExprView {
                    head: ExprHead::AliasExpr,
                    children: seq![ExprRef(first as usize), ExprRef((first + 1) as usize)],
                },
            ),
        )
    }
}

/// A table of the catalog in a query: its plan, its columns, and the arena with what they refer to.
/// A table that is only read and goes by another name has columns of its own.
pub open spec fn source_view(
    arena: ArenaView,
    table: TableCatalog,
    name: Seq<char>,
    alias: Option<Seq<char>>,
    with_pk: bool,
) -> (PlanView, Seq<ColumnRef>, ArenaView) {
    let (scan, after) = scan_view(arena, table, name, with_pk);
    match alias {
        Some(alias) if !with_pk => {
            let (own, exprs, named) = named_columns(after, table.columns@, alias);
            (over(OperatorView::Project(exprs), scan), own, named)
        },
        _ => (scan, table.columns@, after),
    }
}

/// A table that goes by another name shares no column with what was there before.
pub proof fn named_columns_are_new(
    arena: ArenaView,
    columns: Seq<ColumnRef>,
    alias: Seq<char>,
    i: int,
)
    requires
        arena.columns.len() + columns.len() <= usize::MAX,
        0 <= i < columns.len(),
    ensures
        ({
            let (own, exprs, after) = named_columns(arena, columns, alias);
            &&& own.len() == columns.len()
            &&& own[i].0 == arena.columns.len() + i
            &&& after.columns.len() == arena.columns.len() + columns.len()
        }),
    decreases columns.len(),
{
    if columns.len() > 1 {
        let front = columns.drop_last();
        named_columns_are_new(
            arena,
            front,
            alias,
            if i < front.len() {
                i
            } else {
                0
            },
        );
    } else {
        assert(named_columns(arena, columns.drop_last(), alias).0 =~= Seq::empty());
    }
}

/// The order of an index names the columns of the index, from the first on and without a gap.
pub proof fn index_order_follows_index(
    arena: ArenaView,
    columns: Seq<ColumnRef>,
    ids: Seq<ColumnId>,
    i: int,
)
    requires
        arena.exprs.len() + ids.len() <= usize::MAX,
        columns.len() <= usize::MAX,
        0 <= i < index_order(arena, columns, ids).0.len(),
    ensures
        ({
            let (fields, after) = index_order(arena, columns, ids);
            &&& i < ids.len()
            &&& fields[i].asc && !fields[i].nulls_first
            &&& find_id(arena, columns, ids[i], 0) matches Some(position)
                && after.exprs[fields[i].expr.0 as int] == column_view(
                columns[position],
                position as usize,
            )
        }),
    decreases ids.len(),
{
    lemma_order_grows(arena, columns, ids);
    if ids.len() > 0 {
        let front = ids.drop_last();
        let (fields, before) = index_order(arena, columns, front);
        lemma_order_grows(arena, columns, front);
        if i < fields.len() {
            index_order_follows_index(arena, columns, front, i);
            assert(front[i] == ids[i]);
        }
    }
}

proof fn lemma_order_grows(arena: ArenaView, columns: Seq<ColumnRef>, ids: Seq<ColumnId>)
    requires
        arena.exprs.len() + ids.len() <= usize::MAX,
    ensures
        ({
            let (fields, after) = index_order(arena, columns, ids);
            &&& fields.len() <= ids.len()
            &&& after.exprs.len() == arena.exprs.len() + fields.len()
            &&& forall|k: int|
                0 <= k < fields.len() ==> (#[trigger] fields[k]).expr.0 < after.exprs.len()
        }),
    decreases ids.len(),
{
    if ids.len() > 0 {
        lemma_order_grows(arena, columns, ids.drop_last());
    }
}

fn position_of_id(columns: &Vec<ColumnRef>, id: ColumnId, arena: &PlanArena) -> (res: Option<usize>)
    requires
        arena@.has_columns(columns@),
    ensures
        res is Some <==> find_id(arena@, columns@, id, 0) is Some,
        res matches Some(i) ==> find_id(arena@, columns@, id, 0) == Some(i as int) && i
            < columns@.len(),
{
    let mut i: usize = 0;
    while i < columns.len()
        invariant
            i <= columns.len(),
            arena@.has_columns(columns@),
            find_id(arena@, columns@, id, 0) == find_id(arena@, columns@, id, i as int),
        decreases columns.len() - i,
    {
        assert(arena@.has_column(columns@[i as int]));
        if let Some(own) = arena.column(columns[i]).id() {
            if own == id {
                return Some(i);
            }
        }
        i += 1;
    }
    None
}

proof fn lemma_find_id(
    before: ArenaView,
    after: ArenaView,
    columns: Seq<ColumnRef>,
    id: ColumnId,
    from: int,
)
    requires
        before.columns == after.columns,
    ensures
        find_id(after, columns, id, from) == find_id(before, columns, id, from),
    decreases columns.len() - from,
{
    if 0 <= from < columns.len() {
        lemma_find_id(before, after, columns, id, from + 1);
    }
}

fn bind_order(columns: &Vec<ColumnRef>, meta: IndexMetaRef, arena: &mut PlanArena) -> (res: Vec<
    SortField,
>)
    requires
        old(arena)@.wf(),
        old(arena)@.has_columns(columns@),
        old(arena)@.has_index(meta),
    ensures
        (res@, final(arena)@) == index_order(
            old(arena)@,
            columns@,
            old(arena)@.indexes[meta.0 as int].column_ids,
        ),
        final(arena)@.wf(),
        old(arena)@.extended_by(final(arena)@),
        final(arena)@.columns == old(arena)@.columns,
        valid_fields(final(arena)@, res@),
{
    let ghost start = arena@;
    let ids: Vec<ColumnId> = arena.index(meta).column_ids.clone();
    assert(ids@ =~= start.indexes[meta.0 as int].column_ids);
    let mut fields: Vec<SortField> = Vec::new();
    let mut i: usize = 0;
    assert(ids@.take(0) =~= Seq::empty());
    while i < ids.len()
        invariant
            i <= ids.len(),
            start.has_columns(columns@),
            arena@.wf(),
            start.extended_by(arena@),
            arena@.columns == start.columns,
            fields@.len() <= i,
            (fields@, arena@) == index_order(start, columns@, ids@.take(i as int)),
            valid_fields(arena@, fields@),
        decreases ids.len() - i,
    {
        proof {
            let next = ids@.take(i + 1);
            assert(next.drop_last() =~= ids@.take(i as int));
            assert(next.last() == ids@[i as int]);
            lemma_find_id(start, arena@, columns@, ids@[i as int], 0);
        }
        if fields.len() == i {
            if let Some(position) = position_of_id(columns, ids[i], arena) {
                let ghost before = arena@;
                assert(start.has_column(columns@[position as int]));
                let expr = arena.alloc_expression(
                    ScalarExpression::ColumnRef { column: columns[position], position },
                );
                assert(arena@ == before.push_expr(
                    column_view(columns@[position as int], position),
                ));
                fields.push(SortField { expr, asc: true, nulls_first: false });
            }
        }
        i += 1;
    }
    assert(ids@.take(i as int) =~= ids@);
    fields
}

/// The indexes of a table, each with the order that it keeps.
pub fn bind_indexes(
    columns: &Vec<ColumnRef>,
    indexes: &Vec<IndexMetaRef>,
    arena: &mut PlanArena,
) -> (res: Vec<IndexInfo>)
    requires
        old(arena)@.wf(),
        old(arena)@.has_columns(columns@),
        forall|i: int| 0 <= i < indexes@.len() ==> old(arena)@.has_index(#[trigger] indexes@[i]),
    ensures
        (info_views(res@), final(arena)@) == ordered_infos(old(arena)@, columns@, indexes@),
        final(arena)@.wf(),
        old(arena)@.extended_by(final(arena)@),
        final(arena)@.columns == old(arena)@.columns,
        forall|i: int| 0 <= i < res@.len() ==> (#[trigger] res@[i])@.valid(final(arena)@),
{
    let ghost start = arena@;
    let mut infos: Vec<IndexInfo> = Vec::new();
    let mut i: usize = 0;
    assert(indexes@.take(0) =~= Seq::empty());
    assert(info_views(infos@) =~= Seq::empty());
    while i < indexes.len()
        invariant
            i <= indexes.len(),
            start.has_columns(columns@),
            forall|j: int| 0 <= j < indexes@.len() ==> start.has_index(#[trigger] indexes@[j]),
            arena@.wf(),
            start.extended_by(arena@),
            arena@.columns == start.columns,
            (info_views(infos@), arena@) == ordered_infos(
                start,
                columns@,
                indexes@.take(i as int),
            ),
            forall|j: int| 0 <= j < infos@.len() ==> (#[trigger] infos@[j])@.valid(arena@),
        decreases indexes.len() - i,
    {
        proof {
            let next = indexes@.take(i + 1);
            assert(next.drop_last() =~= indexes@.take(i as int));
            assert(next.last() == indexes@[i as int]);
            assert(start.has_index(indexes@[i as int]));
        }
        let ghost before = arena@;
        let fields = bind_order(columns, indexes[i], arena);
        let info = IndexInfo {
            meta: indexes[i],
            sort_option: SortOption::OrderBy { fields, ignore_prefix_len: 0 },
            lookup: None,
            residual_predicate: None,
            covered_deserializers: None,
            cover_mapping: None,
            sort_elimination_hint: None,
            stream_aggregate_hint: None,
        };
        let ghost views = info_views(infos@);
        infos.push(info);
        proof {
            lemma_extended_trans(start, before, arena@);
            assert(info_views(infos@) =~= views.push(info@));
            assert forall|j: int| 0 <= j < infos@.len() implies (#[trigger] infos@[j])@.valid(
                arena@,
            ) by {
                if j < infos@.len() - 1 {
                    assert(views[j] == infos@[j]@);
                    assert(infos@[j]@.valid(before));
                }
            }
        }
        i += 1;
    }
    assert(indexes@.take(i as int) =~= indexes@);
    infos
}

/// Gives a table columns of its own under another name, with the expressions that compute them.
pub fn name_columns(columns: &Vec<ColumnRef>, alias: &TableName, arena: &mut PlanArena) -> (res: (
    Vec<ColumnRef>,
    Vec<ExprRef>,
))
    requires
        old(arena)@.wf(),
        old(arena)@.has_columns(columns@),
    ensures
        (res.0@, res.1@, final(arena)@) == named_columns(old(arena)@, columns@, alias@),
        final(arena)@.wf(),
        old(arena)@.extended_by(final(arena)@),
        final(arena)@.has_columns(res.0@),
        final(arena)@.has_exprs(res.1@),
{
    let ghost start = arena@;
    let mut own: Vec<ColumnRef> = Vec::new();
    let mut exprs: Vec<ExprRef> = Vec::new();
    let mut i: usize = 0;
    assert(columns@.take(0) =~= Seq::empty());
    while i < columns.len()
        invariant
            i <= columns.len(),
            start.has_columns(columns@),
            arena@.wf(),
            start.extended_by(arena@),
            (own@, exprs@, arena@) == named_columns(start, columns@.take(i as int), alias@),
            arena@.has_columns(own@),
            arena@.has_exprs(exprs@),
        decreases columns.len() - i,
    {
        let ghost before = arena@;
        proof {
            let next = columns@.take(i + 1);
            assert(next.drop_last() =~= columns@.take(i as int));
            assert(next.last() == columns@[i as int]);
            assert(start.has_column(columns@[i as int]));
        }
        let column = columns[i];
        let mut named = arena.column(column).clone();
        let id: ColumnId = match named.id() {
            Some(id) => id,
            None => i as ColumnId,
        };
        named.set_ref_table(alias.clone(), id, true);
        assert(named@ == renamed(before.columns[column.0 as int], alias@, i as int));
        let name = arena.alloc_column(named);
        let from = arena.alloc_expression(ScalarExpression::ColumnRef { column, position: i });
        let to = arena.alloc_expression(ScalarExpression::ColumnRef { column: name, position: i });
        assert(arena@.has_exprs(seq![from, to]));
        let expr = arena.alloc_expression(
            ScalarExpression::Alias { expr: from, alias: AliasType::Expr(to) },
        );
        own.push(name);
        exprs.push(expr);
        proof {
            assert(before.extended_by(arena@));
            lemma_extended_trans(start, before, arena@);
        }
        i += 1;
    }
    assert(columns@.take(i as int) =~= columns@);
    (own, exprs)
}

} // verus!
