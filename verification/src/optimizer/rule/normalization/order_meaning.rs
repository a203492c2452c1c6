//! Orders as they show in the rows: where a sort is left out, the rows come sorted all the same.

use crate::expression::meaning::{
    by_column, respects_columns, same_expressions_have_same_values, value_of, Meaning,
};
use crate::expression::ExprView;
use crate::optimizer::rule::normalization::elimination::{
    covers, covers_from, field_matches, group_fields, hint_info, hint_plan, hint_scan, ordered,
    passes_hints, sort_keys, with_forced_sort, with_stream_aggregate, without_sort, OrderHintKind,
};
use crate::optimizer::rule::normalization::parameterized_meaning::Row;
use crate::planner::arena::ArenaView;
use crate::planner::operator::sort::SortField;
use crate::planner::operator::table_scan::TableScanView;
use crate::planner::operator::{OperatorView, PlanImpl, PlanImplView, SortOptionView};
use crate::planner::{ChildrenView, PlanView};
use crate::types::index::IndexInfoView;
use crate::types::value::{DataValue, DataValueView};
use vstd::prelude::*;

verus! {

/// An order of values that are not null.
pub type Less = spec_fn(DataValueView, DataValueView) -> bool;

/// Whether a value comes before another one by direction and place of nulls of a key.
pub open spec fn value_before(
    less: Less,
    key: SortField,
    first: DataValueView,
    second: DataValueView,
) -> bool {
    let null = DataValueView::Plain(DataValue::Null);
    if first == null {
        second != null && key.nulls_first
    } else if second == null {
        !key.nulls_first
    } else if key.asc {
        less(first, second)
    } else {
        less(second, first)
    }
}

/// Whether a row comes before another one by a key.
pub open spec fn key_before(
    meaning: Meaning,
    exprs: Seq<ExprView>,
    less: Less,
    key: SortField,
    first: Row,
    second: Row,
) -> bool {
    value_before(
        less,
        key,
        value_of(meaning, exprs, key.expr, by_column(first)),
        value_of(meaning, exprs, key.expr, by_column(second)),
    )
}

/// Whether neither of two rows comes before the other one by a key.
pub open spec fn tied(
    meaning: Meaning,
    exprs: Seq<ExprView>,
    less: Less,
    key: SortField,
    first: Row,
    second: Row,
) -> bool {
    !key_before(meaning, exprs, less, key, first, second) && !key_before(
        meaning,
        exprs,
        less,
        key,
        second,
        first,
    )
}

/// Whether a row comes before another one by the key at the position, and no earlier key decides.
pub open spec fn before_at(
    meaning: Meaning,
    exprs: Seq<ExprView>,
    less: Less,
    keys: Seq<SortField>,
    first: Row,
    second: Row,
    at: int,
) -> bool {
    &&& 0 <= at < keys.len()
    &&& key_before(meaning, exprs, less, keys[at], first, second)
    &&& forall|i: int|
        0 <= i < at ==> tied(meaning, exprs, less, #[trigger] keys[i], first, second)
}

/// Whether a row comes before another one by the keys.
pub open spec fn row_before(
    meaning: Meaning,
    exprs: Seq<ExprView>,
    less: Less,
    keys: Seq<SortField>,
    first: Row,
    second: Row,
) -> bool {
    exists|at: int| #[trigger] before_at(meaning, exprs, less, keys, first, second, at)
}

/// Whether rows are sorted by the keys: none comes before an earlier one.
pub open spec fn sorted(
    meaning: Meaning,
    exprs: Seq<ExprView>,
    less: Less,
    keys: Seq<SortField>,
    rows: Seq<Row>,
) -> bool {
    forall|i: int, j: int|
        0 <= i < j < rows.len() ==> !row_before(
            meaning,
            exprs,
            less,
            keys,
            #[trigger] rows[j],
            #[trigger] rows[i],
        )
}

/// Whether all rows are the same in the first keys.
pub open spec fn alike(
    meaning: Meaning,
    exprs: Seq<ExprView>,
    less: Less,
    keys: Seq<SortField>,
    count: int,
    rows: Seq<Row>,
) -> bool {
    forall|k: int, i: int, j: int|
        #![trigger keys[k], rows[i], rows[j]]
        0 <= k < count && k < keys.len() && 0 <= i < rows.len() && 0 <= j < rows.len() ==> tied(
            meaning,
            exprs,
            less,
            keys[k],
            rows[i],
            rows[j],
        )
}

/// Whether each row holds the same for columns that count as the same.
pub open spec fn all_respect(arena: ArenaView, rows: Seq<Row>) -> bool {
    forall|i: int| 0 <= i < rows.len() ==> respects_columns(arena, #[trigger] rows[i])
}

/// Whether rows are in the order that an option promises: sorted by its keys, and all alike in those
/// that may be left out.
pub open spec fn in_order(
    meaning: Meaning,
    arena: ArenaView,
    less: Less,
    option: SortOptionView,
    rows: Seq<Row>,
) -> bool {
    option matches SortOptionView::OrderBy { fields, ignore_prefix_len } ==> {
        &&& sorted(meaning, arena.exprs, less, fields, rows)
        &&& alike(meaning, arena.exprs, less, fields, ignore_prefix_len as int, rows)
    }
}

/// Keys that match sort alike: a row comes before another one by the one exactly if it does so by
/// the other.
pub proof fn matching_keys_sort_alike(
    meaning: Meaning,
    arena: ArenaView,
    less: Less,
    required: SortField,
    provided: SortField,
    first: Row,
    second: Row,
)
    requires
        arena.wf(),
        field_matches(arena, required, provided),
        respects_columns(arena, first),
        respects_columns(arena, second),
    ensures
        key_before(meaning, arena.exprs, less, required, first, second) == key_before(
            meaning,
            arena.exprs,
            less,
            provided,
            first,
            second,
        ),
{
    same_expressions_have_same_values(meaning, arena, required.expr, provided.expr, first);
    same_expressions_have_same_values(meaning, arena, required.expr, provided.expr, second);
}

/// Where an order covers required keys, rows in that order are sorted by the required keys.
pub proof fn covering_order_sorts_the_rows(
    meaning: Meaning,
    arena: ArenaView,
    less: Less,
    required: Seq<SortField>,
    provided: SortOptionView,
    rows: Seq<Row>,
)
    requires
        arena.wf(),
        covers(arena, required, provided),
        in_order(meaning, arena, less, provided, rows),
        all_respect(arena, rows),
    ensures
        sorted(meaning, arena.exprs, less, required, rows),
{
    let exprs = arena.exprs;
    if required.len() > 0 {
        let fields = provided->fields;
        let skip = choose|skip: int|
            0 <= skip <= provided->ignore_prefix_len && #[trigger] covers_from(
                arena,
                required,
                fields,
                skip,
            );
        assert forall|i: int, j: int| 0 <= i < j < rows.len() implies !row_before(
            meaning,
            exprs,
            less,
            required,
            #[trigger] rows[j],
            #[trigger] rows[i],
        ) by {
            if row_before(meaning, exprs, less, required, rows[j], rows[i]) {
                let at = choose|at: int| #[trigger]
                    before_at(meaning, exprs, less, required, rows[j], rows[i], at);
                assert(field_matches(arena, required[at], fields[skip + at]));
                matching_keys_sort_alike(
                    meaning,
                    arena,
                    less,
                    required[at],
                    fields[skip + at],
                    rows[j],
                    rows[i],
                );
                assert forall|k: int| 0 <= k < skip + at implies tied(
                    meaning,
                    exprs,
                    less,
                    #[trigger] fields[k],
                    rows[j],
                    rows[i],
                ) by {
                    if k >= skip {
                        let m = k - skip;
                        assert(tied(meaning, exprs, less, required[m], rows[j], rows[i]));
                        assert(field_matches(arena, required[m], fields[skip + m]));
                        matching_keys_sort_alike(
                            meaning,
                            arena,
                            less,
                            required[m],
                            fields[k],
                            rows[j],
                            rows[i],
                        );
                        matching_keys_sort_alike(
                            meaning,
                            arena,
                            less,
                            required[m],
                            fields[k],
                            rows[i],
                            rows[j],
                        );
                    }
                }
                assert(before_at(meaning, exprs, less, fields, rows[j], rows[i], skip + at));
                assert(row_before(meaning, exprs, less, fields, rows[j], rows[i]));
            }
        }
    } else {
        assert forall|i: int, j: int| 0 <= i < j < rows.len() implies !row_before(
            meaning,
            exprs,
            less,
            required,
            #[trigger] rows[j],
            #[trigger] rows[i],
        ) by {
            assert(forall|at: int|
                !(#[trigger] before_at(meaning, exprs, less, required, rows[j], rows[i], at)));
        }
    }
}

/// Whether the rows are some of the given ones, in the same order.
pub open spec fn drawn_from(rows: Seq<Row>, all: Seq<Row>, at: Seq<int>) -> bool {
    &&& at.len() == rows.len()
    &&& forall|i: int| 0 <= i < rows.len() ==> 0 <= #[trigger] at[i] < all.len() && rows[i] == all[at[i]]
    &&& forall|i: int, j: int| 0 <= i < j < rows.len() ==> #[trigger] at[i] < #[trigger] at[j]
}

/// Some rows of sorted ones, in the same order, are sorted.
pub proof fn some_of_sorted_rows_are_sorted(
    meaning: Meaning,
    exprs: Seq<ExprView>,
    less: Less,
    keys: Seq<SortField>,
    rows: Seq<Row>,
    all: Seq<Row>,
    at: Seq<int>,
)
    requires
        sorted(meaning, exprs, less, keys, all),
        drawn_from(rows, all, at),
    ensures
        sorted(meaning, exprs, less, keys, rows),
{
    assert forall|i: int, j: int| 0 <= i < j < rows.len() implies !row_before(
        meaning,
        exprs,
        less,
        keys,
        #[trigger] rows[j],
        #[trigger] rows[i],
    ) by {
        assert(at[i] < at[j]);
        assert(rows[i] == all[at[i]] && rows[j] == all[at[j]]);
    }
}

/// Whether a plan keeps its promises about the order of the rows that it delivers: an index delivers
/// them in its order, an implementation in the order that it announces, and one that follows its
/// input delivers some of the rows of the input in the same order.
pub open spec fn keeps_promises(
    meaning: Meaning,
    arena: ArenaView,
    less: Less,
    plan: PlanView,
    delivered: spec_fn(PlanView) -> Seq<Row>,
) -> bool
    decreases plan,
{
    &&& all_respect(arena, delivered(plan))
    &&& plan.physical matches Some(option) ==> {
        &&& option.plan matches PlanImplView::IndexScan(info) ==> in_order(
            meaning,
            arena,
            less,
            info.sort_option,
            delivered(plan),
        )
        &&& in_order(meaning, arena, less, option.sort_option, delivered(plan))
        &&& (option.sort_option is Follow && plan.children is Only) ==> exists|at: Seq<int>|
            #[trigger]
            drawn_from(delivered(plan), delivered(*plan.children->Only_0), at)
    }
    &&& plan.children matches ChildrenView::Only(child) ==> keeps_promises(
        meaning,
        arena,
        less,
        *child,
        delivered,
    )
}

/// A plan that counts as ordered delivers its rows sorted.
pub proof fn ordered_plan_delivers_sorted_rows(
    meaning: Meaning,
    arena: ArenaView,
    less: Less,
    plan: PlanView,
    required: Seq<SortField>,
    delivered: spec_fn(PlanView) -> Seq<Row>,
)
    requires
        arena.wf(),
        ordered(plan, required, arena),
        keeps_promises(meaning, arena, less, plan, delivered),
    ensures
        sorted(meaning, arena.exprs, less, required, delivered(plan)),
    decreases plan,
{
    let option = plan.physical->0;
    let rows = delivered(plan);
    if option.plan is IndexScan && covers(
        arena,
        required,
        option.plan->IndexScan_0.sort_option,
    ) {
        let order = option.plan->IndexScan_0.sort_option;
        covering_order_sorts_the_rows(meaning, arena, less, required, order, rows);
    } else if option.sort_option is OrderBy {
        covering_order_sorts_the_rows(meaning, arena, less, required, option.sort_option, rows);
    } else {
        let child = *plan.children->Only_0;
        ordered_plan_delivers_sorted_rows(meaning, arena, less, child, required, delivered);
        let at = choose|at: Seq<int>| #[trigger] drawn_from(rows, delivered(child), at);
        some_of_sorted_rows_are_sorted(
            meaning,
            arena.exprs,
            less,
            required,
            rows,
            delivered(child),
            at,
        );
    }
}

/// The rows behind the first ones, and no more than so many of them.
pub open spec fn window_of(rows: Seq<Row>, offset: Option<usize>, limit: Option<usize>) -> Seq<Row> {
    let from: int = match offset {
        Some(offset) => if offset < rows.len() {
            offset as int
        } else {
            rows.len() as int
        },
        None => 0,
    };
    let rest = rows.skip(from);
    match limit {
        Some(limit) => if limit < rest.len() {
            rest.take(limit as int)
        } else {
            rest
        },
        None => rest,
    }
}

/// A sort that is left out is not missed: the rows of its input are sorted by its keys already, and
/// where it chose the first rows of the order, the same rows are chosen of the input.
pub proof fn removed_sort_is_not_missed(
    meaning: Meaning,
    arena: ArenaView,
    less: Less,
    plan: PlanView,
    delivered: spec_fn(PlanView) -> Seq<Row>,
)
    requires
        arena.wf(),
        without_sort(plan, arena).1,
        ({
            let after = without_sort(plan, arena).0;
            keeps_promises(
                meaning,
                arena,
                less,
                if plan.operator is Sort {
                    after
                } else {
                    *after.children->Only_0
                },
                delivered,
            )
        }),
    ensures
        ({
            let after = without_sort(plan, arena).0;
            match plan.operator {
                OperatorView::Sort(keys) => sorted(
                    meaning,
                    arena.exprs,
                    less,
                    keys,
                    delivered(after),
                ),
                OperatorView::TopK(op) => {
                    let rows = delivered(*after.children->Only_0);
                    &&& after.operator matches OperatorView::Limit(limit) && after.children is Only
                        && sorted(meaning, arena.exprs, less, op.sort_fields, rows) && window_of(
                        rows,
                        limit.offset,
                        limit.limit,
                    ) == window_of(rows, op.offset, Some(op.limit))
                },
                _ => false,
            }
        }),
{
    let after = without_sort(plan, arena).0;
    match plan.operator {
        OperatorView::Sort(keys) => {
            ordered_plan_delivers_sorted_rows(meaning, arena, less, after, keys, delivered);
        },
        OperatorView::TopK(op) => {
            let child = *after.children->Only_0;
            ordered_plan_delivers_sorted_rows(
                meaning,
                arena,
                less,
                child,
                op.sort_fields,
                delivered,
            );
        },
        _ => {},
    }
}

/// An index without what it was told about orders.
pub open spec fn untold(info: IndexInfoView) -> IndexInfoView {
    IndexInfoView { sort_elimination_hint: None, stream_aggregate_hint: None, ..info }
}

/// A plan without what its scans were told about orders.
pub open spec fn without_hints(plan: PlanView) -> PlanView
    decreases plan,
{
    PlanView {
        operator: match plan.operator {
            OperatorView::TableScan(scan) => OperatorView::TableScan(
                TableScanView {
                    index_infos: scan.index_infos.map_values(|info: IndexInfoView| untold(info)),
                    ..scan
                },
            ),
            operator => operator,
        },
        children: match plan.children {
            ChildrenView::Only(child) => ChildrenView::Only(Box::new(without_hints(*child))),
            children => children,
        },
        ..plan
    }
}

/// Telling scans about an order changes nothing else about a plan.
pub proof fn telling_scans_changes_nothing_else(
    plan: PlanView,
    required: Seq<SortField>,
    kind: OrderHintKind,
    arena: ArenaView,
)
    ensures
        without_hints(hint_plan(plan, required, kind, arena)) == without_hints(plan),
    decreases plan,
{
    if required.len() > 0 {
        if passes_hints(plan.operator) {
            if let ChildrenView::Only(child) = plan.children {
                telling_scans_changes_nothing_else(*child, required, kind, arena);
            }
        } else if let OperatorView::TableScan(scan) = plan.operator {
            let told = hint_scan(scan, required, kind, arena);
            assert(told.index_infos.map_values(|info: IndexInfoView| untold(info))
                =~= scan.index_infos.map_values(|info: IndexInfoView| untold(info)));
        }
    }
}

/// A sort that stays is as it was, and so are its input and that of a removed one, but for what
/// scans were told.
pub proof fn sort_rule_keeps_the_input(plan: PlanView, arena: ArenaView)
    ensures
        ({
            let (after, removed) = without_sort(plan, arena);
            &&& !removed ==> without_hints(after) == without_hints(plan)
            &&& removed && plan.operator is Sort ==> without_hints(after) == without_hints(
                *plan.children->Only_0,
            )
            &&& removed && plan.operator is TopK ==> without_hints(*after.children->Only_0)
                == without_hints(*plan.children->Only_0)
        }),
{
    if let Some(keys) =
        sort_keys(plan.operator) {
        if let ChildrenView::Only(child) = plan.children {
            telling_scans_changes_nothing_else(
                *child,
                keys,
                OrderHintKind::SortElimination,
                arena,
            );
        }
    }
}

/// Where groups are formed one after the other, the rows come sorted by the groups, and the grouping
/// is the same but for how it is carried out. Duplicates alone are dropped only where nothing is
/// aggregated.
pub proof fn stream_groups_come_sorted(
    meaning: Meaning,
    arena: ArenaView,
    less: Less,
    plan: PlanView,
    delivered: spec_fn(PlanView) -> Seq<Row>,
)
    requires
        arena.wf(),
        with_stream_aggregate(plan, arena).1,
        keeps_promises(meaning, arena, less, *plan.children->Only_0, delivered),
    ensures
        ({
            let after = with_stream_aggregate(plan, arena).0;
            let op = plan.operator->Aggregate_0;
            &&& plan.operator is Aggregate
            &&& after == (PlanView { physical: after.physical, ..plan })
            &&& after.physical matches Some(option) && option.plan == PlanImplView::Plain(
                if op.is_distinct && op.agg_calls.len() == 0 {
                    PlanImpl::StreamDistinct
                } else {
                    PlanImpl::StreamAggregate
                },
            )
            &&& exists|keys: Seq<SortField>|
                {
                    &&& #[trigger] sorted(
                        meaning,
                        arena.exprs,
                        less,
                        keys,
                        delivered(*plan.children->Only_0),
                    )
                    &&& keys.len() == op.groupby_exprs.len()
                    &&& forall|i: int|
                        0 <= i < keys.len() ==> (#[trigger] keys[i]).expr == op.groupby_exprs[i]
                }
        }),
{
    let op = plan.operator->Aggregate_0;
    let keys = group_fields(op.groupby_exprs);
    ordered_plan_delivers_sorted_rows(
        meaning,
        arena,
        less,
        *plan.children->Only_0,
        keys,
        delivered,
    );
}

/// A grouping that must not keep its groups in memory gets a sort by the groups below it, on the
/// input that it had, and is the same but for how it is carried out.
pub proof fn forced_sort_sorts_by_the_groups(plan: PlanView)
    requires
        with_forced_sort(plan).1,
    ensures
        ({
            let after = with_forced_sort(plan).0;
            let op = plan.operator->Aggregate_0;
            &&& after.operator == plan.operator
            &&& after.schema == plan.schema
            &&& after.children matches ChildrenView::Only(sort) && (sort.operator matches OperatorView::Sort(
                keys,
            ) && keys.len() == op.groupby_exprs.len() && (forall|i: int|
                0 <= i < keys.len() ==> (#[trigger] keys[i]).expr == op.groupby_exprs[i]))
                && sort.children == plan.children
        }),
{
}

/// An index is told about an order exactly if its own order sorts by the keys, and then it is told of
/// at least as many keys as there are; of the two things that it may be told, the other one stays.
pub proof fn told_index_sorts_the_rows(
    meaning: Meaning,
    arena: ArenaView,
    less: Less,
    info: IndexInfoView,
    required: Seq<SortField>,
    kind: OrderHintKind,
    rows: Seq<Row>,
)
    requires
        arena.wf(),
        required.len() <= usize::MAX,
        in_order(meaning, arena, less, info.sort_option, rows),
        all_respect(arena, rows),
    ensures
        ({
            let told = hint_info(info, required, kind, arena);
            let (own, hint, other, kept) = match kind {
                OrderHintKind::SortElimination => (
                    info.sort_elimination_hint,
                    told.sort_elimination_hint,
                    info.stream_aggregate_hint,
                    told.stream_aggregate_hint,
                ),
                OrderHintKind::StreamAggregate => (
                    info.stream_aggregate_hint,
                    told.stream_aggregate_hint,
                    info.sort_elimination_hint,
                    told.sort_elimination_hint,
                ),
            };
            &&& hint != own ==> hint is Some && (hint->0).covered == required.len() && sorted(
                meaning,
                arena.exprs,
                less,
                required,
                rows,
            )
            &&& own matches Some(count) ==> hint is Some && count.covered
                <= (hint->0).covered
            &&& covers(arena, required, info.sort_option) ==> hint is Some && required.len()
                <= (hint->0).covered
            &&& kept == other
            &&& untold(told) == untold(info)
        }),
{
    if covers(arena, required, info.sort_option) {
        covering_order_sorts_the_rows(meaning, arena, less, required, info.sort_option, rows);
    }
}

} // verus!
