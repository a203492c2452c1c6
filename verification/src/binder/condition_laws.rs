//! Join conditions and what they are split into, as they show in the rows.

use crate::binder::condition::{key_pair, split_condition, split_keys};
use crate::catalog::ColumnRef;
use crate::expression::analysis::lemma_bare_bounded;
use crate::expression::conjunction::{conjoined, conjuncts, lemma_conjuncts_bounded};
use crate::expression::meaning::{
    all_met, by_position, conjoins, conjunction_holds_with_its_parts, equates, lemma_all_met_concat,
    lemma_equality_holds, lemma_value_bare, lemma_value_extend, lemma_values_of, met, met_if_any,
    value_of, values_of, Meaning, Reader,
};
use crate::planner::arena::{ArenaView, ExprRef};
use crate::types::value::DataValueView;
use vstd::prelude::*;

verus! {

/// A longer list holds exactly where the shorter one and its last predicate hold.
proof fn lemma_all_met_last(
    meaning: Meaning,
    arena: ArenaView,
    list: Seq<ExprRef>,
    row: Reader,
)
    requires
        list.len() > 0,
    ensures
        all_met(meaning, arena.exprs, list, row) <==> all_met(
            meaning,
            arena.exprs,
            list.drop_last(),
            row,
        ) && met(meaning, arena.exprs, list.last(), row),
{
    let last = seq![list.last()];
    lemma_all_met_concat(meaning, arena.exprs, list.drop_last(), last, row);
    assert(list.drop_last() + last =~= list);
    assert(last[0] == list.last());
    assert(all_met(meaning, arena.exprs, last, row) == met(
        meaning,
        arena.exprs,
        list.last(),
        row,
    ));
}

/// Appending expressions changes nothing about the earlier ones.
pub proof fn lemma_all_met_extend(
    meaning: Meaning,
    before: ArenaView,
    after: ArenaView,
    list: Seq<ExprRef>,
    row: Reader,
)
    requires
        before.exprs.is_prefix_of(after.exprs),
        before.has_exprs(list),
    ensures
        all_met(meaning, after.exprs, list, row) == all_met(meaning, before.exprs, list, row),
    decreases list.len(),
{
    if list.len() > 0 {
        let front = list.drop_last();
        assert(before.has_exprs(front)) by {
            assert forall|i: int| 0 <= i < front.len() implies before.has_expr(
                #[trigger] front[i],
            ) by {
                assert(front[i] == list[i]);
            }
        }
        assert(before.has_expr(list[list.len() - 1]));
        lemma_all_met_extend(meaning, before, after, front, row);
        lemma_value_extend(meaning, before.exprs, after.exprs, list.last(), row);
        lemma_all_met_last(meaning, before, list, row);
        lemma_all_met_last(meaning, after, list, row);
    }
}

/// Predicates that are joined into one hold exactly where all of them hold.
pub proof fn joined_predicates_mean_all_of_them(
    meaning: Meaning,
    arena: ArenaView,
    filters: Seq<ExprRef>,
    row: Reader,
)
    requires
        conjoins(meaning),
        arena.has_exprs(filters),
        arena.exprs.len() + filters.len() < usize::MAX,
    ensures
        ({
            let (joined, after) = conjoined(arena, filters);
            &&& met_if_any(meaning, after.exprs, joined, row) <==> all_met(
                meaning,
                arena.exprs,
                filters,
                row,
            )
            &&& arena.exprs.is_prefix_of(after.exprs)
            &&& after.exprs.len() <= arena.exprs.len() + filters.len()
            &&& joined matches Some(expr) ==> expr.0 < after.exprs.len()
            &&& joined is Some <==> filters.len() > 0
        }),
    decreases filters.len(),
{
    if filters.len() > 0 {
        let front = filters.drop_last();
        let last = filters.last();
        assert(arena.has_exprs(front)) by {
            assert forall|i: int| 0 <= i < front.len() implies arena.has_expr(
                #[trigger] front[i],
            ) by {
                assert(front[i] == filters[i]);
            }
        }
        assert(arena.has_expr(filters[filters.len() - 1]));
        joined_predicates_mean_all_of_them(meaning, arena, front, row);
        lemma_all_met_last(meaning, arena, filters, row);
        let (sofar, before) = conjoined(arena, front);
        let (joined, after) = conjoined(arena, filters);
        match sofar {
            None => {
                assert(front.len() == 0);
                assert(before == arena);
            },
            Some(sofar) => {
                let own = joined->0;
                let node = after.exprs[own.0 as int];
                assert(before.exprs.is_prefix_of(after.exprs));
                assert(arena.exprs =~= after.exprs.take(arena.exprs.len() as int)) by {
                    assert(before.exprs.take(arena.exprs.len() as int) =~= arena.exprs);
                }
                lemma_value_extend(meaning, before.exprs, after.exprs, sofar, row);
                lemma_value_extend(meaning, arena.exprs, after.exprs, last, row);
                lemma_values_of(meaning, after.exprs, node.children, own.0 as nat, row);
                let values = values_of(meaning, after.exprs, node.children, own.0 as nat, row);
                assert(values[0] == value_of(meaning, after.exprs, sofar, row));
                assert(values[1] == value_of(meaning, after.exprs, last, row));
                assert(value_of(meaning, after.exprs, own, row) == meaning(node.head, values));
            },
        }
    } else {
        assert(conjoined(arena, filters) == (None::<ExprRef>, arena));
    }
}

/// Whether the operands of all keys have the same value, the first one on the left row and the second
/// one on the right row.
pub open spec fn keys_equal(
    meaning: Meaning,
    arena: ArenaView,
    keys: Seq<(ExprRef, ExprRef)>,
    left: Seq<DataValueView>,
    right: Seq<DataValueView>,
) -> bool {
    forall|k: int|
        0 <= k < keys.len() ==> value_of(
            meaning,
            arena.exprs,
            (#[trigger] keys[k]).0,
            by_position(left),
        ) == value_of(meaning, arena.exprs, keys[k].1, by_position(right))
}

/// Where predicates hold on two rows side by side, the keys that were found in them have the same
/// values on both rows, each read from its own row, and the rest of the predicates holds.
proof fn lemma_split_met(
    meaning: Meaning,
    arena: ArenaView,
    left: Seq<ColumnRef>,
    right: Seq<ColumnRef>,
    parts: Seq<ExprRef>,
    left_row: Seq<DataValueView>,
    right_row: Seq<DataValueView>,
)
    requires
        equates(meaning),
        arena.wf(),
        arena.has_exprs(parts),
        arena.exprs.len() + parts.len() < usize::MAX,
        left.len() + right.len() <= usize::MAX,
        left_row.len() == left.len(),
        right_row.len() == right.len(),
    ensures
        ({
            let (keys, rest, after) = split_keys(arena, left, right, parts);
            let row = by_position(left_row + right_row);
            &&& arena.exprs.is_prefix_of(after.exprs)
            &&& after.exprs.len() <= arena.exprs.len() + parts.len()
            &&& arena.has_exprs(rest)
            &&& rest.len() <= parts.len()
            &&& forall|k: int|
                0 <= k < keys.len() ==> (#[trigger] keys[k]).0.0 < arena.exprs.len() && keys[k].1.0
                    < after.exprs.len()
            &&& all_met(meaning, arena.exprs, parts, row) ==> keys_equal(
                meaning,
                after,
                keys,
                left_row,
                right_row,
            ) && all_met(meaning, arena.exprs, rest, row)
            &&& keys.len() + rest.len() == parts.len()
        }),
    decreases parts.len(),
{
    let (keys, rest, after) = split_keys(arena, left, right, parts);
    let both = left_row + right_row;
    let row = by_position(both);
    if parts.len() > 0 {
        let front = parts.drop_last();
        let last = parts.last();
        assert(arena.has_exprs(front)) by {
            assert forall|i: int| 0 <= i < front.len() implies arena.has_expr(
                #[trigger] front[i],
            ) by {
                assert(front[i] == parts[i]);
            }
        }
        assert(arena.has_expr(parts[parts.len() - 1]));
        lemma_split_met(meaning, arena, left, right, front, left_row, right_row);
        let (front_keys, front_rest, before) = split_keys(arena, left, right, front);
        lemma_all_met_last(meaning, arena, parts, row);
        match key_pair(arena.exprs, left, right, last) {
            Some((first, column, position)) => {
                let node = arena.exprs[last.0 as int];
                assert(node.children[0].0 < last.0 && node.children[1].0 < last.0);
                lemma_bare_bounded(arena.exprs, node.children[0]);
                lemma_bare_bounded(arena.exprs, node.children[1]);
                lemma_value_bare(meaning, arena.exprs, node.children[0], row);
                lemma_value_bare(meaning, arena.exprs, node.children[1], row);
                assert(arena.exprs =~= after.exprs.take(arena.exprs.len() as int)) by {
                    assert(before.exprs.take(arena.exprs.len() as int) =~= arena.exprs);
                }
                if all_met(meaning, arena.exprs, parts, row) {
                    lemma_equality_holds(meaning, arena.exprs, last, row);
                    let k = keys.len() - 1;
                    assert(keys[k].0 == first);
                    assert(arena.exprs[first.0 as int].head is ColumnRef);
                    assert(after.exprs[first.0 as int] == arena.exprs[first.0 as int]);
                    let at = arena.exprs[first.0 as int].head->ColumnRef_position as int;
                    assert(both[at] == left_row[at]);
                    assert(both[left.len() + position] == right_row[position as int]);
                    assert(after.exprs[keys[k].1.0 as int].head->ColumnRef_position == position);
                    assert forall|k: int| 0 <= k < keys.len() implies value_of(
                        meaning,
                        after.exprs,
                        (#[trigger] keys[k]).0,
                        by_position(left_row),
                    ) == value_of(meaning, after.exprs, keys[k].1, by_position(right_row)) by {
                        if k < front_keys.len() {
                            assert(keys[k] == front_keys[k]);
                            lemma_value_extend(
                                meaning,
                                before.exprs,
                                after.exprs,
                                keys[k].0,
                                by_position(left_row),
                            );
                            lemma_value_extend(
                                meaning,
                                before.exprs,
                                after.exprs,
                                keys[k].1,
                                by_position(right_row),
                            );
                        }
                    }
                }
            },
            None => {
                lemma_all_met_last(meaning, arena, rest, row);
                assert(rest.drop_last() =~= front_rest);
            },
        }
    }
}

/// Where a join condition holds on a left and a right row side by side, the keys of the join have the
/// same values on both rows, each read from its own row, and what is left of the condition holds.
pub proof fn split_condition_is_implied(
    meaning: Meaning,
    arena: ArenaView,
    left: Seq<ColumnRef>,
    right: Seq<ColumnRef>,
    on: ExprRef,
    left_row: Seq<DataValueView>,
    right_row: Seq<DataValueView>,
)
    requires
        conjoins(meaning),
        equates(meaning),
        arena.wf(),
        arena.has_expr(on),
        arena.exprs.len() + 2 * conjuncts(arena.exprs, on).len() < usize::MAX,
        left.len() + right.len() <= usize::MAX,
        left_row.len() == left.len(),
        right_row.len() == right.len(),
        met(meaning, arena.exprs, on, by_position(left_row + right_row)),
    ensures
        ({
            let (keys, filter, after) = split_condition(arena, left, right, on);
            &&& keys_equal(meaning, after, keys, left_row, right_row)
            &&& met_if_any(meaning, after.exprs, filter, by_position(left_row + right_row))
        }),
{
    let parts = conjuncts(arena.exprs, on);
    let row = by_position(left_row + right_row);
    lemma_conjuncts_bounded(arena.exprs, on);
    assert(arena.has_exprs(parts));
    conjunction_holds_with_its_parts(meaning, arena.exprs, on, row);
    lemma_split_met(meaning, arena, left, right, parts, left_row, right_row);
    let (keys, rest, middle) = split_keys(arena, left, right, parts);
    assert(middle.has_exprs(rest)) by {
        assert forall|i: int| 0 <= i < rest.len() implies middle.has_expr(#[trigger] rest[i]) by {
            assert(arena.has_expr(rest[i]));
        }
    }
    joined_predicates_mean_all_of_them(meaning, middle, rest, row);
    lemma_all_met_extend(meaning, arena, middle, rest, row);
    let (filter, after) = conjoined(middle, rest);
    assert forall|k: int| 0 <= k < keys.len() implies value_of(
        meaning,
        after.exprs,
        (#[trigger] keys[k]).0,
        by_position(left_row),
    ) == value_of(meaning, after.exprs, keys[k].1, by_position(right_row)) by {
        lemma_value_extend(meaning, middle.exprs, after.exprs, keys[k].0, by_position(left_row));
        lemma_value_extend(meaning, middle.exprs, after.exprs, keys[k].1, by_position(right_row));
    }
}

} // verus!
