//! Ranges of composite keys: which keys of an index a range finds, and how that follows from the
//! predicate that the range was made from.

use crate::binder::condition_laws::lemma_all_met_extend;
use crate::catalog::ColumnRef;
use crate::expression::conjunction::{conjuncts, lemma_conjuncts_bounded};
use crate::expression::meaning::{
    all_met, by_column, conjoins, conjunction_holds_with_its_parts, lemma_met_parts, met, met_if_any,
    Meaning,
};
use crate::expression::range_detacher::{
    behind_keys, combined, contains, detach_parts, first_keys, followed_by, lemma_order_all, lemma_order_flip,
    narrowed, prefix_range, single_values_can_be_combined, tuple_range, values_of, BoundView, Range,
    RangeView,
};
use crate::expression::range_union::{
    assembled, common_holds_values_of_both, flat, pieces,
};
use crate::optimizer::rule::normalization::parameterized_meaning::Row;
use crate::optimizer::rule::normalization::scan_meaning::{
    compares_by_order, disjoins, holds_stored, range_and_rest_mean_the_predicates, Stored,
};
use crate::optimizer::rule::normalization::scan_predicates::{
    composite, info_pushed, key_prefix, key_range, key_search, KeyPrefix,
};
use crate::planner::arena::{ArenaView, ExprRef};
use crate::planner::operator::SortOptionView;
use crate::types::index::{IndexInfoView, IndexLookupView, IndexMetaView};
use crate::types::value::{DataValue, DataValueView, Order};
use crate::types::ColumnId;
use vstd::prelude::*;

verus! {

/// How a key stands to an end that may be shorter: value by value, and where the end is the beginning
/// of the key, the end stands above the key if it is marked as upper, else below it.
pub open spec fn place(
    key: Seq<DataValueView>,
    end: Seq<DataValueView>,
    upper: bool,
) -> Option<Order>
    decreases end.len(),
{
    if end.len() == 0 {
        if upper {
            Some(Order::Before)
        } else if key.len() == 0 {
            Some(Order::Same)
        } else {
            Some(Order::After)
        }
    } else if key.len() == 0 {
        Some(Order::Before)
    } else {
        match DataValue::order(key[0], end[0]) {
            Some(Order::Same) => place(key.drop_first(), end.drop_first(), upper),
            order => order,
        }
    }
}

/// Whether a key is not below a lower end.
pub open spec fn key_above(min: BoundView, key: Seq<DataValueView>) -> bool {
    match min {
        BoundView::Unbounded => true,
        BoundView::Included(DataValueView::Tuple(end, upper)) => place(key, end, upper) == Some(
            Order::Same,
        ) || place(key, end, upper) == Some(Order::After),
        BoundView::Excluded(DataValueView::Tuple(end, upper)) => place(key, end, upper) == Some(
            Order::After,
        ),
        _ => false,
    }
}

/// Whether a key is not above an upper end.
pub open spec fn key_below(max: BoundView, key: Seq<DataValueView>) -> bool {
    match max {
        BoundView::Unbounded => true,
        BoundView::Included(DataValueView::Tuple(end, upper)) => place(key, end, upper) == Some(
            Order::Same,
        ) || place(key, end, upper) == Some(Order::Before),
        BoundView::Excluded(DataValueView::Tuple(end, upper)) => place(key, end, upper) == Some(
            Order::Before,
        ),
        _ => false,
    }
}

/// Whether a composite key is in a range of composite keys.
pub open spec fn key_in(range: RangeView, key: Seq<DataValueView>) -> bool
    decreases range,
{
    match range {
        RangeView::Scope { min, max } => key_above(min, key) && key_below(max, key),
        RangeView::Eq(DataValueView::Tuple(end, upper)) => place(key, end, upper) == Some(
            Order::Same,
        ),
        RangeView::Eq(_) => false,
        RangeView::Dummy => false,
        RangeView::SortedRanges(ranges) => exists|i: int|
            0 <= i < ranges.len() && key_in(#[trigger] ranges[i], key),
    }
}

/// Whether a key is in one of the ranges.
pub open spec fn key_held(list: Seq<RangeView>, key: Seq<DataValueView>) -> bool {
    exists|i: int| 0 <= i < list.len() && key_in(#[trigger] list[i], key)
}

/// Whether a key begins with the values.
pub open spec fn begins(key: Seq<DataValueView>, prefix: Seq<DataValueView>) -> bool {
    &&& prefix.len() <= key.len()
    &&& forall|i: int|
        0 <= i < prefix.len() ==> DataValue::order(#[trigger] key[i], prefix[i]) == Some(
            Order::Same,
        )
}

/// How a key stands to all keys that begin with values that it does not begin with.
spec fn off(key: Seq<DataValueView>, prefix: Seq<DataValueView>) -> Option<Order>
    decreases prefix.len(),
{
    if prefix.len() == 0 || key.len() == 0 {
        None
    } else {
        match DataValue::order(key[0], prefix[0]) {
            Some(Order::Same) => off(key.drop_first(), prefix.drop_first()),
            order => order,
        }
    }
}

proof fn lemma_begins_step(key: Seq<DataValueView>, prefix: Seq<DataValueView>)
    requires
        0 < prefix.len() <= key.len(),
    ensures
        begins(key, prefix) <==> DataValue::order(key[0], prefix[0]) == Some(Order::Same) && begins(
            key.drop_first(),
            prefix.drop_first(),
        ),
{
    let (rest, tail) = (key.drop_first(), prefix.drop_first());
    if begins(key, prefix) {
        assert forall|i: int| 0 <= i < tail.len() implies DataValue::order(
            #[trigger] rest[i],
            tail[i],
        ) == Some(Order::Same) by {
            assert(rest[i] == key[i + 1] && tail[i] == prefix[i + 1]);
        }
    }
    if DataValue::order(key[0], prefix[0]) == Some(Order::Same) && begins(rest, tail) {
        assert forall|i: int| 0 <= i < prefix.len() implies DataValue::order(
            #[trigger] key[i],
            prefix[i],
        ) == Some(Order::Same) by {
            if i > 0 {
                assert(rest[i - 1] == key[i] && tail[i - 1] == prefix[i]);
            }
        }
    }
}

/// A key that begins with the values stands to a longer end as the rest of the key stands to the rest
/// of the end; any other key stands to all such ends alike.
proof fn lemma_place(
    key: Seq<DataValueView>,
    prefix: Seq<DataValueView>,
    more: Seq<DataValueView>,
    upper: bool,
)
    requires
        prefix.len() <= key.len(),
    ensures
        begins(key, prefix) ==> place(key, prefix + more, upper) == place(
            key.skip(prefix.len() as int),
            more,
            upper,
        ),
        !begins(key, prefix) ==> place(key, prefix + more, upper) == off(key, prefix) && off(
            key,
            prefix,
        ) != Some(Order::Same),
    decreases prefix.len(),
{
    if prefix.len() == 0 {
        assert(prefix + more =~= more);
        assert(key.skip(0) =~= key);
    } else {
        lemma_begins_step(key, prefix);
        lemma_place(key.drop_first(), prefix.drop_first(), more, upper);
        let end = prefix + more;
        assert(end.drop_first() =~= prefix.drop_first() + more);
        assert(key.drop_first().skip(prefix.drop_first().len() as int) =~= key.skip(
            prefix.len() as int,
        ));
    }
}

/// How a key that begins with the values stands to an end with one more value.
proof fn lemma_place_next(
    key: Seq<DataValueView>,
    prefix: Seq<DataValueView>,
    value: DataValueView,
    upper: bool,
)
    requires
        prefix.len() < key.len(),
    ensures
        begins(key, prefix) ==> place(key, prefix.push(value), upper) == (match DataValue::order(
            key[prefix.len() as int],
            value,
        ) {
            Some(Order::Same) => if upper {
                Some(Order::Before)
            } else if key.len() == prefix.len() + 1 {
                Some(Order::Same)
            } else {
                Some(Order::After)
            },
            order => order,
        }),
        !begins(key, prefix) ==> place(key, prefix.push(value), upper) == off(key, prefix) && off(
            key,
            prefix,
        ) != Some(Order::Same),
{
    let one = seq![value];
    lemma_place(key, prefix, one, upper);
    assert(prefix + one =~= prefix.push(value));
    let rest = key.skip(prefix.len() as int);
    assert(rest[0] == key[prefix.len() as int]);
    assert(one.drop_first() =~= Seq::empty());
    assert(rest.drop_first().len() == key.len() - prefix.len() - 1);
    assert(place(rest.drop_first(), one.drop_first(), upper) == if upper {
        Some(Order::Before)
    } else if key.len() == prefix.len() + 1 {
        Some(Order::Same)
    } else {
        Some(Order::After)
    });
    assert(place(rest, one, upper) == match DataValue::order(rest[0], value) {
        Some(Order::Same) => place(rest.drop_first(), one.drop_first(), upper),
        order => order,
    });
}

proof fn lemma_place_whole(key: Seq<DataValueView>, prefix: Seq<DataValueView>, upper: bool)
    requires
        prefix.len() <= key.len(),
    ensures
        begins(key, prefix) ==> place(key, prefix, upper) == (if upper {
            Some(Order::Before)
        } else if key.len() == prefix.len() {
            Some(Order::Same)
        } else {
            Some(Order::After)
        }),
        !begins(key, prefix) ==> place(key, prefix, upper) == off(key, prefix) && off(key, prefix)
            != Some(Order::Same),
{
    lemma_place(key, prefix, Seq::empty(), upper);
    assert(prefix + Seq::<DataValueView>::empty() =~= prefix);
}

/// The keys of a range behind fixed values are those that begin with the values and go on with a
/// value of the range.
proof fn lemma_tuple_piece(
    range: RangeView,
    prefix: Seq<DataValueView>,
    key: Seq<DataValueView>,
)
    requires
        !(range is SortedRanges),
        prefix.len() < key.len(),
        range is Eq ==> key.len() == prefix.len() + 1,
    ensures
        key_in(tuple_range(range, prefix), key) <==> begins(key, prefix) && contains(
            range,
            key[prefix.len() as int],
        ),
{
    let value = key[prefix.len() as int];
    match range {
        RangeView::Eq(one) => {
            lemma_place_next(key, prefix, one, false);
            lemma_order_flip(one, value);
        },
        RangeView::Scope { min, max } => {
            match min {
                BoundView::Included(end) => {
                    lemma_place_next(key, prefix, end, false);
                    lemma_order_flip(end, value);
                },
                BoundView::Excluded(end) => {
                    lemma_place_next(key, prefix, end, true);
                    lemma_order_flip(end, value);
                },
                BoundView::Unbounded => {
                    lemma_place_whole(key, prefix, false);
                },
            }
            match max {
                BoundView::Included(end) => {
                    lemma_place_next(key, prefix, end, true);
                    lemma_order_flip(value, end);
                },
                BoundView::Excluded(end) => {
                    lemma_place_next(key, prefix, end, false);
                    lemma_order_flip(value, end);
                },
                BoundView::Unbounded => {
                    lemma_place_whole(key, prefix, true);
                },
            }
        },
        _ => {},
    }
}

/// Whether the pieces of a range can be told apart by keys of the length: single values only where
/// the key ends with them.
pub open spec fn tells_keys(range: RangeView, last: bool) -> bool {
    &&& flat(pieces(range))
    &&& !last ==> forall|i: int|
        0 <= i < pieces(range).len() ==> (#[trigger] pieces(range)[i]) is Scope
}

proof fn lemma_tuple_range(
    range: RangeView,
    prefix: Seq<DataValueView>,
    key: Seq<DataValueView>,
)
    requires
        prefix.len() < key.len(),
        tells_keys(range, key.len() == prefix.len() + 1),
    ensures
        key_held(pieces(tuple_range(range, prefix)), key) <==> begins(key, prefix) && contains(
            range,
            key[prefix.len() as int],
        ),
{
    let own = pieces(range);
    let made = pieces(tuple_range(range, prefix));
    match range {
        RangeView::SortedRanges(ranges) => {
            assert(made.len() == ranges.len());
            assert forall|i: int| 0 <= i < ranges.len() implies #[trigger] made[i] == tuple_range(
                ranges[i],
                prefix,
            ) && (key_in(made[i], key) <==> begins(key, prefix) && contains(
                ranges[i],
                key[prefix.len() as int],
            )) by {
                assert(!(own[i] is SortedRanges));
                lemma_tuple_piece(ranges[i], prefix, key);
            }
            if key_held(made, key) {
                let i = choose|i: int| 0 <= i < made.len() && key_in(#[trigger] made[i], key);
                assert(contains(ranges[i], key[prefix.len() as int]));
            }
            if begins(key, prefix) && contains(range, key[prefix.len() as int]) {
                let i = choose|i: int|
                    0 <= i < ranges.len() && contains(
                        #[trigger] ranges[i],
                        key[prefix.len() as int],
                    );
                assert(key_in(made[i], key));
            }
        },
        RangeView::Dummy => {
            assert(made.len() == 0);
        },
        _ => {
            assert(own[0] == range);
            lemma_tuple_piece(range, prefix, key);
            assert(made.len() == 1 && made[0] == tuple_range(range, prefix));
            if key_held(made, key) {
                let i = choose|i: int| 0 <= i < made.len() && key_in(#[trigger] made[i], key);
                assert(i == 0);
            }
        },
    }
}

proof fn lemma_held_concat(
    first: Seq<RangeView>,
    second: Seq<RangeView>,
    key: Seq<DataValueView>,
)
    ensures
        key_held(first + second, key) <==> key_held(first, key) || key_held(second, key),
{
    let all = first + second;
    if key_held(first, key) {
        let i = choose|i: int| 0 <= i < first.len() && key_in(#[trigger] first[i], key);
        assert(key_in(all[i], key));
    }
    if key_held(second, key) {
        let i = choose|i: int| 0 <= i < second.len() && key_in(#[trigger] second[i], key);
        assert(key_in(all[first.len() + i], key));
    }
    if key_held(all, key) {
        let i = choose|i: int| 0 <= i < all.len() && key_in(#[trigger] all[i], key);
        if i < first.len() {
            assert(key_in(first[i], key));
        } else {
            assert(key_in(second[i - first.len()], key));
        }
    }
}

/// Whether a key begins with one of the listed beginnings.
pub open spec fn begins_with_one(key: Seq<DataValueView>, keys: Seq<Seq<DataValueView>>) -> bool {
    exists|j: int| 0 <= j < keys.len() && begins(key, #[trigger] keys[j])
}

proof fn lemma_behind_keys(
    range: RangeView,
    keys: Seq<Seq<DataValueView>>,
    len: nat,
    key: Seq<DataValueView>,
)
    requires
        forall|j: int| 0 <= j < keys.len() ==> (#[trigger] keys[j]).len() == len,
        len < key.len(),
        tells_keys(range, key.len() == len + 1),
    ensures
        key_held(behind_keys(range, keys), key) <==> begins_with_one(key, keys) && contains(
            range,
            key[len as int],
        ),
    decreases keys.len(),
{
    if keys.len() > 0 {
        let front = keys.drop_last();
        assert forall|j: int| 0 <= j < front.len() implies (#[trigger] front[j]).len() == len by {
            assert(front[j] == keys[j]);
        }
        lemma_behind_keys(range, front, len, key);
        assert(keys[keys.len() - 1].len() == len);
        lemma_tuple_range(range, keys.last(), key);
        lemma_held_concat(
            behind_keys(range, front),
            pieces(tuple_range(range, keys.last())),
            key,
        );
        lemma_begins_with_last(key, keys);
    }
}

proof fn lemma_begins_with_last(key: Seq<DataValueView>, keys: Seq<Seq<DataValueView>>)
    requires
        keys.len() > 0,
    ensures
        begins_with_one(key, keys) <==> begins_with_one(key, keys.drop_last()) || begins(
            key,
            keys.last(),
        ),
{
    let front = keys.drop_last();
    if begins_with_one(key, front) {
        let j = choose|j: int| 0 <= j < front.len() && begins(key, #[trigger] front[j]);
        assert(begins(key, keys[j]));
    }
    if begins(key, keys.last()) {
        assert(begins(key, keys[keys.len() - 1]));
    }
    if begins_with_one(key, keys) {
        let j = choose|j: int| 0 <= j < keys.len() && begins(key, #[trigger] keys[j]);
        if j < front.len() {
            assert(begins(key, front[j]));
        }
    }
}

/// Whether a value is one of the values.
spec fn same_as_one(value: DataValueView, values: Seq<DataValueView>) -> bool {
    exists|i: int|
        0 <= i < values.len() && DataValue::order(value, #[trigger] values[i]) == Some(Order::Same)
}

proof fn lemma_single_values(range: RangeView, value: DataValueView)
    requires
        values_of(range) is Some,
        flat(pieces(range)),
    ensures
        contains(range, value) <==> same_as_one(value, values_of(range)->0),
{
    let values = values_of(range)->0;
    let own = pieces(range);
    assert forall|i: int| 0 <= i < own.len() implies (contains(#[trigger] own[i], value)
        <==> DataValue::order(value, values[i]) == Some(Order::Same)) by {
        assert(own[i] is Eq);
        lemma_order_flip(value, values[i]);
    }
    if contains(range, value) {
        if range is SortedRanges {
            let i = choose|i: int| 0 <= i < own.len() && contains(#[trigger] own[i], value);
            assert(DataValue::order(value, values[i]) == Some(Order::Same));
        } else {
            assert(own[0] == range);
            assert(DataValue::order(value, values[0]) == Some(Order::Same));
        }
    }
    if same_as_one(value, values) {
        let i = choose|i: int|
            0 <= i < values.len() && DataValue::order(value, #[trigger] values[i]) == Some(
                Order::Same,
            );
        assert(contains(own[i], value));
    }
}

proof fn lemma_begins_push(
    key: Seq<DataValueView>,
    prefix: Seq<DataValueView>,
    value: DataValueView,
)
    requires
        prefix.len() < key.len(),
    ensures
        begins(key, prefix.push(value)) <==> begins(key, prefix) && DataValue::order(
            key[prefix.len() as int],
            value,
        ) == Some(Order::Same),
{
    let longer = prefix.push(value);
    if begins(key, longer) {
        assert forall|i: int| 0 <= i < prefix.len() implies DataValue::order(
            #[trigger] key[i],
            prefix[i],
        ) == Some(Order::Same) by {
            assert(longer[i] == prefix[i]);
        }
        assert(DataValue::order(key[prefix.len() as int], longer[prefix.len() as int]) == Some(
            Order::Same,
        ));
    }
}

proof fn lemma_followed_by(
    keys: Seq<Seq<DataValueView>>,
    values: Seq<DataValueView>,
    len: nat,
    key: Seq<DataValueView>,
)
    requires
        forall|j: int| 0 <= j < keys.len() ==> (#[trigger] keys[j]).len() == len,
        len < key.len(),
    ensures
        ({
            let made = followed_by(keys, values);
            &&& forall|j: int| 0 <= j < made.len() ==> (#[trigger] made[j]).len() == len + 1
            &&& begins_with_one(key, made) <==> begins_with_one(key, keys) && same_as_one(
                key[len as int],
                values,
            )
        }),
    decreases keys.len(),
{
    if keys.len() > 0 {
        let front = keys.drop_last();
        assert forall|j: int| 0 <= j < front.len() implies (#[trigger] front[j]).len() == len by {
            assert(front[j] == keys[j]);
        }
        assert(keys[keys.len() - 1].len() == len);
        lemma_followed_by(front, values, len, key);
        lemma_begins_with_last(key, keys);
        let before = followed_by(front, values);
        let more = values.map_values(|value: DataValueView| keys.last().push(value));
        let made = followed_by(keys, values);
        assert(made == before + more);
        assert forall|j: int| 0 <= j < more.len() implies (#[trigger] more[j]).len() == len + 1 && (
        begins(key, more[j]) <==> begins(key, keys.last()) && DataValue::order(
            key[len as int],
            values[j],
        ) == Some(Order::Same)) by {
            lemma_begins_push(key, keys.last(), values[j]);
        }
        assert forall|j: int| 0 <= j < made.len() implies (#[trigger] made[j]).len() == len + 1 by {
            if j < before.len() {
                assert(made[j] == before[j]);
            } else {
                assert(made[j] == more[j - before.len()]);
            }
        }
        if begins_with_one(key, made) {
            let j = choose|j: int| 0 <= j < made.len() && begins(key, #[trigger] made[j]);
            if j < before.len() {
                assert(begins(key, before[j]));
            } else {
                let k = j - before.len();
                assert(begins(key, more[k]));
                assert(DataValue::order(key[len as int], values[k]) == Some(Order::Same));
            }
        }
        if begins_with_one(key, keys) && same_as_one(key[len as int], values) {
            if begins_with_one(key, front) {
                let j = choose|j: int| 0 <= j < before.len() && begins(key, #[trigger] before[j]);
                assert(begins(key, made[j]));
            } else {
                let k = choose|k: int|
                    0 <= k < values.len() && DataValue::order(
                        key[len as int],
                        #[trigger] values[k],
                    ) == Some(Order::Same);
                assert(begins(key, more[k]));
                assert(made[before.len() + k] == more[k]);
                assert(begins(key, made[before.len() + k]));
            }
        }
    }
}

/// Whether the first values of a key are in the ranges, each in the one at its place.
pub open spec fn fits_first(key: Seq<DataValueView>, ranges: Seq<RangeView>) -> bool {
    forall|i: int| 0 <= i < ranges.len() ==> contains(#[trigger] ranges[i], key[i])
}

/// Whether the ranges are made of single values.
pub open spec fn all_single(ranges: Seq<RangeView>) -> bool {
    forall|i: int|
        0 <= i < ranges.len() ==> Range::single_values(#[trigger] ranges[i]) && flat(
            pieces(ranges[i]),
        )
}

proof fn lemma_first_keys(eqs: Seq<RangeView>, key: Seq<DataValueView>)
    requires
        all_single(eqs),
        eqs.len() <= key.len(),
        first_keys(eqs) is Some,
    ensures
        forall|j: int|
            0 <= j < first_keys(eqs)->0.len() ==> (#[trigger] (first_keys(eqs)->0)[j]).len()
                == eqs.len(),
        begins_with_one(key, first_keys(eqs)->0) <==> fits_first(key, eqs),
    decreases eqs.len(),
{
    let keys = first_keys(eqs)->0;
    if eqs.len() == 0 {
        assert(keys[0].len() == 0);
        assert(begins(key, keys[0]));
    } else {
        let front = eqs.drop_last();
        assert forall|i: int| 0 <= i < front.len() implies Range::single_values(
            #[trigger] front[i],
        ) && flat(pieces(front[i])) by {
            assert(front[i] == eqs[i]);
        }
        lemma_first_keys(front, key);
        let last = eqs.last();
        assert(flat(pieces(eqs[eqs.len() - 1])));
        let values = values_of(last)->0;
        lemma_single_values(last, key[front.len() as int]);
        lemma_followed_by(first_keys(front)->0, values, front.len(), key);
        assert(keys == followed_by(first_keys(front)->0, values));
        if fits_first(key, eqs) {
            assert forall|i: int| 0 <= i < front.len() implies contains(
                #[trigger] front[i],
                key[i],
            ) by {
                assert(contains(eqs[i], key[i]));
            }
            assert(contains(eqs[eqs.len() - 1], key[eqs.len() - 1]));
        }
        if fits_first(key, front) && contains(last, key[front.len() as int]) {
            assert forall|i: int| 0 <= i < eqs.len() implies contains(
                #[trigger] eqs[i],
                key[i],
            ) by {
                if i < front.len() {
                    assert(contains(front[i], key[i]));
                }
            }
        }
    }
}

proof fn lemma_key_assembled(list: Seq<RangeView>, key: Seq<DataValueView>)
    ensures
        key_in(assembled(list), key) <==> key_held(list, key),
{
    if list.len() == 1 {
        if key_held(list, key) {
            let i = choose|i: int| 0 <= i < list.len() && key_in(#[trigger] list[i], key);
            assert(i == 0);
        }
        if key_in(list[0], key) {
            assert(key_held(list, key));
        }
    } else if list.len() > 1 {
        let range = RangeView::SortedRanges(list);
        assert(assembled(list) == range);
        if key_in(range, key) {
            let i = choose|i: int| 0 <= i < list.len() && key_in(#[trigger] list[i], key);
            assert(key_in(list[i], key));
        }
        if key_held(list, key) {
            let i = choose|i: int| 0 <= i < list.len() && key_in(#[trigger] list[i], key);
            assert(key_in(list[i], key));
            assert(key_in(range, key));
        }
    }
}

/// A range that is put together from single values of the first columns and a range of the next one
/// holds exactly the keys whose first values are among the single values and whose next value is in
/// the range.
pub proof fn combined_range_holds_matching_keys(
    range: RangeView,
    eqs: Seq<RangeView>,
    key: Seq<DataValueView>,
)
    requires
        all_single(eqs),
        eqs.len() < key.len(),
        tells_keys(range, key.len() == eqs.len() + 1),
        combined(range, eqs) is Some,
    ensures
        key_in(combined(range, eqs)->0, key) <==> fits_first(key, eqs) && contains(
            range,
            key[eqs.len() as int],
        ),
{
    let keys = first_keys(eqs)->0;
    lemma_first_keys(eqs, key);
    lemma_behind_keys(range, keys, eqs.len(), key);
    lemma_key_assembled(behind_keys(range, keys), key);
}

/// The range of one composite key.
spec fn exactly(key: Seq<DataValueView>) -> RangeView {
    RangeView::Eq(DataValueView::Tuple(key, false))
}

proof fn lemma_single_behind(range: RangeView, keys: Seq<Seq<DataValueView>>)
    requires
        values_of(range) is Some,
        flat(pieces(range)),
    ensures
        behind_keys(range, keys) == followed_by(keys, values_of(range)->0).map_values(
            |key: Seq<DataValueView>| exactly(key),
        ),
    decreases keys.len(),
{
    let values = values_of(range)->0;
    let made = followed_by(keys, values).map_values(|key: Seq<DataValueView>| exactly(key));
    if keys.len() > 0 {
        let front = keys.drop_last();
        lemma_single_behind(range, front);
        let last = keys.last();
        let own = pieces(tuple_range(range, last));
        let more = values.map_values(|value: DataValueView| last.push(value));
        assert(own.len() == values.len());
        assert forall|i: int| 0 <= i < own.len() implies own[i] == exactly(more[i]) by {
            assert(pieces(range)[i] is Eq);
            if range is SortedRanges {
                assert(own[i] == tuple_range(pieces(range)[i], last));
            }
        }
        assert(own =~= more.map_values(|key: Seq<DataValueView>| exactly(key)));
        assert(behind_keys(range, keys) =~= made);
    } else {
        assert(behind_keys(range, keys) =~= made);
    }
}

proof fn lemma_prefix_piece(values: Seq<DataValueView>, key: Seq<DataValueView>)
    requires
        values.len() <= key.len(),
    ensures
        key_in(prefix_range(exactly(values)), key) <==> begins(key, values),
{
    lemma_place_whole(key, values, false);
    lemma_place_whole(key, values, true);
}

/// Keys that begin with one of several composite keys.
proof fn lemma_prefix_range(
    keys: Seq<Seq<DataValueView>>,
    len: nat,
    key: Seq<DataValueView>,
)
    requires
        forall|j: int| 0 <= j < keys.len() ==> (#[trigger] keys[j]).len() == len,
        len <= key.len(),
    ensures
        key_in(
            prefix_range(
                assembled(keys.map_values(|key: Seq<DataValueView>| exactly(key))),
            ),
            key,
        ) <==> begins_with_one(key, keys),
{
    let list = keys.map_values(|key: Seq<DataValueView>| exactly(key));
    let range = prefix_range(assembled(list));
    if keys.len() == 1 {
        assert(list[0] == exactly(keys[0]));
        lemma_prefix_piece(keys[0], key);
        if begins_with_one(key, keys) {
            let j = choose|j: int| 0 <= j < keys.len() && begins(key, #[trigger] keys[j]);
            assert(j == 0);
        }
        if begins(key, keys[0]) {
            assert(begins_with_one(key, keys));
        }
    } else if keys.len() > 1 {
        let ranges = range->SortedRanges_0;
        assert forall|j: int| 0 <= j < keys.len() implies #[trigger] ranges[j] == prefix_range(
            exactly(keys[j]),
        ) && (key_in(ranges[j], key) <==> begins(key, keys[j])) by {
            assert(list[j] == exactly(keys[j]));
            lemma_prefix_piece(keys[j], key);
        }
        if key_in(range, key) {
            let j = choose|j: int| 0 <= j < ranges.len() && key_in(#[trigger] ranges[j], key);
            assert(begins(key, keys[j]));
        }
        if begins_with_one(key, keys) {
            let j = choose|j: int| 0 <= j < keys.len() && begins(key, #[trigger] keys[j]);
            assert(key_in(ranges[j], key));
        }
    }
}

/// Whether what is known of the columns of an index is in order: single values of the first ones, and
/// a range of the next one, if any.
pub open spec fn prefix_fits(prefix: KeyPrefix, column_count: nat) -> bool {
    &&& all_single(prefix.eqs)
    &&& prefix.tail matches Some(range) ==> flat(pieces(range))
    &&& prefix.used == prefix.eqs.len() + (if prefix.tail is Some {
        1nat
    } else {
        0nat
    })
    &&& prefix.used <= column_count
}

/// Whether the values of a key are as known of the columns of the index.
pub open spec fn key_fits(prefix: KeyPrefix, key: Seq<DataValueView>) -> bool {
    &&& fits_first(key, prefix.eqs)
    &&& prefix.tail matches Some(range) ==> contains(range, key[prefix.eqs.len() as int])
}

/// The range of composite keys holds exactly the keys whose values are as known of the columns. Where
/// columns are left behind a range, that range has to be made of ends only.
pub proof fn key_range_holds_matching_keys(
    prefix: KeyPrefix,
    column_count: nat,
    key: Seq<DataValueView>,
)
    requires
        prefix_fits(prefix, column_count),
        key.len() == column_count,
        prefix.tail matches Some(range) ==> tells_keys(range, prefix.used == column_count),
    ensures
        key_range(prefix, column_count) is Some <==> prefix.used > 0,
        key_range(prefix, column_count) matches Some(range) ==> (key_in(range, key) <==> key_fits(
            prefix,
            key,
        )),
{
    let eqs = prefix.eqs;
    match prefix.tail {
        Some(tail) => {
            single_values_can_be_combined(tail, eqs);
            combined_range_holds_matching_keys(tail, eqs, key);
            let range = combined(tail, eqs)->0;
            if prefix.used != column_count {
                let keys = first_keys(eqs)->0;
                let list = behind_keys(tail, keys);
                lemma_scopes_behind(tail, keys);
                if list.len() > 0 {
                    assert(list[0] is Scope);
                    assert(!Range::single_values(list[0]));
                }
                assert(!Range::single_values(range));
            }
        },
        None => {
            if eqs.len() > 0 {
                let front = eqs.drop_last();
                let last = eqs.last();
                assert(all_single(front)) by {
                    assert forall|i: int| 0 <= i < front.len() implies Range::single_values(
                        #[trigger] front[i],
                    ) && flat(pieces(front[i])) by {
                        assert(front[i] == eqs[i]);
                    }
                }
                assert(Range::single_values(eqs[eqs.len() - 1]) && flat(
                    pieces(eqs[eqs.len() - 1]),
                ));
                single_values_can_be_combined(last, front);
                single_values_can_be_combined(last, eqs);
                assert(values_of(last) is Some);
                let keys = first_keys(front)->0;
                lemma_single_behind(last, keys);
                lemma_first_keys(eqs, key);
                let all = first_keys(eqs)->0;
                assert(all == followed_by(keys, values_of(last)->0));
                let list = all.map_values(|key: Seq<DataValueView>| exactly(key));
                let range = combined(last, front)->0;
                assert(range == assembled(list));
                if prefix.used != column_count {
                    lemma_prefix_range(all, eqs.len(), key);
                    if list.len() > 0 {
                        lemma_exact_single(list, all);
                    }
                } else {
                    combined_range_holds_matching_keys(last, front, key);
                    lemma_fits_last(key, eqs);
                }
            }
        },
    }
}

proof fn lemma_fits_last(key: Seq<DataValueView>, eqs: Seq<RangeView>)
    requires
        0 < eqs.len() <= key.len(),
    ensures
        fits_first(key, eqs) <==> fits_first(key, eqs.drop_last()) && contains(
            eqs.last(),
            key[eqs.len() - 1],
        ),
{
    let front = eqs.drop_last();
    if fits_first(key, eqs) {
        assert forall|i: int| 0 <= i < front.len() implies contains(
            #[trigger] front[i],
            key[i],
        ) by {
            assert(contains(eqs[i], key[i]));
        }
        assert(contains(eqs[eqs.len() - 1], key[eqs.len() - 1]));
    }
    if fits_first(key, front) && contains(eqs.last(), key[eqs.len() - 1]) {
        assert forall|i: int| 0 <= i < eqs.len() implies contains(#[trigger] eqs[i], key[i]) by {
            if i < front.len() {
                assert(contains(front[i], key[i]));
            }
        }
    }
}

proof fn lemma_exact_single(list: Seq<RangeView>, keys: Seq<Seq<DataValueView>>)
    requires
        list == keys.map_values(|key: Seq<DataValueView>| exactly(key)),
        list.len() > 0,
    ensures
        Range::single_values(assembled(list)),
{
    assert forall|i: int| 0 <= i < list.len() implies Range::single_values(
        #[trigger] list[i],
    ) by {
        assert(list[i] == exactly(keys[i]));
    }
}

proof fn lemma_scopes_behind(range: RangeView, keys: Seq<Seq<DataValueView>>)
    requires
        tells_keys(range, false),
    ensures
        forall|i: int|
            0 <= i < behind_keys(range, keys).len() ==> (#[trigger] behind_keys(range, keys)[i])
                is Scope,
    decreases keys.len(),
{
    if keys.len() > 0 {
        let front = keys.drop_last();
        lemma_scopes_behind(range, front);
        let own = pieces(tuple_range(range, keys.last()));
        assert forall|i: int| 0 <= i < own.len() implies (#[trigger] own[i]) is Scope by {
            assert(pieces(range)[i] is Scope);
            if range is SortedRanges {
                assert(own[i] == tuple_range(pieces(range)[i], keys.last()));
            }
        }
        let all = behind_keys(range, keys);
        let before = behind_keys(range, front);
        assert forall|i: int| 0 <= i < all.len() implies (#[trigger] all[i]) is Scope by {
            if i < before.len() {
                assert(all[i] == before[i]);
            } else {
                assert(all[i] == own[i - before.len()]);
            }
        }
    }
}

/// The stored values of the columns of an index.
pub open spec fn stored_key(stored: Stored, column_ids: Seq<ColumnId>) -> Seq<DataValueView> {
    column_ids.map_values(|id: ColumnId| stored(id))
}

proof fn lemma_detached_flat(
    arena: ArenaView,
    table: Seq<char>,
    column_id: ColumnId,
    parts: Seq<ExprRef>,
)
    ensures
        detach_parts(arena, table, column_id, parts).range matches Some(range) ==> flat(
            pieces(range),
        ),
    decreases parts.len(),
{
    if parts.len() > 0 {
        lemma_detached_flat(arena, table, column_id, parts.drop_last());
        let last = parts.last();
        let any = DataValueView::Plain(DataValue::Null);
        crate::expression::range_detacher::key_range_holds_matching_values(
            arena,
            table,
            column_id,
            last,
            any,
        );
        let sofar = detach_parts(arena, table, column_id, parts.drop_last());
        let by = crate::expression::range_detacher::key_range(arena, table, column_id, last);
        if by is Some && sofar.range is Some && narrowed(sofar.range, by->0) is Some {
            common_holds_values_of_both(sofar.range->0, by->0, any);
        }
    }
}

/// Predicates hold exactly where the stored values of the columns of an index are as the predicates
/// fix them, column after column, and the rest of the predicates holds.
pub proof fn fixed_columns_mean_the_predicates(
    meaning: Meaning,
    arena: ArenaView,
    index: IndexMetaView,
    position: nat,
    parts: Seq<ExprRef>,
    eqs: Seq<RangeView>,
    stored: Stored,
    row: Row,
)
    requires
        arena.wf(),
        conjoins(meaning),
        disjoins(meaning),
        compares_by_order(meaning),
        holds_stored(arena, index.table_name, stored, row),
        arena.has_exprs(parts),
        position == eqs.len(),
        position <= index.column_ids.len(),
        all_single(eqs),
    ensures
        ({
            let prefix = key_prefix(arena, index, position, parts, eqs);
            let key = stored_key(stored, index.column_ids);
            &&& prefix_fits(prefix, index.column_ids.len())
            &&& fits_first(key, eqs) && all_met(meaning, arena.exprs, parts, by_column(row))
                <==> key_fits(prefix, key) && all_met(
                meaning,
                arena.exprs,
                prefix.rest,
                by_column(row),
            )
            &&& arena.has_exprs(prefix.rest)
        }),
    decreases index.column_ids.len() - position,
{
    let key = stored_key(stored, index.column_ids);
    if position < index.column_ids.len() && parts.len() > 0 {
        let id = index.column_ids[position as int];
        range_and_rest_mean_the_predicates(
            meaning,
            arena,
            index.table_name,
            id,
            parts,
            stored,
            row,
        );
        lemma_detached_flat(arena, index.table_name, id, parts);
        let detached = detach_parts(arena, index.table_name, id, parts);
        assert(key[position as int] == stored(id));
        if let Some(range) = detached.range {
            if Range::single_values(range) {
                let more = eqs.push(range);
                assert(all_single(more)) by {
                    assert forall|i: int| 0 <= i < more.len() implies Range::single_values(
                        #[trigger] more[i],
                    ) && flat(pieces(more[i])) by {
                        if i < eqs.len() {
                            assert(more[i] == eqs[i]);
                        }
                    }
                }
                assert(more.drop_last() =~= eqs);
                lemma_fits_last(key, more);
                fixed_columns_mean_the_predicates(
                    meaning,
                    arena,
                    index,
                    position + 1,
                    detached.rest,
                    more,
                    stored,
                    row,
                );
            }
        }
    }
}

/// A predicate that was pushed to an index with composite keys holds exactly where the stored key is in
/// the range that is looked up and what is left of the predicate holds. Where columns are left behind
/// the range of a column, that range has to be made of ends only.
pub proof fn pushed_key_range_means_the_predicate(
    meaning: Meaning,
    before: ArenaView,
    after: ArenaView,
    columns: Seq<ColumnRef>,
    predicate: ExprRef,
    info: IndexInfoView,
    res: IndexInfoView,
    stored: Stored,
    row: Row,
)
    requires
        before.wf(),
        before.exprs.is_prefix_of(after.exprs),
        before.has_expr(predicate),
        conjoins(meaning),
        disjoins(meaning),
        compares_by_order(meaning),
        info_pushed(before, after, columns, predicate, info, res),
        ({
            let index = before.indexes[info.meta.0 as int];
            let parts = conjuncts(before.exprs, predicate);
            let prefix = key_prefix(before, index, 0, parts, Seq::empty());
            &&& composite(index.ty)
            &&& holds_stored(before, index.table_name, stored, row)
            &&& prefix.tail matches Some(range) ==> tells_keys(
                range,
                prefix.used == index.column_ids.len(),
            )
        }),
    ensures
        res.meta == info.meta,
        info.lookup is None && res.lookup is Some ==> {
            let key = stored_key(stored, before.indexes[info.meta.0 as int].column_ids);
            &&& res.lookup matches Some(IndexLookupView::Static(range)) && (met(
                meaning,
                before.exprs,
                predicate,
                by_column(row),
            ) <==> key_in(range, key) && met_if_any(
                meaning,
                after.exprs,
                res.residual_predicate,
                by_column(row),
            ))
        },
{
    let index = before.indexes[info.meta.0 as int];
    let parts = conjuncts(before.exprs, predicate);
    let reader = by_column(row);
    let none: Seq<RangeView> = Seq::empty();
    let prefix = key_prefix(before, index, 0, parts, none);
    let key = stored_key(stored, index.column_ids);
    conjunction_holds_with_its_parts(meaning, before.exprs, predicate, reader);
    lemma_conjuncts_bounded(before.exprs, predicate);
    assert(before.has_exprs(parts));
    fixed_columns_mean_the_predicates(meaning, before, index, 0, parts, none, stored, row);
    key_range_holds_matching_keys(prefix, index.column_ids.len(), key);
    let search = key_search(before, index, predicate);
    if info.lookup is None && search.range is Some {
        lemma_met_parts(meaning, after.exprs, res.residual_predicate, reader);
        lemma_all_met_extend(meaning, before, after, search.rest, reader);
    }
}

/// Keys that fit the same single values have the same values in the columns with one value each, so
/// that an order may leave these columns out.
pub proof fn fixed_columns_have_one_value(
    prefix: KeyPrefix,
    first: Seq<DataValueView>,
    second: Seq<DataValueView>,
    i: int,
)
    requires
        key_fits(prefix, first),
        key_fits(prefix, second),
        0 <= i < prefix.eqs.len(),
        prefix.eqs[i] is Eq,
    ensures
        DataValue::order(first[i], second[i]) == Some(Order::Same),
{
    let one = prefix.eqs[i]->Eq_0;
    assert(contains(prefix.eqs[i], first[i]));
    assert(contains(prefix.eqs[i], second[i]));
    lemma_order_all(one, first[i], second[i]);
    lemma_order_flip(one, first[i]);
    lemma_order_flip(one, second[i]);
    lemma_order_flip(first[i], second[i]);
}

/// The order of an index keeps its keys when a predicate is pushed to the index, and of those only the
/// first ones may be left out, in which all rows that meet the predicate are the same, as long as the
/// predicate allows one value for each.
pub proof fn left_out_columns_are_the_same(
    meaning: Meaning,
    before: ArenaView,
    after: ArenaView,
    columns: Seq<ColumnRef>,
    predicate: ExprRef,
    info: IndexInfoView,
    res: IndexInfoView,
    first: (Stored, Row),
    second: (Stored, Row),
    i: int,
)
    requires
        before.wf(),
        before.has_expr(predicate),
        conjoins(meaning),
        disjoins(meaning),
        compares_by_order(meaning),
        info_pushed(before, after, columns, predicate, info, res),
        info.lookup is None,
        before.indexes[info.meta.0 as int].column_ids.len() <= usize::MAX,
        ({
            let index = before.indexes[info.meta.0 as int];
            let parts = conjuncts(before.exprs, predicate);
            let prefix = key_prefix(before, index, 0, parts, Seq::empty());
            &&& composite(index.ty)
            &&& holds_stored(before, index.table_name, first.0, first.1)
            &&& holds_stored(before, index.table_name, second.0, second.1)
            &&& forall|k: int| 0 <= k < prefix.eqs.len() ==> (#[trigger] prefix.eqs[k]) is Eq
        }),
        met(meaning, before.exprs, predicate, by_column(first.1)),
        met(meaning, before.exprs, predicate, by_column(second.1)),
    ensures
        res.sort_option matches SortOptionView::OrderBy { fields, ignore_prefix_len } && (
        info.sort_option is OrderBy ==> fields == info.sort_option->fields) && ({
            let ids = before.indexes[info.meta.0 as int].column_ids;
            &&& ignore_prefix_len <= ids.len()
            &&& 0 <= i < ignore_prefix_len ==> DataValue::order(first.0(ids[i]), second.0(ids[i]))
                == Some(Order::Same)
        }),
{
    let index = before.indexes[info.meta.0 as int];
    let parts = conjuncts(before.exprs, predicate);
    let none: Seq<RangeView> = Seq::empty();
    let prefix = key_prefix(before, index, 0, parts, none);
    conjunction_holds_with_its_parts(meaning, before.exprs, predicate, by_column(first.1));
    conjunction_holds_with_its_parts(meaning, before.exprs, predicate, by_column(second.1));
    lemma_conjuncts_bounded(before.exprs, predicate);
    assert(before.has_exprs(parts));
    fixed_columns_mean_the_predicates(
        meaning,
        before,
        index,
        0,
        parts,
        none,
        first.0,
        first.1,
    );
    fixed_columns_mean_the_predicates(
        meaning,
        before,
        index,
        0,
        parts,
        none,
        second.0,
        second.1,
    );
    let one = stored_key(first.0, index.column_ids);
    let other = stored_key(second.0, index.column_ids);
    if 0 <= i < prefix.eqs.len() {
        assert(prefix.eqs[i] is Eq);
        fixed_columns_have_one_value(prefix, one, other, i);
    }
}

} // verus!
