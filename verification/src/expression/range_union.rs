//! Ranges that are made of several ones.

use crate::expression::range_detacher::{
    above_min, below_max, between, contains, end_value, intersection,
    intersection_holds_common_values, lemma_between, lemma_order_all, lemma_order_flip,
    lemma_order_total, range_views, Bound, BoundView, Range, RangeView,
};
use crate::types::value::{DataValue, DataValueView, Order};
use vstd::prelude::*;

verus! {

/// The ranges that a range is made of.
pub open spec fn pieces(range: RangeView) -> Seq<RangeView> {
    match range {
        RangeView::Dummy => Seq::empty(),
        RangeView::SortedRanges(ranges) => ranges,
        range => seq![range],
    }
}

/// The range that is made of the given ones.
pub open spec fn assembled(list: Seq<RangeView>) -> RangeView {
    if list.len() == 0 {
        RangeView::Dummy
    } else if list.len() == 1 {
        list[0]
    } else {
        RangeView::SortedRanges(list)
    }
}

/// Whether a value is in one of the ranges.
pub open spec fn held(list: Seq<RangeView>, value: DataValueView) -> bool {
    exists|i: int| 0 <= i < list.len() && contains(#[trigger] list[i], value)
}

/// Whether a value is in no two of the ranges.
pub open spec fn held_once(list: Seq<RangeView>, value: DataValueView) -> bool {
    forall|i: int, j: int|
        0 <= i < list.len() && 0 <= j < list.len() && contains(#[trigger] list[i], value)
            && contains(#[trigger] list[j], value) ==> i == j
}

/// Whether none of the ranges is itself made of several ones.
pub open spec fn flat(list: Seq<RangeView>) -> bool {
    forall|i: int| 0 <= i < list.len() ==> !((#[trigger] list[i]) is SortedRanges)
}

/// The two ends of a range that is not made of several ones.
pub open spec fn ends(range: RangeView) -> Option<(BoundView, BoundView)> {
    match range {
        RangeView::Scope { min, max } => Some((min, max)),
        RangeView::Eq(one) => Some((BoundView::Included(one), BoundView::Included(one))),
        _ => None,
    }
}

/// Whether nothing is both below an upper end and above a lower one, where these can be compared.
pub open spec fn ends_apart(max: BoundView, min: BoundView) -> Option<bool> {
    match (end_value(max), end_value(min)) {
        (Some(high), Some(low)) => match DataValue::order(high, low) {
            None => None,
            Some(Order::Before) => Some(true),
            Some(Order::After) => Some(false),
            Some(Order::Same) => Some(!(max is Included && min is Included)),
        },
        _ => Some(false),
    }
}

/// How two ranges lie to each other, where they can be compared: neither before nor after the other
/// if they share a value.
pub open spec fn placement(left: RangeView, right: RangeView) -> Option<Order> {
    match (ends(left), ends(right)) {
        (Some((min, max)), Some((min2, max2))) => match (
            ends_apart(max, min2),
            ends_apart(max2, min),
        ) {
            (Some(before), Some(after)) => if before {
                Some(Order::Before)
            } else if after {
                Some(Order::After)
            } else {
                Some(Order::Same)
            },
            _ => None,
        },
        _ => None,
    }
}

/// The lower of two lower ends, where they can be compared.
pub open spec fn lower_min(left: BoundView, right: BoundView) -> Option<BoundView> {
    match (end_value(left), end_value(right)) {
        (None, _) => Some(left),
        (_, None) => Some(right),
        (Some(l), Some(r)) => match DataValue::order(l, r) {
            None => None,
            Some(Order::Before) => Some(left),
            Some(Order::After) => Some(right),
            Some(Order::Same) => if left is Included {
                Some(left)
            } else {
                Some(right)
            },
        },
    }
}

/// The higher of two upper ends, where they can be compared.
pub open spec fn higher_max(left: BoundView, right: BoundView) -> Option<BoundView> {
    match (end_value(left), end_value(right)) {
        (None, _) => Some(left),
        (_, None) => Some(right),
        (Some(l), Some(r)) => match DataValue::order(l, r) {
            None => None,
            Some(Order::Before) => Some(right),
            Some(Order::After) => Some(left),
            Some(Order::Same) => if left is Included {
                Some(left)
            } else {
                Some(right)
            },
        },
    }
}

/// The values from the lower to the higher end of two ranges, where these can be compared and are
/// not both open: a range without ends would hold values that no comparison holds of.
pub open spec fn hull(left: RangeView, right: RangeView) -> Option<RangeView> {
    match (ends(left), ends(right)) {
        (Some((min, max)), Some((min2, max2))) => match (
            lower_min(min, min2),
            higher_max(max, max2),
        ) {
            (Some(low), Some(high)) => if low is Unbounded && high is Unbounded {
                None
            } else {
                between(low, high)
            },
            _ => None,
        },
        _ => None,
    }
}

/// The ranges with one more, given that those before a position share nothing with it and `at` of
/// them are below it. A range that shares a value with it is merged into it.
pub open spec fn placed(
    list: Seq<RangeView>,
    piece: RangeView,
    i: nat,
    at: nat,
) -> Option<Seq<RangeView>>
    decreases list.len(), list.len() - i,
{
    if i >= list.len() {
        Some(list.insert(at as int, piece))
    } else {
        match placement(list[i as int], piece) {
            None => None,
            Some(Order::Before) => placed(list, piece, i + 1, i + 1),
            Some(Order::After) => placed(list, piece, i + 1, at),
            Some(Order::Same) => match hull(list[i as int], piece) {
                None => None,
                Some(merged) => placed(list.remove(i as int), merged, 0, 0),
            },
        }
    }
}

/// The ranges with some more.
pub open spec fn united(list: Seq<RangeView>, more: Seq<RangeView>) -> Option<Seq<RangeView>>
    decreases more.len(),
{
    if more.len() == 0 {
        Some(list)
    } else {
        match united(list, more.drop_last()) {
            None => None,
            Some(sofar) => placed(sofar, more.last(), 0, 0),
        }
    }
}

/// The values of either range, where the ranges can be compared.
pub open spec fn union(left: RangeView, right: RangeView) -> Option<RangeView> {
    match united(pieces(left), pieces(right)) {
        None => None,
        Some(list) => Some(assembled(list)),
    }
}

/// What the ranges share with one more, where they can be compared.
pub open spec fn shared_with(list: Seq<RangeView>, piece: RangeView) -> Option<Seq<RangeView>>
    decreases list.len(),
{
    if list.len() == 0 {
        Some(Seq::empty())
    } else {
        match (shared_with(list.drop_last(), piece), intersection(list.last(), piece)) {
            (Some(sofar), Some(RangeView::Dummy)) => Some(sofar),
            (Some(sofar), Some(range)) => Some(sofar.push(range)),
            _ => None,
        }
    }
}

/// What the ranges share with some others, where they can be compared.
pub open spec fn shared(list: Seq<RangeView>, others: Seq<RangeView>) -> Option<Seq<RangeView>>
    decreases others.len(),
{
    if others.len() == 0 {
        Some(Seq::empty())
    } else {
        match (shared(list, others.drop_last()), shared_with(list, others.last())) {
            (Some(sofar), Some(more)) => Some(sofar + more),
            _ => None,
        }
    }
}

/// The values of both ranges, where the ranges can be compared.
pub open spec fn common(left: RangeView, right: RangeView) -> Option<RangeView> {
    match shared(pieces(left), pieces(right)) {
        None => None,
        Some(list) => Some(assembled(list)),
    }
}

/// A range holds what one of its pieces holds.
proof fn lemma_pieces(range: RangeView, value: DataValueView)
    ensures
        held(pieces(range), value) <==> contains(range, value),
{
    if range is Eq || range is Scope {
        assert(pieces(range)[0] == range);
    }
}

/// A range that is assembled holds what one of the ranges holds.
proof fn lemma_assembled(list: Seq<RangeView>, value: DataValueView)
    ensures
        contains(assembled(list), value) <==> held(list, value),
{
    if list.len() == 1 {
        assert(contains(list[0], value) ==> held(list, value));
        if held(list, value) {
            let i = choose|i: int| 0 <= i < list.len() && contains(#[trigger] list[i], value);
            assert(i == 0);
        }
    } else {
        lemma_pieces(assembled(list), value);
        assert(pieces(assembled(list)) =~= list);
    }
}

/// A range holds what is between its ends.
proof fn lemma_ends(range: RangeView, value: DataValueView)
    requires
        ends(range) is Some,
    ensures
        contains(range, value) <==> above_min((ends(range)->0).0, value) && below_max(
            (ends(range)->0).1,
            value,
        ),
{
    if let RangeView::Eq(one) = range {
        lemma_order_flip(one, value);
        lemma_order_flip(value, one);
    }
}

/// Nothing is below an upper end and above a lower one that lies behind it.
proof fn lemma_ends_apart(max: BoundView, min: BoundView, value: DataValueView)
    requires
        ends_apart(max, min) == Some(true),
    ensures
        !(below_max(max, value) && above_min(min, value)),
{
    lemma_order_all(end_value(max)->0, end_value(min)->0, value);
}

/// Ranges of which one lies behind the other share no value.
proof fn lemma_placement(left: RangeView, right: RangeView, value: DataValueView)
    requires
        placement(left, right) is Some,
        placement(left, right) != Some(Order::Same),
    ensures
        !(contains(left, value) && contains(right, value)),
{
    let (min, max) = ends(left)->0;
    let (min2, max2) = ends(right)->0;
    lemma_ends(left, value);
    lemma_ends(right, value);
    if ends_apart(max, min2) == Some(true) {
        lemma_ends_apart(max, min2, value);
    } else {
        lemma_ends_apart(max2, min, value);
    }
}

/// The lower lower end admits exactly what one of the lower ends admits.
proof fn lemma_lower_min(left: BoundView, right: BoundView, value: DataValueView)
    requires
        lower_min(left, right) is Some,
    ensures
        above_min(lower_min(left, right)->0, value) <==> above_min(left, value) || above_min(
            right,
            value,
        ),
{
    if end_value(left) is Some && end_value(right) is Some {
        lemma_order_all(end_value(left)->0, end_value(right)->0, value);
    }
}

/// The higher upper end admits exactly what one of the upper ends admits.
proof fn lemma_higher_max(left: BoundView, right: BoundView, value: DataValueView)
    requires
        higher_max(left, right) is Some,
    ensures
        below_max(higher_max(left, right)->0, value) <==> below_max(left, value) || below_max(
            right,
            value,
        ),
{
    if end_value(left) is Some && end_value(right) is Some {
        lemma_order_all(end_value(left)->0, end_value(right)->0, value);
    }
}

/// A value between the outer ends of two ranges that share a value is in one of them.
proof fn lemma_no_gap(
    first: (BoundView, BoundView),
    second: (BoundView, BoundView),
    value: DataValueView,
)
    requires
        ends_apart(first.1, second.0) == Some(false),
        lower_min(first.0, second.0) is Some,
        higher_max(first.1, second.1) is Some,
        !(first.0 is Unbounded && second.1 is Unbounded),
        above_min(first.0, value),
        below_max(second.1, value),
    ensures
        below_max(first.1, value) || above_min(second.0, value),
{
    if end_value(first.1) is Some && end_value(second.0) is Some {
        let high = end_value(first.1)->0;
        let low = end_value(second.0)->0;
        lemma_order_all(high, low, value);
        lemma_order_total(high, low, value);
        lemma_order_total(low, high, value);
        if end_value(first.0) is Some {
            let start = end_value(first.0)->0;
            lemma_order_all(start, low, value);
            lemma_order_total(low, start, value);
        }
        if end_value(second.1) is Some {
            let end = end_value(second.1)->0;
            lemma_order_all(end, high, value);
            lemma_order_total(high, end, value);
        }
    }
}

/// The hull of two ranges that share a value holds exactly the values of either.
proof fn lemma_hull(left: RangeView, right: RangeView, value: DataValueView)
    requires
        placement(left, right) == Some(Order::Same),
        hull(left, right) is Some,
    ensures
        contains(hull(left, right)->0, value) <==> contains(left, value) || contains(right, value),
{
    let (min, max) = ends(left)->0;
    let (min2, max2) = ends(right)->0;
    let low = lower_min(min, min2)->0;
    let high = higher_max(max, max2)->0;
    lemma_ends(left, value);
    lemma_ends(right, value);
    lemma_lower_min(min, min2, value);
    lemma_higher_max(max, max2, value);
    lemma_between(low, high, value);
    if above_min(min, value) && below_max(max2, value) {
        lemma_no_gap((min, max), (min2, max2), value);
    }
    if above_min(min2, value) && below_max(max, value) {
        if end_value(min) is Some && end_value(min2) is Some {
            lemma_order_flip(end_value(min)->0, end_value(min2)->0);
        }
        if end_value(max) is Some && end_value(max2) is Some {
            lemma_order_flip(end_value(max)->0, end_value(max2)->0);
        }
        lemma_no_gap((min2, max2), (min, max), value);
    }
}

/// A range that lies apart from others, among them.
proof fn lemma_inserted(list: Seq<RangeView>, piece: RangeView, at: int, value: DataValueView)
    requires
        0 <= at <= list.len(),
        forall|j: int|
            0 <= j < list.len() ==> placement(#[trigger] list[j], piece) is Some && placement(
                list[j],
                piece,
            ) != Some(Order::Same),
    ensures
        held(list.insert(at, piece), value) <==> held(list, value) || contains(piece, value),
        held_once(list, value) ==> held_once(list.insert(at, piece), value),
        flat(list) && !(piece is SortedRanges) ==> flat(list.insert(at, piece)),
{
    let out = list.insert(at, piece);
    assert(out.remove(at) =~= list);
    lemma_removed(out, at, value);
    if flat(list) && !(piece is SortedRanges) {
        assert forall|j: int| 0 <= j < out.len() implies !((#[trigger] out[j]) is SortedRanges) by {
            if j < at {
                assert(out[j] == list[j]);
            } else if j > at {
                assert(out[j] == list[j - 1]);
            }
        }
    }
    if held_once(list, value) {
        assert forall|j: int, k: int|
            0 <= j < out.len() && 0 <= k < out.len() && contains(#[trigger] out[j], value)
                && contains(#[trigger] out[k], value) implies j == k by {
            let x = if j < at {
                j
            } else {
                j - 1
            };
            let y = if k < at {
                k
            } else {
                k - 1
            };
            if j != at && k != at {
                assert(out[j] == list[x] && out[k] == list[y]);
            } else if j != at {
                assert(out[j] == list[x]);
                lemma_placement(list[x], piece, value);
            } else if k != at {
                assert(out[k] == list[y]);
                lemma_placement(list[y], piece, value);
            }
        }
    }
}

/// Placing a range among others adds its values, and leaves no value in two of them.
proof fn lemma_placed(
    list: Seq<RangeView>,
    piece: RangeView,
    i: nat,
    at: nat,
    value: DataValueView,
)
    requires
        placed(list, piece, i, at) is Some,
        at <= i,
        i <= list.len(),
        forall|j: int|
            0 <= j < i ==> placement(#[trigger] list[j], piece) is Some && placement(
                list[j],
                piece,
            ) != Some(Order::Same),
    ensures
        held(placed(list, piece, i, at)->0, value) <==> held(list, value) || contains(piece, value),
        held_once(list, value) ==> held_once(placed(list, piece, i, at)->0, value),
        flat(list) && !(piece is SortedRanges) ==> flat(placed(list, piece, i, at)->0),
    decreases list.len(), list.len() - i,
{
    let out = placed(list, piece, i, at)->0;
    if i >= list.len() {
        lemma_inserted(list, piece, at as int, value);
    } else {
        match placement(list[i as int], piece) {
            None => {},
            Some(Order::Before) => lemma_placed(list, piece, i + 1, i + 1, value),
            Some(Order::After) => lemma_placed(list, piece, i + 1, at, value),
            Some(Order::Same) => {
                let merged = hull(list[i as int], piece)->0;
                let others = list.remove(i as int);
                lemma_hull(list[i as int], piece, value);
                lemma_placed(others, merged, 0, 0, value);
                lemma_removed(list, i as int, value);
            },
        }
    }
}

/// What the ranges hold without one of them.
proof fn lemma_removed(list: Seq<RangeView>, i: int, value: DataValueView)
    requires
        0 <= i < list.len(),
    ensures
        held(list, value) <==> held(list.remove(i), value) || contains(list[i], value),
        held_once(list, value) ==> held_once(list.remove(i), value),
{
    let others = list.remove(i);
    if held(list, value) {
        let j = choose|j: int| 0 <= j < list.len() && contains(#[trigger] list[j], value);
        if j != i {
            assert(contains(others[if j < i {
                j
            } else {
                j - 1
            }], value));
        }
    }
    if held(others, value) {
        let j = choose|j: int| 0 <= j < others.len() && contains(#[trigger] others[j], value);
        assert(contains(list[if j < i {
            j
        } else {
            j + 1
        }], value));
    }
    if held_once(list, value) {
        assert forall|j: int, k: int|
            0 <= j < others.len() && 0 <= k < others.len() && contains(#[trigger] others[j], value)
                && contains(#[trigger] others[k], value) implies j == k by {
            let x = if j < i {
                j
            } else {
                j + 1
            };
            let y = if k < i {
                k
            } else {
                k + 1
            };
            assert(contains(list[x], value) && contains(list[y], value));
        }
    }
}

/// Uniting ranges adds their values, and leaves no value in two of them.
proof fn lemma_united(list: Seq<RangeView>, more: Seq<RangeView>, value: DataValueView)
    requires
        united(list, more) is Some,
    ensures
        held(united(list, more)->0, value) <==> held(list, value) || held(more, value),
        held_once(list, value) ==> held_once(united(list, more)->0, value),
        flat(list) && flat(more) ==> flat(united(list, more)->0),
    decreases more.len(),
{
    if more.len() > 0 {
        let sofar = united(list, more.drop_last())->0;
        lemma_united(list, more.drop_last(), value);
        lemma_placed(sofar, more.last(), 0, 0, value);
        assert(flat(more) ==> flat(more.drop_last()) && !(more[more.len() - 1] is SortedRanges));
        lemma_removed(more, more.len() - 1, value);
        assert(more.remove(more.len() - 1) =~= more.drop_last());
    }
}

/// The union of two ranges holds exactly the values of either, and none of them twice.
pub proof fn union_holds_values_of_either(left: RangeView, right: RangeView, value: DataValueView)
    requires
        union(left, right) is Some,
        flat(pieces(left)),
        flat(pieces(right)),
    ensures
        contains(union(left, right)->0, value) <==> contains(left, value) || contains(right, value),
        held_once(pieces(left), value) ==> held_once(pieces(union(left, right)->0), value),
        flat(pieces(union(left, right)->0)),
{
    let list = united(pieces(left), pieces(right))->0;
    lemma_united(pieces(left), pieces(right), value);
    lemma_pieces(left, value);
    lemma_pieces(right, value);
    lemma_assembled(list, value);
    lemma_reassembled(list, value);
}

/// What two ranges have in common holds exactly the values of both, and none of them twice.
pub proof fn common_holds_values_of_both(left: RangeView, right: RangeView, value: DataValueView)
    requires
        common(left, right) is Some,
    ensures
        contains(common(left, right)->0, value) <==> contains(left, value) && contains(
            right,
            value,
        ),
        held_once(pieces(left), value) && held_once(pieces(right), value) ==> held_once(
            pieces(common(left, right)->0),
            value,
        ),
        flat(pieces(common(left, right)->0)),
{
    let list = shared(pieces(left), pieces(right))->0;
    lemma_shared(pieces(left), pieces(right), value);
    lemma_pieces(left, value);
    lemma_pieces(right, value);
    lemma_assembled(list, value);
    lemma_reassembled(list, value);
}

/// A range that is assembled is made of ranges that are as far apart.
proof fn lemma_reassembled(list: Seq<RangeView>, value: DataValueView)
    requires
        flat(list),
    ensures
        held_once(list, value) ==> held_once(pieces(assembled(list)), value),
        flat(pieces(assembled(list))),
{
}

/// What ranges share with one more is what they and it hold.
proof fn lemma_shared_with(list: Seq<RangeView>, piece: RangeView, value: DataValueView)
    requires
        shared_with(list, piece) is Some,
    ensures
        held(shared_with(list, piece)->0, value) <==> held(list, value) && contains(piece, value),
        held_once(list, value) ==> held_once(shared_with(list, piece)->0, value),
        flat(shared_with(list, piece)->0),
    decreases list.len(),
{
    if list.len() > 0 {
        let front = list.drop_last();
        let sofar = shared_with(front, piece)->0;
        let out = shared_with(list, piece)->0;
        let range = intersection(list.last(), piece)->0;
        lemma_shared_with(front, piece, value);
        intersection_holds_common_values(list.last(), piece, value);
        lemma_removed(list, list.len() - 1, value);
        assert(list.remove(list.len() - 1) =~= front);
        if !(range is Dummy) {
            assert(out == sofar.push(range));
            lemma_removed(out, out.len() - 1, value);
            assert(out.remove(out.len() - 1) =~= sofar);
            if held_once(list, value) && contains(range, value) {
                assert(!held(front, value)) by {
                    if held(front, value) {
                        let j = choose|j: int|
                            0 <= j < front.len() && contains(#[trigger] front[j], value);
                        assert(contains(list[j], value) && contains(list[list.len() - 1], value));
                    }
                }
            }
            if held_once(list, value) {
                lemma_pushed(sofar, range, value);
            }
        }
    }
}

/// A range can be added to others that do not hold its values.
proof fn lemma_pushed(list: Seq<RangeView>, range: RangeView, value: DataValueView)
    requires
        held_once(list, value),
        contains(range, value) ==> !held(list, value),
    ensures
        held_once(list.push(range), value),
{
    let out = list.push(range);
    assert forall|j: int, k: int|
        0 <= j < out.len() && 0 <= k < out.len() && contains(#[trigger] out[j], value) && contains(
            #[trigger] out[k],
            value,
        ) implies j == k by {
        if j < list.len() {
            assert(contains(list[j], value));
        }
        if k < list.len() {
            assert(contains(list[k], value));
        }
    }
}

/// What ranges share with others is what both hold.
proof fn lemma_shared(list: Seq<RangeView>, others: Seq<RangeView>, value: DataValueView)
    requires
        shared(list, others) is Some,
    ensures
        held(shared(list, others)->0, value) <==> held(list, value) && held(others, value),
        held_once(list, value) && held_once(others, value) ==> held_once(
            shared(list, others)->0,
            value,
        ),
        flat(shared(list, others)->0),
    decreases others.len(),
{
    if others.len() > 0 {
        let front = others.drop_last();
        let sofar = shared(list, front)->0;
        let more = shared_with(list, others.last())->0;
        let out = sofar + more;
        lemma_shared(list, front, value);
        lemma_shared_with(list, others.last(), value);
        lemma_removed(others, others.len() - 1, value);
        assert(others.remove(others.len() - 1) =~= front);
        if held(sofar, value) {
            let j = choose|j: int| 0 <= j < sofar.len() && contains(#[trigger] sofar[j], value);
            assert(contains(out[j], value));
        }
        if held(more, value) {
            let j = choose|j: int| 0 <= j < more.len() && contains(#[trigger] more[j], value);
            assert(contains(out[sofar.len() + j], value));
        }
        if held(out, value) {
            let j = choose|j: int| 0 <= j < out.len() && contains(#[trigger] out[j], value);
            if j < sofar.len() {
                assert(contains(sofar[j], value));
            } else {
                assert(contains(more[j - sofar.len()], value));
            }
        }
        if held_once(list, value) && held_once(others, value) {
            if contains(others.last(), value) && held(front, value) {
                let j = choose|j: int| 0 <= j < front.len() && contains(#[trigger] front[j], value);
                assert(contains(others[j], value) && contains(others[others.len() - 1], value));
            }
            assert forall|j: int, k: int|
                0 <= j < out.len() && 0 <= k < out.len() && contains(#[trigger] out[j], value)
                    && contains(#[trigger] out[k], value) implies j == k by {
                if j < sofar.len() {
                    assert(contains(sofar[j], value));
                } else {
                    assert(contains(more[j - sofar.len()], value));
                }
                if k < sofar.len() {
                    assert(contains(sofar[k], value));
                } else {
                    assert(contains(more[k - sofar.len()], value));
                }
            }
        }
    }
}

impl Bound {
    /// Whether nothing is both below this upper end and above a lower one.
    fn ends_apart(&self, min: &Bound) -> (res: Option<bool>)
        ensures
            res == ends_apart(self@, min@),
    {
        match (self.end(), min.end()) {
            (Some(high), Some(low)) => match high.compare(low) {
                None => None,
                Some(Order::Before) => Some(true),
                Some(Order::After) => Some(false),
                Some(Order::Same) => match (self, min) {
                    (Bound::Included(_), Bound::Included(_)) => Some(false),
                    _ => Some(true),
                },
            },
            _ => Some(false),
        }
    }

    /// The lower of two lower ends, where they can be compared.
    fn lower_min(&self, other: &Bound) -> (res: Option<Bound>)
        ensures
            match res {
                Some(bound) => lower_min(self@, other@) == Some(bound@),
                None => lower_min(self@, other@) is None,
            },
    {
        match (self.end(), other.end()) {
            (None, _) => Some(self.clone()),
            (_, None) => Some(other.clone()),
            (Some(left), Some(right)) => match left.compare(right) {
                None => None,
                Some(Order::Before) => Some(self.clone()),
                Some(Order::After) => Some(other.clone()),
                Some(Order::Same) => match self {
                    Bound::Included(_) => Some(self.clone()),
                    _ => Some(other.clone()),
                },
            },
        }
    }

    /// The higher of two upper ends, where they can be compared.
    fn higher_max(&self, other: &Bound) -> (res: Option<Bound>)
        ensures
            match res {
                Some(bound) => higher_max(self@, other@) == Some(bound@),
                None => higher_max(self@, other@) is None,
            },
    {
        match (self.end(), other.end()) {
            (None, _) => Some(self.clone()),
            (_, None) => Some(other.clone()),
            (Some(left), Some(right)) => match left.compare(right) {
                None => None,
                Some(Order::Before) => Some(other.clone()),
                Some(Order::After) => Some(self.clone()),
                Some(Order::Same) => match self {
                    Bound::Included(_) => Some(self.clone()),
                    _ => Some(other.clone()),
                },
            },
        }
    }
}

/// The range that is made of the given ones.
pub fn assemble(list: Vec<Range>) -> (res: Range)
    ensures
        res@ == assembled(range_views(list@)),
{
    let mut list = list;
    if list.len() == 0 {
        return Range::Dummy;
    }
    if list.len() == 1 {
        return list.pop().unwrap();
    }
    let ghost views = range_views(list@);
    let res = Range::SortedRanges(list);
    assert(res@->SortedRanges_0 =~= views);
    res
}

/// The ranges with one more.
fn place(list: Vec<Range>, piece: Range) -> (res: Option<Vec<Range>>)
    ensures
        match res {
            Some(out) => placed(range_views(list@), piece@, 0, 0) == Some(range_views(out@)),
            None => placed(range_views(list@), piece@, 0, 0) is None,
        },
{
    let mut out = list;
    let mut one = piece;
    let mut i: usize = 0;
    let mut at: usize = 0;
    while i < out.len()
        invariant
            at <= i <= out.len(),
            placed(range_views(out@), one@, i as nat, at as nat) == placed(
                range_views(list@),
                piece@,
                0,
                0,
            ),
        decreases out.len(), out.len() - i,
    {
        let ghost views = range_views(out@);
        assert(views[i as int] == out@[i as int]@);
        match out[i].placement(&one) {
            None => return None,
            Some(Order::Before) => {
                i += 1;
                at = i;
            },
            Some(Order::After) => {
                i += 1;
            },
            Some(Order::Same) => {
                let merged = match out[i].hull(&one) {
                    None => return None,
                    Some(merged) => merged,
                };
                let ghost gone = i as int;
                out.remove(i);
                assert(range_views(out@) =~= views.remove(gone));
                one = merged;
                i = 0;
                at = 0;
            },
        }
    }
    let ghost views = range_views(out@);
    let ghost last = one@;
    out.insert(at, one);
    assert(range_views(out@) =~= views.insert(at as int, last));
    Some(out)
}

impl Range {
    fn ends(&self) -> (res: Option<(Bound, Bound)>)
        ensures
            match res {
                Some((min, max)) => ends(self@) == Some((min@, max@)),
                None => ends(self@) is None,
            },
    {
        match self {
            Range::Scope { min, max } => Some((min.clone(), max.clone())),
            Range::Eq(one) => Some((Bound::Included(one.clone()), Bound::Included(one.clone()))),
            _ => None,
        }
    }

    /// How two ranges lie to each other, where they can be compared.
    fn placement(&self, other: &Range) -> (res: Option<Order>)
        ensures
            res == placement(self@, other@),
    {
        match (self.ends(), other.ends()) {
            (Some((min, max)), Some((min2, max2))) => match (
                max.ends_apart(&min2),
                max2.ends_apart(&min),
            ) {
                (Some(before), Some(after)) => if before {
                    Some(Order::Before)
                } else if after {
                    Some(Order::After)
                } else {
                    Some(Order::Same)
                },
                _ => None,
            },
            _ => None,
        }
    }

    /// The values from the lower to the higher end of two ranges.
    fn hull(&self, other: &Range) -> (res: Option<Range>)
        ensures
            match res {
                Some(range) => hull(self@, other@) == Some(range@),
                None => hull(self@, other@) is None,
            },
    {
        match (self.ends(), other.ends()) {
            (Some((min, max)), Some((min2, max2))) => match (
                min.lower_min(&min2),
                max.higher_max(&max2),
            ) {
                (Some(Bound::Unbounded), Some(Bound::Unbounded)) => None,
                (Some(low), Some(high)) => Range::between(low, high),
                _ => None,
            },
            _ => None,
        }
    }

    /// The ranges that the range is made of.
    pub fn pieces(&self) -> (res: Vec<Range>)
        ensures
            range_views(res@) == pieces(self@),
    {
        let mut res: Vec<Range> = Vec::new();
        match self {
            Range::Dummy => {},
            Range::SortedRanges(ranges) => {
                let mut i: usize = 0;
                while i < ranges.len()
                    invariant
                        i <= ranges.len(),
                        res@.len() == i,
                        forall|j: int| 0 <= j < i ==> (#[trigger] res@[j])@ == ranges@[j]@,
                    decreases ranges.len() - i,
                {
                    res.push(ranges[i].clone());
                    i += 1;
                }
            },
            range => {
                res.push(range.clone());
            },
        }
        assert(range_views(res@) =~= pieces(self@));
        res
    }

    /// The values of either range, where the ranges can be compared.
    pub fn union(&self, other: &Range) -> (res: Option<Range>)
        ensures
            match res {
                Some(range) => union(self@, other@) == Some(range@),
                None => union(self@, other@) is None,
            },
    {
        let mut list = self.pieces();
        let more = other.pieces();
        let ghost views = range_views(more@);
        let mut i: usize = 0;
        assert(views.take(0) =~= Seq::empty());
        while i < more.len()
            invariant
                i <= more.len(),
                views == range_views(more@),
                views == pieces(other@),
                united(pieces(self@), views.take(i as int)) == Some(range_views(list@)),
            decreases more.len() - i,
        {
            let piece = more[i].clone();
            proof {
                let next = views.take(i + 1);
                assert(next.drop_last() =~= views.take(i as int));
                assert(next.last() == more@[i as int]@);
            }
            match place(list, piece) {
                None => {
                    proof {
                        lemma_united_stays_none(pieces(self@), views, i + 1);
                    }
                    return None;
                },
                Some(next) => {
                    list = next;
                },
            }
            i += 1;
        }
        assert(views.take(i as int) =~= views);
        Some(assemble(list))
    }

    /// What the ranges share with this one.
    fn share_with(&self, list: &Vec<Range>) -> (res: Option<Vec<Range>>)
        ensures
            match res {
                Some(out) => shared_with(range_views(list@), self@) == Some(range_views(out@)),
                None => shared_with(range_views(list@), self@) is None,
            },
    {
        let ghost views = range_views(list@);
        let mut out: Vec<Range> = Vec::new();
        let mut i: usize = 0;
        assert(views.take(0) =~= Seq::empty());
        assert(range_views(out@) =~= Seq::empty());
        while i < list.len()
            invariant
                i <= list.len(),
                views == range_views(list@),
                shared_with(views.take(i as int), self@) == Some(range_views(out@)),
            decreases list.len() - i,
        {
            proof {
                let next = views.take(i + 1);
                assert(next.drop_last() =~= views.take(i as int));
                assert(next.last() == list@[i as int]@);
            }
            let ghost before = range_views(out@);
            match list[i].intersect(self) {
                None => {
                    proof {
                        lemma_shared_with_stays_none(views, self@, i + 1);
                    }
                    return None;
                },
                Some(Range::Dummy) => {},
                Some(range) => {
                    let ghost view = range@;
                    out.push(range);
                    assert(range_views(out@) =~= before.push(view));
                },
            }
            i += 1;
        }
        assert(views.take(i as int) =~= views);
        Some(out)
    }

    /// The values of both ranges, where the ranges can be compared.
    pub fn common(&self, other: &Range) -> (res: Option<Range>)
        ensures
            match res {
                Some(range) => common(self@, other@) == Some(range@),
                None => common(self@, other@) is None,
            },
    {
        let list = self.pieces();
        let others = other.pieces();
        let ghost views = range_views(others@);
        let mut out: Vec<Range> = Vec::new();
        let mut i: usize = 0;
        assert(views.take(0) =~= Seq::empty());
        assert(range_views(out@) =~= Seq::empty());
        while i < others.len()
            invariant
                i <= others.len(),
                views == range_views(others@),
                views == pieces(other@),
                range_views(list@) == pieces(self@),
                shared(pieces(self@), views.take(i as int)) == Some(range_views(out@)),
            decreases others.len() - i,
        {
            proof {
                let next = views.take(i + 1);
                assert(next.drop_last() =~= views.take(i as int));
                assert(next.last() == others@[i as int]@);
            }
            let ghost before = range_views(out@);
            match others[i].share_with(&list) {
                None => {
                    proof {
                        lemma_shared_stays_none(pieces(self@), views, i + 1);
                    }
                    return None;
                },
                Some(more) => {
                    let ghost added = range_views(more@);
                    let mut more = more;
                    out.append(&mut more);
                    assert(range_views(out@) =~= before + added);
                },
            }
            i += 1;
        }
        assert(views.take(i as int) =~= views);
        Some(assemble(out))
    }
}

/// Ranges that cannot be united cannot be united with more.
proof fn lemma_united_stays_none(list: Seq<RangeView>, more: Seq<RangeView>, i: int)
    requires
        0 <= i <= more.len(),
        united(list, more.take(i)) is None,
    ensures
        united(list, more) is None,
    decreases more.len() - i,
{
    if i < more.len() {
        assert(more.take(i + 1).drop_last() =~= more.take(i));
        lemma_united_stays_none(list, more, i + 1);
    } else {
        assert(more.take(i) =~= more);
    }
}

/// Ranges that cannot be compared with one cannot be with more of them.
proof fn lemma_shared_with_stays_none(list: Seq<RangeView>, piece: RangeView, i: int)
    requires
        0 <= i <= list.len(),
        shared_with(list.take(i), piece) is None,
    ensures
        shared_with(list, piece) is None,
    decreases list.len() - i,
{
    if i < list.len() {
        assert(list.take(i + 1).drop_last() =~= list.take(i));
        lemma_shared_with_stays_none(list, piece, i + 1);
    } else {
        assert(list.take(i) =~= list);
    }
}

/// Ranges that cannot be compared with some cannot be with more.
proof fn lemma_shared_stays_none(list: Seq<RangeView>, others: Seq<RangeView>, i: int)
    requires
        0 <= i <= others.len(),
        shared(list, others.take(i)) is None,
    ensures
        shared(list, others) is None,
    decreases others.len() - i,
{
    if i < others.len() {
        assert(others.take(i + 1).drop_last() =~= others.take(i));
        lemma_shared_stays_none(list, others, i + 1);
    } else {
        assert(others.take(i) =~= others);
    }
}

} // verus!
