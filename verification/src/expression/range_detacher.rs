//! Ranges of key values, and how a predicate is split into a range and a rest.

use crate::errors::DatabaseError;
use crate::expression::analysis::{bare, lemma_bare_bounded};
use crate::expression::conjunction::{
    conjoin, conjunction_of, conjuncts, lemma_conjuncts_atomic, lemma_conjuncts_bounded,
    parts_of_all, split_conjunctive_predicates,
};
use crate::expression::range_union::{
    assemble, assembled, common, common_holds_values_of_both, flat, held_once, pieces, union,
    union_holds_values_of_either,
};
use crate::expression::{BinaryOperator, ExprHead, ExprView, ScalarExpression};
use crate::planner::arena::{ArenaView, ExprRef, PlanArena};
use crate::text::same_text;
use crate::types::index::IndexMetaRef;
use crate::types::value::{
    clone_values, int_order, text_order, value_views, DataValue, DataValueView, Order,
};
use crate::types::{ColumnId, LogicalType, LogicalTypeView};
use vstd::prelude::*;

verus! {

/// One end of a range.
#[derive(Debug, PartialEq, Eq, Hash)]
pub enum Bound {
    Included(DataValue),
    Excluded(DataValue),
    Unbounded,
}

/// Mathematical model of a [`Bound`].
pub enum BoundView {
    Included(DataValueView),
    Excluded(DataValueView),
    Unbounded,
}

impl View for Bound {
    type V = BoundView;

    open spec fn view(&self) -> BoundView {
        match self {
            Bound::Included(value) => BoundView::Included(value@),
            Bound::Excluded(value) => BoundView::Excluded(value@),
            Bound::Unbounded => BoundView::Unbounded,
        }
    }
}

impl Clone for Bound {
    fn clone(&self) -> (res: Self)
        ensures
            res@ == self@,
    {
        match self {
            Bound::Included(value) => Bound::Included(value.clone()),
            Bound::Excluded(value) => Bound::Excluded(value.clone()),
            Bound::Unbounded => Bound::Unbounded,
        }
    }
}

/// A set of key values.
#[derive(Debug, PartialEq, Eq, Hash)]
pub enum Range {
    /// The values between two ends.
    Scope { min: Bound, max: Bound },
    /// One value.
    Eq(DataValue),
    /// No value.
    Dummy,
    /// The values of any of the ranges.
    SortedRanges(Vec<Range>),
}

/// Mathematical model of a [`Range`].
pub enum RangeView {
    Scope { min: BoundView, max: BoundView },
    Eq(DataValueView),
    Dummy,
    SortedRanges(Seq<RangeView>),
}

/// The models of the ranges.
pub open spec fn range_views(ranges: Seq<Range>) -> Seq<RangeView> {
    ranges.map_values(|range: Range| range@)
}

impl Range {
    pub open spec fn view(&self) -> RangeView
        decreases self,
    {
        match self {
            Range::Scope { min, max } => RangeView::Scope { min: min@, max: max@ },
            Range::Eq(value) => RangeView::Eq(value@),
            Range::Dummy => RangeView::Dummy,
            Range::SortedRanges(ranges) => RangeView::SortedRanges(
                Seq::new(
                    ranges@.len(),
                    |i: int|
                        if 0 <= i < ranges@.len() {
                            ranges@[i].view()
                        } else {
                            arbitrary()
                        },
                ),
            ),
        }
    }

    /// Whether the range is made of single values.
    pub open spec fn single_values(view: RangeView) -> bool
        decreases view,
    {
        match view {
            RangeView::Eq(_) => true,
            RangeView::SortedRanges(ranges) => forall|i: int|
                0 <= i < ranges.len() ==> Range::single_values(#[trigger] ranges[i]),
            _ => false,
        }
    }

    /// Whether the range is made of single values.
    pub fn only_eq(&self) -> (res: bool)
        ensures
            res == Range::single_values(self@),
        decreases self,
    {
        match self {
            Range::Eq(_) => true,
            Range::SortedRanges(ranges) => {
                let ghost views = self@->SortedRanges_0;
                let mut i: usize = 0;
                while i < ranges.len()
                    invariant
                        i <= ranges.len(),
                        *self == Range::SortedRanges(*ranges),
                        self@ == RangeView::SortedRanges(views),
                        views.len() == ranges.len(),
                        forall|j: int| 0 <= j < i ==> Range::single_values(#[trigger] views[j]),
                    decreases ranges.len() - i,
                {
                    assert(decreases_to!(*self => self->SortedRanges_0@[i as int]));
                    assert(views[i as int] == ranges@[i as int]@);
                    if !ranges[i].only_eq() {
                        proof {
                            let all = self@->SortedRanges_0;
                            assert(!Range::single_values(all[i as int]));
                        }
                        return false;
                    }
                    i += 1;
                }
                true
            },
            _ => false,
        }
    }
}

impl Clone for Range {
    fn clone(&self) -> (res: Self)
        ensures
            res@ == self@,
        decreases self,
    {
        match self {
            Range::Scope { min, max } => Range::Scope { min: min.clone(), max: max.clone() },
            Range::Eq(value) => Range::Eq(value.clone()),
            Range::Dummy => Range::Dummy,
            Range::SortedRanges(ranges) => {
                let mut out: Vec<Range> = Vec::new();
                let mut i: usize = 0;
                while i < ranges.len()
                    invariant
                        i <= ranges.len(),
                        out@.len() == i,
                        *self == Range::SortedRanges(*ranges),
                        forall|j: int| 0 <= j < i ==> out@[j]@ == ranges@[j]@,
                    decreases ranges.len() - i,
                {
                    assert(decreases_to!(*self => self->SortedRanges_0@[i as int]));
                    let range = ranges[i].clone();
                    out.push(range);
                    i += 1;
                }
                let res = Range::SortedRanges(out);
                assert(res@->SortedRanges_0 =~= self@->SortedRanges_0);
                res
            },
        }
    }
}

/// Whether a value is not below the lower end.
pub open spec fn above_min(min: BoundView, value: DataValueView) -> bool {
    match min {
        BoundView::Unbounded => true,
        BoundView::Included(end) => not_after(DataValue::order(end, value)),
        BoundView::Excluded(end) => DataValue::order(end, value) == Some(Order::Before),
    }
}

/// Whether a value is not above the upper end.
pub open spec fn below_max(max: BoundView, value: DataValueView) -> bool {
    match max {
        BoundView::Unbounded => true,
        BoundView::Included(end) => not_after(DataValue::order(value, end)),
        BoundView::Excluded(end) => DataValue::order(value, end) == Some(Order::Before),
    }
}

/// Whether a value is in a range.
pub open spec fn contains(range: RangeView, value: DataValueView) -> bool
    decreases range,
{
    match range {
        RangeView::Scope { min, max } => above_min(min, value) && below_max(max, value),
        RangeView::Eq(one) => DataValue::order(one, value) == Some(Order::Same),
        RangeView::Dummy => false,
        RangeView::SortedRanges(ranges) => exists|i: int|
            0 <= i < ranges.len() && contains(#[trigger] ranges[i], value),
    }
}

/// The value at an end.
pub open spec fn end_value(bound: BoundView) -> Option<DataValueView> {
    match bound {
        BoundView::Included(value) => Some(value),
        BoundView::Excluded(value) => Some(value),
        BoundView::Unbounded => None,
    }
}

/// The higher of two lower ends, where they can be compared.
pub open spec fn higher_min(left: BoundView, right: BoundView) -> Option<BoundView> {
    match (end_value(left), end_value(right)) {
        (None, _) => Some(right),
        (_, None) => Some(left),
        (Some(l), Some(r)) => match DataValue::order(l, r) {
            None => None,
            Some(Order::Before) => Some(right),
            Some(Order::After) => Some(left),
            Some(Order::Same) => if left is Excluded {
                Some(left)
            } else {
                Some(right)
            },
        },
    }
}

/// The lower of two upper ends, where they can be compared.
pub open spec fn lower_max(left: BoundView, right: BoundView) -> Option<BoundView> {
    match (end_value(left), end_value(right)) {
        (None, _) => Some(right),
        (_, None) => Some(left),
        (Some(l), Some(r)) => match DataValue::order(l, r) {
            None => None,
            Some(Order::Before) => Some(left),
            Some(Order::After) => Some(right),
            Some(Order::Same) => if left is Excluded {
                Some(left)
            } else {
                Some(right)
            },
        },
    }
}

/// The values between two ends, where those can be compared: none if the ends cross, one if they
/// meet.
pub open spec fn between(min: BoundView, max: BoundView) -> Option<RangeView> {
    match (end_value(min), end_value(max)) {
        (Some(low), Some(high)) => match DataValue::order(low, high) {
            None => None,
            Some(Order::Before) => Some(RangeView::Scope { min, max }),
            Some(Order::After) => Some(RangeView::Dummy),
            Some(Order::Same) => if min is Included && max is Included {
                Some(RangeView::Eq(low))
            } else {
                Some(RangeView::Dummy)
            },
        },
        _ => Some(RangeView::Scope { min, max }),
    }
}

/// The values of both ranges, where the ranges can be compared.
pub open spec fn intersection(left: RangeView, right: RangeView) -> Option<RangeView> {
    match (left, right) {
        (RangeView::SortedRanges(_), _) => None,
        (_, RangeView::SortedRanges(_)) => None,
        (RangeView::Dummy, _) => Some(RangeView::Dummy),
        (_, RangeView::Dummy) => Some(RangeView::Dummy),
        (RangeView::Eq(l), RangeView::Eq(r)) => match DataValue::order(l, r) {
            None => None,
            Some(Order::Same) => Some(left),
            Some(_) => Some(RangeView::Dummy),
        },
        (RangeView::Eq(one), RangeView::Scope { min, max }) => one_between(one, min, max),
        (RangeView::Scope { min, max }, RangeView::Eq(one)) => one_between(one, min, max),
        (RangeView::Scope { min, max }, RangeView::Scope { min: min2, max: max2 }) => match (
            higher_min(min, min2),
            lower_max(max, max2),
        ) {
            (Some(min), Some(max)) => between(min, max),
            _ => None,
        },
    }
}

/// One value, if it is between two ends with which it can be compared.
pub open spec fn one_between(
    one: DataValueView,
    min: BoundView,
    max: BoundView,
) -> Option<RangeView> {
    if (end_value(min) matches Some(end) && DataValue::order(end, one) is None) || (end_value(
        max,
    ) matches Some(end) && DataValue::order(one, end) is None) {
        None
    } else if above_min(min, one) && below_max(max, one) {
        Some(RangeView::Eq(one))
    } else {
        Some(RangeView::Dummy)
    }
}

/// Texts are ordered like their mirror image is not.
proof fn lemma_text_order_flip(left: Seq<char>, right: Seq<char>)
    ensures
        text_order(left, right) == Order::Before <==> text_order(right, left) == Order::After,
        text_order(left, right) == Order::Same <==> text_order(right, left) == Order::Same,
        text_order(left, right) == Order::Same <==> left == right,
    decreases left.len(),
{
    if left.len() > 0 && right.len() > 0 {
        lemma_text_order_flip(left.drop_first(), right.drop_first());
        if left[0] == right[0] {
            assert(left.drop_first() == right.drop_first() ==> left =~= right) by {
                if left.drop_first() == right.drop_first() {
                    assert(left =~= seq![left[0]] + left.drop_first());
                    assert(right =~= seq![right[0]] + right.drop_first());
                }
            }
        }
    } else if left.len() == 0 && right.len() == 0 {
        assert(left =~= right);
    }
}

/// The order of texts is transitive.
proof fn lemma_text_order_transitive(a: Seq<char>, b: Seq<char>, c: Seq<char>)
    requires
        text_order(a, b) != Order::After,
        text_order(b, c) != Order::After,
    ensures
        text_order(a, c) != Order::After,
        text_order(a, c) == Order::Same ==> text_order(a, b) == Order::Same && text_order(b, c)
            == Order::Same,
    decreases a.len(),
{
    if a.len() > 0 && b.len() > 0 && c.len() > 0 && a[0] == b[0] && b[0] == c[0] {
        lemma_text_order_transitive(a.drop_first(), b.drop_first(), c.drop_first());
    }
}

/// Values are ordered like their mirror image is not.
pub proof fn lemma_order_flip(left: DataValueView, right: DataValueView)
    ensures
        DataValue::order(left, right) == Some(Order::Before) <==> DataValue::order(right, left)
            == Some(Order::After),
        DataValue::order(left, right) == Some(Order::Same) <==> DataValue::order(right, left)
            == Some(Order::Same),
        DataValue::order(left, right) is None <==> DataValue::order(right, left) is None,
{
    if let (DataValueView::Utf8 { value: l, .. }, DataValueView::Utf8 { value: r, .. }) = (
        left,
        right,
    ) {
        lemma_text_order_flip(l, r);
        lemma_text_order_flip(r, l);
    }
}

/// Whether an order is known and puts the left value at or before the right one.
pub open spec fn not_after(order: Option<Order>) -> bool {
    order is Some && order->0 != Order::After
}

/// The kind and the number of a plain value that has an order.
spec fn rank(value: DataValue) -> Option<(int, int)> {
    match value {
        DataValue::Boolean(v) => Some(
            (
                0int,
                if v {
                    1int
                } else {
                    0int
                },
            ),
        ),
        DataValue::Int8(v) => Some((1int, v as int)),
        DataValue::Int16(v) => Some((2int, v as int)),
        DataValue::Int32(v) => Some((3int, v as int)),
        DataValue::Int64(v) => Some((4int, v as int)),
        DataValue::UInt8(v) => Some((5int, v as int)),
        DataValue::UInt16(v) => Some((6int, v as int)),
        DataValue::UInt32(v) => Some((7int, v as int)),
        DataValue::UInt64(v) => Some((8int, v as int)),
        DataValue::Date32(v) => Some((9int, v as int)),
        DataValue::Date64(v) => Some((10int, v as int)),
        DataValue::Time32(v, _) => Some((11int, v as int)),
        _ => None,
    }
}

/// Plain values are ordered by their numbers, within a kind.
proof fn lemma_rank(left: DataValue, right: DataValue)
    ensures
        DataValue::order(DataValueView::Plain(left), DataValueView::Plain(right)) == match (
            rank(left),
            rank(right),
        ) {
            (Some(l), Some(r)) => if l.0 == r.0 {
                Some(int_order(l.1, r.1))
            } else {
                None
            },
            _ => None,
        },
{
}

/// The order of plain values is transitive.
proof fn lemma_plain_transitive(a: DataValue, b: DataValue, c: DataValue)
    requires
        not_after(DataValue::order(DataValueView::Plain(a), DataValueView::Plain(b))),
        not_after(DataValue::order(DataValueView::Plain(b), DataValueView::Plain(c))),
    ensures
        not_after(DataValue::order(DataValueView::Plain(a), DataValueView::Plain(c))),
        DataValue::order(DataValueView::Plain(a), DataValueView::Plain(c)) == Some(Order::Same)
            ==> DataValue::order(DataValueView::Plain(a), DataValueView::Plain(b)) == Some(
            Order::Same,
        ) && DataValue::order(DataValueView::Plain(b), DataValueView::Plain(c)) == Some(
            Order::Same,
        ),
{
    lemma_rank(a, b);
    lemma_rank(b, c);
    lemma_rank(a, c);
}

/// The order of values is transitive.
pub proof fn lemma_order_transitive(a: DataValueView, b: DataValueView, c: DataValueView)
    requires
        not_after(DataValue::order(a, b)),
        not_after(DataValue::order(b, c)),
    ensures
        not_after(DataValue::order(a, c)),
        DataValue::order(a, c) == Some(Order::Same) ==> DataValue::order(a, b) == Some(Order::Same)
            && DataValue::order(b, c) == Some(Order::Same),
{
    match (a, b, c) {
        (
            DataValueView::Utf8 { value: x, .. },
            DataValueView::Utf8 { value: y, .. },
            DataValueView::Utf8 { value: z, .. },
        ) => {
            lemma_text_order_transitive(x, y, z);
        },
        (DataValueView::Plain(x), DataValueView::Plain(y), DataValueView::Plain(z)) => {
            lemma_plain_transitive(x, y, z);
        },
        _ => {},
    }
}

/// Whether the order is transitive on three values.
pub open spec fn transitive_on(x: DataValueView, y: DataValueView, z: DataValueView) -> bool {
    not_after(DataValue::order(x, y)) && not_after(DataValue::order(y, z)) ==> {
        &&& not_after(DataValue::order(x, z))
        &&& DataValue::order(x, z) == Some(Order::Same) ==> DataValue::order(x, y) == Some(
            Order::Same,
        ) && DataValue::order(y, z) == Some(Order::Same)
    }
}

/// Whether the order of two values mirrors.
pub open spec fn mirrored_on(x: DataValueView, y: DataValueView) -> bool {
    &&& (DataValue::order(x, y) == Some(Order::Before) <==> DataValue::order(y, x) == Some(
        Order::After,
    ))
    &&& (DataValue::order(x, y) == Some(Order::Same) <==> DataValue::order(y, x) == Some(
        Order::Same,
    ))
    &&& (DataValue::order(x, y) is None <==> DataValue::order(y, x) is None)
}

/// Values that can be compared with a third one can be compared with each other.
pub proof fn lemma_order_total(a: DataValueView, b: DataValueView, c: DataValueView)
    requires
        DataValue::order(a, b) is Some,
        DataValue::order(b, c) is Some,
    ensures
        DataValue::order(a, c) is Some,
{
    if let (DataValueView::Plain(x), DataValueView::Plain(y), DataValueView::Plain(z)) = (a, b, c) {
        lemma_rank(x, y);
        lemma_rank(y, z);
        lemma_rank(x, z);
    }
}

/// The order of three values in every arrangement.
pub proof fn lemma_order_all(a: DataValueView, b: DataValueView, c: DataValueView)
    ensures
        transitive_on(a, b, c) && transitive_on(a, c, b) && transitive_on(b, a, c),
        transitive_on(b, c, a) && transitive_on(c, a, b) && transitive_on(c, b, a),
        mirrored_on(a, b) && mirrored_on(a, c) && mirrored_on(b, c),
        mirrored_on(b, a) && mirrored_on(c, a) && mirrored_on(c, b),
{
    assert forall|x: DataValueView, y: DataValueView, z: DataValueView| #[trigger]
        transitive_on(x, y, z) by {
        if not_after(DataValue::order(x, y)) && not_after(DataValue::order(y, z)) {
            lemma_order_transitive(x, y, z);
        }
    }
    assert forall|x: DataValueView, y: DataValueView| #[trigger] mirrored_on(x, y) by {
        lemma_order_flip(x, y);
    }
}

/// The higher lower end admits exactly what both lower ends admit.
proof fn lemma_higher_min(left: BoundView, right: BoundView, value: DataValueView)
    requires
        higher_min(left, right) is Some,
    ensures
        above_min(higher_min(left, right)->0, value) <==> above_min(left, value) && above_min(
            right,
            value,
        ),
{
    if end_value(left) is Some && end_value(right) is Some {
        lemma_order_all(end_value(left)->0, end_value(right)->0, value);
    }
}

/// The lower upper end admits exactly what both upper ends admit.
proof fn lemma_lower_max(left: BoundView, right: BoundView, value: DataValueView)
    requires
        lower_max(left, right) is Some,
    ensures
        below_max(lower_max(left, right)->0, value) <==> below_max(left, value) && below_max(
            right,
            value,
        ),
{
    if end_value(left) is Some && end_value(right) is Some {
        lemma_order_all(end_value(left)->0, end_value(right)->0, value);
    }
}

/// The range between two ends holds what is between them.
pub proof fn lemma_between(min: BoundView, max: BoundView, value: DataValueView)
    requires
        between(min, max) is Some,
    ensures
        contains(between(min, max)->0, value) <==> above_min(min, value) && below_max(max, value),
{
    if end_value(min) is Some && end_value(max) is Some {
        lemma_order_all(end_value(min)->0, end_value(max)->0, value);
    }
}

/// A single value between two ends.
proof fn lemma_one_between(
    one: DataValueView,
    min: BoundView,
    max: BoundView,
    value: DataValueView,
)
    requires
        one_between(one, min, max) is Some,
    ensures
        contains(one_between(one, min, max)->0, value) <==> contains(RangeView::Eq(one), value)
            && above_min(min, value) && below_max(max, value),
{
    if end_value(min) is Some {
        lemma_order_all(end_value(min)->0, one, value);
    }
    if end_value(max) is Some {
        lemma_order_all(end_value(max)->0, one, value);
    }
}

/// The intersection of two ranges holds exactly the values of both.
pub proof fn intersection_holds_common_values(
    left: RangeView,
    right: RangeView,
    value: DataValueView,
)
    requires
        intersection(left, right) is Some,
    ensures
        contains(intersection(left, right)->0, value) <==> contains(left, value) && contains(
            right,
            value,
        ),
{
    match (left, right) {
        (RangeView::Eq(l), RangeView::Eq(r)) => {
            lemma_order_all(l, r, value);
        },
        (RangeView::Eq(one), RangeView::Scope { min, max }) => {
            lemma_one_between(one, min, max, value);
        },
        (RangeView::Scope { min, max }, RangeView::Eq(one)) => {
            lemma_one_between(one, min, max, value);
        },
        (RangeView::Scope { min, max }, RangeView::Scope { min: min2, max: max2 }) => {
            lemma_higher_min(min, min2, value);
            lemma_lower_max(max, max2, value);
            lemma_between(higher_min(min, min2)->0, lower_max(max, max2)->0, value);
        },
        _ => {},
    }
}

impl Bound {
    /// The value at the end.
    pub fn end(&self) -> (res: Option<&DataValue>)
        ensures
            match res {
                Some(value) => end_value(self@) == Some(value@),
                None => end_value(self@) is None,
            },
    {
        match self {
            Bound::Included(value) => Some(value),
            Bound::Excluded(value) => Some(value),
            Bound::Unbounded => None,
        }
    }

    /// The higher of two lower ends, where they can be compared.
    fn higher_min(&self, other: &Bound) -> (res: Option<Bound>)
        ensures
            match res {
                Some(bound) => higher_min(self@, other@) == Some(bound@),
                None => higher_min(self@, other@) is None,
            },
    {
        match (self.end(), other.end()) {
            (None, _) => Some(other.clone()),
            (_, None) => Some(self.clone()),
            (Some(left), Some(right)) => match left.compare(right) {
                None => None,
                Some(Order::Before) => Some(other.clone()),
                Some(Order::After) => Some(self.clone()),
                Some(Order::Same) => match self {
                    Bound::Excluded(_) => Some(self.clone()),
                    _ => Some(other.clone()),
                },
            },
        }
    }

    /// The lower of two upper ends, where they can be compared.
    fn lower_max(&self, other: &Bound) -> (res: Option<Bound>)
        ensures
            match res {
                Some(bound) => lower_max(self@, other@) == Some(bound@),
                None => lower_max(self@, other@) is None,
            },
    {
        match (self.end(), other.end()) {
            (None, _) => Some(other.clone()),
            (_, None) => Some(self.clone()),
            (Some(left), Some(right)) => match left.compare(right) {
                None => None,
                Some(Order::Before) => Some(self.clone()),
                Some(Order::After) => Some(other.clone()),
                Some(Order::Same) => match self {
                    Bound::Excluded(_) => Some(self.clone()),
                    _ => Some(other.clone()),
                },
            },
        }
    }
}

impl Range {
    /// The values between two ends, where those can be compared.
    pub fn between(min: Bound, max: Bound) -> (res: Option<Range>)
        ensures
            match res {
                Some(range) => between(min@, max@) == Some(range@),
                None => between(min@, max@) is None,
            },
    {
        let order = match (min.end(), max.end()) {
            (Some(low), Some(high)) => match low.compare(high) {
                None => return None,
                Some(order) => order,
            },
            _ => return Some(Range::Scope { min, max }),
        };
        match order {
            Order::Before => Some(Range::Scope { min, max }),
            Order::After => Some(Range::Dummy),
            Order::Same => match (min, max) {
                (Bound::Included(value), Bound::Included(_)) => Some(Range::Eq(value)),
                _ => Some(Range::Dummy),
            },
        }
    }

    /// One value, if it is between two ends with which it can be compared.
    fn one_between(one: &DataValue, min: &Bound, max: &Bound) -> (res: Option<Range>)
        ensures
            match res {
                Some(range) => one_between(one@, min@, max@) == Some(range@),
                None => one_between(one@, min@, max@) is None,
            },
    {
        let above = match min {
            Bound::Unbounded => true,
            Bound::Included(end) => match end.compare(one) {
                None => return None,
                Some(Order::After) => false,
                Some(_) => true,
            },
            Bound::Excluded(end) => match end.compare(one) {
                None => return None,
                Some(Order::Before) => true,
                Some(_) => false,
            },
        };
        let below = match max {
            Bound::Unbounded => true,
            Bound::Included(end) => match one.compare(end) {
                None => return None,
                Some(Order::After) => false,
                Some(_) => true,
            },
            Bound::Excluded(end) => match one.compare(end) {
                None => return None,
                Some(Order::Before) => true,
                Some(_) => false,
            },
        };
        if above && below {
            Some(Range::Eq(one.clone()))
        } else {
            Some(Range::Dummy)
        }
    }

    /// The values of both ranges, where the ranges can be compared.
    pub fn intersect(&self, other: &Range) -> (res: Option<Range>)
        ensures
            match res {
                Some(range) => intersection(self@, other@) == Some(range@),
                None => intersection(self@, other@) is None,
            },
    {
        match (self, other) {
            (Range::SortedRanges(_), _) => None,
            (_, Range::SortedRanges(_)) => None,
            (Range::Dummy, _) => Some(Range::Dummy),
            (_, Range::Dummy) => Some(Range::Dummy),
            (Range::Eq(left), Range::Eq(right)) => match left.compare(right) {
                None => None,
                Some(Order::Same) => Some(self.clone()),
                Some(_) => Some(Range::Dummy),
            },
            (Range::Eq(one), Range::Scope { min, max }) => Range::one_between(one, min, max),
            (Range::Scope { min, max }, Range::Eq(one)) => Range::one_between(one, min, max),
            (Range::Scope { min, max }, Range::Scope { min: min2, max: max2 }) => match (
                min.higher_min(min2),
                max.lower_max(max2),
            ) {
                (Some(min), Some(max)) => Range::between(min, max),
                _ => None,
            },
        }
    }
}

/// Whether an operator compares two values by their order.
pub open spec fn compares(op: BinaryOperator) -> bool {
    op == BinaryOperator::Eq || op == BinaryOperator::Gt || op == BinaryOperator::GtEq || op
        == BinaryOperator::Lt || op == BinaryOperator::LtEq
}

/// The comparison that says the same with its sides swapped.
pub open spec fn flipped(op: BinaryOperator) -> BinaryOperator {
    match op {
        BinaryOperator::Gt => BinaryOperator::Lt,
        BinaryOperator::GtEq => BinaryOperator::LtEq,
        BinaryOperator::Lt => BinaryOperator::Gt,
        BinaryOperator::LtEq => BinaryOperator::GtEq,
        op => op,
    }
}

/// Whether a comparison of two values holds.
pub open spec fn comparison_holds(
    op: BinaryOperator,
    left: DataValueView,
    right: DataValueView,
) -> bool {
    match DataValue::order(left, right) {
        None => false,
        Some(order) => match op {
            BinaryOperator::Eq => order == Order::Same,
            BinaryOperator::Gt => order == Order::After,
            BinaryOperator::GtEq => order != Order::Before,
            BinaryOperator::Lt => order == Order::Before,
            BinaryOperator::LtEq => order != Order::After,
            _ => false,
        },
    }
}

/// The values for which a comparison with a constant on the right holds.
pub open spec fn range_of(op: BinaryOperator, value: DataValueView) -> RangeView {
    match op {
        BinaryOperator::Gt => RangeView::Scope {
            min: BoundView::Excluded(value),
            max: BoundView::Unbounded,
        },
        BinaryOperator::GtEq => RangeView::Scope {
            min: BoundView::Included(value),
            max: BoundView::Unbounded,
        },
        BinaryOperator::Lt => RangeView::Scope {
            min: BoundView::Unbounded,
            max: BoundView::Excluded(value),
        },
        BinaryOperator::LtEq => RangeView::Scope {
            min: BoundView::Unbounded,
            max: BoundView::Included(value),
        },
        _ => RangeView::Eq(value),
    }
}

/// The range of a comparison holds exactly the values for which the comparison holds.
pub proof fn range_of_holds_matching_values(
    op: BinaryOperator,
    constant: DataValueView,
    value: DataValueView,
)
    requires
        compares(op),
    ensures
        contains(range_of(op, constant), value) <==> comparison_holds(op, value, constant),
{
    lemma_order_flip(value, constant);
    lemma_order_flip(constant, value);
}

/// A comparison holds exactly if the flipped one holds with its sides swapped.
pub proof fn flipped_comparison_agrees(
    op: BinaryOperator,
    left: DataValueView,
    right: DataValueView,
)
    ensures
        comparison_holds(op, left, right) <==> comparison_holds(flipped(op), right, left),
{
    lemma_order_flip(left, right);
    lemma_order_flip(right, left);
}

/// Whether an expression is a given column of a table.
pub open spec fn is_key_column(
    arena: ArenaView,
    table: Seq<char>,
    column_id: ColumnId,
    expr: ExprRef,
) -> bool {
    arena.exprs[expr.0 as int].head matches ExprHead::ColumnRef { column, .. } && {
        &&& arena.columns[column.0 as int].table == Some(table)
        &&& arena.columns[column.0 as int].id == Some(column_id)
    }
}

/// Whether a value has an order and can be a value of the type.
pub open spec fn ordered_in(value: DataValueView, ty: LogicalTypeView) -> bool {
    &&& DataValue::order(value, value) is Some
    &&& match ty {
        LogicalTypeView::Plain(LogicalType::Char(..)) => value is Utf8,
        LogicalTypeView::Plain(LogicalType::Varchar(..)) => value is Utf8,
        _ => DataValue::type_of(value) == ty,
    }
}

/// The constant that an expression is, if it can be compared with the column.
pub open spec fn constant_for(
    arena: ArenaView,
    column: ExprRef,
    expr: ExprRef,
) -> Option<DataValueView> {
    match (arena.exprs[column.0 as int].head, arena.exprs[expr.0 as int].head) {
        (ExprHead::ColumnRef { column, .. }, ExprHead::Constant(value)) => if ordered_in(
            value,
            arena.columns[column.0 as int].ty,
        ) {
            Some(value)
        } else {
            None
        },
        _ => None,
    }
}

/// The comparison of a key column with a constant that an expression is, read with the column on
/// the left.
pub open spec fn key_comparison(
    arena: ArenaView,
    table: Seq<char>,
    column_id: ColumnId,
    expr: ExprRef,
) -> Option<(BinaryOperator, DataValueView)> {
    let node = arena.exprs[expr.0 as int];
    match node.head {
        ExprHead::Binary { op, .. } => if compares(op) && node.children.len() == 2 {
            let left = bare(arena.exprs, node.children[0]);
            let right = bare(arena.exprs, node.children[1]);
            if is_key_column(arena, table, column_id, left) && constant_for(
                arena,
                left,
                right,
            ) is Some {
                Some((op, constant_for(arena, left, right)->0))
            } else if is_key_column(arena, table, column_id, right) && constant_for(
                arena,
                right,
                left,
            ) is Some {
                Some((flipped(op), constant_for(arena, right, left)->0))
            } else {
                None
            }
        } else {
            None
        },
        _ => None,
    }
}

/// The values of a key column for which a predicate holds: a comparison of the column with a
/// constant, or several of them joined by "and" and "or".
pub open spec fn key_range(
    arena: ArenaView,
    table: Seq<char>,
    column_id: ColumnId,
    expr: ExprRef,
) -> Option<RangeView>
    decreases expr.0,
{
    let node = arena.exprs[expr.0 as int];
    match key_comparison(arena, table, column_id, expr) {
        Some((op, value)) => Some(range_of(op, value)),
        None => if node.children.len() == 2 && node.children[0].0 < expr.0 && node.children[1].0
            < expr.0 {
            match (
                node.head,
                key_range(arena, table, column_id, node.children[0]),
                key_range(arena, table, column_id, node.children[1]),
            ) {
                (ExprHead::Binary { op: BinaryOperator::Or, .. }, Some(left), Some(right)) => union(
                    left,
                    right,
                ),
                (ExprHead::Binary { op: BinaryOperator::And, .. }, Some(left), Some(right)) =>
                    common(left, right),
                _ => None,
            }
        } else {
            None
        },
    }
}

/// Predicates split by whether they are part of the range of a key column.
pub struct Detached {
    pub range: Option<RangeView>,
    pub taken: Seq<ExprRef>,
    pub rest: Seq<ExprRef>,
}

/// What becomes of predicates when they are narrowed into a range one after the other: those that
/// do not just compare the key column, or that cannot be compared with the range so far, are left.
pub open spec fn detach_parts(
    arena: ArenaView,
    table: Seq<char>,
    column_id: ColumnId,
    parts: Seq<ExprRef>,
) -> Detached
    decreases parts.len(),
{
    if parts.len() == 0 {
        Detached { range: None, taken: Seq::empty(), rest: Seq::empty() }
    } else {
        let sofar = detach_parts(arena, table, column_id, parts.drop_last());
        let last = parts.last();
        let left = Detached { rest: sofar.rest.push(last), ..sofar };
        match key_range(arena, table, column_id, last) {
            None => left,
            Some(by) => match narrowed(sofar.range, by) {
                None => left,
                Some(range) => Detached {
                    range: Some(range),
                    taken: sofar.taken.push(last),
                    rest: sofar.rest,
                },
            },
        }
    }
}

/// A range narrowed by another one, where they can be compared.
pub open spec fn narrowed(range: Option<RangeView>, by: RangeView) -> Option<RangeView> {
    match range {
        None => Some(by),
        Some(range) => common(range, by),
    }
}

/// Whether a value of the key column satisfies a predicate that compares it.
pub open spec fn satisfies(
    arena: ArenaView,
    table: Seq<char>,
    column_id: ColumnId,
    expr: ExprRef,
    value: DataValueView,
) -> bool
    decreases expr.0,
{
    let node = arena.exprs[expr.0 as int];
    match key_comparison(arena, table, column_id, expr) {
        Some((op, constant)) => comparison_holds(op, value, constant),
        None => node.children.len() == 2 && node.children[0].0 < expr.0 && node.children[1].0
            < expr.0 && match node.head {
            ExprHead::Binary { op: BinaryOperator::Or, .. } => {
                ||| satisfies(arena, table, column_id, node.children[0], value)
                ||| satisfies(arena, table, column_id, node.children[1], value)
            },
            ExprHead::Binary { op: BinaryOperator::And, .. } => {
                &&& satisfies(arena, table, column_id, node.children[0], value)
                &&& satisfies(arena, table, column_id, node.children[1], value)
            },
            _ => false,
        },
    }
}

/// The range of a predicate holds exactly the values that satisfy the predicate, and no value is
/// in two of the ranges that it is made of.
pub proof fn key_range_holds_matching_values(
    arena: ArenaView,
    table: Seq<char>,
    column_id: ColumnId,
    expr: ExprRef,
    value: DataValueView,
)
    ensures
        key_range(arena, table, column_id, expr) matches Some(range) ==> {
            &&& contains(range, value) <==> satisfies(arena, table, column_id, expr, value)
            &&& held_once(pieces(range), value)
            &&& flat(pieces(range))
        },
    decreases expr.0,
{
    let node = arena.exprs[expr.0 as int];
    if let Some((op, constant)) = key_comparison(arena, table, column_id, expr) {
        lemma_key_comparison(arena, table, column_id, expr);
        range_of_holds_matching_values(op, constant, value);
    } else if node.children.len() == 2 && node.children[0].0 < expr.0 && node.children[1].0
        < expr.0 {
        key_range_holds_matching_values(arena, table, column_id, node.children[0], value);
        key_range_holds_matching_values(arena, table, column_id, node.children[1], value);
        if let (Some(left), Some(right)) = (
            key_range(arena, table, column_id, node.children[0]),
            key_range(arena, table, column_id, node.children[1]),
        ) {
            if union(left, right) is Some {
                union_holds_values_of_either(left, right, value);
            }
            if common(left, right) is Some {
                common_holds_values_of_both(left, right, value);
            }
        }
    }
}

/// The range holds exactly the values that satisfy every predicate that went into it, and no value
/// is in two of the ranges that it is made of.
pub proof fn detached_range_holds_matching_values(
    arena: ArenaView,
    table: Seq<char>,
    column_id: ColumnId,
    parts: Seq<ExprRef>,
    value: DataValueView,
)
    ensures
        ({
            let detached = detach_parts(arena, table, column_id, parts);
            &&& detached.range is Some <==> detached.taken.len() > 0
            &&& detached.range matches Some(range) ==> {
                &&& contains(range, value) <==> forall|i: int|
                    0 <= i < detached.taken.len() ==> satisfies(
                        arena,
                        table,
                        column_id,
                        #[trigger] detached.taken[i],
                        value,
                    )
                &&& held_once(pieces(range), value)
            }
        }),
    decreases parts.len(),
{
    if parts.len() > 0 {
        let sofar = detach_parts(arena, table, column_id, parts.drop_last());
        let last = parts.last();
        let detached = detach_parts(arena, table, column_id, parts);
        detached_range_holds_matching_values(arena, table, column_id, parts.drop_last(), value);
        if let Some(by) = key_range(arena, table, column_id, last) {
            key_range_holds_matching_values(arena, table, column_id, last, value);
            if let Some(range) = narrowed(sofar.range, by) {
                if sofar.range is Some {
                    common_holds_values_of_both(sofar.range->0, by, value);
                } else {
                    assert(sofar.taken =~= Seq::empty());
                }
                assert(detached.taken == sofar.taken.push(last));
                if contains(range, value) {
                    assert forall|i: int| 0 <= i < detached.taken.len() implies satisfies(
                        arena,
                        table,
                        column_id,
                        #[trigger] detached.taken[i],
                        value,
                    ) by {
                        if i < sofar.taken.len() {
                            assert(detached.taken[i] == sofar.taken[i]);
                        }
                    }
                }
                if forall|i: int|
                    0 <= i < detached.taken.len() ==> satisfies(
                        arena,
                        table,
                        column_id,
                        #[trigger] detached.taken[i],
                        value,
                    ) {
                    assert(satisfies(
                        arena,
                        table,
                        column_id,
                        detached.taken[sofar.taken.len() as int],
                        value,
                    ));
                    assert forall|i: int| 0 <= i < sofar.taken.len() implies satisfies(
                        arena,
                        table,
                        column_id,
                        #[trigger] sofar.taken[i],
                        value,
                    ) by {
                        assert(detached.taken[i] == sofar.taken[i]);
                    }
                }
            }
        }
    }
}

/// A comparison with the key column is an order comparison.
proof fn lemma_key_comparison(
    arena: ArenaView,
    table: Seq<char>,
    column_id: ColumnId,
    expr: ExprRef,
)
    ensures
        key_comparison(arena, table, column_id, expr) matches Some((op, _)) ==> compares(op),
{
}

/// Every predicate is either part of the range or left, and none is lost.
pub proof fn detached_predicates_are_kept(
    arena: ArenaView,
    table: Seq<char>,
    column_id: ColumnId,
    parts: Seq<ExprRef>,
)
    ensures
        ({
            let detached = detach_parts(arena, table, column_id, parts);
            parts.to_multiset() == detached.taken.to_multiset().add(detached.rest.to_multiset())
        }),
    decreases parts.len(),
{
    broadcast use vstd::seq_lib::group_to_multiset_ensures;

    let detached = detach_parts(arena, table, column_id, parts);
    if parts.len() > 0 {
        let sofar = detach_parts(arena, table, column_id, parts.drop_last());
        detached_predicates_are_kept(arena, table, column_id, parts.drop_last());
        assert(parts =~= parts.drop_last().push(parts.last()));
        assert(parts.to_multiset() =~= detached.taken.to_multiset().add(
            detached.rest.to_multiset(),
        ));
    } else {
        assert(parts.to_multiset() =~= detached.taken.to_multiset().add(
            detached.rest.to_multiset(),
        ));
    }
}

/// The part of a predicate that a range of key values covers, and what is left of it.
#[derive(Debug, PartialEq, Eq)]
pub struct DetachedPredicate {
    pub range: Range,
    pub residual: Option<ExprRef>,
}

/// Splits predicates into a range of one key column and the rest.
pub struct RangeDetacher<'a> {
    pub table_name: String,
    pub column_id: ColumnId,
    pub arena: &'a mut PlanArena,
}

/// The constant that an expression is, if it can be compared with the column.
fn find_constant(column: ExprRef, expr: ExprRef, arena: &PlanArena) -> (res: Option<DataValue>)
    requires
        arena@.wf(),
        arena@.has_expr(column),
        arena@.has_expr(expr),
    ensures
        match res {
            Some(value) => constant_for(arena@, column, expr) == Some(value@),
            None => constant_for(arena@, column, expr) is None,
        },
{
    match (arena.expression(column), arena.expression(expr)) {
        (ScalarExpression::ColumnRef { column: key, .. }, ScalarExpression::Constant(value)) => {
            assert(arena@.exprs[column.0 as int].head == ExprHead::ColumnRef {
                column: *key,
                position: arena@.exprs[column.0 as int].head->position,
            });
            if value.compare(value).is_none() {
                return None;
            }
            let ty = arena.column(*key).datatype();
            let fits = match ty {
                LogicalType::Char(..) => matches!(value, DataValue::Utf8 { .. }),
                LogicalType::Varchar(..) => matches!(value, DataValue::Utf8 { .. }),
                ty => value.logical_type().same(ty),
            };
            if fits {
                Some(value.clone())
            } else {
                None
            }
        },
        _ => None,
    }
}

/// Whether an expression is a given column of a table.
fn find_key_column(table: &str, column_id: ColumnId, expr: ExprRef,
    arena: &PlanArena) -> (res: bool)
    requires
        arena@.wf(),
        arena@.has_expr(expr),
    ensures
        res == is_key_column(arena@, table@, column_id, expr),
{
    match arena.expression(expr) {
        ScalarExpression::ColumnRef { column, .. } => {
            assert(arena@.exprs[expr.0 as int].head == ExprHead::ColumnRef {
                column: *column,
                position: arena@.exprs[expr.0 as int].head->position,
            });
            let column = arena.column(*column);
            match (column.table_name(), column.id()) {
                (Some(name), Some(id)) => id == column_id && same_text(name.as_str(), table),
                _ => false,
            }
        },
        _ => false,
    }
}

/// The comparison of a key column with a constant that an expression is, read with the column on
/// the left.
fn find_comparison(
    table: &str,
    column_id: ColumnId,
    expr: ExprRef,
    arena: &PlanArena,
) -> (res: Option<(BinaryOperator, DataValue)>)
    requires
        arena@.wf(),
        arena@.has_expr(expr),
    ensures
        match res {
            Some((op, value)) => key_comparison(arena@, table@, column_id, expr) == Some(
                (op, value@),
            ),
            None => key_comparison(arena@, table@, column_id, expr) is None,
        },
{
    match arena.expression(expr) {
        ScalarExpression::Binary { op, left_expr, right_expr, .. } => {
            let flip = match op {
                BinaryOperator::Eq => BinaryOperator::Eq,
                BinaryOperator::Gt => BinaryOperator::Lt,
                BinaryOperator::GtEq => BinaryOperator::LtEq,
                BinaryOperator::Lt => BinaryOperator::Gt,
                BinaryOperator::LtEq => BinaryOperator::GtEq,
                _ => return None,
            };
            assert(arena@.exprs[expr.0 as int].children[0] == *left_expr);
            assert(arena@.exprs[expr.0 as int].children[1] == *right_expr);
            let left = left_expr.unpack_alias(arena);
            let right = right_expr.unpack_alias(arena);
            if find_key_column(table, column_id, left, arena) {
                if let Some(value) = find_constant(left, right, arena) {
                    return Some((*op, value));
                }
            }
            if find_key_column(table, column_id, right, arena) {
                if let Some(value) = find_constant(right, left, arena) {
                    return Some((flip, value));
                }
            }
            None
        },
        _ => None,
    }
}

/// The values for which a comparison with a constant on the right holds.
fn comparison_range(op: BinaryOperator, value: DataValue) -> (range: Range)
    ensures
        range@ == range_of(op, value@),
{
    match op {
        BinaryOperator::Gt => Range::Scope { min: Bound::Excluded(value), max: Bound::Unbounded },
        BinaryOperator::GtEq => Range::Scope { min: Bound::Included(value), max: Bound::Unbounded },
        BinaryOperator::Lt => Range::Scope { min: Bound::Unbounded, max: Bound::Excluded(value) },
        BinaryOperator::LtEq => Range::Scope { min: Bound::Unbounded, max: Bound::Included(value) },
        _ => Range::Eq(value),
    }
}

/// The values of a key column for which a predicate holds.
fn find_range(table: &str, column_id: ColumnId, expr: ExprRef,
    arena: &PlanArena) -> (res: Option<Range>)
    requires
        arena@.wf(),
        arena@.has_expr(expr),
    ensures
        match res {
            Some(range) => key_range(arena@, table@, column_id, expr) == Some(range@),
            None => key_range(arena@, table@, column_id, expr) is None,
        },
    decreases expr.0,
{
    if let Some((op, value)) = find_comparison(table, column_id, expr, arena) {
        return Some(comparison_range(op, value));
    }
    match arena.expression(expr) {
        ScalarExpression::Binary { op, left_expr, right_expr, .. } => {
            assert(arena@.exprs[expr.0 as int].children[0] == *left_expr);
            assert(arena@.exprs[expr.0 as int].children[1] == *right_expr);
            let either = match op {
                BinaryOperator::Or => true,
                BinaryOperator::And => false,
                _ => return None,
            };
            let left = find_range(table, column_id, *left_expr, arena);
            let right = find_range(table, column_id, *right_expr, arena);
            match (left, right) {
                (Some(left), Some(right)) => if either {
                    left.union(&right)
                } else {
                    left.common(&right)
                },
                _ => None,
            }
        },
        _ => None,
    }
}

/// The predicates that a split leaves are among the given ones.
proof fn lemma_rest_valid(
    arena: ArenaView,
    table: Seq<char>,
    column_id: ColumnId,
    parts: Seq<ExprRef>,
    bound: int,
)
    requires
        forall|i: int| 0 <= i < parts.len() ==> (#[trigger] parts[i]).0 < bound,
    ensures
        ({
            let rest = detach_parts(arena, table, column_id, parts).rest;
            forall|i: int| 0 <= i < rest.len() ==> (#[trigger] rest[i]).0 < bound
        }),
    decreases parts.len(),
{
    if parts.len() > 0 {
        lemma_rest_valid(arena, table, column_id, parts.drop_last(), bound);
    }
}

/// The conjuncts of atomic predicates are the predicates themselves.
proof fn lemma_atomic_rest(
    arena: ArenaView,
    table: Seq<char>,
    column_id: ColumnId,
    parts: Seq<ExprRef>,
)
    requires
        forall|i: int|
            0 <= i < parts.len() ==> conjuncts(arena.exprs, #[trigger] parts[i]) == seq![parts[i]],
    ensures
        ({
            let rest = detach_parts(arena, table, column_id, parts).rest;
            parts_of_all(arena.exprs, rest) == rest
        }),
    decreases parts.len(),
{
    let rest = detach_parts(arena, table, column_id, parts).rest;
    if parts.len() > 0 {
        let before = detach_parts(arena, table, column_id, parts.drop_last()).rest;
        assert forall|i: int| 0 <= i < parts.drop_last().len() implies conjuncts(
            arena.exprs,
            #[trigger] parts.drop_last()[i],
        ) == seq![parts.drop_last()[i]] by {
            assert(parts.drop_last()[i] == parts[i]);
        }
        lemma_atomic_rest(arena, table, column_id, parts.drop_last());
        if rest != before {
            assert(rest == before.push(parts.last()));
            assert(rest.drop_last() =~= before);
            assert(conjuncts(arena.exprs, parts[parts.len() - 1]) == seq![parts.last()]);
            assert(parts_of_all(arena.exprs, rest) =~= rest);
        }
    } else {
        assert(parts_of_all(arena.exprs, rest) =~= rest);
    }
}

/// Appending expressions does not change what an expression is behind its aliases.
proof fn lemma_bare_extend(before: Seq<ExprView>, after: Seq<ExprView>, expr: ExprRef)
    requires
        before.is_prefix_of(after),
        expr.0 < before.len(),
    ensures
        bare(after, expr) == bare(before, expr),
    decreases expr.0,
{
    let node = before[expr.0 as int];
    assert(after[expr.0 as int] == node);
    if node.head is AliasName && node.children.len() == 1 && node.children[0].0 < expr.0 {
        lemma_bare_extend(before, after, node.children[0]);
    }
    if node.head is AliasExpr && node.children.len() == 2 && node.children[1].0 < expr.0 {
        lemma_bare_extend(before, after, node.children[1]);
    }
}

/// Appending expressions does not change the comparisons among the earlier ones.
proof fn lemma_comparison_extend(
    before: ArenaView,
    after: ArenaView,
    table: Seq<char>,
    column_id: ColumnId,
    expr: ExprRef,
)
    requires
        before.wf(),
        before.exprs.is_prefix_of(after.exprs),
        before.columns == after.columns,
        before.has_expr(expr),
    ensures
        key_comparison(after, table, column_id, expr) == key_comparison(
            before,
            table,
            column_id,
            expr,
        ),
{
    let node = before.exprs[expr.0 as int];
    assert(after.exprs[expr.0 as int] == node);
    if node.head is Binary && node.children.len() == 2 {
        let left = node.children[0];
        let right = node.children[1];
        assert(before.exprs[expr.0 as int].children[0].0 < expr.0);
        assert(before.exprs[expr.0 as int].children[1].0 < expr.0);
        lemma_bare_extend(before.exprs, after.exprs, left);
        lemma_bare_extend(before.exprs, after.exprs, right);
        lemma_bare_bounded(before.exprs, left);
        lemma_bare_bounded(before.exprs, right);
        let l = bare(before.exprs, left);
        let r = bare(before.exprs, right);
        assert(after.exprs[l.0 as int] == before.exprs[l.0 as int]);
        assert(after.exprs[r.0 as int] == before.exprs[r.0 as int]);
    }
}

/// Appending expressions does not change the ranges of the earlier ones.
proof fn lemma_range_extend(
    before: ArenaView,
    after: ArenaView,
    table: Seq<char>,
    column_id: ColumnId,
    expr: ExprRef,
)
    requires
        before.wf(),
        before.exprs.is_prefix_of(after.exprs),
        before.columns == after.columns,
        before.has_expr(expr),
    ensures
        key_range(after, table, column_id, expr) == key_range(before, table, column_id, expr),
    decreases expr.0,
{
    let node = before.exprs[expr.0 as int];
    assert(after.exprs[expr.0 as int] == node);
    lemma_comparison_extend(before, after, table, column_id, expr);
    if node.children.len() == 2 && node.children[0].0 < expr.0 && node.children[1].0 < expr.0 {
        lemma_range_extend(before, after, table, column_id, node.children[0]);
        lemma_range_extend(before, after, table, column_id, node.children[1]);
    }
}

/// Appending expressions does not change the split of the earlier ones.
pub proof fn lemma_detach_extend(
    before: ArenaView,
    after: ArenaView,
    table: Seq<char>,
    column_id: ColumnId,
    parts: Seq<ExprRef>,
)
    requires
        before.wf(),
        before.exprs.is_prefix_of(after.exprs),
        before.columns == after.columns,
        before.has_exprs(parts),
    ensures
        detach_parts(after, table, column_id, parts) == detach_parts(
            before,
            table,
            column_id,
            parts,
        ),
        before.has_exprs(detach_parts(before, table, column_id, parts).rest),
    decreases parts.len(),
{
    if parts.len() > 0 {
        assert forall|i: int| 0 <= i < parts.drop_last().len() implies before.has_expr(
            #[trigger] parts.drop_last()[i],
        ) by {
            assert(parts.drop_last()[i] == parts[i]);
        }
        lemma_detach_extend(before, after, table, column_id, parts.drop_last());
        assert(before.has_expr(parts[parts.len() - 1]));
        lemma_range_extend(before, after, table, column_id, parts.last());
    }
}

/// What detaching a key column from a predicate gives.
pub open spec fn detach_of(
    arena: ArenaView,
    table: Seq<char>,
    column_id: ColumnId,
    predicate: ExprRef,
) -> Detached {
    detach_parts(arena, table, column_id, conjuncts(arena.exprs, predicate))
}

impl<'a> RangeDetacher<'a> {
    /// A detacher for one column of a table.
    pub fn new(table_name: &str, column_id: &ColumnId, arena: &'a mut PlanArena) -> (res: Self)
        ensures
            res.table_name@ == table_name@,
            res.column_id == *column_id,
            *res.arena == *old(arena),
            *final(res.arena) == *final(arena),
    {
        RangeDetacher { table_name: table_name.to_string(), column_id: *column_id, arena }
    }

    /// A detacher for one column of an index.
    pub fn for_index(meta: IndexMetaRef, position: usize, arena: &'a mut PlanArena) -> (res: Self)
        requires
            old(arena)@.has_index(meta),
            position < old(arena)@.indexes[meta.0 as int].column_ids.len(),
        ensures
            res.table_name@ == old(arena)@.indexes[meta.0 as int].table_name,
            res.column_id == old(arena)@.indexes[meta.0 as int].column_ids[position as int],
            *res.arena == *old(arena),
            *final(res.arena) == *final(arena),
    {
        let index = arena.index(meta);
        let table_name = index.table_name.clone();
        let column_id: ColumnId = index.column_ids[position];
        RangeDetacher { table_name, column_id, arena }
    }

    /// Splits a predicate into the range of the key column that it asks for and the predicates
    /// that the range does not cover; nothing if it does not restrict the key column.
    pub fn detach(self, predicate: ExprRef) -> (res: Result<
        Option<DetachedPredicate>,
        DatabaseError,
    >)
        requires
            self.arena@.wf(),
            self.arena@.has_expr(predicate),
        ensures
            final(self.arena)@.wf(),
            old(self.arena)@.extended_by(final(self.arena)@),
            final(self.arena)@.columns == old(self.arena)@.columns,
            ({
                let detached = detach_of(
                    old(self.arena)@,
                    self.table_name@,
                    self.column_id,
                    predicate,
                );
                match res {
                    Ok(Some(split)) => {
                        &&& detached.range == Some(split.range@)
                        &&& conjunction_of(final(self.arena)@.exprs, split.residual, detached.rest)
                    },
                    Ok(None) => detached.range is None && final(self.arena)@ == old(self.arena)@,
                    Err(_) => false,
                }
            }),
    {
        let arena = self.arena;
        let ghost start = arena@;
        let ghost table = self.table_name@;
        let column_id: ColumnId = self.column_id;
        let mut parts: Vec<ExprRef> = Vec::new();
        split_conjunctive_predicates(predicate, arena, &mut parts);
        proof {
            assert(parts@ =~= conjuncts(start.exprs, predicate));
            lemma_conjuncts_bounded(start.exprs, predicate);
            lemma_conjuncts_atomic(start.exprs, predicate);
        }
        let mut range: Option<Range> = None;
        let mut rest: Vec<ExprRef> = Vec::new();
        let mut i: usize = 0;
        assert(parts@.take(0) =~= Seq::empty());
        while i < parts.len()
            invariant
                i <= parts.len(),
                arena@ == start,
                start.wf(),
                start.has_expr(predicate),
                table == self.table_name@,
                column_id == self.column_id,
                forall|j: int| 0 <= j < parts@.len() ==> (#[trigger] parts@[j]).0 <= predicate.0,
                rest@ == detach_parts(start, table, column_id, parts@.take(i as int)).rest,
                match range {
                    Some(range) =>
                        detach_parts(start, table, column_id, parts@.take(i as int)).range
                        == Some(range@),
                    None => detach_parts(
                        start,
                        table,
                        column_id,
                        parts@.take(i as int),
                    ).range is None,
                },
            decreases parts.len() - i,
        {
            proof {
                let next = parts@.take(i + 1);
                assert(next.drop_last() =~= parts@.take(i as int));
                assert(next.last() == parts@[i as int]);
            }
            let part = parts[i];
            match find_range(self.table_name.as_str(), column_id, part, arena) {
                None => {
                    rest.push(part);
                },
                Some(by) => {
                    let next = match &range {
                        None => Some(by),
                        Some(range) => range.common(&by),
                    };
                    match next {
                        None => {
                            rest.push(part);
                        },
                        Some(next) => {
                            range = Some(next);
                        },
                    }
                },
            }
            i += 1;
        }
        assert(parts@.take(i as int) =~= parts@);
        match range {
            None => Ok(None),
            Some(range) => {
                proof {
                    lemma_rest_valid(start, table, column_id, parts@, start.exprs.len() as int);
                    lemma_atomic_rest(start, table, column_id, parts@);
                }
                let residual = conjoin(&rest, arena);
                Ok(Some(DetachedPredicate { range, residual }))
            },
        }
    }
}

/// The values of a range of one column behind fixed values of the columns before it, as composite
/// keys. A key that is marked as upper stands above all keys that it is the beginning of.
pub open spec fn tuple_range(range: RangeView, prefix: Seq<DataValueView>) -> RangeView
    decreases range,
{
    match range {
        RangeView::Eq(value) => RangeView::Eq(DataValueView::Tuple(prefix.push(value), false)),
        RangeView::Scope { min, max } => RangeView::Scope {
            min: match min {
                BoundView::Included(value) => BoundView::Included(
                    DataValueView::Tuple(prefix.push(value), false),
                ),
                BoundView::Excluded(value) => BoundView::Excluded(
                    DataValueView::Tuple(prefix.push(value), true),
                ),
                BoundView::Unbounded => if prefix.len() == 0 {
                    BoundView::Unbounded
                } else {
                    BoundView::Excluded(DataValueView::Tuple(prefix, false))
                },
            },
            max: match max {
                BoundView::Included(value) => BoundView::Included(
                    DataValueView::Tuple(prefix.push(value), true),
                ),
                BoundView::Excluded(value) => BoundView::Excluded(
                    DataValueView::Tuple(prefix.push(value), false),
                ),
                BoundView::Unbounded => if prefix.len() == 0 {
                    BoundView::Unbounded
                } else {
                    BoundView::Excluded(DataValueView::Tuple(prefix, true))
                },
            },
        },
        RangeView::Dummy => RangeView::Dummy,
        RangeView::SortedRanges(ranges) => RangeView::SortedRanges(
            Seq::new(
                ranges.len(),
                |i: int|
                    if 0 <= i < ranges.len() {
                        tuple_range(ranges[i], prefix)
                    } else {
                        arbitrary()
                    },
            ),
        ),
    }
}

/// The single values that a range is made of.
pub open spec fn values_of(range: RangeView) -> Option<Seq<DataValueView>> {
    if forall|i: int| 0 <= i < pieces(range).len() ==> (#[trigger] pieces(range)[i]) is Eq {
        Some(pieces(range).map_values(|one: RangeView| one->Eq_0))
    } else {
        None
    }
}

/// Each of the keys, followed by each of the values.
pub open spec fn followed_by(
    keys: Seq<Seq<DataValueView>>,
    values: Seq<DataValueView>,
) -> Seq<Seq<DataValueView>>
    decreases keys.len(),
{
    if keys.len() == 0 {
        Seq::empty()
    } else {
        followed_by(keys.drop_last(), values) + values.map_values(
            |value: DataValueView| keys.last().push(value),
        )
    }
}

/// The keys that have one of the given values in each of the first columns.
pub open spec fn first_keys(eqs: Seq<RangeView>) -> Option<Seq<Seq<DataValueView>>>
    decreases eqs.len(),
{
    if eqs.len() == 0 {
        Some(seq![Seq::empty()])
    } else {
        match (first_keys(eqs.drop_last()), values_of(eqs.last())) {
            (Some(keys), Some(values)) => Some(followed_by(keys, values)),
            _ => None,
        }
    }
}

/// The range of the next column behind each of the keys.
pub open spec fn behind_keys(range: RangeView, keys: Seq<Seq<DataValueView>>) -> Seq<RangeView>
    decreases keys.len(),
{
    if keys.len() == 0 {
        Seq::empty()
    } else {
        behind_keys(range, keys.drop_last()) + pieces(tuple_range(range, keys.last()))
    }
}

/// A range of composite keys: single values for each of the first columns, and a range of the next
/// one.
pub open spec fn combined(range: RangeView, eqs: Seq<RangeView>) -> Option<RangeView> {
    match first_keys(eqs) {
        Some(keys) => Some(assembled(behind_keys(range, keys))),
        None => None,
    }
}

/// The keys that begin with one of the given composite keys.
pub open spec fn prefix_range(range: RangeView) -> RangeView
    decreases range,
{
    match range {
        RangeView::Eq(DataValueView::Tuple(values, _)) => RangeView::Scope {
            min: BoundView::Included(DataValueView::Tuple(values, false)),
            max: BoundView::Included(DataValueView::Tuple(values, true)),
        },
        RangeView::SortedRanges(ranges) => RangeView::SortedRanges(
            Seq::new(
                ranges.len(),
                |i: int|
                    if 0 <= i < ranges.len() {
                        prefix_range(ranges[i])
                    } else {
                        arbitrary()
                    },
            ),
        ),
        range => range,
    }
}

/// Ranges of single values can always be combined, so none of them is lost.
pub proof fn single_values_can_be_combined(range: RangeView, eqs: Seq<RangeView>)
    requires
        forall|i: int|
            0 <= i < eqs.len() ==> Range::single_values(#[trigger] eqs[i]) && flat(pieces(eqs[i])),
    ensures
        combined(range, eqs) is Some,
    decreases eqs.len(),
{
    if eqs.len() > 0 {
        let last = eqs[eqs.len() - 1];
        assert forall|i: int| 0 <= i < eqs.drop_last().len() implies Range::single_values(
            #[trigger] eqs.drop_last()[i],
        ) && flat(pieces(eqs.drop_last()[i])) by {
            assert(eqs.drop_last()[i] == eqs[i]);
        }
        single_values_can_be_combined(range, eqs.drop_last());
        assert forall|i: int| 0 <= i < pieces(last).len() implies (#[trigger] pieces(
            last,
        )[i]) is Eq by {
            assert(Range::single_values(pieces(last)[i]));
        }
        assert(values_of(eqs.last()) is Some);
    }
}

/// The models of the keys.
spec fn key_views(keys: Seq<Vec<DataValue>>) -> Seq<Seq<DataValueView>> {
    keys.map_values(|key: Vec<DataValue>| value_views(key@))
}

/// Each of the keys, followed by each of the values.
fn follow(keys: &Vec<Vec<DataValue>>, values: &Vec<DataValue>) -> (res: Vec<Vec<DataValue>>)
    ensures
        key_views(res@) == followed_by(key_views(keys@), value_views(values@)),
{
    let ghost all = key_views(keys@);
    let ghost wanted = value_views(values@);
    let mut res: Vec<Vec<DataValue>> = Vec::new();
    let mut i: usize = 0;
    assert(all.take(0) =~= Seq::empty());
    assert(key_views(res@) =~= Seq::empty());
    while i < keys.len()
        invariant
            i <= keys.len(),
            all == key_views(keys@),
            wanted == value_views(values@),
            key_views(res@) == followed_by(all.take(i as int), wanted),
        decreases keys.len() - i,
    {
        let ghost key = value_views(keys@[i as int]@);
        let ghost before = key_views(res@);
        let mut j: usize = 0;
        assert(key_views(res@) =~= before + Seq::empty());
        while j < values.len()
            invariant
                i < keys.len(),
                j <= values.len(),
                key == value_views(keys@[i as int]@),
                wanted == value_views(values@),
                key_views(res@) == before + Seq::new(j as nat, |k: int| key.push(wanted[k])),
            decreases values.len() - j,
        {
            let ghost sofar = key_views(res@);
            let mut next = clone_values(&keys[i]);
            let ghost first = next@;
            let value = values[j].clone();
            next.push(value);
            assert(value_views(next@) =~= key.push(wanted[j as int])) by {
                assert(value_views(first) == key);
                assert(wanted[j as int] == values@[j as int]@);
                assert forall|k: int| 0 <= k < key.len() implies value_views(next@)[k] == key[k] by {
                    assert(next@[k] == first[k]);
                    assert(value_views(first)[k] == first[k]@);
                }
            }
            res.push(next);
            j += 1;
            assert(key_views(res@) =~= sofar.push(key.push(wanted[j - 1])));
            assert(key_views(res@) =~= before + Seq::new(j as nat, |k: int| key.push(wanted[k])));
        }
        proof {
            let next = all.take(i + 1);
            assert(next.drop_last() =~= all.take(i as int));
            assert(next.last() == key);
            assert(key_views(res@) =~= followed_by(next, wanted));
        }
        i += 1;
    }
    assert(all.take(i as int) =~= all);
    res
}

/// Ranges that are not made of single values stay so with more ranges.
proof fn lemma_first_keys_stay_none(eqs: Seq<RangeView>, i: int)
    requires
        0 <= i <= eqs.len(),
        first_keys(eqs.take(i)) is None,
    ensures
        first_keys(eqs) is None,
    decreases eqs.len() - i,
{
    if i < eqs.len() {
        assert(eqs.take(i + 1).drop_last() =~= eqs.take(i));
        lemma_first_keys_stay_none(eqs, i + 1);
    } else {
        assert(eqs.take(i) =~= eqs);
    }
}

/// A composite key.
fn tuple_value(prefix: &Vec<DataValue>, last: Option<&DataValue>, upper: bool) -> (res: DataValue)
    ensures
        res@ == DataValueView::Tuple(
            match last {
                Some(value) => value_views(prefix@).push(value@),
                None => value_views(prefix@),
            },
            upper,
        ),
{
    let mut values = clone_values(prefix);
    assert(value_views(values@) == value_views(prefix@));
    let ghost first = values@;
    match last {
        Some(value) => {
            values.push(value.clone());
        },
        None => {},
    }
    let res = DataValue::Tuple(values, upper);
    proof {
        let expected = match last {
            Some(value) => value_views(prefix@).push(value@),
            None => value_views(prefix@),
        };
        assert(res@->Tuple_0.len() == expected.len());
        assert forall|i: int| 0 <= i < expected.len() implies res@->Tuple_0[i] == expected[i] by {
            if i < first.len() {
                assert(value_views(first)[i] == first[i]@);
                assert(values@[i] == first[i]);
            }
        }
        assert(res@->Tuple_0 =~= expected);
    }
    res
}

impl Range {
    /// The range behind fixed values of the columns before it.
    fn to_tuple_range(&self, prefix: &Vec<DataValue>) -> (res: Range)
        ensures
            res@ == tuple_range(self@, value_views(prefix@)),
        decreases self,
    {
        match self {
            Range::Eq(value) => Range::Eq(tuple_value(prefix, Some(value), false)),
            Range::Scope { min, max } => Range::Scope {
                min: match min {
                    Bound::Included(value) => Bound::Included(
                        tuple_value(prefix, Some(value), false),
                    ),
                    Bound::Excluded(value) => Bound::Excluded(
                        tuple_value(prefix, Some(value), true),
                    ),
                    Bound::Unbounded => if prefix.len() == 0 {
                        Bound::Unbounded
                    } else {
                        Bound::Excluded(tuple_value(prefix, None, false))
                    },
                },
                max: match max {
                    Bound::Included(value) => Bound::Included(
                        tuple_value(prefix, Some(value), true),
                    ),
                    Bound::Excluded(value) => Bound::Excluded(
                        tuple_value(prefix, Some(value), false),
                    ),
                    Bound::Unbounded => if prefix.len() == 0 {
                        Bound::Unbounded
                    } else {
                        Bound::Excluded(tuple_value(prefix, None, true))
                    },
                },
            },
            Range::Dummy => Range::Dummy,
            Range::SortedRanges(ranges) => {
                let mut out: Vec<Range> = Vec::new();
                let mut i: usize = 0;
                while i < ranges.len()
                    invariant
                        i <= ranges.len(),
                        out@.len() == i,
                        *self == Range::SortedRanges(*ranges),
                        forall|j: int|
                            0 <= j < i ==> out@[j]@ == tuple_range(
                                ranges@[j]@,
                                value_views(prefix@),
                            ),
                    decreases ranges.len() - i,
                {
                    assert(decreases_to!(*self => self->SortedRanges_0@[i as int]));
                    let range = ranges[i].to_tuple_range(prefix);
                    out.push(range);
                    i += 1;
                }
                let res = Range::SortedRanges(out);
                assert(res@->SortedRanges_0 =~= tuple_range(
                    self@,
                    value_views(prefix@),
                )->SortedRanges_0);
                res
            },
        }
    }

    /// The single values that the range is made of.
    fn values(&self) -> (res: Option<Vec<DataValue>>)
        ensures
            match res {
                Some(values) => values_of(self@) == Some(value_views(values@)),
                None => values_of(self@) is None,
            },
    {
        let parts = self.pieces();
        let ghost views = range_views(parts@);
        let mut values: Vec<DataValue> = Vec::new();
        let mut i: usize = 0;
        while i < parts.len()
            invariant
                i <= parts.len(),
                views == range_views(parts@),
                views == pieces(self@),
                values@.len() == i,
                forall|j: int|
                    0 <= j < i ==> (#[trigger] views[j]) == RangeView::Eq(values@[j]@),
            decreases parts.len() - i,
        {
            assert(views[i as int] == parts@[i as int]@);
            match &parts[i] {
                Range::Eq(value) => {
                    values.push(value.clone());
                },
                _ => {
                    assert(!(pieces(self@)[i as int] is Eq));
                    return None;
                },
            }
            i += 1;
        }
        assert(value_views(values@) =~= pieces(self@).map_values(|one: RangeView| one->Eq_0));
        Some(values)
    }

    /// The range of composite keys that have one of the given values in each of the first columns
    /// and this range in the next one; nothing if a column before it has more than single values.
    pub fn combining_eqs(&self, eqs: &Vec<Range>) -> (res: Option<Range>)
        ensures
            match res {
                Some(range) => combined(self@, range_views(eqs@)) == Some(range@),
                None => combined(self@, range_views(eqs@)) is None,
            },
    {
        let ghost views = range_views(eqs@);
        let mut keys: Vec<Vec<DataValue>> = Vec::new();
        keys.push(Vec::new());
        assert(key_views(keys@) =~= seq![Seq::<DataValueView>::empty()]) by {
            assert(value_views(keys@[0]@) =~= Seq::empty());
        }
        assert(views.take(0) =~= Seq::empty());
        let mut i: usize = 0;
        while i < eqs.len()
            invariant
                i <= eqs.len(),
                views == range_views(eqs@),
                first_keys(views.take(i as int)) == Some(key_views(keys@)),
            decreases eqs.len() - i,
        {
            proof {
                let next = views.take(i + 1);
                assert(next.drop_last() =~= views.take(i as int));
                assert(next.last() == eqs@[i as int]@);
            }
            match eqs[i].values() {
                None => {
                    proof {
                        lemma_first_keys_stay_none(views, i + 1);
                    }
                    return None;
                },
                Some(values) => {
                    keys = follow(&keys, &values);
                },
            }
            i += 1;
        }
        assert(views.take(i as int) =~= views);
        let mut list: Vec<Range> = Vec::new();
        let ghost all = key_views(keys@);
        assert(all.take(0) =~= Seq::empty());
        assert(range_views(list@) =~= Seq::empty());
        let mut j: usize = 0;
        while j < keys.len()
            invariant
                j <= keys.len(),
                all == key_views(keys@),
                range_views(list@) == behind_keys(self@, all.take(j as int)),
            decreases keys.len() - j,
        {
            proof {
                let next = all.take(j + 1);
                assert(next.drop_last() =~= all.take(j as int));
                assert(next.last() == value_views(keys@[j as int]@));
            }
            let ghost before = range_views(list@);
            let mut more = self.to_tuple_range(&keys[j]).pieces();
            let ghost added = range_views(more@);
            list.append(&mut more);
            assert(range_views(list@) =~= before + added);
            j += 1;
        }
        assert(all.take(j as int) =~= all);
        Some(assemble(list))
    }

    /// The keys that begin with one of the given composite keys.
    pub fn eq_to_scope(&self) -> (res: Range)
        ensures
            res@ == prefix_range(self@),
        decreases self,
    {
        match self {
            Range::Eq(DataValue::Tuple(values, _)) => {
                let res = Range::Scope {
                    min: Bound::Included(tuple_value(values, None, false)),
                    max: Bound::Included(tuple_value(values, None, true)),
                };
                assert(value_views(values@) =~= self@->Eq_0->Tuple_0);
                res
            },
            Range::SortedRanges(ranges) => {
                let mut out: Vec<Range> = Vec::new();
                let mut i: usize = 0;
                while i < ranges.len()
                    invariant
                        i <= ranges.len(),
                        out@.len() == i,
                        *self == Range::SortedRanges(*ranges),
                        forall|j: int|
                            0 <= j < i ==> out@[j]@ == prefix_range(ranges@[j]@),
                    decreases ranges.len() - i,
                {
                    assert(decreases_to!(*self => self->SortedRanges_0@[i as int]));
                    let range = ranges[i].eq_to_scope();
                    out.push(range);
                    i += 1;
                }
                let res = Range::SortedRanges(out);
                assert(res@->SortedRanges_0 =~= prefix_range(self@)->SortedRanges_0);
                res
            },
            _ => self.clone(),
        }
    }
}

} // verus!
