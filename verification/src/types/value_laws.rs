//! What casts keep of values.

use crate::types::value::{DataValue, DataValueView, Order};
use crate::types::{LogicalType, LogicalTypeView};
use vstd::prelude::*;

verus! {

/// The number that a value stands for, if it is an integer or a truth value.
pub open spec fn number(view: DataValueView) -> Option<int> {
    match view {
        DataValueView::Plain(DataValue::Boolean(b)) => Some(
            if b {
                1int
            } else {
                0int
            },
        ),
        DataValueView::Plain(value) => value.integer(),
        _ => None,
    }
}

/// Whether values of the type are integers.
pub open spec fn is_integer_type(ty: LogicalTypeView) -> bool {
    match ty {
        LogicalTypeView::Plain(LogicalType::Tinyint) => true,
        LogicalTypeView::Plain(LogicalType::Smallint) => true,
        LogicalTypeView::Plain(LogicalType::Integer) => true,
        LogicalTypeView::Plain(LogicalType::Bigint) => true,
        LogicalTypeView::Plain(LogicalType::UTinyint) => true,
        LogicalTypeView::Plain(LogicalType::USmallint) => true,
        LogicalTypeView::Plain(LogicalType::UInteger) => true,
        LogicalTypeView::Plain(LogicalType::UBigint) => true,
        _ => false,
    }
}

/// A cast value is null or of the type that was asked for.
pub proof fn cast_value_has_the_type(view: DataValueView, ty: LogicalTypeView)
    ensures
        DataValue::cast_view(view, ty) matches Some(cast) ==> cast == DataValueView::Plain(
            DataValue::Null,
        ) || DataValue::type_of(cast) == ty,
        DataValue::cast_view(view, ty) == Some(DataValueView::Plain(DataValue::Null)) ==> view
            == DataValueView::Plain(DataValue::Null) || ty == LogicalTypeView::Plain(
            LogicalType::SqlNull,
        ) || DataValue::type_of(view) == ty,
{
}

/// A cast to an integer type keeps the number, and fails exactly if the type does not hold it.
pub proof fn cast_keeps_the_number(view: DataValueView, ty: LogicalTypeView)
    requires
        number(view) is Some,
        is_integer_type(ty),
    ensures
        DataValue::cast_view(view, ty) matches Some(cast) ==> number(cast) == number(view),
        DataValue::cast_view(view, ty) is Some <==> exists|value: DataValue|
            DataValue::type_of(DataValueView::Plain(value)) == ty && #[trigger] number(
                DataValueView::Plain(value),
            ) == number(view),
{
    let n = number(view)->0;
    let kind = ty->Plain_0;
    if DataValue::cast_view(view, ty) is Some {
        let cast = DataValue::cast_view(view, ty)->0;
        assert(cast is Plain);
        let value = cast->Plain_0;
        assert(number(DataValueView::Plain(value)) == number(view));
    }
    if exists|value: DataValue|
        DataValue::type_of(DataValueView::Plain(value)) == ty && #[trigger] number(
            DataValueView::Plain(value),
        ) == number(view) {
        let value = choose|value: DataValue|
            DataValue::type_of(DataValueView::Plain(value)) == ty && #[trigger] number(
                DataValueView::Plain(value),
            ) == number(view);
        assert(DataValue::in_type(kind, n));
    }
}

/// A cast of a text to another text type keeps the text.
pub proof fn cast_keeps_the_text(view: DataValueView, ty: LogicalTypeView)
    requires
        view is Utf8,
        ty matches LogicalTypeView::Plain(kind) && (kind is Varchar || kind is Char),
    ensures
        DataValue::cast_view(view, ty) matches Some(cast) && cast is Utf8 && cast->value
            == view->value,
{
}

/// A cast to an integer type and back to the type that a value has gives the value again.
pub proof fn cast_can_be_undone(view: DataValueView, ty: LogicalTypeView)
    requires
        number(view) is Some,
        !(view->Plain_0 is Boolean),
        is_integer_type(ty),
        DataValue::cast_view(view, ty) is Some,
    ensures
        DataValue::cast_view(DataValue::cast_view(view, ty)->0, DataValue::type_of(view)) == Some(
            view,
        ),
{
}

/// Integers of one type are in the order of their numbers.
pub proof fn integers_are_ordered_by_number(first: DataValueView, second: DataValueView)
    requires
        number(first) is Some,
        number(second) is Some,
        DataValue::type_of(first) == DataValue::type_of(second),
    ensures
        DataValue::order(first, second) == Some(Order::Before) <==> number(first)->0 < number(
            second,
        )->0,
        DataValue::order(first, second) == Some(Order::Same) <==> number(first) == number(second),
        DataValue::order(first, second) == Some(Order::After) <==> number(first)->0 > number(
            second,
        )->0,
{
}

} // verus!
