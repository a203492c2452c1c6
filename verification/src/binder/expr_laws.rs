//! The types that expressions of a query have.

use crate::binder::expr::{agg_type, binary_type, common_type, unary_type};
use crate::expression::{AggKind, BinaryOperator, UnaryOperator};
use crate::types::value::DataValue;
use crate::types::{LogicalType, LogicalTypeView};
use vstd::prelude::*;

verus! {

/// Whether the type is an integer type that holds the integer.
pub open spec fn holds_integer(ty: LogicalTypeView, n: int) -> bool {
    ty matches LogicalTypeView::Plain(kind) && DataValue::in_type(kind, n)
}

/// The common type of two types is one of them, does not depend on their order, and holds the integers
/// that either of them holds.
pub proof fn common_type_holds_both(left: LogicalTypeView, right: LogicalTypeView, n: int)
    ensures
        common_type(left, right) == common_type(right, left),
        common_type(left, left) == Some(left),
        common_type(left, right) matches Some(ty) ==> {
            &&& ty == left || ty == right
            &&& holds_integer(left, n) || holds_integer(right, n) ==> holds_integer(ty, n)
        },
{
}

/// Comparisons and connectives give truth values, whatever they are of, and arithmetic gives values of
/// the common type of its operands, or is refused where they have none.
pub proof fn operations_have_their_types(
    op: BinaryOperator,
    left: LogicalTypeView,
    right: LogicalTypeView,
)
    ensures
        op is Eq || op is NotEq || op is Gt || op is GtEq || op is Lt || op is LtEq || op is And
            || op is Or ==> binary_type(op, left, right) == Some(
            LogicalTypeView::Plain(LogicalType::Boolean),
        ),
        op is Plus || op is Minus || op is Multiply || op is Divide || op is Modulo ==> binary_type(
            op,
            left,
            right,
        ) == common_type(left, right),
        op is StringConcat ==> (binary_type(op, left, right) matches Some(LogicalTypeView::Plain(ty))
            && ty is Varchar),
        unary_type(UnaryOperator::Not, left) == LogicalTypeView::Plain(LogicalType::Boolean),
        unary_type(UnaryOperator::Minus, left) == left,
        unary_type(UnaryOperator::Plus, left) == left,
        agg_type(AggKind::Count, left) == LogicalTypeView::Plain(LogicalType::Integer),
        agg_type(AggKind::Sum, left) == left,
        agg_type(AggKind::Min, left) == left,
        agg_type(AggKind::Max, left) == left,
{
}

} // verus!
