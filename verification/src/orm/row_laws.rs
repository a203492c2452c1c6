//! Rows and lists of several values: every value keeps its place.

use crate::catalog::ColumnView;
use crate::orm::bindable::{BindOrmScalar, BindOrmScalarList};
use crate::orm::field::{default_of, field_matches, OrmField};
use crate::orm::row::{converts, FromQueryTuple};
use crate::orm::scope::ScopeView;
use crate::orm::value::FromDataValue;
use crate::planner::arena::{ArenaView, ExprRef};
use crate::types::value::DataValue;
use vstd::prelude::*;

verus! {

/// A row of two values is read value by value, each from its own place, and left empty.
pub proof fn row_of_pair_keeps_places<
    A: FromDataValue,
    B: FromDataValue,
>(before: Seq<DataValue>, after: Seq<DataValue>, row: (A, B))
    requires
        <(A, B) as FromQueryTuple>::decodes_values(before, after, Ok(row)),
    ensures
        before.len() == 2,
        converts::<A>(before[0]@, Ok(row.0)),
        converts::<B>(before[1]@, Ok(row.1)),
        after.len() == 2,
        forall|i: int| 0 <= i < 2 ==> #[trigger] after[i] == DataValue::Null,
{
}

/// A row of three values is read value by value, each from its own place, and left empty.
pub proof fn row_of_three_keeps_places<
    A: FromDataValue,
    B: FromDataValue,
    C: FromDataValue,
>(before: Seq<DataValue>, after: Seq<DataValue>, row: (A, B, C))
    requires
        <(A, B, C) as FromQueryTuple>::decodes_values(before, after, Ok(row)),
    ensures
        before.len() == 3,
        converts::<A>(before[0]@, Ok(row.0)),
        converts::<B>(before[1]@, Ok(row.1)),
        converts::<C>(before[2]@, Ok(row.2)),
        after.len() == 3,
        forall|i: int| 0 <= i < 3 ==> #[trigger] after[i] == DataValue::Null,
{
}

/// A row of four values is read value by value, each from its own place, and left empty.
pub proof fn row_of_four_keeps_places<
    A: FromDataValue,
    B: FromDataValue,
    C: FromDataValue,
    D: FromDataValue,
>(before: Seq<DataValue>, after: Seq<DataValue>, row: (A, B, C, D))
    requires
        <(A, B, C, D) as FromQueryTuple>::decodes_values(before, after, Ok(row)),
    ensures
        before.len() == 4,
        converts::<A>(before[0]@, Ok(row.0)),
        converts::<B>(before[1]@, Ok(row.1)),
        converts::<C>(before[2]@, Ok(row.2)),
        converts::<D>(before[3]@, Ok(row.3)),
        after.len() == 4,
        forall|i: int| 0 <= i < 4 ==> #[trigger] after[i] == DataValue::Null,
{
}

/// A row of five values is read value by value, each from its own place, and left empty.
pub proof fn row_of_five_keeps_places<
    A: FromDataValue,
    B: FromDataValue,
    C: FromDataValue,
    D: FromDataValue,
    E: FromDataValue,
>(before: Seq<DataValue>, after: Seq<DataValue>, row: (A, B, C, D, E))
    requires
        <(A, B, C, D, E) as FromQueryTuple>::decodes_values(before, after, Ok(row)),
    ensures
        before.len() == 5,
        converts::<A>(before[0]@, Ok(row.0)),
        converts::<B>(before[1]@, Ok(row.1)),
        converts::<C>(before[2]@, Ok(row.2)),
        converts::<D>(before[3]@, Ok(row.3)),
        converts::<E>(before[4]@, Ok(row.4)),
        after.len() == 5,
        forall|i: int| 0 <= i < 5 ==> #[trigger] after[i] == DataValue::Null,
{
}

/// A row of six values is read value by value, each from its own place, and left empty.
pub proof fn row_of_six_keeps_places<
    A: FromDataValue,
    B: FromDataValue,
    C: FromDataValue,
    D: FromDataValue,
    E: FromDataValue,
    F: FromDataValue,
>(before: Seq<DataValue>, after: Seq<DataValue>, row: (A, B, C, D, E, F))
    requires
        <(A, B, C, D, E, F) as FromQueryTuple>::decodes_values(before, after, Ok(row)),
    ensures
        before.len() == 6,
        converts::<A>(before[0]@, Ok(row.0)),
        converts::<B>(before[1]@, Ok(row.1)),
        converts::<C>(before[2]@, Ok(row.2)),
        converts::<D>(before[3]@, Ok(row.3)),
        converts::<E>(before[4]@, Ok(row.4)),
        converts::<F>(before[5]@, Ok(row.5)),
        after.len() == 6,
        forall|i: int| 0 <= i < 6 ==> #[trigger] after[i] == DataValue::Null,
{
}

/// A row of seven values is read value by value, each from its own place, and left empty.
pub proof fn row_of_seven_keeps_places<
    A: FromDataValue,
    B: FromDataValue,
    C: FromDataValue,
    D: FromDataValue,
    E: FromDataValue,
    F: FromDataValue,
    G: FromDataValue,
>(before: Seq<DataValue>, after: Seq<DataValue>, row: (A, B, C, D, E, F, G))
    requires
        <(A, B, C, D, E, F, G) as FromQueryTuple>::decodes_values(before, after, Ok(row)),
    ensures
        before.len() == 7,
        converts::<A>(before[0]@, Ok(row.0)),
        converts::<B>(before[1]@, Ok(row.1)),
        converts::<C>(before[2]@, Ok(row.2)),
        converts::<D>(before[3]@, Ok(row.3)),
        converts::<E>(before[4]@, Ok(row.4)),
        converts::<F>(before[5]@, Ok(row.5)),
        converts::<G>(before[6]@, Ok(row.6)),
        after.len() == 7,
        forall|i: int| 0 <= i < 7 ==> #[trigger] after[i] == DataValue::Null,
{
}

/// A row of eight values is read value by value, each from its own place, and left empty.
pub proof fn row_of_eight_keeps_places<
    A: FromDataValue,
    B: FromDataValue,
    C: FromDataValue,
    D: FromDataValue,
    E: FromDataValue,
    F: FromDataValue,
    G: FromDataValue,
    H: FromDataValue,
>(before: Seq<DataValue>, after: Seq<DataValue>, row: (A, B, C, D, E, F, G, H))
    requires
        <(A, B, C, D, E, F, G, H) as FromQueryTuple>::decodes_values(before, after, Ok(row)),
    ensures
        before.len() == 8,
        converts::<A>(before[0]@, Ok(row.0)),
        converts::<B>(before[1]@, Ok(row.1)),
        converts::<C>(before[2]@, Ok(row.2)),
        converts::<D>(before[3]@, Ok(row.3)),
        converts::<E>(before[4]@, Ok(row.4)),
        converts::<F>(before[5]@, Ok(row.5)),
        converts::<G>(before[6]@, Ok(row.6)),
        converts::<H>(before[7]@, Ok(row.7)),
        after.len() == 8,
        forall|i: int| 0 <= i < 8 ==> #[trigger] after[i] == DataValue::Null,
{
}

/// A list of two expressions is bound from the first to the last, each to its own place.
pub proof fn list_of_pair_keeps_places<
    A: BindOrmScalar,
    B: BindOrmScalar,
>(list: (A, B), before: ScopeView, after: ScopeView, exprs: Seq<ExprRef>)
    requires
        list.list_binds(before, after, Ok(exprs)),
    ensures
        exprs.len() == 2,
        exists|end: ScopeView| #[trigger] list.0.scalar_binds(before, end, Ok(exprs[0])),
        exists|start: ScopeView| #[trigger] list.1.scalar_binds(start, after, Ok(exprs[1])),
{
}

/// A list of three expressions is bound from the first to the last, each to its own place.
pub proof fn list_of_three_keeps_places<
    A: BindOrmScalar,
    B: BindOrmScalar,
    C: BindOrmScalar,
>(list: (A, B, C), before: ScopeView, after: ScopeView, exprs: Seq<ExprRef>)
    requires
        list.list_binds(before, after, Ok(exprs)),
    ensures
        exprs.len() == 3,
        exists|end: ScopeView| #[trigger] list.0.scalar_binds(before, end, Ok(exprs[0])),
        exists|start: ScopeView, end: ScopeView| #[trigger]
            list.1.scalar_binds(start, end, Ok(exprs[1])),
        exists|start: ScopeView| #[trigger] list.2.scalar_binds(start, after, Ok(exprs[2])),
{
}

/// A list of four expressions is bound from the first to the last, each to its own place.
pub proof fn list_of_four_keeps_places<
    A: BindOrmScalar,
    B: BindOrmScalar,
    C: BindOrmScalar,
    D: BindOrmScalar,
>(list: (A, B, C, D), before: ScopeView, after: ScopeView, exprs: Seq<ExprRef>)
    requires
        list.list_binds(before, after, Ok(exprs)),
    ensures
        exprs.len() == 4,
        exists|end: ScopeView| #[trigger] list.0.scalar_binds(before, end, Ok(exprs[0])),
        exists|start: ScopeView, end: ScopeView| #[trigger]
            list.1.scalar_binds(start, end, Ok(exprs[1])),
        exists|start: ScopeView, end: ScopeView| #[trigger]
            list.2.scalar_binds(start, end, Ok(exprs[2])),
        exists|start: ScopeView| #[trigger] list.3.scalar_binds(start, after, Ok(exprs[3])),
{
}

/// A list of five expressions is bound from the first to the last, each to its own place.
pub proof fn list_of_five_keeps_places<
    A: BindOrmScalar,
    B: BindOrmScalar,
    C: BindOrmScalar,
    D: BindOrmScalar,
    E: BindOrmScalar,
>(list: (A, B, C, D, E), before: ScopeView, after: ScopeView, exprs: Seq<ExprRef>)
    requires
        list.list_binds(before, after, Ok(exprs)),
    ensures
        exprs.len() == 5,
        exists|end: ScopeView| #[trigger] list.0.scalar_binds(before, end, Ok(exprs[0])),
        exists|start: ScopeView, end: ScopeView| #[trigger]
            list.1.scalar_binds(start, end, Ok(exprs[1])),
        exists|start: ScopeView, end: ScopeView| #[trigger]
            list.2.scalar_binds(start, end, Ok(exprs[2])),
        exists|start: ScopeView, end: ScopeView| #[trigger]
            list.3.scalar_binds(start, end, Ok(exprs[3])),
        exists|start: ScopeView| #[trigger] list.4.scalar_binds(start, after, Ok(exprs[4])),
{
}

/// A list of six expressions is bound from the first to the last, each to its own place.
pub proof fn list_of_six_keeps_places<
    A: BindOrmScalar,
    B: BindOrmScalar,
    C: BindOrmScalar,
    D: BindOrmScalar,
    E: BindOrmScalar,
    F: BindOrmScalar,
>(list: (A, B, C, D, E, F), before: ScopeView, after: ScopeView, exprs: Seq<ExprRef>)
    requires
        list.list_binds(before, after, Ok(exprs)),
    ensures
        exprs.len() == 6,
        exists|end: ScopeView| #[trigger] list.0.scalar_binds(before, end, Ok(exprs[0])),
        exists|start: ScopeView, end: ScopeView| #[trigger]
            list.1.scalar_binds(start, end, Ok(exprs[1])),
        exists|start: ScopeView, end: ScopeView| #[trigger]
            list.2.scalar_binds(start, end, Ok(exprs[2])),
        exists|start: ScopeView, end: ScopeView| #[trigger]
            list.3.scalar_binds(start, end, Ok(exprs[3])),
        exists|start: ScopeView, end: ScopeView| #[trigger]
            list.4.scalar_binds(start, end, Ok(exprs[4])),
        exists|start: ScopeView| #[trigger] list.5.scalar_binds(start, after, Ok(exprs[5])),
{
}

/// A list of seven expressions is bound from the first to the last, each to its own place.
pub proof fn list_of_seven_keeps_places<
    A: BindOrmScalar,
    B: BindOrmScalar,
    C: BindOrmScalar,
    D: BindOrmScalar,
    E: BindOrmScalar,
    F: BindOrmScalar,
    G: BindOrmScalar,
>(list: (A, B, C, D, E, F, G), before: ScopeView, after: ScopeView, exprs: Seq<ExprRef>)
    requires
        list.list_binds(before, after, Ok(exprs)),
    ensures
        exprs.len() == 7,
        exists|end: ScopeView| #[trigger] list.0.scalar_binds(before, end, Ok(exprs[0])),
        exists|start: ScopeView, end: ScopeView| #[trigger]
            list.1.scalar_binds(start, end, Ok(exprs[1])),
        exists|start: ScopeView, end: ScopeView| #[trigger]
            list.2.scalar_binds(start, end, Ok(exprs[2])),
        exists|start: ScopeView, end: ScopeView| #[trigger]
            list.3.scalar_binds(start, end, Ok(exprs[3])),
        exists|start: ScopeView, end: ScopeView| #[trigger]
            list.4.scalar_binds(start, end, Ok(exprs[4])),
        exists|start: ScopeView, end: ScopeView| #[trigger]
            list.5.scalar_binds(start, end, Ok(exprs[5])),
        exists|start: ScopeView| #[trigger] list.6.scalar_binds(start, after, Ok(exprs[6])),
{
}

/// A list of eight expressions is bound from the first to the last, each to its own place.
pub proof fn list_of_eight_keeps_places<
    A: BindOrmScalar,
    B: BindOrmScalar,
    C: BindOrmScalar,
    D: BindOrmScalar,
    E: BindOrmScalar,
    F: BindOrmScalar,
    G: BindOrmScalar,
    H: BindOrmScalar,
>(list: (A, B, C, D, E, F, G, H), before: ScopeView, after: ScopeView, exprs: Seq<ExprRef>)
    requires
        list.list_binds(before, after, Ok(exprs)),
    ensures
        exprs.len() == 8,
        exists|end: ScopeView| #[trigger] list.0.scalar_binds(before, end, Ok(exprs[0])),
        exists|start: ScopeView, end: ScopeView| #[trigger]
            list.1.scalar_binds(start, end, Ok(exprs[1])),
        exists|start: ScopeView, end: ScopeView| #[trigger]
            list.2.scalar_binds(start, end, Ok(exprs[2])),
        exists|start: ScopeView, end: ScopeView| #[trigger]
            list.3.scalar_binds(start, end, Ok(exprs[3])),
        exists|start: ScopeView, end: ScopeView| #[trigger]
            list.4.scalar_binds(start, end, Ok(exprs[4])),
        exists|start: ScopeView, end: ScopeView| #[trigger]
            list.5.scalar_binds(start, end, Ok(exprs[5])),
        exists|start: ScopeView, end: ScopeView| #[trigger]
            list.6.scalar_binds(start, end, Ok(exprs[6])),
        exists|start: ScopeView| #[trigger] list.7.scalar_binds(start, after, Ok(exprs[7])),
{
}

/// Columns that match the same field of a model are alike in all that a field can ask for.
pub proof fn columns_of_one_field_are_alike(
    field: OrmField,
    first: ColumnView,
    second: ColumnView,
    arena: ArenaView,
    other: ArenaView,
)
    requires
        field_matches(field, first, arena),
        field_matches(field, second, other),
    ensures
        first.ty == second.ty,
        first.nullable == second.nullable,
        first.unique == second.unique,
        first.primary is Some <==> second.primary is Some,
        default_of(first, arena) == default_of(second, other),
{
}

/// A column that was made from a field is what the field says, and its default is what the field
/// gives.
pub proof fn made_column_is_what_the_field_says(field: OrmField, arena: ArenaView)
    requires
        arena.exprs.len() <= usize::MAX,
    ensures
        ({
            let column = field.column_view(arena);
            let after = field.with_default(arena);
            &&& column.name == field.column@
            &&& column.ty == field.data_type@
            &&& column.nullable == field.nullable
            &&& column.unique == field.unique
            &&& column.primary == if field.primary_key {
                Some(field.column_index)
            } else {
                None
            }
            &&& arena.exprs.is_prefix_of(after.exprs)
            &&& match field.default {
                Some(expr) => default_of(column, after) == Some(expr@),
                None => default_of(column, after) is None && after == arena,
            }
        }),
{
}

} // verus!
