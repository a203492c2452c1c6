//! Rows of a result, read into values of a program.

use crate::catalog::ColumnRef;
use crate::errors::DatabaseError;
use crate::orm::value::FromDataValue;
use crate::planner::arena::ArenaView;
use crate::types::tuple::{SchemaView, Tuple};
use crate::types::value::{DataValue, DataValueView};
use vstd::prelude::*;

verus! {

/// What can be read from all values of a row.
pub trait FromQueryTuple: Sized {
    /// Outcomes of reading the values, and what is left of them.
    spec fn decodes_values(
        before: Seq<DataValue>,
        after: Seq<DataValue>,
        res: Result<Self, DatabaseError>,
    ) -> bool;

    /// Takes the values of a row.
    fn from_query_tuple(tuple: &mut Tuple) -> (res: Result<Self, DatabaseError>)
        ensures
            Self::decodes_values(old(tuple).values@, final(tuple).values@, res),
            final(tuple).pk == old(tuple).pk,
    ;
}

/// What can be read from a row with the help of its schema.
pub trait FromQueryRow: Sized {
    /// Outcomes of reading a row, and what is left of its values.
    spec fn decodes_row(
        arena: ArenaView,
        schema: Seq<ColumnRef>,
        before: Seq<DataValue>,
        after: Seq<DataValue>,
        res: Result<Self, DatabaseError>,
    ) -> bool;

    /// Takes the values of a row.
    fn from_query_row(schema: &SchemaView<'_>, tuple: &mut Tuple) -> (res: Result<
        Self,
        DatabaseError,
    >)
        requires
            schema.arena@.has_columns(schema.schema@),
        ensures
            Self::decodes_row(
                schema.arena@,
                schema.schema@,
                old(tuple).values@,
                final(tuple).values@,
                res,
            ),
    ;
}

/// Outcomes of casting a value to the type that is asked for and reading it.
pub open spec fn converts<T: FromDataValue>(
    value: DataValueView,
    res: Result<T, DatabaseError>,
) -> bool {
    match T::target() {
        Some(ty) => match DataValue::cast_view(value, ty) {
            Some(value) => T::decodes(value, res),
            None => res matches Err(DatabaseError::CastFail { from, to }) && from@
                == DataValue::type_of(value) && to@ == ty,
        },
        None => T::decodes(value, res),
    }
}

/// Whether the value can be read.
pub open spec fn readable<T: FromDataValue>(value: DataValueView) -> bool {
    exists|own: T| #[trigger] converts::<T>(value, Ok(own))
}

/// The values with nulls in place of the first ones.
pub open spec fn emptied(values: Seq<DataValue>, count: int) -> Seq<DataValue> {
    Seq::new(
        values.len(),
        |i: int|
            if i < count {
                DataValue::Null
            } else {
                values[i]
            },
    )
}

/// Casts a value to the type that is asked for and reads it.
pub fn convert_projected_value<T: FromDataValue>(value: DataValue) -> (res: Result<
    T,
    DatabaseError,
>)
    ensures
        converts(value@, res),
{
    match T::logical_type() {
        Some(ty) => match value.cast(&ty) {
            Ok(value) => T::from_data_value(value),
            Err(err) => Err(err),
        },
        None => T::from_data_value(value),
    }
}

/// Takes a value out of a row and leaves null.
pub fn take_projected_value(tuple: &mut Tuple, index: usize) -> (res: Option<DataValue>)
    ensures
        final(tuple).pk == old(tuple).pk,
        res is Some <==> index < old(tuple).values@.len(),
        res matches Some(value) ==> value == old(tuple).values@[index as int]
            && final(tuple).values@ == old(tuple).values@.update(index as int, DataValue::Null),
        res is None ==> final(tuple).values@ == old(tuple).values@,
{
    if index < tuple.values.len() {
        let mut value = DataValue::Null;
        std::mem::swap(&mut value, &mut tuple.values[index]);
        Some(value)
    } else {
        None
    }
}

/// Takes the value of a named column out of a row.
pub fn take_value_at<T: FromDataValue>(
    tuple: &mut Tuple,
    index: Option<usize>,
    field_name: &str,
) -> (res: Result<T, DatabaseError>)
    ensures
        final(tuple).pk == old(tuple).pk,
        match index {
            None => (res matches Err(DatabaseError::ColumnNotFound { name, span }) && name@
                == field_name@ && span is None) && final(tuple).values@ == old(tuple).values@,
            Some(i) => if i < old(tuple).values@.len() {
                &&& converts(old(tuple).values@[i as int]@, res)
                &&& final(tuple).values@ == old(tuple).values@.update(i as int, DataValue::Null)
            } else {
                &&& res == Err::<T, DatabaseError>(
                    DatabaseError::MisMatch("the query result schema", "the query result tuple"),
                )
                &&& final(tuple).values@ == old(tuple).values@
            },
        },
{
    match index {
        None => Err(DatabaseError::column_not_found(field_name.to_string())),
        Some(i) => match take_projected_value(tuple, i) {
            Some(value) => convert_projected_value(value),
            None => Err(
                DatabaseError::MisMatch("the query result schema", "the query result tuple"),
            ),
        },
    }
}

/// Reads a value, if there is one.
pub fn extract_projected_data_value<T: FromDataValue>(value: Option<DataValue>) -> (res: Result<
    T,
    DatabaseError,
>)
    ensures
        match value {
            Some(value) => converts(value@, res),
            None => res == Err::<T, DatabaseError>(
                DatabaseError::MisMatch("the expected tuple projection width", "the query result"),
            ),
        },
{
    match value {
        Some(value) => convert_projected_value(value),
        None => Err(
            DatabaseError::MisMatch("the expected tuple projection width", "the query result"),
        ),
    }
}

/// Outcomes of reading a row of one value.
pub open spec fn extracts_value<T: FromDataValue>(
    before: Seq<DataValue>,
    after: Seq<DataValue>,
    res: Result<T, DatabaseError>,
) -> bool {
    if before.len() == 1 {
        &&& converts(before[0]@, res)
        &&& after == emptied(before, 1)
    } else {
        &&& res == Err::<T, DatabaseError>(
            DatabaseError::MisMatch("one projected expression", "the query result"),
        )
        &&& after == before
    }
}

/// Takes the only value of a row.
pub fn extract_value_from_tuple<T: FromDataValue>(tuple: &mut Tuple) -> (res: Result<
    T,
    DatabaseError,
>)
    ensures
        extracts_value(old(tuple).values@, final(tuple).values@, res),
        final(tuple).pk == old(tuple).pk,
{
    if tuple.values.len() != 1 {
        return Err(DatabaseError::MisMatch("one projected expression", "the query result"));
    }
    let value = take_projected_value(tuple, 0);
    assert(tuple.values@ =~= emptied(old(tuple).values@, 1));
    convert_projected_value(value.unwrap())
}

/// Takes all values of a row.
pub fn extract_projected_tuple<T: FromQueryTuple>(tuple: &mut Tuple) -> (res: Result<
    T,
    DatabaseError,
>)
    ensures
        T::decodes_values(old(tuple).values@, final(tuple).values@, res),
        final(tuple).pk == old(tuple).pk,
{
    T::from_query_tuple(tuple)
}

impl<A: FromDataValue, B: FromDataValue> FromQueryTuple for (A, B) {
    open spec fn decodes_values(
        before: Seq<DataValue>,
        after: Seq<DataValue>,
        res: Result<Self, DatabaseError>,
    ) -> bool {
        if before.len() != 2 {
            &&& res == Err::<Self, DatabaseError>(
                DatabaseError::MisMatch("the expected tuple projection width", "the query result"),
            )
            &&& after == before
        } else {
            match res {
                Ok(row) => {
                    &&& converts::<A>(before[0]@, Ok(row.0))
                    &&& converts::<B>(before[1]@, Ok(row.1))
                    &&& after == emptied(before, 2)
                },
                Err(err) => {
                    ||| converts::<A>(before[0]@, Err(err)) && after == emptied(
                        before,
                        1,
                    )
                    ||| readable::<A>(before[0]@) && converts::<B>(before[1]@, Err(err)) && after
                        == emptied(
                        before,
                        2,
                    )
                },
            }
        }
    }

    fn from_query_tuple(tuple: &mut Tuple) -> (res: Result<Self, DatabaseError>) {
        if tuple.values.len() != 2 {
            return Err(
                DatabaseError::MisMatch("the expected tuple projection width", "the query result"),
            );
        }
        let ghost before = tuple.values@;
        let value0 = match extract_projected_data_value::<A>(take_projected_value(tuple, 0)) {
            Ok(value) => value,
            Err(err) => {
                assert(tuple.values@ =~= emptied(before, 1));
                return Err(err);
            },
        };
        assert(converts::<A>(before[0]@, Ok(value0)));
        let value1 = match extract_projected_data_value::<B>(take_projected_value(tuple, 1)) {
            Ok(value) => value,
            Err(err) => {
                assert(tuple.values@ =~= emptied(before, 2));
                return Err(err);
            },
        };
        assert(converts::<B>(before[1]@, Ok(value1)));
        assert(tuple.values@ =~= emptied(before, 2));
        Ok((value0, value1))
    }
}

impl<A: FromDataValue, B: FromDataValue, C: FromDataValue> FromQueryTuple for (A, B, C) {
    open spec fn decodes_values(
        before: Seq<DataValue>,
        after: Seq<DataValue>,
        res: Result<Self, DatabaseError>,
    ) -> bool {
        if before.len() != 3 {
            &&& res == Err::<Self, DatabaseError>(
                DatabaseError::MisMatch("the expected tuple projection width", "the query result"),
            )
            &&& after == before
        } else {
            match res {
                Ok(row) => {
                    &&& converts::<A>(before[0]@, Ok(row.0))
                    &&& converts::<B>(before[1]@, Ok(row.1))
                    &&& converts::<C>(before[2]@, Ok(row.2))
                    &&& after == emptied(before, 3)
                },
                Err(err) => {
                    ||| converts::<A>(before[0]@, Err(err)) && after == emptied(
                        before,
                        1,
                    )
                    ||| readable::<A>(before[0]@) && converts::<B>(before[1]@, Err(err)) && after
                        == emptied(
                        before,
                        2,
                    )
                    ||| readable::<A>(before[0]@) && readable::<B>(before[1]@)
                        && converts::<C>(before[2]@, Err(err)) && after == emptied(
                        before,
                        3,
                    )
                },
            }
        }
    }

    fn from_query_tuple(tuple: &mut Tuple) -> (res: Result<Self, DatabaseError>) {
        if tuple.values.len() != 3 {
            return Err(
                DatabaseError::MisMatch("the expected tuple projection width", "the query result"),
            );
        }
        let ghost before = tuple.values@;
        let value0 = match extract_projected_data_value::<A>(take_projected_value(tuple, 0)) {
            Ok(value) => value,
            Err(err) => {
                assert(tuple.values@ =~= emptied(before, 1));
                return Err(err);
            },
        };
        assert(converts::<A>(before[0]@, Ok(value0)));
        let value1 = match extract_projected_data_value::<B>(take_projected_value(tuple, 1)) {
            Ok(value) => value,
            Err(err) => {
                assert(tuple.values@ =~= emptied(before, 2));
                return Err(err);
            },
        };
        assert(converts::<B>(before[1]@, Ok(value1)));
        let value2 = match extract_projected_data_value::<C>(take_projected_value(tuple, 2)) {
            Ok(value) => value,
            Err(err) => {
                assert(tuple.values@ =~= emptied(before, 3));
                return Err(err);
            },
        };
        assert(converts::<C>(before[2]@, Ok(value2)));
        assert(tuple.values@ =~= emptied(before, 3));
        Ok((value0, value1, value2))
    }
}

impl<A: FromDataValue, B: FromDataValue, C: FromDataValue, D: FromDataValue> FromQueryTuple
    for (A, B, C, D) {
    open spec fn decodes_values(
        before: Seq<DataValue>,
        after: Seq<DataValue>,
        res: Result<Self, DatabaseError>,
    ) -> bool {
        if before.len() != 4 {
            &&& res == Err::<Self, DatabaseError>(
                DatabaseError::MisMatch("the expected tuple projection width", "the query result"),
            )
            &&& after == before
        } else {
            match res {
                Ok(row) => {
                    &&& converts::<A>(before[0]@, Ok(row.0))
                    &&& converts::<B>(before[1]@, Ok(row.1))
                    &&& converts::<C>(before[2]@, Ok(row.2))
                    &&& converts::<D>(before[3]@, Ok(row.3))
                    &&& after == emptied(before, 4)
                },
                Err(err) => {
                    ||| converts::<A>(before[0]@, Err(err)) && after == emptied(
                        before,
                        1,
                    )
                    ||| readable::<A>(before[0]@) && converts::<B>(before[1]@, Err(err)) && after
                        == emptied(
                        before,
                        2,
                    )
                    ||| readable::<A>(before[0]@) && readable::<B>(before[1]@)
                        && converts::<C>(before[2]@, Err(err)) && after == emptied(
                        before,
                        3,
                    )
                    ||| readable::<A>(before[0]@) && readable::<B>(before[1]@)
                        && readable::<C>(before[2]@) && converts::<D>(before[3]@, Err(err)) && after
                        == emptied(
                        before,
                        4,
                    )
                },
            }
        }
    }

    fn from_query_tuple(tuple: &mut Tuple) -> (res: Result<Self, DatabaseError>) {
        if tuple.values.len() != 4 {
            return Err(
                DatabaseError::MisMatch("the expected tuple projection width", "the query result"),
            );
        }
        let ghost before = tuple.values@;
        let value0 = match extract_projected_data_value::<A>(take_projected_value(tuple, 0)) {
            Ok(value) => value,
            Err(err) => {
                assert(tuple.values@ =~= emptied(before, 1));
                return Err(err);
            },
        };
        assert(converts::<A>(before[0]@, Ok(value0)));
        let value1 = match extract_projected_data_value::<B>(take_projected_value(tuple, 1)) {
            Ok(value) => value,
            Err(err) => {
                assert(tuple.values@ =~= emptied(before, 2));
                return Err(err);
            },
        };
        assert(converts::<B>(before[1]@, Ok(value1)));
        let value2 = match extract_projected_data_value::<C>(take_projected_value(tuple, 2)) {
            Ok(value) => value,
            Err(err) => {
                assert(tuple.values@ =~= emptied(before, 3));
                return Err(err);
            },
        };
        assert(converts::<C>(before[2]@, Ok(value2)));
        let value3 = match extract_projected_data_value::<D>(take_projected_value(tuple, 3)) {
            Ok(value) => value,
            Err(err) => {
                assert(tuple.values@ =~= emptied(before, 4));
                return Err(err);
            },
        };
        assert(converts::<D>(before[3]@, Ok(value3)));
        assert(tuple.values@ =~= emptied(before, 4));
        Ok((value0, value1, value2, value3))
    }
}

impl<A: FromDataValue, B: FromDataValue, C: FromDataValue, D: FromDataValue, E: FromDataValue>
    FromQueryTuple for (A, B, C, D, E) {
    open spec fn decodes_values(
        before: Seq<DataValue>,
        after: Seq<DataValue>,
        res: Result<Self, DatabaseError>,
    ) -> bool {
        if before.len() != 5 {
            &&& res == Err::<Self, DatabaseError>(
                DatabaseError::MisMatch("the expected tuple projection width", "the query result"),
            )
            &&& after == before
        } else {
            match res {
                Ok(row) => {
                    &&& converts::<A>(before[0]@, Ok(row.0))
                    &&& converts::<B>(before[1]@, Ok(row.1))
                    &&& converts::<C>(before[2]@, Ok(row.2))
                    &&& converts::<D>(before[3]@, Ok(row.3))
                    &&& converts::<E>(before[4]@, Ok(row.4))
                    &&& after == emptied(before, 5)
                },
                Err(err) => {
                    ||| converts::<A>(before[0]@, Err(err)) && after == emptied(
                        before,
                        1,
                    )
                    ||| readable::<A>(before[0]@) && converts::<B>(before[1]@, Err(err)) && after
                        == emptied(
                        before,
                        2,
                    )
                    ||| readable::<A>(before[0]@) && readable::<B>(before[1]@)
                        && converts::<C>(before[2]@, Err(err)) && after == emptied(
                        before,
                        3,
                    )
                    ||| readable::<A>(before[0]@) && readable::<B>(before[1]@)
                        && readable::<C>(before[2]@) && converts::<D>(before[3]@, Err(err)) && after
                        == emptied(
                        before,
                        4,
                    )
                    ||| readable::<A>(before[0]@) && readable::<B>(before[1]@)
                        && readable::<C>(before[2]@) && readable::<D>(before[3]@)
                        && converts::<E>(before[4]@, Err(err)) && after == emptied(
                        before,
                        5,
                    )
                },
            }
        }
    }

    fn from_query_tuple(tuple: &mut Tuple) -> (res: Result<Self, DatabaseError>) {
        if tuple.values.len() != 5 {
            return Err(
                DatabaseError::MisMatch("the expected tuple projection width", "the query result"),
            );
        }
        let ghost before = tuple.values@;
        let value0 = match extract_projected_data_value::<A>(take_projected_value(tuple, 0)) {
            Ok(value) => value,
            Err(err) => {
                assert(tuple.values@ =~= emptied(before, 1));
                return Err(err);
            },
        };
        assert(converts::<A>(before[0]@, Ok(value0)));
        let value1 = match extract_projected_data_value::<B>(take_projected_value(tuple, 1)) {
            Ok(value) => value,
            Err(err) => {
                assert(tuple.values@ =~= emptied(before, 2));
                return Err(err);
            },
        };
        assert(converts::<B>(before[1]@, Ok(value1)));
        let value2 = match extract_projected_data_value::<C>(take_projected_value(tuple, 2)) {
            Ok(value) => value,
            Err(err) => {
                assert(tuple.values@ =~= emptied(before, 3));
                return Err(err);
            },
        };
        assert(converts::<C>(before[2]@, Ok(value2)));
        let value3 = match extract_projected_data_value::<D>(take_projected_value(tuple, 3)) {
            Ok(value) => value,
            Err(err) => {
                assert(tuple.values@ =~= emptied(before, 4));
                return Err(err);
            },
        };
        assert(converts::<D>(before[3]@, Ok(value3)));
        let value4 = match extract_projected_data_value::<E>(take_projected_value(tuple, 4)) {
            Ok(value) => value,
            Err(err) => {
                assert(tuple.values@ =~= emptied(before, 5));
                return Err(err);
            },
        };
        assert(converts::<E>(before[4]@, Ok(value4)));
        assert(tuple.values@ =~= emptied(before, 5));
        Ok((value0, value1, value2, value3, value4))
    }
}

impl<A: FromDataValue, B: FromDataValue, C: FromDataValue, D: FromDataValue, E: FromDataValue,
    F: FromDataValue> FromQueryTuple for (A, B, C, D, E, F) {
    open spec fn decodes_values(
        before: Seq<DataValue>,
        after: Seq<DataValue>,
        res: Result<Self, DatabaseError>,
    ) -> bool {
        if before.len() != 6 {
            &&& res == Err::<Self, DatabaseError>(
                DatabaseError::MisMatch("the expected tuple projection width", "the query result"),
            )
            &&& after == before
        } else {
            match res {
                Ok(row) => {
                    &&& converts::<A>(before[0]@, Ok(row.0))
                    &&& converts::<B>(before[1]@, Ok(row.1))
                    &&& converts::<C>(before[2]@, Ok(row.2))
                    &&& converts::<D>(before[3]@, Ok(row.3))
                    &&& converts::<E>(before[4]@, Ok(row.4))
                    &&& converts::<F>(before[5]@, Ok(row.5))
                    &&& after == emptied(before, 6)
                },
                Err(err) => {
                    ||| converts::<A>(before[0]@, Err(err)) && after == emptied(
                        before,
                        1,
                    )
                    ||| readable::<A>(before[0]@) && converts::<B>(before[1]@, Err(err)) && after
                        == emptied(
                        before,
                        2,
                    )
                    ||| readable::<A>(before[0]@) && readable::<B>(before[1]@)
                        && converts::<C>(before[2]@, Err(err)) && after == emptied(
                        before,
                        3,
                    )
                    ||| readable::<A>(before[0]@) && readable::<B>(before[1]@)
                        && readable::<C>(before[2]@) && converts::<D>(before[3]@, Err(err)) && after
                        == emptied(
                        before,
                        4,
                    )
                    ||| readable::<A>(before[0]@) && readable::<B>(before[1]@)
                        && readable::<C>(before[2]@) && readable::<D>(before[3]@)
                        && converts::<E>(before[4]@, Err(err)) && after == emptied(
                        before,
                        5,
                    )
                    ||| readable::<A>(before[0]@) && readable::<B>(before[1]@)
                        && readable::<C>(before[2]@) && readable::<D>(before[3]@)
                        && readable::<E>(before[4]@) && converts::<F>(before[5]@, Err(err)) && after
                        == emptied(
                        before,
                        6,
                    )
                },
            }
        }
    }

    fn from_query_tuple(tuple: &mut Tuple) -> (res: Result<Self, DatabaseError>) {
        if tuple.values.len() != 6 {
            return Err(
                DatabaseError::MisMatch("the expected tuple projection width", "the query result"),
            );
        }
        let ghost before = tuple.values@;
        let value0 = match extract_projected_data_value::<A>(take_projected_value(tuple, 0)) {
            Ok(value) => value,
            Err(err) => {
                assert(tuple.values@ =~= emptied(before, 1));
                return Err(err);
            },
        };
        assert(converts::<A>(before[0]@, Ok(value0)));
        let value1 = match extract_projected_data_value::<B>(take_projected_value(tuple, 1)) {
            Ok(value) => value,
            Err(err) => {
                assert(tuple.values@ =~= emptied(before, 2));
                return Err(err);
            },
        };
        assert(converts::<B>(before[1]@, Ok(value1)));
        let value2 = match extract_projected_data_value::<C>(take_projected_value(tuple, 2)) {
            Ok(value) => value,
            Err(err) => {
                assert(tuple.values@ =~= emptied(before, 3));
                return Err(err);
            },
        };
        assert(converts::<C>(before[2]@, Ok(value2)));
        let value3 = match extract_projected_data_value::<D>(take_projected_value(tuple, 3)) {
            Ok(value) => value,
            Err(err) => {
                assert(tuple.values@ =~= emptied(before, 4));
                return Err(err);
            },
        };
        assert(converts::<D>(before[3]@, Ok(value3)));
        let value4 = match extract_projected_data_value::<E>(take_projected_value(tuple, 4)) {
            Ok(value) => value,
            Err(err) => {
                assert(tuple.values@ =~= emptied(before, 5));
                return Err(err);
            },
        };
        assert(converts::<E>(before[4]@, Ok(value4)));
        let value5 = match extract_projected_data_value::<F>(take_projected_value(tuple, 5)) {
            Ok(value) => value,
            Err(err) => {
                assert(tuple.values@ =~= emptied(before, 6));
                return Err(err);
            },
        };
        assert(converts::<F>(before[5]@, Ok(value5)));
        assert(tuple.values@ =~= emptied(before, 6));
        Ok((value0, value1, value2, value3, value4, value5))
    }
}

impl<A: FromDataValue, B: FromDataValue, C: FromDataValue, D: FromDataValue, E: FromDataValue,
    F: FromDataValue, G: FromDataValue> FromQueryTuple for (A, B, C, D, E, F, G) {
    open spec fn decodes_values(
        before: Seq<DataValue>,
        after: Seq<DataValue>,
        res: Result<Self, DatabaseError>,
    ) -> bool {
        if before.len() != 7 {
            &&& res == Err::<Self, DatabaseError>(
                DatabaseError::MisMatch("the expected tuple projection width", "the query result"),
            )
            &&& after == before
        } else {
            match res {
                Ok(row) => {
                    &&& converts::<A>(before[0]@, Ok(row.0))
                    &&& converts::<B>(before[1]@, Ok(row.1))
                    &&& converts::<C>(before[2]@, Ok(row.2))
                    &&& converts::<D>(before[3]@, Ok(row.3))
                    &&& converts::<E>(before[4]@, Ok(row.4))
                    &&& converts::<F>(before[5]@, Ok(row.5))
                    &&& converts::<G>(before[6]@, Ok(row.6))
                    &&& after == emptied(before, 7)
                },
                Err(err) => {
                    ||| converts::<A>(before[0]@, Err(err)) && after == emptied(
                        before,
                        1,
                    )
                    ||| readable::<A>(before[0]@) && converts::<B>(before[1]@, Err(err)) && after
                        == emptied(
                        before,
                        2,
                    )
                    ||| readable::<A>(before[0]@) && readable::<B>(before[1]@)
                        && converts::<C>(before[2]@, Err(err)) && after == emptied(
                        before,
                        3,
                    )
                    ||| readable::<A>(before[0]@) && readable::<B>(before[1]@)
                        && readable::<C>(before[2]@) && converts::<D>(before[3]@, Err(err)) && after
                        == emptied(
                        before,
                        4,
                    )
                    ||| readable::<A>(before[0]@) && readable::<B>(before[1]@)
                        && readable::<C>(before[2]@) && readable::<D>(before[3]@)
                        && converts::<E>(before[4]@, Err(err)) && after == emptied(
                        before,
                        5,
                    )
                    ||| readable::<A>(before[0]@) && readable::<B>(before[1]@)
                        && readable::<C>(before[2]@) && readable::<D>(before[3]@)
                        && readable::<E>(before[4]@) && converts::<F>(before[5]@, Err(err)) && after
                        == emptied(
                        before,
                        6,
                    )
                    ||| readable::<A>(before[0]@) && readable::<B>(before[1]@)
                        && readable::<C>(before[2]@) && readable::<D>(before[3]@)
                        && readable::<E>(before[4]@) && readable::<F>(before[5]@)
                        && converts::<G>(before[6]@, Err(err)) && after == emptied(
                        before,
                        7,
                    )
                },
            }
        }
    }

    fn from_query_tuple(tuple: &mut Tuple) -> (res: Result<Self, DatabaseError>) {
        if tuple.values.len() != 7 {
            return Err(
                DatabaseError::MisMatch("the expected tuple projection width", "the query result"),
            );
        }
        let ghost before = tuple.values@;
        let value0 = match extract_projected_data_value::<A>(take_projected_value(tuple, 0)) {
            Ok(value) => value,
            Err(err) => {
                assert(tuple.values@ =~= emptied(before, 1));
                return Err(err);
            },
        };
        assert(converts::<A>(before[0]@, Ok(value0)));
        let value1 = match extract_projected_data_value::<B>(take_projected_value(tuple, 1)) {
            Ok(value) => value,
            Err(err) => {
                assert(tuple.values@ =~= emptied(before, 2));
                return Err(err);
            },
        };
        assert(converts::<B>(before[1]@, Ok(value1)));
        let value2 = match extract_projected_data_value::<C>(take_projected_value(tuple, 2)) {
            Ok(value) => value,
            Err(err) => {
                assert(tuple.values@ =~= emptied(before, 3));
                return Err(err);
            },
        };
        assert(converts::<C>(before[2]@, Ok(value2)));
        let value3 = match extract_projected_data_value::<D>(take_projected_value(tuple, 3)) {
            Ok(value) => value,
            Err(err) => {
                assert(tuple.values@ =~= emptied(before, 4));
                return Err(err);
            },
        };
        assert(converts::<D>(before[3]@, Ok(value3)));
        let value4 = match extract_projected_data_value::<E>(take_projected_value(tuple, 4)) {
            Ok(value) => value,
            Err(err) => {
                assert(tuple.values@ =~= emptied(before, 5));
                return Err(err);
            },
        };
        assert(converts::<E>(before[4]@, Ok(value4)));
        let value5 = match extract_projected_data_value::<F>(take_projected_value(tuple, 5)) {
            Ok(value) => value,
            Err(err) => {
                assert(tuple.values@ =~= emptied(before, 6));
                return Err(err);
            },
        };
        assert(converts::<F>(before[5]@, Ok(value5)));
        let value6 = match extract_projected_data_value::<G>(take_projected_value(tuple, 6)) {
            Ok(value) => value,
            Err(err) => {
                assert(tuple.values@ =~= emptied(before, 7));
                return Err(err);
            },
        };
        assert(converts::<G>(before[6]@, Ok(value6)));
        assert(tuple.values@ =~= emptied(before, 7));
        Ok((value0, value1, value2, value3, value4, value5, value6))
    }
}

impl<A: FromDataValue, B: FromDataValue, C: FromDataValue, D: FromDataValue, E: FromDataValue,
    F: FromDataValue, G: FromDataValue, H: FromDataValue> FromQueryTuple
    for (A, B, C, D, E, F, G, H) {
    open spec fn decodes_values(
        before: Seq<DataValue>,
        after: Seq<DataValue>,
        res: Result<Self, DatabaseError>,
    ) -> bool {
        if before.len() != 8 {
            &&& res == Err::<Self, DatabaseError>(
                DatabaseError::MisMatch("the expected tuple projection width", "the query result"),
            )
            &&& after == before
        } else {
            match res {
                Ok(row) => {
                    &&& converts::<A>(before[0]@, Ok(row.0))
                    &&& converts::<B>(before[1]@, Ok(row.1))
                    &&& converts::<C>(before[2]@, Ok(row.2))
                    &&& converts::<D>(before[3]@, Ok(row.3))
                    &&& converts::<E>(before[4]@, Ok(row.4))
                    &&& converts::<F>(before[5]@, Ok(row.5))
                    &&& converts::<G>(before[6]@, Ok(row.6))
                    &&& converts::<H>(before[7]@, Ok(row.7))
                    &&& after == emptied(before, 8)
                },
                Err(err) => {
                    ||| converts::<A>(before[0]@, Err(err)) && after == emptied(
                        before,
                        1,
                    )
                    ||| readable::<A>(before[0]@) && converts::<B>(before[1]@, Err(err)) && after
                        == emptied(
                        before,
                        2,
                    )
                    ||| readable::<A>(before[0]@) && readable::<B>(before[1]@)
                        && converts::<C>(before[2]@, Err(err)) && after == emptied(
                        before,
                        3,
                    )
                    ||| readable::<A>(before[0]@) && readable::<B>(before[1]@)
                        && readable::<C>(before[2]@) && converts::<D>(before[3]@, Err(err)) && after
                        == emptied(
                        before,
                        4,
                    )
                    ||| readable::<A>(before[0]@) && readable::<B>(before[1]@)
                        && readable::<C>(before[2]@) && readable::<D>(before[3]@)
                        && converts::<E>(before[4]@, Err(err)) && after == emptied(
                        before,
                        5,
                    )
                    ||| readable::<A>(before[0]@) && readable::<B>(before[1]@)
                        && readable::<C>(before[2]@) && readable::<D>(before[3]@)
                        && readable::<E>(before[4]@) && converts::<F>(before[5]@, Err(err)) && after
                        == emptied(
                        before,
                        6,
                    )
                    ||| readable::<A>(before[0]@) && readable::<B>(before[1]@)
                        && readable::<C>(before[2]@) && readable::<D>(before[3]@)
                        && readable::<E>(before[4]@) && readable::<F>(before[5]@)
                        && converts::<G>(before[6]@, Err(err)) && after == emptied(
                        before,
                        7,
                    )
                    ||| readable::<A>(before[0]@) && readable::<B>(before[1]@)
                        && readable::<C>(before[2]@) && readable::<D>(before[3]@)
                        && readable::<E>(before[4]@) && readable::<F>(before[5]@)
                        && readable::<G>(before[6]@) && converts::<H>(before[7]@, Err(err)) && after
                        == emptied(
                        before,
                        8,
                    )
                },
            }
        }
    }

    fn from_query_tuple(tuple: &mut Tuple) -> (res: Result<Self, DatabaseError>) {
        if tuple.values.len() != 8 {
            return Err(
                DatabaseError::MisMatch("the expected tuple projection width", "the query result"),
            );
        }
        let ghost before = tuple.values@;
        let value0 = match extract_projected_data_value::<A>(take_projected_value(tuple, 0)) {
            Ok(value) => value,
            Err(err) => {
                assert(tuple.values@ =~= emptied(before, 1));
                return Err(err);
            },
        };
        assert(converts::<A>(before[0]@, Ok(value0)));
        let value1 = match extract_projected_data_value::<B>(take_projected_value(tuple, 1)) {
            Ok(value) => value,
            Err(err) => {
                assert(tuple.values@ =~= emptied(before, 2));
                return Err(err);
            },
        };
        assert(converts::<B>(before[1]@, Ok(value1)));
        let value2 = match extract_projected_data_value::<C>(take_projected_value(tuple, 2)) {
            Ok(value) => value,
            Err(err) => {
                assert(tuple.values@ =~= emptied(before, 3));
                return Err(err);
            },
        };
        assert(converts::<C>(before[2]@, Ok(value2)));
        let value3 = match extract_projected_data_value::<D>(take_projected_value(tuple, 3)) {
            Ok(value) => value,
            Err(err) => {
                assert(tuple.values@ =~= emptied(before, 4));
                return Err(err);
            },
        };
        assert(converts::<D>(before[3]@, Ok(value3)));
        let value4 = match extract_projected_data_value::<E>(take_projected_value(tuple, 4)) {
            Ok(value) => value,
            Err(err) => {
                assert(tuple.values@ =~= emptied(before, 5));
                return Err(err);
            },
        };
        assert(converts::<E>(before[4]@, Ok(value4)));
        let value5 = match extract_projected_data_value::<F>(take_projected_value(tuple, 5)) {
            Ok(value) => value,
            Err(err) => {
                assert(tuple.values@ =~= emptied(before, 6));
                return Err(err);
            },
        };
        assert(converts::<F>(before[5]@, Ok(value5)));
        let value6 = match extract_projected_data_value::<G>(take_projected_value(tuple, 6)) {
            Ok(value) => value,
            Err(err) => {
                assert(tuple.values@ =~= emptied(before, 7));
                return Err(err);
            },
        };
        assert(converts::<G>(before[6]@, Ok(value6)));
        let value7 = match extract_projected_data_value::<H>(take_projected_value(tuple, 7)) {
            Ok(value) => value,
            Err(err) => {
                assert(tuple.values@ =~= emptied(before, 8));
                return Err(err);
            },
        };
        assert(converts::<H>(before[7]@, Ok(value7)));
        assert(tuple.values@ =~= emptied(before, 8));
        Ok((value0, value1, value2, value3, value4, value5, value6, value7))
    }
}

/// One row of the description of a table.
#[derive(Debug, PartialEq, Eq)]
pub struct DescribeColumn {
    pub field: String,
    pub data_type: String,
    pub len: String,
    pub nullable: bool,
    pub key: String,
    pub default: String,
}

/// How a value of a description is shown: nothing where there is none.
pub open spec fn shown_value(values: Seq<DataValue>, index: int) -> Seq<char> {
    if index < values.len() {
        DataValue::text(values[index]@)
    } else {
        Seq::empty()
    }
}

/// Shows a value of a description.
pub fn describe_text_value(value: Option<DataValue>) -> (text: String)
    ensures
        text@ == match value {
            Some(value) => DataValue::text(value@),
            None => Seq::empty(),
        },
{
    match value {
        Some(DataValue::Utf8 { value, .. }) => value,
        Some(other) => other.to_string(),
        None => String::new(),
    }
}

impl FromQueryRow for DescribeColumn {
    open spec fn decodes_row(
        arena: ArenaView,
        schema: Seq<ColumnRef>,
        before: Seq<DataValue>,
        after: Seq<DataValue>,
        res: Result<Self, DatabaseError>,
    ) -> bool {
        &&& res matches Ok(column) && {
            &&& column.field@ == shown_value(before, 0)
            &&& column.data_type@ == shown_value(before, 1)
            &&& column.len@ == shown_value(before, 2)
            &&& column.nullable == (before.len() > 3 && (before[3]@ matches DataValueView::Utf8 {
                value,
                ..
            } && value == "true"@))
            &&& column.key@ == shown_value(before, 4)
            &&& column.default@ == shown_value(before, 5)
        }
        &&& after == emptied(before, 6)
    }

    fn from_query_row(schema: &SchemaView<'_>, tuple: &mut Tuple) -> (res: Result<
        Self,
        DatabaseError,
    >) {
        let ghost before = tuple.values@;
        let field = describe_text_value(take_projected_value(tuple, 0));
        let data_type = describe_text_value(take_projected_value(tuple, 1));
        let len = describe_text_value(take_projected_value(tuple, 2));
        let nullable = match take_projected_value(tuple, 3) {
            Some(DataValue::Utf8 { value, .. }) => value == "true".to_string(),
            _ => false,
        };
        let key = describe_text_value(take_projected_value(tuple, 4));
        let default = describe_text_value(take_projected_value(tuple, 5));
        assert(tuple.values@ =~= emptied(before, 6));
        Ok(DescribeColumn { field, data_type, len, nullable, key, default })
    }
}

} // verus!
