//! Results of queries, read as values of a program.

use crate::db::iter::{next_model, ResultIter};
use crate::errors::DatabaseError;
use crate::orm::field::Model;
use crate::orm::row::{
    extract_projected_tuple, extract_value_from_tuple, extracts_value, FromQueryRow, FromQueryTuple,
};
use crate::orm::value::FromDataValue;
use crate::types::tuple::{SchemaView, Tuple};
use std::marker::PhantomData;
use vstd::prelude::*;

verus! {

/// A result of which each row is one value.
#[derive(Debug)]
pub struct ProjectValueIter<I, T> {
    pub inner: I,
    pub marker: PhantomData<T>,
}

/// A result of which each row is several values.
#[derive(Debug)]
pub struct ProjectTupleIter<I, T> {
    pub inner: I,
    pub marker: PhantomData<T>,
}

/// Ways to read a result.
pub trait OrmQueryResultExt: ResultIter {
    /// Reads each row as one value.
    fn project_value<T: FromDataValue>(self) -> (res: ProjectValueIter<Self, T>)
        ensures
            res.inner == self,
    {
        ProjectValueIter { inner: self, marker: PhantomData }
    }

    /// Reads each row as several values.
    fn project_tuple<T: FromQueryTuple>(self) -> (res: ProjectTupleIter<Self, T>)
        ensures
            res.inner == self,
    {
        ProjectTupleIter { inner: self, marker: PhantomData }
    }
}

impl<I: ResultIter> OrmQueryResultExt for I {

}

/// Outcomes of reading the next row as one value.
pub open spec fn next_value<I: ResultIter, T: FromDataValue>(
    before: I,
    after: I,
    res: Option<Result<T, DatabaseError>>,
) -> bool {
    match res {
        None => I::halts(before, after, Ok(())),
        Some(value) => {
            ||| value matches Err(err) && I::halts(before, after, Err(err))
            ||| exists|row: Tuple, left: Tuple|
                {
                    &&& #[trigger] I::gives(before, row, left, after)
                    &&& extracts_value(row.values@, left.values@, value)
                }
        },
    }
}

/// Outcomes of reading the next row as several values.
pub open spec fn next_values<I: ResultIter, T: FromQueryTuple>(
    before: I,
    after: I,
    res: Option<Result<T, DatabaseError>>,
) -> bool {
    match res {
        None => I::halts(before, after, Ok(())),
        Some(value) => {
            ||| value matches Err(err) && I::halts(before, after, Err(err))
            ||| exists|row: Tuple, left: Tuple|
                {
                    &&& #[trigger] I::gives(before, row, left, after)
                    &&& T::decodes_values(row.values@, left.values@, value)
                }
        },
    }
}

fn read_value<T: FromDataValue>(schema: &SchemaView<'_>, tuple: &mut Tuple) -> (res: Result<
    T,
    DatabaseError,
>)
    ensures
        extracts_value(old(tuple).values@, final(tuple).values@, res),
{
    extract_value_from_tuple(tuple)
}

fn read_values<T: FromQueryTuple>(schema: &SchemaView<'_>, tuple: &mut Tuple) -> (res: Result<
    T,
    DatabaseError,
>)
    ensures
        T::decodes_values(old(tuple).values@, final(tuple).values@, res),
{
    extract_projected_tuple(tuple)
}

impl<I: ResultIter, T: FromDataValue> ProjectValueIter<I, T> {
    pub fn new(inner: I) -> (res: Self)
        ensures
            res.inner == inner,
    {
        ProjectValueIter { inner, marker: PhantomData }
    }

    /// The next value, where there is one.
    pub fn next(&mut self) -> (res: Option<Result<T, DatabaseError>>)
        requires
            old(self).inner.ready(),
        ensures
            next_value(old(self).inner, final(self).inner, res),
            final(self).inner.ready(),
    {
        match self.inner.next_tuple(read_value::<T>) {
            Ok(Some(value)) => Some(value),
            Ok(None) => None,
            Err(err) => Some(Err(err)),
        }
    }

    /// Draws the rows that are left and finishes the result.
    pub fn done(self) -> (res: Result<(), DatabaseError>)
        requires
            self.inner.ready(),
        ensures
            self.inner.finishes(res),
    {
        self.inner.done()
    }

    /// Closes the result without drawing the rows that are left.
    pub fn close(self) -> (res: Result<(), DatabaseError>)
        ensures
            self.inner.leaves(res),
    {
        self.inner.close()
    }
}

impl<I: ResultIter, T: FromQueryTuple> ProjectTupleIter<I, T> {
    pub fn new(inner: I) -> (res: Self)
        ensures
            res.inner == inner,
    {
        ProjectTupleIter { inner, marker: PhantomData }
    }

    /// The next values, where there are any.
    pub fn next(&mut self) -> (res: Option<Result<T, DatabaseError>>)
        requires
            old(self).inner.ready(),
        ensures
            next_values(old(self).inner, final(self).inner, res),
            final(self).inner.ready(),
    {
        match self.inner.next_tuple(read_values::<T>) {
            Ok(Some(value)) => Some(value),
            Ok(None) => None,
            Err(err) => Some(Err(err)),
        }
    }

    /// Draws the rows that are left and finishes the result.
    pub fn done(self) -> (res: Result<(), DatabaseError>)
        requires
            self.inner.ready(),
        ensures
            self.inner.finishes(res),
    {
        self.inner.done()
    }

    /// Closes the result without drawing the rows that are left.
    pub fn close(self) -> (res: Result<(), DatabaseError>)
        ensures
            self.inner.leaves(res),
    {
        self.inner.close()
    }
}

/// Outcomes of reading the first row, where there is one, and closing the result. An error of
/// closing it does not matter.
pub open spec fn first_row<I: ResultIter, T: FromQueryRow>(
    before: I,
    res: Result<Option<T>, DatabaseError>,
) -> bool {
    exists|after: I, next: Option<Result<T, DatabaseError>>, closed: Result<(), DatabaseError>|
        {
            &&& #[trigger] next_model(before, after, next)
            &&& #[trigger] after.leaves(closed)
            &&& res == match next {
                None => Ok(None),
                Some(Ok(row)) => Ok(Some(row)),
                Some(Err(err)) => Err(err),
            }
        }
}

/// Reads the first row, where there is one, and closes the result.
pub fn extract_optional_row<I: ResultIter, T: FromQueryRow>(iter: I) -> (res: Result<
    Option<T>,
    DatabaseError,
>)
    requires
        iter.ready(),
    ensures
        first_row(iter, res),
{
    let mut iter = iter.orm::<T>();
    let ghost before = iter.inner;
    let next = iter.next();
    let ghost after = iter.inner;
    assert(next_model(before, after, next));
    let closed = iter.close();
    assert(after.leaves(closed));
    match next {
        None => Ok(None),
        Some(Ok(row)) => Ok(Some(row)),
        Some(Err(err)) => Err(err),
    }
}

/// Reads the first row as a model, where there is one, and closes the result.
pub fn extract_optional_model<I: ResultIter, M: Model>(iter: I) -> (res: Result<
    Option<M>,
    DatabaseError,
>)
    requires
        iter.ready(),
    ensures
        first_row(iter, res),
{
    extract_optional_row(iter)
}

} // verus!
