//! Sorting.

use crate::planner::arena::ExprRef;
use vstd::prelude::*;

verus! {

/// One key of an order.
#[derive(Clone, Copy, Debug, PartialEq, Eq, Hash, Structural)]
pub struct SortField {
    pub expr: ExprRef,
    pub asc: bool,
    pub nulls_first: bool,
}

impl SortField {
    pub fn new(expr: ExprRef, asc: bool, nulls_first: bool) -> (res: Self)
        ensures
            res == (SortField { expr, asc, nulls_first }),
    {
        SortField { expr, asc, nulls_first }
    }

    /// The same key in ascending order.
    pub fn asc(self) -> (res: Self)
        ensures
            res == (SortField { asc: true, ..self }),
    {
        SortField { expr: self.expr, asc: true, nulls_first: self.nulls_first }
    }

    /// The same key in descending order.
    pub fn desc(self) -> (res: Self)
        ensures
            res == (SortField { asc: false, ..self }),
    {
        SortField { expr: self.expr, asc: false, nulls_first: self.nulls_first }
    }

    /// The same key with nulls in front.
    pub fn nulls_first(self) -> (res: Self)
        ensures
            res == (SortField { nulls_first: true, ..self }),
    {
        SortField { expr: self.expr, asc: self.asc, nulls_first: true }
    }

    /// The same key with nulls at the end.
    pub fn nulls_last(self) -> (res: Self)
        ensures
            res == (SortField { nulls_first: false, ..self }),
    {
        SortField { expr: self.expr, asc: self.asc, nulls_first: false }
    }
}

impl From<ExprRef> for SortField {
    fn from(expr: ExprRef) -> (res: Self) {
        SortField { expr, asc: true, nulls_first: false }
    }
}

impl vstd::std_specs::convert::FromSpecImpl<ExprRef> for SortField {
    open spec fn obeys_from_spec() -> bool {
        true
    }

    open spec fn from_spec(expr: ExprRef) -> SortField {
        SortField { expr, asc: true, nulls_first: false }
    }
}

/// Sorts its input.
#[derive(Debug, PartialEq, Eq, Hash)]
pub struct SortOperator {
    pub sort_fields: Vec<SortField>,
}

impl Clone for SortOperator {
    fn clone(&self) -> (res: Self)
        ensures
            res.sort_fields@ == self.sort_fields@,
    {
        let sort_fields = self.sort_fields.clone();
        assert(sort_fields@ =~= self.sort_fields@);
        SortOperator { sort_fields }
    }
}

} // verus!
