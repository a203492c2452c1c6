//! The first rows of an order.

use crate::planner::operator::sort::SortField;
use vstd::prelude::*;

verus! {

/// Sorts its input and passes on the first rows.
#[derive(Debug, PartialEq, Eq, Hash)]
pub struct TopKOperator {
    pub sort_fields: Vec<SortField>,
    pub limit: usize,
    pub offset: Option<usize>,
}

/// Mathematical model of a [`TopKOperator`].
pub struct TopKView {
    pub sort_fields: Seq<SortField>,
    pub limit: usize,
    pub offset: Option<usize>,
}

impl View for TopKOperator {
    type V = TopKView;

    open spec fn view(&self) -> TopKView {
        TopKView { sort_fields: self.sort_fields@, limit: self.limit, offset: self.offset }
    }
}

impl Clone for TopKOperator {
    fn clone(&self) -> (res: Self)
        ensures
            res@ == self@,
    {
        let sort_fields = self.sort_fields.clone();
        assert(sort_fields@ =~= self.sort_fields@);
        TopKOperator { sort_fields, limit: self.limit, offset: self.offset }
    }
}

} // verus!
