//! Literal rows.

use crate::catalog::ColumnRef;
use crate::types::value::{clone_values, value_views, DataValue, DataValueView};
use vstd::prelude::*;

verus! {

/// Delivers the given rows.
#[derive(Debug, PartialEq, Eq, Hash)]
pub struct ValuesOperator {
    pub rows: Vec<Vec<DataValue>>,
    pub schema_ref: Vec<ColumnRef>,
}

/// Mathematical model of a [`ValuesOperator`].
pub struct ValuesView {
    pub rows: Seq<Seq<DataValueView>>,
    pub schema_ref: Seq<ColumnRef>,
}

/// The models of the rows.
pub open spec fn row_views(rows: Seq<Vec<DataValue>>) -> Seq<Seq<DataValueView>> {
    rows.map_values(|row: Vec<DataValue>| value_views(row@))
}

impl View for ValuesOperator {
    type V = ValuesView;

    open spec fn view(&self) -> ValuesView {
        ValuesView { rows: row_views(self.rows@), schema_ref: self.schema_ref@ }
    }
}

impl Clone for ValuesOperator {
    fn clone(&self) -> (res: Self)
        ensures
            res@ == self@,
    {
        let schema_ref = self.schema_ref.clone();
        assert(schema_ref@ =~= self.schema_ref@);
        let mut rows: Vec<Vec<DataValue>> = Vec::new();
        let mut i: usize = 0;
        while i < self.rows.len()
            invariant
                i <= self.rows.len(),
                rows@.len() == i,
                forall|j: int| 0 <= j < i ==> value_views(rows@[j]@) == value_views(self.rows@[j]@),
            decreases self.rows.len() - i,
        {
            let row = clone_values(&self.rows[i]);
            rows.push(row);
            i += 1;
        }
        assert(row_views(rows@) =~= row_views(self.rows@));
        ValuesOperator { rows, schema_ref }
    }
}

} // verus!
