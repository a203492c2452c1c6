//! Window functions.

use crate::catalog::ColumnRef;
use crate::planner::arena::ExprRef;
use crate::planner::operator::sort::SortField;
use crate::planner::operator::{SortOption, SortOptionView};
use vstd::prelude::*;

verus! {

/// Appends the values of window functions to each row.
#[derive(Debug, PartialEq, Eq, Hash)]
pub struct WindowOperator {
    pub partition_by: Vec<ExprRef>,
    pub order_by: Vec<SortField>,
    pub functions: Vec<ExprRef>,
    pub output_columns: Vec<ColumnRef>,
}

/// Mathematical model of a [`WindowOperator`].
pub struct WindowView {
    pub partition_by: Seq<ExprRef>,
    pub order_by: Seq<SortField>,
    pub functions: Seq<ExprRef>,
    pub output_columns: Seq<ColumnRef>,
}

impl View for WindowOperator {
    type V = WindowView;

    open spec fn view(&self) -> WindowView {
        WindowView {
            partition_by: self.partition_by@,
            order_by: self.order_by@,
            functions: self.functions@,
            output_columns: self.output_columns@,
        }
    }
}

impl WindowView {
    /// The keys of the partitions, ascending, followed by the order inside a partition.
    pub open spec fn fields(self) -> Seq<SortField> {
        self.partition_by.map_values(
            |expr: ExprRef| SortField { expr, asc: true, nulls_first: false },
        ) + self.order_by
    }

    /// The order in which the rows leave.
    pub open spec fn sort_option(self) -> SortOptionView {
        if self.fields().len() == 0 {
            SortOptionView::Nothing
        } else {
            SortOptionView::OrderBy { fields: self.fields(), ignore_prefix_len: 0 }
        }
    }
}

impl WindowOperator {
    /// The order in which the rows leave.
    pub fn sort_option(&self) -> (res: SortOption)
        ensures
            res@ == self@.sort_option(),
    {
        let mut fields: Vec<SortField> = Vec::new();
        let mut i: usize = 0;
        while i < self.partition_by.len()
            invariant
                i <= self.partition_by.len(),
                fields@ == self@.fields().take(i as int),
                self@.fields().len() == self.partition_by.len() + self.order_by.len(),
            decreases self.partition_by.len() - i,
        {
            fields.push(SortField::new(self.partition_by[i], true, false));
            i += 1;
            assert(fields@ =~= self@.fields().take(i as int));
        }
        let mut j: usize = 0;
        while j < self.order_by.len()
            invariant
                j <= self.order_by.len(),
                fields@ == self@.fields().take(self.partition_by.len() + j),
                self@.fields().len() == self.partition_by.len() + self.order_by.len(),
            decreases self.order_by.len() - j,
        {
            fields.push(self.order_by[j]);
            j += 1;
            assert(fields@ =~= self@.fields().take(self.partition_by.len() + j));
        }
        assert(fields@ =~= self@.fields());
        if fields.len() == 0 {
            SortOption::Nothing
        } else {
            SortOption::OrderBy { fields, ignore_prefix_len: 0 }
        }
    }
}

impl Clone for WindowOperator {
    fn clone(&self) -> (res: Self)
        ensures
            res@ == self@,
    {
        let partition_by = self.partition_by.clone();
        let order_by = self.order_by.clone();
        let functions = self.functions.clone();
        let output_columns = self.output_columns.clone();
        assert(partition_by@ =~= self.partition_by@);
        assert(order_by@ =~= self.order_by@);
        assert(functions@ =~= self.functions@);
        assert(output_columns@ =~= self.output_columns@);
        WindowOperator { partition_by, order_by, functions, output_columns }
    }
}

} // verus!
