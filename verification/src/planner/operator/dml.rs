//! Changes of rows.

use crate::catalog::{ColumnRef, TableName};
use crate::planner::arena::ExprRef;
use crate::types::index::IndexMetaRef;
use vstd::prelude::*;

verus! {

/// Inserts the rows of its input.
#[derive(Debug, PartialEq, Eq, Hash)]
pub struct InsertOperator {
    pub table_name: TableName,
    pub is_overwrite: bool,
    pub is_mapping_by_name: bool,
}

impl Clone for InsertOperator {
    fn clone(&self) -> (res: Self)
        ensures
            res == *self,
    {
        InsertOperator {
            table_name: self.table_name.clone(),
            is_overwrite: self.is_overwrite,
            is_mapping_by_name: self.is_mapping_by_name,
        }
    }
}

/// Changes the rows of its input.
#[derive(Debug, PartialEq, Eq, Hash)]
pub struct UpdateOperator {
    pub table_name: TableName,
    pub value_exprs: Vec<(ColumnRef, ExprRef)>,
}

/// Mathematical model of an [`UpdateOperator`].
pub struct UpdateView {
    pub table_name: Seq<char>,
    pub value_exprs: Seq<(ColumnRef, ExprRef)>,
}

impl View for UpdateOperator {
    type V = UpdateView;

    open spec fn view(&self) -> UpdateView {
        UpdateView {
            table_name: self.table_name@,
            value_exprs: self.value_exprs@,
        }
    }
}

impl Clone for UpdateOperator {
    fn clone(&self) -> (res: Self)
        ensures
            res@ == self@,
    {
        let mut value_exprs: Vec<(ColumnRef, ExprRef)> = Vec::new();
        let mut i: usize = 0;
        while i < self.value_exprs.len()
            invariant
                i <= self.value_exprs.len(),
                value_exprs@ == self.value_exprs@.take(i as int),
            decreases self.value_exprs.len() - i,
        {
            value_exprs.push((self.value_exprs[i].0, self.value_exprs[i].1));
            i += 1;
            assert(value_exprs@ =~= self.value_exprs@.take(i as int));
        }
        assert(value_exprs@ =~= self.value_exprs@);
        UpdateOperator {
            table_name: self.table_name.clone(),
            value_exprs,
        }
    }
}

/// Deletes the rows of its input.
#[derive(Debug, PartialEq, Eq, Hash)]
pub struct DeleteOperator {
    pub table_name: TableName,
    pub primary_keys: Vec<ColumnRef>,
}

/// Mathematical model of a [`DeleteOperator`].
pub struct DeleteView {
    pub table_name: Seq<char>,
    pub primary_keys: Seq<ColumnRef>,
}

impl View for DeleteOperator {
    type V = DeleteView;

    open spec fn view(&self) -> DeleteView {
        DeleteView {
            table_name: self.table_name@,
            primary_keys: self.primary_keys@,
        }
    }
}

impl Clone for DeleteOperator {
    fn clone(&self) -> (res: Self)
        ensures
            res@ == self@,
    {
        let primary_keys = self.primary_keys.clone();
        assert(primary_keys@ =~= self.primary_keys@);
        DeleteOperator {
            table_name: self.table_name.clone(),
            primary_keys,
        }
    }
}

/// Collects statistics about the indexes of a table.
#[derive(Debug, PartialEq, Eq, Hash)]
pub struct AnalyzeOperator {
    pub table_name: TableName,
    pub index_metas: Vec<IndexMetaRef>,
    pub histogram_buckets: Option<usize>,
}

/// Mathematical model of an [`AnalyzeOperator`].
pub struct AnalyzeView {
    pub table_name: Seq<char>,
    pub index_metas: Seq<IndexMetaRef>,
    pub histogram_buckets: Option<usize>,
}

impl View for AnalyzeOperator {
    type V = AnalyzeView;

    open spec fn view(&self) -> AnalyzeView {
        AnalyzeView {
            table_name: self.table_name@,
            index_metas: self.index_metas@,
            histogram_buckets: self.histogram_buckets,
        }
    }
}

impl Clone for AnalyzeOperator {
    fn clone(&self) -> (res: Self)
        ensures
            res@ == self@,
    {
        let index_metas = self.index_metas.clone();
        assert(index_metas@ =~= self.index_metas@);
        AnalyzeOperator {
            table_name: self.table_name.clone(),
            index_metas,
            histogram_buckets: self.histogram_buckets,
        }
    }
}

/// Reads rows from a file.
#[derive(Debug, PartialEq, Eq, Hash)]
pub struct CopyFromFileOperator {
    pub table_name: TableName,
    pub path: String,
}

impl Clone for CopyFromFileOperator {
    fn clone(&self) -> (res: Self)
        ensures
            res == *self,
    {
        CopyFromFileOperator {
            table_name: self.table_name.clone(),
            path: self.path.clone(),
        }
    }
}

/// Writes rows to a file.
#[derive(Debug, PartialEq, Eq, Hash)]
pub struct CopyToFileOperator {
    pub table_name: TableName,
    pub path: String,
}

impl Clone for CopyToFileOperator {
    fn clone(&self) -> (res: Self)
        ensures
            res == *self,
    {
        CopyToFileOperator {
            table_name: self.table_name.clone(),
            path: self.path.clone(),
        }
    }
}

} // verus!
