//! Scans.

use crate::catalog::{ColumnRef, TableName};
use crate::planner::arena::ExprRef;
use crate::types::index::{info_views, IndexInfo, IndexInfoView};
use vstd::prelude::*;

verus! {

/// Reads the rows of a table.
#[derive(Debug, PartialEq, Eq, Hash)]
pub struct TableScanOperator {
    pub table_name: TableName,
    pub columns: Vec<ColumnRef>,
    /// Offset and limit.
    pub limit: (Option<usize>, Option<usize>),
    pub index_infos: Vec<IndexInfo>,
    pub with_pk: bool,
}

/// Mathematical model of a [`TableScanOperator`].
pub struct TableScanView {
    pub table_name: Seq<char>,
    pub columns: Seq<ColumnRef>,
    pub limit: (Option<usize>, Option<usize>),
    pub index_infos: Seq<IndexInfoView>,
    pub with_pk: bool,
}

impl View for TableScanOperator {
    type V = TableScanView;

    open spec fn view(&self) -> TableScanView {
        TableScanView {
            table_name: self.table_name@,
            columns: self.columns@,
            limit: self.limit,
            index_infos: info_views(self.index_infos@),
            with_pk: self.with_pk,
        }
    }
}

impl Clone for TableScanOperator {
    fn clone(&self) -> (res: Self)
        ensures
            res@ == self@,
    {
        let columns = self.columns.clone();
        assert(columns@ =~= self.columns@);
        let mut index_infos: Vec<IndexInfo> = Vec::new();
        let mut i: usize = 0;
        while i < self.index_infos.len()
            invariant
                i <= self.index_infos.len(),
                index_infos@.len() == i,
                forall|j: int| 0 <= j < i ==> index_infos@[j]@ == self.index_infos@[j]@,
            decreases self.index_infos.len() - i,
        {
            let info = self.index_infos[i].clone();
            index_infos.push(info);
            i += 1;
        }
        assert(info_views(index_infos@) =~= info_views(self.index_infos@));
        TableScanOperator {
            table_name: self.table_name.clone(),
            columns,
            limit: self.limit,
            index_infos,
            with_pk: self.with_pk,
        }
    }
}

/// Reads the rows that a table function makes.
#[derive(Debug, PartialEq, Eq, Hash)]
pub struct FunctionScanOperator {
    pub name: String,
    pub args: Vec<ExprRef>,
    pub schema: Vec<ColumnRef>,
}

/// Mathematical model of a [`FunctionScanOperator`].
pub struct FunctionScanView {
    pub name: Seq<char>,
    pub args: Seq<ExprRef>,
    pub schema: Seq<ColumnRef>,
}

impl View for FunctionScanOperator {
    type V = FunctionScanView;

    open spec fn view(&self) -> FunctionScanView {
        FunctionScanView { name: self.name@, args: self.args@, schema: self.schema@ }
    }
}

impl Clone for FunctionScanOperator {
    fn clone(&self) -> (res: Self)
        ensures
            res@ == self@,
    {
        let args = self.args.clone();
        let schema = self.schema.clone();
        assert(args@ =~= self.args@);
        assert(schema@ =~= self.schema@);
        FunctionScanOperator { name: self.name.clone(), args, schema }
    }
}

} // verus!
