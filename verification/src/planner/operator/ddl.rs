//! Changes of the catalog.

use crate::catalog::{ColumnRef, TableName};
use crate::types::index::IndexType;
use vstd::prelude::*;

verus! {

/// Lists the columns of a table.
#[derive(Debug, PartialEq, Eq, Hash)]
pub struct DescribeOperator {
    pub table_name: TableName,
}

impl Clone for DescribeOperator {
    fn clone(&self) -> (res: Self)
        ensures
            res == *self,
    {
        DescribeOperator {
            table_name: self.table_name.clone(),
        }
    }
}

/// Adds a column to a table.
#[derive(Debug, PartialEq, Eq, Hash)]
pub struct AddColumnOperator {
    pub table_name: TableName,
    pub if_not_exists: bool,
    pub column: ColumnRef,
}

impl Clone for AddColumnOperator {
    fn clone(&self) -> (res: Self)
        ensures
            res == *self,
    {
        AddColumnOperator {
            table_name: self.table_name.clone(),
            if_not_exists: self.if_not_exists,
            column: self.column,
        }
    }
}

/// Changes name or type of a column.
#[derive(Debug, PartialEq, Eq, Hash)]
pub struct ChangeColumnOperator {
    pub table_name: TableName,
    pub old_column_name: String,
    pub new_column: ColumnRef,
}

impl Clone for ChangeColumnOperator {
    fn clone(&self) -> (res: Self)
        ensures
            res == *self,
    {
        ChangeColumnOperator {
            table_name: self.table_name.clone(),
            old_column_name: self.old_column_name.clone(),
            new_column: self.new_column,
        }
    }
}

/// Removes a column from a table.
#[derive(Debug, PartialEq, Eq, Hash)]
pub struct DropColumnOperator {
    pub table_name: TableName,
    pub column_name: String,
    pub if_exists: bool,
}

impl Clone for DropColumnOperator {
    fn clone(&self) -> (res: Self)
        ensures
            res == *self,
    {
        DropColumnOperator {
            table_name: self.table_name.clone(),
            column_name: self.column_name.clone(),
            if_exists: self.if_exists,
        }
    }
}

/// Creates a table.
#[derive(Debug, PartialEq, Eq, Hash)]
pub struct CreateTableOperator {
    pub table_name: TableName,
    pub columns: Vec<ColumnRef>,
    pub if_not_exists: bool,
}

/// Mathematical model of a [`CreateTableOperator`].
pub struct CreateTableView {
    pub table_name: Seq<char>,
    pub columns: Seq<ColumnRef>,
    pub if_not_exists: bool,
}

impl View for CreateTableOperator {
    type V = CreateTableView;

    open spec fn view(&self) -> CreateTableView {
        CreateTableView {
            table_name: self.table_name@,
            columns: self.columns@,
            if_not_exists: self.if_not_exists,
        }
    }
}

impl Clone for CreateTableOperator {
    fn clone(&self) -> (res: Self)
        ensures
            res@ == self@,
    {
        let columns = self.columns.clone();
        assert(columns@ =~= self.columns@);
        CreateTableOperator {
            table_name: self.table_name.clone(),
            columns,
            if_not_exists: self.if_not_exists,
        }
    }
}

/// Creates an index.
#[derive(Debug, PartialEq, Eq, Hash)]
pub struct CreateIndexOperator {
    pub table_name: TableName,
    pub columns: Vec<ColumnRef>,
    pub index_name: String,
    pub if_not_exists: bool,
    pub ty: IndexType,
}

/// Mathematical model of a [`CreateIndexOperator`].
pub struct CreateIndexView {
    pub table_name: Seq<char>,
    pub columns: Seq<ColumnRef>,
    pub index_name: Seq<char>,
    pub if_not_exists: bool,
    pub ty: IndexType,
}

impl View for CreateIndexOperator {
    type V = CreateIndexView;

    open spec fn view(&self) -> CreateIndexView {
        CreateIndexView {
            table_name: self.table_name@,
            columns: self.columns@,
            index_name: self.index_name@,
            if_not_exists: self.if_not_exists,
            ty: self.ty,
        }
    }
}

impl Clone for CreateIndexOperator {
    fn clone(&self) -> (res: Self)
        ensures
            res@ == self@,
    {
        let columns = self.columns.clone();
        assert(columns@ =~= self.columns@);
        CreateIndexOperator {
            table_name: self.table_name.clone(),
            columns,
            index_name: self.index_name.clone(),
            if_not_exists: self.if_not_exists,
            ty: self.ty,
        }
    }
}

/// Creates a view.
#[derive(Debug, PartialEq, Eq, Hash)]
pub struct CreateViewOperator {
    pub view_name: TableName,
    pub or_replace: bool,
}

impl Clone for CreateViewOperator {
    fn clone(&self) -> (res: Self)
        ensures
            res == *self,
    {
        CreateViewOperator {
            view_name: self.view_name.clone(),
            or_replace: self.or_replace,
        }
    }
}

/// Removes a table.
#[derive(Debug, PartialEq, Eq, Hash)]
pub struct DropTableOperator {
    pub table_name: TableName,
    pub if_exists: bool,
}

impl Clone for DropTableOperator {
    fn clone(&self) -> (res: Self)
        ensures
            res == *self,
    {
        DropTableOperator {
            table_name: self.table_name.clone(),
            if_exists: self.if_exists,
        }
    }
}

/// Removes a view.
#[derive(Debug, PartialEq, Eq, Hash)]
pub struct DropViewOperator {
    pub view_name: TableName,
    pub if_exists: bool,
}

impl Clone for DropViewOperator {
    fn clone(&self) -> (res: Self)
        ensures
            res == *self,
    {
        DropViewOperator {
            view_name: self.view_name.clone(),
            if_exists: self.if_exists,
        }
    }
}

/// Removes an index.
#[derive(Debug, PartialEq, Eq, Hash)]
pub struct DropIndexOperator {
    pub table_name: TableName,
    pub index_name: String,
    pub if_exists: bool,
}

impl Clone for DropIndexOperator {
    fn clone(&self) -> (res: Self)
        ensures
            res == *self,
    {
        DropIndexOperator {
            table_name: self.table_name.clone(),
            index_name: self.index_name.clone(),
            if_exists: self.if_exists,
        }
    }
}

/// Removes all rows of a table.
#[derive(Debug, PartialEq, Eq, Hash)]
pub struct TruncateOperator {
    pub table_name: TableName,
}

impl Clone for TruncateOperator {
    fn clone(&self) -> (res: Self)
        ensures
            res == *self,
    {
        TruncateOperator {
            table_name: self.table_name.clone(),
        }
    }
}

} // verus!
