//! Columns and the tables that they belong to.

use crate::errors::DatabaseError;
use crate::expression::ScalarExpression;
use crate::planner::arena::{ExprRef, PlanArena};
use crate::types::index::IndexMetaRef;
use crate::types::value::DataValue;
use crate::types::{CharLengthUnits, ColumnId, LogicalType, LogicalTypeView};
use vstd::prelude::*;

verus! {

/// Name of a table.
pub type TableName = String;

/// Reference to a column of an arena.
#[derive(Clone, Copy, Debug, PartialEq, Eq, Hash, Structural)]
pub struct ColumnRef(pub usize);

impl ColumnRef {
    /// The position of the column in its arena.
    pub fn pos(&self) -> (pos: usize)
        ensures
            pos == self.0,
    {
        self.0
    }
}

/// Type and constraints of a column.
#[derive(Debug, PartialEq, Eq, Hash)]
pub struct ColumnDesc {
    pub column_datatype: LogicalType,
    pub primary: Option<usize>,
    pub unique: bool,
    pub default: Option<ExprRef>,
}

impl ColumnDesc {
    /// Describes a column.
    pub fn new(
        column_datatype: LogicalType,
        primary: Option<usize>,
        unique: bool,
        default: Option<ExprRef>,
    ) -> (res: Result<Self, DatabaseError>)
        ensures
            res == Ok::<ColumnDesc, DatabaseError>(
                (ColumnDesc { column_datatype, primary, unique, default }),
            ),
    {
        Ok(ColumnDesc { column_datatype, primary, unique, default })
    }

    /// Whether the column is part of the primary key.
    pub fn is_primary(&self) -> (res: bool)
        ensures
            res == (self.primary is Some),
    {
        self.primary.is_some()
    }

    /// Whether the column is unique.
    pub fn is_unique(&self) -> (res: bool)
        ensures
            res == self.unique,
    {
        self.unique
    }
}

/// Where a column of a table comes from.
#[derive(Clone, Debug, PartialEq, Eq, Hash)]
pub struct ColumnRelation {
    pub table_name: TableName,
    pub column_id: ColumnId,
    pub is_temp: bool,
}

/// A column with its name, type and origin.
#[derive(Debug, PartialEq, Eq, Hash)]
pub struct ColumnCatalog {
    pub name: String,
    pub nullable: bool,
    pub desc: ColumnDesc,
    pub relation: Option<ColumnRelation>,
}

/// Mathematical model of a [`ColumnCatalog`].
pub struct ColumnView {
    pub name: Seq<char>,
    pub nullable: bool,
    pub ty: LogicalTypeView,
    pub primary: Option<usize>,
    pub unique: bool,
    pub default: Option<ExprRef>,
    pub table: Option<Seq<char>>,
    pub id: Option<ColumnId>,
    pub is_temp: bool,
}

impl ColumnView {
    /// Whether two columns are one and the same: same name, same table, same number there.
    pub open spec fn same(self, other: ColumnView) -> bool {
        self.name == other.name && self.table == other.table && self.id == other.id
    }

    /// The name of the column, after the name of its table where it has one.
    pub open spec fn full_name(self) -> Seq<char> {
        match self.table {
            Some(table) => table + "."@ + self.name,
            None => self.name,
        }
    }

    /// A column that only has a name.
    pub open spec fn dummy(name: Seq<char>) -> ColumnView {
        ColumnView {
            name,
            nullable: true,
            ty: LogicalTypeView::Plain(
                LogicalType::Varchar(None, CharLengthUnits::Characters),
            ),
            primary: None,
            unique: false,
            default: None,
            table: None,
            id: None,
            is_temp: false,
        }
    }
}

impl View for ColumnCatalog {
    type V = ColumnView;

    open spec fn view(&self) -> ColumnView {
        ColumnView {
            name: self.name@,
            nullable: self.nullable,
            ty: self.desc.column_datatype@,
            primary: self.desc.primary,
            unique: self.desc.unique,
            default: self.desc.default,
            table: match self.relation {
                Some(relation) => Some(relation.table_name@),
                None => None,
            },
            id: match self.relation {
                Some(relation) => Some(relation.column_id),
                None => None,
            },
            is_temp: match self.relation {
                Some(relation) => relation.is_temp,
                None => false,
            },
        }
    }
}

impl ColumnCatalog {
    /// A column that belongs to no table yet.
    pub fn new(name: String, nullable: bool, desc: ColumnDesc) -> (res: Self)
        ensures
            res == (ColumnCatalog { name, nullable, desc, relation: None }),
    {
        ColumnCatalog { name, nullable, desc, relation: None }
    }

    /// A column that only has a name.
    pub fn new_dummy(name: String) -> (res: Self)
        ensures
            res@ == ColumnView::dummy(name@),
    {
        ColumnCatalog {
            name,
            nullable: true,
            desc: ColumnDesc {
                column_datatype: LogicalType::Varchar(
                    None,
                    CharLengthUnits::Characters,
                ),
                primary: None,
                unique: false,
                default: None,
            },
            relation: None,
        }
    }

    /// Ties the column to a table.
    pub fn set_ref_table(&mut self, table_name: TableName, column_id: ColumnId, is_temp: bool)
        ensures
            *final(self) == (ColumnCatalog {
                relation: Some(ColumnRelation { table_name, column_id, is_temp }),
                ..*old(self)
            }),
    {
        self.relation = Some(ColumnRelation { table_name, column_id, is_temp });
    }

    /// The name of the column.
    pub fn name(&self) -> (name: &str)
        ensures
            name@ == self@.name,
    {
        self.name.as_str()
    }

    /// The number of the column in its table.
    pub fn id(&self) -> (id: Option<ColumnId>)
        ensures
            id == self@.id,
    {
        match &self.relation {
            Some(relation) => Some(relation.column_id),
            None => None,
        }
    }

    /// The table of the column.
    pub fn table_name(&self) -> (name: Option<&TableName>)
        ensures
            name is Some <==> self@.table is Some,
            name matches Some(n) ==> self@.table == Some(n@),
    {
        match &self.relation {
            Some(relation) => Some(&relation.table_name),
            None => None,
        }
    }

    /// The type of the column.
    pub fn datatype(&self) -> (ty: &LogicalType)
        ensures
            *ty == self.desc.column_datatype,
            ty@ == self@.ty,
    {
        &self.desc.column_datatype
    }

    /// Whether the column may hold null.
    pub fn nullable(&self) -> (res: bool)
        ensures
            res == self@.nullable,
    {
        self.nullable
    }

    /// Type and constraints of the column.
    pub fn desc(&self) -> (desc: &ColumnDesc)
        ensures
            *desc == self.desc,
    {
        &self.desc
    }

    /// Whether two columns are one and the same.
    pub fn same(&self, other: &ColumnCatalog) -> (same: bool)
        ensures
            same == self@.same(other@),
    {
        if self.name != other.name {
            return false;
        }
        match (&self.relation, &other.relation) {
            (Some(left), Some(right)) => {
                left.table_name == right.table_name && left.column_id == right.column_id
            },
            (None, None) => true,
            _ => false,
        }
    }

    /// The name of the column, after the name of its table where it has one.
    pub fn full_name(&self) -> (name: String)
        ensures
            name@ == self@.full_name(),
    {
        match &self.relation {
            Some(relation) => {
                let mut name = relation.table_name.clone();
                name.append(".");
                name.append(self.name.as_str());
                name
            },
            None => self.name.clone(),
        }
    }

    /// The constant that stands in for a missing value, where the column has one.
    pub fn default_value(&self, arena: &PlanArena) -> (res: Option<DataValue>)
        requires
            self@.default matches Some(expr) ==> arena@.has_expr(expr),
        ensures
            res is Some <==> (self@.default matches Some(expr) && arena@.exprs[expr.0 as int].head
                is Constant),
            res matches Some(value) ==> arena@.exprs[(self@.default->0).0 as int].head->Constant_0
                == value@,
    {
        match self.desc.default {
            Some(expr) => match arena.expression(expr) {
                ScalarExpression::Constant(value) => Some(value.clone()),
                _ => None,
            },
            None => None,
        }
    }
}

impl Clone for ColumnCatalog {
    fn clone(&self) -> (res: Self)
        ensures
            res@ == self@,
    {
        ColumnCatalog {
            name: self.name.clone(),
            nullable: self.nullable,
            desc: ColumnDesc {
                column_datatype: self.desc.column_datatype.clone(),
                primary: self.desc.primary,
                unique: self.desc.unique,
                default: self.desc.default,
            },
            relation: match &self.relation {
                Some(relation) => Some(
                    ColumnRelation {
                        table_name: relation.table_name.clone(),
                        column_id: relation.column_id,
                        is_temp: relation.is_temp,
                    },
                ),
                None => None,
            },
        }
    }
}

/// A table: its columns in order, its primary key and its indexes.
#[derive(Debug, PartialEq, Eq, Hash)]
pub struct TableCatalog {
    pub name: TableName,
    pub columns: Vec<ColumnRef>,
    pub primary_keys: Vec<ColumnRef>,
    pub indexes: Vec<IndexMetaRef>,
}

/// Mathematical model of a [`TableCatalog`].
pub struct TableView {
    pub name: Seq<char>,
    pub columns: Seq<ColumnRef>,
    pub primary_keys: Seq<ColumnRef>,
    pub indexes: Seq<IndexMetaRef>,
}

impl View for TableCatalog {
    type V = TableView;

    open spec fn view(&self) -> TableView {
        TableView {
            name: self.name@,
            columns: self.columns@,
            primary_keys: self.primary_keys@,
            indexes: self.indexes@,
        }
    }
}

impl TableCatalog {
    /// The name of the table.
    pub fn name(&self) -> (name: &TableName)
        ensures
            *name == self.name,
    {
        &self.name
    }
}

} // verus!
