//! Models and the columns of their tables.

use crate::catalog::{ColumnCatalog, ColumnDesc, ColumnView};
use crate::errors::DatabaseError;
use crate::expression::{ExprHead, ExprView, ScalarExpression};
use crate::orm::row::FromQueryRow;
use crate::orm::value::ToDataValue;
use crate::planner::arena::{ArenaView, ExprRef, PlanArena};
use crate::planner::operator::sort::SortField;
use crate::types::value::DataValue;
use crate::types::LogicalType;
use std::marker::PhantomData;
use vstd::prelude::*;

verus! {

/// What is known of one field of a model.
#[derive(Debug, PartialEq, Eq)]
pub struct OrmField {
    pub column: &'static str,
    pub column_index: usize,
    pub data_type: LogicalType,
    pub nullable: bool,
    pub default: Option<ScalarExpression>,
    pub primary_key: bool,
    pub unique: bool,
}

impl OrmField {
    /// The arena with the default of the field.
    pub open spec fn with_default(&self, arena: ArenaView) -> ArenaView {
        match self.default {
            Some(expr) => arena.push_expr(expr@),
            None => arena,
        }
    }

    /// The column of the field, whose default stands at the end of the arena.
    pub open spec fn column_view(&self, arena: ArenaView) -> ColumnView {
        ColumnView {
            name: self.column@,
            nullable: self.nullable,
            ty: self.data_type@,
            primary: if self.primary_key {
                Some(self.column_index)
            } else {
                None
            },
            unique: self.unique,
            default: match self.default {
                Some(_) => Some(ExprRef(arena.exprs.len() as usize)),
                None => None,
            },
            table: None,
            id: None,
            is_temp: false,
        }
    }

    /// Describes the column of the field.
    pub fn to_column_catalog(&self, arena: &mut PlanArena) -> (res: Result<
        ColumnCatalog,
        DatabaseError,
    >)
        requires
            old(arena)@.wf(),
            self.default matches Some(expr) ==> old(arena)@.fits(expr@),
        ensures
            final(arena)@ == self.with_default(old(arena)@),
            final(arena)@.wf(),
            res matches Ok(column) && column@ == self.column_view(old(arena)@),
    {
        let default: Option<ExprRef> = match &self.default {
            Some(expr) => {
                let copy = expr.clone();
                Some(arena.alloc_expression(copy))
            },
            None => None,
        };
        let primary: Option<usize> = if self.primary_key {
            Some(self.column_index)
        } else {
            None
        };
        match ColumnDesc::new(self.data_type.clone(), primary, self.unique, default) {
            Ok(desc) => Ok(ColumnCatalog::new(self.column.to_string(), self.nullable, desc)),
            Err(err) => Err(err),
        }
    }
}

/// A type whose values are the rows of a table.
pub trait Model: Sized + FromQueryRow {
    type PrimaryKey: ToDataValue;

    /// The name of the table.
    spec fn table() -> Seq<char>;

    /// The fields, in order.
    spec fn columns() -> Seq<OrmField>;

    /// The value of each field, under the name of its column.
    spec fn named_values(&self) -> Seq<(&'static str, DataValue)>;

    /// The name of the table.
    fn table_name() -> (res: &'static str)
        ensures
            res@ == Self::table(),
    ;

    /// The fields, in order.
    fn fields() -> (res: &'static [OrmField])
        ensures
            res@ == Self::columns(),
    ;

    /// The further indexes: name, columns and whether the values are unique.
    fn indexes() -> (res: &'static [(&'static str, &'static [&'static str], bool)])
        default_ensures
            res@.len() == 0,
    {
        &[]
    }

    /// The value of each field, under the name of its column.
    fn params(&self) -> (res: Vec<(&'static str, DataValue)>)
        ensures
            res@ == self.named_values(),
    ;

    /// The value of the primary key.
    fn primary_key(&self) -> &Self::PrimaryKey;

    /// The first field that is a primary key.
    fn primary_key_field() -> (res: &'static OrmField)
        requires
            exists|i: int| 0 <= i < Self::columns().len()
                && (#[trigger] Self::columns()[i]).primary_key,
        ensures
            exists|i: int|
                {
                    &&& 0 <= i < Self::columns().len()
                    &&& *res == #[trigger] Self::columns()[i]
                    &&& res.primary_key
                    &&& forall|j: int| 0 <= j < i ==> !(#[trigger] Self::columns()[j]).primary_key
                },
    {
        let fields = Self::fields();
        let mut i: usize = 0;
        while i < fields.len()
            invariant
                i <= fields@.len(),
                fields@ == Self::columns(),
                forall|j: int| 0 <= j < i ==> !(#[trigger] Self::columns()[j]).primary_key,
                exists|k: int|
                    0 <= k < Self::columns().len() && (#[trigger] Self::columns()[k]).primary_key,
            decreases fields@.len() - i,
        {
            if fields[i].primary_key {
                assert(fields@[i as int] == Self::columns()[i as int]);
                return &fields[i];
            }
            i += 1;
        }
        assert(false);
        &fields[0]
    }
}

/// A column of a model, with the type of its values.
#[derive(Debug, PartialEq, Eq)]
pub struct Field<M, T> {
    table: &'static str,
    column: &'static str,
    _marker: PhantomData<(M, T)>,
}

/// An order by a column of a model.
#[derive(Debug, PartialEq, Eq)]
pub struct FieldSort<M, T> {
    pub field: Field<M, T>,
    pub asc: bool,
    pub nulls_first: bool,
}

impl<M, T> Clone for Field<M, T> {
    fn clone(&self) -> (res: Self)
        ensures
            res == *self,
    {
        Field { table: self.table, column: self.column, _marker: PhantomData }
    }
}

impl<M, T> Clone for FieldSort<M, T> {
    fn clone(&self) -> (res: Self)
        ensures
            res == *self,
    {
        FieldSort { field: self.field.clone(), asc: self.asc, nulls_first: self.nulls_first }
    }
}

impl<M, T> Field<M, T> {
    /// The name of the table.
    pub closed spec fn table(&self) -> Seq<char> {
        self.table@
    }

    /// The name of the column.
    pub closed spec fn column(&self) -> Seq<char> {
        self.column@
    }

    pub fn new(table: &'static str, column: &'static str) -> (res: Self)
        ensures
            res.table() == table@,
            res.column() == column@,
    {
        Field { table, column, _marker: PhantomData }
    }

    pub fn table_name(&self) -> (res: &'static str)
        ensures
            res@ == self.table(),
    {
        self.table
    }

    pub fn column_name(&self) -> (res: &'static str)
        ensures
            res@ == self.column(),
    {
        self.column
    }

    /// From the smallest value to the largest.
    pub fn asc(self) -> (res: FieldSort<M, T>)
        ensures
            res == (FieldSort { field: self, asc: true, nulls_first: false }),
    {
        FieldSort::new(self).asc()
    }

    /// From the largest value to the smallest.
    pub fn desc(self) -> (res: FieldSort<M, T>)
        ensures
            res == (FieldSort { field: self, asc: false, nulls_first: false }),
    {
        FieldSort::new(self).desc()
    }

    /// Nulls before all values.
    pub fn nulls_first(self) -> (res: FieldSort<M, T>)
        ensures
            res == (FieldSort { field: self, asc: true, nulls_first: true }),
    {
        FieldSort::new(self).nulls_first()
    }

    /// Nulls behind all values.
    pub fn nulls_last(self) -> (res: FieldSort<M, T>)
        ensures
            res == (FieldSort { field: self, asc: true, nulls_first: false }),
    {
        FieldSort::new(self).nulls_last()
    }
}

impl<M, T> FieldSort<M, T> {
    pub fn new(field: Field<M, T>) -> (res: Self)
        ensures
            res == (FieldSort { field, asc: true, nulls_first: false }),
    {
        FieldSort { field, asc: true, nulls_first: false }
    }

    pub fn asc(self) -> (res: Self)
        ensures
            res == (FieldSort { asc: true, ..self }),
    {
        FieldSort { asc: true, ..self }
    }

    pub fn desc(self) -> (res: Self)
        ensures
            res == (FieldSort { asc: false, ..self }),
    {
        FieldSort { asc: false, ..self }
    }

    pub fn nulls_first(self) -> (res: Self)
        ensures
            res == (FieldSort { nulls_first: true, ..self }),
    {
        FieldSort { nulls_first: true, ..self }
    }

    pub fn nulls_last(self) -> (res: Self)
        ensures
            res == (FieldSort { nulls_first: false, ..self }),
    {
        FieldSort { nulls_first: false, ..self }
    }
}

/// Groups and order of a window.
#[derive(Debug, PartialEq, Eq)]
pub struct WindowSpec {
    partition_by: Vec<ExprRef>,
    order_by: Vec<SortField>,
}

impl WindowSpec {
    /// What the rows are grouped by.
    pub closed spec fn partitions(&self) -> Seq<ExprRef> {
        self.partition_by@
    }

    /// What the rows of a group are ordered by.
    pub closed spec fn orders(&self) -> Seq<SortField> {
        self.order_by@
    }

    pub fn new() -> (res: Self)
        ensures
            res.partitions() == Seq::<ExprRef>::empty(),
            res.orders() == Seq::<SortField>::empty(),
    {
        WindowSpec { partition_by: Vec::new(), order_by: Vec::new() }
    }

    /// Groups by one more expression.
    pub fn partition_by(self, expr: ExprRef) -> (res: Self)
        ensures
            res.partitions() == self.partitions().push(expr),
            res.orders() == self.orders(),
    {
        let mut res = self;
        res.partition_by.push(expr);
        res
    }

    /// Orders by one more expression.
    pub fn order_by(self, field: SortField) -> (res: Self)
        ensures
            res.partitions() == self.partitions(),
            res.orders() == self.orders().push(field),
    {
        let mut res = self;
        res.order_by.push(field);
        res
    }

    /// Takes groups and order.
    pub fn into_parts(self) -> (res: (Vec<ExprRef>, Vec<SortField>))
        ensures
            res.0@ == self.partitions(),
            res.1@ == self.orders(),
    {
        (self.partition_by, self.order_by)
    }
}

impl Default for WindowSpec {
    fn default() -> (res: Self)
        ensures
            res.partitions() == Seq::<ExprRef>::empty(),
            res.orders() == Seq::<SortField>::empty(),
    {
        WindowSpec::new()
    }
}

/// A table of a query, and the name that it goes by.
#[derive(Debug, PartialEq, Eq)]
pub struct QuerySource {
    pub table_name: String,
    pub alias: Option<String>,
}

impl QuerySource {
    /// The table of a model, under its own name.
    pub fn model<M: Model>() -> (res: Self)
        ensures
            res.table_name@ == M::table(),
            res.alias is None,
    {
        QuerySource { table_name: M::table_name().to_string(), alias: None }
    }

    /// The table under another name.
    pub fn with_alias(self, alias: String) -> (res: Self)
        ensures
            res == (QuerySource { alias: Some(alias), ..self }),
    {
        QuerySource { alias: Some(alias), ..self }
    }
}

/// The later choice of a direction counts, and the place of the nulls is chosen apart from it.
pub proof fn sort_choices_are_apart<M, T>(sort: FieldSort<M, T>)
    ensures
        (FieldSort { asc: true, ..FieldSort { asc: false, ..sort } }) == (FieldSort {
            asc: true,
            ..sort
        }),
        (FieldSort { nulls_first: true, ..FieldSort { asc: false, ..sort } }) == (FieldSort {
            asc: false,
            ..FieldSort { nulls_first: true, ..sort }
        }),
{
}

/// The default of a model's field, as the arena would hold it.
pub open spec fn default_of(column: ColumnView, arena: ArenaView) -> Option<ExprView> {
    match column.default {
        Some(expr) => Some(arena.exprs[expr.0 as int]),
        None => None,
    }
}

/// Whether a column is what the field of the model asks for, apart from its name.
pub open spec fn field_matches(model: OrmField, column: ColumnView, arena: ArenaView) -> bool {
    &&& model.primary_key == (column.primary is Some)
    &&& model.unique == column.unique
    &&& model.nullable == column.nullable
    &&& model.data_type@ == column.ty
    &&& (match model.default {
        Some(expr) => Some(expr@),
        None => None,
    }) == default_of(column, arena)
}

/// Whether the column of the node is there.
pub open spec fn column_known(expr: ExprView, arena: ArenaView) -> bool {
    expr.head matches ExprHead::ColumnRef { column, .. } ==> arena.has_column(column)
}

fn same_node(left: &ScalarExpression, right: &ScalarExpression, arena: &PlanArena) -> (same: bool)
    requires
        column_known(left@, arena@),
        column_known(right@, arena@),
    ensures
        same == (left@ == right@),
{
    match (left, right) {
        (
            ScalarExpression::ColumnRef { column: l, position: p },
            ScalarExpression::ColumnRef { column: r, position: q },
        ) => *l == *r && *p == *q,
        _ => {
            if !left.same_head(right, arena) {
                return false;
            }
            let l = left.children();
            let r = right.children();
            if l.len() != r.len() {
                return false;
            }
            let mut i: usize = 0;
            while i < l.len()
                invariant
                    i <= l.len(),
                    l.len() == r.len(),
                    l@ == left@.children,
                    r@ == right@.children,
                    forall|j: int| 0 <= j < i ==> l@[j] == r@[j],
                decreases l.len() - i,
            {
                if l[i] != r[i] {
                    assert(left@.children[i as int] != right@.children[i as int]);
                    return false;
                }
                i += 1;
            }
            assert(left@.children =~= right@.children);
            true
        },
    }
}

/// Whether what a field asks for and what a column is can be compared in the arena.
pub open spec fn comparable(model: OrmField, column: ColumnView, arena: ArenaView) -> bool {
    &&& arena.wf()
    &&& arena.fits_column(column)
    &&& model.default matches Some(expr) ==> column_known(expr@, arena)
}

/// Whether a column is what the field of the model asks for, apart from its name.
pub fn model_column_matches_catalog(model: &OrmField, column: &ColumnCatalog,
    arena: &PlanArena) -> (res:
    Result<bool, DatabaseError>)
    requires
        comparable(*model, column@, arena@),
    ensures
        res == Ok::<bool, DatabaseError>(field_matches(*model, column@, arena@)),
{
    let defaults = match (&model.default, &column.desc().default) {
        (Some(wanted), Some(found)) => {
            assert(arena@.has_expr(*found));
            assert(column_known(arena@.exprs[found.0 as int], arena@));
            same_node(wanted, arena.expression(*found), arena)
        },
        (None, None) => true,
        _ => false,
    };
    Ok(
        model.primary_key == column.desc().is_primary() && model.unique == column.desc().is_unique()
            && model.nullable == column.nullable() && model.data_type.same(column.datatype())
            && defaults,
    )
}

/// Whether a column can be given the name of a field and then be what the field asks for.
pub fn model_column_rename_compatible(model: &OrmField, column: &ColumnCatalog,
    arena: &PlanArena) -> (res:
    Result<bool, DatabaseError>)
    requires
        comparable(*model, column@, arena@),
    ensures
        res == Ok::<bool, DatabaseError>(field_matches(*model, column@, arena@)),
{
    model_column_matches_catalog(model, column, arena)
}

/// A column that was made from a field matches it.
pub proof fn described_column_matches(field: OrmField, arena: ArenaView)
    requires
        arena.exprs.len() <= usize::MAX,
    ensures
        field_matches(field, field.column_view(arena), field.with_default(arena)),
{
}

} // verus!
