//! Rows that are written to the table of a model.

use crate::binder::plan::{attached, bound, leaf, lemma_attached, over};
use crate::binder::{
    column_position, column_view, find_column, lemma_column_name, lemma_known_extended, table_known,
    BinderView, BoundSource, SourceView,
};
use crate::catalog::{ColumnRef, TableName};
use crate::errors::DatabaseError;
use crate::expression::{AliasType, ExprHead, ExprView, ScalarExpression};
use crate::orm::field::{Model, OrmField};
use crate::orm::join::texts;
use crate::orm::query::{lemma_bound_extended, settled};
use crate::orm::scope::{lemma_extended_trans, ExprBindScope, ScopeView};
use crate::planner::arena::{ArenaView, ExprRef, PlanArena};
use crate::planner::operator::values::{row_views, ValuesView};
use crate::planner::operator::{Operator, OperatorView};
use crate::planner::schema::{clone_schema, output};
use crate::planner::shape::{lemma_output_shape, lemma_shaped_ready};
use crate::planner::{LogicalPlan, PlanView};
use crate::text::same_text;
use crate::types::value::{value_views, DataValue, DataValueView};
use crate::types::LogicalTypeView;
use vstd::prelude::*;

verus! {

/// The columns that rows are written to.
pub enum Targets {
    /// There are more, or other than, as many values as columns.
    Mismatch(usize, usize),
    /// The name at the position is the first one without a column; the columns are those of the
    /// names before it.
    Missing(nat, Seq<ColumnRef>),
    Columns(Seq<ColumnRef>),
}

/// The columns of the names.
pub open spec fn named_columns(
    arena: ArenaView,
    columns: Seq<ColumnRef>,
    names: Seq<Seq<char>>,
) -> Seq<ColumnRef> {
    names.map_values(|name: Seq<char>| columns[find_column(arena, columns, name, 0)->0])
}

/// The position of the first name, from the given position on, that no column has.
pub open spec fn first_unknown(
    arena: ArenaView,
    columns: Seq<ColumnRef>,
    names: Seq<Seq<char>>,
    from: nat,
) -> Option<nat>
    decreases names.len() - from,
{
    if from >= names.len() {
        None
    } else if find_column(arena, columns, names[from as int], 0) is None {
        Some(from)
    } else {
        first_unknown(arena, columns, names, from + 1)
    }
}

/// Every name before the first unknown one has a column, and if none is unknown, every name has.
pub proof fn names_before_unknown_are_known(
    arena: ArenaView,
    columns: Seq<ColumnRef>,
    names: Seq<Seq<char>>,
    from: nat,
    i: int,
)
    requires
        from <= i < names.len(),
        first_unknown(arena, columns, names, from) matches Some(unknown) ==> i < unknown,
    ensures
        find_column(arena, columns, names[i], 0) is Some,
    decreases names.len() - from,
{
    if from < i {
        names_before_unknown_are_known(arena, columns, names, from + 1, i);
    }
}

/// The columns that rows of the width are written to: without names the first ones of the table,
/// which may be fewer than all; else those of the names, one for each value.
pub open spec fn targets(
    arena: ArenaView,
    table: Seq<ColumnRef>,
    names: Seq<Seq<char>>,
    width: nat,
) -> Targets {
    if names.len() == 0 {
        if width > table.len() {
            Targets::Mismatch(table.len() as usize, width as usize)
        } else {
            Targets::Columns(table.take(width as int))
        }
    } else if width != names.len() {
        Targets::Mismatch(names.len() as usize, width as usize)
    } else {
        match first_unknown(arena, table, names, 0) {
            None => Targets::Columns(named_columns(arena, table, names)),
            Some(unknown) => Targets::Missing(
                unknown,
                named_columns(arena, table, names.take(unknown as int)),
            ),
        }
    }
}

/// The columns of a row, each under the name of the column that it is written to, and the arena
/// with them.
pub open spec fn renamed(arena: ArenaView, row: Seq<ColumnRef>, columns: Seq<ColumnRef>) -> (
    Seq<ExprRef>,
    ArenaView,
)
    decreases row.len(),
{
    if row.len() == 0 {
        (Seq::empty(), arena)
    } else {
        let front = renamed(arena, row.drop_last(), columns.drop_last());
        let first = front.1.push_expr(column_view(row.last(), (row.len() - 1) as usize));
        let second = first.push_expr(
            ExprView {
                head: ExprHead::AliasName(arena.columns[columns.last().0 as int].name),
                children: seq![ExprRef(front.1.exprs.len() as usize)],
            },
        );
        (front.0.push(ExprRef(first.exprs.len() as usize)), second)
    }
}

/// Whether the plan writes its input to the table.
pub open spec fn inserts(
    plan: LogicalPlan,
    table: Seq<char>,
    overwrite: bool,
    input: PlanView,
) -> bool {
    &&& plan.operator matches Operator::Insert(op) && op.table_name@ == table && op.is_overwrite
        == overwrite && op.is_mapping_by_name
    &&& plan@ == over(OperatorView::Plain(plan.operator), input)
}

/// The columns that were found and, where there should be more, the error.
fn bind_targets(
    arena: &PlanArena,
    table: &Vec<ColumnRef>,
    names: &Vec<String>,
    width: usize,
) -> (res: (Vec<ColumnRef>, Option<DatabaseError>))
    requires
        arena@.has_columns(table@),
    ensures
        match targets(arena@, table@, texts(names@), width as nat) {
            Targets::Mismatch(expected, found) => res.0@.len() == 0 && (res.1 matches Some(
                DatabaseError::ValuesLenMismatch(a, b),
            ) && a == expected && b == found),
            Targets::Missing(unknown, columns) => res.0@ == columns && columns.len() == unknown
                && (res.1 matches Some(DatabaseError::ColumnNotFound { name, span }) && span is None
                && name@ == texts(names@)[unknown as int]),
            Targets::Columns(columns) => res.0@ == columns && columns.len() == width && res.1
                is None,
        },
        arena@.has_columns(res.0@),
        res.0@.len() <= width,
{
    let mut out: Vec<ColumnRef> = Vec::new();
    if names.len() == 0 {
        if width > table.len() {
            return (out, Some(DatabaseError::ValuesLenMismatch(table.len(), width)));
        }
        let mut i: usize = 0;
        while i < width
            invariant
                i <= width,
                width <= table.len(),
                arena@.has_columns(table@),
                out@ == table@.take(i as int),
                arena@.has_columns(out@),
            decreases width - i,
        {
            assert(arena@.has_column(table@[i as int]));
            out.push(table[i]);
            assert(table@.take(i + 1) =~= table@.take(i as int).push(table@[i as int]));
            i += 1;
        }
        return (out, None);
    }
    if width != names.len() {
        return (out, Some(DatabaseError::ValuesLenMismatch(names.len(), width)));
    }
    let ghost all = texts(names@);
    let mut i: usize = 0;
    while i < names.len()
        invariant
            i <= names.len(),
            all == texts(names@),
            names@.len() > 0,
            width == names@.len(),
            arena@.has_columns(table@),
            out@ == named_columns(arena@, table@, all.take(i as int)),
            first_unknown(arena@, table@, all, 0) == first_unknown(arena@, table@, all, i as nat),
            arena@.has_columns(out@),
        decreases names.len() - i,
    {
        assert(all[i as int] == names@[i as int]@);
        match column_position(table, names[i].as_str(), arena) {
            Some(position) => {
                out.push(table[position]);
            },
            None => {
                return (out, Some(DatabaseError::column_not_found(names[i].clone())));
            },
        }
        i += 1;
        assert(out@ =~= named_columns(arena@, table@, all.take(i as int)));
    }
    assert(all.take(i as int) =~= all);
    (out, None)
}

fn rename_row(arena: &mut PlanArena, row: &Vec<ColumnRef>, columns: &Vec<ColumnRef>) -> (res: Vec<
    ExprRef,
>)
    requires
        old(arena)@.wf(),
        old(arena)@.has_columns(row@),
        old(arena)@.has_columns(columns@),
        row@.len() == columns@.len(),
    ensures
        (res@, final(arena)@) == renamed(old(arena)@, row@, columns@),
        final(arena)@.wf(),
        old(arena)@.extended_by(final(arena)@),
        final(arena)@.has_exprs(res@),
{
    let ghost start = arena@;
    let mut out: Vec<ExprRef> = Vec::new();
    let mut i: usize = 0;
    assert(row@.take(0) =~= Seq::empty());
    assert(columns@.take(0) =~= Seq::empty());
    while i < row.len()
        invariant
            i <= row.len(),
            row@.len() == columns@.len(),
            start.has_columns(row@),
            start.has_columns(columns@),
            arena@.wf(),
            arena@.columns == start.columns,
            start.extended_by(arena@),
            (out@, arena@) == renamed(start, row@.take(i as int), columns@.take(i as int)),
            arena@.has_exprs(out@),
        decreases row.len() - i,
    {
        let ghost before = arena@;
        proof {
            let next = row@.take(i + 1);
            assert(next.drop_last() =~= row@.take(i as int));
            assert(next.last() == row@[i as int]);
            let cols = columns@.take(i + 1);
            assert(cols.drop_last() =~= columns@.take(i as int));
            assert(cols.last() == columns@[i as int]);
            assert(start.has_column(row@[i as int]));
            assert(start.has_column(columns@[i as int]));
        }
        let expr = arena.alloc_expression(ScalarExpression::column_expr(row[i], i));
        let ghost middle = arena@;
        let name = arena.column(columns[i]).name().to_string();
        let node = ScalarExpression::Alias { expr, alias: AliasType::Name(name) };
        assert(node@.children =~= seq![expr]);
        let alias = arena.alloc_expression(node);
        out.push(alias);
        proof {
            lemma_extended_trans(start, before, middle);
            lemma_extended_trans(start, middle, arena@);
        }
        i += 1;
    }
    assert(row@.take(i as int) =~= row@);
    assert(columns@.take(i as int) =~= columns@);
    out
}

/// Outcomes of writing the rows of a plan to a table. The values are renamed one by one, so that
/// the arena holds those before the first unknown column even where the others are refused.
pub open spec fn inserted(
    scope: ScopeView,
    table: Seq<char>,
    columns: Seq<String>,
    input: PlanView,
    overwrite: bool,
    after: ScopeView,
    res: Result<LogicalPlan, DatabaseError>,
) -> bool {
    let out = output(input, scope.arena);
    let before = scope.with_arena(out.arena);
    let tables = before.binder.tables.map();
    if !tables.contains_key(table) {
        res == Err::<LogicalPlan, DatabaseError>(DatabaseError::TableNotFound) && after
            == before
    } else {
        match targets(
            out.arena,
            tables[table].columns@,
            texts(columns),
            out.schema.len(),
        ) {
            Targets::Mismatch(expected, found) => (res matches Err(
                DatabaseError::ValuesLenMismatch(a, b),
            ) && a == expected && b == found) && after == before,
            Targets::Missing(unknown, found) => (res matches Err(
                DatabaseError::ColumnNotFound { name, span },
            ) && span is None && name@ == texts(columns)[unknown as int]) && after == before.with_arena(
                renamed(out.arena, out.schema.take(unknown as int), found).1,
            ),
            Targets::Columns(targets) => {
                let (exprs, arena) = renamed(out.arena, out.schema, targets);
                &&& res matches Ok(plan) && inserts(
                    plan,
                    table,
                    overwrite,
                    over(
                        OperatorView::Project(exprs),
                        attached(out.plan, before.binder.pending),
                    ),
                ) && bound(plan@, arena)
                &&& after == settled(before.with_arena(arena))
            },
        }
    }
}

/// Writes the rows of a plan to a table. Without names the values go to the first columns.
pub fn bind_orm_insert_plan<'a>(
    scope: &mut ExprBindScope<'a>,
    table_name: &str,
    columns: Vec<String>,
    input_plan: LogicalPlan,
    overwrite: bool,
) -> (res: Result<LogicalPlan, DatabaseError>)
    requires
        old(scope).known(),
        bound(input_plan@, old(scope)@.arena),
    ensures
        inserted(
            old(scope)@,
            table_name@,
            columns@,
            input_plan@,
            overwrite,
            final(scope)@,
            res,
        ),
        final(scope).known(),
        old(scope)@.extended_by(final(scope)@),
{
    let ghost start = scope@;
    proof {
        lemma_shaped_ready(input_plan@);
        lemma_output_shape(input_plan@, start.arena);
    }
    let table_name: TableName = table_name.to_string();
    let mut input_plan = input_plan;
    let row = clone_schema(input_plan.output_schema(&mut scope.arena));
    let ghost first = scope@;
    proof {
        lemma_known_extended(scope.binder@, start.arena, first.arena);
    }
    let (targets, refused) = match scope.binder.tables.get(&table_name) {
        Some(table) => {
            assert(table_known(*table, first.arena));
            bind_targets(&scope.arena, &table.columns, &columns, row.len())
        },
        None => {
            return Err(DatabaseError::TableNotFound);
        },
    };
    let mut row = row;
    let ghost full = row@;
    row.truncate(targets.len());
    assert(row@ =~= full.take(targets@.len() as int));
    let exprs = rename_row(&mut scope.arena, &row, &targets);
    let ghost second = scope@;
    proof {
        lemma_known_extended(scope.binder@, first.arena, second.arena);
        lemma_extended_trans(start.arena, first.arena, second.arena);
    }
    if let Some(err) = refused {
        assert(row@.len() == 0 ==> row@ =~= Seq::empty());
        return Err(err);
    }
    proof {
        assert(row@ =~= full);
        lemma_bound_extended(input_plan@, first.arena, second.arena);
        lemma_attached(input_plan@, second.binder.pending, second.arena);
    }
    let projected = scope.binder.bind_project(input_plan, exprs);
    assert(scope@ == settled(second));
    assert(scope.known());
    assert(bound(projected@, scope@.arena));
    let plan = scope.binder.bind_insert_query(table_name, projected, overwrite);
    assert(bound(plan@, scope@.arena));
    Ok(plan)
}

/// The value of a field of a model, as it is written.
pub enum FieldValue {
    NoColumn,
    NoParameter,
    /// The first type cannot be cast to the second one.
    NoCast(LogicalTypeView, LogicalTypeView),
    TooLong,
    NoNull,
    Value(ColumnRef, DataValueView),
}

/// The last value of the name.
pub open spec fn parameter(params: Seq<(&'static str, DataValue)>, name: Seq<char>) -> Option<
    DataValueView,
>
    decreases params.len(),
{
    if params.len() == 0 {
        None
    } else if params.last().0@ == name {
        Some(params.last().1@)
    } else {
        parameter(params.drop_last(), name)
    }
}

/// The value of a field: cast to the type of its column, within its length, and null only where
/// the column allows it.
pub open spec fn field_value(
    arena: ArenaView,
    table: Seq<ColumnRef>,
    params: Seq<(&'static str, DataValue)>,
    name: Seq<char>,
) -> FieldValue {
    match find_column(arena, table, name, 0) {
        None => FieldValue::NoColumn,
        Some(i) => {
            let column = arena.columns[table[i].0 as int];
            match parameter(params, name) {
                None => FieldValue::NoParameter,
                Some(value) => match DataValue::cast_view(value, column.ty) {
                    None => FieldValue::NoCast(DataValue::type_of(value), column.ty),
                    Some(value) => if !DataValue::fits(value, column.ty) {
                        FieldValue::TooLong
                    } else if value == DataValueView::Plain(DataValue::Null) && !column.nullable {
                        FieldValue::NoNull
                    } else {
                        FieldValue::Value(table[i], value)
                    },
                },
            }
        },
    }
}

/// Whether the error says why the field has no value.
pub open spec fn field_refused(value: FieldValue, name: Seq<char>, err: DatabaseError) -> bool {
    match value {
        FieldValue::NoColumn => err matches DatabaseError::ColumnNotFound { name: n, span } && n@
            == name && span is None,
        FieldValue::NoParameter => err matches DatabaseError::ParameterNotFound { name: n } && n@
            == name,
        FieldValue::NoCast(own, ty) => err matches DatabaseError::CastFail { from, to } && from@
            == own && to@ == ty,
        FieldValue::TooLong => err == DatabaseError::TooLong,
        FieldValue::NoNull => err matches DatabaseError::NotNullColumn { name: n } && n@ == name,
        FieldValue::Value(..) => false,
    }
}

/// The columns and values of the fields.
pub open spec fn model_row(
    arena: ArenaView,
    table: Seq<ColumnRef>,
    params: Seq<(&'static str, DataValue)>,
    fields: Seq<OrmField>,
) -> Seq<FieldValue> {
    fields.map_values(|field: OrmField| field_value(arena, table, params, field.column@))
}

fn find_parameter<'p>(params: &'p Vec<(&'static str, DataValue)>, name: &str) -> (res: Option<
    &'p DataValue,
>)
    ensures
        res is Some <==> parameter(params@, name@) is Some,
        res matches Some(value) ==> parameter(params@, name@) == Some(value@),
{
    let mut i: usize = params.len();
    assert(params@.take(i as int) =~= params@);
    while i > 0
        invariant
            i <= params.len(),
            parameter(params@, name@) == parameter(params@.take(i as int), name@),
        decreases i,
    {
        i -= 1;
        proof {
            let prefix = params@.take(i + 1);
            assert(prefix.last() == params@[i as int]);
            assert(prefix.drop_last() =~= params@.take(i as int));
        }
        if same_text(params[i].0, name) {
            return Some(&params[i].1);
        }
    }
    None
}

fn bind_field_value(
    arena: &PlanArena,
    table: &Vec<ColumnRef>,
    params: &Vec<(&'static str, DataValue)>,
    name: &str,
) -> (res: Result<(ColumnRef, DataValue), DatabaseError>)
    requires
        arena@.has_columns(table@),
    ensures
        match field_value(arena@, table@, params@, name@) {
            FieldValue::Value(column, value) => res matches Ok(pair) && pair.0 == column
                && pair.1@ == value && arena@.has_column(column),
            refused => res matches Err(err) && field_refused(refused, name@, err),
        },
{
    let i: usize = match column_position(table, name, arena) {
        Some(i) => i,
        None => {
            return Err(DatabaseError::column_not_found(name.to_string()));
        },
    };
    proof {
        lemma_column_name(arena@, table@, name@, 0);
    }
    let column = arena.column(table[i]);
    let value = match find_parameter(params, name) {
        Some(value) => value.clone(),
        None => {
            return Err(DatabaseError::parameter_not_found(name.to_string()));
        },
    };
    let value = match value.cast(column.datatype()) {
        Ok(value) => value,
        Err(err) => {
            return Err(err);
        },
    };
    if let Err(err) = value.check_len(column.datatype()) {
        return Err(err);
    }
    let null = match &value {
        DataValue::Null => true,
        _ => false,
    };
    if null && !column.nullable() {
        return Err(DatabaseError::not_null_column(column.name().to_string()));
    }
    Ok((table[i], value))
}

/// The columns that are written.
pub open spec fn written_columns(row: Seq<FieldValue>) -> Seq<ColumnRef> {
    row.map_values(|value: FieldValue| value->Value_0)
}

/// The values that are written.
pub open spec fn written_values(row: Seq<FieldValue>) -> Seq<DataValueView> {
    row.map_values(|value: FieldValue| value->Value_1)
}

/// Whether the error says why the first field without a value has none.
pub open spec fn row_refused(row: Seq<FieldValue>, fields: Seq<OrmField>,
    err: DatabaseError) -> bool {
    exists|k: int|
        {
            &&& 0 <= k < row.len()
            &&& forall|i: int| 0 <= i < k ==> (#[trigger] row[i]) is Value
            &&& #[trigger] field_refused(row[k], fields[k].column@, err)
        }
}

fn bind_model_row(
    arena: &PlanArena,
    table: &Vec<ColumnRef>,
    params: &Vec<(&'static str, DataValue)>,
    fields: &[OrmField],
) -> (res: Result<(Vec<ColumnRef>, Vec<DataValue>), DatabaseError>)
    requires
        arena@.has_columns(table@),
    ensures
        ({
            let row = model_row(arena@, table@, params@, fields@);
            match res {
                Ok((columns, values)) => {
                    &&& forall|i: int| 0 <= i < row.len() ==> (#[trigger] row[i]) is Value
                    &&& columns@ == written_columns(row)
                    &&& value_views(values@) == written_values(row)
                    &&& arena@.has_columns(columns@)
                },
                Err(err) => row_refused(row, fields@, err),
            }
        }),
{
    let ghost row = model_row(arena@, table@, params@, fields@);
    let mut columns: Vec<ColumnRef> = Vec::new();
    let mut values: Vec<DataValue> = Vec::new();
    let mut i: usize = 0;
    while i < fields.len()
        invariant
            i <= fields@.len(),
            arena@.has_columns(table@),
            row == model_row(arena@, table@, params@, fields@),
            columns@.len() == i,
            values@.len() == i,
            forall|j: int|
                0 <= j < i ==> (#[trigger] row[j]) is Value && columns@[j] == row[j]->Value_0
                    && values@[j]@ == row[j]->Value_1,
            arena@.has_columns(columns@),
        decreases fields@.len() - i,
    {
        assert(row[i as int] == field_value(arena@, table@, params@, fields@[i as int].column@));
        match bind_field_value(arena, table, params, fields[i].column) {
            Ok((column, value)) => {
                columns.push(column);
                values.push(value);
            },
            Err(err) => {
                proof {
                    let k = i as int;
                    assert(field_refused(row[k], fields@[k].column@, err));
                }
                return Err(err);
            },
        }
        i += 1;
    }
    assert(columns@ =~= written_columns(row));
    assert(value_views(values@) =~= written_values(row));
    Ok((columns, values))
}

/// Writes one model to its table.
pub fn bind_orm_insert_model<'a, M: Model>(
    scope: &mut ExprBindScope<'a>,
    params: Vec<(&'static str, DataValue)>,
) -> (res: Result<LogicalPlan, DatabaseError>)
    requires
        old(scope).known(),
    ensures
        ({
            let tables = old(scope)@.binder.tables.map();
            if !tables.contains_key(M::table()) {
                res == Err::<LogicalPlan, DatabaseError>(DatabaseError::TableNotFound)
                    && final(scope)@
                    == old(scope)@
            } else {
                let table = tables[M::table()].columns@;
                let row = model_row(old(scope)@.arena, table, params@, M::columns());
                &&& final(scope)@ == (ScopeView {
                    binder: BinderView {
                        sources: old(scope)@.binder.sources.push(
                            SourceView {
                                table: M::table(),
                                alias: None,
                                join_type: None,
                                columns: table,
                            },
                        ),
                        ..old(scope)@.binder
                    },
                    ..old(scope)@
                })
                &&& match res {
                    Ok(plan) => {
                        &&& forall|i: int| 0 <= i < row.len() ==> (#[trigger] row[i]) is Value
                        &&& inserts(
                            plan,
                            M::table(),
                            false,
                            leaf(
                                OperatorView::Values(
                                    ValuesView {
                                        rows: seq![written_values(row)],
                                        schema_ref: written_columns(row),
                                    },
                                ),
                            ),
                        )
                        &&& bound(plan@, final(scope)@.arena)
                    },
                    Err(err) => row_refused(row, M::columns(), err),
                }
            }
        }),
        final(scope).known(),
{
    let table_name: TableName = M::table_name().to_string();
    let ghost arena = scope@.arena;
    let table: Vec<ColumnRef> = match scope.binder.tables.get(&table_name) {
        Some(table) => {
            assert(table_known(*table, arena));
            let columns = table.columns.clone();
            assert(columns@ =~= table.columns@);
            columns
        },
        None => {
            return Err(DatabaseError::TableNotFound);
        },
    };
    let columns = table.clone();
    assert(columns@ =~= table@);
    let source = BoundSource { table_name: table_name.clone(), alias: None, join_type: None,
        columns };
    scope.binder.sources.push(source);
    assert(scope@.binder.sources =~= old(scope)@.binder.sources.push(source@));
    assert(scope@.binder == BinderView {
        sources: old(scope)@.binder.sources.push(source@),
        ..old(scope)@.binder
    });
    let ghost row = model_row(arena, table@, params@, M::columns());
    let (schema_ref, values) = match bind_model_row(&scope.arena, &table, &params, M::fields()) {
        Ok(pair) => pair,
        Err(err) => {
            return Err(err);
        },
    };
    let mut rows: Vec<Vec<DataValue>> = Vec::new();
    rows.push(values);
    assert(row_views(rows@) =~= seq![written_values(row)]);
    let plan = scope.binder.bind_insert_values(table_name, schema_ref, rows, false, true);
    let ghost values_plan = leaf(
        OperatorView::Values(
            ValuesView { rows: seq![written_values(row)], schema_ref: written_columns(row) },
        ),
    );
    assert(bound(values_plan, scope@.arena));
    assert(inserts(plan, M::table(), false, values_plan));
    assert(bound(plan@, scope@.arena));
    Ok(plan)
}

} // verus!
