//! Rows on their way into a table.

use crate::binder::{find_column, lemma_column_name};
use crate::catalog::ColumnRef;
use crate::expression::meaning::{by_position, value_of, Meaning};
use crate::expression::ExprHead;
use crate::orm::insert::{
    field_value, first_unknown, names_before_unknown_are_known, parameter, renamed, targets,
    FieldValue, Targets,
};
use crate::planner::arena::{ArenaView, ExprRef};
use crate::types::value::{DataValue, DataValueView};
use vstd::prelude::*;

verus! {

/// The expressions for a row are as many as its values, refer to what the arena held or to each
/// other, and the arena keeps what it held.
pub proof fn lemma_renamed(arena: ArenaView, row: Seq<ColumnRef>, columns: Seq<ColumnRef>)
    requires
        row.len() == columns.len(),
        arena.exprs.len() + 2 * row.len() <= usize::MAX,
    ensures
        ({
            let (exprs, after) = renamed(arena, row, columns);
            &&& exprs.len() == row.len()
            &&& after.exprs.len() == arena.exprs.len() + 2 * row.len()
            &&& arena.exprs.is_prefix_of(after.exprs)
            &&& forall|i: int|
                0 <= i < row.len() ==> (#[trigger] exprs[i]).0 == arena.exprs.len() + 2 * i + 1
        }),
    decreases row.len(),
{
    if row.len() > 0 {
        lemma_renamed(arena, row.drop_last(), columns.drop_last());
    }
}

/// Whether the expression is the value at the position of every row, under the name: an alias over
/// a reference to the column at the position.
pub open spec fn passes_on(
    after: ArenaView,
    expr: ExprRef,
    name: Seq<char>,
    column: ColumnRef,
    at: int,
) -> bool {
    let node = after.exprs[expr.0 as int];
    &&& expr.0 < after.exprs.len()
    &&& node.head == ExprHead::AliasName(name)
    &&& node.children.len() == 1
    &&& node.children[0].0 < expr.0
    &&& after.exprs[node.children[0].0 as int].head matches ExprHead::ColumnRef {
        column: read,
        position,
    } && read == column && position == at
}

/// What is written to a column is the value at the same place of the row: each expression is named
/// like its column and has, on every row, the value at its own place.
pub proof fn written_row_is_the_row(
    meaning: Meaning,
    arena: ArenaView,
    row: Seq<ColumnRef>,
    columns: Seq<ColumnRef>,
    values: Seq<DataValueView>,
    i: int,
)
    requires
        row.len() == columns.len(),
        arena.exprs.len() + 2 * row.len() <= usize::MAX,
        0 <= i < row.len(),
    ensures
        ({
            let (exprs, after) = renamed(arena, row, columns);
            &&& exprs.len() == row.len()
            &&& passes_on(
                after,
                exprs[i],
                arena.columns[columns[i].0 as int].name,
                row[i],
                i,
            )
            &&& value_of(meaning, after.exprs, exprs[i], by_position(values)) == values[i]
        }),
    decreases row.len(),
{
    let (exprs, after) = renamed(arena, row, columns);
    let front = renamed(arena, row.drop_last(), columns.drop_last());
    lemma_renamed(arena, row, columns);
    lemma_renamed(arena, row.drop_last(), columns.drop_last());
    if i < row.len() - 1 {
        written_row_is_the_row(
            meaning,
            arena,
            row.drop_last(),
            columns.drop_last(),
            values,
            i,
        );
        assert(exprs[i] == front.0[i]);
        let node = front.1.exprs[exprs[i].0 as int];
        assert(after.exprs[exprs[i].0 as int] == node);
        assert(after.exprs[node.children[0].0 as int]
            == front.1.exprs[node.children[0].0 as int]);
        assert(passes_on(
            after,
            exprs[i],
            arena.columns[columns[i].0 as int].name,
            row[i],
            i,
        ));
    } else {
        assert(exprs[i].0 == front.1.exprs.len() + 1);
    }
    let node = after.exprs[exprs[i].0 as int];
    assert(value_of(meaning, after.exprs, exprs[i], by_position(values)) == value_of(
        meaning,
        after.exprs,
        node.children[0],
        by_position(values),
    ));
}

/// There is one column for each value: without names those at the same places of the table, else
/// those of the names. Every one is a column of the table.
pub proof fn values_go_to_their_columns(
    arena: ArenaView,
    table: Seq<ColumnRef>,
    names: Seq<Seq<char>>,
    width: nat,
)
    ensures
        targets(arena, table, names, width) matches Targets::Columns(columns) ==> {
            &&& columns.len() == width
            &&& forall|i: int|
                0 <= i < width ==> {
                    &&& table.contains(#[trigger] columns[i])
                    &&& names.len() == 0 ==> columns[i] == table[i]
                    &&& names.len() > 0 ==> arena.columns[columns[i].0 as int].name == names[i]
                }
        },
        targets(arena, table, names, width) matches Targets::Mismatch(..) ==> if names.len() == 0 {
            table.len() < width
        } else {
            names.len() != width
        },
        targets(arena, table, names, width) matches Targets::Missing(unknown, columns) ==> {
            &&& unknown < names.len()
            &&& forall|i: int|
                0 <= i < table.len() ==> arena.columns[(#[trigger] table[i]).0 as int].name
                    != names[unknown as int]
        },
{
    if names.len() > 0 && width == names.len() {
        match targets(arena, table, names, width) {
            Targets::Columns(columns) => {
                assert forall|i: int| 0 <= i < width implies {
                    &&& table.contains(#[trigger] columns[i])
                    &&& arena.columns[columns[i].0 as int].name == names[i]
                } by {
                    names_before_unknown_are_known(arena, table, names, 0, i);
                    lemma_column_name(arena, table, names[i], 0);
                    lemma_found_within(arena, table, names[i], 0);
                }
            },
            Targets::Missing(unknown, _) => {
                lemma_unknown(arena, table, names, 0);
                assert forall|i: int| 0 <= i < table.len() implies arena.columns[(
                #[trigger] table[i]).0 as int].name != names[unknown as int] by {
                    lemma_not_found(arena, table, names[unknown as int], 0, i);
                }
            },
            _ => {},
        }
    }
}

/// The first unknown name has no column.
pub proof fn lemma_unknown(
    arena: ArenaView,
    table: Seq<ColumnRef>,
    names: Seq<Seq<char>>,
    from: nat,
)
    ensures
        first_unknown(arena, table, names, from) matches Some(unknown) ==> unknown < names.len()
            && find_column(arena, table, names[unknown as int], 0) is None,
    decreases names.len() - from,
{
    if from < names.len() && find_column(arena, table, names[from as int], 0) is Some {
        lemma_unknown(arena, table, names, from + 1);
    }
}

/// A column that is found lies within the columns.
pub proof fn lemma_found_within(
    arena: ArenaView,
    table: Seq<ColumnRef>,
    name: Seq<char>,
    from: int,
)
    ensures
        find_column(arena, table, name, from) matches Some(i) ==> from <= i < table.len(),
    decreases table.len() - from,
{
    if 0 <= from < table.len() && arena.columns[table[from].0 as int].name != name {
        lemma_found_within(arena, table, name, from + 1);
    }
}

/// Where no column is found, none has the name.
pub proof fn lemma_not_found(
    arena: ArenaView,
    table: Seq<ColumnRef>,
    name: Seq<char>,
    from: int,
    i: int,
)
    requires
        find_column(arena, table, name, from) is None,
        0 <= from <= i < table.len(),
    ensures
        arena.columns[table[i].0 as int].name != name,
    decreases table.len() - from,
{
    if from < i {
        lemma_not_found(arena, table, name, from + 1, i);
    }
}

/// The value of a name is that of the last entry under the name.
pub proof fn parameter_is_the_last_of_its_name(
    params: Seq<(&'static str, DataValue)>,
    name: Seq<char>,
)
    ensures
        match parameter(params, name) {
            Some(value) => exists|i: int|
                {
                    &&& 0 <= i < params.len()
                    &&& (#[trigger] params[i]).0@ == name
                    &&& params[i].1@ == value
                    &&& forall|j: int| i < j < params.len() ==> (#[trigger] params[j]).0@ != name
                },
            None => forall|i: int| 0 <= i < params.len() ==> (#[trigger] params[i]).0@ != name,
        },
    decreases params.len(),
{
    if params.len() > 0 && params.last().0@ != name {
        let front = params.drop_last();
        parameter_is_the_last_of_its_name(front, name);
        if parameter(front, name) is Some {
            let i = choose|i: int|
                {
                    &&& 0 <= i < front.len()
                    &&& (#[trigger] front[i]).0@ == name
                    &&& front[i].1@ == parameter(front, name)->0
                    &&& forall|j: int| i < j < front.len() ==> (#[trigger] front[j]).0@ != name
                };
            assert(params[i] == front[i]);
            assert forall|j: int| i < j < params.len() implies (#[trigger] params[j]).0@ != name by {
                if j < front.len() {
                    assert(front[j] == params[j]);
                }
            }
        } else {
            assert forall|i: int| 0 <= i < params.len() implies (#[trigger] params[i]).0@ != name by {
                if i < front.len() {
                    assert(front[i] == params[i]);
                }
            }
        }
    } else if params.len() > 0 {
        assert(params[params.len() - 1] == params.last());
    }
}

/// What is written to a field goes to the column of its name, fits there, and is null only where the
/// column allows it.
pub proof fn written_field_fits_its_column(
    arena: ArenaView,
    table: Seq<ColumnRef>,
    params: Seq<(&'static str, DataValue)>,
    name: Seq<char>,
)
    ensures
        field_value(arena, table, params, name) matches FieldValue::Value(column, value) ==> {
            let written = arena.columns[column.0 as int];
            &&& table.contains(column)
            &&& written.name == name
            &&& value == DataValueView::Plain(DataValue::Null) ==> written.nullable
            &&& DataValue::fits(value, written.ty)
            &&& parameter(params, name) is Some
            &&& DataValue::cast_view(parameter(params, name)->0, written.ty) == Some(value)
        },
        field_value(arena, table, params, name) is NoColumn ==> forall|i: int|
            0 <= i < table.len() ==> arena.columns[(#[trigger] table[i]).0 as int].name != name,
{
    lemma_column_name(arena, table, name, 0);
    lemma_found_within(arena, table, name, 0);
    if find_column(arena, table, name, 0) is None {
        assert forall|i: int| 0 <= i < table.len() implies arena.columns[(
        #[trigger] table[i]).0 as int].name != name by {
            lemma_not_found(arena, table, name, 0, i);
        }
    }
}

} // verus!
