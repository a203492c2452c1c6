//! Rows and their schemas.

use crate::catalog::ColumnRef;
use crate::planner::arena::{ArenaView, PlanArena};
use crate::text::same_text;
use crate::types::value::DataValue;
use vstd::prelude::*;

verus! {

/// Columns of a row, in order.
pub type Schema = Vec<ColumnRef>;

/// One row.
#[derive(Debug, PartialEq, Eq)]
pub struct Tuple {
    pub pk: Option<DataValue>,
    pub values: Vec<DataValue>,
}

impl Tuple {
    pub fn new(pk: Option<DataValue>, values: Vec<DataValue>) -> (res: Self)
        ensures
            res == (Tuple { pk, values }),
    {
        Tuple { pk, values }
    }
}

impl Default for Tuple {
    fn default() -> (res: Self)
        ensures
            res.pk is None,
            res.values@ == Seq::<DataValue>::empty(),
    {
        Tuple { pk: None, values: Vec::new() }
    }
}

/// A schema together with the arena that names its columns.
pub struct SchemaView<'a> {
    pub schema: &'a Schema,
    pub arena: &'a PlanArena,
}

/// Whether the name stands at the position of the schema and nowhere before.
pub open spec fn first_named(
    arena: ArenaView,
    schema: Seq<ColumnRef>,
    name: Seq<char>,
    position: int,
) -> bool {
    &&& 0 <= position < schema.len()
    &&& arena.columns[schema[position].0 as int].name == name
    &&& forall|i: int| 0 <= i < position
        ==> arena.columns[(#[trigger] schema[i]).0 as int].name != name
}

impl<'a> SchemaView<'a> {
    pub fn new(schema: &'a Schema, arena: &'a PlanArena) -> (res: Self)
        ensures
            res.schema == schema,
            res.arena == arena,
    {
        SchemaView { schema, arena }
    }

    /// The first position at which a column of that name stands.
    pub fn position(&self, name: &str) -> (res: Option<usize>)
        requires
            self.arena@.has_columns(self.schema@),
        ensures
            res matches Some(position) ==> first_named(
                self.arena@,
                self.schema@,
                name@,
                position as int,
            ),
            res is None ==> forall|i: int|
                0 <= i < self.schema@.len() ==> self.arena@.columns[(
                #[trigger] self.schema@[i]).0 as int].name != name@,
    {
        let mut i: usize = 0;
        while i < self.schema.len()
            invariant
                i <= self.schema.len(),
                self.arena@.has_columns(self.schema@),
                forall|j: int|
                    0 <= j < i ==> self.arena@.columns[(
                    #[trigger] self.schema@[j]).0 as int].name != name@,
            decreases self.schema.len() - i,
        {
            if same_text(self.arena.column(self.schema[i]).name(), name) {
                return Some(i);
            }
            i += 1;
        }
        None
    }
}

} // verus!
