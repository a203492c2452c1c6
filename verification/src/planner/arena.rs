//! Arena that holds the expressions, columns and indexes of one plan.

use crate::catalog::{ColumnCatalog, ColumnRef, ColumnView};
use crate::expression::{ExprHead, ExprView, ScalarExpression};
use crate::optimizer::rule::normalization::index_fits;
use crate::types::index::{IndexMeta, IndexMetaRef, IndexMetaView};
use std::collections::HashSet;
use vstd::prelude::*;

verus! {

broadcast use vstd::std_specs::hash::group_hash_axioms;

/// Reference to an expression of an arena.
#[derive(Clone, Copy, Debug, PartialEq, Eq, Hash, Structural)]
pub struct ExprRef(pub usize);

/// Expressions, columns and indexes that outlive a single plan.
#[derive(Debug)]
pub struct TableArena {
    pub exprs: Vec<ScalarExpression>,
    pub columns: Vec<ColumnCatalog>,
    pub indexes: Vec<IndexMeta>,
    /// Positions of columns that nothing refers to any more.
    pub free: Vec<usize>,
}

/// Owner of the shared table arena.
pub type TableArenaCell = TableArena;

/// Expressions, columns and indexes of one plan. Expressions are only appended, so that an operand
/// always stands before the expressions that use it.
#[derive(Debug)]
pub struct PlanArena {
    exprs: Vec<ScalarExpression>,
    columns: Vec<ColumnCatalog>,
    indexes: Vec<IndexMeta>,
}

/// Mathematical model of an arena.
pub struct ArenaView {
    pub exprs: Seq<ExprView>,
    pub columns: Seq<ColumnView>,
    pub indexes: Seq<IndexMetaView>,
}

/// The models of the expressions.
pub open spec fn expr_views(exprs: Seq<ScalarExpression>) -> Seq<ExprView> {
    exprs.map_values(|expr: ScalarExpression| expr@)
}

/// The models of the columns.
pub open spec fn column_views(columns: Seq<ColumnCatalog>) -> Seq<ColumnView> {
    columns.map_values(|column: ColumnCatalog| column@)
}

/// The models of the indexes.
pub open spec fn index_views(indexes: Seq<IndexMeta>) -> Seq<IndexMetaView> {
    indexes.map_values(|index: IndexMeta| index@)
}

impl ArenaView {
    pub open spec fn has_expr(self, expr: ExprRef) -> bool {
        expr.0 < self.exprs.len()
    }

    pub open spec fn has_column(self, column: ColumnRef) -> bool {
        column.0 < self.columns.len()
    }

    pub open spec fn has_index(self, index: IndexMetaRef) -> bool {
        index.0 < self.indexes.len()
    }

    pub open spec fn has_exprs(self, exprs: Seq<ExprRef>) -> bool {
        forall|i: int| 0 <= i < exprs.len() ==> self.has_expr(#[trigger] exprs[i])
    }

    pub open spec fn has_columns(self, columns: Seq<ColumnRef>) -> bool {
        forall|i: int| 0 <= i < columns.len() ==> self.has_column(#[trigger] columns[i])
    }

    /// Whether the operands and the column of a node are there.
    pub open spec fn fits(self, expr: ExprView) -> bool {
        &&& self.has_exprs(expr.children)
        &&& expr.head matches ExprHead::ColumnRef { column, .. } ==> self.has_column(column)
    }

    /// Whether the default of a column is there.
    pub open spec fn fits_column(self, column: ColumnView) -> bool {
        column.default matches Some(expr) ==> self.has_expr(expr)
    }

    /// Every operand stands before its user, column references have no operands, and every column
    /// and default is there.
    pub open spec fn wf(self) -> bool {
        &&& forall|i: int, j: int|
            #![trigger self.exprs[i].children[j]]
            0 <= i < self.exprs.len() && 0 <= j < self.exprs[i].children.len()
                ==> self.exprs[i].children[j].0 < i
        &&& forall|i: int|
            0 <= i < self.exprs.len() ==> (#[trigger] self.exprs[i].head matches
                ExprHead::ColumnRef { column, .. } ==> self.has_column(column)
                && self.exprs[i].children.len() == 0)
        &&& forall|i: int|
            0 <= i < self.columns.len() ==> self.fits_column(#[trigger] self.columns[i])
    }

    /// Whether the arena is in order and every index has a type for each of its columns.
    pub open spec fn steady(self) -> bool {
        &&& self.wf()
        &&& forall|i: int| 0 <= i < self.indexes.len() ==> index_fits(#[trigger] self.indexes[i])
    }

    /// Whether every element of this arena is unchanged in the other one.
    pub open spec fn extended_by(self, other: ArenaView) -> bool {
        &&& self.exprs.is_prefix_of(other.exprs)
        &&& self.columns.is_prefix_of(other.columns)
        &&& self.indexes == other.indexes
    }

    /// Whether the other arena holds at least as many elements of each sort.
    pub open spec fn within(self, other: ArenaView) -> bool {
        &&& self.exprs.len() <= other.exprs.len()
        &&& self.columns.len() <= other.columns.len()
        &&& self.indexes.len() <= other.indexes.len()
    }

    /// The arena with one more expression.
    pub open spec fn push_expr(self, expr: ExprView) -> ArenaView {
        ArenaView { exprs: self.exprs.push(expr), ..self }
    }

    /// The arena with one more column.
    pub open spec fn push_column(self, column: ColumnView) -> ArenaView {
        ArenaView { columns: self.columns.push(column), ..self }
    }

    /// Whether two column references stand for the same column.
    pub open spec fn same_column(self, left: ColumnRef, right: ColumnRef) -> bool {
        self.columns[left.0 as int].same(self.columns[right.0 as int])
    }

    /// Whether the schema holds the column, under this or another reference.
    pub open spec fn schema_contains(self, schema: Seq<ColumnRef>, column: ColumnRef) -> bool {
        exists|i: int| 0 <= i < schema.len() && self.same_column(#[trigger] schema[i], column)
    }
}

impl View for TableArena {
    type V = ArenaView;

    open spec fn view(&self) -> ArenaView {
        ArenaView {
            exprs: expr_views(self.exprs@),
            columns: column_views(self.columns@),
            indexes: index_views(self.indexes@),
        }
    }
}

impl Default for TableArena {
    fn default() -> (res: Self)
        ensures
            res@ == (ArenaView {
                exprs: Seq::empty(),
                columns: Seq::empty(),
                indexes: Seq::empty(),
            }),
            res.free@.len() == 0,
    {
        let res = TableArena {
            exprs: Vec::new(),
            columns: Vec::new(),
            indexes: Vec::new(),
            free: Vec::new(),
        };
        assert(res@.exprs =~= Seq::empty());
        assert(res@.columns =~= Seq::empty());
        assert(res@.indexes =~= Seq::empty());
        res
    }
}

impl TableArena {
    /// Whether the free positions are positions of columns, none of them twice.
    pub open spec fn free_fits(&self) -> bool {
        &&& forall|i: int| 0 <= i < self.free@.len()
            ==> (#[trigger] self.free@[i]) < self.columns@.len()
        &&& self.free@.no_duplicates()
    }

    /// Adds a column, at a free position if there is one.
    pub fn alloc_column(&mut self, column: ColumnCatalog) -> (res: ColumnRef)
        requires
            old(self)@.steady(),
            old(self)@.fits_column(column@),
            old(self).free_fits(),
        ensures
            if old(self).free@.len() > 0 {
                &&& res.0 == old(self).free@.last()
                &&& final(self).free@ == old(self).free@.drop_last()
                &&& final(self)@ == (ArenaView {
                    columns: old(self)@.columns.update(res.0 as int, column@),
                    ..old(self)@
                })
            } else {
                &&& res.0 == old(self)@.columns.len()
                &&& final(self).free@ == old(self).free@
                &&& final(self)@ == old(self)@.push_column(column@)
            },
            final(self)@.steady(),
            final(self).free_fits(),
            final(self)@.has_column(res),
            old(self)@.within(final(self)@),
    {
        let ghost before = self@;
        match self.free.pop() {
            Some(position) => {
                assert(old(self).free@[old(self).free@.len() - 1] == position);
                self.columns[position] = column;
                assert(self@.columns =~= before.columns.update(position as int, column@));
                ColumnRef(position)
            },
            None => {
                let res = ColumnRef(self.columns.len());
                self.columns.push(column);
                assert(self@.columns =~= before.columns.push(column@));
                res
            },
        }
    }

    /// Frees the positions of all columns but the given ones.
    pub fn recycle_unreferenced_positions(&mut self, live: &HashSet<usize>)
        ensures
            final(self)@ == old(self)@,
            final(self).free_fits(),
            forall|position: usize| #[trigger]
                final(self).free@.contains(position) <==> position < old(self)@.columns.len()
                    && !live@.contains(position),
    {
        let ghost before = self@;
        let mut free: Vec<usize> = Vec::new();
        let mut i: usize = 0;
        while i < self.columns.len()
            invariant
                i <= self.columns.len(),
                forall|k: int| 0 <= k < free@.len() ==> (#[trigger] free@[k]) < i,
                free@.no_duplicates(),
                forall|position: usize| #[trigger]
                    free@.contains(position) <==> position < i && !live@.contains(position),
            decreases self.columns.len() - i,
        {
            if !live.contains(&i) {
                let ghost earlier = free@;
                free.push(i);
                proof {
                    assert forall|position: usize| #[trigger]
                        free@.contains(position) <==> position < i + 1 && !live@.contains(
                            position,
                        ) by {
                        if earlier.contains(position) {
                            let k = choose|k: int| 0 <= k < earlier.len() && earlier[k] == position;
                            assert(free@[k] == position);
                        }
                        assert(free@[free@.len() - 1] == i);
                        if free@.contains(position) && position != i {
                            let k = choose|k: int| 0 <= k < free@.len() && free@[k] == position;
                            assert(earlier[k] == position);
                        }
                    }
                }
            }
            i += 1;
        }
        self.free = free;
        assert(self@ == before);
    }
}

impl View for PlanArena {
    type V = ArenaView;

    closed spec fn view(&self) -> ArenaView {
        ArenaView {
            exprs: expr_views(self.exprs@),
            columns: column_views(self.columns@),
            indexes: index_views(self.indexes@),
        }
    }
}

fn copy_exprs(exprs: &Vec<ScalarExpression>) -> (res: Vec<ScalarExpression>)
    ensures
        expr_views(res@) == expr_views(exprs@),
{
    let mut res: Vec<ScalarExpression> = Vec::new();
    let mut i: usize = 0;
    while i < exprs.len()
        invariant
            i <= exprs.len(),
            res@.len() == i,
            forall|j: int| 0 <= j < i ==> res@[j]@ == exprs@[j]@,
        decreases exprs.len() - i,
    {
        let expr = exprs[i].clone();
        res.push(expr);
        i += 1;
    }
    assert(expr_views(res@) =~= expr_views(exprs@));
    res
}

fn copy_columns(columns: &Vec<ColumnCatalog>) -> (res: Vec<ColumnCatalog>)
    ensures
        column_views(res@) == column_views(columns@),
{
    let mut res: Vec<ColumnCatalog> = Vec::new();
    let mut i: usize = 0;
    while i < columns.len()
        invariant
            i <= columns.len(),
            res@.len() == i,
            forall|j: int| 0 <= j < i ==> res@[j]@ == columns@[j]@,
        decreases columns.len() - i,
    {
        let column = columns[i].clone();
        res.push(column);
        i += 1;
    }
    assert(column_views(res@) =~= column_views(columns@));
    res
}

fn copy_indexes(indexes: &Vec<IndexMeta>) -> (res: Vec<IndexMeta>)
    ensures
        index_views(res@) == index_views(indexes@),
{
    let mut res: Vec<IndexMeta> = Vec::new();
    let mut i: usize = 0;
    while i < indexes.len()
        invariant
            i <= indexes.len(),
            res@.len() == i,
            forall|j: int| 0 <= j < i ==> res@[j]@ == indexes@[j]@,
        decreases indexes.len() - i,
    {
        let index = indexes[i].clone();
        res.push(index);
        i += 1;
    }
    assert(index_views(res@) =~= index_views(indexes@));
    res
}

impl PlanArena {
    /// An arena that starts with what the table arena holds.
    pub fn new(tables: &TableArena) -> (res: Self)
        ensures
            res@ == tables@,
    {
        PlanArena {
            exprs: copy_exprs(&tables.exprs),
            columns: copy_columns(&tables.columns),
            indexes: copy_indexes(&tables.indexes),
        }
    }

    /// Lets the table arena hold what the arena holds.
    pub fn materialize_into_table_arena(&self, tables: &mut TableArena)
        ensures
            final(tables)@ == self@,
            final(tables).free@.len() == 0,
    {
        tables.exprs = copy_exprs(&self.exprs);
        tables.columns = copy_columns(&self.columns);
        tables.indexes = copy_indexes(&self.indexes);
        tables.free = Vec::new();
    }

    /// The expression behind a reference.
    pub fn expression(&self, expr: ExprRef) -> (res: &ScalarExpression)
        requires
            self@.has_expr(expr),
        ensures
            res@ == self@.exprs[expr.0 as int],
    {
        &self.exprs[expr.0]
    }

    /// The column behind a reference.
    pub fn column(&self, column: ColumnRef) -> (res: &ColumnCatalog)
        requires
            self@.has_column(column),
        ensures
            res@ == self@.columns[column.0 as int],
    {
        &self.columns[column.0]
    }

    /// The index behind a reference.
    pub fn index(&self, index: IndexMetaRef) -> (res: &IndexMeta)
        requires
            self@.has_index(index),
        ensures
            res@ == self@.indexes[index.0 as int],
    {
        &self.indexes[index.0]
    }

    /// Adds an expression.
    pub fn alloc_expression(&mut self, expr: ScalarExpression) -> (res: ExprRef)
        requires
            old(self)@.wf(),
            old(self)@.fits(expr@),
        ensures
            res.0 == old(self)@.exprs.len(),
            final(self)@ == old(self)@.push_expr(expr@),
            final(self)@.wf(),
    {
        let res = ExprRef(self.exprs.len());
        self.exprs.push(expr);
        assert(self@.exprs =~= old(self)@.exprs.push(expr@));
        res
    }

    /// Adds a column.
    pub fn alloc_column(&mut self, column: ColumnCatalog) -> (res: ColumnRef)
        requires
            old(self)@.wf(),
            old(self)@.fits_column(column@),
        ensures
            res.0 == old(self)@.columns.len(),
            final(self)@ == old(self)@.push_column(column@),
            final(self)@.wf(),
    {
        let res = ColumnRef(self.columns.len());
        self.columns.push(column);
        assert(self@.columns =~= old(self)@.columns.push(column@));
        res
    }

    /// Adds a column that only has a name.
    pub fn alloc_dummy(&mut self, name: &str) -> (res: ColumnRef)
        requires
            old(self)@.wf(),
        ensures
            res.0 == old(self)@.columns.len(),
            final(self)@ == old(self)@.push_column(ColumnView::dummy(name@)),
            final(self)@.wf(),
    {
        self.alloc_column(ColumnCatalog::new_dummy(name.to_string()))
    }

    /// Adds an index.
    pub fn alloc_index(&mut self, index: IndexMeta) -> (res: IndexMetaRef)
        requires
            old(self)@.wf(),
        ensures
            res.0 == old(self)@.indexes.len(),
            final(self)@ == (ArenaView {
                indexes: old(self)@.indexes.push(index@),
                ..old(self)@
            }),
            final(self)@.wf(),
    {
        let res = IndexMetaRef(self.indexes.len());
        self.indexes.push(index);
        assert(self@.indexes =~= old(self)@.indexes.push(index@));
        res
    }

    /// Moves a column reference to another position of the input row.
    pub fn set_position(&mut self, expr: ExprRef, position: usize)
        requires
            old(self)@.wf(),
            old(self)@.has_expr(expr),
            old(self)@.exprs[expr.0 as int].head is ColumnRef,
        ensures
            final(self)@ == (ArenaView {
                exprs: old(self)@.exprs.update(
                    expr.0 as int,
                    ExprView {
                        head: ExprHead::ColumnRef {
                            column: old(self)@.exprs[expr.0 as int].head->ColumnRef_column,
                            position,
                        },
                        children: Seq::empty(),
                    },
                ),
                ..old(self)@
            }),
            final(self)@.wf(),
    {
        if let ScalarExpression::ColumnRef { column, .. } = &self.exprs[expr.0] {
            let moved = ScalarExpression::ColumnRef { column: *column, position };
            self.exprs[expr.0] = moved;
        }
        assert(self@.exprs =~= old(self)@.exprs.update(
            expr.0 as int,
            ExprView {
                head: ExprHead::ColumnRef {
                    column: old(self)@.exprs[expr.0 as int].head->ColumnRef_column,
                    position,
                },
                children: Seq::empty(),
            },
        ));
        proof {
            let before = old(self)@;
            let after = self@;
            assert forall|i: int, j: int|
                #![trigger after.exprs[i].children[j]]
                0 <= i < after.exprs.len() && 0 <= j < after.exprs[i].children.len() implies
                after.exprs[i].children[j].0 < i by {
                if i != expr.0 {
                    assert(before.exprs[i].children[j].0 < i);
                }
            }
            assert forall|i: int| 0 <= i < after.exprs.len() implies (
            #[trigger] after.exprs[i].head matches ExprHead::ColumnRef { column, .. }
                ==> after.has_column(column) && after.exprs[i].children.len() == 0) by {
                assert(before.exprs[i].head matches ExprHead::ColumnRef { column, .. }
                    ==> before.has_column(column) && before.exprs[i].children.len() == 0);
            }
            assert forall|i: int| 0 <= i < after.columns.len() implies after.fits_column(
                #[trigger] after.columns[i],
            ) by {
                assert(before.fits_column(before.columns[i]));
            }
        }
    }

    /// Whether two column references stand for the same column.
    pub fn same_column(&self, left: ColumnRef, right: ColumnRef) -> (same: bool)
        requires
            self@.has_column(left),
            self@.has_column(right),
        ensures
            same == self@.same_column(left, right),
    {
        self.columns[left.0].same(&self.columns[right.0])
    }
}

} // verus!
