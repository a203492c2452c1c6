//! Plans: trees of operators, and the columns that they deliver.

pub mod arena;
pub mod columns;
pub mod copy;
pub mod copy_laws;
pub mod explain;
pub mod operator;
pub mod plan_laws;
pub mod schema;
pub mod schema_laws;
pub mod shape;

use crate::catalog::{ColumnRef, TableName};
use crate::planner::operator::{Operator, OperatorView, PhysicalOption, PhysicalOptionView};
use crate::types::tuple::Schema;
use vstd::prelude::*;

verus! {

/// Inputs of an operator.
#[derive(Debug, PartialEq, Eq, Hash)]
pub enum Childrens {
    Leaf,
    Only(Box<LogicalPlan>),
    Twins { left: Box<LogicalPlan>, right: Box<LogicalPlan> },
}

/// Columns that were computed before, which neither equality nor hashing looks at.
#[derive(Debug)]
pub struct SchemaCache {
    pub columns: Option<Schema>,
}

/// A tree of operators.
#[derive(Debug, PartialEq, Eq, Hash)]
pub struct LogicalPlan {
    pub operator: Operator,
    pub childrens: Box<Childrens>,
    pub physical_option: Option<PhysicalOption>,
    pub output_schema: SchemaCache,
}

impl PartialEq for SchemaCache {
    fn eq(&self, other: &SchemaCache) -> (res: bool) {
        true
    }
}

impl vstd::std_specs::cmp::PartialEqSpecImpl for SchemaCache {
    open spec fn obeys_eq_spec() -> bool {
        true
    }

    open spec fn eq_spec(&self, other: &SchemaCache) -> bool {
        true
    }
}

impl Eq for SchemaCache {

}

impl std::hash::Hash for SchemaCache {
    fn hash<H: std::hash::Hasher>(&self, state: &mut H) {
    }
}

/// Mathematical model of a [`LogicalPlan`].
pub struct PlanView {
    pub operator: OperatorView,
    pub children: ChildrenView,
    pub physical: Option<PhysicalOptionView>,
    pub schema: Option<Seq<ColumnRef>>,
}

/// Mathematical model of [`Childrens`].
pub enum ChildrenView {
    Leaf,
    Only(Box<PlanView>),
    Twins { left: Box<PlanView>, right: Box<PlanView> },
}

/// The model of an optional implementation.
pub open spec fn option_view(option: Option<PhysicalOption>) -> Option<PhysicalOptionView> {
    match option {
        Some(option) => Some(option@),
        None => None,
    }
}

impl Childrens {
    pub open spec fn view(&self) -> ChildrenView
        decreases self,
    {
        match self {
            Childrens::Leaf => ChildrenView::Leaf,
            Childrens::Only(plan) => ChildrenView::Only(Box::new(plan.view())),
            Childrens::Twins { left, right } => ChildrenView::Twins {
                left: Box::new(left.view()),
                right: Box::new(right.view()),
            },
        }
    }

    /// The plans in order.
    pub open spec fn plans(&self) -> Seq<LogicalPlan> {
        match self {
            Childrens::Leaf => Seq::empty(),
            Childrens::Only(plan) => seq![**plan],
            Childrens::Twins { left, right } => seq![**left, **right],
        }
    }

    /// Walks over the plans, from left to right.
    pub fn iter(&self) -> (res: ChildrensIter<'_>)
        ensures
            res.inner == self,
            res.pos == 0,
    {
        ChildrensIter { inner: self, pos: 0 }
    }

    /// Forgets the computed columns of every plan.
    fn reset_output_schema_caches(&mut self)
        ensures
            final(self)@ == old(self)@.uncached(),
        decreases *old(self),
    {
        match self {
            Childrens::Leaf => {},
            Childrens::Only(child) => {
                (&mut **child).reset_output_schema_cache_recursive();
            },
            Childrens::Twins { left, right } => {
                (&mut **left).reset_output_schema_cache_recursive();
                (&mut **right).reset_output_schema_cache_recursive();
            },
        }
    }

    /// Takes the only plan.
    pub fn pop_only(self) -> (res: LogicalPlan)
        requires
            self is Only,
        ensures
            self == Childrens::Only(Box::new(res)),
    {
        match self {
            Childrens::Only(plan) => *plan,
            _ => {
                assert(false);
                LogicalPlan::new(Operator::Dummy, Childrens::Leaf)
            },
        }
    }

    /// Takes both plans.
    pub fn pop_twins(self) -> (res: (LogicalPlan, LogicalPlan))
        requires
            self is Twins,
        ensures
            self == (Childrens::Twins { left: Box::new(res.0), right: Box::new(res.1) }),
    {
        match self {
            Childrens::Twins { left, right } => (*left, *right),
            _ => {
                assert(false);
                (
                    LogicalPlan::new(Operator::Dummy, Childrens::Leaf),
                    LogicalPlan::new(Operator::Dummy, Childrens::Leaf),
                )
            },
        }
    }
}

/// A walk over the plans of [`Childrens`].
pub struct ChildrensIter<'a> {
    pub inner: &'a Childrens,
    pub pos: usize,
}

impl<'a> ChildrensIter<'a> {
    /// The next plan; after the last one there is none.
    pub fn next(&mut self) -> (res: Option<&'a LogicalPlan>)
        ensures
            final(self).inner == old(self).inner,
            res is Some <==> old(self).pos < old(self).inner.plans().len(),
            res matches Some(plan) ==> *plan == old(self).inner.plans()[old(self).pos as int]
                && final(self).pos == old(self).pos + 1,
            res is None ==> final(self).pos == old(self).pos,
    {
        match self.inner {
            Childrens::Only(plan) => {
                if self.pos > 0 {
                    return None;
                }
                self.pos = self.pos + 1;
                Some(&**plan)
            },
            Childrens::Twins { left, right } => {
                if self.pos > 1 {
                    return None;
                }
                let option = if self.pos == 0 {
                    &**left
                } else {
                    &**right
                };
                self.pos = self.pos + 1;
                Some(option)
            },
            Childrens::Leaf => None,
        }
    }

    /// How many plans are still to come.
    pub fn count(self) -> (res: usize)
        ensures
            res == if self.pos < self.inner.plans().len() {
                self.inner.plans().len() - self.pos
            } else {
                0
            },
    {
        let total: usize = match self.inner {
            Childrens::Leaf => 0,
            Childrens::Only(_) => 1,
            Childrens::Twins { .. } => 2,
        };
        if self.pos < total {
            total - self.pos
        } else {
            0
        }
    }
}

impl PlanView {
    /// The plan without any computed columns.
    pub open spec fn uncached(self) -> PlanView
        decreases self,
    {
        PlanView { children: self.children.uncached(), schema: None, ..self }
    }

    /// The names of the scanned tables, a plan before its inputs, left before right.
    pub open spec fn tables(self) -> Seq<Seq<char>>
        decreases self,
    {
        (match self.operator {
            OperatorView::TableScan(op) => seq![op.table_name],
            _ => Seq::empty(),
        }) + self.children.tables()
    }
}

impl ChildrenView {
    /// The inputs without any computed columns.
    pub open spec fn uncached(self) -> ChildrenView
        decreases self,
    {
        match self {
            ChildrenView::Leaf => ChildrenView::Leaf,
            ChildrenView::Only(plan) => ChildrenView::Only(Box::new(plan.uncached())),
            ChildrenView::Twins { left, right } => ChildrenView::Twins {
                left: Box::new(left.uncached()),
                right: Box::new(right.uncached()),
            },
        }
    }

    /// The names of the scanned tables.
    pub open spec fn tables(self) -> Seq<Seq<char>>
        decreases self,
    {
        match self {
            ChildrenView::Leaf => Seq::empty(),
            ChildrenView::Only(plan) => plan.tables(),
            ChildrenView::Twins { left, right } => left.tables() + right.tables(),
        }
    }
}

/// The texts of the names.
pub open spec fn name_views(names: Seq<TableName>) -> Seq<Seq<char>> {
    names.map_values(|name: TableName| name@)
}

fn clone_option(option: &Option<PhysicalOption>) -> (res: Option<PhysicalOption>)
    ensures
        option_view(res) == option_view(*option),
{
    match option {
        Some(option) => Some(option.clone()),
        None => None,
    }
}

impl LogicalPlan {
    pub open spec fn view(&self) -> PlanView
        decreases self,
    {
        PlanView {
            operator: self.operator@,
            children: self.childrens.view(),
            physical: option_view(self.physical_option),
            schema: match self.output_schema.columns {
                Some(columns) => Some(columns@),
                None => None,
            },
        }
    }

    /// A plan without implementation and without computed columns.
    pub fn new(operator: Operator, childrens: Childrens) -> (res: Self)
        ensures
            res == (LogicalPlan {
                operator,
                childrens: Box::new(childrens),
                physical_option: None,
                output_schema: SchemaCache { columns: None },
            }),
    {
        LogicalPlan {
            operator,
            childrens: Box::new(childrens),
            physical_option: None,
            output_schema: SchemaCache { columns: None },
        }
    }

    /// Takes the plan out and leaves an empty one.
    pub fn take(&mut self) -> (res: Self)
        ensures
            res == *old(self),
            final(self).operator == Operator::Dummy,
            *final(self).childrens == Childrens::Leaf,
            final(self).physical_option is None,
            final(self).output_schema.columns is None,
    {
        let mut res = LogicalPlan::new(Operator::Dummy, Childrens::Leaf);
        std::mem::swap(self, &mut res);
        res
    }

    fn collect_tables(&self, results: &mut Vec<TableName>)
        ensures
            name_views(final(results)@) == name_views(old(results)@) + self@.tables(),
        decreases self,
    {
        let ghost start = results@;
        if let Operator::TableScan(op) = &self.operator {
            results.push(op.table_name.clone());
        }
        let ghost own = match self@.operator {
            OperatorView::TableScan(op) => seq![op.table_name],
            _ => Seq::empty(),
        };
        assert(name_views(results@) =~= name_views(start) + own);
        match &*self.childrens {
            Childrens::Leaf => {},
            Childrens::Only(child) => {
                child.collect_tables(results);
            },
            Childrens::Twins { left, right } => {
                left.collect_tables(results);
                right.collect_tables(results);
            },
        }
        assert(name_views(results@) =~= name_views(start) + self@.tables());
    }

    /// The names of the scanned tables, a plan before its inputs, left before right.
    pub fn referenced_table(&self) -> (res: Vec<TableName>)
        ensures
            name_views(res@) == self@.tables(),
    {
        let mut results: Vec<TableName> = Vec::new();
        self.collect_tables(&mut results);
        assert(name_views(results@) =~= self@.tables());
        results
    }

    /// Forgets the computed columns of this operator.
    pub fn reset_output_schema_cache(&mut self)
        ensures
            final(self)@ == (PlanView { schema: None, ..old(self)@ }),
            *final(self) == (LogicalPlan {
                output_schema: SchemaCache { columns: None },
                ..*old(self)
            }),
    {
        self.output_schema = SchemaCache { columns: None };
    }

    /// Forgets the computed columns of every operator.
    pub fn reset_output_schema_cache_recursive(&mut self)
        ensures
            final(self)@ == old(self)@.uncached(),
        decreases *old(self),
    {
        self.reset_output_schema_cache();
        (&mut *self.childrens).reset_output_schema_caches();
    }
}

impl Clone for LogicalPlan {
    fn clone(&self) -> (res: Self)
        ensures
            res@ == self@.uncached(),
        decreases self,
    {
        let childrens = match &*self.childrens {
            Childrens::Leaf => Childrens::Leaf,
            Childrens::Only(child) => {
                let copy: LogicalPlan = (&**child).clone();
                Childrens::Only(Box::new(copy))
            },
            Childrens::Twins { left, right } => {
                let left_copy: LogicalPlan = (&**left).clone();
                let right_copy: LogicalPlan = (&**right).clone();
                Childrens::Twins { left: Box::new(left_copy), right: Box::new(right_copy) }
            },
        };
        LogicalPlan {
            operator: self.operator.clone(),
            childrens: Box::new(childrens),
            physical_option: clone_option(&self.physical_option),
            output_schema: SchemaCache { columns: None },
        }
    }
}

} // verus!
