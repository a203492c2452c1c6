//! Unions, set membership and recursion.

use crate::catalog::ColumnRef;
use vstd::prelude::*;

verus! {

/// Delivers the rows of both inputs.
#[derive(Debug, PartialEq, Eq, Hash)]
pub struct UnionOperator {
    pub left_schema_ref: Vec<ColumnRef>,
    pub right_schema_ref: Vec<ColumnRef>,
}

impl Clone for UnionOperator {
    fn clone(&self) -> (res: Self)
        ensures
            res.left_schema_ref@ == self.left_schema_ref@,
            res.right_schema_ref@ == self.right_schema_ref@,
    {
        let left_schema_ref = self.left_schema_ref.clone();
        let right_schema_ref = self.right_schema_ref.clone();
        assert(left_schema_ref@ =~= self.left_schema_ref@);
        assert(right_schema_ref@ =~= self.right_schema_ref@);
        UnionOperator { left_schema_ref, right_schema_ref }
    }
}

/// Which left rows stay, by their presence on the right.
#[derive(Clone, Copy, Debug, PartialEq, Eq, Hash, Structural)]
pub enum SetMembershipKind {
    Except,
    Intersect,
}

/// Delivers the left rows that are, or are not, among the right ones.
#[derive(Debug, PartialEq, Eq, Hash)]
pub struct SetMembershipOperator {
    pub kind: SetMembershipKind,
    pub left_schema_ref: Vec<ColumnRef>,
    pub right_schema_ref: Vec<ColumnRef>,
}

impl Clone for SetMembershipOperator {
    fn clone(&self) -> (res: Self)
        ensures
            res.kind == self.kind,
            res.left_schema_ref@ == self.left_schema_ref@,
            res.right_schema_ref@ == self.right_schema_ref@,
    {
        let left_schema_ref = self.left_schema_ref.clone();
        let right_schema_ref = self.right_schema_ref.clone();
        assert(left_schema_ref@ =~= self.left_schema_ref@);
        assert(right_schema_ref@ =~= self.right_schema_ref@);
        SetMembershipOperator { kind: self.kind, left_schema_ref, right_schema_ref }
    }
}

/// Repeats its second input on its own rows, starting from the first input.
#[derive(Debug, PartialEq, Eq, Hash)]
pub struct RecursiveCteOperator {
    pub schema_ref: Vec<ColumnRef>,
}

impl Clone for RecursiveCteOperator {
    fn clone(&self) -> (res: Self)
        ensures
            res.schema_ref@ == self.schema_ref@,
    {
        let schema_ref = self.schema_ref.clone();
        assert(schema_ref@ =~= self.schema_ref@);
        RecursiveCteOperator { schema_ref }
    }
}

/// Reads the rows of the last repetition.
#[derive(Debug, PartialEq, Eq, Hash)]
pub struct RecursiveScanOperator {
    pub schema_ref: Vec<ColumnRef>,
}

impl Clone for RecursiveScanOperator {
    fn clone(&self) -> (res: Self)
        ensures
            res.schema_ref@ == self.schema_ref@,
    {
        let schema_ref = self.schema_ref.clone();
        assert(schema_ref@ =~= self.schema_ref@);
        RecursiveScanOperator { schema_ref }
    }
}

} // verus!
