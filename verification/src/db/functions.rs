//! Functions that statements may call.

use crate::cache::{Cache, CacheKey};
use crate::catalog::ColumnCatalog;
use crate::types::tuple::Schema;
use crate::types::{LogicalType, LogicalTypeView};
use vstd::prelude::*;

verus! {

/// What a function is found by: its name and the types of its arguments.
#[derive(Debug, PartialEq, Eq, Hash)]
pub struct FunctionSummary {
    pub name: String,
    pub arg_types: Vec<LogicalType>,
}

/// A function that computes one value.
#[derive(Debug, PartialEq, Eq)]
pub struct ScalarFunction {
    pub summary: FunctionSummary,
    pub return_type: LogicalType,
}

/// A function that delivers rows.
#[derive(Debug, PartialEq, Eq)]
pub struct TableFunction {
    pub summary: FunctionSummary,
    pub schema: Schema,
}

/// A function that delivers rows, as it is registered.
#[derive(Debug, PartialEq, Eq)]
pub struct RowSource {
    pub summary: FunctionSummary,
    pub columns: Vec<ColumnCatalog>,
}

/// The known scalar functions.
pub type ScalaFunctions = Cache<FunctionSummary, ScalarFunction>;

/// The known table functions.
pub type TableFunctions = Cache<FunctionSummary, TableFunction>;

impl FunctionSummary {
    /// The key of the function in the catalog.
    pub fn copy(&self) -> (res: FunctionSummary)
        ensures
            res.name() == self.name(),
    {
        let mut arg_types: Vec<LogicalType> = Vec::new();
        let mut i: usize = 0;
        while i < self.arg_types.len()
            invariant
                i <= self.arg_types.len(),
                arg_types@.len() == i,
                forall|j: int| 0 <= j < i ==> arg_types@[j]@ == self.arg_types@[j]@,
            decreases self.arg_types.len() - i,
        {
            arg_types.push(self.arg_types[i].clone());
            i += 1;
        }
        assert(type_views(arg_types@) =~= type_views(self.arg_types@));
        FunctionSummary { name: self.name.clone(), arg_types }
    }
}

/// The models of the types.
pub open spec fn type_views(types: Seq<LogicalType>) -> Seq<LogicalTypeView> {
    types.map_values(|ty: LogicalType| ty@)
}

impl CacheKey for FunctionSummary {
    type Name = (Seq<char>, Seq<LogicalTypeView>);

    open spec fn name(&self) -> (Seq<char>, Seq<LogicalTypeView>) {
        (self.name@, type_views(self.arg_types@))
    }

    fn same_key(&self, other: &Self) -> (same: bool) {
        if self.name != other.name || self.arg_types.len() != other.arg_types.len() {
            assert(self.name@ != other.name@ || type_views(self.arg_types@).len() != type_views(
                other.arg_types@,
            ).len());
            return false;
        }
        let mut i: usize = 0;
        while i < self.arg_types.len()
            invariant
                i <= self.arg_types.len(),
                self.arg_types.len() == other.arg_types.len(),
                forall|j: int| 0 <= j < i ==> self.arg_types@[j]@ == other.arg_types@[j]@,
            decreases self.arg_types.len() - i,
        {
            if !self.arg_types[i].same(&other.arg_types[i]) {
                assert(type_views(self.arg_types@)[i as int] != type_views(
                    other.arg_types@,
                )[i as int]);
                return false;
            }
            i += 1;
        }
        assert(type_views(self.arg_types@) =~= type_views(other.arg_types@));
        true
    }
}

} // verus!
