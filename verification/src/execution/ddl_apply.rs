//! Changes of the catalog that a statement leaves behind.

use crate::binder::plan::bound;
use crate::binder::table_known;
use crate::catalog::{TableCatalog, TableName};
use crate::planner::arena::ArenaView;
use crate::planner::schema::lemma_plan_valid_within;
use crate::storage::{StatisticsMeta, ViewCatalog};
use crate::types::index::IndexId;
use vstd::prelude::*;

verus! {

/// A change of the catalog, to be made once the statement is committed.
#[derive(Debug, PartialEq, Eq)]
pub enum DDLApply {
    UpsertTable { table: TableCatalog, clear_statistics: bool },
    DropTable { name: TableName },
    UpsertView { view: ViewCatalog },
    DropView { name: TableName },
    UpsertStatisticsMeta { table_name: TableName, index_id: IndexId, meta: StatisticsMeta },
    RemoveStatisticsMeta { table_name: TableName, index_id: IndexId },
}

/// Whether plan and columns of a view are in the arena.
pub open spec fn view_known(view: ViewCatalog, arena: ArenaView) -> bool {
    bound(view.plan@, arena) && arena.has_columns(view.schema@)
}

/// Whether a change refers to what is in the arena only.
pub open spec fn noted_known(apply: DDLApply, arena: ArenaView) -> bool {
    match apply {
        DDLApply::UpsertTable { table, .. } => table_known(table, arena),
        DDLApply::UpsertView { view } => view_known(view, arena),
        _ => true,
    }
}

/// Whether all changes refer to what is in the arena only.
pub open spec fn all_noted_known(applies: Seq<DDLApply>, arena: ArenaView) -> bool {
    forall|i: int| 0 <= i < applies.len() ==> noted_known(#[trigger] applies[i], arena)
}

/// Changes still refer to what is in the arena when the arena grows.
pub proof fn lemma_noted_within(applies: Seq<DDLApply>, before: ArenaView, after: ArenaView)
    requires
        all_noted_known(applies, before),
        before.within(after),
    ensures
        all_noted_known(applies, after),
{
    assert forall|i: int| 0 <= i < applies.len() implies noted_known(#[trigger] applies[i],
        after) by {
        assert(noted_known(applies[i], before));
        if let DDLApply::UpsertView { view } = applies[i] {
            lemma_plan_valid_within(view.plan@, before, after);
        }
    }
}

} // verus!
