//! Binding: names become columns, and parts of a query become plans.

pub mod condition;
pub mod condition_laws;
pub mod expr;
pub mod expr_laws;
pub mod plan;
pub mod scan;
pub mod scan_laws;

use crate::catalog::{ColumnRef, TableCatalog, TableName};
use crate::db::ScalaFunctions;
use crate::errors::DatabaseError;
use crate::expression::{ExprHead, ExprView, ScalarExpression};
use crate::planner::arena::{ArenaView, ExprRef, PlanArena};
use crate::planner::operator::join::JoinType;
use crate::planner::operator::mark_apply::MarkApplyQuantifier;
use crate::planner::schema::lemma_plan_valid_within;
use crate::planner::{LogicalPlan, PlanView};
use crate::storage::TableCache;
use crate::text::same_text;
use vstd::prelude::*;

verus! {

/// The part of a query that is being bound.
#[derive(Clone, Copy, Debug, PartialEq, Eq, Structural)]
pub enum QueryBindStep {
    From,
    Where,
    Agg,
    Having,
    Sort,
    Project,
}

/// A table of the query.
#[derive(Debug)]
pub struct BoundSource {
    pub table_name: TableName,
    pub alias: Option<TableName>,
    pub join_type: Option<JoinType>,
    pub columns: Vec<ColumnRef>,
}

/// Mathematical model of a [`BoundSource`].
pub struct SourceView {
    pub table: Seq<char>,
    pub alias: Option<Seq<char>>,
    pub join_type: Option<JoinType>,
    pub columns: Seq<ColumnRef>,
}

impl SourceView {
    /// The name that the table goes by in the query.
    pub open spec fn visible(self) -> Seq<char> {
        match self.alias {
            Some(alias) => alias,
            None => self.table,
        }
    }
}

impl View for BoundSource {
    type V = SourceView;

    open spec fn view(&self) -> SourceView {
        SourceView {
            table: self.table_name@,
            alias: match self.alias {
                Some(alias) => Some(alias@),
                None => None,
            },
            join_type: self.join_type,
            columns: self.columns@,
        }
    }
}

impl BoundSource {
    /// The name that the table goes by in the query.
    pub fn visible_name(&self) -> (res: &TableName)
        ensures
            res@ == self@.visible(),
    {
        match &self.alias {
            Some(alias) => alias,
            None => &self.table_name,
        }
    }
}

impl Clone for BoundSource {
    fn clone(&self) -> (res: Self)
        ensures
            res@ == self@,
    {
        let columns = self.columns.clone();
        assert(columns@ =~= self.columns@);
        BoundSource {
            table_name: self.table_name.clone(),
            alias: match &self.alias {
                Some(alias) => Some(alias.clone()),
                None => None,
            },
            join_type: self.join_type,
            columns,
        }
    }
}

/// What a subquery is asked for.
#[derive(Clone, Copy, Debug, PartialEq, Eq, Structural)]
pub enum SubQueryKind {
    /// Its only value.
    Scalar,
    /// Whether it has rows.
    Exists,
    /// Whether the comparison holds for some, or for all, of its rows.
    Quantified(MarkApplyQuantifier, ExprRef),
}

/// A subquery whose rows are joined to those of the query before they are needed.
#[derive(Debug)]
pub struct SubQuery {
    pub kind: SubQueryKind,
    pub plan: LogicalPlan,
    pub column: ColumnRef,
}

/// Mathematical model of a [`SubQuery`].
pub struct SubQueryView {
    pub kind: SubQueryKind,
    pub plan: PlanView,
    pub column: ColumnRef,
}

impl View for SubQuery {
    type V = SubQueryView;

    open spec fn view(&self) -> SubQueryView {
        SubQueryView { kind: self.kind, plan: self.plan@, column: self.column }
    }
}

/// The state of a query that is being bound.
#[derive(Debug)]
pub struct Binder<'a> {
    pub tables: &'a TableCache,
    pub functions: &'a ScalaFunctions,
    pub sources: Vec<BoundSource>,
    pub outer: Vec<BoundSource>,
    pub aliases: Vec<(String, ExprRef)>,
    pub step: QueryBindStep,
    pub with_pk: Option<TableName>,
    pub allow_default: bool,
    pub force_spill: bool,
    pub force_nested_loop: bool,
    pub outer_refs: bool,
    pub pending: Vec<SubQuery>,
}

/// Mathematical model of a [`Binder`].
pub struct BinderView {
    pub tables: TableCache,
    pub functions: ScalaFunctions,
    pub sources: Seq<SourceView>,
    pub outer: Seq<SourceView>,
    pub aliases: Seq<(Seq<char>, ExprRef)>,
    pub step: QueryBindStep,
    pub with_pk: Option<Seq<char>>,
    pub allow_default: bool,
    pub force_spill: bool,
    pub force_nested_loop: bool,
    pub outer_refs: bool,
    pub pending: Seq<SubQueryView>,
}

/// The models of the sources.
pub open spec fn source_views(sources: Seq<BoundSource>) -> Seq<SourceView> {
    sources.map_values(|source: BoundSource| source@)
}

/// The models of the aliases.
pub open spec fn alias_views(aliases: Seq<(String, ExprRef)>) -> Seq<(Seq<char>, ExprRef)> {
    aliases.map_values(|alias: (String, ExprRef)| (alias.0@, alias.1))
}

/// The models of the subqueries.
pub open spec fn pending_views(pending: Seq<SubQuery>) -> Seq<SubQueryView> {
    pending.map_values(|sub: SubQuery| sub@)
}

impl<'a> View for Binder<'a> {
    type V = BinderView;

    open spec fn view(&self) -> BinderView {
        BinderView {
            tables: *self.tables,
            functions: *self.functions,
            sources: source_views(self.sources@),
            outer: source_views(self.outer@),
            aliases: alias_views(self.aliases@),
            step: self.step,
            with_pk: match self.with_pk {
                Some(name) => Some(name@),
                None => None,
            },
            allow_default: self.allow_default,
            force_spill: self.force_spill,
            force_nested_loop: self.force_nested_loop,
            outer_refs: self.outer_refs,
            pending: pending_views(self.pending@),
        }
    }
}

/// Whether the columns of the sources are in the arena.
pub open spec fn sources_known(sources: Seq<SourceView>, arena: ArenaView) -> bool {
    forall|i: int| 0 <= i < sources.len() ==> arena.has_columns((#[trigger] sources[i]).columns)
}

/// Whether columns and indexes of a table are in the arena.
pub open spec fn table_known(table: TableCatalog, arena: ArenaView) -> bool {
    &&& arena.has_columns(table.columns@)
    &&& arena.has_columns(table.primary_keys@)
    &&& forall|i: int| 0 <= i < table.indexes@.len()
        ==> arena.has_index(#[trigger] table.indexes@[i])
}

/// Whether a subquery refers to what is in the arena only.
pub open spec fn sub_known(sub: SubQueryView, arena: ArenaView) -> bool {
    &&& sub.plan.valid(arena)
    &&& sub.plan.shaped()
    &&& arena.has_column(sub.column)
    &&& sub.kind matches SubQueryKind::Quantified(_, predicate) ==> arena.has_expr(predicate)
}

impl BinderView {
    /// Whether everything that the query refers to is in the arena.
    pub open spec fn known(self, arena: ArenaView) -> bool {
        &&& arena.wf()
        &&& self.tables.wf()
        &&& self.functions.wf()
        &&& forall|name: Seq<char>| #[trigger]
            self.tables.map().contains_key(name) ==> table_known(self.tables.map()[name], arena)
        &&& sources_known(self.sources, arena)
        &&& sources_known(self.outer, arena)
        &&& forall|i: int|
            0 <= i < self.aliases.len() ==> arena.has_expr((#[trigger] self.aliases[i]).1)
        &&& forall|i: int|
            0 <= i < self.pending.len() ==> sub_known(#[trigger] self.pending[i], arena)
    }

    /// A query without any parts, over a catalog.
    pub open spec fn fresh(
        tables: TableCache,
        functions: ScalaFunctions,
        outer: Seq<SourceView>,
    ) -> BinderView {
        BinderView {
            tables,
            functions,
            sources: Seq::empty(),
            outer,
            aliases: Seq::empty(),
            step: QueryBindStep::From,
            with_pk: None,
            allow_default: false,
            force_spill: false,
            force_nested_loop: false,
            outer_refs: false,
            pending: Seq::empty(),
        }
    }
}

/// A query stays bound when the arena grows.
pub proof fn lemma_known_extended(binder: BinderView, before: ArenaView, after: ArenaView)
    requires
        binder.known(before),
        before.within(after),
        after.wf(),
    ensures
        binder.known(after),
{
    assert forall|i: int| 0 <= i < binder.pending.len() implies sub_known(
        #[trigger] binder.pending[i],
        after,
    ) by {
        assert(sub_known(binder.pending[i], before));
        lemma_plan_valid_within(binder.pending[i].plan, before, after);
    }
    assert forall|name: Seq<char>| #[trigger] binder.tables.map().contains_key(name) implies
        table_known(binder.tables.map()[name], after) by {
        let table = binder.tables.map()[name];
        assert(table_known(table, before));
    }
}

/// The largest position that a row can have stands for all beyond it.
pub open spec fn capped(n: int) -> usize {
    if n <= usize::MAX {
        n as usize
    } else {
        usize::MAX
    }
}

/// The first source that goes by the name.
pub open spec fn find_source(sources: Seq<SourceView>, name: Seq<char>, from: int) -> Option<int>
    decreases sources.len() - from,
{
    if from < 0 || from >= sources.len() {
        None
    } else if sources[from].visible() == name {
        Some(from)
    } else {
        find_source(sources, name, from + 1)
    }
}

/// The first column of the name.
pub open spec fn find_column(
    arena: ArenaView,
    columns: Seq<ColumnRef>,
    name: Seq<char>,
    from: int,
) -> Option<int>
    decreases columns.len() - from,
{
    if from < 0 || from >= columns.len() {
        None
    } else if arena.columns[columns[from].0 as int].name == name {
        Some(from)
    } else {
        find_column(arena, columns, name, from + 1)
    }
}

/// How many columns the first sources have.
pub open spec fn width(sources: Seq<SourceView>, count: int) -> int
    decreases count,
{
    if count <= 0 {
        0
    } else {
        width(sources, count - 1) + sources[count - 1].columns.len()
    }
}

/// What a qualified name stands for.
pub enum Resolved {
    NoRelation,
    NoColumn,
    Found { column: ColumnRef, position: usize },
}

/// The column of a name among the sources.
pub open spec fn resolve(
    sources: Seq<SourceView>,
    arena: ArenaView,
    relation: Seq<char>,
    name: Seq<char>,
) -> Resolved {
    match find_source(sources, relation, 0) {
        None => Resolved::NoRelation,
        Some(i) => match find_column(arena, sources[i].columns, name, 0) {
            None => Resolved::NoColumn,
            Some(j) => Resolved::Found {
                column: sources[i].columns[j],
                position: capped(width(sources, i) + j),
            },
        },
    }
}

proof fn lemma_find_source(sources: Seq<SourceView>, name: Seq<char>, from: int)
    ensures
        find_source(sources, name, from) matches Some(i) ==> from <= i < sources.len(),
    decreases sources.len() - from,
{
    if 0 <= from < sources.len() && sources[from].visible() != name {
        lemma_find_source(sources, name, from + 1);
    }
}

proof fn lemma_find_column(arena: ArenaView, columns: Seq<ColumnRef>, name: Seq<char>, from: int)
    ensures
        find_column(arena, columns, name, from) matches Some(i) ==> from <= i < columns.len(),
    decreases columns.len() - from,
{
    if 0 <= from < columns.len() && arena.columns[columns[from].0 as int].name != name {
        lemma_find_column(arena, columns, name, from + 1);
    }
}

/// A column that is found is one of the columns of the sources.
pub proof fn found_column_is_known(
    sources: Seq<SourceView>,
    arena: ArenaView,
    relation: Seq<char>,
    name: Seq<char>,
)
    requires
        sources_known(sources, arena),
    ensures
        resolve(sources, arena, relation, name) matches Resolved::Found { column, .. }
            ==> arena.has_column(column) && arena.columns[column.0 as int].name == name,
{
    lemma_find_source(sources, relation, 0);
    if let Some(i) = find_source(sources, relation, 0) {
        lemma_find_column(arena, sources[i].columns, name, 0);
        lemma_column_name(arena, sources[i].columns, name, 0);
        assert(arena.has_columns(sources[i].columns));
    }
}

pub proof fn lemma_column_name(arena: ArenaView, columns: Seq<ColumnRef>, name: Seq<char>,
    from: int)
    ensures
        find_column(arena, columns, name, from) matches Some(i)
            ==> arena.columns[columns[i].0 as int].name == name,
    decreases columns.len() - from,
{
    if 0 <= from < columns.len() && arena.columns[columns[from].0 as int].name != name {
        lemma_column_name(arena, columns, name, from + 1);
    }
}

/// The first column of the name among the columns.
pub fn column_position(columns: &Vec<ColumnRef>, name: &str, arena: &PlanArena) -> (res: Option<
    usize,
>)
    requires
        arena@.has_columns(columns@),
    ensures
        res is Some <==> find_column(arena@, columns@, name@, 0) is Some,
        res matches Some(i) ==> find_column(arena@, columns@, name@, 0) == Some(i as int) && i
            < columns@.len(),
{
    let mut i: usize = 0;
    while i < columns.len()
        invariant
            i <= columns.len(),
            arena@.has_columns(columns@),
            find_column(arena@, columns@, name@, 0) == find_column(
                arena@,
                columns@,
                name@,
                i as int,
            ),
        decreases columns.len() - i,
    {
        if same_text(arena.column(columns[i]).name(), name) {
            return Some(i);
        }
        i += 1;
    }
    None
}

/// Looks a qualified name up among the sources.
pub fn lookup(sources: &Vec<BoundSource>, relation: &str, name: &str, arena: &PlanArena) -> (res:
    Option<Option<(ColumnRef, usize)>>)
    requires
        sources_known(source_views(sources@), arena@),
    ensures
        match resolve(source_views(sources@), arena@, relation@, name@) {
            Resolved::NoRelation => res is None,
            Resolved::NoColumn => res == Some(None::<(ColumnRef, usize)>),
            Resolved::Found { column, position } => res == Some(Some((column, position))),
        },
{
    let ghost views = source_views(sources@);
    let mut start: usize = 0;
    let mut i: usize = 0;
    while i < sources.len()
        invariant
            i <= sources.len(),
            views == source_views(sources@),
            sources_known(views, arena@),
            start == capped(width(views, i as int)),
            width(views, i as int) >= 0,
            find_source(views, relation@, 0) == find_source(views, relation@, i as int),
        decreases sources.len() - i,
    {
        let source = &sources[i];
        assert(views[i as int] == source@);
        assert(arena@.has_columns(views[i as int].columns));
        if same_text(source.visible_name().as_str(), relation) {
            return match column_position(&source.columns, name, arena) {
                Some(j) => {
                    let position: usize = if j <= usize::MAX - start {
                        start + j
                    } else {
                        usize::MAX
                    };
                    Some(Some((source.columns[j], position)))
                },
                None => Some(None),
            };
        }
        let count: usize = source.columns.len();
        start = if count <= usize::MAX - start {
            start + count
        } else {
            usize::MAX
        };
        i += 1;
        assert(width(views, i as int) == width(views, i - 1) + views[i - 1].columns.len());
    }
    None
}

/// Outcomes of binding a qualified name: an own column, else a column of the query around.
pub enum NameBinding {
    Own { column: ColumnRef, position: usize },
    Outer { column: ColumnRef, position: usize },
    NoColumn,
    NoRelation,
}

impl BinderView {
    /// What a qualified name stands for in the query. Own tables hide those of the query around.
    pub open spec fn binding(self, arena: ArenaView, relation: Seq<char>,
        name: Seq<char>) -> NameBinding {
        match resolve(self.sources, arena, relation, name) {
            Resolved::Found { column, position } => NameBinding::Own { column, position },
            Resolved::NoColumn => NameBinding::NoColumn,
            Resolved::NoRelation => match resolve(self.outer, arena, relation, name) {
                Resolved::Found { column, position } => NameBinding::Outer { column, position },
                Resolved::NoColumn => NameBinding::NoColumn,
                Resolved::NoRelation => NameBinding::NoRelation,
            },
        }
    }
}

/// The node that reads a column.
pub open spec fn column_view(column: ColumnRef, position: usize) -> ExprView {
    ExprView { head: ExprHead::ColumnRef { column, position }, children: Seq::empty() }
}

impl<'a> Binder<'a> {
    /// A query without any parts, over a catalog and inside other queries.
    pub fn new(
        tables: &'a TableCache,
        functions: &'a ScalaFunctions,
        outer: Vec<BoundSource>,
    ) -> (res: Self)
        ensures
            res@ == BinderView::fresh(*tables, *functions, source_views(outer@)),
    {
        let res = Binder {
            tables,
            functions,
            sources: Vec::new(),
            outer,
            aliases: Vec::new(),
            step: QueryBindStep::From,
            with_pk: None,
            allow_default: false,
            force_spill: false,
            force_nested_loop: false,
            outer_refs: false,
            pending: Vec::new(),
        };
        assert(res@.sources =~= Seq::empty());
        assert(res@.aliases =~= Seq::empty());
        assert(res@.pending =~= Seq::empty());
        res
    }

    /// The column behind a qualified name.
    pub fn bind_column_ref_by_name(&mut self, relation: &str, name: &str,
        arena: &PlanArena) -> (res:
        Result<ScalarExpression, DatabaseError>)
        requires
            old(self)@.known(arena@),
        ensures
            match old(self)@.binding(arena@, relation@, name@) {
                NameBinding::Own { column, position } => {
                    &&& res matches Ok(expr) && expr@ == column_view(column, position)
                    &&& final(self)@ == old(self)@
                },
                NameBinding::Outer { column, position } => {
                    &&& res matches Ok(expr) && expr@ == column_view(column, position)
                    &&& final(self)@ == (BinderView { outer_refs: true, ..old(self)@ })
                },
                NameBinding::NoColumn => {
                    &&& res matches Err(DatabaseError::ColumnNotFound { name: n, span }) && n@
                        == name@ && span is None
                    &&& final(self)@ == old(self)@
                },
                NameBinding::NoRelation => {
                    &&& res matches Err(DatabaseError::InvalidTable { name: n }) && n@ == relation@
                    &&& final(self)@ == old(self)@
                },
            },
            res matches Ok(expr) ==> arena@.fits(expr@),
    {
        proof {
            found_column_is_known(self@.sources, arena@, relation@, name@);
            found_column_is_known(self@.outer, arena@, relation@, name@);
        }
        match lookup(&self.sources, relation, name, arena) {
            Some(Some((column, position))) => Ok(ScalarExpression::column_expr(column, position)),
            Some(None) => Err(DatabaseError::column_not_found(name.to_string())),
            None => match lookup(&self.outer, relation, name, arena) {
                Some(Some((column, position))) => {
                    self.outer_refs = true;
                    Ok(ScalarExpression::column_expr(column, position))
                },
                Some(None) => Err(DatabaseError::column_not_found(name.to_string())),
                None => Err(DatabaseError::invalid_table(relation.to_string())),
            },
        }
    }

    /// Notes that an expression goes by a name.
    pub fn add_alias(&mut self, alias: String, expr: ExprRef)
        ensures
            final(self)@ == (BinderView {
                aliases: old(self)@.aliases.push((alias@, expr)),
                ..old(self)@
            }),
    {
        self.aliases.push((alias, expr));
        assert(self@.aliases =~= old(self)@.aliases.push((alias@, expr)));
    }
}

} // verus!
