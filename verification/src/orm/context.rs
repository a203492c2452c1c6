//! The place where queries are written: their first tables, set operations and subqueries.

use crate::binder::expr::unary_view;
use crate::binder::plan::{attached, bound, leaf, lemma_attached, over, pair};
use crate::binder::scan::source_view;
use crate::binder::{
    capped, column_view, lemma_known_extended, source_views, sources_known, sub_known, width,
    Binder, BinderView, BoundSource, SourceView, SubQuery, SubQueryKind, SubQueryView,
};
use crate::catalog::{ColumnCatalog, ColumnDesc, ColumnRef, ColumnView};
use crate::errors::DatabaseError;
use crate::expression::{BinaryOperator, ScalarExpression, UnaryOperator};
use crate::orm::field::{Model, QuerySource};
use crate::orm::insert::{bind_orm_insert_plan, inserted};
use crate::orm::query::{lemma_bound_extended, settled, BindPlanFrom, FromState};
use crate::orm::scope::{
    alloc_view, binary_bound, lemma_extended_trans, CtxExpression, ExprBindScope,
    OrmExpression, OrmView, ScopeView,
};
use crate::planner::arena::{ArenaView, ExprRef, PlanArena, TableArena};
use crate::planner::operator::aggregate::AggregateView;
use crate::planner::operator::mark_apply::MarkApplyQuantifier;
use crate::planner::operator::set_operation::{
    SetMembershipKind, SetMembershipOperator, UnionOperator,
};
use crate::planner::operator::{Operator, OperatorView};
use crate::planner::schema::{clone_schema, output};
use crate::planner::shape::{lemma_output_shape, lemma_shaped_ready};
use crate::planner::{Childrens, LogicalPlan, PlanView};
use crate::types::{LogicalType, LogicalTypeView};
use std::marker::PhantomData;
use vstd::prelude::*;

verus! {

/// The place where a query is written.
#[derive(Debug)]
pub struct OrmContext<'a> {
    pub scope: ExprBindScope<'a>,
}

impl<'a> View for OrmContext<'a> {
    type V = ScopeView;

    open spec fn view(&self) -> ScopeView {
        self.scope@
    }
}

/// How two queries become one.
#[derive(Clone, Copy, Debug, PartialEq, Eq, Structural)]
pub enum SetOperatorKind {
    Union,
    Except,
    Intersect,
}

/// The plan of the first table of a query, and the scope with it. A table that is to be changed is
/// read together with its keys.
pub open spec fn first_bound(
    scope: ScopeView,
    table: Seq<char>,
    alias: Option<Seq<char>>,
    mutation: bool,
) -> Option<(PlanView, ScopeView)> {
    let tables = scope.binder.tables.map();
    if tables.contains_key(table) {
        let (plan, columns, arena) = source_view(
            scope.arena,
            tables[table],
            table,
            alias,
            mutation || scope.binder.with_pk == Some(table),
        );
        Some(
            (
                plan,
                ScopeView {
                    binder: BinderView {
                        sources: scope.binder.sources.push(
                            SourceView { table, alias, join_type: None, columns },
                        ),
                        ..unmarked(scope, mutation).binder
                    },
                    arena,
                },
            ),
        )
    } else {
        None
    }
}

/// After a table was read to be changed, no table is marked any more.
pub open spec fn unmarked(scope: ScopeView, mutation: bool) -> ScopeView {
    if mutation {
        ScopeView { binder: BinderView { with_pk: None, ..scope.binder }, ..scope }
    } else {
        scope
    }
}

/// A query of its own in the same arena, inside other queries.
pub open spec fn inner_scope(scope: ScopeView, outer: Seq<SourceView>) -> ScopeView {
    ScopeView {
        binder: BinderView::fresh(scope.binder.tables, scope.binder.functions, outer),
        arena: scope.arena,
    }
}

/// The scope after a query beside it, which may have read the queries around.
pub open spec fn beside(scope: ScopeView, child: ScopeView, done: bool) -> ScopeView {
    ScopeView {
        binder: BinderView {
            outer_refs: scope.binder.outer_refs || (done && child.binder.outer_refs),
            ..scope.binder
        },
        arena: child.arena,
    }
}

/// The columns of a row, and the arena with them.
pub open spec fn read_row(arena: ArenaView, row: Seq<ColumnRef>) -> (Seq<ExprRef>, ArenaView)
    decreases row.len(),
{
    if row.len() == 0 {
        (Seq::empty(), arena)
    } else {
        let front = read_row(arena, row.drop_last());
        (
            front.0.push(ExprRef(front.1.exprs.len() as usize)),
            front.1.push_expr(column_view(row.last(), (row.len() - 1) as usize)),
        )
    }
}

/// The operator of a set operation.
pub open spec fn set_operator(
    kind: SetOperatorKind,
    left: Seq<ColumnRef>,
    right: Seq<ColumnRef>,
) -> OperatorView {
    match kind {
        SetOperatorKind::Union => OperatorView::Union(left, right),
        SetOperatorKind::Except => OperatorView::SetMembership(
            SetMembershipKind::Except,
            left,
            right,
        ),
        SetOperatorKind::Intersect => OperatorView::SetMembership(
            SetMembershipKind::Intersect,
            left,
            right,
        ),
    }
}

/// Outcomes of a set operation: both rows must have the same width; unless all rows are wanted,
/// equal rows become one.
pub open spec fn set_bound(
    scope: ScopeView,
    kind: SetOperatorKind,
    all: bool,
    left: PlanView,
    right: PlanView,
    after: ScopeView,
    res: Result<PlanView, DatabaseError>,
) -> bool {
    let l = output(left, scope.arena);
    let r = output(right, l.arena);
    if l.schema.len() != r.schema.len() {
        &&& res matches Err(DatabaseError::MisMatch(a, b)) && a@ == "the lens on the left"@ && b@
            == "the lens on the right"@
        &&& after == scope.with_arena(r.arena)
    } else {
        let joined = pair(set_operator(kind, l.schema, r.schema), l.plan, r.plan);
        if all {
            res == Ok::<PlanView, DatabaseError>(joined) && after == scope.with_arena(r.arena)
        } else {
            let (exprs, arena) = read_row(r.arena, l.schema);
            &&& res == Ok::<PlanView, DatabaseError>(
                over(
                    OperatorView::Aggregate(
                        AggregateView {
                            groupby_exprs: exprs,
                            agg_calls: Seq::empty(),
                            is_distinct: true,
                            force_spill: scope.binder.force_spill,
                        },
                    ),
                    attached(joined, scope.binder.pending),
                ),
            )
            &&& after == settled(scope.with_arena(arena))
        }
    }
}

/// The position of the next value that is joined to a row.
pub open spec fn next_position(scope: ScopeView) -> usize {
    capped(
        width(scope.binder.sources, scope.binder.sources.len() as int)
            + scope.binder.pending.len(),
    )
}

/// The scope after a query inside it.
pub open spec fn around(scope: ScopeView, child: ScopeView, done: bool) -> ScopeView {
    ScopeView {
        binder: BinderView {
            outer_refs: scope.binder.outer_refs || (done && child.binder.outer_refs
                && scope.binder.outer.len() > 0),
            ..scope.binder
        },
        arena: child.arena,
    }
}

/// The tables that a query inside the scope can read.
pub open spec fn visible(scope: ScopeView) -> Seq<SourceView> {
    scope.binder.sources + scope.binder.outer
}

/// The scope with one more subquery that waits to be joined.
pub open spec fn waiting(scope: ScopeView, sub: SubQueryView) -> ScopeView {
    ScopeView {
        binder: BinderView { pending: scope.binder.pending.push(sub), ..scope.binder },
        ..scope
    }
}

/// The column of a mark.
pub open spec fn mark_column(name: Seq<char>) -> ColumnView {
    ColumnView {
        name,
        nullable: true,
        ty: LogicalTypeView::Plain(LogicalType::Boolean),
        primary: None,
        unique: false,
        default: None,
        table: None,
        id: None,
        is_temp: false,
    }
}

/// The scope with a column of a mark.
pub open spec fn marked(scope: ScopeView, name: Seq<char>) -> (ColumnRef, ScopeView) {
    (
        ColumnRef(scope.arena.columns.len() as usize),
        scope.with_arena(scope.arena.push_column(mark_column(name))),
    )
}

/// A value, or its opposite.
pub open spec fn negated_view(scope: ScopeView, expr: CtxExpression, negated: bool) -> (
    CtxExpression,
    ScopeView,
) {
    if negated {
        alloc_view(
            scope,
            unary_view(
                UnaryOperator::Not,
                expr.expr,
                LogicalTypeView::Plain(LogicalType::Boolean),
            ),
        )
    } else {
        (expr, scope)
    }
}

/// Outcomes of reading the only value of a query.
pub open spec fn scalar_bound(
    scope: ScopeView,
    plan: PlanView,
    after: ScopeView,
    res: Result<CtxExpression, DatabaseError>,
) -> bool {
    let out = output(plan, scope.arena);
    let mid = scope.with_arena(out.arena);
    if out.schema.len() != 1 {
        too_wide(res) && after == mid
    } else {
        let (expr, read) = alloc_view(mid, column_view(out.schema[0], next_position(mid)));
        &&& res == Ok::<CtxExpression, DatabaseError>(expr)
        &&& after == waiting(
            read,
            SubQueryView { kind: SubQueryKind::Scalar, plan: out.plan, column: out.schema[0] },
        )
    }
}

/// The error for a query that has not one column.
pub open spec fn too_wide(res: Result<CtxExpression, DatabaseError>) -> bool {
    res matches Err(DatabaseError::MisMatch(a, b)) && a@
        == "expects only one expression to be returned"@ && b@
        == "the expression returned by the subquery"@
}

/// What it means to ask whether a query has rows.
pub open spec fn exists_bound(scope: ScopeView, plan: PlanView, negated: bool) -> (
    CtxExpression,
    ScopeView,
) {
    let (column, mid) = marked(scope, "exists"@);
    let (expr, read) = alloc_view(mid, column_view(column, next_position(mid)));
    negated_view(
        waiting(read, SubQueryView { kind: SubQueryKind::Exists, plan, column }),
        expr,
        negated,
    )
}

/// Outcomes of comparing a value with the rows of a query.
pub open spec fn quantified_bound(
    scope: ScopeView,
    left: ExprRef,
    op: BinaryOperator,
    quantifier: MarkApplyQuantifier,
    negated: bool,
    plan: PlanView,
    after: ScopeView,
    res: Result<CtxExpression, DatabaseError>,
) -> bool {
    let out = output(plan, scope.arena);
    let mid = scope.with_arena(out.arena);
    if out.schema.len() != 1 {
        too_wide(res) && after == mid
    } else {
        let (value, read) = alloc_view(mid, column_view(out.schema[0], next_position(mid)));
        compared(
            read,
            left,
            value.expr,
            op,
            quantifier,
            negated,
            out.plan,
            after,
            res,
        )
    }
}

/// Outcomes of comparing a value with that of the row of a query, which is then marked.
pub open spec fn compared(
    scope: ScopeView,
    left: ExprRef,
    value: ExprRef,
    op: BinaryOperator,
    quantifier: MarkApplyQuantifier,
    negated: bool,
    plan: PlanView,
    after: ScopeView,
    res: Result<CtxExpression, DatabaseError>,
) -> bool {
    exists|mid: ScopeView, predicate: Result<CtxExpression, DatabaseError>|
        {
            &&& #[trigger] binary_bound(
                scope,
                OrmView::Bound(left),
                op,
                OrmView::Bound(value),
                mid,
                predicate,
            )
            &&& match predicate {
                Err(err) => (res matches Err(e) && e == err) && after == mid,
                Ok(predicate) => {
                    let (expr, last) = quantified_mark(
                        mid,
                        quantifier,
                        predicate.expr,
                        negated,
                        plan,
                    );
                    res == Ok::<CtxExpression, DatabaseError>(expr) && after == last
                },
            }
        }
}

/// The mark of a quantified comparison.
pub open spec fn quantified_mark(
    scope: ScopeView,
    quantifier: MarkApplyQuantifier,
    predicate: ExprRef,
    negated: bool,
    plan: PlanView,
) -> (CtxExpression, ScopeView) {
    let (column, mid) = marked(scope, "quantified"@);
    let (expr, read) = alloc_view(mid, column_view(column, next_position(mid)));
    negated_view(
        waiting(
            read,
            SubQueryView { kind: SubQueryKind::Quantified(quantifier, predicate), plan, column },
        ),
        expr,
        negated,
    )
}

fn copy_sources(sources: &Vec<BoundSource>, more: &Vec<BoundSource>) -> (res: Vec<BoundSource>)
    ensures
        source_views(res@) == source_views(sources@) + source_views(more@),
{
    let mut out: Vec<BoundSource> = Vec::new();
    let mut i: usize = 0;
    while i < sources.len()
        invariant
            i <= sources.len(),
            source_views(out@) =~= source_views(sources@).take(i as int),
        decreases sources.len() - i,
    {
        let copy = sources[i].clone();
        let ghost before = source_views(out@);
        out.push(copy);
        assert(source_views(out@) =~= before.push(copy@));
        assert(source_views(sources@)[i as int] == sources@[i as int]@);
        i += 1;
    }
    let mut j: usize = 0;
    while j < more.len()
        invariant
            j <= more.len(),
            source_views(out@) =~= source_views(sources@) + source_views(more@).take(j as int),
        decreases more.len() - j,
    {
        let copy = more[j].clone();
        let ghost before = source_views(out@);
        out.push(copy);
        assert(source_views(out@) =~= before.push(copy@));
        assert(source_views(more@)[j as int] == more@[j as int]@);
        j += 1;
    }
    out
}

/// Writes a query of its own in the arena of the scope.
fn run_inner<'a, F>(scope: &mut ExprBindScope<'a>, outer: Vec<BoundSource>,
    build: F) -> (res: Result<
    (LogicalPlan, bool),
    DatabaseError,
>) where F: FnOnce(&mut OrmContext<'a>) -> Result<LogicalPlan, DatabaseError>
    requires
        old(scope).known(),
        sources_known(source_views(outer@), old(scope)@.arena),
        forall|c: &mut OrmContext<'a>| c.known() ==> #[trigger] call_requires(build, (c,)),
        forall|c: &mut OrmContext<'a>, r: Result<LogicalPlan, DatabaseError>|
            c.known() && #[trigger] call_ensures(build, (c,), r) ==> final(c).known()
                && c@.extended_by(final(c)@) && (r matches Ok(plan) ==> bound(
                plan@,
                final(c)@.arena,
            )),
    ensures
        exists|c: &mut OrmContext<'a>, r: Result<LogicalPlan, DatabaseError>|
            {
                &&& c@ == inner_scope(old(scope)@, source_views(outer@))
                &&& #[trigger] call_ensures(build, (c,), r)
                &&& final(scope)@ == old(scope)@.with_arena(final(c)@.arena)
                &&& match r {
                    Ok(plan) => res == Ok::<(LogicalPlan, bool), DatabaseError>(
                        (plan, final(c)@.binder.outer_refs),
                    ),
                    Err(err) => res matches Err(e) && e == err,
                }
            },
        res matches Ok((plan, _)) ==> bound(plan@, final(scope)@.arena),
        final(scope).known(),
        old(scope)@.extended_by(final(scope)@),
{
    let ghost before = scope@;
    let binder = Binder::new(scope.binder.tables, scope.binder.functions, outer);
    let mut context = OrmContext {
        scope: ExprBindScope { binder, arena: PlanArena::new(&TableArena::default()) },
    };
    std::mem::swap(&mut context.scope.arena, &mut scope.arena);
    assert(context@ == inner_scope(before, source_views(outer@)));
    assert(context.known());
    let ran = build(&mut context);
    std::mem::swap(&mut context.scope.arena, &mut scope.arena);
    proof {
        lemma_known_extended(scope.binder@, before.arena, scope@.arena);
    }
    match ran {
        Ok(plan) => Ok((plan, context.scope.binder.outer_refs)),
        Err(err) => Err(err),
    }
}

fn read_columns(arena: &mut PlanArena, row: &Vec<ColumnRef>) -> (res: Vec<ExprRef>)
    requires
        old(arena)@.wf(),
        old(arena)@.has_columns(row@),
    ensures
        (res@, final(arena)@) == read_row(old(arena)@, row@),
        final(arena)@.wf(),
        old(arena)@.extended_by(final(arena)@),
        final(arena)@.has_exprs(res@),
{
    let ghost start = arena@;
    let mut out: Vec<ExprRef> = Vec::new();
    let mut i: usize = 0;
    assert(row@.take(0) =~= Seq::empty());
    while i < row.len()
        invariant
            i <= row.len(),
            start.has_columns(row@),
            arena@.wf(),
            arena@.columns == start.columns,
            start.extended_by(arena@),
            (out@, arena@) == read_row(start, row@.take(i as int)),
            arena@.has_exprs(out@),
        decreases row.len() - i,
    {
        let ghost before = arena@;
        proof {
            let next = row@.take(i + 1);
            assert(next.drop_last() =~= row@.take(i as int));
            assert(next.last() == row@[i as int]);
            assert(start.has_column(row@[i as int]));
        }
        let expr = arena.alloc_expression(ScalarExpression::column_expr(row[i], i));
        out.push(expr);
        proof {
            lemma_extended_trans(start, before, arena@);
        }
        i += 1;
    }
    assert(row@.take(i as int) =~= row@);
    out
}

impl<'a> OrmContext<'a> {
    /// Whether everything that the query refers to is in its arena.
    pub open spec fn known(&self) -> bool {
        self@.known()
    }

    /// A place for a query without any parts.
    pub fn new(binder: Binder<'a>, arena: PlanArena) -> (res: Self)
        ensures
            res@ == (ScopeView { binder: binder@, arena: arena@ }),
    {
        OrmContext { scope: ExprBindScope { binder, arena } }
    }

    fn from_source<'s, M: Model>(&'s mut self, source: QuerySource, mutation_source: bool) -> (res:
        Result<BindPlanFrom<'s, 'a, M>, DatabaseError>)
        requires
            old(self).known(),
        ensures
            match first_bound(
                old(self)@,
                source.table_name@,
                match source.alias {
                    Some(alias) => Some(alias@),
                    None => None,
                },
                mutation_source,
            ) {
                Some((plan, scope)) => res matches Ok(from) && from.state() == (FromState {
                    scope,
                    plan,
                }) && from.state().wf() && old(self)@.extended_by(scope) && final(self).scope
                    == *final(from.scope),
                None => (res matches Err(DatabaseError::TableNotFound)) && final(self)@
                    == unmarked(old(self)@, mutation_source) && final(self).known(),
            },
    {
        let ghost before = self@;
        if mutation_source {
            self.scope.binder.with_pk = Some(source.table_name.clone());
            assert(self@.binder == BinderView {
                with_pk: Some(source.table_name@),
                ..before.binder
            });
        }
        let ghost marked = self@;
        let res = self.scope.binder.bind_base_table_ref(
            None,
            source.table_name,
            source.alias,
            &mut self.scope.arena,
        );
        let ghost read = self@;
        if mutation_source {
            self.scope.binder.with_pk = None;
            assert(self@.binder == BinderView { with_pk: None, ..read.binder });
        }
        assert(self.known());
        match res {
            Ok(plan) => Ok(BindPlanFrom { scope: &mut self.scope, plan, marker: PhantomData }),
            Err(err) => Err(err),
        }
    }

    /// Starts a query with the table of a model.
    pub fn from<'s, M: Model>(&'s mut self) -> (res: Result<BindPlanFrom<'s, 'a, M>, DatabaseError>)
        requires
            old(self).known(),
        ensures
            match first_bound(old(self)@, M::table(), None, false) {
                Some((plan, scope)) => res matches Ok(from) && from.state() == (FromState {
                    scope,
                    plan,
                }) && from.state().wf() && old(self)@.extended_by(scope) && final(self).scope
                    == *final(from.scope),
                None => (res matches Err(DatabaseError::TableNotFound)) && final(self)@
                    == unmarked(old(self)@, false) && final(self).known(),
            },
    {
        self.from_source(QuerySource::model::<M>(), false)
    }

    /// Starts a query with the table of a model under another name.
    pub fn from_as<'s, M: Model>(&'s mut self,
        alias: String) -> (res: Result<BindPlanFrom<'s, 'a, M>, DatabaseError>)
        requires
            old(self).known(),
        ensures
            match first_bound(old(self)@, M::table(), Some(alias@), false) {
                Some((plan, scope)) => res matches Ok(from) && from.state() == (FromState {
                    scope,
                    plan,
                }) && from.state().wf() && old(self)@.extended_by(scope) && final(self).scope
                    == *final(from.scope),
                None => (res matches Err(DatabaseError::TableNotFound)) && final(self)@
                    == unmarked(old(self)@, false) && final(self).known(),
            },
    {
        self.from_source(QuerySource::model::<M>().with_alias(alias), false)
    }

    /// Starts a change of the table of a model.
    pub fn mutate<'s,
        M: Model>(&'s mut self) -> (res: Result<BindPlanFrom<'s, 'a, M>, DatabaseError>)
        requires
            old(self).known(),
        ensures
            match first_bound(old(self)@, M::table(), None, true) {
                Some((plan, scope)) => res matches Ok(from) && from.state() == (FromState {
                    scope,
                    plan,
                }) && from.state().wf() && old(self)@.extended_by(scope) && final(self).scope
                    == *final(from.scope),
                None => (res matches Err(DatabaseError::TableNotFound)) && final(self)@
                    == unmarked(old(self)@, true) && final(self).known(),
            },
    {
        self.from_source(QuerySource::model::<M>(), true)
    }

    /// Starts a change of the table of a model under another name.
    pub fn mutate_as<'s, M: Model>(&'s mut self,
        alias: String) -> (res: Result<BindPlanFrom<'s, 'a, M>, DatabaseError>)
        requires
            old(self).known(),
        ensures
            match first_bound(old(self)@, M::table(), Some(alias@), true) {
                Some((plan, scope)) => res matches Ok(from) && from.state() == (FromState {
                    scope,
                    plan,
                }) && from.state().wf() && old(self)@.extended_by(scope) && final(self).scope
                    == *final(from.scope),
                None => (res matches Err(DatabaseError::TableNotFound)) && final(self)@
                    == unmarked(old(self)@, true) && final(self).known(),
            },
    {
        self.from_source(QuerySource::model::<M>().with_alias(alias), true)
    }

    fn child_plan<F>(&mut self, build: F) -> (res: Result<LogicalPlan, DatabaseError>) where
        F: FnOnce(&mut OrmContext<'a>) -> Result<LogicalPlan, DatabaseError>,

        requires
            old(self).known(),
            forall|c: &mut OrmContext<'a>| c.known() ==> #[trigger] call_requires(build, (c,)),
            forall|c: &mut OrmContext<'a>, r: Result<LogicalPlan, DatabaseError>|
                c.known() && #[trigger] call_ensures(build, (c,), r) ==> final(c).known()
                    && c@.extended_by(final(c)@) && (r matches Ok(plan) ==> bound(
                    plan@,
                    final(c)@.arena,
                )),
        ensures
            exists|c: &mut OrmContext<'a>, r: Result<LogicalPlan, DatabaseError>|
                {
                    &&& c@ == inner_scope(old(self)@, old(self)@.binder.outer)
                    &&& #[trigger] call_ensures(build, (c,), r)
                    &&& final(self)@ == beside(old(self)@, final(c)@, r is Ok)
                    &&& res == r
                },
            res matches Ok(plan) ==> bound(plan@, final(self)@.arena),
            final(self).known(),
            old(self)@.extended_by(final(self)@),
    {
        let ghost before = self@;
        let outer = copy_sources(&Vec::new(), &self.scope.binder.outer);
        assert(source_views(outer@) =~= before.binder.outer);
        match run_inner(&mut self.scope, outer, build) {
            Ok((plan, outer_refs)) => {
                let ghost ran = self@;
                if outer_refs {
                    self.scope.binder.outer_refs = true;
                    assert(self@.binder == BinderView { outer_refs: true, ..ran.binder });
                }
                Ok(plan)
            },
            Err(err) => Err(err),
        }
    }

    fn set_plans(&mut self, op: SetOperatorKind, all: bool, left: LogicalPlan,
        right: LogicalPlan) -> (res:
        Result<LogicalPlan, DatabaseError>)
        requires
            old(self).known(),
            bound(left@, old(self)@.arena),
            bound(right@, old(self)@.arena),
        ensures
            set_bound(
                old(self)@,
                op,
                all,
                left@,
                right@,
                final(self)@,
                match res {
                    Ok(plan) => Ok(plan@),
                    Err(err) => Err(err),
                },
            ),
            res matches Ok(plan) ==> bound(plan@, final(self)@.arena),
            final(self).known(),
            old(self)@.extended_by(final(self)@),
    {
        let ghost start = self@;
        let mut left = left;
        let mut right = right;
        proof {
            lemma_shaped_ready(left@);
            lemma_output_shape(left@, start.arena);
        }
        let left_schema_ref = clone_schema(left.output_schema(&mut self.scope.arena));
        let ghost first = self@;
        proof {
            lemma_bound_extended(right@, start.arena, first.arena);
            lemma_shaped_ready(right@);
            lemma_output_shape(right@, first.arena);
        }
        let right_schema_ref = clone_schema(right.output_schema(&mut self.scope.arena));
        let ghost second = self@;
        proof {
            lemma_extended_trans(start.arena, first.arena, second.arena);
            lemma_known_extended(self.scope.binder@, start.arena, second.arena);
            lemma_bound_extended(left@, first.arena, second.arena);
        }
        if left_schema_ref.len() != right_schema_ref.len() {
            return Err(DatabaseError::MisMatch("the lens on the left", "the lens on the right"));
        }
        let row = clone_schema(&left_schema_ref);
        let operator = match op {
            SetOperatorKind::Union => Operator::Union(
                UnionOperator { left_schema_ref, right_schema_ref },
            ),
            SetOperatorKind::Except => Operator::SetMembership(
                SetMembershipOperator {
                    kind: SetMembershipKind::Except,
                    left_schema_ref,
                    right_schema_ref,
                },
            ),
            SetOperatorKind::Intersect => Operator::SetMembership(
                SetMembershipOperator {
                    kind: SetMembershipKind::Intersect,
                    left_schema_ref,
                    right_schema_ref,
                },
            ),
        };
        let ghost joined = pair(
            set_operator(op, left_schema_ref@, right_schema_ref@),
            left@,
            right@,
        );
        let plan = LogicalPlan::new(
            operator,
            Childrens::Twins { left: Box::new(left), right: Box::new(right) },
        );
        assert(plan@ == joined);
        assert(bound(plan@, second.arena));
        if all {
            return Ok(plan);
        }
        let exprs = read_columns(&mut self.scope.arena, &row);
        let ghost third = self@;
        proof {
            lemma_extended_trans(start.arena, second.arena, third.arena);
            lemma_known_extended(self.scope.binder@, second.arena, third.arena);
            lemma_bound_extended(plan@, second.arena, third.arena);
            lemma_attached(plan@, third.binder.pending, third.arena);
        }
        let calls: Vec<ExprRef> = Vec::new();
        assert(calls@ =~= Seq::empty());
        let res = self.scope.binder.bind_aggregate(plan, exprs, calls, true);
        assert(self@ == settled(third));
        assert(bound(res@, third.arena));
        Ok(res)
    }

    fn set_operation<L, R>(&mut self, op: SetOperatorKind, all: bool, left: L,
        right: R) -> (res: Result<
        LogicalPlan,
        DatabaseError,
    >) where
        L: FnOnce(&mut OrmContext<'a>) -> Result<LogicalPlan, DatabaseError>,
        R: FnOnce(&mut OrmContext<'a>) -> Result<LogicalPlan, DatabaseError>,

        requires
            old(self).known(),
            forall|c: &mut OrmContext<'a>| c.known() ==> #[trigger] call_requires(left, (c,)),
            forall|c: &mut OrmContext<'a>, r: Result<LogicalPlan, DatabaseError>|
                c.known() && #[trigger] call_ensures(left, (c,), r) ==> final(c).known()
                    && c@.extended_by(final(c)@) && (r matches Ok(plan) ==> bound(
                    plan@,
                    final(c)@.arena,
                )),
            forall|c: &mut OrmContext<'a>| c.known() ==> #[trigger] call_requires(right, (c,)),
            forall|c: &mut OrmContext<'a>, r: Result<LogicalPlan, DatabaseError>|
                c.known() && #[trigger] call_ensures(right, (c,), r) ==> final(c).known()
                    && c@.extended_by(final(c)@) && (r matches Ok(plan) ==> bound(
                    plan@,
                    final(c)@.arena,
                )),
        ensures
            exists|l: &mut OrmContext<'a>, x: Result<LogicalPlan, DatabaseError>|
                {
                    &&& l@ == inner_scope(old(self)@, old(self)@.binder.outer)
                    &&& #[trigger] call_ensures(left, (l,), x)
                    &&& match x {
                        Err(err) => (res matches Err(e) && e == err) && final(self)@ == beside(
                            old(self)@,
                            final(l)@,
                            false,
                        ),
                        Ok(left_plan) => exists|r: &mut OrmContext<'a>, y: Result<
                            LogicalPlan,
                            DatabaseError,
                        >|
                            {
                                &&& r@ == inner_scope(
                                    beside(old(self)@, final(l)@, true),
                                    old(self)@.binder.outer,
                                )
                                &&& #[trigger] call_ensures(right, (r,), y)
                                &&& match y {
                                    Err(err) => (res matches Err(e) && e == err) && final(self)@
                                        == beside(
                                        beside(old(self)@, final(l)@, true),
                                        final(r)@,
                                        false,
                                    ),
                                    Ok(right_plan) => set_bound(
                                        beside(
                                            beside(old(self)@, final(l)@, true),
                                            final(r)@,
                                            true,
                                        ),
                                        op,
                                        all,
                                        left_plan@,
                                        right_plan@,
                                        final(self)@,
                                        match res {
                                            Ok(plan) => Ok(plan@),
                                            Err(err) => Err(err),
                                        },
                                    ),
                                }
                            },
                    }
                },
            res matches Ok(plan) ==> bound(plan@, final(self)@.arena),
            final(self).known(),
            old(self)@.extended_by(final(self)@),
    {
        let left_plan = match self.child_plan(left) {
            Ok(plan) => plan,
            Err(err) => {
                return Err(err);
            },
        };
        let ghost first = self@;
        let right_plan = match self.child_plan(right) {
            Ok(plan) => plan,
            Err(err) => {
                return Err(err);
            },
        };
        proof {
            lemma_extended_trans(old(self)@.arena, first.arena, self@.arena);
            lemma_bound_extended(left_plan@, first.arena, self@.arena);
        }
        let ghost second = self@;
        let res = self.set_plans(op, all, left_plan, right_plan);
        proof {
            lemma_extended_trans(old(self)@.arena, second.arena, self@.arena);
        }
        res
    }

    /// The rows of either query.
    pub fn union<L, R>(&mut self, all: bool, left: L, right: R) -> (res: Result<
        LogicalPlan,
        DatabaseError,
    >) where
        L: FnOnce(&mut OrmContext<'a>) -> Result<LogicalPlan, DatabaseError>,
        R: FnOnce(&mut OrmContext<'a>) -> Result<LogicalPlan, DatabaseError>,

        requires
            old(self).known(),
            forall|c: &mut OrmContext<'a>| c.known() ==> #[trigger] call_requires(left, (c,)),
            forall|c: &mut OrmContext<'a>, r: Result<LogicalPlan, DatabaseError>|
                c.known() && #[trigger] call_ensures(left, (c,), r) ==> final(c).known()
                    && c@.extended_by(final(c)@) && (r matches Ok(plan) ==> bound(
                    plan@,
                    final(c)@.arena,
                )),
            forall|c: &mut OrmContext<'a>| c.known() ==> #[trigger] call_requires(right, (c,)),
            forall|c: &mut OrmContext<'a>, r: Result<LogicalPlan, DatabaseError>|
                c.known() && #[trigger] call_ensures(right, (c,), r) ==> final(c).known()
                    && c@.extended_by(final(c)@) && (r matches Ok(plan) ==> bound(
                    plan@,
                    final(c)@.arena,
                )),
        ensures
            exists|l: &mut OrmContext<'a>, x: Result<LogicalPlan, DatabaseError>|
                {
                    &&& l@ == inner_scope(old(self)@, old(self)@.binder.outer)
                    &&& #[trigger] call_ensures(left, (l,), x)
                    &&& match x {
                        Err(err) => (res matches Err(e) && e == err) && final(self)@ == beside(
                            old(self)@,
                            final(l)@,
                            false,
                        ),
                        Ok(left_plan) => exists|r: &mut OrmContext<'a>, y: Result<
                            LogicalPlan,
                            DatabaseError,
                        >|
                            {
                                &&& r@ == inner_scope(
                                    beside(old(self)@, final(l)@, true),
                                    old(self)@.binder.outer,
                                )
                                &&& #[trigger] call_ensures(right, (r,), y)
                                &&& match y {
                                    Err(err) => (res matches Err(e) && e == err) && final(self)@
                                        == beside(
                                        beside(old(self)@, final(l)@, true),
                                        final(r)@,
                                        false,
                                    ),
                                    Ok(right_plan) => set_bound(
                                        beside(
                                            beside(old(self)@, final(l)@, true),
                                            final(r)@,
                                            true,
                                        ),
                                        SetOperatorKind::Union,
                                        all,
                                        left_plan@,
                                        right_plan@,
                                        final(self)@,
                                        match res {
                                            Ok(plan) => Ok(plan@),
                                            Err(err) => Err(err),
                                        },
                                    ),
                                }
                            },
                    }
                },
            res matches Ok(plan) ==> bound(plan@, final(self)@.arena),
            final(self).known(),
            old(self)@.extended_by(final(self)@),
    {
        self.set_operation(SetOperatorKind::Union, all, left, right)
    }

    /// The rows of the left query that are not among those of the right one.
    pub fn except<L, R>(&mut self, all: bool, left: L, right: R) -> (res: Result<
        LogicalPlan,
        DatabaseError,
    >) where
        L: FnOnce(&mut OrmContext<'a>) -> Result<LogicalPlan, DatabaseError>,
        R: FnOnce(&mut OrmContext<'a>) -> Result<LogicalPlan, DatabaseError>,

        requires
            old(self).known(),
            forall|c: &mut OrmContext<'a>| c.known() ==> #[trigger] call_requires(left, (c,)),
            forall|c: &mut OrmContext<'a>, r: Result<LogicalPlan, DatabaseError>|
                c.known() && #[trigger] call_ensures(left, (c,), r) ==> final(c).known()
                    && c@.extended_by(final(c)@) && (r matches Ok(plan) ==> bound(
                    plan@,
                    final(c)@.arena,
                )),
            forall|c: &mut OrmContext<'a>| c.known() ==> #[trigger] call_requires(right, (c,)),
            forall|c: &mut OrmContext<'a>, r: Result<LogicalPlan, DatabaseError>|
                c.known() && #[trigger] call_ensures(right, (c,), r) ==> final(c).known()
                    && c@.extended_by(final(c)@) && (r matches Ok(plan) ==> bound(
                    plan@,
                    final(c)@.arena,
                )),
        ensures
            exists|l: &mut OrmContext<'a>, x: Result<LogicalPlan, DatabaseError>|
                {
                    &&& l@ == inner_scope(old(self)@, old(self)@.binder.outer)
                    &&& #[trigger] call_ensures(left, (l,), x)
                    &&& match x {
                        Err(err) => (res matches Err(e) && e == err) && final(self)@ == beside(
                            old(self)@,
                            final(l)@,
                            false,
                        ),
                        Ok(left_plan) => exists|r: &mut OrmContext<'a>, y: Result<
                            LogicalPlan,
                            DatabaseError,
                        >|
                            {
                                &&& r@ == inner_scope(
                                    beside(old(self)@, final(l)@, true),
                                    old(self)@.binder.outer,
                                )
                                &&& #[trigger] call_ensures(right, (r,), y)
                                &&& match y {
                                    Err(err) => (res matches Err(e) && e == err) && final(self)@
                                        == beside(
                                        beside(old(self)@, final(l)@, true),
                                        final(r)@,
                                        false,
                                    ),
                                    Ok(right_plan) => set_bound(
                                        beside(
                                            beside(old(self)@, final(l)@, true),
                                            final(r)@,
                                            true,
                                        ),
                                        SetOperatorKind::Except,
                                        all,
                                        left_plan@,
                                        right_plan@,
                                        final(self)@,
                                        match res {
                                            Ok(plan) => Ok(plan@),
                                            Err(err) => Err(err),
                                        },
                                    ),
                                }
                            },
                    }
                },
            res matches Ok(plan) ==> bound(plan@, final(self)@.arena),
            final(self).known(),
            old(self)@.extended_by(final(self)@),
    {
        self.set_operation(SetOperatorKind::Except, all, left, right)
    }

    /// The rows of the left query that are among those of the right one.
    pub fn intersect<L, R>(&mut self, all: bool, left: L, right: R) -> (res: Result<
        LogicalPlan,
        DatabaseError,
    >) where
        L: FnOnce(&mut OrmContext<'a>) -> Result<LogicalPlan, DatabaseError>,
        R: FnOnce(&mut OrmContext<'a>) -> Result<LogicalPlan, DatabaseError>,

        requires
            old(self).known(),
            forall|c: &mut OrmContext<'a>| c.known() ==> #[trigger] call_requires(left, (c,)),
            forall|c: &mut OrmContext<'a>, r: Result<LogicalPlan, DatabaseError>|
                c.known() && #[trigger] call_ensures(left, (c,), r) ==> final(c).known()
                    && c@.extended_by(final(c)@) && (r matches Ok(plan) ==> bound(
                    plan@,
                    final(c)@.arena,
                )),
            forall|c: &mut OrmContext<'a>| c.known() ==> #[trigger] call_requires(right, (c,)),
            forall|c: &mut OrmContext<'a>, r: Result<LogicalPlan, DatabaseError>|
                c.known() && #[trigger] call_ensures(right, (c,), r) ==> final(c).known()
                    && c@.extended_by(final(c)@) && (r matches Ok(plan) ==> bound(
                    plan@,
                    final(c)@.arena,
                )),
        ensures
            exists|l: &mut OrmContext<'a>, x: Result<LogicalPlan, DatabaseError>|
                {
                    &&& l@ == inner_scope(old(self)@, old(self)@.binder.outer)
                    &&& #[trigger] call_ensures(left, (l,), x)
                    &&& match x {
                        Err(err) => (res matches Err(e) && e == err) && final(self)@ == beside(
                            old(self)@,
                            final(l)@,
                            false,
                        ),
                        Ok(left_plan) => exists|r: &mut OrmContext<'a>, y: Result<
                            LogicalPlan,
                            DatabaseError,
                        >|
                            {
                                &&& r@ == inner_scope(
                                    beside(old(self)@, final(l)@, true),
                                    old(self)@.binder.outer,
                                )
                                &&& #[trigger] call_ensures(right, (r,), y)
                                &&& match y {
                                    Err(err) => (res matches Err(e) && e == err) && final(self)@
                                        == beside(
                                        beside(old(self)@, final(l)@, true),
                                        final(r)@,
                                        false,
                                    ),
                                    Ok(right_plan) => set_bound(
                                        beside(
                                            beside(old(self)@, final(l)@, true),
                                            final(r)@,
                                            true,
                                        ),
                                        SetOperatorKind::Intersect,
                                        all,
                                        left_plan@,
                                        right_plan@,
                                        final(self)@,
                                        match res {
                                            Ok(plan) => Ok(plan@),
                                            Err(err) => Err(err),
                                        },
                                    ),
                                }
                            },
                    }
                },
            res matches Ok(plan) ==> bound(plan@, final(self)@.arena),
            final(self).known(),
            old(self)@.extended_by(final(self)@),
    {
        self.set_operation(SetOperatorKind::Intersect, all, left, right)
    }

    fn insert_select_inner<M: Model, F>(&mut self, columns: Vec<String>, overwrite: bool,
        build: F) -> (res: Result<
        LogicalPlan,
        DatabaseError,
    >) where F: FnOnce(&mut OrmContext<'a>) -> Result<LogicalPlan, DatabaseError>
        requires
            old(self).known(),
            forall|c: &mut OrmContext<'a>| c.known() ==> #[trigger] call_requires(build, (c,)),
            forall|c: &mut OrmContext<'a>, r: Result<LogicalPlan, DatabaseError>|
                c.known() && #[trigger] call_ensures(build, (c,), r) ==> final(c).known()
                    && c@.extended_by(final(c)@) && (r matches Ok(plan) ==> bound(
                    plan@,
                    final(c)@.arena,
                )),
        ensures
            exists|c: &mut OrmContext<'a>, r: Result<LogicalPlan, DatabaseError>|
                {
                    &&& c@ == inner_scope(old(self)@, old(self)@.binder.outer)
                    &&& #[trigger] call_ensures(build, (c,), r)
                    &&& match r {
                        Err(err) => (res matches Err(e) && e == err) && final(self)@ == beside(
                            old(self)@,
                            final(c)@,
                            false,
                        ),
                        Ok(plan) => inserted(
                            beside(old(self)@, final(c)@, true),
                            M::table(),
                            columns@,
                            plan@,
                            overwrite,
                            final(self)@,
                            res,
                        ),
                    }
                },
            final(self).known(),
            old(self)@.extended_by(final(self)@),
    {
        let input_plan = match self.child_plan(build) {
            Ok(plan) => plan,
            Err(err) => {
                return Err(err);
            },
        };
        let ghost middle = self@;
        let res = bind_orm_insert_plan(
            &mut self.scope,
            M::table_name(),
            columns,
            input_plan,
            overwrite,
        );
        proof {
            lemma_extended_trans(old(self)@.arena, middle.arena, self@.arena);
        }
        res
    }

    /// Writes the rows of a query to the table of a model.
    pub fn insert_select<M: Model, F>(&mut self, columns: Vec<String>, build: F) -> (res: Result<
        LogicalPlan,
        DatabaseError,
    >) where F: FnOnce(&mut OrmContext<'a>) -> Result<LogicalPlan, DatabaseError>
        requires
            old(self).known(),
            forall|c: &mut OrmContext<'a>| c.known() ==> #[trigger] call_requires(build, (c,)),
            forall|c: &mut OrmContext<'a>, r: Result<LogicalPlan, DatabaseError>|
                c.known() && #[trigger] call_ensures(build, (c,), r) ==> final(c).known()
                    && c@.extended_by(final(c)@) && (r matches Ok(plan) ==> bound(
                    plan@,
                    final(c)@.arena,
                )),
        ensures
            exists|c: &mut OrmContext<'a>, r: Result<LogicalPlan, DatabaseError>|
                {
                    &&& c@ == inner_scope(old(self)@, old(self)@.binder.outer)
                    &&& #[trigger] call_ensures(build, (c,), r)
                    &&& match r {
                        Err(err) => (res matches Err(e) && e == err) && final(self)@ == beside(
                            old(self)@,
                            final(c)@,
                            false,
                        ),
                        Ok(plan) => inserted(
                            beside(old(self)@, final(c)@, true),
                            M::table(),
                            columns@,
                            plan@,
                            false,
                            final(self)@,
                            res,
                        ),
                    }
                },
            final(self).known(),
            old(self)@.extended_by(final(self)@),
    {
        self.insert_select_inner::<M, F>(columns, false, build)
    }

    /// Writes the rows of a query to the table of a model, over rows with the same keys.
    pub fn overwrite_select<M: Model, F>(&mut self, columns: Vec<String>, build: F) -> (res: Result<
        LogicalPlan,
        DatabaseError,
    >) where F: FnOnce(&mut OrmContext<'a>) -> Result<LogicalPlan, DatabaseError>
        requires
            old(self).known(),
            forall|c: &mut OrmContext<'a>| c.known() ==> #[trigger] call_requires(build, (c,)),
            forall|c: &mut OrmContext<'a>, r: Result<LogicalPlan, DatabaseError>|
                c.known() && #[trigger] call_ensures(build, (c,), r) ==> final(c).known()
                    && c@.extended_by(final(c)@) && (r matches Ok(plan) ==> bound(
                    plan@,
                    final(c)@.arena,
                )),
        ensures
            exists|c: &mut OrmContext<'a>, r: Result<LogicalPlan, DatabaseError>|
                {
                    &&& c@ == inner_scope(old(self)@, old(self)@.binder.outer)
                    &&& #[trigger] call_ensures(build, (c,), r)
                    &&& match r {
                        Err(err) => (res matches Err(e) && e == err) && final(self)@ == beside(
                            old(self)@,
                            final(c)@,
                            false,
                        ),
                        Ok(plan) => inserted(
                            beside(old(self)@, final(c)@, true),
                            M::table(),
                            columns@,
                            plan@,
                            true,
                            final(self)@,
                            res,
                        ),
                    }
                },
            final(self).known(),
            old(self)@.extended_by(final(self)@),
    {
        self.insert_select_inner::<M, F>(columns, true, build)
    }

    /// Removes all rows of the table of a model.
    pub fn truncate<M: Model>(&mut self) -> (res: Result<LogicalPlan, DatabaseError>)
        requires
            old(self).known(),
        ensures
            res matches Ok(plan) && (plan.operator matches Operator::Truncate(op) && op.table_name@
                == M::table()) && plan@ == leaf(OperatorView::Plain(plan.operator)) && bound(
                plan@,
                old(self)@.arena,
            ),
            *final(self) == *old(self),
    {
        let plan = self.scope.binder.bind_truncate(M::table_name().to_string());
        Ok(plan)
    }
}

impl<'a> ExprBindScope<'a> {
    fn inside<F>(&mut self, build: F) -> (res: Result<LogicalPlan, DatabaseError>) where
        F: FnOnce(&mut OrmContext<'a>) -> Result<LogicalPlan, DatabaseError>,

        requires
            old(self).known(),
            forall|c: &mut OrmContext<'a>| c.known() ==> #[trigger] call_requires(build, (c,)),
            forall|c: &mut OrmContext<'a>, r: Result<LogicalPlan, DatabaseError>|
                c.known() && #[trigger] call_ensures(build, (c,), r) ==> final(c).known()
                    && c@.extended_by(final(c)@) && (r matches Ok(plan) ==> bound(
                    plan@,
                    final(c)@.arena,
                )),
        ensures
            exists|c: &mut OrmContext<'a>, r: Result<LogicalPlan, DatabaseError>|
                {
                    &&& c@ == inner_scope(old(self)@, visible(old(self)@))
                    &&& #[trigger] call_ensures(build, (c,), r)
                    &&& final(self)@ == around(old(self)@, final(c)@, r is Ok)
                    &&& res == r
                },
            res matches Ok(plan) ==> bound(plan@, final(self)@.arena),
            final(self).known(),
            old(self)@.extended_by(final(self)@),
    {
        let ghost before = self@;
        let outer = copy_sources(&self.binder.sources, &self.binder.outer);
        proof {
            assert(source_views(outer@) =~= visible(before));
            assert forall|i: int| 0 <= i < visible(before).len() implies before.arena.has_columns(
                (#[trigger] visible(before)[i]).columns,
            ) by {
                if i < before.binder.sources.len() {
                    assert(visible(before)[i] == before.binder.sources[i]);
                } else {
                    assert(visible(before)[i] == before.binder.outer[i
                        - before.binder.sources.len()]);
                }
            }
        }
        match run_inner(self, outer, build) {
            Ok((plan, outer_refs)) => {
                let ghost ran = self@;
                if outer_refs && self.binder.outer.len() > 0 {
                    self.binder.outer_refs = true;
                    assert(self@.binder == BinderView { outer_refs: true, ..ran.binder });
                }
                Ok(plan)
            },
            Err(err) => Err(err),
        }
    }

    fn next_position(&self) -> (res: usize)
        ensures
            res == next_position(self@),
    {
        let ghost views = self@.binder.sources;
        let mut total: usize = 0;
        let mut i: usize = 0;
        while i < self.binder.sources.len()
            invariant
                i <= self.binder.sources.len(),
                views == source_views(self.binder.sources@),
                width(views, i as int) >= 0,
                total == capped(width(views, i as int)),
            decreases self.binder.sources.len() - i,
        {
            assert(views[i as int] == self.binder.sources@[i as int]@);
            let count: usize = self.binder.sources[i].columns.len();
            total = if count <= usize::MAX - total {
                total + count
            } else {
                usize::MAX
            };
            i += 1;
            assert(width(views, i as int) == width(views, i - 1) + views[i - 1].columns.len());
        }
        let count: usize = self.binder.pending.len();
        if count <= usize::MAX - total {
            total + count
        } else {
            usize::MAX
        }
    }

    /// Notes a subquery, and returns the node that reads its value.
    fn wait_for(&mut self, kind: SubQueryKind, plan: LogicalPlan, column: ColumnRef) -> (res:
        CtxExpression)
        requires
            old(self).known(),
            bound(plan@, old(self)@.arena),
            old(self)@.arena.has_column(column),
            kind matches SubQueryKind::Quantified(_, predicate) ==> old(self)@.arena.has_expr(
                predicate,
            ),
        ensures
            ({
                let (expr, read) = alloc_view(
                    old(self)@,
                    column_view(column, next_position(old(self)@)),
                );
                res == expr && final(self)@ == waiting(
                    read,
                    SubQueryView { kind, plan: plan@, column },
                )
            }),
            final(self).known(),
            old(self)@.extended_by(final(self)@),
            final(self)@.arena.has_expr(res.expr),
    {
        let ghost before = self@;
        let position = self.next_position();
        let expr = self.bind(
            OrmExpression::Unbound(
                ScalarExpression::column_expr(column, position),
            ),
        );
        let ghost read = self@;
        proof {
            lemma_bound_extended(plan@, before.arena, read.arena);
        }
        let sub = SubQuery { kind, plan, column };
        assert(sub_known(sub@, read.arena));
        self.binder.pending.push(sub);
        proof {
            assert(self@.binder.pending =~= read.binder.pending.push(sub@));
            assert(self@.binder == BinderView {
                pending: read.binder.pending.push(sub@),
                ..read.binder
            });
        }
        CtxExpression { expr, marker: PhantomData }
    }

    fn negate(&mut self, expr: CtxExpression, negated: bool) -> (res: CtxExpression)
        requires
            old(self).known(),
            old(self)@.arena.has_expr(expr.expr),
        ensures
            (res, final(self)@) == negated_view(old(self)@, expr, negated),
            final(self).known(),
            old(self)@.extended_by(final(self)@),
            final(self)@.arena.has_expr(res.expr),
    {
        if negated {
            let node = ScalarExpression::Unary {
                op: UnaryOperator::Not,
                expr: expr.expr,
                evaluator: None,
                ty: LogicalType::Boolean,
            };
            assert(node@.children =~= seq![expr.expr]);
            assert(node@ == unary_view(
                UnaryOperator::Not,
                expr.expr,
                LogicalTypeView::Plain(LogicalType::Boolean),
            ));
            let expr = self.bind(OrmExpression::Unbound(node));
            CtxExpression { expr, marker: PhantomData }
        } else {
            expr
        }
    }

    fn mark(&mut self, name: &str) -> (res: ColumnRef)
        requires
            old(self).known(),
        ensures
            (res, final(self)@) == marked(old(self)@, name@),
            final(self).known(),
            old(self)@.extended_by(final(self)@),
            final(self)@.arena.has_column(res),
    {
        let ghost before = self@;
        let desc = match ColumnDesc::new(LogicalType::Boolean, None, false, None) {
            Ok(desc) => desc,
            Err(_) => {
                assert(false);
                ColumnDesc { column_datatype: LogicalType::Boolean, primary: None, unique: false,
                    default: None }
            },
        };
        let column = ColumnCatalog::new(name.to_string(), true, desc);
        assert(column@ == mark_column(name@));
        let res = self.arena.alloc_column(column);
        proof {
            lemma_known_extended(self.binder@, before.arena, self@.arena);
        }
        res
    }

    /// The only value of a query.
    pub fn scalar_subquery<F>(&mut self,
        build: F) -> (res: Result<CtxExpression, DatabaseError>) where
        F: FnOnce(&mut OrmContext<'a>) -> Result<LogicalPlan, DatabaseError>,

        requires
            old(self).known(),
            forall|c: &mut OrmContext<'a>| c.known() ==> #[trigger] call_requires(build, (c,)),
            forall|c: &mut OrmContext<'a>, r: Result<LogicalPlan, DatabaseError>|
                c.known() && #[trigger] call_ensures(build, (c,), r) ==> final(c).known()
                    && c@.extended_by(final(c)@) && (r matches Ok(plan) ==> bound(
                    plan@,
                    final(c)@.arena,
                )),
        ensures
            exists|c: &mut OrmContext<'a>, r: Result<LogicalPlan, DatabaseError>|
                {
                    &&& c@ == inner_scope(old(self)@, visible(old(self)@))
                    &&& #[trigger] call_ensures(build, (c,), r)
                    &&& match r {
                        Err(err) => (res matches Err(e) && e == err) && final(self)@ == around(
                            old(self)@,
                            final(c)@,
                            false,
                        ),
                        Ok(plan) => scalar_bound(
                            around(old(self)@, final(c)@, true),
                            plan@,
                            final(self)@,
                            res,
                        ),
                    }
                },
            final(self).known(),
            old(self)@.extended_by(final(self)@),
            res matches Ok(ctx) ==> final(self)@.arena.has_expr(ctx.expr),
    {
        let ghost start = self@;
        let mut plan = match self.inside(build) {
            Ok(plan) => plan,
            Err(err) => {
                return Err(err);
            },
        };
        let ghost first = self@;
        proof {
            lemma_shaped_ready(plan@);
            lemma_output_shape(plan@, first.arena);
        }
        let row = clone_schema(plan.output_schema(&mut self.arena));
        let ghost second = self@;
        proof {
            lemma_extended_trans(start.arena, first.arena, second.arena);
            lemma_known_extended(self.binder@, first.arena, second.arena);
        }
        if row.len() != 1 {
            return Err(
                DatabaseError::MisMatch(
                    "expects only one expression to be returned",
                    "the expression returned by the subquery",
                ),
            );
        }
        assert(second.arena.has_column(row@[0]));
        let res = self.wait_for(SubQueryKind::Scalar, plan, row[0]);
        proof {
            lemma_extended_trans(start.arena, second.arena, self@.arena);
        }
        Ok(res)
    }

    /// Whether a query has rows, or whether it has none.
    pub fn exists_subquery<F>(&mut self, negated: bool, build: F) -> (res: Result<
        CtxExpression,
        DatabaseError,
    >) where F: FnOnce(&mut OrmContext<'a>) -> Result<LogicalPlan, DatabaseError>
        requires
            old(self).known(),
            forall|c: &mut OrmContext<'a>| c.known() ==> #[trigger] call_requires(build, (c,)),
            forall|c: &mut OrmContext<'a>, r: Result<LogicalPlan, DatabaseError>|
                c.known() && #[trigger] call_ensures(build, (c,), r) ==> final(c).known()
                    && c@.extended_by(final(c)@) && (r matches Ok(plan) ==> bound(
                    plan@,
                    final(c)@.arena,
                )),
        ensures
            exists|c: &mut OrmContext<'a>, r: Result<LogicalPlan, DatabaseError>|
                {
                    &&& c@ == inner_scope(old(self)@, visible(old(self)@))
                    &&& #[trigger] call_ensures(build, (c,), r)
                    &&& match r {
                        Err(err) => (res matches Err(e) && e == err) && final(self)@ == around(
                            old(self)@,
                            final(c)@,
                            false,
                        ),
                        Ok(plan) => {
                            let (expr, scope) = exists_bound(
                                around(old(self)@, final(c)@, true),
                                plan@,
                                negated,
                            );
                            res == Ok::<CtxExpression, DatabaseError>(expr) && final(self)@ == scope
                        },
                    }
                },
            final(self).known(),
            old(self)@.extended_by(final(self)@),
            res matches Ok(ctx) ==> final(self)@.arena.has_expr(ctx.expr),
    {
        let ghost start = self@;
        let plan = match self.inside(build) {
            Ok(plan) => plan,
            Err(err) => {
                return Err(err);
            },
        };
        let ghost first = self@;
        let column = self.mark("exists");
        let ghost second = self@;
        proof {
            lemma_bound_extended(plan@, first.arena, second.arena);
        }
        let expr = self.wait_for(SubQueryKind::Exists, plan, column);
        let ghost third = self@;
        let res = self.negate(expr, negated);
        proof {
            lemma_extended_trans(start.arena, first.arena, second.arena);
            lemma_extended_trans(start.arena, second.arena, third.arena);
            lemma_extended_trans(start.arena, third.arena, self@.arena);
        }
        Ok(res)
    }

    /// Compares a value with the rows of a bound query.
    fn compare_rows(
        &mut self,
        quantifier: MarkApplyQuantifier,
        negated: bool,
        left_expr: ExprRef,
        compare_op: BinaryOperator,
        plan: LogicalPlan,
    ) -> (res: Result<CtxExpression, DatabaseError>)
        requires
            old(self).known(),
            old(self)@.arena.has_expr(left_expr),
            bound(plan@, old(self)@.arena),
        ensures
            quantified_bound(
                old(self)@,
                left_expr,
                compare_op,
                quantifier,
                negated,
                plan@,
                final(self)@,
                res,
            ),
            final(self).known(),
            old(self)@.extended_by(final(self)@),
            res matches Ok(ctx) ==> final(self)@.arena.has_expr(ctx.expr),
    {
        let ghost start = self@;
        let mut plan = plan;
        proof {
            lemma_shaped_ready(plan@);
            lemma_output_shape(plan@, start.arena);
        }
        let row = clone_schema(plan.output_schema(&mut self.arena));
        let ghost first = self@;
        proof {
            lemma_known_extended(self.binder@, start.arena, first.arena);
        }
        if row.len() != 1 {
            return Err(
                DatabaseError::MisMatch(
                    "expects only one expression to be returned",
                    "the expression returned by the subquery",
                ),
            );
        }
        assert(first.arena.has_column(row@[0]));
        let position = self.next_position();
        let value = self.bind(
            OrmExpression::Unbound(ScalarExpression::column_expr(row[0], position)),
        );
        let ghost second = self@;
        assert((CtxExpression { expr: value, marker: PhantomData }, second) == alloc_view(
            first,
            column_view(row@[0], next_position(first)),
        ));
        let compared = self.binary(left_expr, compare_op, value);
        let ghost third = self@;
        assert(binary_bound(
            second,
            OrmView::Bound(left_expr),
            compare_op,
            OrmView::Bound(value),
            third,
            compared,
        ));
        proof {
            lemma_extended_trans(start.arena, first.arena, second.arena);
            lemma_extended_trans(start.arena, second.arena, third.arena);
            lemma_extended_trans(first.arena, second.arena, third.arena);
        }
        let predicate = match compared {
            Ok(predicate) => predicate,
            Err(err) => {
                return Err(err);
            },
        };
        let column = self.mark("quantified");
        let ghost fourth = self@;
        proof {
            lemma_extended_trans(start.arena, third.arena, fourth.arena);
            lemma_extended_trans(first.arena, third.arena, fourth.arena);
            lemma_bound_extended(plan@, first.arena, fourth.arena);
        }
        let expr = self.wait_for(
            SubQueryKind::Quantified(quantifier, predicate.expr),
            plan,
            column,
        );
        let ghost fifth = self@;
        let res = self.negate(expr, negated);
        proof {
            lemma_extended_trans(start.arena, fourth.arena, fifth.arena);
            lemma_extended_trans(start.arena, fifth.arena, self@.arena);
        }
        Ok(res)
    }

    fn quantified_subquery<F>(
        &mut self,
        quantifier: MarkApplyQuantifier,
        negated: bool,
        left_expr: ExprRef,
        compare_op: BinaryOperator,
        build: F,
    ) -> (res: Result<CtxExpression, DatabaseError>) where
        F: FnOnce(&mut OrmContext<'a>) -> Result<LogicalPlan, DatabaseError>,

        requires
            old(self).known(),
            old(self)@.arena.has_expr(left_expr),
            forall|c: &mut OrmContext<'a>| c.known() ==> #[trigger] call_requires(build, (c,)),
            forall|c: &mut OrmContext<'a>, r: Result<LogicalPlan, DatabaseError>|
                c.known() && #[trigger] call_ensures(build, (c,), r) ==> final(c).known()
                    && c@.extended_by(final(c)@) && (r matches Ok(plan) ==> bound(
                    plan@,
                    final(c)@.arena,
                )),
        ensures
            exists|c: &mut OrmContext<'a>, r: Result<LogicalPlan, DatabaseError>|
                {
                    &&& c@ == inner_scope(old(self)@, visible(old(self)@))
                    &&& #[trigger] call_ensures(build, (c,), r)
                    &&& match r {
                        Err(err) => (res matches Err(e) && e == err) && final(self)@ == around(
                            old(self)@,
                            final(c)@,
                            false,
                        ),
                        Ok(plan) => quantified_bound(
                            around(old(self)@, final(c)@, true),
                            left_expr,
                            compare_op,
                            quantifier,
                            negated,
                            plan@,
                            final(self)@,
                            res,
                        ),
                    }
                },
            final(self).known(),
            old(self)@.extended_by(final(self)@),
            res matches Ok(ctx) ==> final(self)@.arena.has_expr(ctx.expr),
    {
        let ghost start = self@;
        let plan = match self.inside(build) {
            Ok(plan) => plan,
            Err(err) => {
                return Err(err);
            },
        };
        let ghost first = self@;
        let res = self.compare_rows(quantifier, negated, left_expr, compare_op, plan);
        proof {
            lemma_extended_trans(start.arena, first.arena, self@.arena);
        }
        res
    }
}

impl CtxExpression {
    /// Whether the value equals some row of the query.
    pub fn eq_any<'a, F>(self, build: F, scope: &mut ExprBindScope<'a>) -> (res: Result<
        Self,
        DatabaseError,
    >) where F: FnOnce(&mut OrmContext<'a>) -> Result<LogicalPlan, DatabaseError>
        requires
            old(scope).known(),
            old(scope)@.arena.has_expr(self.expr),
            forall|c: &mut OrmContext<'a>| c.known() ==> #[trigger] call_requires(build, (c,)),
            forall|c: &mut OrmContext<'a>, r: Result<LogicalPlan, DatabaseError>|
                c.known() && #[trigger] call_ensures(build, (c,), r) ==> final(c).known()
                    && c@.extended_by(final(c)@) && (r matches Ok(plan) ==> bound(
                    plan@,
                    final(c)@.arena,
                )),
        ensures
            exists|c: &mut OrmContext<'a>, r: Result<LogicalPlan, DatabaseError>|
                {
                    &&& c@ == inner_scope(old(scope)@, visible(old(scope)@))
                    &&& #[trigger] call_ensures(build, (c,), r)
                    &&& match r {
                        Err(err) => (res matches Err(e) && e == err) && final(scope)@ == around(
                            old(scope)@,
                            final(c)@,
                            false,
                        ),
                        Ok(plan) => quantified_bound(
                            around(old(scope)@, final(c)@, true),
                            self.expr,
                            BinaryOperator::Eq,
                            MarkApplyQuantifier::Any,
                            false,
                            plan@,
                            final(scope)@,
                            res,
                        ),
                    }
                },
            final(scope).known(),
            old(scope)@.extended_by(final(scope)@),
            res matches Ok(ctx) ==> final(scope)@.arena.has_expr(ctx.expr),
    {
        scope.quantified_subquery(
            MarkApplyQuantifier::Any,
            false,
            self.expr,
            BinaryOperator::Eq,
            build,
        )
    }

    /// Whether the value equals every row of the query.
    pub fn eq_all<'a, F>(self, build: F, scope: &mut ExprBindScope<'a>) -> (res: Result<
        Self,
        DatabaseError,
    >) where F: FnOnce(&mut OrmContext<'a>) -> Result<LogicalPlan, DatabaseError>
        requires
            old(scope).known(),
            old(scope)@.arena.has_expr(self.expr),
            forall|c: &mut OrmContext<'a>| c.known() ==> #[trigger] call_requires(build, (c,)),
            forall|c: &mut OrmContext<'a>, r: Result<LogicalPlan, DatabaseError>|
                c.known() && #[trigger] call_ensures(build, (c,), r) ==> final(c).known()
                    && c@.extended_by(final(c)@) && (r matches Ok(plan) ==> bound(
                    plan@,
                    final(c)@.arena,
                )),
        ensures
            exists|c: &mut OrmContext<'a>, r: Result<LogicalPlan, DatabaseError>|
                {
                    &&& c@ == inner_scope(old(scope)@, visible(old(scope)@))
                    &&& #[trigger] call_ensures(build, (c,), r)
                    &&& match r {
                        Err(err) => (res matches Err(e) && e == err) && final(scope)@ == around(
                            old(scope)@,
                            final(c)@,
                            false,
                        ),
                        Ok(plan) => quantified_bound(
                            around(old(scope)@, final(c)@, true),
                            self.expr,
                            BinaryOperator::Eq,
                            MarkApplyQuantifier::All,
                            false,
                            plan@,
                            final(scope)@,
                            res,
                        ),
                    }
                },
            final(scope).known(),
            old(scope)@.extended_by(final(scope)@),
            res matches Ok(ctx) ==> final(scope)@.arena.has_expr(ctx.expr),
    {
        scope.quantified_subquery(
            MarkApplyQuantifier::All,
            false,
            self.expr,
            BinaryOperator::Eq,
            build,
        )
    }

    /// Whether the value is greater than some row of the query.
    pub fn gt_any<'a, F>(self, build: F, scope: &mut ExprBindScope<'a>) -> (res: Result<
        Self,
        DatabaseError,
    >) where F: FnOnce(&mut OrmContext<'a>) -> Result<LogicalPlan, DatabaseError>
        requires
            old(scope).known(),
            old(scope)@.arena.has_expr(self.expr),
            forall|c: &mut OrmContext<'a>| c.known() ==> #[trigger] call_requires(build, (c,)),
            forall|c: &mut OrmContext<'a>, r: Result<LogicalPlan, DatabaseError>|
                c.known() && #[trigger] call_ensures(build, (c,), r) ==> final(c).known()
                    && c@.extended_by(final(c)@) && (r matches Ok(plan) ==> bound(
                    plan@,
                    final(c)@.arena,
                )),
        ensures
            exists|c: &mut OrmContext<'a>, r: Result<LogicalPlan, DatabaseError>|
                {
                    &&& c@ == inner_scope(old(scope)@, visible(old(scope)@))
                    &&& #[trigger] call_ensures(build, (c,), r)
                    &&& match r {
                        Err(err) => (res matches Err(e) && e == err) && final(scope)@ == around(
                            old(scope)@,
                            final(c)@,
                            false,
                        ),
                        Ok(plan) => quantified_bound(
                            around(old(scope)@, final(c)@, true),
                            self.expr,
                            BinaryOperator::Gt,
                            MarkApplyQuantifier::Any,
                            false,
                            plan@,
                            final(scope)@,
                            res,
                        ),
                    }
                },
            final(scope).known(),
            old(scope)@.extended_by(final(scope)@),
            res matches Ok(ctx) ==> final(scope)@.arena.has_expr(ctx.expr),
    {
        scope.quantified_subquery(
            MarkApplyQuantifier::Any,
            false,
            self.expr,
            BinaryOperator::Gt,
            build,
        )
    }

    /// Whether the value is greater than every row of the query.
    pub fn gt_all<'a, F>(self, build: F, scope: &mut ExprBindScope<'a>) -> (res: Result<
        Self,
        DatabaseError,
    >) where F: FnOnce(&mut OrmContext<'a>) -> Result<LogicalPlan, DatabaseError>
        requires
            old(scope).known(),
            old(scope)@.arena.has_expr(self.expr),
            forall|c: &mut OrmContext<'a>| c.known() ==> #[trigger] call_requires(build, (c,)),
            forall|c: &mut OrmContext<'a>, r: Result<LogicalPlan, DatabaseError>|
                c.known() && #[trigger] call_ensures(build, (c,), r) ==> final(c).known()
                    && c@.extended_by(final(c)@) && (r matches Ok(plan) ==> bound(
                    plan@,
                    final(c)@.arena,
                )),
        ensures
            exists|c: &mut OrmContext<'a>, r: Result<LogicalPlan, DatabaseError>|
                {
                    &&& c@ == inner_scope(old(scope)@, visible(old(scope)@))
                    &&& #[trigger] call_ensures(build, (c,), r)
                    &&& match r {
                        Err(err) => (res matches Err(e) && e == err) && final(scope)@ == around(
                            old(scope)@,
                            final(c)@,
                            false,
                        ),
                        Ok(plan) => quantified_bound(
                            around(old(scope)@, final(c)@, true),
                            self.expr,
                            BinaryOperator::Gt,
                            MarkApplyQuantifier::All,
                            false,
                            plan@,
                            final(scope)@,
                            res,
                        ),
                    }
                },
            final(scope).known(),
            old(scope)@.extended_by(final(scope)@),
            res matches Ok(ctx) ==> final(scope)@.arena.has_expr(ctx.expr),
    {
        scope.quantified_subquery(
            MarkApplyQuantifier::All,
            false,
            self.expr,
            BinaryOperator::Gt,
            build,
        )
    }

    /// Whether the value is not less than some row of the query.
    pub fn gte_any<'a, F>(self, build: F, scope: &mut ExprBindScope<'a>) -> (res: Result<
        Self,
        DatabaseError,
    >) where F: FnOnce(&mut OrmContext<'a>) -> Result<LogicalPlan, DatabaseError>
        requires
            old(scope).known(),
            old(scope)@.arena.has_expr(self.expr),
            forall|c: &mut OrmContext<'a>| c.known() ==> #[trigger] call_requires(build, (c,)),
            forall|c: &mut OrmContext<'a>, r: Result<LogicalPlan, DatabaseError>|
                c.known() && #[trigger] call_ensures(build, (c,), r) ==> final(c).known()
                    && c@.extended_by(final(c)@) && (r matches Ok(plan) ==> bound(
                    plan@,
                    final(c)@.arena,
                )),
        ensures
            exists|c: &mut OrmContext<'a>, r: Result<LogicalPlan, DatabaseError>|
                {
                    &&& c@ == inner_scope(old(scope)@, visible(old(scope)@))
                    &&& #[trigger] call_ensures(build, (c,), r)
                    &&& match r {
                        Err(err) => (res matches Err(e) && e == err) && final(scope)@ == around(
                            old(scope)@,
                            final(c)@,
                            false,
                        ),
                        Ok(plan) => quantified_bound(
                            around(old(scope)@, final(c)@, true),
                            self.expr,
                            BinaryOperator::GtEq,
                            MarkApplyQuantifier::Any,
                            false,
                            plan@,
                            final(scope)@,
                            res,
                        ),
                    }
                },
            final(scope).known(),
            old(scope)@.extended_by(final(scope)@),
            res matches Ok(ctx) ==> final(scope)@.arena.has_expr(ctx.expr),
    {
        scope.quantified_subquery(
            MarkApplyQuantifier::Any,
            false,
            self.expr,
            BinaryOperator::GtEq,
            build,
        )
    }

    /// Whether the value is not less than any row of the query.
    pub fn gte_all<'a, F>(self, build: F, scope: &mut ExprBindScope<'a>) -> (res: Result<
        Self,
        DatabaseError,
    >) where F: FnOnce(&mut OrmContext<'a>) -> Result<LogicalPlan, DatabaseError>
        requires
            old(scope).known(),
            old(scope)@.arena.has_expr(self.expr),
            forall|c: &mut OrmContext<'a>| c.known() ==> #[trigger] call_requires(build, (c,)),
            forall|c: &mut OrmContext<'a>, r: Result<LogicalPlan, DatabaseError>|
                c.known() && #[trigger] call_ensures(build, (c,), r) ==> final(c).known()
                    && c@.extended_by(final(c)@) && (r matches Ok(plan) ==> bound(
                    plan@,
                    final(c)@.arena,
                )),
        ensures
            exists|c: &mut OrmContext<'a>, r: Result<LogicalPlan, DatabaseError>|
                {
                    &&& c@ == inner_scope(old(scope)@, visible(old(scope)@))
                    &&& #[trigger] call_ensures(build, (c,), r)
                    &&& match r {
                        Err(err) => (res matches Err(e) && e == err) && final(scope)@ == around(
                            old(scope)@,
                            final(c)@,
                            false,
                        ),
                        Ok(plan) => quantified_bound(
                            around(old(scope)@, final(c)@, true),
                            self.expr,
                            BinaryOperator::GtEq,
                            MarkApplyQuantifier::All,
                            false,
                            plan@,
                            final(scope)@,
                            res,
                        ),
                    }
                },
            final(scope).known(),
            old(scope)@.extended_by(final(scope)@),
            res matches Ok(ctx) ==> final(scope)@.arena.has_expr(ctx.expr),
    {
        scope.quantified_subquery(
            MarkApplyQuantifier::All,
            false,
            self.expr,
            BinaryOperator::GtEq,
            build,
        )
    }

    /// Whether the value is less than some row of the query.
    pub fn lt_any<'a, F>(self, build: F, scope: &mut ExprBindScope<'a>) -> (res: Result<
        Self,
        DatabaseError,
    >) where F: FnOnce(&mut OrmContext<'a>) -> Result<LogicalPlan, DatabaseError>
        requires
            old(scope).known(),
            old(scope)@.arena.has_expr(self.expr),
            forall|c: &mut OrmContext<'a>| c.known() ==> #[trigger] call_requires(build, (c,)),
            forall|c: &mut OrmContext<'a>, r: Result<LogicalPlan, DatabaseError>|
                c.known() && #[trigger] call_ensures(build, (c,), r) ==> final(c).known()
                    && c@.extended_by(final(c)@) && (r matches Ok(plan) ==> bound(
                    plan@,
                    final(c)@.arena,
                )),
        ensures
            exists|c: &mut OrmContext<'a>, r: Result<LogicalPlan, DatabaseError>|
                {
                    &&& c@ == inner_scope(old(scope)@, visible(old(scope)@))
                    &&& #[trigger] call_ensures(build, (c,), r)
                    &&& match r {
                        Err(err) => (res matches Err(e) && e == err) && final(scope)@ == around(
                            old(scope)@,
                            final(c)@,
                            false,
                        ),
                        Ok(plan) => quantified_bound(
                            around(old(scope)@, final(c)@, true),
                            self.expr,
                            BinaryOperator::Lt,
                            MarkApplyQuantifier::Any,
                            false,
                            plan@,
                            final(scope)@,
                            res,
                        ),
                    }
                },
            final(scope).known(),
            old(scope)@.extended_by(final(scope)@),
            res matches Ok(ctx) ==> final(scope)@.arena.has_expr(ctx.expr),
    {
        scope.quantified_subquery(
            MarkApplyQuantifier::Any,
            false,
            self.expr,
            BinaryOperator::Lt,
            build,
        )
    }

    /// Whether the value is less than every row of the query.
    pub fn lt_all<'a, F>(self, build: F, scope: &mut ExprBindScope<'a>) -> (res: Result<
        Self,
        DatabaseError,
    >) where F: FnOnce(&mut OrmContext<'a>) -> Result<LogicalPlan, DatabaseError>
        requires
            old(scope).known(),
            old(scope)@.arena.has_expr(self.expr),
            forall|c: &mut OrmContext<'a>| c.known() ==> #[trigger] call_requires(build, (c,)),
            forall|c: &mut OrmContext<'a>, r: Result<LogicalPlan, DatabaseError>|
                c.known() && #[trigger] call_ensures(build, (c,), r) ==> final(c).known()
                    && c@.extended_by(final(c)@) && (r matches Ok(plan) ==> bound(
                    plan@,
                    final(c)@.arena,
                )),
        ensures
            exists|c: &mut OrmContext<'a>, r: Result<LogicalPlan, DatabaseError>|
                {
                    &&& c@ == inner_scope(old(scope)@, visible(old(scope)@))
                    &&& #[trigger] call_ensures(build, (c,), r)
                    &&& match r {
                        Err(err) => (res matches Err(e) && e == err) && final(scope)@ == around(
                            old(scope)@,
                            final(c)@,
                            false,
                        ),
                        Ok(plan) => quantified_bound(
                            around(old(scope)@, final(c)@, true),
                            self.expr,
                            BinaryOperator::Lt,
                            MarkApplyQuantifier::All,
                            false,
                            plan@,
                            final(scope)@,
                            res,
                        ),
                    }
                },
            final(scope).known(),
            old(scope)@.extended_by(final(scope)@),
            res matches Ok(ctx) ==> final(scope)@.arena.has_expr(ctx.expr),
    {
        scope.quantified_subquery(
            MarkApplyQuantifier::All,
            false,
            self.expr,
            BinaryOperator::Lt,
            build,
        )
    }

    /// Whether the value is not greater than some row of the query.
    pub fn lte_any<'a, F>(self, build: F, scope: &mut ExprBindScope<'a>) -> (res: Result<
        Self,
        DatabaseError,
    >) where F: FnOnce(&mut OrmContext<'a>) -> Result<LogicalPlan, DatabaseError>
        requires
            old(scope).known(),
            old(scope)@.arena.has_expr(self.expr),
            forall|c: &mut OrmContext<'a>| c.known() ==> #[trigger] call_requires(build, (c,)),
            forall|c: &mut OrmContext<'a>, r: Result<LogicalPlan, DatabaseError>|
                c.known() && #[trigger] call_ensures(build, (c,), r) ==> final(c).known()
                    && c@.extended_by(final(c)@) && (r matches Ok(plan) ==> bound(
                    plan@,
                    final(c)@.arena,
                )),
        ensures
            exists|c: &mut OrmContext<'a>, r: Result<LogicalPlan, DatabaseError>|
                {
                    &&& c@ == inner_scope(old(scope)@, visible(old(scope)@))
                    &&& #[trigger] call_ensures(build, (c,), r)
                    &&& match r {
                        Err(err) => (res matches Err(e) && e == err) && final(scope)@ == around(
                            old(scope)@,
                            final(c)@,
                            false,
                        ),
                        Ok(plan) => quantified_bound(
                            around(old(scope)@, final(c)@, true),
                            self.expr,
                            BinaryOperator::LtEq,
                            MarkApplyQuantifier::Any,
                            false,
                            plan@,
                            final(scope)@,
                            res,
                        ),
                    }
                },
            final(scope).known(),
            old(scope)@.extended_by(final(scope)@),
            res matches Ok(ctx) ==> final(scope)@.arena.has_expr(ctx.expr),
    {
        scope.quantified_subquery(
            MarkApplyQuantifier::Any,
            false,
            self.expr,
            BinaryOperator::LtEq,
            build,
        )
    }

    /// Whether the value is not greater than any row of the query.
    pub fn lte_all<'a, F>(self, build: F, scope: &mut ExprBindScope<'a>) -> (res: Result<
        Self,
        DatabaseError,
    >) where F: FnOnce(&mut OrmContext<'a>) -> Result<LogicalPlan, DatabaseError>
        requires
            old(scope).known(),
            old(scope)@.arena.has_expr(self.expr),
            forall|c: &mut OrmContext<'a>| c.known() ==> #[trigger] call_requires(build, (c,)),
            forall|c: &mut OrmContext<'a>, r: Result<LogicalPlan, DatabaseError>|
                c.known() && #[trigger] call_ensures(build, (c,), r) ==> final(c).known()
                    && c@.extended_by(final(c)@) && (r matches Ok(plan) ==> bound(
                    plan@,
                    final(c)@.arena,
                )),
        ensures
            exists|c: &mut OrmContext<'a>, r: Result<LogicalPlan, DatabaseError>|
                {
                    &&& c@ == inner_scope(old(scope)@, visible(old(scope)@))
                    &&& #[trigger] call_ensures(build, (c,), r)
                    &&& match r {
                        Err(err) => (res matches Err(e) && e == err) && final(scope)@ == around(
                            old(scope)@,
                            final(c)@,
                            false,
                        ),
                        Ok(plan) => quantified_bound(
                            around(old(scope)@, final(c)@, true),
                            self.expr,
                            BinaryOperator::LtEq,
                            MarkApplyQuantifier::All,
                            false,
                            plan@,
                            final(scope)@,
                            res,
                        ),
                    }
                },
            final(scope).known(),
            old(scope)@.extended_by(final(scope)@),
            res matches Ok(ctx) ==> final(scope)@.arena.has_expr(ctx.expr),
    {
        scope.quantified_subquery(
            MarkApplyQuantifier::All,
            false,
            self.expr,
            BinaryOperator::LtEq,
            build,
        )
    }

    /// Whether the value is among the rows of the query.
    pub fn in_subquery<'a, F>(self, build: F, scope: &mut ExprBindScope<'a>) -> (res: Result<
        Self,
        DatabaseError,
    >) where F: FnOnce(&mut OrmContext<'a>) -> Result<LogicalPlan, DatabaseError>
        requires
            old(scope).known(),
            old(scope)@.arena.has_expr(self.expr),
            forall|c: &mut OrmContext<'a>| c.known() ==> #[trigger] call_requires(build, (c,)),
            forall|c: &mut OrmContext<'a>, r: Result<LogicalPlan, DatabaseError>|
                c.known() && #[trigger] call_ensures(build, (c,), r) ==> final(c).known()
                    && c@.extended_by(final(c)@) && (r matches Ok(plan) ==> bound(
                    plan@,
                    final(c)@.arena,
                )),
        ensures
            exists|c: &mut OrmContext<'a>, r: Result<LogicalPlan, DatabaseError>|
                {
                    &&& c@ == inner_scope(old(scope)@, visible(old(scope)@))
                    &&& #[trigger] call_ensures(build, (c,), r)
                    &&& match r {
                        Err(err) => (res matches Err(e) && e == err) && final(scope)@ == around(
                            old(scope)@,
                            final(c)@,
                            false,
                        ),
                        Ok(plan) => quantified_bound(
                            around(old(scope)@, final(c)@, true),
                            self.expr,
                            BinaryOperator::Eq,
                            MarkApplyQuantifier::Any,
                            false,
                            plan@,
                            final(scope)@,
                            res,
                        ),
                    }
                },
            final(scope).known(),
            old(scope)@.extended_by(final(scope)@),
            res matches Ok(ctx) ==> final(scope)@.arena.has_expr(ctx.expr),
    {
        scope.quantified_subquery(
            MarkApplyQuantifier::Any,
            false,
            self.expr,
            BinaryOperator::Eq,
            build,
        )
    }

    /// Whether the value is not among the rows of the query.
    pub fn not_in_subquery<'a, F>(self, build: F, scope: &mut ExprBindScope<'a>) -> (res: Result<
        Self,
        DatabaseError,
    >) where F: FnOnce(&mut OrmContext<'a>) -> Result<LogicalPlan, DatabaseError>
        requires
            old(scope).known(),
            old(scope)@.arena.has_expr(self.expr),
            forall|c: &mut OrmContext<'a>| c.known() ==> #[trigger] call_requires(build, (c,)),
            forall|c: &mut OrmContext<'a>, r: Result<LogicalPlan, DatabaseError>|
                c.known() && #[trigger] call_ensures(build, (c,), r) ==> final(c).known()
                    && c@.extended_by(final(c)@) && (r matches Ok(plan) ==> bound(
                    plan@,
                    final(c)@.arena,
                )),
        ensures
            exists|c: &mut OrmContext<'a>, r: Result<LogicalPlan, DatabaseError>|
                {
                    &&& c@ == inner_scope(old(scope)@, visible(old(scope)@))
                    &&& #[trigger] call_ensures(build, (c,), r)
                    &&& match r {
                        Err(err) => (res matches Err(e) && e == err) && final(scope)@ == around(
                            old(scope)@,
                            final(c)@,
                            false,
                        ),
                        Ok(plan) => quantified_bound(
                            around(old(scope)@, final(c)@, true),
                            self.expr,
                            BinaryOperator::Eq,
                            MarkApplyQuantifier::Any,
                            true,
                            plan@,
                            final(scope)@,
                            res,
                        ),
                    }
                },
            final(scope).known(),
            old(scope)@.extended_by(final(scope)@),
            res matches Ok(ctx) ==> final(scope)@.arena.has_expr(ctx.expr),
    {
        scope.quantified_subquery(
            MarkApplyQuantifier::Any,
            true,
            self.expr,
            BinaryOperator::Eq,
            build,
        )
    }
}

} // verus!
