//! Changes of the rows of a model.

use crate::binder::expr::{cast_expr, constant_view};
use crate::binder::plan::{bound, over};
use crate::binder::{lemma_known_extended, BinderView, NameBinding, QueryBindStep};
use crate::catalog::{ColumnRef, TableName};
use crate::errors::DatabaseError;
use crate::expression::analysis::type_of;
use crate::expression::{ExprHead, ScalarExpression};
use crate::orm::bindable::BindOrmScalar;
use crate::orm::field::{Field, Model};
use crate::orm::query::{
    at_step, bind_step, expr_bound, lemma_bound_extended, orm_of, ref_given, relation_of,
    BindPlanFrom, Outcome,
};
use crate::orm::scope::{
    alloc_view, lemma_extended_trans, ExprBindScope, IntoOrmExpression, OrmExpression, ScopeView,
};
use crate::orm::value::ToDataValue;
use crate::planner::arena::{ArenaView, ExprRef};
use crate::planner::operator::dml::UpdateView;
use crate::planner::operator::OperatorView;
use crate::planner::{LogicalPlan, PlanView};
use crate::types::value::DataValueView;
use vstd::prelude::*;

verus! {

/// The new values of columns, as they are collected.
#[derive(Debug)]
pub struct UpdateBindScope<'s, 'a> {
    pub scope: &'s mut ExprBindScope<'a>,
    pub source_name: String,
    pub value_exprs: Vec<(ColumnRef, ExprRef)>,
}

/// The new values of columns, and the scope that they are bound in.
pub struct UpdateState {
    pub scope: ScopeView,
    pub source: Seq<char>,
    pub values: Seq<(ColumnRef, ExprRef)>,
}

impl UpdateState {
    /// Whether everything that the values refer to is in the arena.
    pub open spec fn wf(self) -> bool {
        &&& self.scope.known()
        &&& forall|i: int|
            0 <= i < self.values.len() ==> self.scope.arena.has_column(
                (#[trigger] self.values[i]).0,
            ) && self.scope.arena.has_expr(self.values[i].1)
    }
}

impl<'s, 'a> UpdateBindScope<'s, 'a> {
    /// The new values and their scope.
    pub open spec fn state(&self) -> UpdateState {
        UpdateState {
            scope: self.scope@,
            source: self.source_name@,
            values: self.value_exprs@,
        }
    }
}

/// The value that stands for an empty one: the default of the column, where that is a constant.
pub open spec fn default_constant(arena: ArenaView, column: ColumnRef) -> Option<DataValueView> {
    match arena.columns[column.0 as int].default {
        Some(expr) => match arena.exprs[expr.0 as int].head {
            ExprHead::Constant(value) => Some(value),
            _ => None,
        },
        None => None,
    }
}

/// Outcomes of giving a column a new value: the column is looked up in the table, an empty value
/// becomes the default, and the value is cast to the type of the column.
pub open spec fn assigned(
    before: UpdateState,
    name: Seq<char>,
    expr: ExprRef,
    after: UpdateState,
    res: Result<(), DatabaseError>,
) -> bool {
    match before.scope.binder.binding(before.scope.arena, before.source, name) {
        NameBinding::NoRelation => (res matches Err(DatabaseError::InvalidTable { name: n }) && n@
            == before.source) && after == before,
        NameBinding::NoColumn => (res matches Err(DatabaseError::ColumnNotFound { name: n, span })
            && n@ == name && span is None) && after == before,
        NameBinding::Own { column, .. } => stored(before, column, expr, after, res),
        NameBinding::Outer { column, .. } => stored(
            UpdateState {
                scope: ScopeView {
                    binder: BinderView { outer_refs: true, ..before.scope.binder },
                    ..before.scope
                },
                ..before
            },
            column,
            expr,
            after,
            res,
        ),
    }
}

/// Outcomes of giving a known column a new value.
pub open spec fn stored(
    before: UpdateState,
    column: ColumnRef,
    expr: ExprRef,
    after: UpdateState,
    res: Result<(), DatabaseError>,
) -> bool {
    if before.scope.arena.exprs[expr.0 as int].head is Empty {
        match default_constant(before.scope.arena, column) {
            None => res == Err::<(), DatabaseError>(DatabaseError::DefaultNotExist) && after
                == before,
            Some(value) => {
                let (ctx, scope) = alloc_view(before.scope, constant_view(value));
                cast_stored(UpdateState { scope, ..before }, column, ctx.expr, after, res)
            },
        }
    } else {
        cast_stored(before, column, expr, after, res)
    }
}

/// Outcomes of giving a known column a new value of any type.
pub open spec fn cast_stored(
    before: UpdateState,
    column: ColumnRef,
    expr: ExprRef,
    after: UpdateState,
    res: Result<(), DatabaseError>,
) -> bool {
    let ty = before.scope.arena.columns[column.0 as int].ty;
    match cast_expr(before.scope.arena, expr, ty) {
        Some((cast, arena)) => res is Ok && after == (UpdateState {
            scope: before.scope.with_arena(arena),
            values: before.values.push((column, cast)),
            ..before
        }),
        None => (res matches Err(DatabaseError::CastFail { from, to }) && from@ == type_of(
            before.scope.arena,
            expr,
        ) && to@ == ty) && after == before,
    }
}

/// Outcomes of giving a column what a result holds.
pub open spec fn given_assigned(
    before: UpdateState,
    given: Outcome<(ExprRef, ScopeView)>,
    name: Seq<char>,
    after: UpdateState,
    res: Result<(), DatabaseError>,
) -> bool {
    match given {
        Outcome::Failed(err, scope) => (res matches Err(e) && e == err) && after == (UpdateState {
            scope,
            ..before
        }),
        Outcome::Done((expr, scope)) => assigned(
            UpdateState { scope, ..before },
            name,
            expr,
            after,
            res,
        ),
    }
}

impl<'s, 'a> UpdateBindScope<'s, 'a> {
    fn push_assignment(&mut self, column_name: &str, expr: ExprRef) -> (res: Result<
        (),
        DatabaseError,
    >)
        requires
            old(self).state().wf(),
            old(self).state().scope.arena.has_expr(expr),
        ensures
            assigned(old(self).state(), column_name@, expr, final(self).state(), res),
            final(self).state().wf(),
            old(self).state().scope.extended_by(final(self).state().scope),
            *final(final(self).scope) == *final(old(self).scope),
    {
        let ghost start = self.state();
        let column = match self.scope.binder.bind_column_ref_by_name(
            self.source_name.as_str(),
            column_name,
            &self.scope.arena,
        ) {
            Ok(ScalarExpression::ColumnRef { column, .. }) => column,
            Ok(_) => {
                assert(false);
                return Err(DatabaseError::invalid_column(column_name.to_string()));
            },
            Err(err) => {
                return Err(err);
            },
        };
        let ghost found = self.state();
        assert(self.scope.known());
        assert(found.scope.arena.has_column(column));
        assert(found.scope.arena.fits_column(found.scope.arena.columns[column.0 as int]));
        let mut expr = expr;
        let empty = match self.scope.arena.expression(expr) {
            ScalarExpression::Empty => true,
            _ => false,
        };
        if empty {
            let value = match self.scope.arena.column(column).default_value(&self.scope.arena) {
                Some(value) => value,
                None => {
                    return Err(DatabaseError::DefaultNotExist);
                },
            };
            expr = self.scope.bind(
                OrmExpression::Unbound(ScalarExpression::Constant(value)),
            );
        }
        let ghost chosen = self.state();
        let ty = self.scope.arena.column(column).datatype().clone();
        let cast = expr.type_cast(ty, &mut self.scope.arena);
        proof {
            lemma_known_extended(
                self.scope.binder@,
                chosen.scope.arena,
                self.state().scope.arena,
            );
            lemma_extended_trans(
                start.scope.arena,
                chosen.scope.arena,
                self.state().scope.arena,
            );
        }
        match cast {
            Ok(expr) => {
                self.value_exprs.push((column, expr));
                Ok(())
            },
            Err(err) => Err(err),
        }
    }

    /// Gives a column a constant.
    pub fn set_value<M, V, D: ToDataValue>(&mut self, field: Field<M, V>, value: D) -> (res: Result<
        (),
        DatabaseError,
    >)
        requires
            old(self).state().wf(),
        ensures
            ({
                let (ctx, scope) = alloc_view(
                    old(self).state().scope,
                    constant_view(value.encoded()),
                );
                assigned(
                    UpdateState { scope, ..old(self).state() },
                    field.column(),
                    ctx.expr,
                    final(self).state(),
                    res,
                )
            }),
            final(self).state().wf(),
            old(self).state().scope.extended_by(final(self).state().scope),
            *final(final(self).scope) == *final(old(self).scope),
    {
        let ghost start = self.state();
        let ctx = self.scope.value(value);
        let ghost middle = self.state();
        let res = self.push_assignment(field.column_name(), ctx.into_scalar());
        proof {
            lemma_extended_trans(
                start.scope.arena,
                middle.scope.arena,
                self.state().scope.arena,
            );
        }
        res
    }

    /// Gives a column a constant.
    pub fn set<M, V, D: ToDataValue>(&mut self, field: Field<M, V>, value: D) -> (res: Result<
        (),
        DatabaseError,
    >)
        requires
            old(self).state().wf(),
        ensures
            ({
                let (ctx, scope) = alloc_view(
                    old(self).state().scope,
                    constant_view(value.encoded()),
                );
                assigned(
                    UpdateState { scope, ..old(self).state() },
                    field.column(),
                    ctx.expr,
                    final(self).state(),
                    res,
                )
            }),
            final(self).state().wf(),
            old(self).state().scope.extended_by(final(self).state().scope),
            *final(final(self).scope) == *final(old(self).scope),
    {
        self.set_value(field, value)
    }

    /// Gives a column what can be bound to an expression.
    pub fn set_bound_expr<M, V, B: BindOrmScalar>(&mut self, field: Field<M, V>, build: B) -> (res:
        Result<(), DatabaseError>)
        requires
            old(self).state().wf(),
            build.scalar_fits(old(self).state().scope.arena),
        ensures
            exists|mid: ScopeView, r: Result<ExprRef, DatabaseError>|
                {
                    &&& #[trigger] build.scalar_binds(
                        at_step(old(self).state().scope, QueryBindStep::Project),
                        mid,
                        r,
                    )
                    &&& given_assigned(
                        old(self).state(),
                        expr_bound(
                            at_step(mid, old(self).state().scope.binder.step),
                            ref_given(r),
                        ),
                        field.column(),
                        final(self).state(),
                        res,
                    )
                },
            final(self).state().wf(),
            old(self).state().scope.extended_by(final(self).state().scope),
            *final(final(self).scope) == *final(old(self).scope),
    {
        let ghost start = self.state();
        let last = self.scope.enter(QueryBindStep::Project);
        let ran = build.bind_scalar(self.scope);
        let _ = self.scope.enter(last);
        let ghost middle = self.state();
        match ran {
            Ok(expr) => {
                assert(start.values == middle.values);
                let res = self.push_assignment(field.column_name(), expr);
                proof {
                    lemma_extended_trans(
                        start.scope.arena,
                        middle.scope.arena,
                        self.state().scope.arena,
                    );
                }
                res
            },
            Err(err) => Err(err),
        }
    }

    /// Gives a column an expression.
    pub fn set_expr<M, V, E: IntoOrmExpression, F>(&mut self, field: Field<M, V>, build: F) -> (res:
        Result<(), DatabaseError>) where
        F: FnOnce(&mut ExprBindScope<'a>) -> Result<E, DatabaseError>,

        requires
            old(self).state().wf(),
            forall|x: &mut ExprBindScope<'a>|
                x.known() ==> #[trigger] call_requires(build, (x,)),
            forall|x: &mut ExprBindScope<'a>, r: Result<E, DatabaseError>|
                x.known() && #[trigger] call_ensures(build, (x,), r) ==> final(x).known()
                    && x@.extended_by(final(x)@)
                        && (r matches Ok(given) ==> given.orm().fits(final(x)@.arena)),
        ensures
            exists|x: &mut ExprBindScope<'a>, r: Result<E, DatabaseError>|
                {
                    &&& x@ == at_step(old(self).state().scope, QueryBindStep::Project)
                    &&& #[trigger] call_ensures(build, (x,), r)
                    &&& given_assigned(
                        old(self).state(),
                        expr_bound(
                            at_step(final(x)@, old(self).state().scope.binder.step),
                            orm_of(r),
                        ),
                        field.column(),
                        final(self).state(),
                        res,
                    )
                },
            final(self).state().wf(),
            old(self).state().scope.extended_by(final(self).state().scope),
            *final(final(self).scope) == *final(old(self).scope),
    {
        let ghost start = self.state();
        let ran = bind_step(self.scope, QueryBindStep::Project, build);
        let ghost middle = self.state();
        match ran {
            Ok(expr) => {
                assert(start.values == middle.values);
                let res = self.push_assignment(field.column_name(), expr);
                proof {
                    lemma_extended_trans(
                        start.scope.arena,
                        middle.scope.arena,
                        self.state().scope.arena,
                    );
                }
                res
            },
            Err(err) => Err(err),
        }
    }

    fn finish(self, table_name: TableName, plan: LogicalPlan) -> (res: Result<
        LogicalPlan,
        DatabaseError,
    >)
        requires
            self.state().wf(),
            bound(plan@, self.state().scope.arena),
        ensures
            updated(self.state(), table_name@, plan@, final(self.scope)@, match res {
                Ok(plan) => Ok(plan@),
                Err(err) => Err(err),
            }),
            res matches Ok(plan) ==> bound(plan@, final(self.scope)@.arena),
            final(self.scope).known(),
            self.state().scope.extended_by(final(self.scope)@),
    {
        let ghost before = self.state();
        let UpdateBindScope { scope, source_name, value_exprs } = self;
        scope.binder.allow_default = false;
        assert(scope@.binder == BinderView { allow_default: false, ..before.scope.binder });
        if value_exprs.len() == 0 {
            return Err(DatabaseError::ColumnsEmpty);
        }
        Ok(scope.binder.bind_update(table_name, value_exprs, plan))
    }
}

/// Outcomes of the collected changes: there must be some.
pub open spec fn updated(
    state: UpdateState,
    table: Seq<char>,
    plan: PlanView,
    after: ScopeView,
    res: Result<PlanView, DatabaseError>,
) -> bool {
    &&& after == (ScopeView {
        binder: BinderView { allow_default: false, ..state.scope.binder },
        ..state.scope
    })
    &&& res == if state.values.len() == 0 {
        Err(DatabaseError::ColumnsEmpty)
    } else {
        Ok(
            over(
                OperatorView::Update(UpdateView { table_name: table, value_exprs: state.values }),
                plan,
            ),
        )
    }
}

/// The scope in which changes of the table are collected.
pub open spec fn changing(scope: ScopeView, table: Seq<char>) -> ScopeView {
    ScopeView {
        binder: BinderView { allow_default: true, with_pk: Some(table), ..scope.binder },
        ..scope
    }
}

impl<'s, 'a, M: Model> BindPlanFrom<'s, 'a, M> {
    /// Changes the rows.
    pub fn update<F>(self, build: F) -> (res: Result<LogicalPlan, DatabaseError>) where
        F: FnOnce(&mut UpdateBindScope<'s, 'a>) -> Result<(), DatabaseError>,

        requires
            self.state().wf(),
            forall|u: &mut UpdateBindScope<'s, 'a>|
                u.state().wf() ==> #[trigger] call_requires(build, (u,)),
            forall|u: &mut UpdateBindScope<'s, 'a>, r: Result<(), DatabaseError>|
                u.state().wf() && #[trigger] call_ensures(build, (u,), r) ==> final(u).state().wf()
                    && u.state().scope.extended_by(final(u).state().scope) && *final(
                    final(u).scope
                ) == *final(u.scope),
        ensures
            match relation_of(self.state().scope.binder.sources, M::table()) {
                None => (res matches Err(DatabaseError::InvalidTable { name }) && name@
                    == M::table()) && final(self.scope)@ == self.state().scope,
                Some(relation) => exists|u: &mut UpdateBindScope<'s, 'a>, r: Result<
                    (),
                    DatabaseError,
                >|
                    {
                        &&& u.state() == (UpdateState {
                            scope: changing(self.state().scope, M::table()),
                            source: relation,
                            values: Seq::empty(),
                        })
                        &&& #[trigger] call_ensures(build, (u,), r)
                        &&& match r {
                            Err(err) => (res matches Err(e) && e == err) && final(self.scope)@
                                == final(u).state().scope,
                            Ok(_) => updated(
                                final(u).state(),
                                M::table(),
                                self.state().plan,
                                final(self.scope)@,
                                match res {
                                    Ok(plan) => Ok(plan@),
                                    Err(err) => Err(err),
                                },
                            ),
                        }
                    },
            },
            res matches Ok(plan) ==> bound(plan@, final(self.scope)@.arena),
            final(self.scope).known(),
            self.state().scope.extended_by(final(self.scope)@),
    {
        let ghost from = self.state();
        let source_name = match self.model_relation_name() {
            Ok(name) => name,
            Err(err) => {
                return Err(err);
            },
        };
        let table_name: TableName = M::table_name().to_string();
        let BindPlanFrom { scope, plan, marker } = self;
        scope.binder.allow_default = true;
        scope.binder.with_pk = Some(table_name.clone());
        assert(scope@ == changing(from.scope, M::table()));
        assert(scope.known());
        let mut update = UpdateBindScope { scope, source_name, value_exprs: Vec::new() };
        assert(update.state().values =~= Seq::empty());
        let ran = build(&mut update);
        proof {
            lemma_bound_extended(from.plan, from.scope.arena, update.state().scope.arena);
        }
        match ran {
            Ok(_) => update.finish(table_name, plan),
            Err(err) => Err(err),
        }
    }
}

} // verus!
