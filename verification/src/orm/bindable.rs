//! What can be bound to an expression or an order of a query.

use crate::errors::DatabaseError;
use crate::expression::ScalarExpression;
use crate::orm::field::{Field, FieldSort};
use crate::orm::scope::{
    alloc_view, column_bound, lemma_extended_trans, CtxExpression, ExprBindScope, OrmExpression,
    ScopeView,
};
use crate::planner::arena::{ArenaView, ExprRef};
use crate::planner::operator::sort::SortField;
use std::marker::PhantomData;
use vstd::prelude::*;

verus! {

/// What can be bound to an expression.
pub trait BindOrmScalar: Sized {
    /// Whether what it refers to is in the arena.
    spec fn scalar_fits(self, arena: ArenaView) -> bool;

    /// Outcomes of the binding.
    spec fn scalar_binds(
        self,
        before: ScopeView,
        after: ScopeView,
        res: Result<ExprRef, DatabaseError>,
    ) -> bool;

    /// Binds it.
    fn bind_scalar(self, scope: &mut ExprBindScope<'_>) -> (res: Result<ExprRef, DatabaseError>)
        requires
            old(scope).known(),
            self.scalar_fits(old(scope)@.arena),
        ensures
            self.scalar_binds(old(scope)@, final(scope)@, res),
            final(scope).known(),
            old(scope)@.extended_by(final(scope)@),
            res matches Ok(expr) ==> final(scope)@.arena.has_expr(expr),
    ;

    /// What fits an arena fits a larger one.
    proof fn lemma_scalar_fits(self, before: ArenaView, after: ArenaView)
        requires
            self.scalar_fits(before),
            before.extended_by(after),
        ensures
            self.scalar_fits(after),
    ;
}

/// What can be bound to an order.
pub trait BindOrmSort: Sized {
    /// Whether what it refers to is in the arena.
    spec fn sort_fits(self, arena: ArenaView) -> bool;

    /// Outcomes of the binding.
    spec fn sort_binds(
        self,
        before: ScopeView,
        after: ScopeView,
        res: Result<SortField, DatabaseError>,
    ) -> bool;

    /// Binds it.
    fn bind_sort(self, scope: &mut ExprBindScope<'_>) -> (res: Result<SortField, DatabaseError>)
        requires
            old(scope).known(),
            self.sort_fits(old(scope)@.arena),
        ensures
            self.sort_binds(old(scope)@, final(scope)@, res),
            final(scope).known(),
            old(scope)@.extended_by(final(scope)@),
            res matches Ok(field) ==> final(scope)@.arena.has_expr(field.expr),
    ;
}

/// What can be bound to several expressions.
pub trait BindOrmScalarList: Sized {
    /// Whether what it refers to is in the arena.
    spec fn list_fits(self, arena: ArenaView) -> bool;

    /// Outcomes of the binding.
    spec fn list_binds(
        self,
        before: ScopeView,
        after: ScopeView,
        res: Result<Seq<ExprRef>, DatabaseError>,
    ) -> bool;

    /// Binds them, from the first to the last.
    fn bind_scalar_list(self, scope: &mut ExprBindScope<'_>) -> (res: Result<
        Vec<ExprRef>,
        DatabaseError,
    >)
        requires
            old(scope).known(),
            self.list_fits(old(scope)@.arena),
        ensures
            self.list_binds(old(scope)@, final(scope)@, refs_of(res)),
            final(scope).known(),
            old(scope)@.extended_by(final(scope)@),
            res matches Ok(exprs) ==> final(scope)@.arena.has_exprs(exprs@),
    ;
}

/// The result with its references as a sequence.
pub open spec fn refs_of(res: Result<Vec<ExprRef>, DatabaseError>) -> Result<
    Seq<ExprRef>,
    DatabaseError,
> {
    match res {
        Ok(exprs) => Ok(exprs@),
        Err(err) => Err(err),
    }
}

impl<M, V> BindOrmScalar for Field<M, V> {
    open spec fn scalar_fits(self, arena: ArenaView) -> bool {
        true
    }

    open spec fn scalar_binds(
        self,
        before: ScopeView,
        after: ScopeView,
        res: Result<ExprRef, DatabaseError>,
    ) -> bool {
        column_bound(
            before,
            self.table(),
            self.column(),
            after,
            match res {
                Ok(expr) => Ok(CtxExpression { expr, marker: PhantomData }),
                Err(err) => Err(err),
            },
        )
    }

    fn bind_scalar(self, scope: &mut ExprBindScope<'_>) -> (res: Result<ExprRef, DatabaseError>) {
        match scope.column(self) {
            Ok(ctx) => Ok(ctx.into_scalar()),
            Err(err) => Err(err),
        }
    }

    proof fn lemma_scalar_fits(self, before: ArenaView, after: ArenaView) {
    }
}

impl BindOrmScalar for ScalarExpression {
    open spec fn scalar_fits(self, arena: ArenaView) -> bool {
        arena.fits(self@)
    }

    open spec fn scalar_binds(
        self,
        before: ScopeView,
        after: ScopeView,
        res: Result<ExprRef, DatabaseError>,
    ) -> bool {
        let (ctx, done) = alloc_view(before, self@);
        res == Ok::<ExprRef, DatabaseError>(ctx.expr) && after == done
    }

    fn bind_scalar(self, scope: &mut ExprBindScope<'_>) -> (res: Result<ExprRef, DatabaseError>) {
        Ok(scope.bind(OrmExpression::Unbound(self)))
    }

    proof fn lemma_scalar_fits(self, before: ArenaView, after: ArenaView) {
    }
}

impl BindOrmScalar for CtxExpression {
    open spec fn scalar_fits(self, arena: ArenaView) -> bool {
        arena.has_expr(self.expr)
    }

    open spec fn scalar_binds(
        self,
        before: ScopeView,
        after: ScopeView,
        res: Result<ExprRef, DatabaseError>,
    ) -> bool {
        res == Ok::<ExprRef, DatabaseError>(self.expr) && after == before
    }

    fn bind_scalar(self, scope: &mut ExprBindScope<'_>) -> (res: Result<ExprRef, DatabaseError>) {
        Ok(self.into_scalar())
    }

    proof fn lemma_scalar_fits(self, before: ArenaView, after: ArenaView) {
    }
}

/// The order of an expression with the given direction.
pub open spec fn directed(
    res: Result<ExprRef, DatabaseError>,
    asc: bool,
    nulls_first: bool,
) -> Result<SortField, DatabaseError> {
    match res {
        Ok(expr) => Ok(SortField { expr, asc, nulls_first }),
        Err(err) => Err(err),
    }
}

impl<M, V> BindOrmSort for Field<M, V> {
    open spec fn sort_fits(self, arena: ArenaView) -> bool {
        true
    }

    open spec fn sort_binds(
        self,
        before: ScopeView,
        after: ScopeView,
        res: Result<SortField, DatabaseError>,
    ) -> bool {
        exists|scalar: Result<ExprRef, DatabaseError>| #[trigger]
            self.scalar_binds(before, after, scalar) && res == directed(scalar, true, false)
    }

    fn bind_sort(self, scope: &mut ExprBindScope<'_>) -> (res: Result<SortField, DatabaseError>) {
        match self.bind_scalar(scope) {
            Ok(expr) => Ok(SortField::from(expr)),
            Err(err) => Err(err),
        }
    }
}

impl<M, V> BindOrmSort for FieldSort<M, V> {
    open spec fn sort_fits(self, arena: ArenaView) -> bool {
        true
    }

    open spec fn sort_binds(
        self,
        before: ScopeView,
        after: ScopeView,
        res: Result<SortField, DatabaseError>,
    ) -> bool {
        exists|scalar: Result<ExprRef, DatabaseError>| #[trigger]
            self.field.scalar_binds(before, after, scalar) && res == directed(
                scalar,
                self.asc,
                self.nulls_first,
            )
    }

    fn bind_sort(self, scope: &mut ExprBindScope<'_>) -> (res: Result<SortField, DatabaseError>) {
        match self.field.bind_scalar(scope) {
            Ok(expr) => Ok(SortField { expr, asc: self.asc, nulls_first: self.nulls_first }),
            Err(err) => Err(err),
        }
    }
}

impl BindOrmSort for ScalarExpression {
    open spec fn sort_fits(self, arena: ArenaView) -> bool {
        arena.fits(self@)
    }

    open spec fn sort_binds(
        self,
        before: ScopeView,
        after: ScopeView,
        res: Result<SortField, DatabaseError>,
    ) -> bool {
        let (ctx, done) = alloc_view(before, self@);
        res == directed(Ok(ctx.expr), true, false) && after == done
    }

    fn bind_sort(self, scope: &mut ExprBindScope<'_>) -> (res: Result<SortField, DatabaseError>) {
        Ok(SortField::from(scope.bind(OrmExpression::Unbound(self))))
    }
}

impl BindOrmSort for SortField {
    open spec fn sort_fits(self, arena: ArenaView) -> bool {
        arena.has_expr(self.expr)
    }

    open spec fn sort_binds(
        self,
        before: ScopeView,
        after: ScopeView,
        res: Result<SortField, DatabaseError>,
    ) -> bool {
        res == Ok::<SortField, DatabaseError>(self) && after == before
    }

    fn bind_sort(self, scope: &mut ExprBindScope<'_>) -> (res: Result<SortField, DatabaseError>) {
        Ok(self)
    }
}

impl BindOrmSort for CtxExpression {
    open spec fn sort_fits(self, arena: ArenaView) -> bool {
        arena.has_expr(self.expr)
    }

    open spec fn sort_binds(
        self,
        before: ScopeView,
        after: ScopeView,
        res: Result<SortField, DatabaseError>,
    ) -> bool {
        res == directed(Ok(self.expr), true, false) && after == before
    }

    fn bind_sort(self, scope: &mut ExprBindScope<'_>) -> (res: Result<SortField, DatabaseError>) {
        Ok(self.into_sort())
    }
}

impl<A: BindOrmScalar, B: BindOrmScalar> BindOrmScalarList for (A, B) {
    open spec fn list_fits(self, arena: ArenaView) -> bool {
        &&& self.0.scalar_fits(arena)
        &&& self.1.scalar_fits(arena)
    }

    open spec fn list_binds(
        self,
        before: ScopeView,
        after: ScopeView,
        res: Result<Seq<ExprRef>, DatabaseError>,
    ) -> bool {
        match res {
            Ok(exprs) => exprs.len() == 2 && exists|s1: ScopeView|
                {
                    &&& #[trigger] self.0.scalar_binds(before, s1, Ok(exprs[0]))
                    &&& #[trigger] self.1.scalar_binds(s1, after, Ok(exprs[1]))
                },
            Err(err) => {
                ||| self.0.scalar_binds(before, after, Err(err))
                ||| exists|s1: ScopeView, e0: ExprRef|
                    {
                        &&& #[trigger] self.0.scalar_binds(before, s1, Ok(e0))
                        &&& #[trigger] self.1.scalar_binds(s1, after, Err(err))
                    }
            },
        }
    }

    fn bind_scalar_list(self, scope: &mut ExprBindScope<'_>) -> (res: Result<
        Vec<ExprRef>,
        DatabaseError,
    >) {
        let ghost start = scope@;
        let mut exprs: Vec<ExprRef> = Vec::new();
        let ghost scope0 = scope@;
        proof {
            self.0.lemma_scalar_fits(start.arena, scope@.arena);
        }
        let expr0 = match self.0.bind_scalar(scope) {
            Ok(expr) => expr,
            Err(err) => {
                proof {
                    lemma_extended_trans(start.arena, scope0.arena, scope@.arena);
                }
                return Err(err);
            },
        };
        exprs.push(expr0);
        proof {
            lemma_extended_trans(start.arena, scope0.arena, scope@.arena);
        }
        let ghost scope1 = scope@;
        proof {
            self.1.lemma_scalar_fits(start.arena, scope@.arena);
        }
        let expr1 = match self.1.bind_scalar(scope) {
            Ok(expr) => expr,
            Err(err) => {
                proof {
                    lemma_extended_trans(start.arena, scope1.arena, scope@.arena);
                }
                return Err(err);
            },
        };
        exprs.push(expr1);
        proof {
            lemma_extended_trans(start.arena, scope1.arena, scope@.arena);
        }
        assert(exprs@.len() == 2);
        assert(exprs@[0] == expr0);
        assert(exprs@[1] == expr1);
        Ok(exprs)
    }
}

impl<A: BindOrmScalar, B: BindOrmScalar, C: BindOrmScalar> BindOrmScalarList for (A, B, C) {
    open spec fn list_fits(self, arena: ArenaView) -> bool {
        &&& self.0.scalar_fits(arena)
        &&& self.1.scalar_fits(arena)
        &&& self.2.scalar_fits(arena)
    }

    open spec fn list_binds(
        self,
        before: ScopeView,
        after: ScopeView,
        res: Result<Seq<ExprRef>, DatabaseError>,
    ) -> bool {
        match res {
            Ok(exprs) => exprs.len() == 3 && exists|s1: ScopeView, s2: ScopeView|
                {
                    &&& #[trigger] self.0.scalar_binds(before, s1, Ok(exprs[0]))
                    &&& #[trigger] self.1.scalar_binds(s1, s2, Ok(exprs[1]))
                    &&& #[trigger] self.2.scalar_binds(s2, after, Ok(exprs[2]))
                },
            Err(err) => {
                ||| self.0.scalar_binds(before, after, Err(err))
                ||| exists|s1: ScopeView, e0: ExprRef|
                    {
                        &&& #[trigger] self.0.scalar_binds(before, s1, Ok(e0))
                        &&& #[trigger] self.1.scalar_binds(s1, after, Err(err))
                    }
                ||| exists|s1: ScopeView, s2: ScopeView, e0: ExprRef, e1: ExprRef|
                    {
                        &&& #[trigger] self.0.scalar_binds(before, s1, Ok(e0))
                        &&& #[trigger] self.1.scalar_binds(s1, s2, Ok(e1))
                        &&& #[trigger] self.2.scalar_binds(s2, after, Err(err))
                    }
            },
        }
    }

    fn bind_scalar_list(self, scope: &mut ExprBindScope<'_>) -> (res: Result<
        Vec<ExprRef>,
        DatabaseError,
    >) {
        let ghost start = scope@;
        let mut exprs: Vec<ExprRef> = Vec::new();
        let ghost scope0 = scope@;
        proof {
            self.0.lemma_scalar_fits(start.arena, scope@.arena);
        }
        let expr0 = match self.0.bind_scalar(scope) {
            Ok(expr) => expr,
            Err(err) => {
                proof {
                    lemma_extended_trans(start.arena, scope0.arena, scope@.arena);
                }
                return Err(err);
            },
        };
        exprs.push(expr0);
        proof {
            lemma_extended_trans(start.arena, scope0.arena, scope@.arena);
        }
        let ghost scope1 = scope@;
        proof {
            self.1.lemma_scalar_fits(start.arena, scope@.arena);
        }
        let expr1 = match self.1.bind_scalar(scope) {
            Ok(expr) => expr,
            Err(err) => {
                proof {
                    lemma_extended_trans(start.arena, scope1.arena, scope@.arena);
                }
                return Err(err);
            },
        };
        exprs.push(expr1);
        proof {
            lemma_extended_trans(start.arena, scope1.arena, scope@.arena);
        }
        let ghost scope2 = scope@;
        proof {
            self.2.lemma_scalar_fits(start.arena, scope@.arena);
        }
        let expr2 = match self.2.bind_scalar(scope) {
            Ok(expr) => expr,
            Err(err) => {
                proof {
                    lemma_extended_trans(start.arena, scope2.arena, scope@.arena);
                }
                return Err(err);
            },
        };
        exprs.push(expr2);
        proof {
            lemma_extended_trans(start.arena, scope2.arena, scope@.arena);
        }
        assert(exprs@.len() == 3);
        assert(exprs@[0] == expr0);
        assert(exprs@[1] == expr1);
        assert(exprs@[2] == expr2);
        Ok(exprs)
    }
}

impl<A: BindOrmScalar, B: BindOrmScalar, C: BindOrmScalar, D: BindOrmScalar> BindOrmScalarList
    for (A, B, C, D) {
    open spec fn list_fits(self, arena: ArenaView) -> bool {
        &&& self.0.scalar_fits(arena)
        &&& self.1.scalar_fits(arena)
        &&& self.2.scalar_fits(arena)
        &&& self.3.scalar_fits(arena)
    }

    open spec fn list_binds(
        self,
        before: ScopeView,
        after: ScopeView,
        res: Result<Seq<ExprRef>, DatabaseError>,
    ) -> bool {
        match res {
            Ok(exprs) => exprs.len() == 4 && exists|s1: ScopeView, s2: ScopeView, s3: ScopeView|
                {
                    &&& #[trigger] self.0.scalar_binds(before, s1, Ok(exprs[0]))
                    &&& #[trigger] self.1.scalar_binds(s1, s2, Ok(exprs[1]))
                    &&& #[trigger] self.2.scalar_binds(s2, s3, Ok(exprs[2]))
                    &&& #[trigger] self.3.scalar_binds(s3, after, Ok(exprs[3]))
                },
            Err(err) => {
                ||| self.0.scalar_binds(before, after, Err(err))
                ||| exists|s1: ScopeView, e0: ExprRef|
                    {
                        &&& #[trigger] self.0.scalar_binds(before, s1, Ok(e0))
                        &&& #[trigger] self.1.scalar_binds(s1, after, Err(err))
                    }
                ||| exists|s1: ScopeView, s2: ScopeView, e0: ExprRef, e1: ExprRef|
                    {
                        &&& #[trigger] self.0.scalar_binds(before, s1, Ok(e0))
                        &&& #[trigger] self.1.scalar_binds(s1, s2, Ok(e1))
                        &&& #[trigger] self.2.scalar_binds(s2, after, Err(err))
                    }
                ||| exists|s1: ScopeView, s2: ScopeView, s3: ScopeView, e0: ExprRef, e1: ExprRef,
                    e2: ExprRef|
                    {
                        &&& #[trigger] self.0.scalar_binds(before, s1, Ok(e0))
                        &&& #[trigger] self.1.scalar_binds(s1, s2, Ok(e1))
                        &&& #[trigger] self.2.scalar_binds(s2, s3, Ok(e2))
                        &&& #[trigger] self.3.scalar_binds(s3, after, Err(err))
                    }
            },
        }
    }

    fn bind_scalar_list(self, scope: &mut ExprBindScope<'_>) -> (res: Result<
        Vec<ExprRef>,
        DatabaseError,
    >) {
        let ghost start = scope@;
        let mut exprs: Vec<ExprRef> = Vec::new();
        let ghost scope0 = scope@;
        proof {
            self.0.lemma_scalar_fits(start.arena, scope@.arena);
        }
        let expr0 = match self.0.bind_scalar(scope) {
            Ok(expr) => expr,
            Err(err) => {
                proof {
                    lemma_extended_trans(start.arena, scope0.arena, scope@.arena);
                }
                return Err(err);
            },
        };
        exprs.push(expr0);
        proof {
            lemma_extended_trans(start.arena, scope0.arena, scope@.arena);
        }
        let ghost scope1 = scope@;
        proof {
            self.1.lemma_scalar_fits(start.arena, scope@.arena);
        }
        let expr1 = match self.1.bind_scalar(scope) {
            Ok(expr) => expr,
            Err(err) => {
                proof {
                    lemma_extended_trans(start.arena, scope1.arena, scope@.arena);
                }
                return Err(err);
            },
        };
        exprs.push(expr1);
        proof {
            lemma_extended_trans(start.arena, scope1.arena, scope@.arena);
        }
        let ghost scope2 = scope@;
        proof {
            self.2.lemma_scalar_fits(start.arena, scope@.arena);
        }
        let expr2 = match self.2.bind_scalar(scope) {
            Ok(expr) => expr,
            Err(err) => {
                proof {
                    lemma_extended_trans(start.arena, scope2.arena, scope@.arena);
                }
                return Err(err);
            },
        };
        exprs.push(expr2);
        proof {
            lemma_extended_trans(start.arena, scope2.arena, scope@.arena);
        }
        let ghost scope3 = scope@;
        proof {
            self.3.lemma_scalar_fits(start.arena, scope@.arena);
        }
        let expr3 = match self.3.bind_scalar(scope) {
            Ok(expr) => expr,
            Err(err) => {
                proof {
                    lemma_extended_trans(start.arena, scope3.arena, scope@.arena);
                }
                return Err(err);
            },
        };
        exprs.push(expr3);
        proof {
            lemma_extended_trans(start.arena, scope3.arena, scope@.arena);
        }
        assert(exprs@.len() == 4);
        assert(exprs@[0] == expr0);
        assert(exprs@[1] == expr1);
        assert(exprs@[2] == expr2);
        assert(exprs@[3] == expr3);
        Ok(exprs)
    }
}

impl<A: BindOrmScalar, B: BindOrmScalar, C: BindOrmScalar, D: BindOrmScalar, E: BindOrmScalar>
    BindOrmScalarList for (A, B, C, D, E) {
    open spec fn list_fits(self, arena: ArenaView) -> bool {
        &&& self.0.scalar_fits(arena)
        &&& self.1.scalar_fits(arena)
        &&& self.2.scalar_fits(arena)
        &&& self.3.scalar_fits(arena)
        &&& self.4.scalar_fits(arena)
    }

    open spec fn list_binds(
        self,
        before: ScopeView,
        after: ScopeView,
        res: Result<Seq<ExprRef>, DatabaseError>,
    ) -> bool {
        match res {
            Ok(exprs) => exprs.len() == 5 && exists|s1: ScopeView, s2: ScopeView, s3: ScopeView,
                s4: ScopeView|
                {
                    &&& #[trigger] self.0.scalar_binds(before, s1, Ok(exprs[0]))
                    &&& #[trigger] self.1.scalar_binds(s1, s2, Ok(exprs[1]))
                    &&& #[trigger] self.2.scalar_binds(s2, s3, Ok(exprs[2]))
                    &&& #[trigger] self.3.scalar_binds(s3, s4, Ok(exprs[3]))
                    &&& #[trigger] self.4.scalar_binds(s4, after, Ok(exprs[4]))
                },
            Err(err) => {
                ||| self.0.scalar_binds(before, after, Err(err))
                ||| exists|s1: ScopeView, e0: ExprRef|
                    {
                        &&& #[trigger] self.0.scalar_binds(before, s1, Ok(e0))
                        &&& #[trigger] self.1.scalar_binds(s1, after, Err(err))
                    }
                ||| exists|s1: ScopeView, s2: ScopeView, e0: ExprRef, e1: ExprRef|
                    {
                        &&& #[trigger] self.0.scalar_binds(before, s1, Ok(e0))
                        &&& #[trigger] self.1.scalar_binds(s1, s2, Ok(e1))
                        &&& #[trigger] self.2.scalar_binds(s2, after, Err(err))
                    }
                ||| exists|s1: ScopeView, s2: ScopeView, s3: ScopeView, e0: ExprRef, e1: ExprRef,
                    e2: ExprRef|
                    {
                        &&& #[trigger] self.0.scalar_binds(before, s1, Ok(e0))
                        &&& #[trigger] self.1.scalar_binds(s1, s2, Ok(e1))
                        &&& #[trigger] self.2.scalar_binds(s2, s3, Ok(e2))
                        &&& #[trigger] self.3.scalar_binds(s3, after, Err(err))
                    }
                ||| exists|s1: ScopeView, s2: ScopeView, s3: ScopeView, s4: ScopeView, e0: ExprRef,
                    e1: ExprRef, e2: ExprRef, e3: ExprRef|
                    {
                        &&& #[trigger] self.0.scalar_binds(before, s1, Ok(e0))
                        &&& #[trigger] self.1.scalar_binds(s1, s2, Ok(e1))
                        &&& #[trigger] self.2.scalar_binds(s2, s3, Ok(e2))
                        &&& #[trigger] self.3.scalar_binds(s3, s4, Ok(e3))
                        &&& #[trigger] self.4.scalar_binds(s4, after, Err(err))
                    }
            },
        }
    }

    fn bind_scalar_list(self, scope: &mut ExprBindScope<'_>) -> (res: Result<
        Vec<ExprRef>,
        DatabaseError,
    >) {
        let ghost start = scope@;
        let mut exprs: Vec<ExprRef> = Vec::new();
        let ghost scope0 = scope@;
        proof {
            self.0.lemma_scalar_fits(start.arena, scope@.arena);
        }
        let expr0 = match self.0.bind_scalar(scope) {
            Ok(expr) => expr,
            Err(err) => {
                proof {
                    lemma_extended_trans(start.arena, scope0.arena, scope@.arena);
                }
                return Err(err);
            },
        };
        exprs.push(expr0);
        proof {
            lemma_extended_trans(start.arena, scope0.arena, scope@.arena);
        }
        let ghost scope1 = scope@;
        proof {
            self.1.lemma_scalar_fits(start.arena, scope@.arena);
        }
        let expr1 = match self.1.bind_scalar(scope) {
            Ok(expr) => expr,
            Err(err) => {
                proof {
                    lemma_extended_trans(start.arena, scope1.arena, scope@.arena);
                }
                return Err(err);
            },
        };
        exprs.push(expr1);
        proof {
            lemma_extended_trans(start.arena, scope1.arena, scope@.arena);
        }
        let ghost scope2 = scope@;
        proof {
            self.2.lemma_scalar_fits(start.arena, scope@.arena);
        }
        let expr2 = match self.2.bind_scalar(scope) {
            Ok(expr) => expr,
            Err(err) => {
                proof {
                    lemma_extended_trans(start.arena, scope2.arena, scope@.arena);
                }
                return Err(err);
            },
        };
        exprs.push(expr2);
        proof {
            lemma_extended_trans(start.arena, scope2.arena, scope@.arena);
        }
        let ghost scope3 = scope@;
        proof {
            self.3.lemma_scalar_fits(start.arena, scope@.arena);
        }
        let expr3 = match self.3.bind_scalar(scope) {
            Ok(expr) => expr,
            Err(err) => {
                proof {
                    lemma_extended_trans(start.arena, scope3.arena, scope@.arena);
                }
                return Err(err);
            },
        };
        exprs.push(expr3);
        proof {
            lemma_extended_trans(start.arena, scope3.arena, scope@.arena);
        }
        let ghost scope4 = scope@;
        proof {
            self.4.lemma_scalar_fits(start.arena, scope@.arena);
        }
        let expr4 = match self.4.bind_scalar(scope) {
            Ok(expr) => expr,
            Err(err) => {
                proof {
                    lemma_extended_trans(start.arena, scope4.arena, scope@.arena);
                }
                return Err(err);
            },
        };
        exprs.push(expr4);
        proof {
            lemma_extended_trans(start.arena, scope4.arena, scope@.arena);
        }
        assert(exprs@.len() == 5);
        assert(exprs@[0] == expr0);
        assert(exprs@[1] == expr1);
        assert(exprs@[2] == expr2);
        assert(exprs@[3] == expr3);
        assert(exprs@[4] == expr4);
        Ok(exprs)
    }
}

impl<A: BindOrmScalar, B: BindOrmScalar, C: BindOrmScalar, D: BindOrmScalar, E: BindOrmScalar,
    F: BindOrmScalar> BindOrmScalarList for (A, B, C, D, E, F) {
    open spec fn list_fits(self, arena: ArenaView) -> bool {
        &&& self.0.scalar_fits(arena)
        &&& self.1.scalar_fits(arena)
        &&& self.2.scalar_fits(arena)
        &&& self.3.scalar_fits(arena)
        &&& self.4.scalar_fits(arena)
        &&& self.5.scalar_fits(arena)
    }

    open spec fn list_binds(
        self,
        before: ScopeView,
        after: ScopeView,
        res: Result<Seq<ExprRef>, DatabaseError>,
    ) -> bool {
        match res {
            Ok(exprs) => exprs.len() == 6 && exists|s1: ScopeView, s2: ScopeView, s3: ScopeView,
                s4: ScopeView, s5: ScopeView|
                {
                    &&& #[trigger] self.0.scalar_binds(before, s1, Ok(exprs[0]))
                    &&& #[trigger] self.1.scalar_binds(s1, s2, Ok(exprs[1]))
                    &&& #[trigger] self.2.scalar_binds(s2, s3, Ok(exprs[2]))
                    &&& #[trigger] self.3.scalar_binds(s3, s4, Ok(exprs[3]))
                    &&& #[trigger] self.4.scalar_binds(s4, s5, Ok(exprs[4]))
                    &&& #[trigger] self.5.scalar_binds(s5, after, Ok(exprs[5]))
                },
            Err(err) => {
                ||| self.0.scalar_binds(before, after, Err(err))
                ||| exists|s1: ScopeView, e0: ExprRef|
                    {
                        &&& #[trigger] self.0.scalar_binds(before, s1, Ok(e0))
                        &&& #[trigger] self.1.scalar_binds(s1, after, Err(err))
                    }
                ||| exists|s1: ScopeView, s2: ScopeView, e0: ExprRef, e1: ExprRef|
                    {
                        &&& #[trigger] self.0.scalar_binds(before, s1, Ok(e0))
                        &&& #[trigger] self.1.scalar_binds(s1, s2, Ok(e1))
                        &&& #[trigger] self.2.scalar_binds(s2, after, Err(err))
                    }
                ||| exists|s1: ScopeView, s2: ScopeView, s3: ScopeView, e0: ExprRef, e1: ExprRef,
                    e2: ExprRef|
                    {
                        &&& #[trigger] self.0.scalar_binds(before, s1, Ok(e0))
                        &&& #[trigger] self.1.scalar_binds(s1, s2, Ok(e1))
                        &&& #[trigger] self.2.scalar_binds(s2, s3, Ok(e2))
                        &&& #[trigger] self.3.scalar_binds(s3, after, Err(err))
                    }
                ||| exists|s1: ScopeView, s2: ScopeView, s3: ScopeView, s4: ScopeView, e0: ExprRef,
                    e1: ExprRef, e2: ExprRef, e3: ExprRef|
                    {
                        &&& #[trigger] self.0.scalar_binds(before, s1, Ok(e0))
                        &&& #[trigger] self.1.scalar_binds(s1, s2, Ok(e1))
                        &&& #[trigger] self.2.scalar_binds(s2, s3, Ok(e2))
                        &&& #[trigger] self.3.scalar_binds(s3, s4, Ok(e3))
                        &&& #[trigger] self.4.scalar_binds(s4, after, Err(err))
                    }
                ||| exists|s1: ScopeView, s2: ScopeView, s3: ScopeView, s4: ScopeView,
                    s5: ScopeView, e0: ExprRef, e1: ExprRef, e2: ExprRef, e3: ExprRef, e4: ExprRef|
                    {
                        &&& #[trigger] self.0.scalar_binds(before, s1, Ok(e0))
                        &&& #[trigger] self.1.scalar_binds(s1, s2, Ok(e1))
                        &&& #[trigger] self.2.scalar_binds(s2, s3, Ok(e2))
                        &&& #[trigger] self.3.scalar_binds(s3, s4, Ok(e3))
                        &&& #[trigger] self.4.scalar_binds(s4, s5, Ok(e4))
                        &&& #[trigger] self.5.scalar_binds(s5, after, Err(err))
                    }
            },
        }
    }

    fn bind_scalar_list(self, scope: &mut ExprBindScope<'_>) -> (res: Result<
        Vec<ExprRef>,
        DatabaseError,
    >) {
        let ghost start = scope@;
        let mut exprs: Vec<ExprRef> = Vec::new();
        let ghost scope0 = scope@;
        proof {
            self.0.lemma_scalar_fits(start.arena, scope@.arena);
        }
        let expr0 = match self.0.bind_scalar(scope) {
            Ok(expr) => expr,
            Err(err) => {
                proof {
                    lemma_extended_trans(start.arena, scope0.arena, scope@.arena);
                }
                return Err(err);
            },
        };
        exprs.push(expr0);
        proof {
            lemma_extended_trans(start.arena, scope0.arena, scope@.arena);
        }
        let ghost scope1 = scope@;
        proof {
            self.1.lemma_scalar_fits(start.arena, scope@.arena);
        }
        let expr1 = match self.1.bind_scalar(scope) {
            Ok(expr) => expr,
            Err(err) => {
                proof {
                    lemma_extended_trans(start.arena, scope1.arena, scope@.arena);
                }
                return Err(err);
            },
        };
        exprs.push(expr1);
        proof {
            lemma_extended_trans(start.arena, scope1.arena, scope@.arena);
        }
        let ghost scope2 = scope@;
        proof {
            self.2.lemma_scalar_fits(start.arena, scope@.arena);
        }
        let expr2 = match self.2.bind_scalar(scope) {
            Ok(expr) => expr,
            Err(err) => {
                proof {
                    lemma_extended_trans(start.arena, scope2.arena, scope@.arena);
                }
                return Err(err);
            },
        };
        exprs.push(expr2);
        proof {
            lemma_extended_trans(start.arena, scope2.arena, scope@.arena);
        }
        let ghost scope3 = scope@;
        proof {
            self.3.lemma_scalar_fits(start.arena, scope@.arena);
        }
        let expr3 = match self.3.bind_scalar(scope) {
            Ok(expr) => expr,
            Err(err) => {
                proof {
                    lemma_extended_trans(start.arena, scope3.arena, scope@.arena);
                }
                return Err(err);
            },
        };
        exprs.push(expr3);
        proof {
            lemma_extended_trans(start.arena, scope3.arena, scope@.arena);
        }
        let ghost scope4 = scope@;
        proof {
            self.4.lemma_scalar_fits(start.arena, scope@.arena);
        }
        let expr4 = match self.4.bind_scalar(scope) {
            Ok(expr) => expr,
            Err(err) => {
                proof {
                    lemma_extended_trans(start.arena, scope4.arena, scope@.arena);
                }
                return Err(err);
            },
        };
        exprs.push(expr4);
        proof {
            lemma_extended_trans(start.arena, scope4.arena, scope@.arena);
        }
        let ghost scope5 = scope@;
        proof {
            self.5.lemma_scalar_fits(start.arena, scope@.arena);
        }
        let expr5 = match self.5.bind_scalar(scope) {
            Ok(expr) => expr,
            Err(err) => {
                proof {
                    lemma_extended_trans(start.arena, scope5.arena, scope@.arena);
                }
                return Err(err);
            },
        };
        exprs.push(expr5);
        proof {
            lemma_extended_trans(start.arena, scope5.arena, scope@.arena);
        }
        assert(exprs@.len() == 6);
        assert(exprs@[0] == expr0);
        assert(exprs@[1] == expr1);
        assert(exprs@[2] == expr2);
        assert(exprs@[3] == expr3);
        assert(exprs@[4] == expr4);
        assert(exprs@[5] == expr5);
        Ok(exprs)
    }
}

impl<A: BindOrmScalar, B: BindOrmScalar, C: BindOrmScalar, D: BindOrmScalar, E: BindOrmScalar,
    F: BindOrmScalar, G: BindOrmScalar> BindOrmScalarList for (A, B, C, D, E, F, G) {
    open spec fn list_fits(self, arena: ArenaView) -> bool {
        &&& self.0.scalar_fits(arena)
        &&& self.1.scalar_fits(arena)
        &&& self.2.scalar_fits(arena)
        &&& self.3.scalar_fits(arena)
        &&& self.4.scalar_fits(arena)
        &&& self.5.scalar_fits(arena)
        &&& self.6.scalar_fits(arena)
    }

    open spec fn list_binds(
        self,
        before: ScopeView,
        after: ScopeView,
        res: Result<Seq<ExprRef>, DatabaseError>,
    ) -> bool {
        match res {
            Ok(exprs) => exprs.len() == 7 && exists|s1: ScopeView, s2: ScopeView, s3: ScopeView,
                s4: ScopeView, s5: ScopeView, s6: ScopeView|
                {
                    &&& #[trigger] self.0.scalar_binds(before, s1, Ok(exprs[0]))
                    &&& #[trigger] self.1.scalar_binds(s1, s2, Ok(exprs[1]))
                    &&& #[trigger] self.2.scalar_binds(s2, s3, Ok(exprs[2]))
                    &&& #[trigger] self.3.scalar_binds(s3, s4, Ok(exprs[3]))
                    &&& #[trigger] self.4.scalar_binds(s4, s5, Ok(exprs[4]))
                    &&& #[trigger] self.5.scalar_binds(s5, s6, Ok(exprs[5]))
                    &&& #[trigger] self.6.scalar_binds(s6, after, Ok(exprs[6]))
                },
            Err(err) => {
                ||| self.0.scalar_binds(before, after, Err(err))
                ||| exists|s1: ScopeView, e0: ExprRef|
                    {
                        &&& #[trigger] self.0.scalar_binds(before, s1, Ok(e0))
                        &&& #[trigger] self.1.scalar_binds(s1, after, Err(err))
                    }
                ||| exists|s1: ScopeView, s2: ScopeView, e0: ExprRef, e1: ExprRef|
                    {
                        &&& #[trigger] self.0.scalar_binds(before, s1, Ok(e0))
                        &&& #[trigger] self.1.scalar_binds(s1, s2, Ok(e1))
                        &&& #[trigger] self.2.scalar_binds(s2, after, Err(err))
                    }
                ||| exists|s1: ScopeView, s2: ScopeView, s3: ScopeView, e0: ExprRef, e1: ExprRef,
                    e2: ExprRef|
                    {
                        &&& #[trigger] self.0.scalar_binds(before, s1, Ok(e0))
                        &&& #[trigger] self.1.scalar_binds(s1, s2, Ok(e1))
                        &&& #[trigger] self.2.scalar_binds(s2, s3, Ok(e2))
                        &&& #[trigger] self.3.scalar_binds(s3, after, Err(err))
                    }
                ||| exists|s1: ScopeView, s2: ScopeView, s3: ScopeView, s4: ScopeView, e0: ExprRef,
                    e1: ExprRef, e2: ExprRef, e3: ExprRef|
                    {
                        &&& #[trigger] self.0.scalar_binds(before, s1, Ok(e0))
                        &&& #[trigger] self.1.scalar_binds(s1, s2, Ok(e1))
                        &&& #[trigger] self.2.scalar_binds(s2, s3, Ok(e2))
                        &&& #[trigger] self.3.scalar_binds(s3, s4, Ok(e3))
                        &&& #[trigger] self.4.scalar_binds(s4, after, Err(err))
                    }
                ||| exists|s1: ScopeView, s2: ScopeView, s3: ScopeView, s4: ScopeView,
                    s5: ScopeView, e0: ExprRef, e1: ExprRef, e2: ExprRef, e3: ExprRef, e4: ExprRef|
                    {
                        &&& #[trigger] self.0.scalar_binds(before, s1, Ok(e0))
                        &&& #[trigger] self.1.scalar_binds(s1, s2, Ok(e1))
                        &&& #[trigger] self.2.scalar_binds(s2, s3, Ok(e2))
                        &&& #[trigger] self.3.scalar_binds(s3, s4, Ok(e3))
                        &&& #[trigger] self.4.scalar_binds(s4, s5, Ok(e4))
                        &&& #[trigger] self.5.scalar_binds(s5, after, Err(err))
                    }
                ||| exists|s1: ScopeView, s2: ScopeView, s3: ScopeView, s4: ScopeView,
                    s5: ScopeView, s6: ScopeView, e0: ExprRef, e1: ExprRef, e2: ExprRef,
                    e3: ExprRef, e4: ExprRef, e5: ExprRef|
                    {
                        &&& #[trigger] self.0.scalar_binds(before, s1, Ok(e0))
                        &&& #[trigger] self.1.scalar_binds(s1, s2, Ok(e1))
                        &&& #[trigger] self.2.scalar_binds(s2, s3, Ok(e2))
                        &&& #[trigger] self.3.scalar_binds(s3, s4, Ok(e3))
                        &&& #[trigger] self.4.scalar_binds(s4, s5, Ok(e4))
                        &&& #[trigger] self.5.scalar_binds(s5, s6, Ok(e5))
                        &&& #[trigger] self.6.scalar_binds(s6, after, Err(err))
                    }
            },
        }
    }

    fn bind_scalar_list(self, scope: &mut ExprBindScope<'_>) -> (res: Result<
        Vec<ExprRef>,
        DatabaseError,
    >) {
        let ghost start = scope@;
        let mut exprs: Vec<ExprRef> = Vec::new();
        let ghost scope0 = scope@;
        proof {
            self.0.lemma_scalar_fits(start.arena, scope@.arena);
        }
        let expr0 = match self.0.bind_scalar(scope) {
            Ok(expr) => expr,
            Err(err) => {
                proof {
                    lemma_extended_trans(start.arena, scope0.arena, scope@.arena);
                }
                return Err(err);
            },
        };
        exprs.push(expr0);
        proof {
            lemma_extended_trans(start.arena, scope0.arena, scope@.arena);
        }
        let ghost scope1 = scope@;
        proof {
            self.1.lemma_scalar_fits(start.arena, scope@.arena);
        }
        let expr1 = match self.1.bind_scalar(scope) {
            Ok(expr) => expr,
            Err(err) => {
                proof {
                    lemma_extended_trans(start.arena, scope1.arena, scope@.arena);
                }
                return Err(err);
            },
        };
        exprs.push(expr1);
        proof {
            lemma_extended_trans(start.arena, scope1.arena, scope@.arena);
        }
        let ghost scope2 = scope@;
        proof {
            self.2.lemma_scalar_fits(start.arena, scope@.arena);
        }
        let expr2 = match self.2.bind_scalar(scope) {
            Ok(expr) => expr,
            Err(err) => {
                proof {
                    lemma_extended_trans(start.arena, scope2.arena, scope@.arena);
                }
                return Err(err);
            },
        };
        exprs.push(expr2);
        proof {
            lemma_extended_trans(start.arena, scope2.arena, scope@.arena);
        }
        let ghost scope3 = scope@;
        proof {
            self.3.lemma_scalar_fits(start.arena, scope@.arena);
        }
        let expr3 = match self.3.bind_scalar(scope) {
            Ok(expr) => expr,
            Err(err) => {
                proof {
                    lemma_extended_trans(start.arena, scope3.arena, scope@.arena);
                }
                return Err(err);
            },
        };
        exprs.push(expr3);
        proof {
            lemma_extended_trans(start.arena, scope3.arena, scope@.arena);
        }
        let ghost scope4 = scope@;
        proof {
            self.4.lemma_scalar_fits(start.arena, scope@.arena);
        }
        let expr4 = match self.4.bind_scalar(scope) {
            Ok(expr) => expr,
            Err(err) => {
                proof {
                    lemma_extended_trans(start.arena, scope4.arena, scope@.arena);
                }
                return Err(err);
            },
        };
        exprs.push(expr4);
        proof {
            lemma_extended_trans(start.arena, scope4.arena, scope@.arena);
        }
        let ghost scope5 = scope@;
        proof {
            self.5.lemma_scalar_fits(start.arena, scope@.arena);
        }
        let expr5 = match self.5.bind_scalar(scope) {
            Ok(expr) => expr,
            Err(err) => {
                proof {
                    lemma_extended_trans(start.arena, scope5.arena, scope@.arena);
                }
                return Err(err);
            },
        };
        exprs.push(expr5);
        proof {
            lemma_extended_trans(start.arena, scope5.arena, scope@.arena);
        }
        let ghost scope6 = scope@;
        proof {
            self.6.lemma_scalar_fits(start.arena, scope@.arena);
        }
        let expr6 = match self.6.bind_scalar(scope) {
            Ok(expr) => expr,
            Err(err) => {
                proof {
                    lemma_extended_trans(start.arena, scope6.arena, scope@.arena);
                }
                return Err(err);
            },
        };
        exprs.push(expr6);
        proof {
            lemma_extended_trans(start.arena, scope6.arena, scope@.arena);
        }
        assert(exprs@.len() == 7);
        assert(exprs@[0] == expr0);
        assert(exprs@[1] == expr1);
        assert(exprs@[2] == expr2);
        assert(exprs@[3] == expr3);
        assert(exprs@[4] == expr4);
        assert(exprs@[5] == expr5);
        assert(exprs@[6] == expr6);
        Ok(exprs)
    }
}

impl<A: BindOrmScalar, B: BindOrmScalar, C: BindOrmScalar, D: BindOrmScalar, E: BindOrmScalar,
    F: BindOrmScalar, G: BindOrmScalar, H: BindOrmScalar> BindOrmScalarList
    for (A, B, C, D, E, F, G, H) {
    open spec fn list_fits(self, arena: ArenaView) -> bool {
        &&& self.0.scalar_fits(arena)
        &&& self.1.scalar_fits(arena)
        &&& self.2.scalar_fits(arena)
        &&& self.3.scalar_fits(arena)
        &&& self.4.scalar_fits(arena)
        &&& self.5.scalar_fits(arena)
        &&& self.6.scalar_fits(arena)
        &&& self.7.scalar_fits(arena)
    }

    open spec fn list_binds(
        self,
        before: ScopeView,
        after: ScopeView,
        res: Result<Seq<ExprRef>, DatabaseError>,
    ) -> bool {
        match res {
            Ok(exprs) => exprs.len() == 8 && exists|s1: ScopeView, s2: ScopeView, s3: ScopeView,
                s4: ScopeView, s5: ScopeView, s6: ScopeView, s7: ScopeView|
                {
                    &&& #[trigger] self.0.scalar_binds(before, s1, Ok(exprs[0]))
                    &&& #[trigger] self.1.scalar_binds(s1, s2, Ok(exprs[1]))
                    &&& #[trigger] self.2.scalar_binds(s2, s3, Ok(exprs[2]))
                    &&& #[trigger] self.3.scalar_binds(s3, s4, Ok(exprs[3]))
                    &&& #[trigger] self.4.scalar_binds(s4, s5, Ok(exprs[4]))
                    &&& #[trigger] self.5.scalar_binds(s5, s6, Ok(exprs[5]))
                    &&& #[trigger] self.6.scalar_binds(s6, s7, Ok(exprs[6]))
                    &&& #[trigger] self.7.scalar_binds(s7, after, Ok(exprs[7]))
                },
            Err(err) => {
                ||| self.0.scalar_binds(before, after, Err(err))
                ||| exists|s1: ScopeView, e0: ExprRef|
                    {
                        &&& #[trigger] self.0.scalar_binds(before, s1, Ok(e0))
                        &&& #[trigger] self.1.scalar_binds(s1, after, Err(err))
                    }
                ||| exists|s1: ScopeView, s2: ScopeView, e0: ExprRef, e1: ExprRef|
                    {
                        &&& #[trigger] self.0.scalar_binds(before, s1, Ok(e0))
                        &&& #[trigger] self.1.scalar_binds(s1, s2, Ok(e1))
                        &&& #[trigger] self.2.scalar_binds(s2, after, Err(err))
                    }
                ||| exists|s1: ScopeView, s2: ScopeView, s3: ScopeView, e0: ExprRef, e1: ExprRef,
                    e2: ExprRef|
                    {
                        &&& #[trigger] self.0.scalar_binds(before, s1, Ok(e0))
                        &&& #[trigger] self.1.scalar_binds(s1, s2, Ok(e1))
                        &&& #[trigger] self.2.scalar_binds(s2, s3, Ok(e2))
                        &&& #[trigger] self.3.scalar_binds(s3, after, Err(err))
                    }
                ||| exists|s1: ScopeView, s2: ScopeView, s3: ScopeView, s4: ScopeView, e0: ExprRef,
                    e1: ExprRef, e2: ExprRef, e3: ExprRef|
                    {
                        &&& #[trigger] self.0.scalar_binds(before, s1, Ok(e0))
                        &&& #[trigger] self.1.scalar_binds(s1, s2, Ok(e1))
                        &&& #[trigger] self.2.scalar_binds(s2, s3, Ok(e2))
                        &&& #[trigger] self.3.scalar_binds(s3, s4, Ok(e3))
                        &&& #[trigger] self.4.scalar_binds(s4, after, Err(err))
                    }
                ||| exists|s1: ScopeView, s2: ScopeView, s3: ScopeView, s4: ScopeView,
                    s5: ScopeView, e0: ExprRef, e1: ExprRef, e2: ExprRef, e3: ExprRef, e4: ExprRef|
                    {
                        &&& #[trigger] self.0.scalar_binds(before, s1, Ok(e0))
                        &&& #[trigger] self.1.scalar_binds(s1, s2, Ok(e1))
                        &&& #[trigger] self.2.scalar_binds(s2, s3, Ok(e2))
                        &&& #[trigger] self.3.scalar_binds(s3, s4, Ok(e3))
                        &&& #[trigger] self.4.scalar_binds(s4, s5, Ok(e4))
                        &&& #[trigger] self.5.scalar_binds(s5, after, Err(err))
                    }
                ||| exists|s1: ScopeView, s2: ScopeView, s3: ScopeView, s4: ScopeView,
                    s5: ScopeView, s6: ScopeView, e0: ExprRef, e1: ExprRef, e2: ExprRef,
                    e3: ExprRef, e4: ExprRef, e5: ExprRef|
                    {
                        &&& #[trigger] self.0.scalar_binds(before, s1, Ok(e0))
                        &&& #[trigger] self.1.scalar_binds(s1, s2, Ok(e1))
                        &&& #[trigger] self.2.scalar_binds(s2, s3, Ok(e2))
                        &&& #[trigger] self.3.scalar_binds(s3, s4, Ok(e3))
                        &&& #[trigger] self.4.scalar_binds(s4, s5, Ok(e4))
                        &&& #[trigger] self.5.scalar_binds(s5, s6, Ok(e5))
                        &&& #[trigger] self.6.scalar_binds(s6, after, Err(err))
                    }
                ||| exists|s1: ScopeView, s2: ScopeView, s3: ScopeView, s4: ScopeView,
                    s5: ScopeView, s6: ScopeView, s7: ScopeView, e0: ExprRef, e1: ExprRef,
                    e2: ExprRef, e3: ExprRef, e4: ExprRef, e5: ExprRef, e6: ExprRef|
                    {
                        &&& #[trigger] self.0.scalar_binds(before, s1, Ok(e0))
                        &&& #[trigger] self.1.scalar_binds(s1, s2, Ok(e1))
                        &&& #[trigger] self.2.scalar_binds(s2, s3, Ok(e2))
                        &&& #[trigger] self.3.scalar_binds(s3, s4, Ok(e3))
                        &&& #[trigger] self.4.scalar_binds(s4, s5, Ok(e4))
                        &&& #[trigger] self.5.scalar_binds(s5, s6, Ok(e5))
                        &&& #[trigger] self.6.scalar_binds(s6, s7, Ok(e6))
                        &&& #[trigger] self.7.scalar_binds(s7, after, Err(err))
                    }
            },
        }
    }

    fn bind_scalar_list(self, scope: &mut ExprBindScope<'_>) -> (res: Result<
        Vec<ExprRef>,
        DatabaseError,
    >) {
        let ghost start = scope@;
        let mut exprs: Vec<ExprRef> = Vec::new();
        let ghost scope0 = scope@;
        proof {
            self.0.lemma_scalar_fits(start.arena, scope@.arena);
        }
        let expr0 = match self.0.bind_scalar(scope) {
            Ok(expr) => expr,
            Err(err) => {
                proof {
                    lemma_extended_trans(start.arena, scope0.arena, scope@.arena);
                }
                return Err(err);
            },
        };
        exprs.push(expr0);
        proof {
            lemma_extended_trans(start.arena, scope0.arena, scope@.arena);
        }
        let ghost scope1 = scope@;
        proof {
            self.1.lemma_scalar_fits(start.arena, scope@.arena);
        }
        let expr1 = match self.1.bind_scalar(scope) {
            Ok(expr) => expr,
            Err(err) => {
                proof {
                    lemma_extended_trans(start.arena, scope1.arena, scope@.arena);
                }
                return Err(err);
            },
        };
        exprs.push(expr1);
        proof {
            lemma_extended_trans(start.arena, scope1.arena, scope@.arena);
        }
        let ghost scope2 = scope@;
        proof {
            self.2.lemma_scalar_fits(start.arena, scope@.arena);
        }
        let expr2 = match self.2.bind_scalar(scope) {
            Ok(expr) => expr,
            Err(err) => {
                proof {
                    lemma_extended_trans(start.arena, scope2.arena, scope@.arena);
                }
                return Err(err);
            },
        };
        exprs.push(expr2);
        proof {
            lemma_extended_trans(start.arena, scope2.arena, scope@.arena);
        }
        let ghost scope3 = scope@;
        proof {
            self.3.lemma_scalar_fits(start.arena, scope@.arena);
        }
        let expr3 = match self.3.bind_scalar(scope) {
            Ok(expr) => expr,
            Err(err) => {
                proof {
                    lemma_extended_trans(start.arena, scope3.arena, scope@.arena);
                }
                return Err(err);
            },
        };
        exprs.push(expr3);
        proof {
            lemma_extended_trans(start.arena, scope3.arena, scope@.arena);
        }
        let ghost scope4 = scope@;
        proof {
            self.4.lemma_scalar_fits(start.arena, scope@.arena);
        }
        let expr4 = match self.4.bind_scalar(scope) {
            Ok(expr) => expr,
            Err(err) => {
                proof {
                    lemma_extended_trans(start.arena, scope4.arena, scope@.arena);
                }
                return Err(err);
            },
        };
        exprs.push(expr4);
        proof {
            lemma_extended_trans(start.arena, scope4.arena, scope@.arena);
        }
        let ghost scope5 = scope@;
        proof {
            self.5.lemma_scalar_fits(start.arena, scope@.arena);
        }
        let expr5 = match self.5.bind_scalar(scope) {
            Ok(expr) => expr,
            Err(err) => {
                proof {
                    lemma_extended_trans(start.arena, scope5.arena, scope@.arena);
                }
                return Err(err);
            },
        };
        exprs.push(expr5);
        proof {
            lemma_extended_trans(start.arena, scope5.arena, scope@.arena);
        }
        let ghost scope6 = scope@;
        proof {
            self.6.lemma_scalar_fits(start.arena, scope@.arena);
        }
        let expr6 = match self.6.bind_scalar(scope) {
            Ok(expr) => expr,
            Err(err) => {
                proof {
                    lemma_extended_trans(start.arena, scope6.arena, scope@.arena);
                }
                return Err(err);
            },
        };
        exprs.push(expr6);
        proof {
            lemma_extended_trans(start.arena, scope6.arena, scope@.arena);
        }
        let ghost scope7 = scope@;
        proof {
            self.7.lemma_scalar_fits(start.arena, scope@.arena);
        }
        let expr7 = match self.7.bind_scalar(scope) {
            Ok(expr) => expr,
            Err(err) => {
                proof {
                    lemma_extended_trans(start.arena, scope7.arena, scope@.arena);
                }
                return Err(err);
            },
        };
        exprs.push(expr7);
        proof {
            lemma_extended_trans(start.arena, scope7.arena, scope@.arena);
        }
        assert(exprs@.len() == 8);
        assert(exprs@[0] == expr0);
        assert(exprs@[1] == expr1);
        assert(exprs@[2] == expr2);
        assert(exprs@[3] == expr3);
        assert(exprs@[4] == expr4);
        assert(exprs@[5] == expr5);
        assert(exprs@[6] == expr6);
        assert(exprs@[7] == expr7);
        Ok(exprs)
    }
}

} // verus!
