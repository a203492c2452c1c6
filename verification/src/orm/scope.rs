//! Expressions of a query, bound as they are written.

use crate::binder::expr::{
    agg_type, binary_type, binary_view, cast_expr, constant_view, types_of, unary_type, unary_view,
    window_type,
};
use crate::binder::{column_view, lemma_known_extended, Binder, BinderView, NameBinding};
use crate::errors::DatabaseError;
use crate::expression::analysis::type_of;
use crate::expression::{
    flat_pairs, optional, sort_directions, sort_exprs, AggKind, AliasType, BinaryOperator, ExprHead,
    ExprView, ScalarExpression, UnaryOperator, WindowFunctionKind,
};
use crate::orm::field::{Field, WindowSpec};
use crate::orm::value::{text_value, ToDataValue};
use crate::planner::arena::{ArenaView, ExprRef, PlanArena};
use crate::planner::operator::sort::SortField;
use crate::planner::operator::valid_fields;
use crate::types::value::{DataValue, DataValueView};
use crate::types::{LogicalType, LogicalTypeView};
use std::marker::PhantomData;
use std::rc::Rc;
use vstd::prelude::*;

verus! {

/// The place where the expressions of a query are bound.
#[derive(Debug)]
pub struct ExprBindScope<'a> {
    pub binder: Binder<'a>,
    pub arena: PlanArena,
}

/// Mathematical model of an [`ExprBindScope`].
pub struct ScopeView {
    pub binder: BinderView,
    pub arena: ArenaView,
}

impl<'a> View for ExprBindScope<'a> {
    type V = ScopeView;

    open spec fn view(&self) -> ScopeView {
        ScopeView { binder: self.binder@, arena: self.arena@ }
    }
}

impl ScopeView {
    /// Whether everything that the query refers to is in its arena.
    pub open spec fn known(self) -> bool {
        self.binder.known(self.arena)
    }

    /// Whether the later scope holds all that this one holds, over the same catalog.
    pub open spec fn extended_by(self, later: ScopeView) -> bool {
        &&& self.arena.extended_by(later.arena)
        &&& later.binder.tables == self.binder.tables
        &&& later.binder.functions == self.binder.functions
    }

    /// The scope with another arena.
    pub open spec fn with_arena(self, arena: ArenaView) -> ScopeView {
        ScopeView { arena, ..self }
    }
}

/// An expression that is bound, or a node that is not yet in the arena.
#[derive(Debug)]
pub enum OrmExpression {
    Bound(ExprRef),
    Unbound(ScalarExpression),
}

/// Mathematical model of an [`OrmExpression`].
pub enum OrmView {
    Bound(ExprRef),
    Unbound(ExprView),
}

impl View for OrmExpression {
    type V = OrmView;

    open spec fn view(&self) -> OrmView {
        match self {
            OrmExpression::Bound(expr) => OrmView::Bound(*expr),
            OrmExpression::Unbound(expr) => OrmView::Unbound(expr@),
        }
    }
}

impl OrmView {
    /// Whether everything that the expression refers to is in the arena.
    pub open spec fn fits(self, arena: ArenaView) -> bool {
        match self {
            OrmView::Bound(expr) => arena.has_expr(expr),
            OrmView::Unbound(expr) => arena.fits(expr),
        }
    }
}

impl From<ExprRef> for OrmExpression {
    fn from(expr: ExprRef) -> (res: Self) {
        OrmExpression::Bound(expr)
    }
}

impl vstd::std_specs::convert::FromSpecImpl<ExprRef> for OrmExpression {
    open spec fn obeys_from_spec() -> bool {
        true
    }

    open spec fn from_spec(expr: ExprRef) -> OrmExpression {
        OrmExpression::Bound(expr)
    }
}

impl From<ScalarExpression> for OrmExpression {
    fn from(expr: ScalarExpression) -> (res: Self) {
        OrmExpression::Unbound(expr)
    }
}

impl vstd::std_specs::convert::FromSpecImpl<ScalarExpression> for OrmExpression {
    open spec fn obeys_from_spec() -> bool {
        true
    }

    open spec fn from_spec(expr: ScalarExpression) -> OrmExpression {
        OrmExpression::Unbound(expr)
    }
}

/// What can stand for an expression.
pub trait IntoOrmExpression: Sized {
    /// The expression.
    spec fn orm(self) -> OrmView;

    /// The expression.
    fn into_orm_expression(self) -> (res: OrmExpression)
        ensures
            res@ == self.orm(),
    ;
}

impl IntoOrmExpression for OrmExpression {
    open spec fn orm(self) -> OrmView {
        self@
    }

    fn into_orm_expression(self) -> (res: OrmExpression) {
        self
    }
}

impl IntoOrmExpression for ExprRef {
    open spec fn orm(self) -> OrmView {
        OrmView::Bound(self)
    }

    fn into_orm_expression(self) -> (res: OrmExpression) {
        OrmExpression::Bound(self)
    }
}

impl IntoOrmExpression for ScalarExpression {
    open spec fn orm(self) -> OrmView {
        OrmView::Unbound(self@)
    }

    fn into_orm_expression(self) -> (res: OrmExpression) {
        OrmExpression::Unbound(self)
    }
}

impl IntoOrmExpression for DataValue {
    open spec fn orm(self) -> OrmView {
        OrmView::Unbound(constant_view(self@))
    }

    fn into_orm_expression(self) -> (res: OrmExpression) {
        OrmExpression::Unbound(ScalarExpression::Constant(self))
    }
}

impl IntoOrmExpression for bool {
    open spec fn orm(self) -> OrmView {
        OrmView::Unbound(constant_view(self.encoded()))
    }

    fn into_orm_expression(self) -> (res: OrmExpression) {
        OrmExpression::Unbound(ScalarExpression::Constant(self.to_data_value()))
    }
}

impl IntoOrmExpression for i32 {
    open spec fn orm(self) -> OrmView {
        OrmView::Unbound(constant_view(self.encoded()))
    }

    fn into_orm_expression(self) -> (res: OrmExpression) {
        OrmExpression::Unbound(ScalarExpression::Constant(self.to_data_value()))
    }
}

impl IntoOrmExpression for i64 {
    open spec fn orm(self) -> OrmView {
        OrmView::Unbound(constant_view(self.encoded()))
    }

    fn into_orm_expression(self) -> (res: OrmExpression) {
        OrmExpression::Unbound(ScalarExpression::Constant(self.to_data_value()))
    }
}

impl IntoOrmExpression for String {
    open spec fn orm(self) -> OrmView {
        OrmView::Unbound(constant_view(self.encoded()))
    }

    fn into_orm_expression(self) -> (res: OrmExpression) {
        OrmExpression::Unbound(ScalarExpression::Constant(self.to_data_value()))
    }
}

impl IntoOrmExpression for &'static str {
    open spec fn orm(self) -> OrmView {
        OrmView::Unbound(constant_view(self.encoded()))
    }

    fn into_orm_expression(self) -> (res: OrmExpression) {
        OrmExpression::Unbound(ScalarExpression::Constant(self.to_data_value()))
    }
}

/// An expression of the query that is being bound. It belongs to the scope that binds the query,
/// and like the scope it is neither sent to other threads nor shared with them.
#[derive(Clone, Copy, Debug, PartialEq, Eq, Hash)]
pub struct CtxExpression {
    pub expr: ExprRef,
    pub marker: PhantomData<Rc<()>>,
}

impl IntoOrmExpression for CtxExpression {
    open spec fn orm(self) -> OrmView {
        OrmView::Bound(self.expr)
    }

    fn into_orm_expression(self) -> (res: OrmExpression) {
        OrmExpression::Bound(self.expr)
    }
}

impl From<CtxExpression> for ExprRef {
    fn from(expr: CtxExpression) -> (res: Self) {
        expr.expr
    }
}

impl vstd::std_specs::convert::FromSpecImpl<CtxExpression> for ExprRef {
    open spec fn obeys_from_spec() -> bool {
        true
    }

    open spec fn from_spec(expr: CtxExpression) -> ExprRef {
        expr.expr
    }
}

/// The reference of an expression, and the arena with it.
pub open spec fn bind_view(arena: ArenaView, expr: OrmView) -> (ExprRef, ArenaView) {
    match expr {
        OrmView::Bound(expr) => (expr, arena),
        OrmView::Unbound(expr) => (ExprRef(arena.exprs.len() as usize), arena.push_expr(expr)),
    }
}

/// The references of the expressions, bound from the first to the last, and the arena with them.
pub open spec fn bind_views(arena: ArenaView, exprs: Seq<OrmView>) -> (Seq<ExprRef>, ArenaView)
    decreases exprs.len(),
{
    if exprs.len() == 0 {
        (Seq::empty(), arena)
    } else {
        let front = bind_views(arena, exprs.drop_last());
        let (expr, after) = bind_view(front.1, exprs.last());
        (front.0.push(expr), after)
    }
}

/// The references of the pairs, each first part before its second, and the arena with them.
pub open spec fn bind_pairs(arena: ArenaView, pairs: Seq<(OrmView, OrmView)>) -> (
    Seq<(ExprRef, ExprRef)>,
    ArenaView,
)
    decreases pairs.len(),
{
    if pairs.len() == 0 {
        (Seq::empty(), arena)
    } else {
        let front = bind_pairs(arena, pairs.drop_last());
        let (first, middle) = bind_view(front.1, pairs.last().0);
        let (second, after) = bind_view(middle, pairs.last().1);
        (front.0.push((first, second)), after)
    }
}

/// The expressions that values stand for.
pub open spec fn orm_views<E: IntoOrmExpression>(values: Seq<E>) -> Seq<OrmView> {
    values.map_values(|value: E| value.orm())
}

/// The expressions that pairs of values stand for.
pub open spec fn orm_pairs<C: IntoOrmExpression, V: IntoOrmExpression>(
    values: Seq<(C, V)>,
) -> Seq<(OrmView, OrmView)> {
    values.map_values(|pair: (C, V)| (pair.0.orm(), pair.1.orm()))
}

/// Whether all expressions fit.
pub open spec fn all_fit(exprs: Seq<OrmView>, arena: ArenaView) -> bool {
    forall|i: int| 0 <= i < exprs.len() ==> (#[trigger] exprs[i]).fits(arena)
}

/// Whether all parts of the pairs fit.
pub open spec fn pairs_fit(pairs: Seq<(OrmView, OrmView)>, arena: ArenaView) -> bool {
    forall|i: int|
        0 <= i < pairs.len() ==> (#[trigger] pairs[i]).0.fits(arena) && pairs[i].1.fits(arena)
}

/// What fits an arena fits a larger one.
pub proof fn lemma_fits_extended(expr: OrmView, before: ArenaView, after: ArenaView)
    requires
        expr.fits(before),
        before.extended_by(after),
    ensures
        expr.fits(after),
{
}

/// A node at the end of the arena.
pub open spec fn alloc_view(scope: ScopeView, node: ExprView) -> (CtxExpression, ScopeView) {
    (
        CtxExpression { expr: ExprRef(scope.arena.exprs.len() as usize), marker: PhantomData },
        scope.with_arena(scope.arena.push_expr(node)),
    )
}

/// Outcomes of an operation on two operands, the left one bound first.
pub open spec fn binary_bound(
    before: ScopeView,
    left: OrmView,
    op: BinaryOperator,
    right: OrmView,
    after: ScopeView,
    res: Result<CtxExpression, DatabaseError>,
) -> bool {
    let (l, middle) = bind_view(before.arena, left);
    let (r, arena) = bind_view(middle, right);
    match binary_type(op, type_of(arena, l), type_of(arena, r)) {
        Some(ty) => {
            let (expr, done) = alloc_view(
                before.with_arena(arena),
                binary_view(op, l, r, ty),
            );
            res == Ok::<CtxExpression, DatabaseError>(expr) && after == done
        },
        None => {
            &&& res == Err::<CtxExpression, DatabaseError>(
                DatabaseError::MisMatch("the left operand type", "the right operand type"),
            )
            &&& after == before.with_arena(arena)
        },
    }
}

/// The outcome of an operation on one operand.
pub open spec fn unary_bound(before: ScopeView, op: UnaryOperator, operand: OrmView) -> (
    CtxExpression,
    ScopeView,
) {
    let (expr, arena) = bind_view(before.arena, operand);
    alloc_view(before.with_arena(arena), unary_view(op, expr, unary_type(op, type_of(arena, expr))))
}

/// The outcome of a test for null.
pub open spec fn null_test(before: ScopeView, operand: OrmView, negated: bool) -> (
    CtxExpression,
    ScopeView,
) {
    let (expr, arena) = bind_view(before.arena, operand);
    alloc_view(
        before.with_arena(arena),
        ExprView { head: ExprHead::IsNull { negated }, children: seq![expr] },
    )
}

/// The outcome of a test for a list.
pub open spec fn list_test(
    before: ScopeView,
    operand: OrmView,
    values: Seq<OrmView>,
    negated: bool,
) -> (CtxExpression, ScopeView) {
    let (expr, middle) = bind_view(before.arena, operand);
    let (args, arena) = bind_views(middle, values);
    alloc_view(
        before.with_arena(arena),
        ExprView { head: ExprHead::In { negated }, children: seq![expr] + args },
    )
}

/// The outcome of a test for a range.
pub open spec fn range_test(
    before: ScopeView,
    operand: OrmView,
    low: OrmView,
    high: OrmView,
    negated: bool,
) -> (CtxExpression, ScopeView) {
    let (expr, first) = bind_view(before.arena, operand);
    let (left, second) = bind_view(first, low);
    let (right, arena) = bind_view(second, high);
    alloc_view(
        before.with_arena(arena),
        ExprView { head: ExprHead::Between { negated }, children: seq![expr, left, right] },
    )
}

/// The outcome of giving an expression a name, which the query then knows.
pub open spec fn named(before: ScopeView, operand: OrmView, alias: Seq<char>) -> (
    CtxExpression,
    ScopeView,
) {
    let (expr, arena) = bind_view(before.arena, operand);
    alloc_view(
        ScopeView {
            binder: BinderView { aliases: before.binder.aliases.push((alias, expr)),
                ..before.binder },
            arena,
        },
        ExprView { head: ExprHead::AliasName(alias), children: seq![expr] },
    )
}

/// Outcomes of a cast.
pub open spec fn cast_bound(
    before: ScopeView,
    operand: OrmView,
    ty: LogicalTypeView,
    after: ScopeView,
    res: Result<CtxExpression, DatabaseError>,
) -> bool {
    let (expr, arena) = bind_view(before.arena, operand);
    match cast_expr(arena, expr, ty) {
        Some((cast, done)) => res
            == Ok::<CtxExpression, DatabaseError>(CtxExpression { expr: cast, marker: PhantomData })
            && after == before.with_arena(done),
        None => (res matches Err(DatabaseError::CastFail { from, to }) && from@ == type_of(
            arena,
            expr,
        ) && to@ == ty) && after == before.with_arena(arena),
    }
}

/// Outcomes of a call of a function with bound arguments.
pub open spec fn call_bound(
    before: ScopeView,
    name: Seq<char>,
    args: Seq<ExprRef>,
    after: ScopeView,
    res: Result<CtxExpression, DatabaseError>,
) -> bool {
    let key = (name, types_of(before.arena, args));
    let known = before.binder.functions.map();
    if known.contains_key(key) {
        let (expr, done) = alloc_view(
            before,
            ExprView {
                head: ExprHead::ScalaFunction { name, ty: known[key].return_type@ },
                children: args,
            },
        );
        res == Ok::<CtxExpression, DatabaseError>(expr) && after == done
    } else {
        (res matches Err(DatabaseError::FunctionNotFound { name: n }) && n@ == name) && after
            == before
    }
}

/// Outcomes of an aggregate over bound arguments.
pub open spec fn aggregate_bound(
    before: ScopeView,
    kind: AggKind,
    args: Seq<ExprRef>,
    after: ScopeView,
    res: Result<CtxExpression, DatabaseError>,
) -> bool {
    if args.len() == 1 {
        let (expr, done) = alloc_view(
            before,
            ExprView {
                head: ExprHead::AggCall {
                    distinct: false,
                    kind,
                    ty: agg_type(kind, type_of(before.arena, args[0])),
                },
                children: args,
            },
        );
        res == Ok::<CtxExpression, DatabaseError>(expr) && after == done
    } else {
        &&& res == Err::<CtxExpression, DatabaseError>(
            DatabaseError::MisMatch("the number of aggregate arguments", "one"),
        )
        &&& after == before
    }
}

/// Outcomes of a window function over bound arguments.
pub open spec fn window_bound(
    before: ScopeView,
    kind: WindowFunctionKind,
    args: Seq<ExprRef>,
    partitions: Seq<ExprRef>,
    orders: Seq<SortField>,
    after: ScopeView,
    res: Result<CtxExpression, DatabaseError>,
) -> bool {
    match window_type(kind, types_of(before.arena, args)) {
        Some(ty) => {
            let (expr, done) = alloc_view(
                before,
                ExprView {
                    head: ExprHead::WindowCall {
                        kind,
                        args: args.len(),
                        partitions: partitions.len(),
                        orders: sort_directions(orders),
                        ty,
                    },
                    children: args + partitions + sort_exprs(orders),
                },
            );
            res == Ok::<CtxExpression, DatabaseError>(expr) && after == done
        },
        None => {
            &&& res == Err::<CtxExpression, DatabaseError>(
                DatabaseError::MisMatch("the number of window arguments", "the window function"),
            )
            &&& after == before
        },
    }
}

/// The type of a case: that of its first value, else that of its default, else null.
pub open spec fn case_type(
    arena: ArenaView,
    pairs: Seq<(ExprRef, ExprRef)>,
    otherwise: Option<ExprRef>,
) -> LogicalTypeView {
    if pairs.len() > 0 {
        type_of(arena, pairs[0].1)
    } else {
        match otherwise {
            Some(expr) => type_of(arena, expr),
            None => LogicalTypeView::Plain(LogicalType::SqlNull),
        }
    }
}

/// The outcome of a case with an optional operand.
pub open spec fn case_bound(
    before: ScopeView,
    operand: Option<OrmView>,
    pairs: Seq<(OrmView, OrmView)>,
    otherwise: Option<OrmView>,
) -> (CtxExpression, ScopeView) {
    let (first, start) = match operand {
        Some(operand) => {
            let (expr, arena) = bind_view(before.arena, operand);
            (Some(expr), arena)
        },
        None => (None, before.arena),
    };
    let (bound, middle) = bind_pairs(start, pairs);
    let (last, arena) = match otherwise {
        Some(otherwise) => {
            let (expr, arena) = bind_view(middle, otherwise);
            (Some(expr), arena)
        },
        None => (None, middle),
    };
    alloc_view(
        before.with_arena(arena),
        ExprView {
            head: ExprHead::CaseWhen {
                operand: first is Some,
                pairs: bound.len(),
                otherwise: last is Some,
                ty: case_type(arena, bound, last),
            },
            children: optional(first) + flat_pairs(bound) + optional(last),
        },
    )
}

/// Outcomes of looking a qualified name up.
pub open spec fn column_bound(
    before: ScopeView,
    relation: Seq<char>,
    name: Seq<char>,
    after: ScopeView,
    res: Result<CtxExpression, DatabaseError>,
) -> bool {
    match before.binder.binding(before.arena, relation, name) {
        NameBinding::Own { column, position } => {
            let (expr, done) = alloc_view(before, column_view(column, position));
            res == Ok::<CtxExpression, DatabaseError>(expr) && after == done
        },
        NameBinding::Outer { column, position } => {
            let (expr, done) = alloc_view(
                ScopeView {
                    binder: BinderView { outer_refs: true, ..before.binder },
                    ..before
                },
                column_view(column, position),
            );
            res == Ok::<CtxExpression, DatabaseError>(expr) && after == done
        },
        NameBinding::NoColumn => (res matches Err(DatabaseError::ColumnNotFound { name: n, span })
            && n@ == name && span is None) && after == before,
        NameBinding::NoRelation => (res matches Err(DatabaseError::InvalidTable { name: n }) && n@
            == relation) && after == before,
    }
}

impl<'a> ExprBindScope<'a> {
    /// Whether everything that the query refers to is in its arena.
    pub open spec fn known(&self) -> bool {
        self@.known()
    }

    pub fn new(binder: Binder<'a>, arena: PlanArena) -> (res: Self)
        ensures
            res == (ExprBindScope { binder, arena }),
    {
        ExprBindScope { binder, arena }
    }

    /// Puts an expression into the arena, unless it is there.
    pub fn bind(&mut self, expr: OrmExpression) -> (res: ExprRef)
        requires
            old(self).known(),
            expr@.fits(old(self)@.arena),
        ensures
            (res, final(self)@.arena) == bind_view(old(self)@.arena, expr@),
            final(self)@.binder == old(self)@.binder,
            final(self).binder == old(self).binder,
            final(self).known(),
            old(self)@.extended_by(final(self)@),
            final(self)@.arena.has_expr(res),
    {
        match expr {
            OrmExpression::Bound(expr) => expr,
            OrmExpression::Unbound(expr) => {
                let ghost before = self.arena@;
                let res = self.arena.alloc_expression(expr);
                proof {
                    lemma_known_extended(self.binder@, before, self.arena@);
                }
                res
            },
        }
    }

    /// Puts a node at the end of the arena.
    fn add_node(&mut self, expr: ScalarExpression) -> (res: CtxExpression)
        requires
            old(self).known(),
            old(self)@.arena.fits(expr@),
        ensures
            (res, final(self)@) == alloc_view(old(self)@, expr@),
            final(self).binder == old(self).binder,
            final(self).known(),
            old(self)@.extended_by(final(self)@),
            final(self)@.arena.has_expr(res.expr),
    {
        let expr = self.bind(OrmExpression::Unbound(expr));
        CtxExpression { expr, marker: PhantomData }
    }

    /// Puts expressions into the arena, from the first to the last.
    pub fn bind_list<E: IntoOrmExpression>(&mut self, values: Vec<E>) -> (res: Vec<ExprRef>)
        requires
            old(self).known(),
            all_fit(orm_views(values@), old(self)@.arena),
        ensures
            (res@, final(self)@.arena) == bind_views(old(self)@.arena, orm_views(values@)),
            final(self)@.binder == old(self)@.binder,
            final(self).known(),
            old(self)@.extended_by(final(self)@),
            final(self)@.arena.has_exprs(res@),
    {
        let ghost all = orm_views(values@);
        let ghost start = self@;
        let mut rest = values;
        let mut out: Vec<ExprRef> = Vec::new();
        let mut i: usize = 0;
        let count: usize = rest.len();
        assert(all.take(0) =~= Seq::empty());
        while i < count
            invariant
                i <= count,
                count == all.len(),
                rest@.len() == count - i,
                orm_views(rest@) =~= all.skip(i as int),
                start.known(),
                all_fit(all, start.arena),
                self.known(),
                self@.binder == start.binder,
                start.arena.extended_by(self@.arena),
                (out@, self@.arena) == bind_views(start.arena, all.take(i as int)),
                self@.arena.has_exprs(out@),
            decreases count - i,
        {
            let ghost whole = rest@;
            let value = rest.remove(0);
            proof {
                assert(orm_views(whole)[0] == value.orm());
                assert(all.skip(i as int)[0] == all[i as int]);
                assert(all[i as int].fits(start.arena));
                lemma_fits_extended(value.orm(), start.arena, self@.arena);
            }
            let ghost before = self@.arena;
            let expr = self.bind(value.into_orm_expression());
            out.push(expr);
            proof {
                let next = all.take(i + 1);
                assert(next.drop_last() =~= all.take(i as int));
                assert(next.last() == all[i as int]);
                assert(orm_views(rest@) =~= all.skip(i + 1)) by {
                    assert forall|j: int| 0 <= j < rest@.len() implies orm_views(rest@)[j]
                        == all.skip(i + 1)[j] by {
                        assert(rest@[j] == whole[j + 1]);
                        assert(orm_views(whole)[j + 1] == all.skip(i as int)[j + 1]);
                    }
                }
                assert(before.extended_by(self@.arena));
                assert(start.arena.extended_by(self@.arena)) by {
                    lemma_extended_trans(start.arena, before, self@.arena);
                }
            }
            i += 1;
        }
        assert(all.take(i as int) =~= all);
        out
    }

    /// Puts pairs of expressions into the arena.
    fn bind_pair_list<C: IntoOrmExpression, V: IntoOrmExpression>(
        &mut self,
        values: Vec<(C, V)>,
    ) -> (res: Vec<(ExprRef, ExprRef)>)
        requires
            old(self).known(),
            pairs_fit(orm_pairs(values@), old(self)@.arena),
        ensures
            (res@, final(self)@.arena) == bind_pairs(old(self)@.arena, orm_pairs(values@)),
            final(self)@.binder == old(self)@.binder,
            final(self).known(),
            old(self)@.extended_by(final(self)@),
            forall|i: int|
                0 <= i < res@.len() ==> final(self)@.arena.has_expr((#[trigger] res@[i]).0)
                    && final(self)@.arena.has_expr(res@[i].1),
    {
        let ghost all = orm_pairs(values@);
        let ghost start = self@;
        let mut rest = values;
        let mut out: Vec<(ExprRef, ExprRef)> = Vec::new();
        let mut i: usize = 0;
        let count: usize = rest.len();
        assert(all.take(0) =~= Seq::empty());
        while i < count
            invariant
                i <= count,
                count == all.len(),
                rest@.len() == count - i,
                orm_pairs(rest@) =~= all.skip(i as int),
                start.known(),
                pairs_fit(all, start.arena),
                self.known(),
                self@.binder == start.binder,
                start.arena.extended_by(self@.arena),
                (out@, self@.arena) == bind_pairs(start.arena, all.take(i as int)),
                forall|j: int|
                    0 <= j < out@.len() ==> self@.arena.has_expr((#[trigger] out@[j]).0)
                        && self@.arena.has_expr(out@[j].1),
            decreases count - i,
        {
            let ghost whole = rest@;
            let ghost before = self@.arena;
            let (first, second) = rest.remove(0);
            proof {
                assert(orm_pairs(whole)[0] == (first.orm(), second.orm()));
                assert(all.skip(i as int)[0] == all[i as int]);
                assert(all[i as int].0.fits(start.arena));
                lemma_fits_extended(first.orm(), start.arena, self@.arena);
                lemma_fits_extended(second.orm(), start.arena, self@.arena);
            }
            let left = self.bind(first.into_orm_expression());
            let ghost middle = self@.arena;
            proof {
                lemma_fits_extended(second.orm(), before, middle);
            }
            let right = self.bind(second.into_orm_expression());
            out.push((left, right));
            proof {
                let next = all.take(i + 1);
                assert(next.drop_last() =~= all.take(i as int));
                assert(next.last() == all[i as int]);
                assert(orm_pairs(rest@) =~= all.skip(i + 1)) by {
                    assert forall|j: int| 0 <= j < rest@.len() implies orm_pairs(rest@)[j]
                        == all.skip(i + 1)[j] by {
                        assert(rest@[j] == whole[j + 1]);
                        assert(orm_pairs(whole)[j + 1] == all.skip(i as int)[j + 1]);
                    }
                }
                lemma_extended_trans(start.arena, before, middle);
                lemma_extended_trans(start.arena, middle, self@.arena);
            }
            i += 1;
        }
        assert(all.take(i as int) =~= all);
        out
    }
}

/// Growing twice is growing.
pub proof fn lemma_extended_trans(first: ArenaView, second: ArenaView, third: ArenaView)
    requires
        first.extended_by(second),
        second.extended_by(third),
    ensures
        first.extended_by(third),
{
    assert forall|i: int| 0 <= i < first.exprs.len() implies first.exprs[i] == third.exprs[i] by {
        assert(first.exprs[i] == second.exprs[i]);
        assert(second.exprs[i] == third.exprs[i]);
    }
    assert forall|i: int| 0 <= i < first.columns.len() implies first.columns[i]
        == third.columns[i] by {
        assert(first.columns[i] == second.columns[i]);
        assert(second.columns[i] == third.columns[i]);
    }
}

impl<'a> ExprBindScope<'a> {
    /// The column behind a qualified name.
    pub fn column_ref(&mut self, relation: &str, column: &str) -> (res: Result<
        CtxExpression,
        DatabaseError,
    >)
        requires
            old(self).known(),
        ensures
            column_bound(old(self)@, relation@, column@, final(self)@, res),
            final(self).known(),
            old(self)@.extended_by(final(self)@),
            res matches Ok(ctx) ==> final(self)@.arena.has_expr(ctx.expr),
    {
        match self.binder.bind_column_ref_by_name(relation, column, &self.arena) {
            Ok(expr) => {
                assert(self.known());
                Ok(self.add_node(expr))
            },
            Err(err) => Err(err),
        }
    }

    /// A column of a model.
    pub fn column<M, V>(&mut self, field: Field<M, V>) -> (res: Result<
        CtxExpression,
        DatabaseError,
    >)
        requires
            old(self).known(),
        ensures
            column_bound(old(self)@, field.table(), field.column(), final(self)@, res),
            final(self).known(),
            old(self)@.extended_by(final(self)@),
            res matches Ok(ctx) ==> final(self)@.arena.has_expr(ctx.expr),
    {
        self.column_ref(field.table_name(), field.column_name())
    }

    /// A column of a model whose table goes by another name.
    pub fn qualified_column<M, V>(&mut self, relation: &str, field: Field<M, V>) -> (res: Result<
        CtxExpression,
        DatabaseError,
    >)
        requires
            old(self).known(),
        ensures
            column_bound(old(self)@, relation@, field.column(), final(self)@, res),
            final(self).known(),
            old(self)@.extended_by(final(self)@),
            res matches Ok(ctx) ==> final(self)@.arena.has_expr(ctx.expr),
    {
        self.column_ref(relation, field.column_name())
    }

    /// A constant.
    pub fn value<V: ToDataValue>(&mut self, value: V) -> (res: CtxExpression)
        requires
            old(self).known(),
        ensures
            (res, final(self)@) == alloc_view(old(self)@, constant_view(value.encoded())),
            final(self).known(),
            old(self)@.extended_by(final(self)@),
            final(self)@.arena.has_expr(res.expr),
    {
        self.data_value(value.to_data_value())
    }

    /// A constant.
    pub fn data_value(&mut self, value: DataValue) -> (res: CtxExpression)
        requires
            old(self).known(),
        ensures
            (res, final(self)@) == alloc_view(old(self)@, constant_view(value@)),
            final(self).known(),
            old(self)@.extended_by(final(self)@),
            final(self)@.arena.has_expr(res.expr),
    {
        self.add_node(ScalarExpression::Constant(value))
    }

    /// Gives an expression a name.
    pub fn alias<E: IntoOrmExpression>(&mut self, expr: E, alias: String) -> (res: CtxExpression)
        requires
            old(self).known(),
            expr.orm().fits(old(self)@.arena),
        ensures
            (res, final(self)@) == named(old(self)@, expr.orm(), alias@),
            final(self).known(),
            old(self)@.extended_by(final(self)@),
            final(self)@.arena.has_expr(res.expr),
    {
        let ghost start = self@.arena;
        let expr = self.bind(expr.into_orm_expression());
        let ghost middle = self@.arena;
        self.binder.add_alias(alias.clone(), expr);
        assert(self.known());
        let node = ScalarExpression::Alias { expr, alias: AliasType::Name(alias) };
        assert(node@.children =~= seq![expr]);
        let res = self.add_node(node);
        proof {
            lemma_extended_trans(start, middle, self@.arena);
        }
        res
    }

    /// Casts an expression to a type.
    pub fn cast<E: IntoOrmExpression>(&mut self, expr: E, ty: LogicalType) -> (res: Result<
        CtxExpression,
        DatabaseError,
    >)
        requires
            old(self).known(),
            expr.orm().fits(old(self)@.arena),
        ensures
            cast_bound(old(self)@, expr.orm(), ty@, final(self)@, res),
            final(self).known(),
            old(self)@.extended_by(final(self)@),
            res matches Ok(ctx) ==> final(self)@.arena.has_expr(ctx.expr),
    {
        let ghost start = self@.arena;
        let expr = self.bind(expr.into_orm_expression());
        let ghost middle = self@.arena;
        let res = expr.type_cast(ty, &mut self.arena);
        proof {
            lemma_known_extended(self.binder@, middle, self@.arena);
            lemma_extended_trans(start, middle, self@.arena);
        }
        match res {
            Ok(expr) => Ok(CtxExpression { expr, marker: PhantomData }),
            Err(err) => Err(err),
        }
    }

    /// An operation on one operand.
    pub fn unary<E: IntoOrmExpression>(&mut self, op: UnaryOperator, expr: E) -> (res: Result<
        CtxExpression,
        DatabaseError,
    >)
        requires
            old(self).known(),
            expr.orm().fits(old(self)@.arena),
        ensures
            res matches Ok(ctx) && (ctx, final(self)@) == unary_bound(old(self)@, op, expr.orm())
                && final(self)@.arena.has_expr(ctx.expr),
            final(self).known(),
            old(self)@.extended_by(final(self)@),
    {
        let ghost start = self@.arena;
        let expr = self.bind(expr.into_orm_expression());
        let ghost middle = self@.arena;
        match self.binder.bind_unary_op_expr(expr, op, &self.arena) {
            Ok(node) => {
                let res = self.add_node(node);
                proof {
                    lemma_extended_trans(start, middle, self@.arena);
                }
                Ok(res)
            },
            Err(err) => Err(err),
        }
    }

    /// An operation on two operands.
    pub fn binary<L: IntoOrmExpression, R: IntoOrmExpression>(
        &mut self,
        left: L,
        op: BinaryOperator,
        right: R,
    ) -> (res: Result<CtxExpression, DatabaseError>)
        requires
            old(self).known(),
            left.orm().fits(old(self)@.arena),
            right.orm().fits(old(self)@.arena),
        ensures
            binary_bound(old(self)@, left.orm(), op, right.orm(), final(self)@, res),
            final(self).known(),
            old(self)@.extended_by(final(self)@),
            res matches Ok(ctx) ==> final(self)@.arena.has_expr(ctx.expr),
    {
        let ghost start = self@.arena;
        let l = self.bind(left.into_orm_expression());
        let ghost middle = self@.arena;
        proof {
            lemma_fits_extended(right.orm(), start, middle);
        }
        let r = self.bind(right.into_orm_expression());
        let ghost last = self@.arena;
        proof {
            lemma_extended_trans(start, middle, last);
        }
        match self.binder.bind_binary_op_expr(l, r, op, &self.arena) {
            Ok(node) => {
                let res = self.add_node(node);
                proof {
                    lemma_extended_trans(start, last, self@.arena);
                }
                Ok(res)
            },
            Err(err) => Err(err),
        }
    }

    /// Whether both are equal.
    pub fn eq<L: IntoOrmExpression, R: IntoOrmExpression>(&mut self, left: L, right: R) -> (res:
        Result<CtxExpression, DatabaseError>)
        requires
            old(self).known(),
            left.orm().fits(old(self)@.arena),
            right.orm().fits(old(self)@.arena),
        ensures
            binary_bound(
                old(self)@,
                left.orm(),
                BinaryOperator::Eq,
                right.orm(),
                final(self)@,
                res,
            ),
            final(self).known(),
            old(self)@.extended_by(final(self)@),
            res matches Ok(ctx) ==> final(self)@.arena.has_expr(ctx.expr),
    {
        self.binary(left, BinaryOperator::Eq, right)
    }

    /// Whether both differ.
    pub fn ne<L: IntoOrmExpression, R: IntoOrmExpression>(&mut self, left: L, right: R) -> (res:
        Result<CtxExpression, DatabaseError>)
        requires
            old(self).known(),
            left.orm().fits(old(self)@.arena),
            right.orm().fits(old(self)@.arena),
        ensures
            binary_bound(
                old(self)@,
                left.orm(),
                BinaryOperator::NotEq,
                right.orm(),
                final(self)@,
                res,
            ),
            final(self).known(),
            old(self)@.extended_by(final(self)@),
            res matches Ok(ctx) ==> final(self)@.arena.has_expr(ctx.expr),
    {
        self.binary(left, BinaryOperator::NotEq, right)
    }

    /// Whether the left one is greater.
    pub fn gt<L: IntoOrmExpression, R: IntoOrmExpression>(&mut self, left: L, right: R) -> (res:
        Result<CtxExpression, DatabaseError>)
        requires
            old(self).known(),
            left.orm().fits(old(self)@.arena),
            right.orm().fits(old(self)@.arena),
        ensures
            binary_bound(
                old(self)@,
                left.orm(),
                BinaryOperator::Gt,
                right.orm(),
                final(self)@,
                res,
            ),
            final(self).known(),
            old(self)@.extended_by(final(self)@),
            res matches Ok(ctx) ==> final(self)@.arena.has_expr(ctx.expr),
    {
        self.binary(left, BinaryOperator::Gt, right)
    }

    /// Whether the left one is not less.
    pub fn gte<L: IntoOrmExpression, R: IntoOrmExpression>(&mut self, left: L, right: R) -> (res:
        Result<CtxExpression, DatabaseError>)
        requires
            old(self).known(),
            left.orm().fits(old(self)@.arena),
            right.orm().fits(old(self)@.arena),
        ensures
            binary_bound(
                old(self)@,
                left.orm(),
                BinaryOperator::GtEq,
                right.orm(),
                final(self)@,
                res,
            ),
            final(self).known(),
            old(self)@.extended_by(final(self)@),
            res matches Ok(ctx) ==> final(self)@.arena.has_expr(ctx.expr),
    {
        self.binary(left, BinaryOperator::GtEq, right)
    }

    /// Whether the left one is less.
    pub fn lt<L: IntoOrmExpression, R: IntoOrmExpression>(&mut self, left: L, right: R) -> (res:
        Result<CtxExpression, DatabaseError>)
        requires
            old(self).known(),
            left.orm().fits(old(self)@.arena),
            right.orm().fits(old(self)@.arena),
        ensures
            binary_bound(
                old(self)@,
                left.orm(),
                BinaryOperator::Lt,
                right.orm(),
                final(self)@,
                res,
            ),
            final(self).known(),
            old(self)@.extended_by(final(self)@),
            res matches Ok(ctx) ==> final(self)@.arena.has_expr(ctx.expr),
    {
        self.binary(left, BinaryOperator::Lt, right)
    }

    /// Whether the left one is not greater.
    pub fn lte<L: IntoOrmExpression, R: IntoOrmExpression>(&mut self, left: L, right: R) -> (res:
        Result<CtxExpression, DatabaseError>)
        requires
            old(self).known(),
            left.orm().fits(old(self)@.arena),
            right.orm().fits(old(self)@.arena),
        ensures
            binary_bound(
                old(self)@,
                left.orm(),
                BinaryOperator::LtEq,
                right.orm(),
                final(self)@,
                res,
            ),
            final(self).known(),
            old(self)@.extended_by(final(self)@),
            res matches Ok(ctx) ==> final(self)@.arena.has_expr(ctx.expr),
    {
        self.binary(left, BinaryOperator::LtEq, right)
    }

    /// Whether both hold.
    pub fn and<L: IntoOrmExpression, R: IntoOrmExpression>(&mut self, left: L, right: R) -> (res:
        Result<CtxExpression, DatabaseError>)
        requires
            old(self).known(),
            left.orm().fits(old(self)@.arena),
            right.orm().fits(old(self)@.arena),
        ensures
            binary_bound(
                old(self)@,
                left.orm(),
                BinaryOperator::And,
                right.orm(),
                final(self)@,
                res,
            ),
            final(self).known(),
            old(self)@.extended_by(final(self)@),
            res matches Ok(ctx) ==> final(self)@.arena.has_expr(ctx.expr),
    {
        self.binary(left, BinaryOperator::And, right)
    }

    /// Whether one of both holds.
    pub fn or<L: IntoOrmExpression, R: IntoOrmExpression>(&mut self, left: L, right: R) -> (res:
        Result<CtxExpression, DatabaseError>)
        requires
            old(self).known(),
            left.orm().fits(old(self)@.arena),
            right.orm().fits(old(self)@.arena),
        ensures
            binary_bound(
                old(self)@,
                left.orm(),
                BinaryOperator::Or,
                right.orm(),
                final(self)@,
                res,
            ),
            final(self).known(),
            old(self)@.extended_by(final(self)@),
            res matches Ok(ctx) ==> final(self)@.arena.has_expr(ctx.expr),
    {
        self.binary(left, BinaryOperator::Or, right)
    }

    /// Whether the value is missing.
    pub fn is_null<E: IntoOrmExpression>(&mut self, expr: E) -> (res: CtxExpression)
        requires
            old(self).known(),
            expr.orm().fits(old(self)@.arena),
        ensures
            (res, final(self)@) == null_test(old(self)@, expr.orm(), false),
            final(self).known(),
            old(self)@.extended_by(final(self)@),
            final(self)@.arena.has_expr(res.expr),
    {
        let ghost start = self@.arena;
        let expr = self.bind(expr.into_orm_expression());
        let ghost middle = self@.arena;
        let node = ScalarExpression::IsNull { negated: false, expr };
        assert(node@.children =~= seq![expr]);
        let res = self.add_node(node);
        proof {
            lemma_extended_trans(start, middle, self@.arena);
        }
        res
    }

    /// Whether the value is there.
    pub fn is_not_null<E: IntoOrmExpression>(&mut self, expr: E) -> (res: CtxExpression)
        requires
            old(self).known(),
            expr.orm().fits(old(self)@.arena),
        ensures
            (res, final(self)@) == null_test(old(self)@, expr.orm(), true),
            final(self).known(),
            old(self)@.extended_by(final(self)@),
            final(self)@.arena.has_expr(res.expr),
    {
        let ghost start = self@.arena;
        let expr = self.bind(expr.into_orm_expression());
        let ghost middle = self@.arena;
        let node = ScalarExpression::IsNull { negated: true, expr };
        assert(node@.children =~= seq![expr]);
        let res = self.add_node(node);
        proof {
            lemma_extended_trans(start, middle, self@.arena);
        }
        res
    }

    /// Whether the value is in the list.
    pub fn in_list<X: IntoOrmExpression, E: IntoOrmExpression>(&mut self, expr: X,
        args: Vec<E>) -> (res:
        CtxExpression)
        requires
            old(self).known(),
            expr.orm().fits(old(self)@.arena),
            all_fit(orm_views(args@), old(self)@.arena),
        ensures
            (res, final(self)@) == list_test(old(self)@, expr.orm(), orm_views(args@), false),
            final(self).known(),
            old(self)@.extended_by(final(self)@),
            final(self)@.arena.has_expr(res.expr),
    {
        let ghost start = self@.arena;
        let expr = self.bind(expr.into_orm_expression());
        let ghost middle = self@.arena;
        proof {
            let all = orm_views(args@);
            assert forall|i: int| 0 <= i < all.len() implies (#[trigger] all[i]).fits(middle) by {
                lemma_fits_extended(all[i], start, middle);
            }
        }
        let args = self.bind_list(args);
        let ghost last = self@.arena;
        proof {
            lemma_extended_trans(start, middle, last);
        }
        let node = ScalarExpression::In { negated: false, expr, args };
        let res = self.add_node(node);
        proof {
            lemma_extended_trans(start, last, self@.arena);
        }
        res
    }

    /// Whether the value is not in the list.
    pub fn not_in_list<X: IntoOrmExpression, E: IntoOrmExpression>(&mut self, expr: X,
        args: Vec<E>) -> (res:
        CtxExpression)
        requires
            old(self).known(),
            expr.orm().fits(old(self)@.arena),
            all_fit(orm_views(args@), old(self)@.arena),
        ensures
            (res, final(self)@) == list_test(old(self)@, expr.orm(), orm_views(args@), true),
            final(self).known(),
            old(self)@.extended_by(final(self)@),
            final(self)@.arena.has_expr(res.expr),
    {
        let ghost start = self@.arena;
        let expr = self.bind(expr.into_orm_expression());
        let ghost middle = self@.arena;
        proof {
            let all = orm_views(args@);
            assert forall|i: int| 0 <= i < all.len() implies (#[trigger] all[i]).fits(middle) by {
                lemma_fits_extended(all[i], start, middle);
            }
        }
        let args = self.bind_list(args);
        let ghost last = self@.arena;
        proof {
            lemma_extended_trans(start, middle, last);
        }
        let node = ScalarExpression::In { negated: true, expr, args };
        let res = self.add_node(node);
        proof {
            lemma_extended_trans(start, last, self@.arena);
        }
        res
    }

    /// Whether the value is in the range.
    pub fn between<X: IntoOrmExpression, L: IntoOrmExpression, H: IntoOrmExpression>(
        &mut self,
        expr: X,
        low: L,
        high: H,
    ) -> (res: CtxExpression)
        requires
            old(self).known(),
            expr.orm().fits(old(self)@.arena),
            low.orm().fits(old(self)@.arena),
            high.orm().fits(old(self)@.arena),
        ensures
            (res, final(self)@) == range_test(
                old(self)@,
                expr.orm(),
                low.orm(),
                high.orm(),
                false,
            ),
            final(self).known(),
            old(self)@.extended_by(final(self)@),
            final(self)@.arena.has_expr(res.expr),
    {
        let ghost start = self@.arena;
        let expr = self.bind(expr.into_orm_expression());
        let ghost first = self@.arena;
        proof {
            lemma_fits_extended(low.orm(), start, first);
        }
        let left_expr = self.bind(low.into_orm_expression());
        let ghost second = self@.arena;
        proof {
            lemma_extended_trans(start, first, second);
            lemma_fits_extended(high.orm(), start, second);
        }
        let right_expr = self.bind(high.into_orm_expression());
        let ghost third = self@.arena;
        let node = ScalarExpression::Between { negated: false, expr, left_expr, right_expr };
        assert(node@.children =~= seq![expr, left_expr, right_expr]);
        let res = self.add_node(node);
        proof {
            lemma_extended_trans(start, second, third);
            lemma_extended_trans(start, third, self@.arena);
        }
        res
    }

    /// Whether the value is outside the range.
    pub fn not_between<X: IntoOrmExpression, L: IntoOrmExpression, H: IntoOrmExpression>(
        &mut self,
        expr: X,
        low: L,
        high: H,
    ) -> (res: CtxExpression)
        requires
            old(self).known(),
            expr.orm().fits(old(self)@.arena),
            low.orm().fits(old(self)@.arena),
            high.orm().fits(old(self)@.arena),
        ensures
            (res, final(self)@) == range_test(
                old(self)@,
                expr.orm(),
                low.orm(),
                high.orm(),
                true,
            ),
            final(self).known(),
            old(self)@.extended_by(final(self)@),
            final(self)@.arena.has_expr(res.expr),
    {
        let ghost start = self@.arena;
        let expr = self.bind(expr.into_orm_expression());
        let ghost first = self@.arena;
        proof {
            lemma_fits_extended(low.orm(), start, first);
        }
        let left_expr = self.bind(low.into_orm_expression());
        let ghost second = self@.arena;
        proof {
            lemma_extended_trans(start, first, second);
            lemma_fits_extended(high.orm(), start, second);
        }
        let right_expr = self.bind(high.into_orm_expression());
        let ghost third = self@.arena;
        let node = ScalarExpression::Between { negated: true, expr, left_expr, right_expr };
        assert(node@.children =~= seq![expr, left_expr, right_expr]);
        let res = self.add_node(node);
        proof {
            lemma_extended_trans(start, second, third);
            lemma_extended_trans(start, third, self@.arena);
        }
        res
    }

    /// Whether the expression does not hold.
    pub fn not<E: IntoOrmExpression>(&mut self, expr: E) -> (res: Result<
        CtxExpression,
        DatabaseError,
    >)
        requires
            old(self).known(),
            expr.orm().fits(old(self)@.arena),
        ensures
            res matches Ok(ctx) && (ctx, final(self)@) == unary_bound(
                old(self)@,
                UnaryOperator::Not,
                expr.orm(),
            ) && final(self)@.arena.has_expr(ctx.expr),
            final(self).known(),
            old(self)@.extended_by(final(self)@),
    {
        self.unary(UnaryOperator::Not, expr)
    }

    fn call(&mut self, name: String, args: Vec<ExprRef>) -> (res: Result<
        CtxExpression,
        DatabaseError,
    >)
        requires
            old(self).known(),
            old(self)@.arena.has_exprs(args@),
        ensures
            call_bound(old(self)@, name@, args@, final(self)@, res),
            final(self).known(),
            old(self)@.extended_by(final(self)@),
            res matches Ok(ctx) ==> final(self)@.arena.has_expr(ctx.expr),
    {
        match self.binder.bind_function_call(name, args, &self.arena) {
            Ok(node) => Ok(self.add_node(node)),
            Err(err) => Err(err),
        }
    }

    /// A call of a function.
    pub fn function<E: IntoOrmExpression>(&mut self, name: String, args: Vec<E>) -> (res: Result<
        CtxExpression,
        DatabaseError,
    >)
        requires
            old(self).known(),
            all_fit(orm_views(args@), old(self)@.arena),
        ensures
            ({
                let (refs, arena) = bind_views(old(self)@.arena, orm_views(args@));
                call_bound(old(self)@.with_arena(arena), name@, refs, final(self)@, res)
            }),
            final(self).known(),
            old(self)@.extended_by(final(self)@),
            res matches Ok(ctx) ==> final(self)@.arena.has_expr(ctx.expr),
    {
        let ghost start = self@.arena;
        let args = self.bind_list(args);
        let ghost middle = self@.arena;
        let res = self.call(name, args);
        proof {
            lemma_extended_trans(start, middle, self@.arena);
        }
        res
    }

    fn aggregate_bound_args(&mut self, kind: AggKind, args: Vec<ExprRef>) -> (res: Result<
        CtxExpression,
        DatabaseError,
    >)
        requires
            old(self).known(),
            old(self)@.arena.has_exprs(args@),
        ensures
            aggregate_bound(old(self)@, kind, args@, final(self)@, res),
            final(self).known(),
            old(self)@.extended_by(final(self)@),
            res matches Ok(ctx) ==> final(self)@.arena.has_expr(ctx.expr),
    {
        match self.binder.bind_aggregate_function(kind, args, false, &self.arena) {
            Ok(node) => Ok(self.add_node(node)),
            Err(err) => Err(err),
        }
    }

    /// An aggregate.
    pub fn aggregate<E: IntoOrmExpression>(&mut self, kind: AggKind, args: Vec<E>) -> (res: Result<
        CtxExpression,
        DatabaseError,
    >)
        requires
            old(self).known(),
            all_fit(orm_views(args@), old(self)@.arena),
        ensures
            ({
                let (refs, arena) = bind_views(old(self)@.arena, orm_views(args@));
                aggregate_bound(old(self)@.with_arena(arena), kind, refs, final(self)@, res)
            }),
            final(self).known(),
            old(self)@.extended_by(final(self)@),
            res matches Ok(ctx) ==> final(self)@.arena.has_expr(ctx.expr),
    {
        let ghost start = self@.arena;
        let args = self.bind_list(args);
        let ghost middle = self@.arena;
        let res = self.aggregate_bound_args(kind, args);
        proof {
            lemma_extended_trans(start, middle, self@.arena);
        }
        res
    }

    fn window(&mut self, kind: WindowFunctionKind, args: Vec<ExprRef>, spec: WindowSpec) -> (res:
        Result<CtxExpression, DatabaseError>)
        requires
            old(self).known(),
            old(self)@.arena.has_exprs(args@),
            old(self)@.arena.has_exprs(spec.partitions()),
            valid_fields(old(self)@.arena, spec.orders()),
        ensures
            window_bound(
                old(self)@,
                kind,
                args@,
                spec.partitions(),
                spec.orders(),
                final(self)@,
                res,
            ),
            final(self).known(),
            old(self)@.extended_by(final(self)@),
            res matches Ok(ctx) ==> final(self)@.arena.has_expr(ctx.expr),
    {
        let (partition_by, order_by) = spec.into_parts();
        match self.binder.bind_window_function(kind, args, partition_by, order_by, &self.arena) {
            Ok(node) => Ok(self.add_node(node)),
            Err(err) => Err(err),
        }
    }

    fn aggregate_window<E: IntoOrmExpression>(
        &mut self,
        kind: AggKind,
        expr: E,
        spec: WindowSpec,
    ) -> (res: Result<CtxExpression, DatabaseError>)
        requires
            old(self).known(),
            expr.orm().fits(old(self)@.arena),
            old(self)@.arena.has_exprs(spec.partitions()),
            valid_fields(old(self)@.arena, spec.orders()),
        ensures
            ({
                let (arg, arena) = bind_view(old(self)@.arena, expr.orm());
                window_bound(
                    old(self)@.with_arena(arena),
                    WindowFunctionKind::Aggregate(kind),
                    seq![arg],
                    spec.partitions(),
                    spec.orders(),
                    final(self)@,
                    res,
                )
            }),
            final(self).known(),
            old(self)@.extended_by(final(self)@),
            res matches Ok(ctx) ==> final(self)@.arena.has_expr(ctx.expr),
    {
        let ghost start = self@.arena;
        let expr = self.bind(expr.into_orm_expression());
        let ghost middle = self@.arena;
        let mut args: Vec<ExprRef> = Vec::new();
        args.push(expr);
        assert(args@ =~= seq![expr]);
        let res = self.window(WindowFunctionKind::Aggregate(kind), args, spec);
        proof {
            lemma_extended_trans(start, middle, self@.arena);
        }
        res
    }

    /// The number of the row in its group.
    pub fn row_number(&mut self, spec: WindowSpec) -> (res: Result<CtxExpression, DatabaseError>)
        requires
            old(self).known(),
            old(self)@.arena.has_exprs(spec.partitions()),
            valid_fields(old(self)@.arena, spec.orders()),
        ensures
            window_bound(
                old(self)@,
                WindowFunctionKind::RowNumber,
                Seq::empty(),
                spec.partitions(),
                spec.orders(),
                final(self)@,
                res,
            ),
            final(self).known(),
            old(self)@.extended_by(final(self)@),
            res matches Ok(ctx) ==> final(self)@.arena.has_expr(ctx.expr),
    {
        self.window(WindowFunctionKind::RowNumber, Vec::new(), spec)
    }

    /// The rank of the row in its group, with gaps.
    pub fn rank(&mut self, spec: WindowSpec) -> (res: Result<CtxExpression, DatabaseError>)
        requires
            old(self).known(),
            old(self)@.arena.has_exprs(spec.partitions()),
            valid_fields(old(self)@.arena, spec.orders()),
        ensures
            window_bound(
                old(self)@,
                WindowFunctionKind::Rank,
                Seq::empty(),
                spec.partitions(),
                spec.orders(),
                final(self)@,
                res,
            ),
            final(self).known(),
            old(self)@.extended_by(final(self)@),
            res matches Ok(ctx) ==> final(self)@.arena.has_expr(ctx.expr),
    {
        self.window(WindowFunctionKind::Rank, Vec::new(), spec)
    }

    /// The rank of the row in its group, without gaps.
    pub fn dense_rank(&mut self, spec: WindowSpec) -> (res: Result<CtxExpression, DatabaseError>)
        requires
            old(self).known(),
            old(self)@.arena.has_exprs(spec.partitions()),
            valid_fields(old(self)@.arena, spec.orders()),
        ensures
            window_bound(
                old(self)@,
                WindowFunctionKind::DenseRank,
                Seq::empty(),
                spec.partitions(),
                spec.orders(),
                final(self)@,
                res,
            ),
            final(self).known(),
            old(self)@.extended_by(final(self)@),
            res matches Ok(ctx) ==> final(self)@.arena.has_expr(ctx.expr),
    {
        self.window(WindowFunctionKind::DenseRank, Vec::new(), spec)
    }

    /// How many values the window has.
    pub fn count_over<E: IntoOrmExpression>(&mut self, expr: E, spec: WindowSpec) -> (res: Result<
        CtxExpression,
        DatabaseError,
    >)
        requires
            old(self).known(),
            expr.orm().fits(old(self)@.arena),
            old(self)@.arena.has_exprs(spec.partitions()),
            valid_fields(old(self)@.arena, spec.orders()),
        ensures
            ({
                let (arg, arena) = bind_view(old(self)@.arena, expr.orm());
                window_bound(
                    old(self)@.with_arena(arena),
                    WindowFunctionKind::Aggregate(AggKind::Count),
                    seq![arg],
                    spec.partitions(),
                    spec.orders(),
                    final(self)@,
                    res,
                )
            }),
            final(self).known(),
            old(self)@.extended_by(final(self)@),
            res matches Ok(ctx) ==> final(self)@.arena.has_expr(ctx.expr),
    {
        self.aggregate_window(AggKind::Count, expr, spec)
    }

    /// The sum of the values of the window.
    pub fn sum_over<E: IntoOrmExpression>(&mut self, expr: E, spec: WindowSpec) -> (res: Result<
        CtxExpression,
        DatabaseError,
    >)
        requires
            old(self).known(),
            expr.orm().fits(old(self)@.arena),
            old(self)@.arena.has_exprs(spec.partitions()),
            valid_fields(old(self)@.arena, spec.orders()),
        ensures
            ({
                let (arg, arena) = bind_view(old(self)@.arena, expr.orm());
                window_bound(
                    old(self)@.with_arena(arena),
                    WindowFunctionKind::Aggregate(AggKind::Sum),
                    seq![arg],
                    spec.partitions(),
                    spec.orders(),
                    final(self)@,
                    res,
                )
            }),
            final(self).known(),
            old(self)@.extended_by(final(self)@),
            res matches Ok(ctx) ==> final(self)@.arena.has_expr(ctx.expr),
    {
        self.aggregate_window(AggKind::Sum, expr, spec)
    }

    /// The mean of the values of the window.
    pub fn avg_over<E: IntoOrmExpression>(&mut self, expr: E, spec: WindowSpec) -> (res: Result<
        CtxExpression,
        DatabaseError,
    >)
        requires
            old(self).known(),
            expr.orm().fits(old(self)@.arena),
            old(self)@.arena.has_exprs(spec.partitions()),
            valid_fields(old(self)@.arena, spec.orders()),
        ensures
            ({
                let (arg, arena) = bind_view(old(self)@.arena, expr.orm());
                window_bound(
                    old(self)@.with_arena(arena),
                    WindowFunctionKind::Aggregate(AggKind::Avg),
                    seq![arg],
                    spec.partitions(),
                    spec.orders(),
                    final(self)@,
                    res,
                )
            }),
            final(self).known(),
            old(self)@.extended_by(final(self)@),
            res matches Ok(ctx) ==> final(self)@.arena.has_expr(ctx.expr),
    {
        self.aggregate_window(AggKind::Avg, expr, spec)
    }

    /// The least value of the window.
    pub fn min_over<E: IntoOrmExpression>(&mut self, expr: E, spec: WindowSpec) -> (res: Result<
        CtxExpression,
        DatabaseError,
    >)
        requires
            old(self).known(),
            expr.orm().fits(old(self)@.arena),
            old(self)@.arena.has_exprs(spec.partitions()),
            valid_fields(old(self)@.arena, spec.orders()),
        ensures
            ({
                let (arg, arena) = bind_view(old(self)@.arena, expr.orm());
                window_bound(
                    old(self)@.with_arena(arena),
                    WindowFunctionKind::Aggregate(AggKind::Min),
                    seq![arg],
                    spec.partitions(),
                    spec.orders(),
                    final(self)@,
                    res,
                )
            }),
            final(self).known(),
            old(self)@.extended_by(final(self)@),
            res matches Ok(ctx) ==> final(self)@.arena.has_expr(ctx.expr),
    {
        self.aggregate_window(AggKind::Min, expr, spec)
    }

    /// The greatest value of the window.
    pub fn max_over<E: IntoOrmExpression>(&mut self, expr: E, spec: WindowSpec) -> (res: Result<
        CtxExpression,
        DatabaseError,
    >)
        requires
            old(self).known(),
            expr.orm().fits(old(self)@.arena),
            old(self)@.arena.has_exprs(spec.partitions()),
            valid_fields(old(self)@.arena, spec.orders()),
        ensures
            ({
                let (arg, arena) = bind_view(old(self)@.arena, expr.orm());
                window_bound(
                    old(self)@.with_arena(arena),
                    WindowFunctionKind::Aggregate(AggKind::Max),
                    seq![arg],
                    spec.partitions(),
                    spec.orders(),
                    final(self)@,
                    res,
                )
            }),
            final(self).known(),
            old(self)@.extended_by(final(self)@),
            res matches Ok(ctx) ==> final(self)@.arena.has_expr(ctx.expr),
    {
        self.aggregate_window(AggKind::Max, expr, spec)
    }

    /// The text that stands for a whole row.
    fn wildcard() -> (res: ScalarExpression)
        ensures
            res@ == constant_view(wildcard_value()),
    {
        ScalarExpression::Constant(DataValue::utf8("*".to_string()))
    }

    /// How many rows the window has.
    pub fn count_all_over(&mut self,
        spec: WindowSpec) -> (res: Result<CtxExpression, DatabaseError>)
        requires
            old(self).known(),
            old(self)@.arena.has_exprs(spec.partitions()),
            valid_fields(old(self)@.arena, spec.orders()),
        ensures
            ({
                let (arg, arena) = bind_view(
                    old(self)@.arena,
                    OrmView::Unbound(constant_view(wildcard_value())),
                );
                window_bound(
                    old(self)@.with_arena(arena),
                    WindowFunctionKind::Aggregate(AggKind::Count),
                    seq![arg],
                    spec.partitions(),
                    spec.orders(),
                    final(self)@,
                    res,
                )
            }),
            final(self).known(),
            old(self)@.extended_by(final(self)@),
            res matches Ok(ctx) ==> final(self)@.arena.has_expr(ctx.expr),
    {
        self.aggregate_window(AggKind::Count, Self::wildcard(), spec)
    }

    /// How many rows there are.
    pub fn count_all(&mut self) -> (res: Result<CtxExpression, DatabaseError>)
        requires
            old(self).known(),
        ensures
            res matches Ok(ctx) && (ctx, final(self)@) == counted(old(self)@)
                && final(self)@.arena.has_expr(ctx.expr),
            final(self).known(),
            old(self)@.extended_by(final(self)@),
    {
        let ghost start = self@.arena;
        let expr = self.bind(OrmExpression::Unbound(Self::wildcard()));
        let ghost middle = self@.arena;
        let mut args: Vec<ExprRef> = Vec::new();
        args.push(expr);
        assert(args@ =~= seq![expr]);
        let res = self.aggregate_bound_args(AggKind::Count, args);
        proof {
            lemma_extended_trans(start, middle, self@.arena);
        }
        res
    }

    fn case<C: IntoOrmExpression, V: IntoOrmExpression, E: IntoOrmExpression>(
        &mut self,
        operand: Option<OrmExpression>,
        expr_pairs: Vec<(C, V)>,
        else_expr: Option<E>,
    ) -> (res: CtxExpression)
        requires
            old(self).known(),
            operand matches Some(operand) ==> operand@.fits(old(self)@.arena),
            pairs_fit(orm_pairs(expr_pairs@), old(self)@.arena),
            else_expr matches Some(expr) ==> expr.orm().fits(old(self)@.arena),
        ensures
            (res, final(self)@) == case_bound(
                old(self)@,
                match operand {
                    Some(operand) => Some(operand@),
                    None => None,
                },
                orm_pairs(expr_pairs@),
                match else_expr {
                    Some(expr) => Some(expr.orm()),
                    None => None,
                },
            ),
            final(self).known(),
            old(self)@.extended_by(final(self)@),
            final(self)@.arena.has_expr(res.expr),
    {
        let ghost start = self@.arena;
        let operand_expr: Option<ExprRef> = match operand {
            Some(operand) => Some(self.bind(operand)),
            None => None,
        };
        let ghost first = self@.arena;
        proof {
            let all = orm_pairs(expr_pairs@);
            assert forall|i: int| 0 <= i < all.len() implies (#[trigger] all[i]).0.fits(first)
                && all[i].1.fits(first) by {
                assert(all[i].0.fits(start));
                lemma_fits_extended(all[i].0, start, first);
                lemma_fits_extended(all[i].1, start, first);
            }
        }
        let expr_pairs = self.bind_pair_list(expr_pairs);
        let ghost second = self@.arena;
        proof {
            lemma_extended_trans(start, first, second);
        }
        let else_expr: Option<ExprRef> = match else_expr {
            Some(expr) => {
                proof {
                    lemma_fits_extended(expr.orm(), start, second);
                }
                Some(self.bind(expr.into_orm_expression()))
            },
            None => None,
        };
        let ghost third = self@.arena;
        proof {
            lemma_extended_trans(start, second, third);
        }
        let ty = if expr_pairs.len() > 0 {
            assert(self@.arena.has_expr(expr_pairs@[0].1));
            expr_pairs[0].1.return_type(&self.arena)
        } else {
            match else_expr {
                Some(expr) => expr.return_type(&self.arena),
                None => LogicalType::SqlNull,
            }
        };
        let node = ScalarExpression::CaseWhen { operand_expr, expr_pairs, else_expr, ty };
        assert forall|i: int| 0 <= i < node@.children.len() implies self@.arena.has_expr(
            #[trigger] node@.children[i],
        ) by {
            let head = optional(operand_expr);
            let body = flat_pairs(expr_pairs@);
            if i < head.len() {
                assert(node@.children[i] == head[i]);
            } else if i < head.len() + body.len() {
                let k = i - head.len();
                assert(node@.children[i] == body[k]);
                assert(self@.arena.has_expr(expr_pairs@[k / 2].0));
            } else {
                assert(node@.children[i] == optional(else_expr)[i - head.len() - body.len()]);
            }
        }
        let res = self.add_node(node);
        proof {
            lemma_extended_trans(start, third, self@.arena);
        }
        res
    }

    /// The value of the first condition that holds.
    pub fn case_when<C: IntoOrmExpression, V: IntoOrmExpression, E: IntoOrmExpression>(
        &mut self,
        expr_pairs: Vec<(C, V)>,
        else_expr: Option<E>,
    ) -> (res: CtxExpression)
        requires
            old(self).known(),
            pairs_fit(orm_pairs(expr_pairs@), old(self)@.arena),
            else_expr matches Some(expr) ==> expr.orm().fits(old(self)@.arena),
        ensures
            (res, final(self)@) == case_bound(
                old(self)@,
                None,
                orm_pairs(expr_pairs@),
                match else_expr {
                    Some(expr) => Some(expr.orm()),
                    None => None,
                },
            ),
            final(self).known(),
            old(self)@.extended_by(final(self)@),
            final(self)@.arena.has_expr(res.expr),
    {
        self.case(None, expr_pairs, else_expr)
    }

    /// The value of the first key that equals the operand.
    pub fn case_value<
        X: IntoOrmExpression,
        K: IntoOrmExpression,
        V: IntoOrmExpression,
        E: IntoOrmExpression,
    >(&mut self, operand_expr: X, expr_pairs: Vec<(K, V)>, else_expr: Option<E>) -> (res:
        CtxExpression)
        requires
            old(self).known(),
            operand_expr.orm().fits(old(self)@.arena),
            pairs_fit(orm_pairs(expr_pairs@), old(self)@.arena),
            else_expr matches Some(expr) ==> expr.orm().fits(old(self)@.arena),
        ensures
            (res, final(self)@) == case_bound(
                old(self)@,
                Some(operand_expr.orm()),
                orm_pairs(expr_pairs@),
                match else_expr {
                    Some(expr) => Some(expr.orm()),
                    None => None,
                },
            ),
            final(self).known(),
            old(self)@.extended_by(final(self)@),
            final(self)@.arena.has_expr(res.expr),
    {
        self.case(Some(operand_expr.into_orm_expression()), expr_pairs, else_expr)
    }
}

/// The constant that stands for a whole row.
pub open spec fn wildcard_value() -> DataValueView {
    text_value("*"@)
}

/// The outcome of counting the rows.
pub open spec fn counted(before: ScopeView) -> (CtxExpression, ScopeView) {
    let (arg, arena) = bind_view(
        before.arena,
        OrmView::Unbound(constant_view(wildcard_value())),
    );
    alloc_view(
        before.with_arena(arena),
        ExprView {
            head: ExprHead::AggCall {
                distinct: false,
                kind: AggKind::Count,
                ty: LogicalTypeView::Plain(LogicalType::Integer),
            },
            children: seq![arg],
        },
    )
}

impl CtxExpression {
    pub fn into_scalar(self) -> (res: ExprRef)
        ensures
            res == self.expr,
    {
        self.expr
    }

    /// An order by the expression.
    pub fn into_sort(self) -> (res: SortField)
        ensures
            res == (SortField { expr: self.expr, asc: true, nulls_first: false }),
    {
        SortField::from(self.expr)
    }

    /// From the smallest value to the largest.
    pub fn asc(self) -> (res: SortField)
        ensures
            res == (SortField { expr: self.expr, asc: true, nulls_first: false }),
    {
        self.into_sort().asc()
    }

    /// From the largest value to the smallest.
    pub fn desc(self) -> (res: SortField)
        ensures
            res == (SortField { expr: self.expr, asc: false, nulls_first: false }),
    {
        self.into_sort().desc()
    }

    /// Nulls before all values.
    pub fn nulls_first(self) -> (res: SortField)
        ensures
            res == (SortField { expr: self.expr, asc: true, nulls_first: true }),
    {
        self.into_sort().nulls_first()
    }

    /// Nulls behind all values.
    pub fn nulls_last(self) -> (res: SortField)
        ensures
            res == (SortField { expr: self.expr, asc: true, nulls_first: false }),
    {
        self.into_sort().nulls_last()
    }

    /// Whether both are equal.
    pub fn eq<R: IntoOrmExpression>(self, right: R, scope: &mut ExprBindScope<'_>) -> (res: Result<
        Self,
        DatabaseError,
    >)
        requires
            old(scope).known(),
            old(scope)@.arena.has_expr(self.expr),
            right.orm().fits(old(scope)@.arena),
        ensures
            binary_bound(
                old(scope)@,
                self.orm(),
                BinaryOperator::Eq,
                right.orm(),
                final(scope)@,
                res,
            ),
            final(scope).known(),
            old(scope)@.extended_by(final(scope)@),
            res matches Ok(ctx) ==> final(scope)@.arena.has_expr(ctx.expr),
    {
        scope.binary(self, BinaryOperator::Eq, right)
    }

    /// Whether both differ.
    pub fn ne<R: IntoOrmExpression>(self, right: R, scope: &mut ExprBindScope<'_>) -> (res: Result<
        Self,
        DatabaseError,
    >)
        requires
            old(scope).known(),
            old(scope)@.arena.has_expr(self.expr),
            right.orm().fits(old(scope)@.arena),
        ensures
            binary_bound(
                old(scope)@,
                self.orm(),
                BinaryOperator::NotEq,
                right.orm(),
                final(scope)@,
                res,
            ),
            final(scope).known(),
            old(scope)@.extended_by(final(scope)@),
            res matches Ok(ctx) ==> final(scope)@.arena.has_expr(ctx.expr),
    {
        scope.binary(self, BinaryOperator::NotEq, right)
    }

    /// Whether the left one is greater.
    pub fn gt<R: IntoOrmExpression>(self, right: R, scope: &mut ExprBindScope<'_>) -> (res: Result<
        Self,
        DatabaseError,
    >)
        requires
            old(scope).known(),
            old(scope)@.arena.has_expr(self.expr),
            right.orm().fits(old(scope)@.arena),
        ensures
            binary_bound(
                old(scope)@,
                self.orm(),
                BinaryOperator::Gt,
                right.orm(),
                final(scope)@,
                res,
            ),
            final(scope).known(),
            old(scope)@.extended_by(final(scope)@),
            res matches Ok(ctx) ==> final(scope)@.arena.has_expr(ctx.expr),
    {
        scope.binary(self, BinaryOperator::Gt, right)
    }

    /// Whether the left one is not less.
    pub fn gte<R: IntoOrmExpression>(self, right: R, scope: &mut ExprBindScope<'_>) -> (res: Result<
        Self,
        DatabaseError,
    >)
        requires
            old(scope).known(),
            old(scope)@.arena.has_expr(self.expr),
            right.orm().fits(old(scope)@.arena),
        ensures
            binary_bound(
                old(scope)@,
                self.orm(),
                BinaryOperator::GtEq,
                right.orm(),
                final(scope)@,
                res,
            ),
            final(scope).known(),
            old(scope)@.extended_by(final(scope)@),
            res matches Ok(ctx) ==> final(scope)@.arena.has_expr(ctx.expr),
    {
        scope.binary(self, BinaryOperator::GtEq, right)
    }

    /// Whether the left one is less.
    pub fn lt<R: IntoOrmExpression>(self, right: R, scope: &mut ExprBindScope<'_>) -> (res: Result<
        Self,
        DatabaseError,
    >)
        requires
            old(scope).known(),
            old(scope)@.arena.has_expr(self.expr),
            right.orm().fits(old(scope)@.arena),
        ensures
            binary_bound(
                old(scope)@,
                self.orm(),
                BinaryOperator::Lt,
                right.orm(),
                final(scope)@,
                res,
            ),
            final(scope).known(),
            old(scope)@.extended_by(final(scope)@),
            res matches Ok(ctx) ==> final(scope)@.arena.has_expr(ctx.expr),
    {
        scope.binary(self, BinaryOperator::Lt, right)
    }

    /// Whether the left one is not greater.
    pub fn lte<R: IntoOrmExpression>(self, right: R, scope: &mut ExprBindScope<'_>) -> (res: Result<
        Self,
        DatabaseError,
    >)
        requires
            old(scope).known(),
            old(scope)@.arena.has_expr(self.expr),
            right.orm().fits(old(scope)@.arena),
        ensures
            binary_bound(
                old(scope)@,
                self.orm(),
                BinaryOperator::LtEq,
                right.orm(),
                final(scope)@,
                res,
            ),
            final(scope).known(),
            old(scope)@.extended_by(final(scope)@),
            res matches Ok(ctx) ==> final(scope)@.arena.has_expr(ctx.expr),
    {
        scope.binary(self, BinaryOperator::LtEq, right)
    }

    /// Whether the text fits the pattern.
    pub fn like<R: IntoOrmExpression>(self, right: R,
        scope: &mut ExprBindScope<'_>) -> (res: Result<
        Self,
        DatabaseError,
    >)
        requires
            old(scope).known(),
            old(scope)@.arena.has_expr(self.expr),
            right.orm().fits(old(scope)@.arena),
        ensures
            binary_bound(
                old(scope)@,
                self.orm(),
                BinaryOperator::Like(None),
                right.orm(),
                final(scope)@,
                res,
            ),
            final(scope).known(),
            old(scope)@.extended_by(final(scope)@),
            res matches Ok(ctx) ==> final(scope)@.arena.has_expr(ctx.expr),
    {
        scope.binary(self, BinaryOperator::Like(None), right)
    }

    /// Whether the text does not fit the pattern.
    pub fn not_like<R: IntoOrmExpression>(self, right: R,
        scope: &mut ExprBindScope<'_>) -> (res: Result<
        Self,
        DatabaseError,
    >)
        requires
            old(scope).known(),
            old(scope)@.arena.has_expr(self.expr),
            right.orm().fits(old(scope)@.arena),
        ensures
            binary_bound(
                old(scope)@,
                self.orm(),
                BinaryOperator::NotLike(None),
                right.orm(),
                final(scope)@,
                res,
            ),
            final(scope).known(),
            old(scope)@.extended_by(final(scope)@),
            res matches Ok(ctx) ==> final(scope)@.arena.has_expr(ctx.expr),
    {
        scope.binary(self, BinaryOperator::NotLike(None), right)
    }

    /// Whether both hold.
    pub fn and<R: IntoOrmExpression>(self, right: R, scope: &mut ExprBindScope<'_>) -> (res: Result<
        Self,
        DatabaseError,
    >)
        requires
            old(scope).known(),
            old(scope)@.arena.has_expr(self.expr),
            right.orm().fits(old(scope)@.arena),
        ensures
            binary_bound(
                old(scope)@,
                self.orm(),
                BinaryOperator::And,
                right.orm(),
                final(scope)@,
                res,
            ),
            final(scope).known(),
            old(scope)@.extended_by(final(scope)@),
            res matches Ok(ctx) ==> final(scope)@.arena.has_expr(ctx.expr),
    {
        scope.binary(self, BinaryOperator::And, right)
    }

    /// Whether one of both holds.
    pub fn or<R: IntoOrmExpression>(self, right: R, scope: &mut ExprBindScope<'_>) -> (res: Result<
        Self,
        DatabaseError,
    >)
        requires
            old(scope).known(),
            old(scope)@.arena.has_expr(self.expr),
            right.orm().fits(old(scope)@.arena),
        ensures
            binary_bound(
                old(scope)@,
                self.orm(),
                BinaryOperator::Or,
                right.orm(),
                final(scope)@,
                res,
            ),
            final(scope).known(),
            old(scope)@.extended_by(final(scope)@),
            res matches Ok(ctx) ==> final(scope)@.arena.has_expr(ctx.expr),
    {
        scope.binary(self, BinaryOperator::Or, right)
    }

    /// Whether the expression does not hold.
    pub fn not(self, scope: &mut ExprBindScope<'_>) -> (res: Result<Self, DatabaseError>)
        requires
            old(scope).known(),
            old(scope)@.arena.has_expr(self.expr),
        ensures
            res matches Ok(ctx) && (ctx, final(scope)@) == unary_bound(
                old(scope)@,
                UnaryOperator::Not,
                self.orm(),
            ) && final(scope)@.arena.has_expr(ctx.expr),
            final(scope).known(),
            old(scope)@.extended_by(final(scope)@),
    {
        scope.not(self)
    }

    /// Whether the value is missing.
    pub fn is_null(self, scope: &mut ExprBindScope<'_>) -> (res: Self)
        requires
            old(scope).known(),
            old(scope)@.arena.has_expr(self.expr),
        ensures
            (res, final(scope)@) == null_test(old(scope)@, self.orm(), false),
            final(scope).known(),
            old(scope)@.extended_by(final(scope)@),
            final(scope)@.arena.has_expr(res.expr),
    {
        scope.is_null(self)
    }

    /// Whether the value is there.
    pub fn is_not_null(self, scope: &mut ExprBindScope<'_>) -> (res: Self)
        requires
            old(scope).known(),
            old(scope)@.arena.has_expr(self.expr),
        ensures
            (res, final(scope)@) == null_test(old(scope)@, self.orm(), true),
            final(scope).known(),
            old(scope)@.extended_by(final(scope)@),
            final(scope)@.arena.has_expr(res.expr),
    {
        scope.is_not_null(self)
    }

    /// Whether the value is in the list.
    pub fn in_list<E: IntoOrmExpression>(self, values: Vec<E>,
        scope: &mut ExprBindScope<'_>) -> (res:
        Result<Self, DatabaseError>)
        requires
            old(scope).known(),
            old(scope)@.arena.has_expr(self.expr),
            all_fit(orm_views(values@), old(scope)@.arena),
        ensures
            res matches Ok(ctx) && (ctx, final(scope)@) == list_test(
                old(scope)@,
                self.orm(),
                orm_views(values@),
                false,
            ) && final(scope)@.arena.has_expr(ctx.expr),
            final(scope).known(),
            old(scope)@.extended_by(final(scope)@),
    {
        Ok(scope.in_list(self, values))
    }

    /// Whether the value is not in the list.
    pub fn not_in_list<E: IntoOrmExpression>(self, values: Vec<E>,
        scope: &mut ExprBindScope<'_>) -> (res:
        Result<Self, DatabaseError>)
        requires
            old(scope).known(),
            old(scope)@.arena.has_expr(self.expr),
            all_fit(orm_views(values@), old(scope)@.arena),
        ensures
            res matches Ok(ctx) && (ctx, final(scope)@) == list_test(
                old(scope)@,
                self.orm(),
                orm_views(values@),
                true,
            ) && final(scope)@.arena.has_expr(ctx.expr),
            final(scope).known(),
            old(scope)@.extended_by(final(scope)@),
    {
        Ok(scope.not_in_list(self, values))
    }

    /// Whether the value is in the range.
    pub fn between<L: IntoOrmExpression, H: IntoOrmExpression>(
        self,
        low: L,
        high: H,
        scope: &mut ExprBindScope<'_>,
    ) -> (res: Result<Self, DatabaseError>)
        requires
            old(scope).known(),
            old(scope)@.arena.has_expr(self.expr),
            low.orm().fits(old(scope)@.arena),
            high.orm().fits(old(scope)@.arena),
        ensures
            res matches Ok(ctx) && (ctx, final(scope)@) == range_test(
                old(scope)@,
                self.orm(),
                low.orm(),
                high.orm(),
                false,
            ) && final(scope)@.arena.has_expr(ctx.expr),
            final(scope).known(),
            old(scope)@.extended_by(final(scope)@),
    {
        Ok(scope.between(self, low, high))
    }

    /// Whether the value is outside the range.
    pub fn not_between<L: IntoOrmExpression, H: IntoOrmExpression>(
        self,
        low: L,
        high: H,
        scope: &mut ExprBindScope<'_>,
    ) -> (res: Result<Self, DatabaseError>)
        requires
            old(scope).known(),
            old(scope)@.arena.has_expr(self.expr),
            low.orm().fits(old(scope)@.arena),
            high.orm().fits(old(scope)@.arena),
        ensures
            res matches Ok(ctx) && (ctx, final(scope)@) == range_test(
                old(scope)@,
                self.orm(),
                low.orm(),
                high.orm(),
                true,
            ) && final(scope)@.arena.has_expr(ctx.expr),
            final(scope).known(),
            old(scope)@.extended_by(final(scope)@),
    {
        Ok(scope.not_between(self, low, high))
    }

    /// Gives the expression a name.
    pub fn alias(self, alias: String, scope: &mut ExprBindScope<'_>) -> (res: Self)
        requires
            old(scope).known(),
            old(scope)@.arena.has_expr(self.expr),
        ensures
            (res, final(scope)@) == named(old(scope)@, self.orm(), alias@),
            final(scope).known(),
            old(scope)@.extended_by(final(scope)@),
            final(scope)@.arena.has_expr(res.expr),
    {
        scope.alias(self, alias)
    }

    /// Casts the expression to a type.
    pub fn cast(self, ty: LogicalType, scope: &mut ExprBindScope<'_>) -> (res: Result<
        Self,
        DatabaseError,
    >)
        requires
            old(scope).known(),
            old(scope)@.arena.has_expr(self.expr),
        ensures
            cast_bound(old(scope)@, self.orm(), ty@, final(scope)@, res),
            final(scope).known(),
            old(scope)@.extended_by(final(scope)@),
            res matches Ok(ctx) ==> final(scope)@.arena.has_expr(ctx.expr),
    {
        scope.cast(self, ty)
    }

    /// A call of a function with the expression as its first argument.
    pub fn function<E: IntoOrmExpression>(
        self,
        name: String,
        args: Vec<E>,
        scope: &mut ExprBindScope<'_>,
    ) -> (res: Result<Self, DatabaseError>)
        requires
            old(scope).known(),
            old(scope)@.arena.has_expr(self.expr),
            all_fit(orm_views(args@), old(scope)@.arena),
        ensures
            ({
                let (refs, arena) = bind_views(old(scope)@.arena, orm_views(args@));
                call_bound(
                    old(scope)@.with_arena(arena),
                    name@,
                    seq![self.expr] + refs,
                    final(scope)@,
                    res,
                )
            }),
            final(scope).known(),
            old(scope)@.extended_by(final(scope)@),
            res matches Ok(ctx) ==> final(scope)@.arena.has_expr(ctx.expr),
    {
        let ghost start = scope@.arena;
        let mut args = scope.bind_list(args);
        let ghost refs = args@;
        let ghost middle = scope@.arena;
        args.insert(0, self.expr);
        assert(args@ =~= seq![self.expr] + refs);
        let res = scope.call(name, args);
        proof {
            lemma_extended_trans(start, middle, scope@.arena);
        }
        res
    }
}

} // verus!
