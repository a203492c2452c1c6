//! Binding of expressions: operators and calls get their types.

use crate::binder::Binder;
use crate::db::functions::{type_views, FunctionSummary};
use crate::cache::CacheKey;
use crate::errors::DatabaseError;
use crate::expression::analysis::type_of;
use crate::expression::{
    sort_directions, sort_exprs, AggKind, BinaryOperator, ExprHead, ExprView, ScalarExpression,
    UnaryOperator, WindowFunctionKind,
};
use crate::planner::arena::{ArenaView, ExprRef, PlanArena};
use crate::planner::operator::sort::SortField;
use crate::planner::operator::valid_fields;
use crate::types::value::{DataValue, DataValueView};
use crate::types::{CharLengthUnits, LogicalType, LogicalTypeView};
use vstd::prelude::*;

verus! {

/// Whether the operator computes a number from numbers.
pub open spec fn is_arithmetic(op: BinaryOperator) -> bool {
    op is Plus || op is Minus || op is Multiply || op is Divide || op is Modulo
}

/// The width of an integer type, negative for types without sign.
pub open spec fn integer_rank(ty: LogicalType) -> int {
    match ty {
        LogicalType::Tinyint => 1,
        LogicalType::Smallint => 2,
        LogicalType::Integer => 3,
        LogicalType::Bigint => 4,
        LogicalType::UTinyint => -1,
        LogicalType::USmallint => -2,
        LogicalType::UInteger => -3,
        LogicalType::UBigint => -4,
        _ => 0,
    }
}

/// The type that holds the values of both: the same, the one beside null, or the wider integer.
pub open spec fn common_type(left: LogicalTypeView, right: LogicalTypeView) -> Option<
    LogicalTypeView,
> {
    let null = LogicalTypeView::Plain(LogicalType::SqlNull);
    if left == right || right == null {
        Some(left)
    } else if left == null {
        Some(right)
    } else {
        match (left, right) {
            (LogicalTypeView::Plain(l), LogicalTypeView::Plain(r)) => {
                let (a, b) = (integer_rank(l), integer_rank(r));
                if a > 0 && b > 0 {
                    Some(
                        if a > b {
                            left
                        } else {
                            right
                        },
                    )
                } else if a < 0 && b < 0 {
                    Some(
                        if a < b {
                            left
                        } else {
                            right
                        },
                    )
                } else {
                    None
                }
            },
            _ => None,
        }
    }
}

/// The type of an operation on two operands, where there is one.
pub open spec fn binary_type(
    op: BinaryOperator,
    left: LogicalTypeView,
    right: LogicalTypeView,
) -> Option<LogicalTypeView> {
    if is_arithmetic(op) {
        common_type(left, right)
    } else if op is StringConcat {
        Some(
            LogicalTypeView::Plain(LogicalType::Varchar(None, CharLengthUnits::Characters)),
        )
    } else {
        Some(LogicalTypeView::Plain(LogicalType::Boolean))
    }
}

/// An operation on two operands.
pub open spec fn binary_view(
    op: BinaryOperator,
    left: ExprRef,
    right: ExprRef,
    ty: LogicalTypeView,
) -> ExprView {
    ExprView { head: ExprHead::Binary { op, evaluator: None, ty }, children: seq![left, right] }
}

/// An operation on one operand.
pub open spec fn unary_view(op: UnaryOperator, expr: ExprRef, ty: LogicalTypeView) -> ExprView {
    ExprView { head: ExprHead::Unary { op, evaluator: None, ty }, children: seq![expr] }
}

/// The type of an operation on one operand.
pub open spec fn unary_type(op: UnaryOperator, ty: LogicalTypeView) -> LogicalTypeView {
    match op {
        UnaryOperator::Not => LogicalTypeView::Plain(LogicalType::Boolean),
        _ => ty,
    }
}

/// The type of an aggregate over values of a type.
pub open spec fn agg_type(kind: AggKind, ty: LogicalTypeView) -> LogicalTypeView {
    match kind {
        AggKind::Count => LogicalTypeView::Plain(LogicalType::Integer),
        AggKind::Avg => LogicalTypeView::Plain(LogicalType::Double),
        _ => ty,
    }
}

/// The types of the expressions.
pub open spec fn types_of(arena: ArenaView, exprs: Seq<ExprRef>) -> Seq<LogicalTypeView> {
    exprs.map_values(|expr: ExprRef| type_of(arena, expr))
}

/// The type of a window function over its arguments, where the number of arguments fits.
pub open spec fn window_type(kind: WindowFunctionKind, args: Seq<LogicalTypeView>) -> Option<
    LogicalTypeView,
> {
    match kind {
        WindowFunctionKind::Aggregate(kind) => if args.len() == 1 {
            Some(agg_type(kind, args[0]))
        } else {
            None
        },
        _ => if args.len() == 0 {
            Some(LogicalTypeView::Plain(LogicalType::Bigint))
        } else {
            None
        },
    }
}

/// The expression cast to a type, and the arena with it. There is none for a constant that has no
/// value in the type.
pub open spec fn cast_expr(arena: ArenaView, expr: ExprRef, ty: LogicalTypeView) -> Option<
    (ExprRef, ArenaView),
> {
    let end = ExprRef(arena.exprs.len() as usize);
    if type_of(arena, expr) == ty {
        Some((expr, arena))
    } else {
        match arena.exprs[expr.0 as int].head {
            ExprHead::Constant(value) => match DataValue::cast_view(value, ty) {
                Some(value) => Some((end, arena.push_expr(constant_view(value)))),
                None => None,
            },
            _ => Some(
                (
                    end,
                    arena.push_expr(
                        ExprView { head: ExprHead::TypeCast(ty), children: seq![expr] },
                    ),
                ),
            ),
        }
    }
}

/// A constant.
pub open spec fn constant_view(value: DataValueView) -> ExprView {
    ExprView { head: ExprHead::Constant(value), children: Seq::empty() }
}

fn rank(ty: &LogicalType) -> (res: i8)
    ensures
        res == integer_rank(*ty),
{
    match ty {
        LogicalType::Tinyint => 1,
        LogicalType::Smallint => 2,
        LogicalType::Integer => 3,
        LogicalType::Bigint => 4,
        LogicalType::UTinyint => -1,
        LogicalType::USmallint => -2,
        LogicalType::UInteger => -3,
        LogicalType::UBigint => -4,
        _ => 0,
    }
}

fn widest(left: LogicalType, right: LogicalType) -> (res: Option<LogicalType>)
    ensures
        res is Some <==> common_type(left@, right@) is Some,
        res matches Some(ty) ==> common_type(left@, right@) == Some(ty@),
{
    if left.same(&right) || right.same(&LogicalType::SqlNull) {
        return Some(left);
    }
    if left.same(&LogicalType::SqlNull) {
        return Some(right);
    }
    let a: i8 = rank(&left);
    let b: i8 = rank(&right);
    if a > 0 && b > 0 {
        return Some(
            if a > b {
                left
            } else {
                right
            },
        );
    }
    if a < 0 && b < 0 {
        return Some(
            if a < b {
                left
            } else {
                right
            },
        );
    }
    None
}

fn aggregate_type(kind: AggKind, ty: LogicalType) -> (res: LogicalType)
    ensures
        res@ == agg_type(kind, ty@),
{
    match kind {
        AggKind::Count => LogicalType::Integer,
        AggKind::Avg => LogicalType::Double,
        _ => ty,
    }
}

impl ExprRef {
    /// Casts the expression to a type.
    pub fn type_cast(self, ty: LogicalType, arena: &mut PlanArena) -> (res: Result<
        ExprRef,
        DatabaseError,
    >)
        requires
            old(arena)@.wf(),
            old(arena)@.has_expr(self),
        ensures
            match cast_expr(old(arena)@, self, ty@) {
                Some((expr, after)) => res == Ok::<ExprRef, DatabaseError>(expr) && final(arena)@
                    == after,
                None => (res matches Err(DatabaseError::CastFail { from, to }) && from@
                    == type_of(old(arena)@, self) && to@ == ty@) && final(arena)@ == old(arena)@,
            },
            final(arena)@.wf(),
            old(arena)@.extended_by(final(arena)@),
            res matches Ok(expr) ==> final(arena)@.has_expr(expr),
    {
        if self.return_type(arena).same(&ty) {
            return Ok(self);
        }
        let constant: Option<DataValue> = match arena.expression(self) {
            ScalarExpression::Constant(value) => Some(value.clone()),
            _ => None,
        };
        match constant {
            Some(value) => match value.cast(&ty) {
                Ok(value) => Ok(arena.alloc_expression(ScalarExpression::Constant(value))),
                Err(err) => Err(err),
            },
            None => Ok(arena.alloc_expression(ScalarExpression::TypeCast { expr: self, ty })),
        }
    }
}

impl<'a> Binder<'a> {
    /// An operation on two operands.
    pub fn bind_binary_op_expr(
        &self,
        left: ExprRef,
        right: ExprRef,
        op: BinaryOperator,
        arena: &PlanArena,
    ) -> (res: Result<ScalarExpression, DatabaseError>)
        requires
            arena@.wf(),
            arena@.has_expr(left),
            arena@.has_expr(right),
        ensures
            match binary_type(op, type_of(arena@, left), type_of(arena@, right)) {
                Some(ty) => res matches Ok(expr) && expr@ == binary_view(op, left, right, ty),
                None => res == Err::<ScalarExpression, DatabaseError>(
                    DatabaseError::MisMatch("the left operand type", "the right operand type"),
                ),
            },
            res matches Ok(expr) ==> arena@.fits(expr@),
    {
        let ty: Option<LogicalType> = match op {
            BinaryOperator::Plus
            | BinaryOperator::Minus
            | BinaryOperator::Multiply
            | BinaryOperator::Divide
            | BinaryOperator::Modulo => widest(left.return_type(arena), right.return_type(arena)),
            BinaryOperator::StringConcat => Some(
                LogicalType::Varchar(None, CharLengthUnits::Characters),
            ),
            _ => Some(LogicalType::Boolean),
        };
        match ty {
            Some(ty) => {
                let expr = ScalarExpression::Binary {
                    op,
                    left_expr: left,
                    right_expr: right,
                    evaluator: None,
                    ty,
                };
                assert(expr@.children =~= seq![left, right]);
                Ok(expr)
            },
            None => Err(
                DatabaseError::MisMatch("the left operand type", "the right operand type"),
            ),
        }
    }

    /// An operation on one operand.
    pub fn bind_unary_op_expr(&self, expr: ExprRef, op: UnaryOperator, arena: &PlanArena) -> (res:
        Result<ScalarExpression, DatabaseError>)
        requires
            arena@.wf(),
            arena@.has_expr(expr),
        ensures
            res matches Ok(node) && node@ == unary_view(
                op,
                expr,
                unary_type(op, type_of(arena@, expr)),
            ) && arena@.fits(node@),
    {
        let ty = match op {
            UnaryOperator::Not => LogicalType::Boolean,
            _ => expr.return_type(arena),
        };
        let node = ScalarExpression::Unary { op, expr, evaluator: None, ty };
        assert(node@.children =~= seq![expr]);
        Ok(node)
    }

    /// A call of a function that is known for the types of the arguments.
    pub fn bind_function_call(&self, name: String, args: Vec<ExprRef>, arena: &PlanArena) -> (res:
        Result<ScalarExpression, DatabaseError>)
        requires
            arena@.wf(),
            arena@.has_exprs(args@),
            self@.functions.wf(),
        ensures
            ({
                let key = (name@, types_of(arena@, args@));
                if self@.functions.map().contains_key(key) {
                    res matches Ok(expr) && expr@ == (ExprView {
                        head: ExprHead::ScalaFunction {
                            name: name@,
                            ty: self@.functions.map()[key].return_type@,
                        },
                        children: args@,
                    })
                } else {
                    res == Err::<ScalarExpression, DatabaseError>(
                        DatabaseError::FunctionNotFound { name },
                    )
                }
            }),
            res matches Ok(expr) ==> arena@.fits(expr@),
    {
        let mut arg_types: Vec<LogicalType> = Vec::new();
        let mut i: usize = 0;
        while i < args.len()
            invariant
                i <= args.len(),
                arena@.wf(),
                arena@.has_exprs(args@),
                arg_types@.len() == i,
                forall|j: int| 0 <= j < i ==> arg_types@[j]@ == type_of(arena@, args@[j]),
            decreases args.len() - i,
        {
            arg_types.push(args[i].return_type(arena));
            i += 1;
        }
        let summary = FunctionSummary { name: name.clone(), arg_types };
        assert(type_views(summary.arg_types@) =~= types_of(arena@, args@));
        assert(summary.name() == (name@, types_of(arena@, args@)));
        match self.functions.get(&summary) {
            Some(function) => Ok(
                ScalarExpression::ScalaFunction { name, args, ty: function.return_type.clone() },
            ),
            None => Err(DatabaseError::FunctionNotFound { name }),
        }
    }

    /// An aggregate over one argument.
    pub fn bind_aggregate_function(
        &self,
        kind: AggKind,
        args: Vec<ExprRef>,
        distinct: bool,
        arena: &PlanArena,
    ) -> (res: Result<ScalarExpression, DatabaseError>)
        requires
            arena@.wf(),
            arena@.has_exprs(args@),
        ensures
            if args@.len() == 1 {
                res matches Ok(expr) && expr@ == (ExprView {
                    head: ExprHead::AggCall {
                        distinct,
                        kind,
                        ty: agg_type(kind, type_of(arena@, args@[0])),
                    },
                    children: args@,
                })
            } else {
                res == Err::<ScalarExpression, DatabaseError>(
                    DatabaseError::MisMatch("the number of aggregate arguments", "one"),
                )
            },
            res matches Ok(expr) ==> arena@.fits(expr@),
    {
        if args.len() != 1 {
            return Err(DatabaseError::MisMatch("the number of aggregate arguments", "one"));
        }
        let ty = aggregate_type(kind, args[0].return_type(arena));
        Ok(ScalarExpression::AggCall { distinct, kind, args, ty })
    }

    /// A window function over its groups and its order.
    pub fn bind_window_function(
        &self,
        kind: WindowFunctionKind,
        args: Vec<ExprRef>,
        partition_by: Vec<ExprRef>,
        order_by: Vec<SortField>,
        arena: &PlanArena,
    ) -> (res: Result<ScalarExpression, DatabaseError>)
        requires
            arena@.wf(),
            arena@.has_exprs(args@),
            arena@.has_exprs(partition_by@),
            valid_fields(arena@, order_by@),
        ensures
            match window_type(kind, types_of(arena@, args@)) {
                Some(ty) => res matches Ok(expr) && expr@ == (ExprView {
                    head: ExprHead::WindowCall {
                        kind,
                        args: args@.len(),
                        partitions: partition_by@.len(),
                        orders: sort_directions(order_by@),
                        ty,
                    },
                    children: args@ + partition_by@ + sort_exprs(order_by@),
                }),
                None => res == Err::<ScalarExpression, DatabaseError>(
                    DatabaseError::MisMatch("the number of window arguments",
                        "the window function"),
                ),
            },
            res matches Ok(expr) ==> arena@.fits(expr@),
    {
        let ty: Option<LogicalType> = match kind {
            WindowFunctionKind::Aggregate(kind) => if args.len() == 1 {
                Some(aggregate_type(kind, args[0].return_type(arena)))
            } else {
                None
            },
            _ => if args.len() == 0 {
                Some(LogicalType::Bigint)
            } else {
                None
            },
        };
        match ty {
            Some(ty) => {
                let expr = ScalarExpression::WindowCall { kind, args, partition_by, order_by, ty };
                assert forall|i: int| 0 <= i < expr@.children.len() implies arena@.has_expr(
                    #[trigger] expr@.children[i],
                ) by {
                    let first = args@.len();
                    let second = first + partition_by@.len();
                    if i < first {
                        assert(expr@.children[i] == args@[i]);
                    } else if i < second {
                        assert(expr@.children[i] == partition_by@[i - first]);
                    } else {
                        assert(expr@.children[i] == order_by@[i - second].expr);
                    }
                }
                Ok(expr)
            },
            None => Err(
                DatabaseError::MisMatch("the number of window arguments", "the window function"),
            ),
        }
    }
}

} // verus!
