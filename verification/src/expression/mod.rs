//! Scalar expressions, held in an arena and named by references.

pub mod analysis;
pub mod conjunction;
pub mod copy;
pub mod identity;
pub mod identity_laws;
pub mod meaning;
pub mod explain;
pub mod range_detacher;
pub mod range_union;
pub mod shift_laws;
pub mod visitor_mut;

use crate::catalog::ColumnRef;
use crate::planner::arena::ExprRef;
use crate::planner::operator::sort::SortField;
use crate::types::value::{DataValue, DataValueView};
use crate::types::{LogicalType, LogicalTypeView};
use vstd::prelude::*;

verus! {

/// Operators with one operand.
#[derive(Clone, Copy, Debug, PartialEq, Eq, Hash, Structural)]
pub enum UnaryOperator {
    Plus,
    Minus,
    Not,
}

/// Operators with two operands.
#[derive(Clone, Copy, Debug, PartialEq, Eq, Hash, Structural)]
pub enum BinaryOperator {
    Plus,
    Minus,
    Multiply,
    Divide,
    Modulo,
    StringConcat,
    Gt,
    Lt,
    GtEq,
    LtEq,
    Eq,
    NotEq,
    And,
    Or,
    Like(Option<char>),
    NotLike(Option<char>),
}

/// Aggregate functions.
#[derive(Clone, Copy, Debug, PartialEq, Eq, Hash, Structural)]
pub enum AggKind {
    Avg,
    Max,
    Min,
    Sum,
    Count,
}

/// Window functions.
#[derive(Clone, Copy, Debug, PartialEq, Eq, Hash, Structural)]
pub enum WindowFunctionKind {
    RowNumber,
    Rank,
    DenseRank,
    Aggregate(AggKind),
}

/// Number of a prepared evaluator.
#[derive(Clone, Copy, Debug, PartialEq, Eq, Hash, Structural)]
pub struct EvaluatorRef(pub usize);

/// What an alias stands for: a new name, or another expression.
#[derive(Clone, Debug, PartialEq, Eq, Hash)]
pub enum AliasType {
    Name(String),
    Expr(ExprRef),
}

/// One node of an expression; its operands are references into the same arena.
#[allow(inconsistent_fields)]
#[derive(Debug, PartialEq, Eq, Hash)]
pub enum ScalarExpression {
    Constant(DataValue),
    ColumnRef { column: ColumnRef, position: usize },
    Alias { expr: ExprRef, alias: AliasType },
    TypeCast { expr: ExprRef, ty: LogicalType },
    IsNull { negated: bool, expr: ExprRef },
    Unary { op: UnaryOperator, expr: ExprRef, evaluator: Option<EvaluatorRef>, ty: LogicalType },
    Binary {
        op: BinaryOperator,
        left_expr: ExprRef,
        right_expr: ExprRef,
        evaluator: Option<EvaluatorRef>,
        ty: LogicalType,
    },
    AggCall { distinct: bool, kind: AggKind, args: Vec<ExprRef>, ty: LogicalType },
    WindowCall {
        kind: WindowFunctionKind,
        args: Vec<ExprRef>,
        partition_by: Vec<ExprRef>,
        order_by: Vec<SortField>,
        ty: LogicalType,
    },
    In { negated: bool, expr: ExprRef, args: Vec<ExprRef> },
    Between { negated: bool, expr: ExprRef, left_expr: ExprRef, right_expr: ExprRef },
    Empty,
    Tuple(Vec<ExprRef>),
    ScalaFunction { name: String, args: Vec<ExprRef>, ty: LogicalType },
    CaseWhen {
        operand_expr: Option<ExprRef>,
        expr_pairs: Vec<(ExprRef, ExprRef)>,
        else_expr: Option<ExprRef>,
        ty: LogicalType,
    },
}

/// What an expression node is, apart from its operands.
#[allow(inconsistent_fields)]
pub enum ExprHead {
    Constant(DataValueView),
    ColumnRef { column: ColumnRef, position: usize },
    AliasName(Seq<char>),
    AliasExpr,
    TypeCast(LogicalTypeView),
    IsNull { negated: bool },
    Unary { op: UnaryOperator, evaluator: Option<EvaluatorRef>, ty: LogicalTypeView },
    Binary { op: BinaryOperator, evaluator: Option<EvaluatorRef>, ty: LogicalTypeView },
    AggCall { distinct: bool, kind: AggKind, ty: LogicalTypeView },
    WindowCall {
        kind: WindowFunctionKind,
        args: nat,
        partitions: nat,
        orders: Seq<(bool, bool)>,
        ty: LogicalTypeView,
    },
    In { negated: bool },
    Between { negated: bool },
    Empty,
    Tuple,
    ScalaFunction { name: Seq<char>, ty: LogicalTypeView },
    CaseWhen { operand: bool, pairs: nat, otherwise: bool, ty: LogicalTypeView },
}

/// Mathematical model of an expression node: what it is, and its operands in order.
pub struct ExprView {
    pub head: ExprHead,
    pub children: Seq<ExprRef>,
}

/// The parts of the pairs, pair after pair.
pub open spec fn flat_pairs(pairs: Seq<(ExprRef, ExprRef)>) -> Seq<ExprRef> {
    Seq::new(
        2 * pairs.len(),
        |i: int|
            if i % 2 == 0 {
                pairs[i / 2].0
            } else {
                pairs[i / 2].1
            },
    )
}

/// The expressions of the sort fields.
pub open spec fn sort_exprs(fields: Seq<SortField>) -> Seq<ExprRef> {
    fields.map_values(|field: SortField| field.expr)
}

/// The directions of the sort fields.
pub open spec fn sort_directions(fields: Seq<SortField>) -> Seq<(bool, bool)> {
    fields.map_values(|field: SortField| (field.asc, field.nulls_first))
}

/// Zero or one reference as a sequence.
pub open spec fn optional(expr: Option<ExprRef>) -> Seq<ExprRef> {
    match expr {
        Some(expr) => seq![expr],
        None => Seq::empty(),
    }
}

impl View for ScalarExpression {
    type V = ExprView;

    open spec fn view(&self) -> ExprView {
        match self {
            ScalarExpression::Constant(value) => ExprView {
                head: ExprHead::Constant(value@),
                children: Seq::empty(),
            },
            ScalarExpression::ColumnRef { column, position } => ExprView {
                head: ExprHead::ColumnRef { column: *column, position: *position },
                children: Seq::empty(),
            },
            ScalarExpression::Alias { expr, alias } => match alias {
                AliasType::Name(name) => ExprView {
                    head: ExprHead::AliasName(name@),
                    children: seq![*expr],
                },
                AliasType::Expr(other) => ExprView {
                    head: ExprHead::AliasExpr,
                    children: seq![*expr, *other],
                },
            },
            ScalarExpression::TypeCast { expr, ty } => ExprView {
                head: ExprHead::TypeCast(ty@),
                children: seq![*expr],
            },
            ScalarExpression::IsNull { negated, expr } => ExprView {
                head: ExprHead::IsNull { negated: *negated },
                children: seq![*expr],
            },
            ScalarExpression::Unary { op, expr, evaluator, ty } => ExprView {
                head: ExprHead::Unary { op: *op, evaluator: *evaluator, ty: ty@ },
                children: seq![*expr],
            },
            ScalarExpression::Binary { op, left_expr, right_expr, evaluator, ty } => ExprView {
                head: ExprHead::Binary { op: *op, evaluator: *evaluator, ty: ty@ },
                children: seq![*left_expr, *right_expr],
            },
            ScalarExpression::AggCall { distinct, kind, args, ty } => ExprView {
                head: ExprHead::AggCall { distinct: *distinct, kind: *kind, ty: ty@ },
                children: args@,
            },
            ScalarExpression::WindowCall { kind, args, partition_by, order_by, ty } => ExprView {
                head: ExprHead::WindowCall {
                    kind: *kind,
                    args: args@.len(),
                    partitions: partition_by@.len(),
                    orders: sort_directions(order_by@),
                    ty: ty@,
                },
                children: args@ + partition_by@ + sort_exprs(order_by@),
            },
            ScalarExpression::In { negated, expr, args } => ExprView {
                head: ExprHead::In { negated: *negated },
                children: seq![*expr] + args@,
            },
            ScalarExpression::Between { negated, expr, left_expr, right_expr } => ExprView {
                head: ExprHead::Between { negated: *negated },
                children: seq![*expr, *left_expr, *right_expr],
            },
            ScalarExpression::Empty => ExprView { head: ExprHead::Empty, children: Seq::empty() },
            ScalarExpression::Tuple(args) => ExprView { head: ExprHead::Tuple, children: args@ },
            ScalarExpression::ScalaFunction { name, args, ty } => ExprView {
                head: ExprHead::ScalaFunction { name: name@, ty: ty@ },
                children: args@,
            },
            ScalarExpression::CaseWhen { operand_expr, expr_pairs, else_expr, ty } => ExprView {
                head: ExprHead::CaseWhen {
                    operand: operand_expr is Some,
                    pairs: expr_pairs@.len(),
                    otherwise: else_expr is Some,
                    ty: ty@,
                },
                children: optional(*operand_expr) + flat_pairs(expr_pairs@) + optional(*else_expr),
            },
        }
    }
}

fn append_all(target: &mut Vec<ExprRef>, more: &Vec<ExprRef>)
    ensures
        final(target)@ == old(target)@ + more@,
{
    let mut i: usize = 0;
    while i < more.len()
        invariant
            i <= more.len(),
            target@ == old(target)@ + more@.take(i as int),
        decreases more.len() - i,
    {
        target.push(more[i]);
        i += 1;
        assert(more@.take(i as int) =~= more@.take(i - 1).push(more@[i - 1]));
        assert(target@ =~= old(target)@ + more@.take(i as int));
    }
    assert(more@.take(i as int) =~= more@);
}

impl ScalarExpression {
    /// A reference to a column at a position of the input row.
    pub fn column_expr(column: ColumnRef, position: usize) -> (res: Self)
        ensures
            res == (ScalarExpression::ColumnRef { column, position }),
    {
        ScalarExpression::ColumnRef { column, position }
    }

    /// The conjunction of two expressions.
    pub fn and(left_expr: ExprRef, right_expr: ExprRef) -> (res: Self)
        ensures
            res@ == and_view(left_expr, right_expr),
    {
        ScalarExpression::Binary {
            op: BinaryOperator::And,
            left_expr,
            right_expr,
            evaluator: None,
            ty: LogicalType::Boolean,
        }
    }

    /// The operands in order.
    pub fn children(&self) -> (res: Vec<ExprRef>)
        ensures
            res@ == self@.children,
    {
        let mut res: Vec<ExprRef> = Vec::new();
        match self {
            ScalarExpression::Constant(_) | ScalarExpression::ColumnRef { .. }
            | ScalarExpression::Empty => {},
            ScalarExpression::Alias { expr, alias } => {
                res.push(*expr);
                if let AliasType::Expr(other) = alias {
                    res.push(*other);
                }
            },
            ScalarExpression::TypeCast { expr, .. } | ScalarExpression::IsNull { expr, .. }
            | ScalarExpression::Unary { expr, .. } => {
                res.push(*expr);
            },
            ScalarExpression::Binary { left_expr, right_expr, .. } => {
                res.push(*left_expr);
                res.push(*right_expr);
            },
            ScalarExpression::AggCall { args, .. } | ScalarExpression::Tuple(args)
            | ScalarExpression::ScalaFunction { args, .. } => {
                append_all(&mut res, args);
            },
            ScalarExpression::WindowCall { args, partition_by, order_by, .. } => {
                append_all(&mut res, args);
                append_all(&mut res, partition_by);
                let ghost front = res@;
                let mut i: usize = 0;
                while i < order_by.len()
                    invariant
                        i <= order_by.len(),
                        res@ == front + sort_exprs(order_by@).take(i as int),
                    decreases order_by.len() - i,
                {
                    res.push(order_by[i].expr);
                    i += 1;
                    assert(res@ =~= front + sort_exprs(order_by@).take(i as int));
                }
                assert(sort_exprs(order_by@).take(i as int) =~= sort_exprs(order_by@));
            },
            ScalarExpression::In { expr, args, .. } => {
                res.push(*expr);
                append_all(&mut res, args);
            },
            ScalarExpression::Between { expr, left_expr, right_expr, .. } => {
                res.push(*expr);
                res.push(*left_expr);
                res.push(*right_expr);
            },
            ScalarExpression::CaseWhen { operand_expr, expr_pairs, else_expr, .. } => {
                if let Some(expr) = operand_expr {
                    res.push(*expr);
                }
                assert(res@ =~= optional(*operand_expr));
                let ghost front = res@;
                let mut i: usize = 0;
                while i < expr_pairs.len()
                    invariant
                        i <= expr_pairs.len(),
                        res@ == front + flat_pairs(expr_pairs@).take(2 * i as int),
                    decreases expr_pairs.len() - i,
                {
                    res.push(expr_pairs[i].0);
                    res.push(expr_pairs[i].1);
                    i += 1;
                    assert(res@ =~= front + flat_pairs(expr_pairs@).take(2 * i as int));
                }
                assert(flat_pairs(expr_pairs@).take(2 * i as int) =~= flat_pairs(expr_pairs@));
                if let Some(expr) = else_expr {
                    res.push(*expr);
                }
            },
        }
        assert(res@ =~= self@.children);
        res
    }
}

/// The model of the conjunction of two expressions.
pub open spec fn and_view(left_expr: ExprRef, right_expr: ExprRef) -> ExprView {
    ExprView {
        head: ExprHead::Binary {
            op: BinaryOperator::And,
            evaluator: None,
            ty: LogicalTypeView::Plain(LogicalType::Boolean),
        },
        children: seq![left_expr, right_expr],
    }
}

impl From<bool> for ScalarExpression {
    fn from(value: bool) -> (res: Self) {
        ScalarExpression::Constant(DataValue::Boolean(value))
    }
}

impl vstd::std_specs::convert::FromSpecImpl<bool> for ScalarExpression {
    open spec fn obeys_from_spec() -> bool {
        true
    }

    open spec fn from_spec(value: bool) -> ScalarExpression {
        ScalarExpression::Constant(DataValue::Boolean(value))
    }
}

impl From<i32> for ScalarExpression {
    fn from(value: i32) -> (res: Self) {
        ScalarExpression::Constant(DataValue::Int32(value))
    }
}

impl vstd::std_specs::convert::FromSpecImpl<i32> for ScalarExpression {
    open spec fn obeys_from_spec() -> bool {
        true
    }

    open spec fn from_spec(value: i32) -> ScalarExpression {
        ScalarExpression::Constant(DataValue::Int32(value))
    }
}

fn clone_refs(refs: &Vec<ExprRef>) -> (res: Vec<ExprRef>)
    ensures
        res@ == refs@,
{
    let res = refs.clone();
    assert(res@ =~= refs@);
    res
}

impl Clone for ScalarExpression {
    fn clone(&self) -> (res: Self)
        ensures
            res@ == self@,
    {
        match self {
            ScalarExpression::Constant(value) => ScalarExpression::Constant(value.clone()),
            ScalarExpression::ColumnRef { column, position } => ScalarExpression::ColumnRef {
                column: *column,
                position: *position,
            },
            ScalarExpression::Alias { expr, alias } => ScalarExpression::Alias {
                expr: *expr,
                alias: match alias {
                    AliasType::Name(name) => AliasType::Name(name.clone()),
                    AliasType::Expr(other) => AliasType::Expr(*other),
                },
            },
            ScalarExpression::TypeCast { expr, ty } => ScalarExpression::TypeCast {
                expr: *expr,
                ty: ty.clone(),
            },
            ScalarExpression::IsNull { negated, expr } => ScalarExpression::IsNull {
                negated: *negated,
                expr: *expr,
            },
            ScalarExpression::Unary { op, expr, evaluator, ty } => ScalarExpression::Unary {
                op: *op,
                expr: *expr,
                evaluator: *evaluator,
                ty: ty.clone(),
            },
            ScalarExpression::Binary { op, left_expr, right_expr, evaluator, ty } => {
                ScalarExpression::Binary {
                    op: *op,
                    left_expr: *left_expr,
                    right_expr: *right_expr,
                    evaluator: *evaluator,
                    ty: ty.clone(),
                }
            },
            ScalarExpression::AggCall { distinct, kind, args, ty } => ScalarExpression::AggCall {
                distinct: *distinct,
                kind: *kind,
                args: clone_refs(args),
                ty: ty.clone(),
            },
            ScalarExpression::WindowCall { kind, args, partition_by, order_by, ty } => {
                let fields = order_by.clone();
                assert(fields@ =~= order_by@);
                ScalarExpression::WindowCall {
                    kind: *kind,
                    args: clone_refs(args),
                    partition_by: clone_refs(partition_by),
                    order_by: fields,
                    ty: ty.clone(),
                }
            },
            ScalarExpression::In { negated, expr, args } => ScalarExpression::In {
                negated: *negated,
                expr: *expr,
                args: clone_refs(args),
            },
            ScalarExpression::Between { negated, expr, left_expr, right_expr } => {
                ScalarExpression::Between {
                    negated: *negated,
                    expr: *expr,
                    left_expr: *left_expr,
                    right_expr: *right_expr,
                }
            },
            ScalarExpression::Empty => ScalarExpression::Empty,
            ScalarExpression::Tuple(args) => ScalarExpression::Tuple(clone_refs(args)),
            ScalarExpression::ScalaFunction { name, args, ty } => ScalarExpression::ScalaFunction {
                name: name.clone(),
                args: clone_refs(args),
                ty: ty.clone(),
            },
            ScalarExpression::CaseWhen { operand_expr, expr_pairs, else_expr, ty } => {
                let mut pairs: Vec<(ExprRef, ExprRef)> = Vec::new();
                let mut i: usize = 0;
                while i < expr_pairs.len()
                    invariant
                        i <= expr_pairs.len(),
                        pairs@ == expr_pairs@.take(i as int),
                    decreases expr_pairs.len() - i,
                {
                    pairs.push((expr_pairs[i].0, expr_pairs[i].1));
                    i += 1;
                    assert(pairs@ =~= expr_pairs@.take(i as int));
                }
                assert(pairs@ =~= expr_pairs@);
                ScalarExpression::CaseWhen {
                    operand_expr: *operand_expr,
                    expr_pairs: pairs,
                    else_expr: *else_expr,
                    ty: ty.clone(),
                }
            },
        }
    }
}

} // verus!
