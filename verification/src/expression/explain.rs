//! The text of an expression.

use crate::expression::{
    AggKind, AliasType, BinaryOperator, ExprHead, ScalarExpression, UnaryOperator,
    WindowFunctionKind,
};
use crate::planner::arena::{ArenaView, ExprRef, PlanArena};
use crate::types::value::DataValue;
use crate::types::LogicalType;
use vstd::prelude::*;

verus! {

pub open spec fn unary_text(op: UnaryOperator) -> Seq<char> {
    match op {
        UnaryOperator::Plus => "+"@,
        UnaryOperator::Minus => "-"@,
        UnaryOperator::Not => "!"@,
    }
}

pub open spec fn binary_text(op: BinaryOperator) -> Seq<char> {
    match op {
        BinaryOperator::Plus => "+"@,
        BinaryOperator::Minus => "-"@,
        BinaryOperator::Multiply => "*"@,
        BinaryOperator::Divide => "/"@,
        BinaryOperator::Modulo => "%"@,
        BinaryOperator::StringConcat => "&"@,
        BinaryOperator::Gt => ">"@,
        BinaryOperator::Lt => "<"@,
        BinaryOperator::GtEq => ">="@,
        BinaryOperator::LtEq => "<="@,
        BinaryOperator::Eq => "="@,
        BinaryOperator::NotEq => "!="@,
        BinaryOperator::And => "&&"@,
        BinaryOperator::Or => "||"@,
        BinaryOperator::Like(_) => "like"@,
        BinaryOperator::NotLike(_) => "not like"@,
    }
}

pub open spec fn agg_text(kind: AggKind) -> Seq<char> {
    match kind {
        AggKind::Avg => "Avg"@,
        AggKind::Max => "Max"@,
        AggKind::Min => "Min"@,
        AggKind::Sum => "Sum"@,
        AggKind::Count => "Count"@,
    }
}

pub open spec fn window_text(kind: WindowFunctionKind) -> Seq<char> {
    match kind {
        WindowFunctionKind::RowNumber => "RowNumber"@,
        WindowFunctionKind::Rank => "Rank"@,
        WindowFunctionKind::DenseRank => "DenseRank"@,
        WindowFunctionKind::Aggregate(kind) => agg_text(kind),
    }
}

/// The text of an expression.
pub open spec fn expr_text(arena: ArenaView, expr: ExprRef) -> Seq<char>
    decreases expr.0, 1nat, 0nat,
{
    if arena.has_expr(expr) {
        let node = arena.exprs[expr.0 as int];
        let args = node.children;
        match node.head {
            ExprHead::Constant(value) => DataValue::text(value),
            ExprHead::ColumnRef { column, .. } => arena.columns[column.0 as int].full_name(),
            ExprHead::AliasName(name) => name,
            ExprHead::AliasExpr => list_text(arena, args.skip(1), expr.0 as nat),
            ExprHead::TypeCast(ty) => "Cast("@ + list_text(arena, args, expr.0 as nat) + " as "@
                + LogicalType::text(ty) + ")"@,
            ExprHead::IsNull { negated } => list_text(arena, args, expr.0 as nat) + (if negated {
                " is not null"@
            } else {
                " is null"@
            }),
            ExprHead::Unary { op, .. } => unary_text(op) + list_text(arena, args, expr.0 as nat),
            ExprHead::Binary { op, .. } => "("@ + list_text(arena, args.take(1), expr.0 as nat)
                + " "@ + binary_text(op) + " "@ + list_text(arena, args.skip(1), expr.0 as nat)
                + ")"@,
            ExprHead::AggCall { distinct, kind, .. } => agg_text(kind) + (if distinct {
                "(Distinct "@
            } else {
                "("@
            }) + list_text(arena, args, expr.0 as nat) + ")"@,
            ExprHead::WindowCall { kind, args: count, .. } => window_text(kind) + "("@ + list_text(
                arena,
                args.take(count as int),
                expr.0 as nat,
            ) + ") Over("@ + list_text(arena, args.skip(count as int), expr.0 as nat) + ")"@,
            ExprHead::In { negated } => list_text(arena, args.take(1), expr.0 as nat) + (
            if negated {
                " not in ("@
            } else {
                " in ("@
            }) + list_text(arena, args.skip(1), expr.0 as nat) + ")"@,
            ExprHead::Between { negated } => list_text(arena, args.take(1), expr.0 as nat) + (
            if negated {
                " not between ["@
            } else {
                " between ["@
            }) + list_text(arena, args.skip(1), expr.0 as nat) + "]"@,
            ExprHead::Empty => "Empty"@,
            ExprHead::Tuple => "("@ + list_text(arena, args, expr.0 as nat) + ")"@,
            ExprHead::ScalaFunction { name, .. } => name + "("@ + list_text(
                arena,
                args,
                expr.0 as nat,
            ) + ")"@,
            ExprHead::CaseWhen { .. } => "CaseWhen("@ + list_text(arena, args, expr.0 as nat)
                + ")"@,
        }
    } else {
        Seq::empty()
    }
}

/// The texts of the expressions, separated by commas.
pub open spec fn list_text(arena: ArenaView, list: Seq<ExprRef>, bound: nat) -> Seq<char>
    decreases bound, 0nat, list.len(),
{
    if list.len() == 0 {
        Seq::empty()
    } else if list.last().0 >= bound {
        list_text(arena, list.drop_last(), bound)
    } else if list.len() == 1 {
        expr_text(arena, list[0])
    } else {
        list_text(arena, list.drop_last(), bound) + ", "@ + expr_text(arena, list.last())
    }
}

fn render_binary(op: BinaryOperator) -> (text: &'static str)
    ensures
        text@ == binary_text(op),
{
    match op {
        BinaryOperator::Plus => "+",
        BinaryOperator::Minus => "-",
        BinaryOperator::Multiply => "*",
        BinaryOperator::Divide => "/",
        BinaryOperator::Modulo => "%",
        BinaryOperator::StringConcat => "&",
        BinaryOperator::Gt => ">",
        BinaryOperator::Lt => "<",
        BinaryOperator::GtEq => ">=",
        BinaryOperator::LtEq => "<=",
        BinaryOperator::Eq => "=",
        BinaryOperator::NotEq => "!=",
        BinaryOperator::And => "&&",
        BinaryOperator::Or => "||",
        BinaryOperator::Like(_) => "like",
        BinaryOperator::NotLike(_) => "not like",
    }
}

fn render_unary(op: UnaryOperator) -> (text: &'static str)
    ensures
        text@ == unary_text(op),
{
    match op {
        UnaryOperator::Plus => "+",
        UnaryOperator::Minus => "-",
        UnaryOperator::Not => "!",
    }
}

fn render_agg(kind: AggKind) -> (text: &'static str)
    ensures
        text@ == agg_text(kind),
{
    match kind {
        AggKind::Avg => "Avg",
        AggKind::Max => "Max",
        AggKind::Min => "Min",
        AggKind::Sum => "Sum",
        AggKind::Count => "Count",
    }
}

fn render_window(kind: WindowFunctionKind) -> (text: &'static str)
    ensures
        text@ == window_text(kind),
{
    match kind {
        WindowFunctionKind::RowNumber => "RowNumber",
        WindowFunctionKind::Rank => "Rank",
        WindowFunctionKind::DenseRank => "DenseRank",
        WindowFunctionKind::Aggregate(kind) => render_agg(kind),
    }
}

/// Renders the expressions from one position of the list up to another.
fn render_list(list: &Vec<ExprRef>, from: usize, to: usize, bound: usize,
    arena: &PlanArena) -> (text:
    String)
    requires
        arena@.wf(),
        bound <= arena@.exprs.len(),
        from <= to <= list.len(),
        forall|i: int| 0 <= i < list.len() ==> (#[trigger] list@[i]).0 < bound,
    ensures
        text@ == list_text(arena@, list@.subrange(from as int, to as int), bound as nat),
    decreases bound, 0nat,
{
    let mut text = String::new();
    let mut i: usize = from;
    assert(list@.subrange(from as int, i as int) =~= Seq::empty());
    while i < to
        invariant
            from <= i <= to,
            to <= list.len(),
            arena@.wf(),
            bound <= arena@.exprs.len(),
            forall|j: int| 0 <= j < list.len() ==> (#[trigger] list@[j]).0 < bound,
            text@ == list_text(arena@, list@.subrange(from as int, i as int), bound as nat),
        decreases to - i,
    {
        let ghost front = list@.subrange(from as int, i as int);
        let ghost next = list@.subrange(from as int, i + 1);
        assert(next.drop_last() =~= front);
        assert(next.last() == list@[i as int]);
        if i > from {
            text.append(", ");
        }
        let item = list[i].explain(arena);
        text.append(item.as_str());
        proof {
            if i == from {
                assert(next[0] == list@[i as int]);
                assert(text@ =~= expr_text(arena@, next[0]));
            } else {
                assert(text@ =~= list_text(arena@, front, bound as nat) + ", "@ + expr_text(
                    arena@,
                    next.last(),
                ));
            }
        }
        i += 1;
    }
    text
}

impl ExprRef {
    /// Shows the expression.
    pub fn explain(self, arena: &PlanArena) -> (text: String)
        requires
            arena@.wf(),
            arena@.has_expr(self),
        ensures
            text@ == expr_text(arena@, self),
        decreases self.0, 1nat,
    {
        let node = arena.expression(self);
        let args = node.children();
        let ghost list = args@;
        let bound: usize = self.0;
        assert(arena@.exprs[self.0 as int].head matches ExprHead::ColumnRef { column, .. }
            ==> arena@.has_column(column));
        assert forall|i: int| 0 <= i < args.len() implies (#[trigger] args@[i]).0 < bound by {
            assert(arena@.exprs[self.0 as int].children[i].0 < self.0);
        }
        assert(list.subrange(0, list.len() as int) =~= list);
        assert(list.len() >= 1 ==> list.subrange(0, 1) =~= list.take(1));
        assert(list.len() >= 1 ==> list.subrange(1, list.len() as int) =~= list.skip(1));
        match node {
            ScalarExpression::Constant(value) => value.to_string(),
            ScalarExpression::ColumnRef { column, .. } => arena.column(*column).full_name(),
            ScalarExpression::Alias { alias, .. } => match alias {
                AliasType::Name(name) => name.clone(),
                AliasType::Expr(_) => render_list(&args, 1, args.len(), bound, arena),
            },
            ScalarExpression::TypeCast { ty, .. } => {
                let mut text = "Cast(".to_string();
                text.append(render_list(&args, 0, args.len(), bound, arena).as_str());
                text.append(" as ");
                text.append(ty.to_string().as_str());
                text.append(")");
                text
            },
            ScalarExpression::IsNull { negated, .. } => {
                let mut text = render_list(&args, 0, args.len(), bound, arena);
                text.append(if *negated { " is not null" } else { " is null" });
                text
            },
            ScalarExpression::Unary { op, .. } => {
                let mut text = render_unary(*op).to_string();
                text.append(render_list(&args, 0, args.len(), bound, arena).as_str());
                text
            },
            ScalarExpression::Binary { op, .. } => {
                let mut text = "(".to_string();
                text.append(render_list(&args, 0, 1, bound, arena).as_str());
                text.append(" ");
                text.append(render_binary(*op));
                text.append(" ");
                text.append(render_list(&args, 1, args.len(), bound, arena).as_str());
                text.append(")");
                text
            },
            ScalarExpression::AggCall { distinct, kind, .. } => {
                let mut text = render_agg(*kind).to_string();
                text.append(if *distinct { "(Distinct " } else { "(" });
                text.append(render_list(&args, 0, args.len(), bound, arena).as_str());
                text.append(")");
                text
            },
            ScalarExpression::WindowCall { kind, args: own, .. } => {
                let count: usize = own.len();
                assert(list.subrange(0, count as int) =~= list.take(count as int));
                assert(list.subrange(count as int, list.len() as int) =~= list.skip(count as int));
                let mut text = render_window(*kind).to_string();
                text.append("(");
                text.append(render_list(&args, 0, count, bound, arena).as_str());
                text.append(") Over(");
                text.append(render_list(&args, count, args.len(), bound, arena).as_str());
                text.append(")");
                text
            },
            ScalarExpression::In { negated, .. } => {
                let mut text = render_list(&args, 0, 1, bound, arena);
                text.append(if *negated { " not in (" } else { " in (" });
                text.append(render_list(&args, 1, args.len(), bound, arena).as_str());
                text.append(")");
                text
            },
            ScalarExpression::Between { negated, .. } => {
                let mut text = render_list(&args, 0, 1, bound, arena);
                text.append(if *negated { " not between [" } else { " between [" });
                text.append(render_list(&args, 1, args.len(), bound, arena).as_str());
                text.append("]");
                text
            },
            ScalarExpression::Empty => "Empty".to_string(),
            ScalarExpression::Tuple(_) => {
                let mut text = "(".to_string();
                text.append(render_list(&args, 0, args.len(), bound, arena).as_str());
                text.append(")");
                text
            },
            ScalarExpression::ScalaFunction { name, .. } => {
                let mut text = name.clone();
                text.append("(");
                text.append(render_list(&args, 0, args.len(), bound, arena).as_str());
                text.append(")");
                text
            },
            ScalarExpression::CaseWhen { .. } => {
                let mut text = "CaseWhen(".to_string();
                text.append(render_list(&args, 0, args.len(), bound, arena).as_str());
                text.append(")");
                text
            },
        }
    }
}

} // verus!
