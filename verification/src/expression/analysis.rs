//! What an expression of an arena refers to, is equal to, and returns.

use crate::catalog::ColumnRef;
use crate::expression::{
    sort_directions, AliasType, EvaluatorRef, ExprHead, ExprView, ScalarExpression,
};
use crate::planner::arena::{ArenaView, ExprRef, PlanArena};
use crate::planner::operator::sort::SortField;
use crate::types::value::DataValue;
use crate::types::{LogicalType, LogicalTypeView};
use vstd::prelude::*;

verus! {

/// The columns that an expression refers to, in order of appearance.
pub open spec fn columns_of(exprs: Seq<ExprView>, expr: ExprRef) -> Seq<ColumnRef>
    decreases expr.0, 1nat, 0nat,
{
    if expr.0 < exprs.len() {
        match exprs[expr.0 as int].head {
            ExprHead::ColumnRef { column, .. } => seq![column],
            _ => columns_of_all(exprs, exprs[expr.0 as int].children, expr.0 as nat),
        }
    } else {
        Seq::empty()
    }
}

/// The columns that the expressions refer to, in order of appearance.
pub open spec fn columns_of_all(
    exprs: Seq<ExprView>,
    list: Seq<ExprRef>,
    bound: nat,
) -> Seq<ColumnRef>
    decreases bound, 0nat, list.len(),
{
    if list.len() == 0 {
        Seq::empty()
    } else if list.last().0 < bound {
        columns_of_all(exprs, list.drop_last(), bound) + columns_of(exprs, list.last())
    } else {
        columns_of_all(exprs, list.drop_last(), bound)
    }
}

/// The expression behind all aliases.
pub open spec fn bare(exprs: Seq<ExprView>, expr: ExprRef) -> ExprRef
    decreases expr.0,
{
    if expr.0 < exprs.len() {
        let node = exprs[expr.0 as int];
        match node.head {
            ExprHead::AliasName(_) => if node.children.len() == 1 && node.children[0].0 < expr.0 {
                bare(exprs, node.children[0])
            } else {
                expr
            },
            ExprHead::AliasExpr => if node.children.len() == 2 && node.children[1].0 < expr.0 {
                bare(exprs, node.children[1])
            } else {
                expr
            },
            _ => expr,
        }
    } else {
        expr
    }
}

/// Whether two nodes are the same apart from their operands and from the position of a column.
pub open spec fn same_head(arena: ArenaView, left: ExprHead, right: ExprHead) -> bool {
    match (left, right) {
        (
            ExprHead::ColumnRef { column: l, .. },
            ExprHead::ColumnRef { column: r, .. },
        ) => arena.same_column(l, r),
        _ => left == right,
    }
}

/// Whether two expressions are the same, up to the positions of their columns.
pub open spec fn eq_ignoring_positions(arena: ArenaView, left: ExprRef, right: ExprRef) -> bool
    decreases left.0,
{
    &&& arena.has_expr(left)
    &&& arena.has_expr(right)
    &&& {
        let l = arena.exprs[left.0 as int];
        let r = arena.exprs[right.0 as int];
        &&& same_head(arena, l.head, r.head)
        &&& l.children.len() == r.children.len()
        &&& forall|i: int|
            #![trigger l.children[i]]
            0 <= i < l.children.len() ==> l.children[i].0 < left.0 && eq_ignoring_positions(
                arena,
                l.children[i],
                r.children[i],
            )
    }
}

/// The type of the values of an expression.
pub open spec fn type_of(arena: ArenaView, expr: ExprRef) -> LogicalTypeView
    decreases expr.0,
{
    if arena.has_expr(expr) {
        let node = arena.exprs[expr.0 as int];
        match node.head {
            ExprHead::Constant(value) => DataValue::type_of(value),
            ExprHead::ColumnRef { column, .. } => arena.columns[column.0 as int].ty,
            ExprHead::AliasName(_) | ExprHead::AliasExpr => if node.children.len() > 0
                && node.children[0].0 < expr.0 {
                type_of(arena, node.children[0])
            } else {
                LogicalTypeView::Plain(LogicalType::SqlNull)
            },
            ExprHead::TypeCast(ty) => ty,
            ExprHead::IsNull { .. } | ExprHead::In { .. } | ExprHead::Between { .. } => {
                LogicalTypeView::Plain(LogicalType::Boolean)
            },
            ExprHead::Unary { ty, .. } => ty,
            ExprHead::Binary { ty, .. } => ty,
            ExprHead::AggCall { ty, .. } => ty,
            ExprHead::WindowCall { ty, .. } => ty,
            ExprHead::Empty => LogicalTypeView::Plain(LogicalType::SqlNull),
            ExprHead::Tuple => LogicalTypeView::Tuple(
                Seq::new(
                    node.children.len(),
                    |i: int|
                        if 0 <= i < node.children.len() && node.children[i].0 < expr.0 {
                            type_of(arena, node.children[i])
                        } else {
                            arbitrary()
                        },
                ),
            ),
            ExprHead::ScalaFunction { ty, .. } => ty,
            ExprHead::CaseWhen { ty, .. } => ty,
        }
    } else {
        LogicalTypeView::Plain(LogicalType::SqlNull)
    }
}

/// Columns of a list that is cut somewhere: first the front, then the back.
proof fn lemma_columns_of_all_take(
    exprs: Seq<ExprView>,
    list: Seq<ExprRef>,
    bound: nat,
    n: int,
)
    requires
        0 <= n < list.len(),
        list[n].0 < bound,
    ensures
        columns_of_all(exprs, list.take(n + 1), bound) == columns_of_all(exprs, list.take(n), bound)
            + columns_of(exprs, list[n]),
{
    assert(list.take(n + 1).drop_last() =~= list.take(n));
    assert(list.take(n + 1).last() == list[n]);
}

/// Appending expressions leaves the columns of the earlier ones alone.
pub proof fn lemma_columns_extend(before: Seq<ExprView>, after: Seq<ExprView>, expr: ExprRef)
    requires
        before.is_prefix_of(after),
        expr.0 < before.len(),
    ensures
        columns_of(after, expr) == columns_of(before, expr),
    decreases expr.0, 1nat, 0nat,
{
    assert(after[expr.0 as int] == before[expr.0 as int]);
    lemma_columns_extend_all(before, after, before[expr.0 as int].children, expr.0 as nat);
}

proof fn lemma_columns_extend_all(
    before: Seq<ExprView>,
    after: Seq<ExprView>,
    list: Seq<ExprRef>,
    bound: nat,
)
    requires
        before.is_prefix_of(after),
        bound <= before.len(),
    ensures
        columns_of_all(after, list, bound) == columns_of_all(before, list, bound),
    decreases bound, 0nat, list.len(),
{
    if list.len() > 0 {
        lemma_columns_extend_all(before, after, list.drop_last(), bound);
        if list.last().0 < bound {
            lemma_columns_extend(before, after, list.last());
        }
    }
}

/// The columns of an expression are columns of the arena.
pub proof fn lemma_columns_valid(arena: ArenaView, expr: ExprRef)
    requires
        arena.wf(),
        arena.has_expr(expr),
    ensures
        arena.has_columns(columns_of(arena.exprs, expr)),
    decreases expr.0, 1nat, 0nat,
{
    lemma_columns_valid_all(arena, arena.exprs[expr.0 as int].children, expr.0 as nat);
    assert(arena.exprs[expr.0 as int].head matches ExprHead::ColumnRef { column, .. }
        ==> arena.has_column(column));
}

proof fn lemma_columns_valid_all(arena: ArenaView, list: Seq<ExprRef>, bound: nat)
    requires
        arena.wf(),
        bound <= arena.exprs.len(),
    ensures
        arena.has_columns(columns_of_all(arena.exprs, list, bound)),
    decreases bound, 0nat, list.len(),
{
    if list.len() > 0 {
        lemma_columns_valid_all(arena, list.drop_last(), bound);
        if list.last().0 < bound {
            lemma_columns_valid(arena, list.last());
        }
    }
}

/// The expression behind the aliases is part of the arena too.
pub proof fn lemma_bare_bounded(exprs: Seq<ExprView>, expr: ExprRef)
    ensures
        bare(exprs, expr).0 <= expr.0,
    decreases expr.0,
{
    if expr.0 < exprs.len() {
        let node = exprs[expr.0 as int];
        if node.head is AliasName && node.children.len() == 1 && node.children[0].0 < expr.0 {
            lemma_bare_bounded(exprs, node.children[0]);
        }
        if node.head is AliasExpr && node.children.len() == 2 && node.children[1].0 < expr.0 {
            lemma_bare_bounded(exprs, node.children[1]);
        }
    }
}

impl ScalarExpression {
    /// Whether two nodes are the same apart from their operands and from the position of a column.
    pub fn same_head(&self, other: &ScalarExpression, arena: &PlanArena) -> (same: bool)
        requires
            self@.head matches ExprHead::ColumnRef { column, .. } ==> arena@.has_column(column),
            other@.head matches ExprHead::ColumnRef { column, .. } ==> arena@.has_column(column),
        ensures
            same == same_head(arena@, self@.head, other@.head),
    {
        match (self, other) {
            (ScalarExpression::Constant(l), ScalarExpression::Constant(r)) => l.same(r),
            (
                ScalarExpression::ColumnRef { column: l, .. },
                ScalarExpression::ColumnRef { column: r, .. },
            ) => arena.same_column(*l, *r),
            (
                ScalarExpression::Alias { alias: l, .. },
                ScalarExpression::Alias { alias: r, .. },
            ) => match (l, r) {
                (AliasType::Name(l), AliasType::Name(r)) => *l == *r,
                (AliasType::Expr(_), AliasType::Expr(_)) => true,
                _ => false,
            },
            (
                ScalarExpression::TypeCast { ty: l, .. },
                ScalarExpression::TypeCast { ty: r, .. },
            ) => l.same(r),
            (
                ScalarExpression::IsNull { negated: l, .. },
                ScalarExpression::IsNull { negated: r, .. },
            ) => *l == *r,
            (
                ScalarExpression::Unary { op: l, evaluator: e, ty: t, .. },
                ScalarExpression::Unary { op: r, evaluator: f, ty: u, .. },
            ) => *l == *r && same_evaluator(e, f) && t.same(u),
            (
                ScalarExpression::Binary { op: l, evaluator: e, ty: t, .. },
                ScalarExpression::Binary { op: r, evaluator: f, ty: u, .. },
            ) => *l == *r && same_evaluator(e, f) && t.same(u),
            (
                ScalarExpression::AggCall { distinct: l, kind: j, ty: t, .. },
                ScalarExpression::AggCall { distinct: r, kind: k, ty: u, .. },
            ) => *l == *r && *j == *k && t.same(u),
            (
                ScalarExpression::WindowCall { kind: j, args: a, partition_by: p, order_by: o,
                    ty: t },
                ScalarExpression::WindowCall { kind: k, args: b, partition_by: q, order_by: n,
                    ty: u },
            ) => *j == *k && a.len() == b.len() && p.len() == q.len() && same_directions(o, n)
                && t.same(u),
            (
                ScalarExpression::In { negated: l, .. },
                ScalarExpression::In { negated: r, .. },
            ) => *l == *r,
            (
                ScalarExpression::Between { negated: l, .. },
                ScalarExpression::Between { negated: r, .. },
            ) => *l == *r,
            (ScalarExpression::Empty, ScalarExpression::Empty) => true,
            (ScalarExpression::Tuple(_), ScalarExpression::Tuple(_)) => true,
            (
                ScalarExpression::ScalaFunction { name: l, ty: t, .. },
                ScalarExpression::ScalaFunction { name: r, ty: u, .. },
            ) => *l == *r && t.same(u),
            (
                ScalarExpression::CaseWhen { operand_expr: l, expr_pairs: p, else_expr: m, ty: t },
                ScalarExpression::CaseWhen { operand_expr: r, expr_pairs: q, else_expr: n, ty: u },
            ) => l.is_some() == r.is_some() && p.len() == q.len() && m.is_some() == n.is_some()
                && t.same(u),
            _ => false,
        }
    }
}

fn same_directions(left: &Vec<SortField>, right: &Vec<SortField>) -> (same: bool)
    ensures
        same == (sort_directions(left@) == sort_directions(right@)),
{
    if left.len() != right.len() {
        assert(sort_directions(left@).len() != sort_directions(right@).len());
        return false;
    }
    let mut i: usize = 0;
    while i < left.len()
        invariant
            i <= left.len(),
            left.len() == right.len(),
            forall|j: int|
                0 <= j < i ==> sort_directions(left@)[j] == sort_directions(right@)[j],
        decreases left.len() - i,
    {
        if left[i].asc != right[i].asc || left[i].nulls_first != right[i].nulls_first {
            assert(sort_directions(left@)[i as int] != sort_directions(right@)[i as int]);
            return false;
        }
        i += 1;
    }
    assert(sort_directions(left@) =~= sort_directions(right@));
    true
}

fn same_evaluator(
    left: &Option<EvaluatorRef>,
    right: &Option<EvaluatorRef>,
) -> (same: bool)
    ensures
        same == (*left == *right),
{
    match (left, right) {
        (Some(l), Some(r)) => *l == *r,
        (None, None) => true,
        _ => false,
    }
}

impl ExprRef {
    /// The expression behind all aliases.
    pub fn unpack_alias(self, arena: &PlanArena) -> (res: ExprRef)
        requires
            arena@.wf(),
            arena@.has_expr(self),
        ensures
            res == bare(arena@.exprs, self),
            arena@.has_expr(res),
        decreases self.0,
    {
        proof {
            lemma_bare_bounded(arena@.exprs, self);
        }
        match arena.expression(self) {
            ScalarExpression::Alias { expr, alias } => match alias {
                AliasType::Name(_) => {
                    assert(arena@.exprs[self.0 as int].children[0] == *expr);
                    expr.unpack_alias(arena)
                },
                AliasType::Expr(other) => {
                    assert(arena@.exprs[self.0 as int].children[1] == *other);
                    other.unpack_alias(arena)
                },
            },
            _ => self,
        }
    }

    fn collect_columns(self, arena: &PlanArena, out: &mut Vec<ColumnRef>)
        requires
            arena@.wf(),
            arena@.has_expr(self),
        ensures
            final(out)@ == old(out)@ + columns_of(arena@.exprs, self),
        decreases self.0,
    {
        let node = arena.expression(self);
        if let ScalarExpression::ColumnRef { column, .. } = node {
            out.push(*column);
            assert(out@ =~= old(out)@ + columns_of(arena@.exprs, self));
            return;
        }
        let children = node.children();
        let ghost start = out@;
        let mut i: usize = 0;
        assert(children@.take(0) =~= Seq::empty());
        while i < children.len()
            invariant
                i <= children.len(),
                arena@.wf(),
                arena@.has_expr(self),
                children@ == arena@.exprs[self.0 as int].children,
                out@ == start + columns_of_all(
                    arena@.exprs,
                    children@.take(i as int),
                    self.0 as nat,
                ),
            decreases children.len() - i,
        {
            assert(arena@.exprs[self.0 as int].children[i as int].0 < self.0);
            children[i].collect_columns(arena, out);
            proof {
                lemma_columns_of_all_take(arena@.exprs, children@, self.0 as nat, i as int);
            }
            i += 1;
            assert(out@ =~= start + columns_of_all(
                arena@.exprs,
                children@.take(i as int),
                self.0 as nat,
            ));
        }
        assert(children@.take(i as int) =~= children@);
    }

    /// The columns that the expression refers to, in order of appearance.
    pub fn referenced_columns(self, arena: &PlanArena) -> (res: Vec<ColumnRef>)
        requires
            arena@.wf(),
            arena@.has_expr(self),
        ensures
            res@ == columns_of(arena@.exprs, self),
            arena@.has_columns(res@),
    {
        let mut out: Vec<ColumnRef> = Vec::new();
        self.collect_columns(arena, &mut out);
        proof {
            lemma_columns_valid(arena@, self);
        }
        assert(out@ =~= columns_of(arena@.exprs, self));
        out
    }

    /// Whether two expressions are the same, up to the positions of their columns.
    pub fn eq_ignore_colref_pos(self, other: ExprRef, arena: &PlanArena) -> (same: bool)
        requires
            arena@.wf(),
            arena@.has_expr(self),
            arena@.has_expr(other),
        ensures
            same == eq_ignoring_positions(arena@, self, other),
        decreases self.0,
    {
        let left = arena.expression(self);
        let right = arena.expression(other);
        assert(arena@.exprs[self.0 as int].head matches ExprHead::ColumnRef { column, .. }
            ==> arena@.has_column(column));
        assert(arena@.exprs[other.0 as int].head matches ExprHead::ColumnRef { column, .. }
            ==> arena@.has_column(column));
        if !left.same_head(right, arena) {
            return false;
        }
        let l = left.children();
        let r = right.children();
        if l.len() != r.len() {
            return false;
        }
        let mut i: usize = 0;
        while i < l.len()
            invariant
                i <= l.len(),
                l.len() == r.len(),
                arena@.wf(),
                arena@.has_expr(self),
                arena@.has_expr(other),
                l@ == arena@.exprs[self.0 as int].children,
                r@ == arena@.exprs[other.0 as int].children,
                forall|j: int|
                    #![trigger l@[j]]
                    0 <= j < i ==> eq_ignoring_positions(arena@, l@[j], r@[j]),
            decreases l.len() - i,
        {
            assert(arena@.exprs[self.0 as int].children[i as int].0 < self.0);
            assert(arena@.exprs[other.0 as int].children[i as int].0 < other.0);
            if !l[i].eq_ignore_colref_pos(r[i], arena) {
                proof {
                    let a = arena@.exprs[self.0 as int];
                    assert(a.children[i as int] == l@[i as int]);
                }
                return false;
            }
            i += 1;
        }
        proof {
            let a = arena@.exprs[self.0 as int];
            assert forall|j: int|
                #![trigger a.children[j]]
                0 <= j < a.children.len() implies a.children[j].0 < self.0
                && eq_ignoring_positions(
                arena@,
                a.children[j],
                arena@.exprs[other.0 as int].children[j],
            ) by {
                assert(l@[j] == a.children[j]);
                assert(arena@.exprs[self.0 as int].children[j].0 < self.0);
            }
        }
        true
    }

    /// The type of the values of the expression.
    pub fn return_type(self, arena: &PlanArena) -> (ty: LogicalType)
        requires
            arena@.wf(),
            arena@.has_expr(self),
        ensures
            ty@ == type_of(arena@, self),
        decreases self.0,
    {
        assert(arena@.exprs[self.0 as int].head matches ExprHead::ColumnRef { column, .. }
            ==> arena@.has_column(column));
        match arena.expression(self) {
            ScalarExpression::Constant(value) => value.logical_type(),
            ScalarExpression::ColumnRef { column, .. } => arena.column(*column).datatype().clone(),
            ScalarExpression::Alias { expr, .. } => {
                assert(arena@.exprs[self.0 as int].children[0] == *expr);
                expr.return_type(arena)
            },
            ScalarExpression::TypeCast { ty, .. } => ty.clone(),
            ScalarExpression::IsNull { .. } | ScalarExpression::In { .. }
            | ScalarExpression::Between { .. } => LogicalType::Boolean,
            ScalarExpression::Unary { ty, .. } => ty.clone(),
            ScalarExpression::Binary { ty, .. } => ty.clone(),
            ScalarExpression::AggCall { ty, .. } => ty.clone(),
            ScalarExpression::WindowCall { ty, .. } => ty.clone(),
            ScalarExpression::Empty => LogicalType::SqlNull,
            ScalarExpression::Tuple(args) => {
                let mut types: Vec<LogicalType> = Vec::new();
                let mut i: usize = 0;
                while i < args.len()
                    invariant
                        i <= args.len(),
                        types@.len() == i,
                        arena@.wf(),
                        arena@.has_expr(self),
                        args@ == arena@.exprs[self.0 as int].children,
                        forall|j: int| 0 <= j < i ==> types@[j]@ == type_of(arena@, args@[j]),
                    decreases args.len() - i,
                {
                    assert(arena@.exprs[self.0 as int].children[i as int].0 < self.0);
                    let ty = args[i].return_type(arena);
                    types.push(ty);
                    i += 1;
                }
                let ty = LogicalType::Tuple(types);
                proof {
                    let expected = type_of(arena@, self)->Tuple_0;
                    assert forall|j: int| 0 <= j < expected.len() implies ty@->Tuple_0[j]
                        == expected[j] by {
                        assert(arena@.exprs[self.0 as int].children[j].0 < self.0);
                    }
                    assert(ty@->Tuple_0 =~= expected);
                }
                ty
            },
            ScalarExpression::ScalaFunction { ty, .. } => ty.clone(),
            ScalarExpression::CaseWhen { ty, .. } => ty.clone(),
        }
    }
}

} // verus!
