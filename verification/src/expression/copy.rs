//! Copies of expressions inside their arena.

use crate::expression::identity::alike;
use crate::expression::{
    flat_pairs, sort_directions, sort_exprs, AliasType, ExprHead, ExprView,
    ScalarExpression,
};
use crate::planner::arena::{ArenaView, ExprRef, PlanArena};
use crate::planner::operator::sort::SortField;
use vstd::prelude::*;

verus! {

/// A copy of an expression and of everything below it, and the arena with the copy. Operands are
/// copied before their user.
pub open spec fn copied(source: Seq<ExprView>, expr: ExprRef, arena: ArenaView) -> (
    ExprRef,
    ArenaView,
)
    decreases expr.0, 1nat, 0nat,
{
    if expr.0 < source.len() {
        let node = source[expr.0 as int];
        let (children, after) = copied_all(source, node.children, expr.0 as nat, arena);
        (
            ExprRef(after.exprs.len() as usize),
            after.push_expr(ExprView { head: node.head, children }),
        )
    } else {
        (expr, arena)
    }
}

/// Copies of the expressions that stand before the limit, from the first to the last.
pub open spec fn copied_all(
    source: Seq<ExprView>,
    list: Seq<ExprRef>,
    limit: nat,
    arena: ArenaView,
) -> (Seq<ExprRef>, ArenaView)
    decreases limit, 0nat, list.len(),
{
    if list.len() == 0 {
        (Seq::empty(), arena)
    } else {
        let (front, middle) = copied_all(source, list.drop_last(), limit, arena);
        if list.last().0 < limit {
            let (last, after) = copied(source, list.last(), middle);
            (front.push(last), after)
        } else {
            (front.push(list.last()), middle)
        }
    }
}

/// A copy is new and is written like the expression that it was made from; nothing else changes.
pub proof fn copy_is_alike(arena: ArenaView, expr: ExprRef)
    requires
        arena.wf(),
        arena.has_expr(expr),
        copied(arena.exprs, expr, arena).1.exprs.len() <= usize::MAX,
    ensures
        ({
            let (copy, after) = copied(arena.exprs, expr, arena);
            &&& arena.exprs.len() <= copy.0 < after.exprs.len()
            &&& arena.extended_by(after)
            &&& after.columns == arena.columns
            &&& alike(after.exprs, expr, copy)
        }),
{
    lemma_copy(arena.exprs, expr, arena);
}

proof fn lemma_copy(source: Seq<ExprView>, expr: ExprRef, arena: ArenaView)
    requires
        source.is_prefix_of(arena.exprs),
        expr.0 < source.len(),
        ordered(source),
        copied(source, expr, arena).1.exprs.len() <= usize::MAX,
    ensures
        ({
            let (copy, after) = copied(source, expr, arena);
            &&& arena.exprs.len() <= copy.0 < after.exprs.len()
            &&& arena.extended_by(after)
            &&& after.columns == arena.columns
            &&& alike(after.exprs, expr, copy)
        }),
    decreases expr.0, 1nat, 0nat,
{
    let node = source[expr.0 as int];
    let (children, middle) = copied_all(source, node.children, expr.0 as nat, arena);
    let (copy, after) = copied(source, expr, arena);
    assert(after.exprs.len() == middle.exprs.len() + 1);
    lemma_copies(source, node.children, expr.0 as nat, arena);
    assert(after.exprs[expr.0 as int] == node);
    assert forall|i: int|
        #![trigger node.children[i]]
        0 <= i < node.children.len() implies node.children[i].0 < expr.0 && alike(
        after.exprs,
        node.children[i],
        children[i],
    ) by {
        assert(source[expr.0 as int].children[i].0 < expr.0);
        assert(alike(middle.exprs, node.children[i], children[i]));
        lemma_alike_extended(middle.exprs, after.exprs, node.children[i], children[i]);
    }
}

proof fn lemma_copies(source: Seq<ExprView>, list: Seq<ExprRef>, limit: nat, arena: ArenaView)
    requires
        source.is_prefix_of(arena.exprs),
        limit <= source.len(),
        ordered(source),
        forall|i: int| 0 <= i < list.len() ==> (#[trigger] list[i]).0 < limit,
        copied_all(source, list, limit, arena).1.exprs.len() <= usize::MAX,
    ensures
        ({
            let (copies, after) = copied_all(source, list, limit, arena);
            &&& copies.len() == list.len()
            &&& arena.extended_by(after)
            &&& after.columns == arena.columns
            &&& forall|i: int|
                #![trigger copies[i]]
                0 <= i < list.len() ==> alike(after.exprs, list[i], copies[i])
        }),
    decreases limit, 0nat, list.len(),
{
    if list.len() > 0 {
        let (front, middle) = copied_all(source, list.drop_last(), limit, arena);
        let (last, after) = copied(source, list.last(), middle);
        lemma_grows(source, list.last(), middle);
        assert forall|i: int| 0 <= i < list.drop_last().len() implies (
        #[trigger] list.drop_last()[i]).0 < limit by {
            assert(list[i].0 < limit);
        }
        lemma_copies(source, list.drop_last(), limit, arena);
        assert(list[list.len() - 1].0 < limit);
        lemma_copy(source, list.last(), middle);
        let (copies, _) = copied_all(source, list, limit, arena);
        assert forall|i: int|
            #![trigger copies[i]]
            0 <= i < list.len() implies alike(after.exprs, list[i], copies[i]) by {
            if i < list.len() - 1 {
                assert(alike(middle.exprs, list.drop_last()[i], front[i]));
                lemma_alike_extended(middle.exprs, after.exprs, list[i], copies[i]);
            }
        }
    }
}

/// Copying adds to the arena.
proof fn lemma_grows(source: Seq<ExprView>, expr: ExprRef, arena: ArenaView)
    ensures
        arena.exprs.len() <= copied(source, expr, arena).1.exprs.len(),
    decreases expr.0, 1nat, 0nat,
{
    if expr.0 < source.len() {
        lemma_all_grow(source, source[expr.0 as int].children, expr.0 as nat, arena);
    }
}

proof fn lemma_all_grow(source: Seq<ExprView>, list: Seq<ExprRef>, limit: nat, arena: ArenaView)
    ensures
        arena.exprs.len() <= copied_all(source, list, limit, arena).1.exprs.len(),
    decreases limit, 0nat, list.len(),
{
    if list.len() > 0 {
        lemma_all_grow(source, list.drop_last(), limit, arena);
        if list.last().0 < limit {
            let middle = copied_all(source, list.drop_last(), limit, arena).1;
            lemma_grows(source, list.last(), middle);
        }
    }
}

/// Whether operands stand before their users.
spec fn ordered(exprs: Seq<ExprView>) -> bool {
    forall|i: int, j: int|
        #![trigger exprs[i].children[j]]
        0 <= i < exprs.len() && 0 <= j < exprs[i].children.len() ==> exprs[i].children[j].0 < i
}

proof fn lemma_alike_extended(
    before: Seq<ExprView>,
    after: Seq<ExprView>,
    left: ExprRef,
    right: ExprRef,
)
    requires
        before.is_prefix_of(after),
        alike(before, left, right),
    ensures
        alike(after, left, right),
    decreases left.0,
{
    let l = before[left.0 as int];
    let r = before[right.0 as int];
    assert(after[left.0 as int] == l);
    assert(after[right.0 as int] == r);
    assert forall|i: int|
        #![trigger l.children[i]]
        0 <= i < l.children.len() implies l.children[i].0 < left.0 && alike(
        after,
        l.children[i],
        r.children[i],
    ) by {
        lemma_alike_extended(before, after, l.children[i], r.children[i]);
    }
}

/// Some of the references.
pub fn part_of(refs: &Vec<ExprRef>, from: usize, to: usize) -> (res: Vec<ExprRef>)
    requires
        from <= to <= refs@.len(),
    ensures
        res@ == refs@.subrange(from as int, to as int),
{
    let mut out: Vec<ExprRef> = Vec::new();
    let mut i: usize = from;
    while i < to
        invariant
            from <= i <= to <= refs@.len(),
            out@ =~= refs@.subrange(from as int, i as int),
        decreases to - i,
    {
        out.push(refs[i]);
        i += 1;
    }
    out
}

/// The fields with other expressions.
pub fn resorted(fields: &Vec<SortField>, refs: &Vec<ExprRef>, from: usize) -> (res: Vec<SortField>)
    requires
        from + fields@.len() <= refs@.len(),
    ensures
        res@.len() == fields@.len(),
        forall|i: int|
            0 <= i < res@.len() ==> #[trigger] res@[i] == (SortField {
                expr: refs@[from + i],
                ..fields@[i]
            }),
        sort_directions(res@) == sort_directions(fields@),
        sort_exprs(res@) == refs@.subrange(from as int, from + fields@.len()),
{
    let total: usize = refs.len();
    let mut out: Vec<SortField> = Vec::new();
    let mut i: usize = 0;
    while i < fields.len()
        invariant
            i <= fields@.len(),
            total == refs@.len(),
            from + fields@.len() <= total,
            out@.len() == i,
            forall|j: int|
                0 <= j < i ==> #[trigger] out@[j] == (SortField {
                    expr: refs@[from + j],
                    ..fields@[j]
                }),
        decreases fields.len() - i,
    {
        out.push(
            SortField {
                expr: refs[from + i],
                asc: fields[i].asc,
                nulls_first: fields[i].nulls_first,
            },
        );
        i += 1;
    }
    assert(sort_directions(out@) =~= sort_directions(fields@));
    assert(sort_exprs(out@) =~= refs@.subrange(from as int, from + fields@.len()));
    out
}

/// The references as pairs.
pub fn paired(refs: &Vec<ExprRef>, from: usize, count: usize) -> (res: Vec<(ExprRef, ExprRef)>)
    requires
        from + 2 * count <= refs@.len(),
    ensures
        res@.len() == count,
        forall|i: int|
            0 <= i < count ==> #[trigger] res@[i] == (
                refs@[from + 2 * i],
                refs@[from + 2 * i + 1],
            ),
        flat_pairs(res@) == refs@.subrange(from as int, from + 2 * count),
{
    let total: usize = refs.len();
    let mut out: Vec<(ExprRef, ExprRef)> = Vec::new();
    let mut i: usize = 0;
    while i < count
        invariant
            i <= count,
            total == refs@.len(),
            from + 2 * count <= total,
            out@.len() == i,
            forall|j: int|
                0 <= j < i ==> #[trigger] out@[j] == (refs@[from + 2 * j], refs@[from + 2 * j + 1]),
        decreases count - i,
    {
        out.push((refs[from + 2 * i], refs[from + 2 * i + 1]));
        i += 1;
    }
    assert forall|k: int| 0 <= k < 2 * count implies #[trigger] flat_pairs(out@)[k] == refs@[from
        + k] by {
        assert(out@[k / 2] == (refs@[from + 2 * (k / 2)], refs@[from + 2 * (k / 2) + 1]));
    }
    assert(flat_pairs(out@) =~= refs@.subrange(from as int, from + 2 * count));
    out
}

impl ScalarExpression {
    /// The node with other operands.
    #[verifier::rlimit(40)]
    pub fn with_children(&self, children: &Vec<ExprRef>) -> (res: Self)
        requires
            children@.len() == self@.children.len(),
        ensures
            res@ == (ExprView { head: self@.head, children: children@ }),
    {
        let total: usize = children.len();
        let res = match self {
            ScalarExpression::Alias { alias, .. } => match alias {
                AliasType::Name(name) => ScalarExpression::Alias {
                    expr: children[0],
                    alias: AliasType::Name(name.clone()),
                },
                AliasType::Expr(_) => ScalarExpression::Alias {
                    expr: children[0],
                    alias: AliasType::Expr(children[1]),
                },
            },
            ScalarExpression::TypeCast { ty, .. } => ScalarExpression::TypeCast {
                expr: children[0],
                ty: ty.clone(),
            },
            ScalarExpression::IsNull { negated, .. } => ScalarExpression::IsNull {
                negated: *negated,
                expr: children[0],
            },
            ScalarExpression::Unary { op, evaluator, ty, .. } => ScalarExpression::Unary {
                op: *op,
                expr: children[0],
                evaluator: *evaluator,
                ty: ty.clone(),
            },
            ScalarExpression::Binary { op, evaluator, ty, .. } => ScalarExpression::Binary {
                op: *op,
                left_expr: children[0],
                right_expr: children[1],
                evaluator: *evaluator,
                ty: ty.clone(),
            },
            ScalarExpression::AggCall { distinct, kind, args, ty } => ScalarExpression::AggCall {
                distinct: *distinct,
                kind: *kind,
                args: part_of(children, 0, args.len()),
                ty: ty.clone(),
            },
            ScalarExpression::WindowCall { kind, args, partition_by, order_by, ty } => {
                let first: usize = args.len();
                let count: usize = partition_by.len();
                assert(first + count + order_by@.len() == total);
                let second: usize = first + count;
                ScalarExpression::WindowCall {
                    kind: *kind,
                    args: part_of(children, 0, first),
                    partition_by: part_of(children, first, second),
                    order_by: resorted(order_by, children, second),
                    ty: ty.clone(),
                }
            },
            ScalarExpression::In { negated, .. } => ScalarExpression::In {
                negated: *negated,
                expr: children[0],
                args: part_of(children, 1, total),
            },
            ScalarExpression::Between { negated, .. } => ScalarExpression::Between {
                negated: *negated,
                expr: children[0],
                left_expr: children[1],
                right_expr: children[2],
            },
            ScalarExpression::Tuple(args) => ScalarExpression::Tuple(
                part_of(children, 0, args.len()),
            ),
            ScalarExpression::ScalaFunction { name, args, ty } => ScalarExpression::ScalaFunction {
                name: name.clone(),
                args: part_of(children, 0, args.len()),
                ty: ty.clone(),
            },
            ScalarExpression::CaseWhen { operand_expr, expr_pairs, else_expr, ty } => {
                let first: usize = if operand_expr.is_some() {
                    1
                } else {
                    0
                };
                let count: usize = expr_pairs.len();
                assert(first + 2 * count <= total);
                let operand: Option<ExprRef> = if operand_expr.is_some() {
                    Some(children[0])
                } else {
                    None
                };
                let otherwise: Option<ExprRef> = if else_expr.is_some() {
                    Some(children[first + 2 * count])
                } else {
                    None
                };
                ScalarExpression::CaseWhen {
                    operand_expr: operand,
                    expr_pairs: paired(children, first, count),
                    else_expr: otherwise,
                    ty: ty.clone(),
                }
            },
            plain => plain.clone(),
        };
        assert(res@.head == self@.head);
        assert(res@.children =~= children@);
        res
    }
}

fn copy_below(expr: ExprRef, arena: &mut PlanArena, Ghost(source): Ghost<Seq<ExprView>>) -> (res:
    ExprRef)
    requires
        old(arena)@.wf(),
        source.is_prefix_of(old(arena)@.exprs),
        expr.0 < source.len(),
    ensures
        (res, final(arena)@) == copied(source, expr, old(arena)@),
        final(arena)@.wf(),
        old(arena)@.extended_by(final(arena)@),
        final(arena)@.has_expr(res),
    decreases expr.0,
{
    let ghost start = arena@;
    assert(start.exprs[expr.0 as int] == source[expr.0 as int]);
    let node = arena.expression(expr).clone();
    let children = node.children();
    let mut copies: Vec<ExprRef> = Vec::new();
    let mut i: usize = 0;
    assert(children@.take(0) =~= Seq::empty());
    while i < children.len()
        invariant
            i <= children@.len(),
            children@ == source[expr.0 as int].children,
            start.wf(),
            arena@.wf(),
            start.extended_by(arena@),
            source.is_prefix_of(start.exprs),
            source.is_prefix_of(arena@.exprs),
            expr.0 < source.len(),
            start.exprs[expr.0 as int] == source[expr.0 as int],
            copies@.len() == i,
            (copies@, arena@) == copied_all(
                source,
                children@.take(i as int),
                expr.0 as nat,
                start,
            ),
            arena@.has_exprs(copies@),
        decreases children.len() - i,
    {
        proof {
            let next = children@.take(i + 1);
            assert(next.drop_last() =~= children@.take(i as int));
            assert(next.last() == children@[i as int]);
            assert(start.exprs[expr.0 as int].children[i as int].0 < expr.0);
        }
        let ghost middle = arena@;
        let copy = copy_below(children[i], arena, Ghost(source));
        copies.push(copy);
        assert(arena@.has_exprs(copies@)) by {
            assert forall|j: int| 0 <= j < copies@.len() implies arena@.has_expr(
                #[trigger] copies@[j],
            ) by {
                if j < i {
                    assert(middle.has_expr(copies@[j]));
                }
            }
        }
        i += 1;
    }
    assert(children@.take(i as int) =~= children@);
    let ghost middle = arena@;
    let copy = node.with_children(&copies);
    proof {
        assert(node@ == source[expr.0 as int]);
        assert(start.exprs[expr.0 as int].head matches ExprHead::ColumnRef { column, .. }
            ==> start.has_column(column));
        assert(middle.fits(copy@));
    }
    arena.alloc_expression(copy)
}

/// Copies expressions, with everything below them.
pub fn copy_expressions(list: &Vec<ExprRef>, arena: &mut PlanArena) -> (res: Vec<ExprRef>)
    requires
        old(arena)@.wf(),
        old(arena)@.has_exprs(list@),
    ensures
        (res@, final(arena)@) == copied_all(
            old(arena)@.exprs,
            list@,
            old(arena)@.exprs.len(),
            old(arena)@,
        ),
        final(arena)@.wf(),
        old(arena)@.extended_by(final(arena)@),
        final(arena)@.has_exprs(res@),
        res@.len() == list@.len(),
{
    let ghost start = arena@;
    let mut copies: Vec<ExprRef> = Vec::new();
    let mut i: usize = 0;
    assert(list@.take(0) =~= Seq::empty());
    while i < list.len()
        invariant
            i <= list@.len(),
            start.has_exprs(list@),
            arena@.wf(),
            start.extended_by(arena@),
            copies@.len() == i,
            (copies@, arena@) == copied_all(
                start.exprs,
                list@.take(i as int),
                start.exprs.len(),
                start,
            ),
            arena@.has_exprs(copies@),
        decreases list.len() - i,
    {
        proof {
            let next = list@.take(i + 1);
            assert(next.drop_last() =~= list@.take(i as int));
            assert(next.last() == list@[i as int]);
            assert(start.has_expr(list@[i as int]));
        }
        let ghost middle = arena@;
        let copy = copy_below(list[i], arena, Ghost(start.exprs));
        copies.push(copy);
        assert(arena@.has_exprs(copies@)) by {
            assert forall|j: int| 0 <= j < copies@.len() implies arena@.has_expr(
                #[trigger] copies@[j],
            ) by {
                if j < i {
                    assert(middle.has_expr(copies@[j]));
                }
            }
        }
        i += 1;
    }
    assert(list@.take(i as int) =~= list@);
    copies
}

} // verus!
