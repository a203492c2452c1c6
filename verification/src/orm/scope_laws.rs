//! Expressions of a query and the values that they have on its rows.

use crate::expression::meaning::{
    lemma_value_extend, lemma_values_of, value_of, values_of, Meaning, Reader,
};
use crate::expression::{flat_pairs, optional, BinaryOperator, ExprHead, ExprView, UnaryOperator};
use crate::orm::scope::{
    all_fit, binary_bound, bind_pairs, bind_view, bind_views, case_bound, list_test, named,
    null_test, pairs_fit, range_test, unary_bound, CtxExpression, OrmView, ScopeView,
};
use crate::planner::arena::{ArenaView, ExprRef};
use crate::types::value::DataValueView;
use vstd::prelude::*;

verus! {

/// The value that a given expression has on a row.
pub open spec fn given_value(
    meaning: Meaning,
    arena: ArenaView,
    given: OrmView,
    row: Reader,
) -> DataValueView {
    match given {
        OrmView::Bound(expr) => value_of(meaning, arena.exprs, expr, row),
        OrmView::Unbound(node) => value_of(
            meaning,
            arena.exprs.push(node),
            ExprRef(arena.exprs.len() as usize),
            row,
        ),
    }
}

/// The values that given expressions have on a row.
pub open spec fn given_values(
    meaning: Meaning,
    arena: ArenaView,
    given: Seq<OrmView>,
    row: Reader,
) -> Seq<DataValueView> {
    given.map_values(|one: OrmView| given_value(meaning, arena, one, row))
}

/// Whether the expression is computed by a node of the kind from the values.
pub open spec fn computes(
    meaning: Meaning,
    exprs: Seq<ExprView>,
    expr: ExprRef,
    head: ExprHead,
    values: Seq<DataValueView>,
    row: Reader,
) -> bool {
    &&& expr.0 < exprs.len()
    &&& exprs[expr.0 as int].head == head
    &&& value_of(meaning, exprs, expr, row) == meaning(head, values)
}

/// A node has the same value wherever it stands behind its operands.
proof fn lemma_node_value(
    meaning: Meaning,
    before: Seq<ExprView>,
    after: Seq<ExprView>,
    node: ExprView,
    at: ExprRef,
    row: Reader,
)
    requires
        before.is_prefix_of(after),
        before.len() <= at.0 < after.len(),
        before.len() <= usize::MAX,
        after[at.0 as int] == node,
        forall|i: int|
            0 <= i < node.children.len() ==> (#[trigger] node.children[i]).0 < before.len(),
    ensures
        value_of(meaning, after, at, row) == value_of(
            meaning,
            before.push(node),
            ExprRef(before.len() as usize),
            row,
        ),
{
    let own = ExprRef(before.len() as usize);
    let single = before.push(node);
    lemma_values_of(meaning, after, node.children, at.0 as nat, row);
    lemma_values_of(meaning, single, node.children, own.0 as nat, row);
    assert(before.is_prefix_of(single));
    assert forall|i: int| 0 <= i < node.children.len() implies value_of(
        meaning,
        after,
        #[trigger] node.children[i],
        row,
    ) == value_of(meaning, single, node.children[i], row) by {
        lemma_value_extend(meaning, before, after, node.children[i], row);
        lemma_value_extend(meaning, before, single, node.children[i], row);
    }
    assert(values_of(meaning, after, node.children, at.0 as nat, row) =~= values_of(
        meaning,
        single,
        node.children,
        own.0 as nat,
        row,
    ));
    assert(single[own.0 as int] == node);
}

/// An expression that is bound has the value of what was given, in the arena that results and in
/// every later one.
pub proof fn bound_expression_has_the_given_value(
    meaning: Meaning,
    before: ArenaView,
    arena: ArenaView,
    given: OrmView,
    last: Seq<ExprView>,
    row: Reader,
)
    requires
        before.exprs.is_prefix_of(arena.exprs),
        given.fits(before),
        arena.exprs.len() < usize::MAX,
        bind_view(arena, given).1.exprs.is_prefix_of(last),
    ensures
        ({
            let (expr, after) = bind_view(arena, given);
            &&& value_of(meaning, last, expr, row) == given_value(meaning, before, given, row)
            &&& arena.exprs.is_prefix_of(after.exprs)
            &&& before.exprs.is_prefix_of(after.exprs)
            &&& arena.exprs.is_prefix_of(last)
            &&& after.exprs.len() <= arena.exprs.len() + 1
            &&& expr.0 < after.exprs.len()
        }),
{
    let (expr, after) = bind_view(arena, given);
    assert(arena.exprs.is_prefix_of(after.exprs));
    assert(before.exprs.is_prefix_of(after.exprs)) by {
        assert(before.exprs =~= after.exprs.take(before.exprs.len() as int)) by {
            assert(arena.exprs.take(before.exprs.len() as int) =~= before.exprs);
        }
    }
    lemma_prefix(arena.exprs, after.exprs, last);
    lemma_prefix(before.exprs, after.exprs, last);
    match given {
        OrmView::Bound(expr) => {
            lemma_value_extend(meaning, before.exprs, last, expr, row);
        },
        OrmView::Unbound(node) => {
            assert(last[arena.exprs.len() as int] == after.exprs[arena.exprs.len() as int]);
            lemma_node_value(meaning, before.exprs, last, node, expr, row);
        },
    }
}

proof fn lemma_prefix(first: Seq<ExprView>, second: Seq<ExprView>, third: Seq<ExprView>)
    requires
        first.is_prefix_of(second),
        second.is_prefix_of(third),
    ensures
        first.is_prefix_of(third),
{
    assert(first =~= third.take(first.len() as int)) by {
        assert(second.take(first.len() as int) =~= first);
        assert(third.take(second.len() as int) =~= second);
        assert forall|i: int| 0 <= i < first.len() implies first[i] == third[i] by {
            assert(second[i] == third.take(second.len() as int)[i]);
        }
    }
}

/// Bound expressions are as many as the given ones, and each has the value of the one at its place.
pub proof fn bound_expressions_have_the_given_values(
    meaning: Meaning,
    before: ArenaView,
    arena: ArenaView,
    given: Seq<OrmView>,
    last: Seq<ExprView>,
    row: Reader,
)
    requires
        before.exprs.is_prefix_of(arena.exprs),
        all_fit(given, before),
        arena.exprs.len() + given.len() < usize::MAX,
        bind_views(arena, given).1.exprs.is_prefix_of(last),
    ensures
        ({
            let (exprs, after) = bind_views(arena, given);
            &&& exprs.len() == given.len()
            &&& forall|i: int|
                0 <= i < given.len() ==> value_of(meaning, last, #[trigger] exprs[i], row)
                    == given_value(meaning, before, given[i], row) && exprs[i].0 < after.exprs.len()
            &&& arena.exprs.is_prefix_of(after.exprs)
            &&& before.exprs.is_prefix_of(after.exprs)
            &&& after.exprs.len() <= arena.exprs.len() + given.len()
        }),
    decreases given.len(),
{
    if given.len() > 0 {
        let front = given.drop_last();
        let (exprs, middle) = bind_views(arena, front);
        assert forall|i: int| 0 <= i < front.len() implies (#[trigger] front[i]).fits(before) by {
            assert(front[i] == given[i]);
        }
        bound_expressions_have_the_given_values(
            meaning,
            before,
            arena,
            front,
            middle.exprs,
            row,
        );
        assert(given[given.len() - 1].fits(before));
        bound_expression_has_the_given_value(meaning, before, middle, given.last(), last, row);
        let (expr, after) = bind_view(middle, given.last());
        lemma_prefix(arena.exprs, middle.exprs, after.exprs);
        let all = bind_views(arena, given).0;
        assert forall|i: int| 0 <= i < given.len() implies value_of(
            meaning,
            last,
            #[trigger] all[i],
            row,
        ) == given_value(meaning, before, given[i], row) && all[i].0 < after.exprs.len() by {
            if i < front.len() {
                assert(all[i] == exprs[i]);
                assert(front[i] == given[i]);
                lemma_value_extend(meaning, middle.exprs, last, exprs[i], row);
            }
        }
    } else {
        assert(bind_views(arena, given) == (Seq::<ExprRef>::empty(), arena));
    }
}

/// The node at the end of the arena computes its value from the values of its operands.
proof fn lemma_computes(
    meaning: Meaning,
    exprs: Seq<ExprView>,
    node: ExprView,
    values: Seq<DataValueView>,
    row: Reader,
)
    requires
        exprs.len() < usize::MAX,
        node.children.len() == values.len(),
        forall|i: int|
            0 <= i < values.len() ==> value_of(
                meaning,
                exprs.push(node),
                #[trigger] node.children[i],
                row,
            ) == values[i] && node.children[i].0 < exprs.len(),
        !(node.head is Constant),
        !(node.head is ColumnRef),
        !(node.head is AliasName),
        !(node.head is AliasExpr),
    ensures
        computes(
            meaning,
            exprs.push(node),
            ExprRef(exprs.len() as usize),
            node.head,
            values,
            row,
        ),
{
    let after = exprs.push(node);
    let own = ExprRef(exprs.len() as usize);
    lemma_values_of(meaning, after, node.children, own.0 as nat, row);
    let list = values_of(meaning, after, node.children, own.0 as nat, row);
    assert forall|i: int| 0 <= i < values.len() implies list[i] == values[i] by {
        assert(value_of(meaning, after, node.children[i], row) == values[i]);
    }
    assert(list =~= values);
    assert(after[own.0 as int] == node);
}

/// An operation on two operands has its left operand on the left and its right one on the right.
pub proof fn operation_is_on_both_operands(
    meaning: Meaning,
    before: ScopeView,
    left: OrmView,
    op: BinaryOperator,
    right: OrmView,
    after: ScopeView,
    expr: CtxExpression,
    row: Reader,
)
    requires
        binary_bound(before, left, op, right, after, Ok(expr)),
        left.fits(before.arena),
        right.fits(before.arena),
        before.arena.exprs.len() + 3 < usize::MAX,
    ensures
        after.arena.exprs[expr.expr.0 as int].head matches ExprHead::Binary { op: own, .. } && own
            == op,
        computes(
            meaning,
            after.arena.exprs,
            expr.expr,
            after.arena.exprs[expr.expr.0 as int].head,
            seq![
                given_value(meaning, before.arena, left, row),
                given_value(meaning, before.arena, right, row),
            ],
            row,
        ),
        after.binder == before.binder,
{
    let (l, middle) = bind_view(before.arena, left);
    let (r, arena) = bind_view(middle, right);
    let last = after.arena.exprs;
    assert(arena.exprs.is_prefix_of(last));
    bound_expression_has_the_given_value(meaning, before.arena, before.arena, left, middle.exprs, row);
    bound_expression_has_the_given_value(meaning, before.arena, middle, right, last, row);
    bound_expression_has_the_given_value(meaning, before.arena, before.arena, left, last, row);
    lemma_computes(
        meaning,
        arena.exprs,
        last[arena.exprs.len() as int],
        seq![
            given_value(meaning, before.arena, left, row),
            given_value(meaning, before.arena, right, row),
        ],
        row,
    );
}

/// An operation on one operand is computed from it.
pub proof fn operation_is_on_its_operand(
    meaning: Meaning,
    before: ScopeView,
    op: UnaryOperator,
    operand: OrmView,
    row: Reader,
)
    requires
        operand.fits(before.arena),
        before.arena.exprs.len() + 2 < usize::MAX,
    ensures
        ({
            let (expr, after) = unary_bound(before, op, operand);
            let head = after.arena.exprs[expr.expr.0 as int].head;
            &&& head matches ExprHead::Unary { op: own, .. } && own == op
            &&& computes(
                meaning,
                after.arena.exprs,
                expr.expr,
                head,
                seq![given_value(meaning, before.arena, operand, row)],
                row,
            )
            &&& after.binder == before.binder
        }),
{
    let (expr, arena) = bind_view(before.arena, operand);
    let (ctx, after) = unary_bound(before, op, operand);
    let last = after.arena.exprs;
    bound_expression_has_the_given_value(meaning, before.arena, before.arena, operand, last, row);
    lemma_computes(
        meaning,
        arena.exprs,
        last[arena.exprs.len() as int],
        seq![given_value(meaning, before.arena, operand, row)],
        row,
    );
}

/// A test for null is on its operand, and negated only where that was asked for.
pub proof fn null_test_is_on_its_operand(
    meaning: Meaning,
    before: ScopeView,
    operand: OrmView,
    negated: bool,
    row: Reader,
)
    requires
        operand.fits(before.arena),
        before.arena.exprs.len() + 2 < usize::MAX,
    ensures
        ({
            let (expr, after) = null_test(before, operand, negated);
            &&& computes(
                meaning,
                after.arena.exprs,
                expr.expr,
                ExprHead::IsNull { negated },
                seq![given_value(meaning, before.arena, operand, row)],
                row,
            )
            &&& after.binder == before.binder
        }),
{
    let (expr, arena) = bind_view(before.arena, operand);
    let (ctx, after) = null_test(before, operand, negated);
    let last = after.arena.exprs;
    bound_expression_has_the_given_value(meaning, before.arena, before.arena, operand, last, row);
    lemma_computes(
        meaning,
        arena.exprs,
        last[arena.exprs.len() as int],
        seq![given_value(meaning, before.arena, operand, row)],
        row,
    );
}

/// A test for a list looks for its operand among the values, in their order.
pub proof fn list_test_looks_among_the_values(
    meaning: Meaning,
    before: ScopeView,
    operand: OrmView,
    values: Seq<OrmView>,
    negated: bool,
    row: Reader,
)
    requires
        operand.fits(before.arena),
        all_fit(values, before.arena),
        before.arena.exprs.len() + values.len() + 2 < usize::MAX,
    ensures
        ({
            let (expr, after) = list_test(before, operand, values, negated);
            &&& computes(
                meaning,
                after.arena.exprs,
                expr.expr,
                ExprHead::In { negated },
                seq![given_value(meaning, before.arena, operand, row)] + given_values(
                    meaning,
                    before.arena,
                    values,
                    row,
                ),
                row,
            )
            &&& after.binder == before.binder
        }),
{
    let (expr, middle) = bind_view(before.arena, operand);
    let (args, arena) = bind_views(middle, values);
    let (ctx, after) = list_test(before, operand, values, negated);
    let last = after.arena.exprs;
    bound_expression_has_the_given_value(
        meaning,
        before.arena,
        before.arena,
        operand,
        middle.exprs,
        row,
    );
    assert(arena.exprs.is_prefix_of(last));
    bound_expressions_have_the_given_values(meaning, before.arena, middle, values, last, row);
    lemma_prefix(middle.exprs, arena.exprs, last);
    bound_expression_has_the_given_value(meaning, before.arena, before.arena, operand, last, row);
    let all = seq![given_value(meaning, before.arena, operand, row)] + given_values(
        meaning,
        before.arena,
        values,
        row,
    );
    let node = last[arena.exprs.len() as int];
    assert forall|i: int| 0 <= i < all.len() implies value_of(
        meaning,
        last,
        #[trigger] node.children[i],
        row,
    ) == all[i] && node.children[i].0 < arena.exprs.len() by {
        if i > 0 {
            assert(node.children[i] == args[i - 1]);
            assert(all[i] == given_value(meaning, before.arena, values[i - 1], row));
        }
    }
    lemma_computes(meaning, arena.exprs, node, all, row);
}

/// A test for a range compares its operand with the lower end, then with the upper one.
pub proof fn range_test_has_its_ends_in_order(
    meaning: Meaning,
    before: ScopeView,
    operand: OrmView,
    low: OrmView,
    high: OrmView,
    negated: bool,
    row: Reader,
)
    requires
        operand.fits(before.arena),
        low.fits(before.arena),
        high.fits(before.arena),
        before.arena.exprs.len() + 4 < usize::MAX,
    ensures
        ({
            let (expr, after) = range_test(before, operand, low, high, negated);
            &&& computes(
                meaning,
                after.arena.exprs,
                expr.expr,
                ExprHead::Between { negated },
                seq![
                    given_value(meaning, before.arena, operand, row),
                    given_value(meaning, before.arena, low, row),
                    given_value(meaning, before.arena, high, row),
                ],
                row,
            )
            &&& after.binder == before.binder
        }),
{
    let start = before.arena;
    let (expr, first) = bind_view(start, operand);
    let (left, second) = bind_view(first, low);
    let (right, arena) = bind_view(second, high);
    let (ctx, after) = range_test(before, operand, low, high, negated);
    let last = after.arena.exprs;
    assert(arena.exprs.is_prefix_of(last));
    bound_expression_has_the_given_value(meaning, start, start, operand, first.exprs, row);
    bound_expression_has_the_given_value(meaning, start, first, low, second.exprs, row);
    bound_expression_has_the_given_value(meaning, start, second, high, last, row);
    bound_expression_has_the_given_value(meaning, start, first, low, last, row);
    bound_expression_has_the_given_value(meaning, start, start, operand, last, row);
    lemma_computes(
        meaning,
        arena.exprs,
        last[arena.exprs.len() as int],
        seq![
            given_value(meaning, start, operand, row),
            given_value(meaning, start, low, row),
            given_value(meaning, start, high, row),
        ],
        row,
    );
}

/// A name does not change the value of an expression, and the query then knows the name.
pub proof fn named_expression_keeps_its_value(
    meaning: Meaning,
    before: ScopeView,
    operand: OrmView,
    alias: Seq<char>,
    row: Reader,
)
    requires
        operand.fits(before.arena),
        before.arena.exprs.len() + 2 < usize::MAX,
    ensures
        ({
            let (expr, after) = named(before, operand, alias);
            let known = after.binder.aliases;
            &&& after.arena.exprs[expr.expr.0 as int].head == ExprHead::AliasName(alias)
            &&& value_of(meaning, after.arena.exprs, expr.expr, row) == given_value(
                meaning,
                before.arena,
                operand,
                row,
            )
            &&& known.len() == before.binder.aliases.len() + 1
            &&& before.binder.aliases.is_prefix_of(known)
            &&& known.last().0 == alias
            &&& value_of(meaning, after.arena.exprs, known.last().1, row) == given_value(
                meaning,
                before.arena,
                operand,
                row,
            )
        }),
{
    let (expr, arena) = bind_view(before.arena, operand);
    let (ctx, after) = named(before, operand, alias);
    let last = after.arena.exprs;
    bound_expression_has_the_given_value(meaning, before.arena, before.arena, operand, last, row);
    assert(last[ctx.expr.0 as int].children[0] == expr);
}

/// Bound pairs are as many as the given ones, and each part has the value of the one at its place.
pub proof fn bound_pairs_have_the_given_values(
    meaning: Meaning,
    before: ArenaView,
    arena: ArenaView,
    given: Seq<(OrmView, OrmView)>,
    last: Seq<ExprView>,
    row: Reader,
)
    requires
        before.exprs.is_prefix_of(arena.exprs),
        pairs_fit(given, before),
        arena.exprs.len() + 2 * given.len() < usize::MAX,
        bind_pairs(arena, given).1.exprs.is_prefix_of(last),
    ensures
        ({
            let (pairs, after) = bind_pairs(arena, given);
            &&& pairs.len() == given.len()
            &&& forall|i: int|
                0 <= i < given.len() ==> value_of(meaning, last, (#[trigger] pairs[i]).0, row)
                    == given_value(meaning, before, given[i].0, row) && value_of(
                    meaning,
                    last,
                    pairs[i].1,
                    row,
                ) == given_value(meaning, before, given[i].1, row) && pairs[i].0.0
                    < after.exprs.len() && pairs[i].1.0 < after.exprs.len()
            &&& arena.exprs.is_prefix_of(after.exprs)
            &&& before.exprs.is_prefix_of(after.exprs)
            &&& after.exprs.len() <= arena.exprs.len() + 2 * given.len()
        }),
    decreases given.len(),
{
    if given.len() > 0 {
        let front = given.drop_last();
        let (pairs, middle) = bind_pairs(arena, front);
        assert forall|i: int| 0 <= i < front.len() implies (#[trigger] front[i]).0.fits(before)
            && front[i].1.fits(before) by {
            assert(front[i] == given[i]);
        }
        bound_pairs_have_the_given_values(meaning, before, arena, front, middle.exprs, row);
        let one = given[given.len() - 1];
        assert(one.0.fits(before) && one.1.fits(before));
        let (first, next) = bind_view(middle, one.0);
        let (second, after) = bind_view(next, one.1);
        bound_expression_has_the_given_value(meaning, before, middle, one.0, next.exprs, row);
        bound_expression_has_the_given_value(meaning, before, next, one.1, last, row);
        bound_expression_has_the_given_value(meaning, before, middle, one.0, last, row);
        lemma_prefix(arena.exprs, middle.exprs, next.exprs);
        lemma_prefix(arena.exprs, next.exprs, after.exprs);
        lemma_prefix(middle.exprs, next.exprs, last);
        let all = bind_pairs(arena, given).0;
        assert forall|i: int| 0 <= i < given.len() implies value_of(
            meaning,
            last,
            (#[trigger] all[i]).0,
            row,
        ) == given_value(meaning, before, given[i].0, row) && value_of(
            meaning,
            last,
            all[i].1,
            row,
        ) == given_value(meaning, before, given[i].1, row) && all[i].0.0 < after.exprs.len()
            && all[i].1.0 < after.exprs.len() by {
            if i < front.len() {
                assert(all[i] == pairs[i]);
                assert(front[i] == given[i]);
                lemma_value_extend(meaning, middle.exprs, last, pairs[i].0, row);
                lemma_value_extend(meaning, middle.exprs, last, pairs[i].1, row);
            }
        }
    } else {
        assert(bind_pairs(arena, given) == (Seq::<(ExprRef, ExprRef)>::empty(), arena));
    }
}

/// Zero or one value as a sequence.
pub open spec fn optional_value(
    meaning: Meaning,
    arena: ArenaView,
    given: Option<OrmView>,
    row: Reader,
) -> Seq<DataValueView> {
    match given {
        Some(given) => seq![given_value(meaning, arena, given, row)],
        None => Seq::empty(),
    }
}

/// The values of the pairs, each condition before its result.
pub open spec fn pair_values(
    meaning: Meaning,
    arena: ArenaView,
    given: Seq<(OrmView, OrmView)>,
    row: Reader,
) -> Seq<DataValueView>
    decreases given.len(),
{
    if given.len() == 0 {
        Seq::empty()
    } else {
        pair_values(meaning, arena, given.drop_last(), row) + seq![
            given_value(meaning, arena, given.last().0, row),
            given_value(meaning, arena, given.last().1, row),
        ]
    }
}

proof fn lemma_pair_values(
    meaning: Meaning,
    arena: ArenaView,
    given: Seq<(OrmView, OrmView)>,
    row: Reader,
)
    ensures
        pair_values(meaning, arena, given, row).len() == 2 * given.len(),
        forall|i: int|
            #![trigger given[i]]
            0 <= i < given.len() ==> pair_values(meaning, arena, given, row)[2 * i] == given_value(
                meaning,
                arena,
                given[i].0,
                row,
            ) && pair_values(meaning, arena, given, row)[2 * i + 1] == given_value(
                meaning,
                arena,
                given[i].1,
                row,
            ),
    decreases given.len(),
{
    if given.len() > 0 {
        let front = given.drop_last();
        lemma_pair_values(meaning, arena, front, row);
        let all = pair_values(meaning, arena, given, row);
        let before = pair_values(meaning, arena, front, row);
        assert forall|i: int|
            #![trigger given[i]]
            0 <= i < given.len() implies all[2 * i] == given_value(
            meaning,
            arena,
            given[i].0,
            row,
        ) && all[2 * i + 1] == given_value(meaning, arena, given[i].1, row) by {
            if i < front.len() {
                assert(front[i] == given[i]);
                assert(all[2 * i] == before[2 * i]);
                assert(all[2 * i + 1] == before[2 * i + 1]);
            }
        }
    }
}

/// A case compares its operand, if it has one, with the conditions in their order, gives the result
/// that stands with a condition, and what stands at the end otherwise.
pub proof fn case_has_its_branches_in_order(
    meaning: Meaning,
    before: ScopeView,
    operand: Option<OrmView>,
    pairs: Seq<(OrmView, OrmView)>,
    otherwise: Option<OrmView>,
    row: Reader,
)
    requires
        operand matches Some(operand) ==> operand.fits(before.arena),
        pairs_fit(pairs, before.arena),
        otherwise matches Some(otherwise) ==> otherwise.fits(before.arena),
        before.arena.exprs.len() + 2 * pairs.len() + 3 < usize::MAX,
    ensures
        ({
            let (expr, after) = case_bound(before, operand, pairs, otherwise);
            let head = after.arena.exprs[expr.expr.0 as int].head;
            &&& head matches ExprHead::CaseWhen {
                operand: first,
                pairs: count,
                otherwise: last,
                ..
            } && first == (operand is Some) && count == pairs.len() && last == (otherwise is Some)
            &&& computes(
                meaning,
                after.arena.exprs,
                expr.expr,
                head,
                optional_value(meaning, before.arena, operand, row) + pair_values(
                    meaning,
                    before.arena,
                    pairs,
                    row,
                ) + optional_value(meaning, before.arena, otherwise, row),
                row,
            )
            &&& after.binder == before.binder
        }),
{
    let start = before.arena;
    let (first, one) = match operand {
        Some(operand) => (Some(bind_view(start, operand).0), bind_view(start, operand).1),
        None => (None, start),
    };
    let (bound, two) = bind_pairs(one, pairs);
    let (rest, three) = match otherwise {
        Some(otherwise) => (Some(bind_view(two, otherwise).0), bind_view(two, otherwise).1),
        None => (None, two),
    };
    let (expr, after) = case_bound(before, operand, pairs, otherwise);
    let last = after.arena.exprs;
    let node = last[three.exprs.len() as int];
    assert(three.exprs.is_prefix_of(last));
    if let Some(operand) = operand {
        bound_expression_has_the_given_value(meaning, start, start, operand, one.exprs, row);
    }
    bound_pairs_have_the_given_values(meaning, start, one, pairs, two.exprs, row);
    if let Some(otherwise) = otherwise {
        bound_expression_has_the_given_value(meaning, start, two, otherwise, last, row);
    }
    lemma_prefix(two.exprs, three.exprs, last);
    lemma_prefix(one.exprs, two.exprs, last);
    bound_pairs_have_the_given_values(meaning, start, one, pairs, last, row);
    if let Some(operand) = operand {
        bound_expression_has_the_given_value(meaning, start, start, operand, last, row);
    }
    lemma_pair_values(meaning, start, pairs, row);
    let head_values = optional_value(meaning, start, operand, row);
    let pair_list = pair_values(meaning, start, pairs, row);
    let values = head_values + pair_list + optional_value(meaning, start, otherwise, row);
    let flat = flat_pairs(bound);
    assert(node.children == optional(first) + flat + optional(rest));
    let lead = head_values.len() as int;
    assert forall|i: int| 0 <= i < values.len() implies value_of(
        meaning,
        last,
        #[trigger] node.children[i],
        row,
    ) == values[i] && node.children[i].0 < three.exprs.len() by {
        if i < lead {
            assert(node.children[i] == first->0);
        } else if i < lead + pair_list.len() {
            let k = i - lead;
            let j = k / 2;
            assert(node.children[i] == flat[k]);
            assert(values[i] == pair_list[k]);
            assert(0 <= j < pairs.len());
            let own = (bound[j], pairs[j]);
            if k % 2 == 0 {
                assert(k == 2 * j);
            } else {
                assert(k == 2 * j + 1);
            }
        } else {
            assert(node.children[i] == rest->0);
        }
    }
    lemma_computes(meaning, three.exprs, node, values, row);
}

} // verus!
