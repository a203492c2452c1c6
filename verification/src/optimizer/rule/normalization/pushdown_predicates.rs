//! Predicates that move closer to the tables that they are about.

use crate::catalog::ColumnRef;
use crate::errors::DatabaseError;
use crate::expression::analysis::{columns_of, lemma_columns_extend};
use crate::expression::conjunction::{
    conjoin, conjoined, conjunction_of, conjuncts, is_and, lemma_conjunction_extend,
    lemma_conjuncts_atomic, lemma_conjuncts_bounded, lemma_conjuncts_extend, parts_of,
    parts_of_all, split_conjunctive_predicates,
};
use crate::expression::visitor_mut::{
    columns_are_leaves, lemma_shift_structure, lemma_structure_conjuncts, same_node,
    same_structure, shift_all, shift_expr, PositionShift,
};
use crate::expression::{and_view, optional, ExprView, ScalarExpression};
use crate::planner::arena::{ArenaView, ExprRef, PlanArena};
use crate::optimizer::plan_utils::{
    has_child, only_child_mut, replace_with_only_child, wrap_child, wrap_child_with,
};
use crate::planner::operator::filter::FilterOperator;
use crate::planner::operator::join::{JoinCondition, JoinConditionView, JoinType, JoinView};
use crate::planner::operator::{Operator, OperatorView};
use crate::planner::schema::{
    clone_schema, lemma_children_valid_within, lemma_plan_valid_within, output,
};
use crate::planner::{ChildrenView, Childrens, LogicalPlan, PlanView};
use crate::types::tuple::Schema;
use vstd::prelude::*;

verus! {

/// The inputs of a join that a predicate can be evaluated on.
pub enum Side {
    Left,
    Right,
    Both,
}

/// Columns of the inputs of a join, with inputs and arena after they were asked for.
pub struct InputSchemas {
    pub left: Seq<ColumnRef>,
    pub right: Seq<ColumnRef>,
    pub arena: ArenaView,
    pub children: ChildrenView,
}

/// The columns of the inputs of a join; a missing input has none.
pub open spec fn input_schemas(children: ChildrenView, arena: ArenaView) -> InputSchemas {
    match children {
        ChildrenView::Leaf => InputSchemas {
            left: Seq::empty(),
            right: Seq::empty(),
            arena,
            children,
        },
        ChildrenView::Only(left) => {
            let first = output(*left, arena);
            InputSchemas {
                left: first.schema,
                right: Seq::empty(),
                arena: first.arena,
                children: ChildrenView::Only(Box::new(first.plan)),
            }
        },
        ChildrenView::Twins { left, right } => {
            let first = output(*left, arena);
            let second = output(*right, first.arena);
            InputSchemas {
                left: first.schema,
                right: second.schema,
                arena: second.arena,
                children: ChildrenView::Twins {
                    left: Box::new(first.plan),
                    right: Box::new(second.plan),
                },
            }
        },
    }
}

/// Whether the columns of every input are known or can be computed.
pub open spec fn inputs_ready(children: ChildrenView) -> bool {
    match children {
        ChildrenView::Leaf => true,
        ChildrenView::Only(left) => left.ready(),
        ChildrenView::Twins { left, right } => left.ready() && right.ready(),
    }
}

/// Whether every column belongs to the schema.
pub open spec fn all_in(columns: Seq<ColumnRef>, schema: Seq<ColumnRef>) -> bool {
    forall|i: int| 0 <= i < columns.len() ==> schema.contains(#[trigger] columns[i])
}

/// The side of a join that a predicate can be evaluated on; the left one where both would do.
pub open spec fn side_of(
    exprs: Seq<ExprView>,
    expr: ExprRef,
    left: Seq<ColumnRef>,
    right: Seq<ColumnRef>,
) -> Side {
    if all_in(columns_of(exprs, expr), left) {
        Side::Left
    } else if all_in(columns_of(exprs, expr), right) {
        Side::Right
    } else {
        Side::Both
    }
}

/// The predicates of one side, in order.
pub open spec fn on_side(
    exprs: Seq<ExprView>,
    list: Seq<ExprRef>,
    left: Seq<ColumnRef>,
    right: Seq<ColumnRef>,
    side: Side,
) -> Seq<ExprRef>
    decreases list.len(),
{
    if list.len() == 0 {
        Seq::empty()
    } else {
        let front = on_side(exprs, list.drop_last(), left, right, side);
        if side_of(exprs, list.last(), left, right) == side {
            front.push(list.last())
        } else {
            front
        }
    }
}

/// A conjunction with one more predicate, and the arena with it. What was there so far stays on the
/// left.
pub open spec fn appended(arena: ArenaView, slot: Option<ExprRef>, expr: ExprRef) -> (
    Option<ExprRef>,
    ArenaView,
) {
    match slot {
        Some(current) => (
            Some(ExprRef(arena.exprs.len() as usize)),
            arena.push_expr(and_view(current, expr)),
        ),
        None => (Some(expr), arena),
    }
}

/// Adds one more predicate to a conjunction.
fn append_filter(slot: Option<ExprRef>, expr: ExprRef, arena: &mut PlanArena) -> (res: Option<
    ExprRef,
>)
    requires
        old(arena)@.wf(),
        old(arena)@.has_expr(expr),
        conjuncts(old(arena)@.exprs, expr) == seq![expr],
        slot matches Some(current) ==> old(arena)@.has_expr(current),
    ensures
        final(arena)@.wf(),
        old(arena)@.exprs.is_prefix_of(final(arena)@.exprs),
        final(arena)@.columns == old(arena)@.columns,
        final(arena)@.indexes == old(arena)@.indexes,
        (res, final(arena)@) == appended(old(arena)@, slot, expr),
        conjunction_of(
            final(arena)@.exprs,
            res,
            parts_of(old(arena)@.exprs, slot).push(expr),
        ),
{
    let ghost parts = parts_of(arena@.exprs, slot);
    match slot {
        Some(current) => {
            let ghost before = arena@.exprs;
            let node = ScalarExpression::and(current, expr);
            let res = arena.alloc_expression(node);
            proof {
                lemma_conjuncts_extend(before, arena@.exprs, current);
                lemma_conjuncts_extend(before, arena@.exprs, expr);
                assert(is_and(arena@.exprs[res.0 as int]));
                assert(conjuncts(arena@.exprs, res) =~= parts.push(expr));
            }
            Some(res)
        },
        None => {
            assert(parts.push(expr) =~= seq![expr]);
            Some(expr)
        },
    }
}

/// Whether every column belongs to the schema.
fn columns_all_in(columns: &Vec<ColumnRef>, schema: &Schema) -> (res: bool)
    ensures
        res == all_in(columns@, schema@),
{
    let mut i: usize = 0;
    while i < columns.len()
        invariant
            i <= columns.len(),
            forall|j: int| 0 <= j < i ==> schema@.contains(#[trigger] columns@[j]),
        decreases columns.len() - i,
    {
        let mut found = false;
        let mut j: usize = 0;
        while j < schema.len() && !found
            invariant
                i < columns.len(),
                j <= schema.len(),
                found ==> schema@.contains(columns@[i as int]),
                !found ==> forall|k: int| 0 <= k < j ==> schema@[k] != columns@[i as int],
            decreases
                schema.len() - j + if found {
                    0int
                } else {
                    1int
                },
        {
            if schema[j] == columns[i] {
                found = true;
                assert(schema@[j as int] == columns@[i as int]);
            } else {
                j += 1;
            }
        }
        if !found {
            assert(!schema@.contains(columns@[i as int]));
            return false;
        }
        i += 1;
    }
    true
}

/// Three optional predicates, one for each side, and the width of the left input.
pub type ClassifiedJoinFilters = (Option<ExprRef>, Option<ExprRef>, Option<ExprRef>, usize);

impl Childrens {
    /// The columns of both inputs.
    fn input_schemas(&mut self, arena: &mut PlanArena) -> (res: (Schema, Schema))
        requires
            old(arena)@.wf(),
            old(self)@.valid(old(arena)@),
            inputs_ready(old(self)@),
        ensures
            ({
                let inputs = input_schemas(old(self)@, old(arena)@);
                &&& res.0@ == inputs.left
                &&& res.1@ == inputs.right
                &&& final(arena)@ == inputs.arena
                &&& final(self)@ == inputs.children
            }),
            final(arena)@.wf(),
            old(arena)@.extended_by(final(arena)@),
            final(self)@.valid(final(arena)@),
    {
        let ghost before = arena@;
        match self {
            Childrens::Leaf => (Vec::new(), Vec::new()),
            Childrens::Only(left) => {
                let schema = clone_schema((&mut **left).output_schema(arena));
                (schema, Vec::new())
            },
            Childrens::Twins { left, right } => {
                let first = clone_schema((&mut **left).output_schema(arena));
                let ghost middle = arena@;
                proof {
                    lemma_plan_valid_within(right@, before, middle);
                }
                let second = clone_schema((&mut **right).output_schema(arena));
                proof {
                    lemma_plan_valid_within(left@, middle, arena@);
                }
                (first, second)
            },
        }
    }
}

/// The arena is larger, and nothing else changed, apart from the moved column references inside the
/// listed predicates.
pub open spec fn grown(
    before: ArenaView,
    after: ArenaView,
    moved: Seq<ExprRef>,
    delta: int,
) -> bool {
    &&& before.exprs.len() <= after.exprs.len()
    &&& after.exprs.take(before.exprs.len() as int) == shift_all(
        before.exprs,
        moved,
        before.exprs.len(),
        delta,
    )
    &&& after.columns == before.columns
    &&& after.indexes == before.indexes
}

/// The conjunctions of the predicates of each side, and the arena with them.
pub struct Classified {
    pub left: Option<ExprRef>,
    pub right: Option<ExprRef>,
    pub both: Option<ExprRef>,
    pub arena: ArenaView,
}

/// Predicates sorted by the side that they can be evaluated on, one after the other.
pub open spec fn classified(
    arena: ArenaView,
    list: Seq<ExprRef>,
    left: Seq<ColumnRef>,
    right: Seq<ColumnRef>,
) -> Classified
    decreases list.len(),
{
    if list.len() == 0 {
        Classified { left: None, right: None, both: None, arena }
    } else {
        let front = classified(arena, list.drop_last(), left, right);
        let last = list.last();
        match side_of(arena.exprs, last, left, right) {
            Side::Left => {
                let (filter, after) = appended(front.arena, front.left, last);
                Classified { left: filter, arena: after, ..front }
            },
            Side::Right => {
                let (filter, after) = appended(front.arena, front.right, last);
                Classified { right: filter, arena: after, ..front }
            },
            Side::Both => {
                let (filter, after) = appended(front.arena, front.both, last);
                Classified { both: filter, arena: after, ..front }
            },
        }
    }
}

/// Sorts the conjuncts of a predicate by the side that they can be evaluated on.
fn classify_join_filters(predicate: ExprRef, childrens: &mut Childrens,
    arena: &mut PlanArena) -> (res:
    ClassifiedJoinFilters)
    requires
        old(arena)@.wf(),
        old(arena)@.has_expr(predicate),
        old(childrens)@.valid(old(arena)@),
        inputs_ready(old(childrens)@),
    ensures
        ({
            let inputs = input_schemas(old(childrens)@, old(arena)@);
            let list = conjuncts(inputs.arena.exprs, predicate);
            let after = final(arena)@;
            let exprs = inputs.arena.exprs;
            &&& final(childrens)@ == inputs.children
            &&& inputs.arena.wf()
            &&& old(arena)@.extended_by(inputs.arena)
            &&& inputs.arena.extended_by(after)
            &&& after.columns == inputs.arena.columns
            &&& res.3 == inputs.left.len()
            &&& (Classified { left: res.0, right: res.1, both: res.2, arena: after })
                == classified(inputs.arena, list, inputs.left, inputs.right)
            &&& conjunction_of(
                after.exprs,
                res.0,
                on_side(exprs, list, inputs.left, inputs.right, Side::Left),
            )
            &&& conjunction_of(
                after.exprs,
                res.1,
                on_side(exprs, list, inputs.left, inputs.right, Side::Right),
            )
            &&& conjunction_of(
                after.exprs,
                res.2,
                on_side(exprs, list, inputs.left, inputs.right, Side::Both),
            )
        }),
        final(arena)@.wf(),
        final(childrens)@.valid(final(arena)@),
{
    let (left_columns, right_columns) = childrens.input_schemas(arena);
    let ghost base = arena@;
    let mut parts: Vec<ExprRef> = Vec::new();
    split_conjunctive_predicates(predicate, arena, &mut parts);
    let ghost list = conjuncts(base.exprs, predicate);
    assert(parts@ =~= list);
    let ghost l = left_columns@;
    let ghost r = right_columns@;
    let mut left_filter: Option<ExprRef> = None;
    let mut right_filter: Option<ExprRef> = None;
    let mut common_filter: Option<ExprRef> = None;
    let mut i: usize = 0;
    assert(list.take(0) =~= Seq::empty());
    while i < parts.len()
        invariant
            i <= parts.len(),
            parts@ == list,
            list == conjuncts(base.exprs, predicate),
            base.wf(),
            base.has_expr(predicate),
            arena@.wf(),
            base.exprs.is_prefix_of(arena@.exprs),
            arena@.columns == base.columns,
            arena@.indexes == base.indexes,
            l == left_columns@,
            r == right_columns@,
            (Classified {
                left: left_filter,
                right: right_filter,
                both: common_filter,
                arena: arena@,
            }) == classified(base, list.take(i as int), l, r),
            conjunction_of(
                arena@.exprs,
                left_filter,
                on_side(base.exprs, list.take(i as int), l, r, Side::Left),
            ),
            conjunction_of(
                arena@.exprs,
                right_filter,
                on_side(base.exprs, list.take(i as int), l, r, Side::Right),
            ),
            conjunction_of(
                arena@.exprs,
                common_filter,
                on_side(base.exprs, list.take(i as int), l, r, Side::Both),
            ),
        decreases parts.len() - i,
    {
        let expr: ExprRef = parts[i];
        let ghost before = arena@.exprs;
        let ghost lp = on_side(base.exprs, list.take(i as int), l, r, Side::Left);
        let ghost rp = on_side(base.exprs, list.take(i as int), l, r, Side::Right);
        let ghost cp = on_side(base.exprs, list.take(i as int), l, r, Side::Both);
        proof {
            lemma_conjuncts_bounded(base.exprs, predicate);
            lemma_conjuncts_atomic(base.exprs, predicate);
            assert(list[i as int] == expr);
            lemma_conjuncts_extend(base.exprs, arena@.exprs, expr);
            lemma_columns_extend(base.exprs, arena@.exprs, expr);
            let next = list.take(i + 1);
            assert(next.drop_last() =~= list.take(i as int));
            assert(next.last() == expr);
        }
        let columns = expr.referenced_columns(arena);
        if columns_all_in(&columns, &left_columns) {
            left_filter = append_filter(left_filter, expr, arena);
            proof {
                lemma_conjunction_extend(before, arena@.exprs, right_filter, rp);
                lemma_conjunction_extend(before, arena@.exprs, common_filter, cp);
            }
        } else if columns_all_in(&columns, &right_columns) {
            right_filter = append_filter(right_filter, expr, arena);
            proof {
                lemma_conjunction_extend(before, arena@.exprs, left_filter, lp);
                lemma_conjunction_extend(before, arena@.exprs, common_filter, cp);
            }
        } else {
            common_filter = append_filter(common_filter, expr, arena);
            proof {
                lemma_conjunction_extend(before, arena@.exprs, left_filter, lp);
                lemma_conjunction_extend(before, arena@.exprs, right_filter, rp);
            }
        }
        i += 1;
    }
    assert(list.take(i as int) =~= list);
    proof {
        lemma_children_valid_within(childrens@, base, arena@);
    }
    (left_filter, right_filter, common_filter, left_columns.len())
}

/// A new filter for an optional predicate.
pub open spec fn filter_of(predicate: Option<ExprRef>, having: bool) -> Option<FilterOperator> {
    match predicate {
        Some(predicate) => Some(FilterOperator { predicate, is_optimized: false, having }),
        None => None,
    }
}

/// Joins predicates into the predicate of one filter, nested from the left; without predicates
/// there is no filter.
fn reduce_filters(filters: &Vec<ExprRef>, having: bool, arena: &mut PlanArena) -> (res: Option<
    FilterOperator,
>)
    requires
        old(arena)@.wf(),
        old(arena)@.has_exprs(filters@),
    ensures
        res == filter_of(predicate_of(res), having),
        (predicate_of(res), final(arena)@) == conjoined(old(arena)@, filters@),
        final(arena)@.wf(),
        old(arena)@.exprs.is_prefix_of(final(arena)@.exprs),
        final(arena)@.columns == old(arena)@.columns,
        final(arena)@.indexes == old(arena)@.indexes,
        conjunction_of(
            final(arena)@.exprs,
            predicate_of(res),
            parts_of_all(old(arena)@.exprs, filters@),
        ),
{
    match conjoin(filters, arena) {
        Some(predicate) => Some(FilterOperator { predicate, is_optimized: false, having }),
        None => None,
    }
}

/// Moving column references of earlier expressions does not touch later ones.
pub proof fn lemma_shift_prefix(exprs: Seq<ExprView>, expr: ExprRef, n: nat, delta: int)
    requires
        n <= exprs.len(),
        expr.0 < n,
    ensures
        shift_expr(exprs, expr, delta).len() == exprs.len(),
        shift_expr(exprs, expr, delta).take(n as int) == shift_expr(
            exprs.take(n as int),
            expr,
            delta,
        ),
    decreases expr.0, 1nat, 0nat,
{
    if exprs[expr.0 as int].head is ColumnRef {
        assert(shift_expr(exprs, expr, delta).take(n as int) =~= shift_expr(
            exprs.take(n as int),
            expr,
            delta,
        ));
    } else {
        lemma_shift_prefix_all(exprs, exprs[expr.0 as int].children, expr.0 as nat, n, delta);
    }
}

pub proof fn lemma_shift_prefix_all(
    exprs: Seq<ExprView>,
    list: Seq<ExprRef>,
    bound: nat,
    n: nat,
    delta: int,
)
    requires
        bound <= n <= exprs.len(),
    ensures
        shift_all(exprs, list, bound, delta).len() == exprs.len(),
        shift_all(exprs, list, bound, delta).take(n as int) == shift_all(
            exprs.take(n as int),
            list,
            bound,
            delta,
        ),
    decreases bound, 0nat, list.len(),
{
    if list.len() > 0 {
        lemma_shift_prefix_all(exprs, list.drop_last(), bound, n, delta);
        if list.last().0 < bound {
            let middle = shift_all(exprs, list.drop_last(), bound, delta);
            lemma_shift_prefix(middle, list.last(), n, delta);
        }
    }
}

/// Moving the column references of two lists is moving those of the first, then of the second.
proof fn lemma_shift_all_concat(
    exprs: Seq<ExprView>,
    first: Seq<ExprRef>,
    second: Seq<ExprRef>,
    bound: nat,
    delta: int,
)
    ensures
        shift_all(exprs, first + second, bound, delta) == shift_all(
            shift_all(exprs, first, bound, delta),
            second,
            bound,
            delta,
        ),
    decreases second.len(),
{
    if second.len() == 0 {
        assert(first + second =~= first);
    } else {
        assert((first + second).drop_last() =~= first + second.drop_last());
        assert((first + second).last() == second.last());
        lemma_shift_all_concat(exprs, first, second.drop_last(), bound, delta);
    }
}

/// Moving the column references of a conjunction is moving those of its conjuncts.
proof fn lemma_shift_conjuncts(exprs: Seq<ExprView>, expr: ExprRef, n: nat, delta: int)
    requires
        n <= exprs.len(),
        expr.0 < exprs.len(),
        columns_are_leaves(exprs),
        forall|i: int|
            0 <= i < conjuncts(exprs, expr).len() ==> (#[trigger] conjuncts(exprs, expr)[i]).0 < n,
        forall|i: int, j: int|
            #![trigger exprs[i].children[j]]
            0 <= i < exprs.len() && 0 <= j < exprs[i].children.len() ==> exprs[i].children[j].0
                < i,
    ensures
        shift_expr(exprs, expr, delta).len() == exprs.len(),
        shift_expr(exprs, expr, delta).take(n as int) == shift_all(
            exprs.take(n as int),
            conjuncts(exprs, expr),
            n,
            delta,
        ),
    decreases expr.0,
{
    let node = exprs[expr.0 as int];
    if is_and(node) {
        let l = node.children[0];
        let r = node.children[1];
        assert(l.0 < expr.0 && r.0 < expr.0);
        let list = conjuncts(exprs, expr);
        let first = conjuncts(exprs, l);
        let second = conjuncts(exprs, r);
        assert(list == first + second);
        assert forall|i: int| 0 <= i < first.len() implies (#[trigger] first[i]).0 < n by {
            assert(list[i] == first[i]);
        }
        assert forall|i: int| 0 <= i < second.len() implies (#[trigger] second[i]).0 < n by {
            assert(list[first.len() + i] == second[i]);
        }
        lemma_shift_conjuncts(exprs, l, n, delta);
        let middle = shift_expr(exprs, l, delta);
        lemma_shift_structure(exprs, l, delta);
        lemma_structure_conjuncts(exprs, middle, r);
        assert forall|i: int| 0 <= i < middle.len()
            && #[trigger] middle[i].head is ColumnRef implies
            middle[i].children.len() == 0 by {
            assert(same_node(exprs[i], middle[i]));
        }
        assert forall|i: int, j: int|
            #![trigger middle[i].children[j]]
            0 <= i < middle.len() && 0 <= j < middle[i].children.len() implies
            middle[i].children[j].0 < i by {
            assert(same_node(exprs[i], middle[i]));
            assert(exprs[i].children[j].0 < i);
        }
        lemma_shift_conjuncts(middle, r, n, delta);
        lemma_shift_all_concat(exprs.take(n as int), first, second, n, delta);
        let pair = node.children;
        assert(pair.drop_last().drop_last() =~= Seq::empty());
        assert(pair.drop_last().last() == l);
        assert(pair.last() == r);
        let bound = expr.0 as nat;
        assert(shift_all(exprs, Seq::empty(), bound, delta) == exprs);
        assert(shift_all(exprs, pair.drop_last(), bound, delta) == middle);
        assert(shift_all(exprs, pair, bound, delta) == shift_expr(middle, r, delta));
    } else {
        assert(conjuncts(exprs, expr)[0] == expr);
        lemma_shift_prefix(exprs, expr, n, delta);
        let one = seq![expr];
        let prefix = exprs.take(n as int);
        assert(one.drop_last() =~= Seq::empty());
        assert(shift_all(prefix, Seq::empty(), n, delta) == prefix);
        assert(shift_all(prefix, one, n, delta) == shift_expr(prefix, expr, delta));
    }
}

/// What becomes of the conjuncts of a predicate above, or of, a join.
pub struct Distribution {
    pub inputs: InputSchemas,
    pub to_left: Seq<ExprRef>,
    pub to_right: Seq<ExprRef>,
    pub kept: Seq<ExprRef>,
}

/// Conjuncts that can be evaluated on one input go there, where that is allowed; the others stay.
pub open spec fn distribution(
    predicate: ExprRef,
    push_left: bool,
    push_right: bool,
    children: ChildrenView,
    arena: ArenaView,
) -> Distribution {
    let inputs = input_schemas(children, arena);
    let exprs = inputs.arena.exprs;
    let list = conjuncts(exprs, predicate);
    let left = on_side(exprs, list, inputs.left, inputs.right, Side::Left);
    let right = on_side(exprs, list, inputs.left, inputs.right, Side::Right);
    let both = on_side(exprs, list, inputs.left, inputs.right, Side::Both);
    Distribution {
        inputs,
        to_left: if push_left {
            left
        } else {
            Seq::empty()
        },
        to_right: if push_right {
            right
        } else {
            Seq::empty()
        },
        kept: both + (if push_left {
            Seq::empty()
        } else {
            left
        }) + (if push_right {
            Seq::empty()
        } else {
            right
        }),
    }
}

/// The predicates that go to the inputs and the one that stays, with the arena that holds them. What
/// goes to the right input refers to the columns of that input.
pub struct Distributed {
    pub left: Option<ExprRef>,
    pub right: Option<ExprRef>,
    pub kept: Option<ExprRef>,
    pub arena: ArenaView,
}

/// The predicates into which a predicate above, or of, a join is distributed.
pub open spec fn distributed(
    predicate: ExprRef,
    push_left: bool,
    push_right: bool,
    children: ChildrenView,
    arena: ArenaView,
) -> Distributed {
    let inputs = input_schemas(children, arena);
    let sorted = classified(
        inputs.arena,
        conjuncts(inputs.arena.exprs, predicate),
        inputs.left,
        inputs.right,
    );
    let moved = match sorted.right {
        Some(expr) if push_right => ArenaView {
            exprs: shift_expr(sorted.arena.exprs, expr, -(inputs.left.len() as int)),
            ..sorted.arena
        },
        _ => sorted.arena,
    };
    let (kept, after) = conjoined(
        moved,
        optional(sorted.both) + (if push_left {
            Seq::empty()
        } else {
            optional(sorted.left)
        }) + (if push_right {
            Seq::empty()
        } else {
            optional(sorted.right)
        }),
    );
    Distributed {
        left: if push_left {
            sorted.left
        } else {
            None
        },
        right: if push_right {
            sorted.right
        } else {
            None
        },
        kept,
        arena: after,
    }
}

/// The predicate of an optional filter.
pub open spec fn predicate_of(filter: Option<FilterOperator>) -> Option<ExprRef> {
    match filter {
        Some(filter) => Some(filter.predicate),
        None => None,
    }
}

/// The predicates of one side are among those of the list.
proof fn lemma_on_side_bounded(
    exprs: Seq<ExprView>,
    list: Seq<ExprRef>,
    left: Seq<ColumnRef>,
    right: Seq<ColumnRef>,
    side: Side,
    bound: nat,
)
    requires
        forall|i: int| 0 <= i < list.len() ==> (#[trigger] list[i]).0 < bound,
    ensures
        forall|i: int|
            0 <= i < on_side(exprs, list, left, right, side).len() ==> (#[trigger] on_side(
                exprs,
                list,
                left,
                right,
                side,
            )[i]).0 < bound,
    decreases list.len(),
{
    if list.len() > 0 {
        assert forall|i: int| 0 <= i < list.drop_last().len() implies (
        #[trigger] list.drop_last()[i]).0 < bound by {
            assert(list[i].0 < bound);
        }
        lemma_on_side_bounded(exprs, list.drop_last(), left, right, side, bound);
        let front = on_side(exprs, list.drop_last(), left, right, side);
        let whole = on_side(exprs, list, left, right, side);
        assert forall|i: int| 0 <= i < whole.len() implies (#[trigger] whole[i]).0 < bound by {
            if i < front.len() {
                assert(whole[i] == front[i]);
            } else {
                assert(whole[i] == list[list.len() - 1]);
            }
        }
    }
}

/// Moving nothing changes nothing.
proof fn lemma_grown_unmoved(before: ArenaView, after: ArenaView, delta: int)
    requires
        before.exprs.is_prefix_of(after.exprs),
        before.columns == after.columns,
        before.indexes == after.indexes,
    ensures
        grown(before, after, Seq::empty(), delta),
{
    assert(after.exprs.take(before.exprs.len() as int) =~= before.exprs);
}

/// Sorts the conjuncts of a predicate by where they are to be evaluated.
fn distribute_predicate(
    predicate: ExprRef,
    having: bool,
    push_left: bool,
    push_right: bool,
    childrens: &mut Childrens,
    arena: &mut PlanArena,
) -> (res: (Option<FilterOperator>, Option<FilterOperator>, Option<FilterOperator>))
    requires
        old(arena)@.wf(),
        old(arena)@.has_expr(predicate),
        old(childrens)@.valid(old(arena)@),
        inputs_ready(old(childrens)@),
    ensures
        ({
            let parts = distribution(
                predicate,
                push_left,
                push_right,
                old(childrens)@,
                old(arena)@,
            );
            let after = final(arena)@;
            &&& final(childrens)@ == parts.inputs.children
            &&& old(arena)@.within(after)
            &&& after.indexes == old(arena)@.indexes
            &&& grown(parts.inputs.arena, after, parts.to_right, -(parts.inputs.left.len() as int))
            &&& conjunctions_for(
                after,
                parts,
                predicate_of(res.0),
                predicate_of(res.1),
                predicate_of(res.2),
            )
        }),
        ({
            let preds = distributed(
                predicate,
                push_left,
                push_right,
                old(childrens)@,
                old(arena)@,
            );
            &&& res.0 == filter_of(preds.left, having)
            &&& res.1 == filter_of(preds.right, having)
            &&& res.2 == filter_of(preds.kept, having)
            &&& final(arena)@ == preds.arena
        }),
        forall|expr: ExprRef|
            old(arena)@.has_expr(expr) ==> #[trigger] conjuncts(final(arena)@.exprs, expr)
                == conjuncts(old(arena)@.exprs, expr),
        final(arena)@.wf(),
        final(childrens)@.valid(final(arena)@),
{
    let ghost start = arena@;
    let ghost parts = distribution(predicate, push_left, push_right, childrens@, arena@);
    let ghost base = parts.inputs.arena;
    let ghost left_cols = parts.inputs.left;
    let ghost right_cols = parts.inputs.right;
    let (left_filter, right_filter, common_filter, left_len) = classify_join_filters(
        predicate,
        childrens,
        arena,
    );
    let ghost list = conjuncts(base.exprs, predicate);
    let ghost left = on_side(base.exprs, list, left_cols, right_cols, Side::Left);
    let ghost right = on_side(base.exprs, list, left_cols, right_cols, Side::Right);
    let ghost both = on_side(base.exprs, list, left_cols, right_cols, Side::Both);
    let ghost classified_arena = arena@;
    let ghost n = base.exprs.len();
    let ghost delta = -(left_len as int);
    assert(classified_arena.exprs.take(n as int) =~= base.exprs);
    if push_right {
        if let Some(expr) = right_filter {
            PositionShift { delta: -(left_len as i128) }.visit(expr, arena);
            proof {
                lemma_conjuncts_bounded(base.exprs, predicate);
                lemma_on_side_bounded(base.exprs, list, left_cols, right_cols, Side::Right, n);
                lemma_shift_conjuncts(classified_arena.exprs, expr, n, delta);
                lemma_shift_structure(classified_arena.exprs, expr, delta);
                lemma_structure_conjuncts(classified_arena.exprs, arena@.exprs, expr);
                if left_filter is Some {
                    lemma_structure_conjuncts(classified_arena.exprs, arena@.exprs, left_filter->0);
                }
                if common_filter is Some {
                    lemma_structure_conjuncts(classified_arena.exprs, arena@.exprs, common_filter->0);
                }
            }
        } else {
            proof {
                lemma_grown_unmoved(base, arena@, delta);
                assert(right =~= Seq::empty());
            }
        }
    } else {
        proof {
            lemma_grown_unmoved(base, arena@, delta);
        }
    }
    let ghost shifted = arena@;
    assert(same_structure(classified_arena.exprs, shifted.exprs));
    assert(grown(base, shifted, parts.to_right, delta));
    assert(conjunction_of(shifted.exprs, left_filter, left));
    assert(conjunction_of(shifted.exprs, right_filter, right));
    assert(conjunction_of(shifted.exprs, common_filter, both));
    let left_op: Option<FilterOperator> = match left_filter {
        Some(predicate) if push_left => Some(
            FilterOperator { predicate, is_optimized: false, having },
        ),
        _ => None,
    };
    let right_op: Option<FilterOperator> = match right_filter {
        Some(predicate) if push_right => Some(
            FilterOperator { predicate, is_optimized: false, having },
        ),
        _ => None,
    };
    let mut kept: Vec<ExprRef> = Vec::new();
    let ghost exprs = shifted.exprs;
    if let Some(expr) = common_filter {
        kept.push(expr);
    }
    assert(parts_of_all(exprs, Seq::empty()) =~= Seq::empty());
    proof {
        if common_filter is Some {
            assert(kept@.drop_last() =~= Seq::empty());
        }
        assert(parts_of_all(exprs, kept@) =~= both);
    }
    let ghost first = kept@;
    if !push_left {
        if let Some(expr) = left_filter {
            kept.push(expr);
            assert(kept@.drop_last() =~= first);
        }
    }
    let ghost stay_left = if push_left {
        Seq::empty()
    } else {
        left
    };
    assert(parts_of_all(exprs, kept@) =~= both + stay_left);
    let ghost second = kept@;
    if !push_right {
        if let Some(expr) = right_filter {
            kept.push(expr);
            assert(kept@.drop_last() =~= second);
        }
    }
    assert(parts_of_all(exprs, kept@) =~= parts.kept);
    assert(kept@ =~= optional(common_filter) + (if push_left {
        Seq::empty()
    } else {
        optional(left_filter)
    }) + (if push_right {
        Seq::empty()
    } else {
        optional(right_filter)
    }));
    let kept_op = reduce_filters(&kept, having, arena);
    proof {
        assert forall|expr: ExprRef| start.has_expr(expr) implies #[trigger] conjuncts(
            arena@.exprs,
            expr,
        ) == conjuncts(start.exprs, expr) by {
            lemma_conjuncts_extend(start.exprs, classified_arena.exprs, expr);
            lemma_structure_conjuncts(classified_arena.exprs, shifted.exprs, expr);
            lemma_conjuncts_extend(shifted.exprs, arena@.exprs, expr);
        }
        lemma_conjunction_extend(exprs, arena@.exprs, predicate_of(left_op), parts.to_left);
        lemma_conjunction_extend(exprs, arena@.exprs, predicate_of(right_op), parts.to_right);
        assert(arena@.exprs.take(n as int) =~= shifted.exprs.take(n as int));
        lemma_children_valid_within(childrens@, classified_arena, arena@);
    }
    (left_op, right_op, kept_op)
}

/// Pushes the predicate of a filter above a join into the join.
///
/// An inner join takes what can be evaluated on one input on that input, and everything else into
/// its condition. An outer join takes only what concerns the input whose rows it keeps; everything
/// else stays above.
pub struct PushPredicateThroughJoin;

/// Whether a filter above the join may move to the left input.
pub open spec fn filter_moves_left(join_type: JoinType) -> bool {
    join_type == JoinType::Inner || join_type == JoinType::LeftOuter
}

/// Whether a filter above the join may move to the right input.
pub open spec fn filter_moves_right(join_type: JoinType) -> bool {
    join_type == JoinType::Inner || join_type == JoinType::RightOuter
}

/// Whether the plan is a filter above a join through which predicates move.
pub open spec fn filter_above_join(plan: PlanView) -> bool {
    &&& plan.operator is Filter
    &&& plan.children matches ChildrenView::Only(join) && join.operator matches OperatorView::Join(
        op,
    ) && (filter_moves_left(op.join_type) || filter_moves_right(op.join_type))
}

/// The inputs of a join with new filters above them.
pub open spec fn filtered_inputs(
    children: ChildrenView,
    left: Option<FilterOperator>,
    right: Option<FilterOperator>,
) -> ChildrenView {
    let first = match left {
        Some(filter) => wrap_child(children, 0, OperatorView::Filter(filter)),
        None => children,
    };
    match right {
        Some(filter) => wrap_child(first, 1, OperatorView::Filter(filter)),
        None => first,
    }
}

/// Whether any of the new filters found its input.
pub open spec fn some_filtered(
    children: ChildrenView,
    left: Option<FilterOperator>,
    right: Option<FilterOperator>,
) -> bool {
    (left is Some && has_child(children, 0)) || (right is Some && has_child(children, 1))
}

/// The filter of a join.
pub open spec fn condition_of(join: JoinView) -> Option<ExprRef> {
    match join.on {
        JoinConditionView::On { filter, .. } => filter,
        JoinConditionView::Nothing => None,
    }
}

/// A join with another filter. A join without a condition gets one without keys.
pub open spec fn conditioned(join: JoinView, filter: Option<ExprRef>) -> JoinView {
    match join.on {
        JoinConditionView::On { on, .. } => JoinView {
            on: JoinConditionView::On { on, filter },
            ..join
        },
        JoinConditionView::Nothing => JoinView {
            on: JoinConditionView::On { on: Seq::empty(), filter },
            ..join
        },
    }
}

/// The condition of a join with the predicate that neither input can evaluate, and the arena with
/// it. An outer join keeps its own condition.
pub open spec fn joint_condition(join: JoinView, preds: Distributed) -> (JoinView, ArenaView) {
    if join.join_type == JoinType::Inner && preds.kept is Some {
        let (filter, after) = conjoined(
            preds.arena,
            optional(condition_of(join)) + optional(preds.kept),
        );
        (conditioned(join, filter), after)
    } else {
        (join, preds.arena)
    }
}

/// What a filter above a join becomes, given the predicates that go to the inputs and the one that
/// stays, and whether anything moved.
pub open spec fn pushed_plan(
    plan: PlanView,
    children: ChildrenView,
    preds: Distributed,
) -> (PlanView, bool) {
    let having = plan.operator->Filter_0.having;
    let join = *(plan.children->Only_0);
    let left = filter_of(preds.left, having);
    let right = filter_of(preds.right, having);
    let joined = PlanView {
        operator: OperatorView::Join(joint_condition(join.operator->Join_0, preds).0),
        children: filtered_inputs(children, left, right),
        ..join
    };
    match preds.kept {
        Some(predicate) => if join.operator->Join_0.join_type == JoinType::Inner {
            (joined, true)
        } else {
            (
                PlanView {
                    operator: OperatorView::Filter(
                        FilterOperator { predicate, is_optimized: false, having },
                    ),
                    children: ChildrenView::Only(Box::new(joined)),
                    ..plan
                },
                true,
            )
        },
        None => if some_filtered(children, left, right) {
            (joined, true)
        } else {
            (PlanView { children: ChildrenView::Only(Box::new(joined)), ..plan }, false)
        },
    }
}

/// Whether the predicates are the conjunctions of what goes left, goes right and stays.
pub open spec fn conjunctions_for(
    arena: ArenaView,
    parts: Distribution,
    left: Option<ExprRef>,
    right: Option<ExprRef>,
    kept: Option<ExprRef>,
) -> bool {
    &&& conjunction_of(arena.exprs, left, parts.to_left)
    &&& conjunction_of(arena.exprs, right, parts.to_right)
    &&& conjunction_of(arena.exprs, kept, parts.kept)
}

/// How the predicate of a filter above a join is distributed.
pub open spec fn filter_distribution(plan: PlanView, arena: ArenaView) -> Distribution {
    let join = plan.children->Only_0;
    let join_type = join.operator->Join_0.join_type;
    distribution(
        plan.operator->Filter_0.predicate,
        filter_moves_left(join_type),
        filter_moves_right(join_type),
        join.children,
        arena,
    )
}

/// The predicates into which the predicate of a filter above a join is distributed.
pub open spec fn filter_predicates(plan: PlanView, arena: ArenaView) -> Distributed {
    let join = plan.children->Only_0;
    let join_type = join.operator->Join_0.join_type;
    distributed(
        plan.operator->Filter_0.predicate,
        filter_moves_left(join_type),
        filter_moves_right(join_type),
        join.children,
        arena,
    )
}

/// What pushing the predicate of a filter through a join does. The new predicates are the
/// conjunctions of the old conjuncts, and in an inner join the condition is that of the join and of
/// all conjuncts that need both inputs.
pub open spec fn pushes_through_join(
    plan: PlanView,
    arena: ArenaView,
    new_plan: PlanView,
    new_arena: ArenaView,
    applied: bool,
) -> bool {
    if !filter_above_join(plan) {
        new_plan == plan && new_arena == arena && !applied
    } else {
        let parts = filter_distribution(plan, arena);
        let preds = filter_predicates(plan, arena);
        let join = plan.children->Only_0.operator->Join_0;
        let (joint, after) = joint_condition(join, preds);
        &&& (new_plan, applied) == pushed_plan(plan, parts.inputs.children, preds)
        &&& new_arena == after
        &&& grown(
            parts.inputs.arena,
            new_arena,
            parts.to_right,
            -(parts.inputs.left.len() as int),
        )
        &&& conjunctions_for(new_arena, parts, preds.left, preds.right, preds.kept)
        &&& join.join_type == JoinType::Inner ==> conjunction_of(
            new_arena.exprs,
            condition_of(joint),
            parts_of(arena.exprs, condition_of(join)) + parts.kept,
        )
    }
}

/// Puts optional filters above the inputs of a join.
fn wrap_inputs(plan: &mut LogicalPlan, left: Option<FilterOperator>,
    right: Option<FilterOperator>) -> (applied:
    bool)
    ensures
        applied == some_filtered(old(plan)@.children, left, right),
        final(plan)@ == (PlanView {
            children: filtered_inputs(old(plan)@.children, left, right),
            ..old(plan)@
        }),
        final(plan).operator == old(plan).operator,
        final(plan).physical_option == old(plan).physical_option,
{
    let mut applied = false;
    if let Some(filter) = left {
        if wrap_child_with(plan, 0, Operator::Filter(filter)) {
            applied = true;
        }
    }
    if let Some(filter) = right {
        if wrap_child_with(plan, 1, Operator::Filter(filter)) {
            applied = true;
        }
    }
    applied
}

/// Filters above inputs refer to nothing but their predicates.
proof fn lemma_filtered_valid(
    children: ChildrenView,
    left: Option<FilterOperator>,
    right: Option<FilterOperator>,
    arena: ArenaView,
)
    requires
        children.valid(arena),
        left matches Some(filter) ==> arena.has_expr(filter.predicate),
        right matches Some(filter) ==> arena.has_expr(filter.predicate),
    ensures
        filtered_inputs(children, left, right).valid(arena),
{
    reveal_with_fuel(PlanView::valid, 2);
    reveal_with_fuel(ChildrenView::valid, 3);
}

/// The rewritten plan refers to nothing but what the arena holds.
proof fn lemma_pushed_valid(
    plan: PlanView,
    children: ChildrenView,
    preds: Distributed,
    small: ArenaView,
    large: ArenaView,
)
    requires
        filter_above_join(plan),
        plan.valid(small),
        small.within(large),
        children.valid(large),
        preds.left matches Some(expr) ==> large.has_expr(expr),
        preds.right matches Some(expr) ==> large.has_expr(expr),
        preds.kept matches Some(expr) ==> large.has_expr(expr),
        condition_of(joint_condition(plan.children->Only_0.operator->Join_0, preds).0) matches Some(
            expr,
        ) ==> large.has_expr(expr),
    ensures
        pushed_plan(plan, children, preds).0.valid(large),
{
    let having = plan.operator->Filter_0.having;
    let left = filter_of(preds.left, having);
    let right = filter_of(preds.right, having);
    lemma_plan_valid_within(plan, small, large);
    lemma_filtered_valid(children, left, right, large);
    let join = *(plan.children->Only_0);
    assert(plan.children.valid(large));
    assert(join.valid(large));
    let joined = PlanView {
        operator: OperatorView::Join(joint_condition(join.operator->Join_0, preds).0),
        children: filtered_inputs(children, left, right),
        ..join
    };
    assert(joined.valid(large));
    assert(ChildrenView::Only(Box::new(joined)).valid(large));
}

/// Adds a predicate to the condition of an inner join.
fn join_predicate(operator: &mut Operator, predicate: ExprRef, arena: &mut PlanArena)
    requires
        old(operator)@ is Join,
        old(arena)@.wf(),
        old(arena)@.has_expr(predicate),
        condition_of(old(operator)@->Join_0) matches Some(expr) ==> old(arena)@.has_expr(expr),
    ensures
        ({
            let join = old(operator)@->Join_0;
            let (filter, after) = conjoined(
                old(arena)@,
                optional(condition_of(join)) + seq![predicate],
            );
            &&& final(operator)@ == OperatorView::Join(conditioned(join, filter))
            &&& final(arena)@ == after
            &&& conjunction_of(
                after.exprs,
                filter,
                parts_of(old(arena)@.exprs, condition_of(join)) + conjuncts(
                    old(arena)@.exprs,
                    predicate,
                ),
            )
        }),
        final(arena)@.wf(),
        old(arena)@.exprs.is_prefix_of(final(arena)@.exprs),
        final(arena)@.columns == old(arena)@.columns,
        final(arena)@.indexes == old(arena)@.indexes,
{
    let ghost exprs = arena@.exprs;
    let ghost before = condition_of(operator@->Join_0);
    if let Operator::Join(join) = operator {
        let mut list: Vec<ExprRef> = Vec::new();
        if let JoinCondition::On { filter: Some(filter), .. } = &join.on {
            list.push(*filter);
        }
        assert(list@ =~= optional(before));
        assert(parts_of_all(exprs, Seq::empty()) =~= Seq::empty());
        proof {
            if before is Some {
                assert(list@.drop_last() =~= Seq::empty());
            }
            assert(parts_of_all(exprs, list@) =~= parts_of(exprs, before));
        }
        let ghost first = list@;
        list.push(predicate);
        assert(list@.drop_last() =~= first);
        assert(list@ =~= optional(before) + seq![predicate]);
        let joint = conjoin(&list, arena);
        match &mut join.on {
            JoinCondition::On { filter: slot, .. } => {
                *slot = joint;
            },
            JoinCondition::Nothing => {
                let on: Vec<(ExprRef, ExprRef)> = Vec::new();
                assert(on@ =~= Seq::empty());
                join.on = JoinCondition::On { on, filter: joint };
            },
        }
    }
}

impl PushPredicateThroughJoin {
    pub fn apply(&self, plan: &mut LogicalPlan, arena: &mut PlanArena) -> (res: Result<
        bool,
        DatabaseError,
    >)
        requires
            old(arena)@.wf(),
            old(plan)@.valid(old(arena)@),
            filter_above_join(old(plan)@) ==> inputs_ready(old(plan)@.children->Only_0.children),
        ensures
            res is Ok,
            pushes_through_join(
                old(plan)@,
                old(arena)@,
                final(plan)@,
                final(arena)@,
                res->Ok_0,
            ),
            final(arena)@.wf(),
            old(arena)@.within(final(arena)@),
            final(arena)@.indexes == old(arena)@.indexes,
            final(plan)@.valid(final(arena)@),
    {
        let Operator::Filter(filter_op) = &plan.operator else {
            return Ok(false);
        };
        let filter_op: FilterOperator = *filter_op;
        assert(plan.childrens@ == plan@.children);
        let join_type: JoinType = match &*plan.childrens {
            Childrens::Only(join_plan) => match &join_plan.operator {
                Operator::Join(op) => op.join_type,
                _ => {
                    return Ok(false);
                },
            },
            _ => {
                return Ok(false);
            },
        };
        let push_left = match join_type {
            JoinType::Inner | JoinType::LeftOuter => true,
            _ => false,
        };
        let push_right = match join_type {
            JoinType::Inner | JoinType::RightOuter => true,
            _ => false,
        };
        if !push_left && !push_right {
            return Ok(false);
        }
        let ghost start = plan@;
        let ghost parts = filter_distribution(plan@, arena@);
        let ghost preds = filter_predicates(plan@, arena@);
        let ghost join = plan@.children->Only_0.operator->Join_0;
        let (applied, kept) = match only_child_mut(plan) {
            Some(join_plan) => {
                assert(join_plan.childrens@ == join_plan@.children);
                assert(start.children.valid(arena@));
                assert(join_plan@.valid(arena@));
                let (left, right, kept) = distribute_predicate(
                    filter_op.predicate,
                    filter_op.having,
                    push_left,
                    push_right,
                    &mut *join_plan.childrens,
                    arena,
                );
                assert(join_plan.childrens@ == join_plan@.children);
                let ghost moved = arena@;
                let mut applied = wrap_inputs(join_plan, left, right);
                let mut above = kept;
                if let JoinType::Inner = join_type {
                    if let Some(filter) = kept {
                        join_predicate(&mut join_plan.operator, filter.predicate, arena);
                        applied = true;
                        above = None;
                        assert(optional(preds.kept) =~= seq![filter.predicate]);
                    }
                }
                proof {
                    assert(arena@ == joint_condition(join, preds).1);
                    lemma_conjunction_extend(
                        moved.exprs,
                        arena@.exprs,
                        preds.left,
                        parts.to_left,
                    );
                    lemma_conjunction_extend(
                        moved.exprs,
                        arena@.exprs,
                        preds.right,
                        parts.to_right,
                    );
                    lemma_conjunction_extend(moved.exprs, arena@.exprs, preds.kept, parts.kept);
                    if preds.kept is None {
                        assert(parts.kept =~= Seq::empty());
                    }
                    if condition_of(join) is Some {
                        let filter = condition_of(join)->0;
                        assert(conjuncts(moved.exprs, filter) == conjuncts(
                            old(arena)@.exprs,
                            filter,
                        ));
                    }
                    let n = parts.inputs.arena.exprs.len() as int;
                    assert(arena@.exprs.take(n) =~= moved.exprs.take(n));
                    lemma_children_valid_within(parts.inputs.children, moved, arena@);
                    lemma_pushed_valid(
                        start,
                        parts.inputs.children,
                        preds,
                        old(arena)@,
                        arena@,
                    );
                }
                (applied, above)
            },
            None => {
                return Ok(false);
            },
        };
        assert(plan.childrens@ == plan@.children);
        match kept {
            Some(filter) => {
                plan.operator = Operator::Filter(filter);
                Ok(true)
            },
            None => {
                if applied {
                    replace_with_only_child(plan);
                }
                Ok(applied)
            },
        }
    }
}

/// Pushes the filter of a join to its inputs.
///
/// An inner join takes what can be evaluated on one input on that input. An outer join takes only
/// what concerns the input whose rows it may drop; everything else stays in the join.
pub struct PushJoinPredicateIntoScan;

/// Whether a conjunct of the join filter may move to the left input.
pub open spec fn condition_moves_left(join_type: JoinType) -> bool {
    join_type == JoinType::Inner || join_type == JoinType::RightOuter
}

/// Whether a conjunct of the join filter may move to the right input.
pub open spec fn condition_moves_right(join_type: JoinType) -> bool {
    join_type == JoinType::Inner || join_type == JoinType::LeftOuter
}

/// The filter of a join that predicates move out of.
pub open spec fn movable_condition(plan: PlanView) -> Option<ExprRef> {
    match plan.operator {
        OperatorView::Join(op) => match op.on {
            JoinConditionView::On { filter, .. } => if condition_moves_left(op.join_type)
                || condition_moves_right(op.join_type) {
                filter
            } else {
                None
            },
            JoinConditionView::Nothing => None,
        },
        _ => None,
    }
}

/// A join with another filter.
pub open spec fn with_condition(join: JoinView, filter: Option<ExprRef>) -> JoinView {
    match join.on {
        JoinConditionView::On { on, .. } => JoinView {
            on: JoinConditionView::On { on, filter },
            ..join
        },
        JoinConditionView::Nothing => join,
    }
}

/// How the filter of a join is distributed.
pub open spec fn condition_distribution(plan: PlanView, arena: ArenaView) -> Distribution {
    let join_type = plan.operator->Join_0.join_type;
    distribution(
        movable_condition(plan)->0,
        condition_moves_left(join_type),
        condition_moves_right(join_type),
        plan.children,
        arena,
    )
}

/// The predicates into which the filter of a join is distributed.
pub open spec fn condition_predicates(plan: PlanView, arena: ArenaView) -> Distributed {
    let join_type = plan.operator->Join_0.join_type;
    distributed(
        movable_condition(plan)->0,
        condition_moves_left(join_type),
        condition_moves_right(join_type),
        plan.children,
        arena,
    )
}

/// What pushing the filter of a join to its inputs does. The new predicates are the conjunctions of
/// the old conjuncts.
pub open spec fn pushes_condition(
    plan: PlanView,
    arena: ArenaView,
    new_plan: PlanView,
    new_arena: ArenaView,
    applied: bool,
) -> bool {
    if movable_condition(plan) is None {
        new_plan == plan && new_arena == arena && !applied
    } else {
        let parts = condition_distribution(plan, arena);
        let preds = condition_predicates(plan, arena);
        let left = filter_of(preds.left, false);
        let right = filter_of(preds.right, false);
        &&& new_plan == (PlanView {
            operator: OperatorView::Join(with_condition(plan.operator->Join_0, preds.kept)),
            children: filtered_inputs(parts.inputs.children, left, right),
            ..plan
        })
        &&& new_arena == preds.arena
        &&& applied == (some_filtered(parts.inputs.children, left, right) || preds.kept
            != movable_condition(plan))
        &&& grown(
            parts.inputs.arena,
            new_arena,
            parts.to_right,
            -(parts.inputs.left.len() as int),
        )
        &&& conjunctions_for(new_arena, parts, preds.left, preds.right, preds.kept)
    }
}

fn set_condition(operator: &mut Operator, filter: Option<ExprRef>)
    requires
        old(operator)@ is Join,
    ensures
        final(operator)@ == OperatorView::Join(with_condition(old(operator)@->Join_0, filter)),
{
    if let Operator::Join(join) = operator {
        match &mut join.on {
            JoinCondition::On { filter: slot, .. } => {
                *slot = filter;
            },
            JoinCondition::Nothing => {},
        }
    }
}

impl PushJoinPredicateIntoScan {
    pub fn apply(&self, plan: &mut LogicalPlan, arena: &mut PlanArena) -> (res: Result<
        bool,
        DatabaseError,
    >)
        requires
            old(arena)@.wf(),
            old(plan)@.valid(old(arena)@),
            movable_condition(old(plan)@) is Some ==> inputs_ready(old(plan)@.children),
        ensures
            res is Ok,
            pushes_condition(old(plan)@, old(arena)@, final(plan)@, final(arena)@, res->Ok_0),
            final(arena)@.wf(),
            old(arena)@.within(final(arena)@),
            final(arena)@.indexes == old(arena)@.indexes,
            final(plan)@.valid(final(arena)@),
    {
        let (join_type, filter_expr): (JoinType, ExprRef) = match &plan.operator {
            Operator::Join(join_op) => match &join_op.on {
                JoinCondition::On { filter, .. } => match filter {
                    Some(filter) => (join_op.join_type, *filter),
                    None => {
                        return Ok(false);
                    },
                },
                JoinCondition::Nothing => {
                    return Ok(false);
                },
            },
            _ => {
                return Ok(false);
            },
        };
        let (push_left, push_right) = match join_type {
            JoinType::Inner => (true, true),
            JoinType::LeftOuter => (false, true),
            JoinType::RightOuter => (true, false),
            _ => {
                return Ok(false);
            },
        };
        let ghost start = plan@;
        let ghost parts = condition_distribution(plan@, arena@);
        assert(plan.childrens@ == plan@.children);
        let (left, right, kept) = distribute_predicate(
            filter_expr,
            false,
            push_left,
            push_right,
            &mut *plan.childrens,
            arena,
        );
        assert(plan.childrens@ == plan@.children);
        let mut applied = wrap_inputs(plan, left, right);
        let join_filter: Option<ExprRef> = match kept {
            Some(filter) => Some(filter.predicate),
            None => None,
        };
        let filter_changed = match join_filter {
            Some(expr) => expr != filter_expr,
            None => true,
        };
        if filter_changed {
            applied = true;
        }
        set_condition(&mut plan.operator, join_filter);
        proof {
            lemma_plan_valid_within(start, old(arena)@, arena@);
            lemma_filtered_valid(parts.inputs.children, left, right, arena@);
        }
        Ok(applied)
    }
}

} // verus!
