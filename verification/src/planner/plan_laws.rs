//! What plans are made of.

use crate::catalog::ColumnRef;
use crate::expression::flat_pairs;
use crate::planner::arena::{ArenaView, ExprRef};
use crate::planner::columns::{named_columns, operator_exprs};
use crate::planner::copy::with_exprs;
use crate::planner::operator::join::JoinConditionView;
use crate::planner::operator::OperatorView;
use crate::planner::{ChildrenView, PlanView};
use vstd::prelude::*;

verus! {

/// Whether the operator refers to an index of a table.
pub open spec fn names_indexes(operator: OperatorView) -> bool {
    operator is Analyze || (operator matches OperatorView::TableScan(op) && op.index_infos.len()
        > 0)
}

/// What an operator lists is all that it refers to: where the listed columns and expressions are
/// there, the operator is in order.
pub proof fn listed_parts_are_all_parts(operator: OperatorView, arena: ArenaView)
    requires
        !names_indexes(operator),
        arena.has_columns(named_columns(operator)),
        arena.has_exprs(operator_exprs(operator)),
    ensures
        operator.valid(arena),
{
    let exprs = operator_exprs(operator);
    let columns = named_columns(operator);
    match operator {
        OperatorView::Aggregate(op) => {
            assert forall|i: int| 0 <= i < op.agg_calls.len() implies arena.has_expr(
                #[trigger] op.agg_calls[i],
            ) by {
                assert(exprs[i] == op.agg_calls[i]);
            }
            assert forall|i: int| 0 <= i < op.groupby_exprs.len() implies arena.has_expr(
                #[trigger] op.groupby_exprs[i],
            ) by {
                assert(exprs[op.agg_calls.len() + i] == op.groupby_exprs[i]);
            }
        },
        OperatorView::MarkApply(op) => {
            assert forall|i: int| 0 <= i < op.predicates.len() implies arena.has_expr(
                #[trigger] op.predicates[i],
            ) by {
                assert(exprs[i] == op.predicates[i]);
            }
            if op.parameterized_probe is Some {
                assert(exprs[op.predicates.len() as int] == op.parameterized_probe->0);
            }
            if op.output_column is Some {
                assert(columns[0] == op.output_column->0);
            }
        },
        OperatorView::Filter(op) => {
            assert(exprs[0] == op.predicate);
        },
        OperatorView::Join(op) => {
            if let JoinConditionView::On { on, filter } = op.on {
                let flat = flat_pairs(on);
                assert forall|i: int| 0 <= i < on.len() implies arena.has_expr(
                    (#[trigger] on[i]).0,
                ) && arena.has_expr(on[i].1) by {
                    assert(flat[2 * i] == on[i].0);
                    assert(flat[2 * i + 1] == on[i].1);
                    assert(exprs[2 * i] == flat[2 * i]);
                    assert(exprs[2 * i + 1] == flat[2 * i + 1]);
                }
                if filter is Some {
                    assert(exprs[flat.len() as int] == filter->0);
                }
            }
        },
        OperatorView::Sort(fields) => {
            assert forall|i: int| 0 <= i < fields.len() implies arena.has_expr(
                (#[trigger] fields[i]).expr,
            ) by {
                assert(exprs[i] == fields[i].expr);
            }
        },
        OperatorView::TopK(op) => {
            assert forall|i: int| 0 <= i < op.sort_fields.len() implies arena.has_expr(
                (#[trigger] op.sort_fields[i]).expr,
            ) by {
                assert(exprs[i] == op.sort_fields[i].expr);
            }
        },
        OperatorView::Window(op) => {
            let first = op.partition_by.len();
            let second = first + op.order_by.len();
            assert forall|i: int| 0 <= i < op.partition_by.len() implies arena.has_expr(
                #[trigger] op.partition_by[i],
            ) by {
                assert(exprs[i] == op.partition_by[i]);
            }
            assert forall|i: int| 0 <= i < op.order_by.len() implies arena.has_expr(
                (#[trigger] op.order_by[i]).expr,
            ) by {
                assert(exprs[first + i] == op.order_by[i].expr);
            }
            assert forall|i: int| 0 <= i < op.functions.len() implies arena.has_expr(
                #[trigger] op.functions[i],
            ) by {
                assert(exprs[second + i] == op.functions[i]);
            }
        },
        OperatorView::Union(left, right) => {
            lemma_both_columns(arena, left, right);
        },
        OperatorView::SetMembership(_, left, right) => {
            lemma_both_columns(arena, left, right);
        },
        OperatorView::Update(op) => {
            assert forall|i: int| 0 <= i < op.value_exprs.len() implies arena.has_column(
                (#[trigger] op.value_exprs[i]).0,
            ) && arena.has_expr(op.value_exprs[i].1) by {
                assert(columns[i] == op.value_exprs[i].0);
                assert(exprs[i] == op.value_exprs[i].1);
            }
        },
        _ => {},
    }
}

proof fn lemma_both_columns(
    arena: ArenaView,
    left: Seq<ColumnRef>,
    right: Seq<ColumnRef>,
)
    requires
        arena.has_columns(left + right),
    ensures
        arena.has_columns(left),
        arena.has_columns(right),
{
    let both = left + right;
    assert forall|i: int| 0 <= i < left.len() implies arena.has_column(#[trigger] left[i]) by {
        assert(both[i] == left[i]);
    }
    assert forall|i: int| 0 <= i < right.len() implies arena.has_column(#[trigger] right[i]) by {
        assert(both[left.len() + i] == right[i]);
    }
}

/// An operator that is given other expressions has just these, in their order, and keeps its columns.
pub proof fn given_expressions_are_listed(operator: OperatorView, exprs: Seq<ExprRef>)
    requires
        exprs.len() == operator_exprs(operator).len(),
    ensures
        operator_exprs(with_exprs(operator, exprs)) == exprs,
        named_columns(with_exprs(operator, exprs)) == named_columns(operator),
{
    let after = with_exprs(operator, exprs);
    assert(named_columns(after) =~= named_columns(operator));
    match operator {
        OperatorView::Join(op) => {
            if let JoinConditionView::On { on, filter } = op.on {
                let pairs = after->Join_0.on->on;
                assert forall|i: int| 0 <= i < 2 * on.len() implies flat_pairs(pairs)[i]
                    == exprs[i] by {
                    if i % 2 == 0 {
                        assert(2 * (i / 2) == i);
                    } else {
                        assert(2 * (i / 2) + 1 == i);
                    }
                }
            }
        },
        _ => {},
    }
    assert(operator_exprs(after) =~= exprs);
}

/// An operator that is given its own expressions stays as it is.
pub proof fn own_expressions_change_nothing(operator: OperatorView)
    ensures
        with_exprs(operator, operator_exprs(operator)) == operator,
{
    let exprs = operator_exprs(operator);
    match operator {
        OperatorView::Aggregate(op) => {
            assert(exprs.take(op.agg_calls.len() as int) =~= op.agg_calls);
            assert(exprs.skip(op.agg_calls.len() as int) =~= op.groupby_exprs);
        },
        OperatorView::MarkApply(op) => {
            assert(exprs.take(op.predicates.len() as int) =~= op.predicates);
        },
        OperatorView::Join(op) => {
            if let JoinConditionView::On { on, filter } = op.on {
                let pairs = with_exprs(operator, exprs)->Join_0.on->on;
                assert forall|i: int| 0 <= i < on.len() implies pairs[i] == on[i] by {
                    let flat = flat_pairs(on);
                    assert(exprs[2 * i] == flat[2 * i]);
                    assert(exprs[2 * i + 1] == flat[2 * i + 1]);
                    assert((2 * i) / 2 == i && (2 * i + 1) / 2 == i);
                }
                assert(pairs =~= on);
            }
        },
        OperatorView::Sort(fields) => {
            assert(with_exprs(operator, exprs)->Sort_0 =~= fields);
        },
        OperatorView::TopK(op) => {
            assert(with_exprs(operator, exprs)->TopK_0.sort_fields =~= op.sort_fields);
        },
        OperatorView::Window(op) => {
            let after = with_exprs(operator, exprs)->Window_0;
            assert(after.partition_by =~= op.partition_by);
            assert(after.order_by =~= op.order_by);
            assert(after.functions =~= op.functions);
        },
        OperatorView::Update(op) => {
            assert(with_exprs(operator, exprs)->Update_0.value_exprs =~= op.value_exprs);
        },
        _ => {},
    }
}

/// Whether a plan scans the table.
pub open spec fn scans(plan: PlanView, table: Seq<char>) -> bool
    decreases plan,
{
    ||| plan.operator matches OperatorView::TableScan(op) && op.table_name == table
    ||| match plan.children {
        ChildrenView::Leaf => false,
        ChildrenView::Only(child) => scans(*child, table),
        ChildrenView::Twins { left, right } => scans(*left, table) || scans(*right, table),
    }
}

/// The tables of a plan are those that it scans.
pub proof fn listed_tables_are_those_scanned(plan: PlanView, table: Seq<char>)
    ensures
        plan.tables().contains(table) <==> scans(plan, table),
    decreases plan,
{
    let own = match plan.operator {
        OperatorView::TableScan(op) => seq![op.table_name],
        _ => Seq::empty(),
    };
    let below = plan.children.tables();
    lemma_contains_concat(own, below, table);
    if own.len() > 0 {
        assert(own[0] == plan.operator->TableScan_0.table_name);
        if own.contains(table) {
            let i = choose|i: int| 0 <= i < own.len() && own[i] == table;
            assert(i == 0);
        }
    }
    match plan.children {
        ChildrenView::Leaf => {},
        ChildrenView::Only(child) => {
            listed_tables_are_those_scanned(*child, table);
        },
        ChildrenView::Twins { left, right } => {
            listed_tables_are_those_scanned(*left, table);
            listed_tables_are_those_scanned(*right, table);
            lemma_contains_concat(left.tables(), right.tables(), table);
        },
    }
}

proof fn lemma_contains_concat(first: Seq<Seq<char>>, second: Seq<Seq<char>>, one: Seq<char>)
    ensures
        (first + second).contains(one) <==> first.contains(one) || second.contains(one),
{
    let all = first + second;
    if first.contains(one) {
        let i = choose|i: int| 0 <= i < first.len() && first[i] == one;
        assert(all[i] == one);
    }
    if second.contains(one) {
        let i = choose|i: int| 0 <= i < second.len() && second[i] == one;
        assert(all[first.len() + i] == one);
    }
    if all.contains(one) {
        let i = choose|i: int| 0 <= i < all.len() && all[i] == one;
        if i < first.len() {
            assert(first[i] == one);
        } else {
            assert(second[i - first.len()] == one);
        }
    }
}

/// Whether two plans are the same but for the columns that were computed for them.
pub open spec fn same_but_columns(first: PlanView, second: PlanView) -> bool
    decreases first,
{
    &&& first.operator == second.operator
    &&& first.physical == second.physical
    &&& match (first.children, second.children) {
        (ChildrenView::Leaf, ChildrenView::Leaf) => true,
        (ChildrenView::Only(child), ChildrenView::Only(other)) => same_but_columns(*child, *other),
        (
            ChildrenView::Twins { left, right },
            ChildrenView::Twins { left: other_left, right: other_right },
        ) => same_but_columns(*left, *other_left) && same_but_columns(*right, *other_right),
        _ => false,
    }
}

/// Whether no columns are known of a plan and the plans below it.
pub open spec fn no_columns_known(plan: PlanView) -> bool
    decreases plan,
{
    &&& plan.schema is None
    &&& match plan.children {
        ChildrenView::Leaf => true,
        ChildrenView::Only(child) => no_columns_known(*child),
        ChildrenView::Twins { left, right } => no_columns_known(*left) && no_columns_known(*right),
    }
}

/// Forgetting computed columns forgets all of them and nothing else.
pub proof fn forgetting_columns_forgets_nothing_else(plan: PlanView)
    ensures
        same_but_columns(plan, plan.uncached()),
        no_columns_known(plan.uncached()),
    decreases plan,
{
    match plan.children {
        ChildrenView::Leaf => {},
        ChildrenView::Only(child) => {
            forgetting_columns_forgets_nothing_else(*child);
        },
        ChildrenView::Twins { left, right } => {
            forgetting_columns_forgets_nothing_else(*left);
            forgetting_columns_forgets_nothing_else(*right);
        },
    }
}

} // verus!
