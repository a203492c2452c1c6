use kite_sql::catalog::{ColumnCatalog, ColumnDesc, ColumnRef};
use kite_sql::errors::DatabaseError;
use kite_sql::execution::choice::ExecInput;
use kite_sql::execution::node::{Building, ExecNode, ExecutorNode, Running};
use kite_sql::execution::{
    with_projection_tmp_value, ExecArena, ExecId, ExecutionContext, NoRows, RecursiveInput,
};
use kite_sql::expression::ScalarExpression;
use kite_sql::optimizer::rule::normalization::remap::{remap_expr_positions, remap_exprs_positions};
use kite_sql::planner::arena::{ExprRef, PlanArena, TableArena, TableArenaCell};
use kite_sql::planner::operator::mark_apply::{MarkApplyOperator, MarkApplyQuantifier};
use kite_sql::planner::operator::Operator;
use kite_sql::planner::{Childrens, LogicalPlan};
use kite_sql::types::tuple::Tuple;
use kite_sql::types::value::DataValue;
use kite_sql::types::LogicalType;
use std::collections::HashSet;

fn arena() -> PlanArena {
    PlanArena::new(&TableArenaCell::default())
}

fn column(name: &str) -> ColumnCatalog {
    ColumnCatalog::new(
        name.to_string(),
        true,
        ColumnDesc::new(LogicalType::Integer, None, false, None).unwrap(),
    )
}

fn column_expr(position: usize, arena: &mut PlanArena) -> ExprRef {
    let column = arena.alloc_column(column("c"));
    arena.alloc_expression(ScalarExpression::ColumnRef { column, position })
}

fn position(expr: ExprRef, arena: &PlanArena) -> usize {
    match arena.expression(expr) {
        ScalarExpression::ColumnRef { position, .. } => *position,
        other => unreachable!("{other:?}"),
    }
}

fn dummy() -> LogicalPlan {
    LogicalPlan::new(Operator::Dummy, Childrens::Leaf)
}

fn row(values: &[i32]) -> Tuple {
    Tuple::new(None, values.iter().map(|value| DataValue::Int32(*value)).collect())
}

#[test]
fn delivered_row_stays_until_the_next_one() {
    let mut exec: ExecArena<'_, NoRows> = ExecArena::new();
    exec.produce_tuple(row(&[1, 2]));
    assert_eq!(exec.result_tuple(), &row(&[1, 2]));
    exec.result_tuple_mut().values.pop();
    assert_eq!(exec.result_tuple(), &row(&[1]));
    exec.finish();
    assert_eq!(exec.result_tuple(), &row(&[1]));
}

#[test]
fn recursive_rows_are_handed_over_once() {
    let mut exec: ExecArena<'_, NoRows> = ExecArena::new();
    exec.set_recursive_input(RecursiveInput {
        tuples: vec![row(&[1]), row(&[2])],
    });
    assert_eq!(
        exec.take_recursive_input(),
        RecursiveInput {
            tuples: vec![row(&[1]), row(&[2])],
        }
    );
    exec.set_recursive_input(RecursiveInput { tuples: vec![] });
    exec.reset_for_rebuild();
    exec.set_recursive_input(RecursiveInput {
        tuples: vec![row(&[3])],
    });
    assert_eq!(exec.take_recursive_input().tuples, vec![row(&[3])]);
}

#[test]
fn projection_buffer_starts_empty() {
    let mut exec: ExecArena<'_, NoRows> = ExecArena::new();
    for _ in 0..2 {
        let filled = exec.with_projection_tmp(|_, buffer| {
            let before = buffer.len();
            buffer.push(DataValue::Int32(1));
            Ok((before, buffer.len()))
        });
        assert_eq!(filled, Ok((0, 1)));
    }
    let failed: Result<(), DatabaseError> =
        exec.with_projection_tmp(|_, _| Err(DatabaseError::TooLong));
    assert_eq!(failed, Err(DatabaseError::TooLong));
}

#[test]
fn projected_values_form_a_key() {
    let mut exec: ExecArena<'_, NoRows> = ExecArena::new();
    exec.produce_tuple(row(&[7, 8]));
    let eval = |expr: &ScalarExpression, tuple: &Tuple| match expr {
        ScalarExpression::ColumnRef { position, .. } => Ok(tuple.values[*position].clone()),
        _ => Err(DatabaseError::TooLong),
    };
    let read = |position: usize| ScalarExpression::ColumnRef {
        column: ColumnRef(0),
        position,
    };
    let mut seen = Vec::new();

    // Over the current row, several values become one key.
    let res = with_projection_tmp_value(
        &mut exec,
        None,
        &vec![read(1), read(0)],
        eval,
        |_, value| {
            seen.push(value);
            Ok(())
        },
    );
    assert_eq!(res, Ok(()));
    // Over a given row, one value is the key itself.
    let res = with_projection_tmp_value(
        &mut exec,
        Some(&row(&[9])),
        &vec![read(0)],
        eval,
        |_, value| {
            seen.push(value);
            Ok(())
        },
    );
    assert_eq!(res, Ok(()));
    // Without expressions, and after a failure, nothing is handed on.
    let res = with_projection_tmp_value(&mut exec, None, &vec![], eval, |_, value| {
        seen.push(value);
        Ok(())
    });
    assert_eq!(res, Ok(()));
    let res = with_projection_tmp_value(
        &mut exec,
        None,
        &vec![read(0), ScalarExpression::Empty],
        eval,
        |_, value| {
            seen.push(value);
            Ok(())
        },
    );
    assert_eq!(res, Err(DatabaseError::TooLong));
    assert_eq!(
        seen,
        vec![
            DataValue::Tuple(vec![DataValue::Int32(8), DataValue::Int32(7)], false),
            DataValue::Int32(9),
        ]
    );
}

#[test]
fn mark_applies_are_built_over_both_inputs() {
    let mut arena = arena();
    let mark = arena.alloc_column(column("mark"));
    let predicate = column_expr(0, &mut arena);
    let probe = column_expr(1, &mut arena);

    let exists = MarkApplyOperator::build_exists(dummy(), dummy(), mark, vec![predicate]);
    let any = MarkApplyOperator::build_in(dummy(), dummy(), mark, vec![predicate]);
    let all = MarkApplyOperator::build_quantified(
        dummy(),
        dummy(),
        MarkApplyQuantifier::All,
        mark,
        vec![predicate],
    );
    let mut names = Vec::new();
    for plan in [&exists, &any, &all] {
        let Operator::MarkApply(op) = &plan.operator else {
            unreachable!("expected a mark apply");
        };
        assert_eq!(*op.output_column(), mark);
        assert_eq!(op.predicates(), &vec![predicate]);
        assert_eq!(op.parameterized_probe(), None);
        assert!(matches!(&*plan.childrens, Childrens::Twins { .. }));
        names.push(op.to_string());
    }
    assert_eq!(names, ["MarkExistsApply", "MarkAnyApply", "MarkAllApply"]);

    assert_eq!(
        MarkApplyOperator::new_in(mark, vec![]),
        MarkApplyOperator::new_quantified(MarkApplyQuantifier::Any, mark, vec![])
    );
    let mut join = MarkApplyOperator::new_inner_join(vec![], probe);
    assert_eq!(join.to_string(), "InnerJoinApply");
    assert_eq!(join.parameterized_probe(), Some(&probe));
    join.predicates_mut().push(predicate);
    assert_eq!(join.predicates(), &vec![predicate]);
    join.set_parameterized_probe(None);
    assert_eq!(join.parameterized_probe(), None);
}

#[test]
fn positions_close_up_over_removed_columns() -> Result<(), DatabaseError> {
    let mut arena = arena();
    let low = column_expr(0, &mut arena);
    let high = column_expr(4, &mut arena);
    let both = arena.alloc_expression(ScalarExpression::Tuple(vec![low, high, high]));
    let mut visited = HashSet::new();
    remap_expr_positions(both, &[1, 2], &mut visited, &mut arena)?;
    assert_eq!(position(low, &arena), 0);
    // The shared operand moves once.
    assert_eq!(position(high, &arena), 2);

    let other = column_expr(3, &mut arena);
    let mut visited = HashSet::new();
    remap_exprs_positions(&vec![other, other, high], &[0], &mut visited, &mut arena)?;
    assert_eq!(position(other, &arena), 2);
    assert_eq!(position(high, &arena), 1);
    assert_eq!(position(low, &arena), 0);
    Ok(())
}

#[test]
fn free_positions_are_used_again() {
    let mut tables = TableArena::default();
    let first = tables.alloc_column(column("a"));
    let second = tables.alloc_column(column("b"));
    let third = tables.alloc_column(column("c"));
    assert_eq!((first, second, third), (ColumnRef(0), ColumnRef(1), ColumnRef(2)));

    tables.recycle_unreferenced_positions(&HashSet::from([first.pos(), third.pos()]));
    assert_eq!(tables.alloc_column(column("d")), second);
    assert_eq!(tables.alloc_column(column("e")), ColumnRef(3));
}

/// An executor that delivers a row, fails, notes nothing, ends, and delivers rows from then on.
struct Steps {
    calls: usize,
}

impl ExecutorNode<()> for Steps {
    fn builds(
        _input: ExecInput,
        _context: ExecutionContext<'_>,
        _transaction: (),
        _before: Building<Self>,
        _after: Building<Self>,
        _id: ExecId,
    ) -> bool {
        unreachable!()
    }

    fn pulls(
        _before: Running<Self, ()>,
        _after: Running<Self, ()>,
        _res: Result<(), DatabaseError>,
    ) -> bool {
        unreachable!()
    }

    fn into_executor(
        _input: ExecInput,
        _arena: &mut ExecArena<'_, Self>,
        _plan_arena: &mut PlanArena,
        _context: ExecutionContext<'_>,
        _transaction: &(),
    ) -> ExecId {
        unreachable!()
    }

    fn next_tuple(
        &mut self,
        arena: &mut ExecArena<'_, Self>,
        _plan_arena: &mut PlanArena,
        _transaction: &mut (),
    ) -> Result<(), DatabaseError> {
        self.calls += 1;
        match self.calls {
            2 => return Err(DatabaseError::TooLong),
            3 => {}
            4 => arena.finish(),
            _ => arena.produce_tuple(row(&[self.calls as i32])),
        }
        Ok(())
    }
}

#[test]
fn executor_is_back_after_each_call() {
    let mut exec: ExecArena<'_, Steps> = ExecArena::new();
    let mut plan_arena = arena();
    let id = exec.push(ExecNode::Dummy(Steps { calls: 0 }));
    assert!(exec.next_tuple(id, &mut plan_arena, &mut ()).unwrap());
    assert_eq!(exec.result_tuple(), &row(&[1]));
    assert!(matches!(
        exec.next_tuple(id, &mut plan_arena, &mut ()),
        Err(DatabaseError::TooLong)
    ));
    // What was noted before the call has no effect.
    exec.resume();
    assert!(!exec.next_tuple(id, &mut plan_arena, &mut ()).unwrap());
    exec.resume();
    assert!(!exec.next_tuple(id, &mut plan_arena, &mut ()).unwrap());
    assert!(exec.next_tuple(id, &mut plan_arena, &mut ()).unwrap());
    assert_eq!(exec.result_tuple(), &row(&[5]));
}
