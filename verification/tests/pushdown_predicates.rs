use kite_sql::catalog::{ColumnCatalog, ColumnDesc, ColumnRef, TableName};
use kite_sql::errors::DatabaseError;
use kite_sql::expression::range_detacher::{Bound, Range, RangeDetacher};
use kite_sql::expression::{BinaryOperator, ScalarExpression};
use kite_sql::optimizer::heuristic::batch::HepBatchStrategy;
use kite_sql::optimizer::heuristic::optimizer::{
    HepOptimizerPipeline, HepOptimizerPipelineBuilder,
};
use kite_sql::optimizer::rule::implementation::{
    BestPhysicalOption, CostModel, ImplementationRuleImpl, NoStatistics,
};
use kite_sql::optimizer::rule::normalization::pushdown_predicates::PushPredicateThroughJoin;
use kite_sql::optimizer::rule::normalization::scan_predicates::PushPredicateIntoScan;
use kite_sql::optimizer::rule::normalization::{NoRules, NormalizationRuleImpl};
use kite_sql::planner::arena::{ArenaView, ExprRef, PlanArena, TableArenaCell};
use kite_sql::planner::operator::filter::FilterOperator;
use kite_sql::planner::operator::join::{JoinCondition, JoinOperator, JoinType};
use kite_sql::planner::operator::project::ProjectOperator;
use kite_sql::planner::operator::sort::SortField;
use kite_sql::planner::operator::table_scan::TableScanOperator;
use kite_sql::planner::operator::{
    Operator, OperatorView, PhysicalOption, PhysicalOptionView, PlanImpl, SortOption,
};
use kite_sql::planner::{Childrens, LogicalPlan};
use kite_sql::types::index::{IndexInfo, IndexLookup, IndexMeta, IndexType};
use kite_sql::types::value::DataValue;
use kite_sql::types::{ColumnId, LogicalType};

/// The scan of a table of two integer columns: a primary key, and a unique column.
fn scan(arena: &mut PlanArena, table: &str, names: [&str; 2]) -> Result<LogicalPlan, DatabaseError> {
    let table_name: TableName = table.to_string();
    let mut columns = Vec::new();
    let mut index_infos = Vec::new();
    for (id, name) in names.iter().enumerate() {
        let desc = if id == 0 {
            ColumnDesc::new(LogicalType::Integer, Some(0), false, None)?
        } else {
            ColumnDesc::new(LogicalType::Integer, None, true, None)?
        };
        let mut column = ColumnCatalog::new(name.to_string(), false, desc);
        column.set_ref_table(table_name.clone(), id as ColumnId, false);
        let column = arena.alloc_column(column);
        columns.push(column);
        let meta = arena.alloc_index(IndexMeta {
            id: id as u32,
            column_ids: vec![id as ColumnId],
            table_name: table_name.clone(),
            pk_ty: LogicalType::Integer,
            value_ty: LogicalType::Integer,
            name: format!("index_{name}"),
            ty: if id == 0 {
                IndexType::PrimaryKey { is_multiple: false }
            } else {
                IndexType::Unique
            },
        });
        let field = SortField::new(
            arena.alloc_expression(ScalarExpression::column_expr(column, id)),
            true,
            false,
        );
        index_infos.push(IndexInfo {
            meta,
            sort_option: SortOption::OrderBy {
                fields: vec![field],
                ignore_prefix_len: 0,
            },
            lookup: None,
            residual_predicate: None,
            covered_deserializers: None,
            cover_mapping: None,
            sort_elimination_hint: None,
            stream_aggregate_hint: None,
        });
    }
    // The unique index comes first.
    index_infos.reverse();
    Ok(LogicalPlan::new(
        Operator::TableScan(TableScanOperator {
            table_name,
            columns,
            limit: (None, None),
            index_infos,
            with_pk: false,
        }),
        Childrens::Leaf,
    ))
}

fn scan_columns(plan: &LogicalPlan) -> Vec<ColumnRef> {
    match &plan.operator {
        Operator::TableScan(op) => op.columns.clone(),
        _ => unreachable!("expected table scan"),
    }
}

fn project(arena: &mut PlanArena, columns: &[ColumnRef], plan: LogicalPlan) -> LogicalPlan {
    let mut exprs = Vec::new();
    for (position, column) in columns.iter().enumerate() {
        exprs.push(arena.alloc_expression(ScalarExpression::column_expr(*column, position)));
    }
    LogicalPlan::new(
        Operator::Project(ProjectOperator { exprs }),
        Childrens::Only(Box::new(plan)),
    )
}

/// select * from t1 where c2 > 1
fn filtered_scan(arena: &mut PlanArena) -> Result<LogicalPlan, DatabaseError> {
    let t1 = scan(arena, "t1", ["c1", "c2"])?;
    let columns = scan_columns(&t1);
    let predicate = cmp_predicate(arena, BinaryOperator::Gt, columns[1], 1, 1);
    let filter = FilterOperator::build(predicate, t1, false);
    Ok(project(arena, &columns, filter))
}

/// select * from t1 join t2 on c1 = c3, with c1 > 1 and c3 < 2 in the condition or above it.
fn join_plan(
    arena: &mut PlanArena,
    join_type: JoinType,
    left_in_condition: bool,
    right_in_condition: bool,
    above: bool,
) -> Result<LogicalPlan, DatabaseError> {
    let t1 = scan(arena, "t1", ["c1", "c2"])?;
    let t2 = scan(arena, "t2", ["c3", "c4"])?;
    let left = scan_columns(&t1);
    let right = scan_columns(&t2);
    let columns = vec![left[0], left[1], right[0], right[1]];
    let on = vec![(
        arena.alloc_expression(ScalarExpression::column_expr(left[0], 0)),
        arena.alloc_expression(ScalarExpression::column_expr(right[0], 2)),
    )];
    let mut filters = Vec::new();
    if left_in_condition {
        filters.push(cmp_predicate(arena, BinaryOperator::Gt, left[0], 0, 1));
    }
    if right_in_condition {
        filters.push(cmp_predicate(arena, BinaryOperator::Lt, right[0], 2, 2));
    }
    let filter = match filters[..] {
        [] => None,
        [only] => Some(only),
        [first, second] => Some(and_predicate(arena, first, second)),
        _ => unreachable!("at most two conditions"),
    };
    let mut plan = JoinOperator::build(t1, t2, JoinCondition::On { on, filter }, join_type, false);
    if above {
        let gt = cmp_predicate(arena, BinaryOperator::Gt, left[0], 0, 1);
        let lt = cmp_predicate(arena, BinaryOperator::Lt, right[0], 2, 2);
        let predicate = and_predicate(arena, gt, lt);
        plan = FilterOperator::build(predicate, plan, false);
    }
    Ok(project(arena, &columns, plan))
}

fn apply_pipeline(
    plan: LogicalPlan,
    builder: HepOptimizerPipelineBuilder,
    arena: &mut PlanArena,
) -> Result<LogicalPlan, DatabaseError> {
    builder.build().instantiate(plan).find_best(None::<&NoStatistics>, arena, &NoRules)
}

fn build_test_column(
    arena: &mut PlanArena,
    table_name: &TableName,
    id: ColumnId,
    name: &str,
) -> Result<ColumnRef, DatabaseError> {
    let mut column = ColumnCatalog::new(
        name.to_string(),
        false,
        ColumnDesc::new(LogicalType::Integer, None, false, None)?,
    );
    column.set_ref_table(table_name.clone(), id, false);
    Ok(arena.alloc_column(column))
}

fn cmp_predicate(
    arena: &mut PlanArena,
    op: BinaryOperator,
    column: ColumnRef,
    position: usize,
    value: i32,
) -> ExprRef {
    let left_expr = arena.alloc_expression(ScalarExpression::column_expr(column, position));
    let right_expr =
        arena.alloc_expression(ScalarExpression::Constant(DataValue::Int32(value)));
    arena.alloc_expression(ScalarExpression::Binary {
        op,
        left_expr,
        right_expr,
        evaluator: None,
        ty: LogicalType::Boolean,
    })
}

fn and_predicate(arena: &mut PlanArena, left: ExprRef, right: ExprRef) -> ExprRef {
    arena.alloc_expression(ScalarExpression::Binary {
        op: BinaryOperator::And,
        left_expr: left,
        right_expr: right,
        evaluator: None,
        ty: LogicalType::Boolean,
    })
}

#[test]
fn test_push_predicate_into_scan() -> Result<(), DatabaseError> {
    let table_arena = TableArenaCell::default();
    let mut arena = PlanArena::new(&table_arena);
    let plan = filtered_scan(&mut arena)?;

    let best_plan = apply_pipeline(
        plan,
        HepOptimizerPipeline::builder()
            .before_batch(
                "simplify_filter".to_string(),
                HepBatchStrategy::once_topdown(),
                vec![NormalizationRuleImpl::SimplifyFilter],
            )
            .before_batch(
                "test_push_predicate_into_scan".to_string(),
                HepBatchStrategy::once_topdown(),
                vec![NormalizationRuleImpl::PushPredicateIntoScan],
            ),
        &mut arena,
    )?;

    let scan_op = best_plan.childrens.pop_only().childrens.pop_only();
    if let Operator::TableScan(op) = &scan_op.operator {
        let mock_range = Range::Scope {
            min: Bound::Excluded(DataValue::Int32(1)),
            max: Bound::Unbounded,
        };

        assert_eq!(
            op.index_infos[0].lookup,
            Some(IndexLookup::Static(mock_range))
        );
    } else {
        unreachable!("Should be a filter operator")
    }

    Ok(())
}

#[test]
fn test_composite_range_consumes_prefix_equalities_continuously() -> Result<(), DatabaseError> {
    let table_name: TableName = "mock_table".to_string();
    let table_arena = TableArenaCell::default();
    let mut arena = PlanArena::new(&table_arena);
    let c1 = build_test_column(&mut arena, &table_name, 1, "c1")?;
    let c2 = build_test_column(&mut arena, &table_name, 2, "c2")?;
    let c3 = build_test_column(&mut arena, &table_name, 3, "c3")?;
    let c4 = build_test_column(&mut arena, &table_name, 4, "c4")?;
    let index_meta = arena.alloc_index(IndexMeta {
        id: 0,
        column_ids: vec![1, 2, 3],
        table_name: table_name.clone(),
        pk_ty: LogicalType::Integer,
        value_ty: LogicalType::Tuple(vec![
            LogicalType::Integer,
            LogicalType::Integer,
            LogicalType::Integer,
        ]),
        name: "idx_c1_c2_c3".to_string(),
        ty: IndexType::Composite,
    });
    let c1_eq = cmp_predicate(&mut arena, BinaryOperator::Eq, c1, 0, 1);
    let c2_eq = cmp_predicate(&mut arena, BinaryOperator::Eq, c2, 1, 2);
    let c3_eq = cmp_predicate(&mut arena, BinaryOperator::Eq, c3, 2, 3);
    let c4_eq = cmp_predicate(&mut arena, BinaryOperator::Eq, c4, 3, 4);
    let left = and_predicate(&mut arena, c1_eq, c2_eq);
    let right = and_predicate(&mut arena, c3_eq, c4_eq);
    let predicate = and_predicate(&mut arena, left, right);
    let filter = FilterOperator {
        predicate,
        is_optimized: false,
        having: false,
    };
    let mut ignore_prefix_len: usize = 0;

    let detached = PushPredicateIntoScan::composite_range(
        &filter,
        index_meta,
        &mut ignore_prefix_len,
        &mut arena,
    )?
    .expect("composite prefix should be consumed");

    assert_eq!(ignore_prefix_len, 3);
    assert_eq!(
        detached.range,
        Range::Eq(DataValue::Tuple(
            vec![
                DataValue::Int32(1),
                DataValue::Int32(2),
                DataValue::Int32(3),
            ],
            false,
        ))
    );
    let residual = detached.residual.expect("c4 predicate should remain");
    let residual_detached = RangeDetacher::new(table_name.as_str(), &4, &mut arena)
        .detach(residual)?
        .expect("residual should be the c4 predicate");
    assert_eq!(residual_detached.range, Range::Eq(DataValue::Int32(4)));
    assert_eq!(residual_detached.residual, None);

    Ok(())
}

#[test]
fn composite_range_starts_with_each_alternative() -> Result<(), DatabaseError> {
    let table_name: TableName = "mock_table".to_string();
    let table_arena = TableArenaCell::default();
    let mut arena = PlanArena::new(&table_arena);
    let c1 = build_test_column(&mut arena, &table_name, 1, "c1")?;
    let c2 = build_test_column(&mut arena, &table_name, 2, "c2")?;
    let index_meta = arena.alloc_index(IndexMeta {
        id: 0,
        column_ids: vec![1, 2],
        table_name: table_name.clone(),
        pk_ty: LogicalType::Integer,
        value_ty: LogicalType::Tuple(vec![LogicalType::Integer, LogicalType::Integer]),
        name: "idx_c1_c2".to_string(),
        ty: IndexType::Composite,
    });
    // (c1 = 7 or c1 = 1) and c2 > 3
    let seven = cmp_predicate(&mut arena, BinaryOperator::Eq, c1, 0, 7);
    let one = cmp_predicate(&mut arena, BinaryOperator::Eq, c1, 0, 1);
    let either = arena.alloc_expression(ScalarExpression::Binary {
        op: BinaryOperator::Or,
        left_expr: seven,
        right_expr: one,
        evaluator: None,
        ty: LogicalType::Boolean,
    });
    let above = cmp_predicate(&mut arena, BinaryOperator::Gt, c2, 1, 3);
    let filter = FilterOperator {
        predicate: and_predicate(&mut arena, either, above),
        is_optimized: false,
        having: false,
    };
    let mut ignore_prefix_len: usize = 0;

    let detached = PushPredicateIntoScan::composite_range(
        &filter,
        index_meta,
        &mut ignore_prefix_len,
        &mut arena,
    )?
    .expect("both columns should be consumed");

    let key = |values: &[i32], upper: bool| {
        DataValue::Tuple(values.iter().map(|value| DataValue::Int32(*value)).collect(), upper)
    };
    assert_eq!(
        detached.range,
        Range::SortedRanges(vec![
            Range::Scope {
                min: Bound::Excluded(key(&[1, 3], true)),
                max: Bound::Excluded(key(&[1], true)),
            },
            Range::Scope {
                min: Bound::Excluded(key(&[7, 3], true)),
                max: Bound::Excluded(key(&[7], true)),
            },
        ])
    );
    assert_eq!(detached.residual, None);
    Ok(())
}

#[test]
fn test_composite_range_stops_consuming_after_first_non_equality() -> Result<(), DatabaseError>
{
    let table_name: TableName = "mock_table".to_string();
    let table_arena = TableArenaCell::default();
    let mut arena = PlanArena::new(&table_arena);
    let c1 = build_test_column(&mut arena, &table_name, 1, "c1")?;
    let c2 = build_test_column(&mut arena, &table_name, 2, "c2")?;
    let c3 = build_test_column(&mut arena, &table_name, 3, "c3")?;
    let index_meta = arena.alloc_index(IndexMeta {
        id: 0,
        column_ids: vec![1, 2, 3],
        table_name: table_name.clone(),
        pk_ty: LogicalType::Integer,
        value_ty: LogicalType::Tuple(vec![
            LogicalType::Integer,
            LogicalType::Integer,
            LogicalType::Integer,
        ]),
        name: "idx_c1_c2_c3".to_string(),
        ty: IndexType::Composite,
    });
    let c1_eq = cmp_predicate(&mut arena, BinaryOperator::Eq, c1, 0, 1);
    let c2_gt = cmp_predicate(&mut arena, BinaryOperator::Gt, c2, 1, 2);
    let c3_eq = cmp_predicate(&mut arena, BinaryOperator::Eq, c3, 2, 3);
    let prefix = and_predicate(&mut arena, c1_eq, c2_gt);
    let predicate = and_predicate(&mut arena, prefix, c3_eq);
    let filter = FilterOperator {
        predicate,
        is_optimized: false,
        having: false,
    };
    let mut ignore_prefix_len: usize = 0;

    let detached = PushPredicateIntoScan::composite_range(
        &filter,
        index_meta,
        &mut ignore_prefix_len,
        &mut arena,
    )?
    .expect("composite prefix should be consumed");

    assert_eq!(ignore_prefix_len, 1);
    assert_eq!(
        detached.range,
        Range::Scope {
            min: Bound::Excluded(DataValue::Tuple(
                vec![DataValue::Int32(1), DataValue::Int32(2)],
                true,
            )),
            max: Bound::Excluded(DataValue::Tuple(vec![DataValue::Int32(1)], true)),
        }
    );
    let residual = detached.residual.expect("c3 predicate should remain");
    let residual_detached = RangeDetacher::new(table_name.as_str(), &3, &mut arena)
        .detach(residual)?
        .expect("residual should be the c3 predicate");
    assert_eq!(residual_detached.range, Range::Eq(DataValue::Int32(3)));
    assert_eq!(residual_detached.residual, None);

    Ok(())
}

#[test]
fn test_cover_mapping_matches_scan_order() -> Result<(), DatabaseError> {
    let table_name: TableName = "mock_table".to_string();
    let table_arena = TableArenaCell::default();
    let mut arena = PlanArena::new(&table_arena);
    let c1_id = 1;
    let c2_id = 2;
    let c3_id = 3;

    let mut c1 = ColumnCatalog::new(
        "c1".to_string(),
        false,
        ColumnDesc::new(LogicalType::Integer, Some(0), false, None)?,
    );
    c1.set_ref_table(table_name.clone(), c1_id, false);
    let c1_ref = arena.alloc_column(c1);

    let mut c2 = ColumnCatalog::new(
        "c2".to_string(),
        false,
        ColumnDesc::new(LogicalType::Integer, None, false, None)?,
    );
    c2.set_ref_table(table_name.clone(), c2_id, false);
    let c2_ref = arena.alloc_column(c2);

    let mut c3 = ColumnCatalog::new(
        "c3".to_string(),
        false,
        ColumnDesc::new(LogicalType::Integer, None, false, None)?,
    );
    c3.set_ref_table(table_name.clone(), c3_id, false);

    let columns = vec![c1_ref, c2_ref];

    let index_meta_reordered = arena.alloc_index(IndexMeta {
        id: 0,
        column_ids: vec![c2_id, c3_id, c1_id],
        table_name: table_name.clone(),
        pk_ty: LogicalType::Integer,
        value_ty: LogicalType::Tuple(vec![
            LogicalType::Integer,
            LogicalType::Integer,
            LogicalType::Integer,
        ]),
        name: "idx_c2_c3_c1".to_string(),
        ty: IndexType::Composite,
    });
    let index_meta_aligned = arena.alloc_index(IndexMeta {
        id: 1,
        column_ids: vec![c1_id, c2_id],
        table_name: table_name.clone(),
        pk_ty: LogicalType::Integer,
        value_ty: LogicalType::Tuple(vec![LogicalType::Integer, LogicalType::Integer]),
        name: "idx_c1_c2".to_string(),
        ty: IndexType::Composite,
    });

    let scan_plan = LogicalPlan::new(
        Operator::TableScan(TableScanOperator {
            table_name,
            columns,
            limit: (None, None),
            index_infos: vec![
                IndexInfo {
                    meta: index_meta_reordered,
                    sort_option: SortOption::OrderBy {
                        fields: vec![],
                        ignore_prefix_len: 0,
                    },
                    lookup: None,
                    residual_predicate: None,
                    covered_deserializers: None,
                    cover_mapping: None,
                    sort_elimination_hint: None,
                    stream_aggregate_hint: None,
                },
                IndexInfo {
                    meta: index_meta_aligned,
                    sort_option: SortOption::OrderBy {
                        fields: vec![],
                        ignore_prefix_len: 0,
                    },
                    lookup: None,
                    residual_predicate: None,
                    covered_deserializers: None,
                    cover_mapping: None,
                    sort_elimination_hint: None,
                    stream_aggregate_hint: None,
                },
            ],
            with_pk: false,
        }),
        Childrens::Leaf,
    );

    let c1_gt = cmp_predicate(&mut arena, BinaryOperator::Gt, c1_ref, 0, 0);
    let c2_gt = cmp_predicate(&mut arena, BinaryOperator::Gt, c2_ref, 1, 0);
    let predicate = and_predicate(&mut arena, c1_gt, c2_gt);

    let filter_plan = LogicalPlan::new(
        Operator::Filter(FilterOperator {
            predicate,
            is_optimized: false,
            having: false,
        }),
        Childrens::Only(Box::new(scan_plan)),
    );

    let best_plan = apply_pipeline(
        filter_plan,
        HepOptimizerPipeline::builder().before_batch(
            "push_cover_mapping".to_string(),
            HepBatchStrategy::once_topdown(),
            vec![NormalizationRuleImpl::PushPredicateIntoScan],
        ),
        &mut arena,
    )?;

    let table_scan = best_plan.childrens.pop_only();
    if let Operator::TableScan(op) = &table_scan.operator {
        let index_infos = &op.index_infos;
        assert_eq!(index_infos.len(), 2);

        // verify the first index (reordered scan columns) still uses mapping
        let reordered_index = &index_infos[0];
        let deserializers = reordered_index
            .covered_deserializers
            .as_ref()
            .expect("expected covering deserializers");
        assert_eq!(deserializers.len(), 3);
        assert_eq!(
            deserializers[0],
            arena.column(c2_ref).datatype().serializable(),
            "first serializer should align with c2"
        );
        assert_eq!(
            deserializers[1],
            c3.datatype().skip_serializable(),
            "non-projected index column should be skipped"
        );
        assert_eq!(
            deserializers[2],
            arena.column(c1_ref).datatype().serializable(),
            "last serializer should align with c1"
        );
        let mapping = reordered_index.cover_mapping.as_deref();
        assert_eq!(mapping, Some(&[2, 0][..]));

        // verify the second index matches scan order exactly so mapping is omitted
        let ordered_index = &index_infos[1];
        assert!(ordered_index.covered_deserializers.is_some());
        assert!(
            ordered_index.cover_mapping.is_none(),
            "mapping should be None when index/scan order already match"
        );
    } else {
        unreachable!("expected table scan");
    }

    Ok(())
}

#[test]
fn test_push_predicate_through_join_in_left_join() -> Result<(), DatabaseError> {
    let table_arena = TableArenaCell::default();
    let mut arena = PlanArena::new(&table_arena);
    let plan = join_plan(&mut arena, JoinType::LeftOuter, false, false, true)?;

    let best_plan = apply_pipeline(
        plan,
        HepOptimizerPipeline::builder().before_batch(
            "test_push_predicate_through_join".to_string(),
            HepBatchStrategy::once_topdown(),
            vec![NormalizationRuleImpl::PushPredicateThroughJoin],
        ),
        &mut arena,
    )?;

    let filter_op = best_plan.childrens.pop_only();
    if let Operator::Filter(op) = &filter_op.operator {
        match arena.expression(op.predicate) {
            ScalarExpression::Binary {
                op: BinaryOperator::Lt,
                ty: LogicalType::Boolean,
                ..
            } => (),
            _ => unreachable!(),
        }
    } else {
        unreachable!("Should be a filter operator")
    }

    let filter_op = filter_op.childrens.pop_only().childrens.pop_twins().0;
    if let Operator::Filter(op) = &filter_op.operator {
        match arena.expression(op.predicate) {
            ScalarExpression::Binary {
                op: BinaryOperator::Gt,
                ty: LogicalType::Boolean,
                ..
            } => (),
            _ => unreachable!(),
        }
    } else {
        unreachable!("Should be a filter operator")
    }

    Ok(())
}

#[test]
fn test_push_predicate_through_join_in_right_join() -> Result<(), DatabaseError> {
    let table_arena = TableArenaCell::default();
    let mut arena = PlanArena::new(&table_arena);
    let plan = join_plan(&mut arena, JoinType::RightOuter, false, false, true)?;

    let best_plan = apply_pipeline(
        plan,
        HepOptimizerPipeline::builder().before_batch(
            "test_push_predicate_through_join".to_string(),
            HepBatchStrategy::once_topdown(),
            vec![NormalizationRuleImpl::PushPredicateThroughJoin],
        ),
        &mut arena,
    )?;

    let filter_op = best_plan.childrens.pop_only();
    if let Operator::Filter(op) = &filter_op.operator {
        match arena.expression(op.predicate) {
            ScalarExpression::Binary {
                op: BinaryOperator::Gt,
                ty: LogicalType::Boolean,
                ..
            } => (),
            _ => unreachable!(),
        }
    } else {
        unreachable!("Should be a filter operator")
    }

    let filter_op = filter_op.childrens.pop_only().childrens.pop_twins().1;
    if let Operator::Filter(op) = &filter_op.operator {
        match arena.expression(op.predicate) {
            ScalarExpression::Binary {
                op: BinaryOperator::Lt,
                ty: LogicalType::Boolean,
                ..
            } => (),
            _ => unreachable!(),
        }
    } else {
        unreachable!("Should be a filter operator")
    }

    Ok(())
}

#[test]
fn test_push_predicate_through_join_in_inner_join() -> Result<(), DatabaseError> {
    let table_arena = TableArenaCell::default();
    let mut arena = PlanArena::new(&table_arena);
    let plan = join_plan(&mut arena, JoinType::Inner, false, false, true)?;

    let best_plan = apply_pipeline(
        plan,
        HepOptimizerPipeline::builder().before_batch(
            "test_push_predicate_through_join".to_string(),
            HepBatchStrategy::once_topdown(),
            vec![NormalizationRuleImpl::PushPredicateThroughJoin],
        ),
        &mut arena,
    )?;

    let join_op = best_plan.childrens.pop_only();
    if let Operator::Join(_) = &join_op.operator {
    } else {
        unreachable!("Should be a filter operator")
    }

    let (left_filter_op, right_filter_op) = join_op.childrens.pop_twins();
    if let Operator::Filter(op) = &left_filter_op.operator {
        match arena.expression(op.predicate) {
            ScalarExpression::Binary {
                op: BinaryOperator::Gt,
                ty: LogicalType::Boolean,
                ..
            } => (),
            _ => unreachable!(),
        }
    } else {
        unreachable!("Should be a filter operator")
    }

    if let Operator::Filter(op) = &right_filter_op.operator {
        match arena.expression(op.predicate) {
            ScalarExpression::Binary {
                op: BinaryOperator::Lt,
                ty: LogicalType::Boolean,
                ..
            } => (),
            _ => unreachable!(),
        }
    } else {
        unreachable!("Should be a filter operator")
    }

    Ok(())
}

/// c1 > 1 and (c2 = c4 and c1 = c3) above a join of t1 and t2; the last two need both inputs.
fn filtered_join(
    arena: &mut PlanArena,
    join_type: JoinType,
    condition: JoinCondition,
) -> Result<(LogicalPlan, [ExprRef; 3]), DatabaseError> {
    let t1 = scan(arena, "t1", ["c1", "c2"])?;
    let t2 = scan(arena, "t2", ["c3", "c4"])?;
    let left = scan_columns(&t1);
    let right = scan_columns(&t2);
    let one_sided = cmp_predicate(arena, BinaryOperator::Gt, left[0], 0, 1);
    let mut pair = |l: usize, r: usize| {
        let left_expr = arena.alloc_expression(ScalarExpression::column_expr(left[l], l));
        let right_expr = arena.alloc_expression(ScalarExpression::column_expr(right[r], 2 + r));
        arena.alloc_expression(ScalarExpression::Binary {
            op: BinaryOperator::Eq,
            left_expr,
            right_expr,
            evaluator: None,
            ty: LogicalType::Boolean,
        })
    };
    let first = pair(1, 1);
    let second = pair(0, 0);
    let both = and_predicate(arena, first, second);
    let predicate = and_predicate(arena, one_sided, both);
    let join = JoinOperator::build(t1, t2, condition, join_type, false);
    Ok((
        FilterOperator::build(predicate, join, false),
        [one_sided, first, second],
    ))
}

fn sides(expr: ExprRef, arena: &PlanArena) -> (ExprRef, ExprRef) {
    match arena.expression(expr) {
        ScalarExpression::Binary {
            op: BinaryOperator::And,
            left_expr,
            right_expr,
            ..
        } => (*left_expr, *right_expr),
        _ => unreachable!("expected a conjunction"),
    }
}

#[test]
fn inner_join_takes_what_needs_both_inputs() -> Result<(), DatabaseError> {
    let table_arena = TableArenaCell::default();
    let mut arena = PlanArena::new(&table_arena);
    let (mut plan, [one_sided, first, second]) =
        filtered_join(&mut arena, JoinType::Inner, JoinCondition::Nothing)?;

    assert!(PushPredicateThroughJoin.apply(&mut plan, &mut arena)?);

    let Operator::Join(join) = &plan.operator else {
        panic!("nothing stays above the join")
    };
    let JoinCondition::On { on, filter } = &join.on else {
        panic!("the join has a condition now")
    };
    assert!(on.is_empty());
    assert_eq!(sides(filter.unwrap(), &arena), (first, second));
    let (left, right) = plan.childrens.pop_twins();
    let Operator::Filter(filter) = &left.operator else {
        panic!("the first conjunct goes to the left input")
    };
    assert_eq!(filter.predicate, one_sided);
    assert!(!filter.is_optimized);
    assert!(!filter.having);
    assert!(matches!(right.operator, Operator::TableScan(_)));
    Ok(())
}

#[test]
fn inner_join_keeps_its_own_condition() -> Result<(), DatabaseError> {
    let table_arena = TableArenaCell::default();
    let mut arena = PlanArena::new(&table_arena);
    let own = arena.alloc_expression(ScalarExpression::Constant(DataValue::Boolean(true)));
    let key = arena.alloc_expression(ScalarExpression::Constant(DataValue::Int32(1)));
    let (mut plan, [_, first, second]) = filtered_join(
        &mut arena,
        JoinType::Inner,
        JoinCondition::On {
            on: vec![(key, key)],
            filter: Some(own),
        },
    )?;

    assert!(PushPredicateThroughJoin.apply(&mut plan, &mut arena)?);

    let Operator::Join(join) = &plan.operator else {
        panic!("nothing stays above the join")
    };
    let JoinCondition::On { on, filter } = &join.on else {
        unreachable!()
    };
    assert_eq!(on, &vec![(key, key)]);
    let (before, added) = sides(filter.unwrap(), &arena);
    assert_eq!(before, own);
    assert_eq!(sides(added, &arena), (first, second));
    Ok(())
}

#[test]
fn outer_join_leaves_what_needs_both_inputs_above() -> Result<(), DatabaseError> {
    for join_type in [JoinType::LeftOuter, JoinType::RightOuter] {
        let table_arena = TableArenaCell::default();
        let mut arena = PlanArena::new(&table_arena);
        let (mut plan, [one_sided, first, second]) =
            filtered_join(&mut arena, join_type, JoinCondition::Nothing)?;

        assert!(PushPredicateThroughJoin.apply(&mut plan, &mut arena)?);

        let Operator::Filter(filter) = &plan.operator else {
            panic!("the filter stays")
        };
        let (front, last) = sides(filter.predicate, &arena);
        if join_type == JoinType::LeftOuter {
            assert_eq!((front, last), (first, second));
        } else {
            // The left input may be padded, so nothing of it moves down.
            assert_eq!(sides(front, &arena), (first, second));
            assert_eq!(last, one_sided);
        }
        let join = plan.childrens.pop_only();
        let Operator::Join(join) = &join.operator else {
            panic!("the join stays")
        };
        assert!(matches!(join.on, JoinCondition::Nothing));
    }
    Ok(())
}

#[test]
fn batch_without_a_limit_runs_until_nothing_changes() -> Result<(), DatabaseError> {
    let mut shapes = Vec::new();
    for strategy in [
        HepBatchStrategy::LoopIfApplied,
        HepBatchStrategy::fix_point_topdown(10),
    ] {
        let table_arena = TableArenaCell::default();
        let mut arena = PlanArena::new(&table_arena);
        let (plan, _) = filtered_join(&mut arena, JoinType::Inner, JoinCondition::Nothing)?;
        let filtered = FilterOperator::build(
            arena.alloc_expression(ScalarExpression::Constant(DataValue::Boolean(true))),
            plan,
            false,
        );
        let best = apply_pipeline(
            filtered,
            HepOptimizerPipeline::builder().before_batch(
                "push".to_string(),
                strategy,
                vec![NormalizationRuleImpl::PushPredicateThroughJoin],
            ),
            &mut arena,
        )?;
        shapes.push(format!("{best:?}"));
    }
    assert_eq!(shapes[0], shapes[1]);
    Ok(())
}

#[test]
fn test_push_join_predicate_into_scan_inner_join() -> Result<(), DatabaseError> {
    let table_arena = TableArenaCell::default();
    let mut arena = PlanArena::new(&table_arena);
    let plan = join_plan(&mut arena, JoinType::Inner, true, true, false)?;

    let mut best_plan = apply_pipeline(
        plan,
        HepOptimizerPipeline::builder().before_batch(
            "push_join_predicate_into_scan".to_string(),
            HepBatchStrategy::once_topdown(),
            vec![NormalizationRuleImpl::PushJoinPredicateIntoScan],
        ),
        &mut arena,
    )?;

    if matches!(best_plan.operator, Operator::Project(_)) {
        best_plan = best_plan.childrens.pop_only();
    }

    let join_plan = best_plan;
    let join_op = match &join_plan.operator {
        Operator::Join(op) => op,
        _ => unreachable!("expected join root"),
    };

    match &join_op.on {
        JoinCondition::On { filter, .. } => assert!(
            filter.is_none(),
            "join filter should be removed after pushdown"
        ),
        JoinCondition::Nothing => unreachable!("expected join condition"),
    }

    let (left_child, right_child) = join_plan.childrens.pop_twins();

    if let Operator::Filter(left_filter) = &left_child.operator {
        match arena.expression(left_filter.predicate) {
            ScalarExpression::Binary {
                op: BinaryOperator::Gt,
                ty: LogicalType::Boolean,
                ..
            } => (),
            _ => unreachable!("left filter should be greater-than"),
        }
    } else {
        unreachable!("left child should be filter");
    }
    match left_child.childrens.pop_only().operator {
        Operator::TableScan(_) => (),
        _ => unreachable!("left filter child should be table scan"),
    }

    if let Operator::Filter(right_filter) = &right_child.operator {
        match arena.expression(right_filter.predicate) {
            ScalarExpression::Binary {
                op: BinaryOperator::Lt,
                ty: LogicalType::Boolean,
                ..
            } => (),
            _ => unreachable!("right filter should be less-than"),
        }
    } else {
        unreachable!("right child should be filter");
    }
    match right_child.childrens.pop_only().operator {
        Operator::TableScan(_) => (),
        _ => unreachable!("right filter child should be table scan"),
    }

    Ok(())
}

#[test]
fn test_push_join_predicate_left_outer_preserve_left() -> Result<(), DatabaseError> {
    let table_arena = TableArenaCell::default();
    let mut arena = PlanArena::new(&table_arena);
    let plan = join_plan(&mut arena, JoinType::LeftOuter, true, false, false)?;

    let mut best_plan = apply_pipeline(
        plan,
        HepOptimizerPipeline::builder().before_batch(
            "push_join_predicate_into_scan".to_string(),
            HepBatchStrategy::once_topdown(),
            vec![NormalizationRuleImpl::PushJoinPredicateIntoScan],
        ),
        &mut arena,
    )?;

    if matches!(best_plan.operator, Operator::Project(_)) {
        best_plan = best_plan.childrens.pop_only();
    }

    let join_plan = best_plan;
    let join_op = match &join_plan.operator {
        Operator::Join(op) => op,
        _ => unreachable!("expected join root"),
    };

    assert!(matches!(join_op.join_type, JoinType::LeftOuter));

    match &join_op.on {
        JoinCondition::On { filter, .. } => assert!(
            filter.is_some(),
            "left-side predicate should remain in join filter"
        ),
        JoinCondition::Nothing => unreachable!("expected join condition"),
    }

    let (left_child, _right_child) = join_plan.childrens.pop_twins();
    assert!(
        !matches!(left_child.operator, Operator::Filter(_)),
        "left child should not introduce new filter"
    );

    Ok(())
}

#[test]
fn test_push_join_predicate_left_outer_push_right() -> Result<(), DatabaseError> {
    let table_arena = TableArenaCell::default();
    let mut arena = PlanArena::new(&table_arena);
    let plan = join_plan(&mut arena, JoinType::LeftOuter, false, true, false)?;

    let mut best_plan = apply_pipeline(
        plan,
        HepOptimizerPipeline::builder().before_batch(
            "push_join_predicate_into_scan".to_string(),
            HepBatchStrategy::once_topdown(),
            vec![NormalizationRuleImpl::PushJoinPredicateIntoScan],
        ),
        &mut arena,
    )?;

    if matches!(best_plan.operator, Operator::Project(_)) {
        best_plan = best_plan.childrens.pop_only();
    }

    let join_plan = best_plan;

    let join_op = match &join_plan.operator {
        Operator::Join(op) => op,
        _ => unreachable!("expected join root"),
    };

    assert!(matches!(join_op.join_type, JoinType::LeftOuter));
    match &join_op.on {
        JoinCondition::On { filter, .. } => assert!(
            filter.is_none(),
            "right-side predicate should be pushed down"
        ),
        JoinCondition::Nothing => unreachable!("expected join condition"),
    }

    let (_left_child, right_child) = join_plan.childrens.pop_twins();
    let filter_op = match right_child.operator {
        Operator::Filter(ref op) => op,
        _ => unreachable!("right child should be a filter"),
    };
    match arena.expression(filter_op.predicate) {
        ScalarExpression::Binary {
            op: BinaryOperator::Lt,
            ty: LogicalType::Boolean,
            ..
        } => (),
        _ => unreachable!("right filter should be less-than predicate"),
    }
    match right_child.childrens.pop_only().operator {
        Operator::TableScan(_) => (),
        _ => unreachable!("filter child should be a table scan"),
    }

    Ok(())
}

/// A model that knows how many rows there are, and how many of them each range selects.
struct RowCounts {
    rows: usize,
    selected: usize,
}

impl CostModel for RowCounts {
    fn improves(
        &self,
        _rule: ImplementationRuleImpl,
        _operator: OperatorView,
        _arena: ArenaView,
        _before: Option<(PhysicalOptionView, Option<usize>)>,
        _after: Option<(PhysicalOptionView, Option<usize>)>,
        _res: Result<(), DatabaseError>,
    ) -> bool {
        unreachable!()
    }

    fn update_best_option(
        &self,
        rule: ImplementationRuleImpl,
        operator: &Operator,
        _arena: &PlanArena,
        best: &mut BestPhysicalOption,
    ) -> Result<(), DatabaseError> {
        let Operator::TableScan(op) = operator else {
            return Ok(());
        };
        let mut offers = Vec::new();
        if rule == ImplementationRuleImpl::SeqScan {
            let option = PhysicalOption::new(PlanImpl::SeqScan, SortOption::Nothing);
            offers.push((option, self.rows));
        }
        if rule == ImplementationRuleImpl::IndexScan {
            for info in op.index_infos.iter().filter(|info| info.lookup.is_some()) {
                let option = PhysicalOption::new(
                    PlanImpl::IndexScan(Box::new(info.clone())),
                    info.sort_option.clone(),
                );
                offers.push((option, self.selected));
            }
        }
        for (option, cost) in offers {
            if best
                .as_ref()
                .map_or(true, |(_, known)| known.map_or(true, |known| cost < known))
            {
                *best = Some((option, Some(cost)));
            }
        }
        Ok(())
    }
}

#[test]
fn test_find_best_selects_cheapest_scan() -> Result<(), DatabaseError> {
    let table_arena = TableArenaCell::default();
    let mut plan_arena = PlanArena::new(&table_arena);
    let t1 = scan(&mut plan_arena, "t1", ["c1", "c2"])?;
    let t2 = scan(&mut plan_arena, "t2", ["c3", "c4"])?;
    let c1_column = scan_columns(&t1)[0];
    let c3_column = scan_columns(&t2)[0];
    let sort_fields = vec![SortField::new(
        plan_arena.alloc_expression(ScalarExpression::column_expr(c1_column, 0)),
        true,
        false,
    )];

    // select c1, c3 from t1 inner join t2 on c1 = c3 where (c1 > 40 or c1 = 2) and c3 > 22
    let on = vec![(
        plan_arena.alloc_expression(ScalarExpression::column_expr(c1_column, 0)),
        plan_arena.alloc_expression(ScalarExpression::column_expr(c3_column, 0)),
    )];
    let join = JoinOperator::build(
        t1,
        t2,
        JoinCondition::On { on, filter: None },
        JoinType::Inner,
        false,
    );
    let above = cmp_predicate(&mut plan_arena, BinaryOperator::Gt, c1_column, 0, 40);
    let equal = cmp_predicate(&mut plan_arena, BinaryOperator::Eq, c1_column, 0, 2);
    let either = plan_arena.alloc_expression(ScalarExpression::Binary {
        op: BinaryOperator::Or,
        left_expr: above,
        right_expr: equal,
        evaluator: None,
        ty: LogicalType::Boolean,
    });
    let right = cmp_predicate(&mut plan_arena, BinaryOperator::Gt, c3_column, 2, 22);
    let predicate = and_predicate(&mut plan_arena, either, right);
    let filter = FilterOperator::build(predicate, join, false);
    let plan = project(&mut plan_arena, &[c1_column, c3_column], filter);

    let pipeline = HepOptimizerPipeline::builder()
        .before_batch(
            "Simplify Filter".to_string(),
            HepBatchStrategy::once_topdown(),
            vec![NormalizationRuleImpl::SimplifyFilter],
        )
        .before_batch(
            "Predicate Pushdown".to_string(),
            HepBatchStrategy::fix_point_topdown(10),
            vec![
                NormalizationRuleImpl::PushPredicateThroughJoin,
                NormalizationRuleImpl::PushJoinPredicateIntoScan,
                NormalizationRuleImpl::PushPredicateIntoScan,
            ],
        )
        .after_batch(
            "Eliminate Index Filter".to_string(),
            HepBatchStrategy::once_topdown(),
            vec![NormalizationRuleImpl::EliminateIndexFilter],
        )
        .implementations(vec![
            ImplementationRuleImpl::Projection,
            ImplementationRuleImpl::Filter,
            ImplementationRuleImpl::HashJoin,
            ImplementationRuleImpl::SeqScan,
            ImplementationRuleImpl::IndexScan,
        ])
        .build();

    let best_plan = pipeline.instantiate(plan).find_best(
        Some(&RowCounts {
            rows: 1000,
            selected: 960,
        }),
        &mut plan_arena,
        &NoRules,
    )?;

    let join_plan = best_plan.childrens.pop_only();
    let left_scan = join_plan.childrens.pop_twins().0;
    assert!(matches!(left_scan.operator, Operator::TableScan(_)));
    let Some(physical_option) = left_scan.physical_option else {
        unreachable!("left scan should select index scan");
    };
    let PlanImpl::IndexScan(index_info) = &physical_option.plan else {
        unreachable!("left scan should select index scan");
    };
    assert_eq!(
        index_info.lookup,
        Some(IndexLookup::Static(Range::SortedRanges(vec![
            Range::Eq(DataValue::Int32(2)),
            Range::Scope {
                min: Bound::Excluded(DataValue::Int32(40)),
                max: Bound::Unbounded,
            }
        ])))
    );
    let SortOption::OrderBy {
        fields,
        ignore_prefix_len,
    } = physical_option.sort_option()
    else {
        panic!("index scan should preserve the requested order")
    };
    assert_eq!(*ignore_prefix_len, 0);
    assert_eq!(fields.len(), sort_fields.len());
    for (actual, expected) in fields.iter().zip(&sort_fields) {
        assert_eq!(actual.asc, expected.asc);
        assert_eq!(actual.nulls_first, expected.nulls_first);
        assert_eq!(
            plan_arena.expression(actual.expr),
            plan_arena.expression(expected.expr)
        );
    }

    Ok(())
}
