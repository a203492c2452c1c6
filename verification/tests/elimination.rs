use kite_sql::catalog::{ColumnCatalog, TableName};
use kite_sql::errors::DatabaseError;
use kite_sql::expression::range_detacher::{Bound, Range};
use kite_sql::expression::ScalarExpression;
use kite_sql::optimizer::rule::normalization::elimination::{
    apply_annotated_post_rules, groupby_sort_fields, mark_order_hint,
    mark_sort_preserving_indexes, EliminateIndexFilter, EliminateRedundantSort,
    ForceSpillAggregate, OrderHintKind, UseStreamAggregate,
};
use kite_sql::planner::arena::{ExprRef, PlanArena, TableArenaCell};
use kite_sql::planner::operator::aggregate::AggregateOperator;
use kite_sql::planner::operator::filter::FilterOperator;
use kite_sql::planner::operator::sort::{SortField, SortOperator};
use kite_sql::planner::operator::table_scan::TableScanOperator;
use kite_sql::planner::operator::top_k::TopKOperator;
use kite_sql::planner::operator::{Operator, PhysicalOption, PlanImpl, SortOption};
use kite_sql::planner::{Childrens, LogicalPlan};
use kite_sql::types::index::{IndexInfo, IndexLookup, IndexMeta, IndexType};
use kite_sql::types::value::DataValue;
use kite_sql::types::{ColumnId, LogicalType};

fn make_sort_field(arena: &mut PlanArena, name: &str) -> SortField {
    make_sort_field_with_position(arena, name, 0)
}

fn make_sort_field_with_position(
    arena: &mut PlanArena,
    name: &str,
    position: usize,
) -> SortField {
    let column = arena.alloc_column(ColumnCatalog::new_dummy(name.to_string()));
    SortField::new(
        arena.alloc_expression(ScalarExpression::column_expr(column, position)),
        true,
        false,
    )
}

fn build_plan(
    arena: &mut PlanArena,
    required_fields: Vec<SortField>,
    index_fields: Vec<SortField>,
    ignore_prefix_len: usize,
) -> LogicalPlan {
    let (index_info, index_sort_option) =
        build_index_info(arena, index_fields, ignore_prefix_len);

    let mut leaf = LogicalPlan::new(Operator::Dummy, Childrens::Leaf);
    leaf.physical_option = Some(PhysicalOption::new(
        PlanImpl::IndexScan(Box::new(index_info)),
        index_sort_option,
    ));

    let predicate =
        arena.alloc_expression(ScalarExpression::Constant(DataValue::Boolean(true)));
    let mut filter = LogicalPlan::new(
        Operator::Filter(FilterOperator {
            predicate,
            is_optimized: false,
            having: false,
        }),
        Childrens::Only(Box::new(leaf)),
    );
    filter.physical_option = Some(PhysicalOption::new(PlanImpl::Filter, SortOption::Follow));

    LogicalPlan::new(
        Operator::Sort(SortOperator {
            sort_fields: required_fields,
        }),
        Childrens::Only(Box::new(filter)),
    )
}

fn build_index_info(
    arena: &mut PlanArena,
    index_fields: Vec<SortField>,
    ignore_prefix_len: usize,
) -> (IndexInfo, SortOption) {
    let len = index_fields.len();
    let sort_option = SortOption::OrderBy {
        fields: index_fields,
        ignore_prefix_len,
    };
    let table_name: TableName = "t1".to_string();
    let meta = arena.alloc_index(IndexMeta {
        id: 1,
        column_ids: (1..=len as ColumnId).collect(),
        table_name,
        pk_ty: LogicalType::Integer,
        value_ty: LogicalType::Integer,
        name: "idx".to_string(),
        ty: IndexType::PrimaryKey {
            is_multiple: len > 1,
        },
    });
    let index_info = IndexInfo {
        meta,
        sort_option: sort_option.clone(),
        lookup: None,
        residual_predicate: None,
        covered_deserializers: None,
        cover_mapping: None,
        sort_elimination_hint: None,
        stream_aggregate_hint: None,
    };
    (index_info, sort_option)
}

fn build_filter_with_selected_index(
    arena: &mut PlanArena,
    predicate: ExprRef,
    residual: Option<ExprRef>,
) -> LogicalPlan {
    let column = arena.alloc_column(ColumnCatalog::new_dummy("c1".to_string()));
    let sort_field = SortField::new(
        arena.alloc_expression(ScalarExpression::column_expr(column, 0)),
        true,
        false,
    );
    let (mut index_info, sort_option) = build_index_info(arena, vec![sort_field], 0);
    index_info.lookup = Some(IndexLookup::Static(Range::Scope {
        min: Bound::Unbounded,
        max: Bound::Unbounded,
    }));
    index_info.residual_predicate = residual;

    let mut scan = LogicalPlan::new(
        Operator::TableScan(TableScanOperator {
            table_name: "t1".to_string(),
            columns: vec![column],
            limit: (None, None),
            index_infos: vec![index_info.clone()],
            with_pk: false,
        }),
        Childrens::Leaf,
    );
    scan.physical_option = Some(PhysicalOption::new(
        PlanImpl::IndexScan(Box::new(index_info)),
        sort_option,
    ));

    let mut filter = LogicalPlan::new(
        Operator::Filter(FilterOperator {
            predicate,
            is_optimized: false,
            having: false,
        }),
        Childrens::Only(Box::new(scan)),
    );
    filter.physical_option = Some(PhysicalOption::new(PlanImpl::Filter, SortOption::Follow));
    filter
}

fn build_distinct_scan_plan(
    arena: &mut PlanArena,
) -> (LogicalPlan, SortOption) {
    let table_name: TableName = "t1".to_string();
    let c1 = arena.alloc_column(ColumnCatalog::new_dummy("c1".to_string()));
    let c1_id = 1;
    let columns = vec![c1];

    let group_expr = arena.alloc_expression(ScalarExpression::column_expr(c1, 0));
    let sort_fields = vec![SortField::new(group_expr, true, false)];
    let sort_option = SortOption::OrderBy {
        fields: sort_fields,
        ignore_prefix_len: 0,
    };
    let index_info = IndexInfo {
        meta: arena.alloc_index(IndexMeta {
            id: 1,
            column_ids: vec![c1_id],
            table_name: table_name.clone(),
            pk_ty: LogicalType::Integer,
            value_ty: LogicalType::Integer,
            name: "idx".to_string(),
            ty: IndexType::PrimaryKey { is_multiple: false },
        }),
        sort_option: sort_option.clone(),
        lookup: None,
        residual_predicate: None,
        covered_deserializers: None,
        cover_mapping: None,
        sort_elimination_hint: None,
        stream_aggregate_hint: None,
    };

    let scan = LogicalPlan::new(
        Operator::TableScan(TableScanOperator {
            table_name,
            columns,
            limit: (None, None),
            index_infos: vec![index_info],
            with_pk: false,
        }),
        Childrens::Leaf,
    );

    let plan = LogicalPlan::new(
        Operator::Aggregate(AggregateOperator {
            groupby_exprs: vec![group_expr],
            agg_calls: vec![],
            is_distinct: true,
            force_spill: false,
        }),
        Childrens::Only(Box::new(scan)),
    );

    (plan, sort_option)
}

#[test]
fn exact_index_filter_is_removed_after_physical_selection() -> Result<(), DatabaseError> {
    let table_arena = TableArenaCell::default();
    let mut arena = PlanArena::new(&table_arena);
    let predicate =
        arena.alloc_expression(ScalarExpression::Constant(DataValue::Boolean(true)));
    let mut plan = build_filter_with_selected_index(&mut arena, predicate, None);

    let rule = EliminateIndexFilter;
    assert!(rule.apply(&mut plan, &arena)?);
    assert!(matches!(plan.operator, Operator::TableScan(_)));
    Ok(())
}

#[test]
fn partial_index_filter_keeps_residual_after_physical_selection() -> Result<(), DatabaseError> {
    let table_arena = TableArenaCell::default();
    let mut arena = PlanArena::new(&table_arena);
    let predicate =
        arena.alloc_expression(ScalarExpression::Constant(DataValue::Boolean(true)));
    let residual =
        arena.alloc_expression(ScalarExpression::Constant(DataValue::Boolean(false)));
    let mut plan = build_filter_with_selected_index(&mut arena, predicate, Some(residual));

    let rule = EliminateIndexFilter;
    assert!(rule.apply(&mut plan, &arena)?);
    let Operator::Filter(filter_op) = &plan.operator else {
        unreachable!("residual predicate should keep filter");
    };
    assert_eq!(filter_op.predicate, residual);
    Ok(())
}

#[test]
fn probe_index_filter_is_not_removed_after_physical_selection() -> Result<(), DatabaseError> {
    let table_arena = TableArenaCell::default();
    let mut arena = PlanArena::new(&table_arena);
    let predicate =
        arena.alloc_expression(ScalarExpression::Constant(DataValue::Boolean(true)));
    let stale_residual =
        arena.alloc_expression(ScalarExpression::Constant(DataValue::Boolean(false)));
    let mut plan =
        build_filter_with_selected_index(&mut arena, predicate, Some(stale_residual));
    // Physical annotation must leave the full predicate available for a later
    // parameterization rule, even when a static index initially won.
    apply_annotated_post_rules(&mut plan, &arena)?;
    let Operator::Filter(filter) = &plan.operator else {
        panic!("filter removed before parameterization")
    };
    assert_eq!(filter.predicate, predicate);
    let Childrens::Only(child) = plan.childrens.as_mut() else {
        unreachable!("filter should have a scan child");
    };
    let Operator::TableScan(scan_op) = &mut child.operator else {
        unreachable!("filter child should be a table scan");
    };
    scan_op.index_infos[0].lookup = Some(IndexLookup::Probe);
    let Some(physical_option) = child.physical_option.as_mut() else {
        unreachable!("scan should have selected physical option");
    };
    let PlanImpl::IndexScan(index_info) = &mut physical_option.plan else {
        unreachable!("scan should have selected index scan");
    };
    index_info.lookup = Some(IndexLookup::Probe);

    let rule = EliminateIndexFilter;
    assert!(!rule.apply(&mut plan, &arena)?);
    let Operator::Filter(filter) = &plan.operator else {
        panic!("probe cannot discharge the static filter")
    };
    assert_eq!(filter.predicate, predicate);
    Ok(())
}

#[test]
fn remove_sort_when_index_matches_order() -> Result<(), DatabaseError> {
    let table_arena = TableArenaCell::default();
    let mut arena = PlanArena::new(&table_arena);
    let sort_field = make_sort_field(&mut arena, "c1");
    let mut plan = build_plan(&mut arena, vec![sort_field.clone()], vec![sort_field], 0);
    let rule = EliminateRedundantSort;

    assert!(rule.apply(&mut plan, &arena)?);
    assert!(matches!(plan.operator, Operator::Filter(_)));
    Ok(())
}

#[test]
fn remove_topk_when_index_matches_order() -> Result<(), DatabaseError> {
    let table_arena = TableArenaCell::default();
    let mut arena = PlanArena::new(&table_arena);
    let sort_field = make_sort_field(&mut arena, "c1");
    let mut plan = build_plan(
        &mut arena,
        vec![sort_field.clone()],
        vec![sort_field.clone()],
        0,
    );
    plan.operator = Operator::TopK(TopKOperator {
        sort_fields: vec![sort_field],
        limit: 10,
        offset: Some(5),
    });
    let rule = EliminateRedundantSort;

    assert!(rule.apply(&mut plan, &arena)?);
    match plan.operator {
        Operator::Limit(limit_op) => {
            assert_eq!(limit_op.limit, Some(10));
            assert_eq!(limit_op.offset, Some(5));
        }
        _ => unreachable!("expected limit operator after removing topk"),
    }
    Ok(())
}

#[test]
fn remove_sort_when_prefix_can_be_ignored() -> Result<(), DatabaseError> {
    let table_arena = TableArenaCell::default();
    let mut arena = PlanArena::new(&table_arena);
    let c1 = make_sort_field(&mut arena, "c1");
    let c2 = make_sort_field(&mut arena, "c2");
    let mut plan = build_plan(&mut arena, vec![c2.clone()], vec![c1, c2.clone()], 1);
    mark_sort_preserving_indexes(&mut plan, &vec![c2], &arena);
    let rule = EliminateRedundantSort;

    assert!(rule.apply(&mut plan, &arena)?);
    Ok(())
}

#[test]
fn remove_topk_when_index_matches_same_column_with_different_positions(
) -> Result<(), DatabaseError> {
    let table_arena = TableArenaCell::default();
    let mut arena = PlanArena::new(&table_arena);
    let required = make_sort_field_with_position(&mut arena, "no_o_id", 0);
    let provided_prefix_1 = make_sort_field_with_position(&mut arena, "no_w_id", 0);
    let provided_prefix_2 = make_sort_field_with_position(&mut arena, "no_d_id", 1);
    let provided_target = make_sort_field_with_position(&mut arena, "no_o_id", 2);

    let mut plan = build_plan(
        &mut arena,
        vec![required.clone()],
        vec![provided_prefix_1, provided_prefix_2, provided_target],
        2,
    );
    plan.operator = Operator::TopK(TopKOperator {
        sort_fields: vec![required],
        limit: 1,
        offset: None,
    });

    let rule = EliminateRedundantSort;
    assert!(rule.apply(&mut plan, &arena)?);
    assert!(matches!(plan.operator, Operator::Limit(_)));
    Ok(())
}

#[test]
fn annotate_sets_sort_hint_on_table_scan() -> Result<(), DatabaseError> {
    let table_arena = TableArenaCell::default();
    let mut arena = PlanArena::new(&table_arena);
    let column = arena.alloc_column(ColumnCatalog::new_dummy("c1".to_string()));
    let sort_field = SortField::new(
        arena.alloc_expression(ScalarExpression::column_expr(column, 0)),
        true,
        false,
    );
    let (index_info, _) = build_index_info(&mut arena, vec![sort_field.clone()], 0);

    let columns = vec![column];
    let table_name: TableName = "t".to_string();
    let table_scan = LogicalPlan::new(
        Operator::TableScan(TableScanOperator {
            table_name,
            columns,
            limit: (None, None),
            index_infos: vec![index_info],
            with_pk: false,
        }),
        Childrens::Leaf,
    );

    let mut plan = LogicalPlan::new(
        Operator::Sort(SortOperator {
            sort_fields: vec![sort_field],
        }),
        Childrens::Only(Box::new(table_scan)),
    );

    let sort_fields = match &plan.operator {
        Operator::Sort(sort_op) => sort_op.sort_fields.clone(),
        _ => unreachable!("expected sort operator"),
    };
    mark_sort_preserving_indexes(&mut plan, &sort_fields, &arena);

    let table_plan = plan.childrens.pop_only();
    match table_plan.operator {
        Operator::TableScan(scan_op) => assert!(
            scan_op
                .index_infos
                .iter()
                .any(|info| info.sort_elimination_hint.is_some()),
            "expected sort elimination hint on at least one index"
        ),
        _ => unreachable!("expected table scan under sort"),
    }
    Ok(())
}

#[test]
fn annotate_sets_stream_aggregate_hint_on_table_scan() -> Result<(), DatabaseError> {
    let table_arena = TableArenaCell::default();
    let mut arena = PlanArena::new(&table_arena);
    let (mut plan, _) = build_distinct_scan_plan(&mut arena);
    let required = match &plan.operator {
        Operator::Aggregate(op) => groupby_sort_fields(&op.groupby_exprs),
        _ => unreachable!("expected aggregate operator"),
    };
    if let Childrens::Only(child) = plan.childrens.as_mut() {
        mark_order_hint(
            child,
            &required,
            OrderHintKind::StreamAggregate,
            &arena,
        );
    }

    let child = plan.childrens.pop_only();
    let Operator::TableScan(scan_op) = child.operator else {
        unreachable!()
    };

    assert_eq!(scan_op.index_infos.len(), 1);
    assert_eq!(
        scan_op.index_infos[0]
            .stream_aggregate_hint
            .map(|hint| hint.cover_num()),
        Some(1)
    );
    Ok(())
}

#[test]
fn use_stream_distinct_when_order_satisfied() -> Result<(), DatabaseError> {
    let table_arena = TableArenaCell::default();
    let mut arena = PlanArena::new(&table_arena);
    let (mut plan, sort_option) = build_distinct_scan_plan(&mut arena);
    if let Childrens::Only(child) = plan.childrens.as_mut() {
        if let Operator::TableScan(scan_op) = &child.operator {
            let index_info = scan_op.index_infos[0].clone();
            child.physical_option = Some(PhysicalOption::new(
                PlanImpl::IndexScan(Box::new(index_info)),
                sort_option,
            ));
        }
    }
    plan.physical_option = Some(PhysicalOption::new(
        PlanImpl::HashAggregate,
        SortOption::Nothing,
    ));

    let rule = UseStreamAggregate;
    assert!(rule.apply(&mut plan, &arena)?);
    assert!(matches!(
        plan.physical_option,
        Some(PhysicalOption {
            plan: PlanImpl::StreamDistinct,
            ..
        })
    ));
    Ok(())
}

#[test]
fn use_stream_aggregate_only_when_order_satisfied() -> Result<(), DatabaseError> {
    let table_arena = TableArenaCell::default();
    let mut arena = PlanArena::new(&table_arena);
    let (mut plan, sort_option) = build_distinct_scan_plan(&mut arena);
    let Operator::Aggregate(op) = &mut plan.operator else {
        unreachable!()
    };
    op.is_distinct = false;
    op.force_spill = true;
    let Childrens::Only(child) = plan.childrens.as_mut() else {
        unreachable!()
    };
    let Operator::TableScan(scan_op) = &child.operator else {
        unreachable!()
    };
    child.physical_option = Some(PhysicalOption::new(
        PlanImpl::IndexScan(Box::new(scan_op.index_infos[0].clone())),
        sort_option,
    ));
    plan.physical_option = Some(PhysicalOption::new(
        PlanImpl::HashAggregate,
        SortOption::Nothing,
    ));

    let rule = UseStreamAggregate;
    assert!(rule.apply(&mut plan, &arena)?);
    assert!(matches!(
        plan.physical_option,
        Some(PhysicalOption {
            plan: PlanImpl::StreamAggregate,
            ..
        })
    ));
    let force_spill = ForceSpillAggregate;
    assert!(!force_spill.apply(&mut plan, &arena)?);
    assert!(!matches!(
        plan.childrens.as_ref(),
        Childrens::Only(child) if matches!(child.operator, Operator::Sort(_))
    ));

    let (mut unordered, _) = build_distinct_scan_plan(&mut arena);
    let Operator::Aggregate(op) = &mut unordered.operator else {
        unreachable!()
    };
    op.is_distinct = false;
    unordered.physical_option = Some(PhysicalOption::new(
        PlanImpl::HashAggregate,
        SortOption::Nothing,
    ));
    assert!(!rule.apply(&mut unordered, &arena)?);
    assert!(matches!(
        unordered.physical_option,
        Some(PhysicalOption {
            plan: PlanImpl::HashAggregate,
            ..
        })
    ));
    Ok(())
}

#[test]
fn force_spill_distinct_sorts_unordered_input() -> Result<(), DatabaseError> {
    let table_arena = TableArenaCell::default();
    let mut arena = PlanArena::new(&table_arena);
    let (mut plan, _) = build_distinct_scan_plan(&mut arena);
    let Operator::Aggregate(op) = &mut plan.operator else {
        unreachable!()
    };
    op.force_spill = true;
    let expected_fields = groupby_sort_fields(&op.groupby_exprs);
    plan.physical_option = Some(PhysicalOption::new(
        PlanImpl::HashAggregate,
        SortOption::Nothing,
    ));

    let rule = ForceSpillAggregate;
    assert!(rule.apply(&mut plan, &arena)?);
    assert!(matches!(
        plan.physical_option,
        Some(PhysicalOption {
            plan: PlanImpl::StreamDistinct,
            ..
        })
    ));
    let Childrens::Only(sort) = plan.childrens.as_ref() else {
        unreachable!()
    };
    assert!(matches!(
        &sort.operator,
        Operator::Sort(SortOperator { sort_fields }) if sort_fields == &expected_fields
    ));
    assert!(matches!(
        sort.physical_option,
        Some(PhysicalOption {
            plan: PlanImpl::Sort,
            ..
        })
    ));
    assert!(matches!(
        sort.childrens.as_ref(),
        Childrens::Only(child) if matches!(child.operator, Operator::TableScan(_))
    ));
    Ok(())
}

#[test]
fn keep_sort_when_order_not_covered() -> Result<(), DatabaseError> {
    let table_arena = TableArenaCell::default();
    let mut arena = PlanArena::new(&table_arena);
    let c1 = make_sort_field(&mut arena, "c1");
    let c2 = make_sort_field(&mut arena, "c2");
    let mut plan = build_plan(&mut arena, vec![c2.clone()], vec![c1, c2.clone()], 0);
    mark_sort_preserving_indexes(&mut plan, &vec![c2], &arena);
    let rule = EliminateRedundantSort;

    assert!(!rule.apply(&mut plan, &arena)?);
    assert!(matches!(plan.operator, Operator::Sort(_)));
    Ok(())
}

#[test]
fn promote_index_to_remove_sort() -> Result<(), DatabaseError> {
    let table_arena = TableArenaCell::default();
    let mut arena = PlanArena::new(&table_arena);
    let column = arena.alloc_column(ColumnCatalog::new_dummy("c_first".to_string()));
    let sort_field = SortField::new(
        arena.alloc_expression(ScalarExpression::column_expr(column, 0)),
        true,
        false,
    );
    let (mut index_info, _) = build_index_info(&mut arena, vec![sort_field.clone()], 0);
    index_info.lookup = Some(IndexLookup::Static(Range::Scope {
        min: Bound::Unbounded,
        max: Bound::Unbounded,
    }));

    let columns = vec![column];

    let mut scan_plan = LogicalPlan::new(
        Operator::TableScan(TableScanOperator {
            table_name: "t".to_string(),
            columns,
            limit: (None, None),
            index_infos: vec![index_info],
            with_pk: false,
        }),
        Childrens::Leaf,
    );
    if let Operator::TableScan(scan_op) = &scan_plan.operator {
        let index_info = scan_op.index_infos[0].clone();
        scan_plan.physical_option = Some(PhysicalOption::new(
            PlanImpl::IndexScan(Box::new(index_info.clone())),
            index_info.sort_option,
        ));
    }

    let mut filter = LogicalPlan::new(
        Operator::Filter(FilterOperator {
            predicate: arena
                .alloc_expression(ScalarExpression::Constant(DataValue::Boolean(true))),
            is_optimized: false,
            having: false,
        }),
        Childrens::Only(Box::new(scan_plan)),
    );
    filter.physical_option = Some(PhysicalOption::new(PlanImpl::Filter, SortOption::Follow));

    let mut plan = LogicalPlan::new(
        Operator::Sort(SortOperator {
            sort_fields: vec![sort_field],
        }),
        Childrens::Only(Box::new(filter)),
    );

    let sort_fields = match &plan.operator {
        Operator::Sort(sort_op) => sort_op.sort_fields.clone(),
        _ => unreachable!("expected sort operator"),
    };
    mark_sort_preserving_indexes(&mut plan, &sort_fields, &arena);
    let rule = EliminateRedundantSort;
    assert!(rule.apply(&mut plan, &arena)?);
    assert!(matches!(plan.operator, Operator::Filter(_)));

    let table_plan = plan.childrens.pop_only();
    assert!(matches!(
        table_plan.physical_option,
        Some(PhysicalOption {
            plan: PlanImpl::IndexScan(_),
            ..
        })
    ));
    Ok(())
}
