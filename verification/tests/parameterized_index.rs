use kite_sql::catalog::{ColumnCatalog, ColumnDesc, ColumnRef};
use kite_sql::errors::DatabaseError;
use kite_sql::expression::range_detacher::Range;
use kite_sql::expression::{BinaryOperator, ScalarExpression};
use kite_sql::optimizer::rule::normalization::parameterized_index::{
    extract_parameterized_probe, find_parameterized_probe, index_priority,
    parameterize_right_subtree, ParameterizeMarkApply,
};
use kite_sql::optimizer::rule::normalization::parameterized_join::ParameterizeInnerJoin;
use kite_sql::planner::arena::{ExprRef, PlanArena, TableArenaCell};
use kite_sql::planner::operator::filter::FilterOperator;
use kite_sql::planner::operator::join::{JoinCondition, JoinOperator, JoinType};
use kite_sql::planner::operator::mark_apply::{MarkApplyKind, MarkApplyQuantifier};
use kite_sql::planner::operator::table_scan::TableScanOperator;
use kite_sql::planner::operator::{Operator, PhysicalOption, PlanImpl, SortOption};
use kite_sql::planner::{Childrens, LogicalPlan};
use kite_sql::types::index::{IndexInfo, IndexLookup, IndexMeta, IndexType};
use kite_sql::types::value::DataValue;
use kite_sql::types::LogicalType;

fn dummy_column(arena: &mut PlanArena, name: &str) -> ColumnRef {
    arena.alloc_column(ColumnCatalog::new(
        name.to_string(),
        true,
        ColumnDesc::new(LogicalType::Integer, None, false, None).unwrap(),
    ))
}

fn expr(arena: &mut PlanArena, column: ColumnRef) -> ExprRef {
    arena.alloc_expression(ScalarExpression::column_expr(column, 0))
}

fn eq(arena: &mut PlanArena, left: ExprRef, right: ExprRef) -> ExprRef {
    arena.alloc_expression(ScalarExpression::Binary {
        op: BinaryOperator::Eq,
        left_expr: left,
        right_expr: right,
        evaluator: None,
        ty: LogicalType::Boolean,
    })
}

#[test]
fn probe_detection_covers_quantifiers_and_rejected_sides() -> Result<(), DatabaseError> {
    let table_arena = TableArenaCell::default();
    let mut arena = PlanArena::new(&table_arena);
    let left = dummy_column(&mut arena, "left");
    let right = dummy_column(&mut arena, "right");
    let outside = dummy_column(&mut arena, "outside");
    let left_schema = vec![left];
    let right_schema = vec![right];
    let overlapping_schema = vec![left, right];

    let all_right = expr(&mut arena, right);
    let all_left = expr(&mut arena, left);
    let all_predicate = eq(&mut arena, all_right, all_left);
    assert!(find_parameterized_probe(
        MarkApplyKind::Quantified(MarkApplyQuantifier::Any),
        &[],
        &left_schema,
        &right_schema,
        &arena,
    )?
    .is_none());
    assert!(find_parameterized_probe(
        MarkApplyKind::Quantified(MarkApplyQuantifier::All),
        &[all_predicate],
        &left_schema,
        &right_schema,
        &arena,
    )?
    .is_none());

    let exists_right = expr(&mut arena, right);
    let exists_left = expr(&mut arena, left);
    let exists_predicate = eq(&mut arena, exists_right, exists_left);
    let predicates = vec![
        arena.alloc_expression(ScalarExpression::from(true)),
        exists_predicate,
    ];
    let probe = find_parameterized_probe(
        MarkApplyKind::Exists,
        &predicates,
        &left_schema,
        &right_schema,
        &arena,
    )?
    .expect("right = left should be parameterizable");
    assert_eq!(probe.0, right);

    let outside_right = expr(&mut arena, right);
    let outside_expr = expr(&mut arena, outside);
    let outside_predicate = eq(&mut arena, outside_right, outside_expr);
    assert!(extract_parameterized_probe(
        outside_predicate,
        &left_schema,
        &right_schema,
        &arena,
    )?
    .is_none());
    let overlap_left = expr(&mut arena, right);
    let overlap_right = expr(&mut arena, right);
    let overlap_predicate = eq(&mut arena, overlap_left, overlap_right);
    assert!(extract_parameterized_probe(
        overlap_predicate,
        &overlapping_schema,
        &right_schema,
        &arena,
    )?
    .is_none());
    let constant = arena.alloc_expression(ScalarExpression::from(false));
    assert!(extract_parameterized_probe(
        constant,
        &left_schema,
        &right_schema,
        &arena,
    )?
    .is_none());

    Ok(())
}

#[test]
fn parameterization_rejects_unsupported_operator_and_child_shapes() -> Result<(), DatabaseError>
{
    let table_arena = TableArenaCell::default();
    let mut arena = PlanArena::new(&table_arena);
    let column = dummy_column(&mut arena, "value");
    let mut plan = LogicalPlan::new(Operator::Dummy, Childrens::Leaf);

    assert!(!ParameterizeMarkApply.apply(&mut plan, &mut arena)?);
    assert!(!parameterize_right_subtree(&mut plan, &column, &arena));

    let mut filter = LogicalPlan::new(
        Operator::Filter(FilterOperator {
            predicate: arena.alloc_expression(ScalarExpression::from(true)),
            is_optimized: false,
            having: false,
        }),
        Childrens::Leaf,
    );
    assert!(!parameterize_right_subtree(&mut filter, &column, &arena));

    assert_eq!(
        index_priority(IndexType::PrimaryKey { is_multiple: false }),
        0
    );
    assert_eq!(index_priority(IndexType::Unique), 1);
    assert_eq!(index_priority(IndexType::Composite), 2);
    assert_eq!(index_priority(IndexType::Normal), 3);

    Ok(())
}


fn scan(
    arena: &mut PlanArena,
    name: &str,
    types: &[LogicalType],
    indexes: &[&[usize]],
) -> LogicalPlan {
    let columns: Vec<_> = types
        .iter()
        .enumerate()
        .map(|(id, ty)| {
            let mut column = ColumnCatalog::new(
                format!("c{id}"),
                true,
                ColumnDesc::new(ty.clone(), None, false, None).unwrap(),
            );
            column.set_ref_table(name.to_string(), id as u64, true);
            arena.alloc_column(column)
        })
        .collect();
    let index_infos = indexes
        .iter()
        .enumerate()
        .map(|(id, keys)| IndexInfo {
            meta: arena.alloc_index(IndexMeta {
                id: id as _,
                column_ids: keys.iter().map(|id| *id as _).collect(),
                table_name: name.to_string(),
                pk_ty: LogicalType::Integer,
                value_ty: if keys.len() == 1 {
                    types[keys[0]].clone()
                } else {
                    LogicalType::Tuple(keys.iter().map(|id| types[*id].clone()).collect())
                },
                name: format!("idx{id}"),
                ty: if keys.len() == 1 {
                    IndexType::Normal
                } else {
                    IndexType::Composite
                },
            }),
            lookup: None,
            residual_predicate: None,
            sort_option: SortOption::Nothing,
            covered_deserializers: None,
            cover_mapping: None,
            sort_elimination_hint: None,
            stream_aggregate_hint: None,
        })
        .collect();
    LogicalPlan::new(
        Operator::TableScan(TableScanOperator {
            table_name: name.to_string(),
            columns,
            limit: (None, None),
            index_infos,
            with_pk: false,
        }),
        Childrens::Leaf,
    )
}

fn column(plan: &LogicalPlan, position: usize, arena: &mut PlanArena) -> ExprRef {
    let Operator::TableScan(scan) = &plan.operator else {
        panic!("expected scan")
    };
    arena.alloc_expression(ScalarExpression::column_expr(
        scan.columns[position],
        position,
    ))
}

fn binary(
    arena: &mut PlanArena,
    op: BinaryOperator,
    left_expr: ExprRef,
    right_expr: ExprRef,
) -> ExprRef {
    arena.alloc_expression(ScalarExpression::Binary {
        op,
        left_expr,
        right_expr,
        evaluator: None,
        ty: LogicalType::Boolean,
    })
}

fn position(expr: ExprRef, arena: &PlanArena) -> usize {
    let ScalarExpression::ColumnRef { position, .. } = arena.expression(expr) else {
        panic!("expected column")
    };
    *position
}

fn join(
    left: LogicalPlan,
    right: LogicalPlan,
    on: Vec<(ExprRef, ExprRef)>,
    filter: Option<ExprRef>,
) -> LogicalPlan {
    JoinOperator::build(
        left,
        right,
        JoinCondition::On { on, filter },
        JoinType::Inner,
        false,
    )
}

#[test]
fn composite_probe_uses_index_order_and_preserves_static_filter() -> Result<(), DatabaseError> {
    let tables = TableArenaCell::default();
    let mut arena = PlanArena::new(&tables);
    let left = scan(
        &mut arena,
        "outer",
        &[LogicalType::Integer, LogicalType::Integer],
        &[],
    );
    // First index cannot be probed. Second requires constant + two join keys.
    let mut right = scan(
        &mut arena,
        "inner",
        &[LogicalType::Integer, LogicalType::Integer, LogicalType::Integer, LogicalType::Integer],
        &[&[3], &[0, 2, 1]],
    );
    let l0 = column(&left, 0, &mut arena);
    let l1 = column(&left, 1, &mut arena);
    let r0 = column(&right, 0, &mut arena);
    let r1 = column(&right, 1, &mut arena);
    let r2 = column(&right, 2, &mut arena);
    let r3 = column(&right, 3, &mut arena);
    let constant = arena.alloc_expression(ScalarExpression::Constant(DataValue::Int32(7)));
    let equality = binary(&mut arena, BinaryOperator::Eq, constant, r0);
    let residual = binary(&mut arena, BinaryOperator::Gt, r3, constant);
    let predicate = binary(&mut arena, BinaryOperator::And, equality, residual);
    let Operator::TableScan(scan) = &mut right.operator else {
        unreachable!()
    };
    let info = &mut scan.index_infos[1];
    info.lookup = Some(IndexLookup::Static(Range::Eq(DataValue::Int32(7))));
    info.residual_predicate = Some(residual);
    let index = info.meta;
    right.physical_option = Some(PhysicalOption::new(
        PlanImpl::IndexScan(Box::new(info.clone())),
        SortOption::Nothing,
    ));
    let right = FilterOperator::build(predicate, right, false);
    let mut plan = join(left, right, vec![(l0, r1), (l1, r2)], None);

    assert!(ParameterizeInnerJoin.apply(&mut plan, &mut arena)?);
    let Operator::MarkApply(apply) = &plan.operator else {
        panic!("expected apply without projection")
    };
    assert_eq!(apply.kind, MarkApplyKind::InnerJoin);
    assert_eq!(
        arena.expression(*apply.parameterized_probe().unwrap()),
        &ScalarExpression::Tuple(vec![constant, l1, l0])
    );
    assert_eq!((position(l0, &arena), position(l1, &arena)), (0, 1));
    assert_eq!((position(r1, &arena), position(r2, &arena)), (3, 4));
    let Childrens::Twins { right, .. } = plan.childrens.as_ref() else {
        unreachable!()
    };
    let Operator::Filter(filter) = &right.operator else {
        panic!("full filter must survive")
    };
    assert_eq!(filter.predicate, predicate);
    let Childrens::Only(scan) = right.childrens.as_ref() else {
        unreachable!()
    };
    let PlanImpl::IndexScan(info) = &scan.physical_option.as_ref().unwrap().plan else {
        panic!("expected index scan")
    };
    assert_eq!(info.meta, index);
    assert_eq!(info.lookup, Some(IndexLookup::Probe));
    assert_eq!(info.residual_predicate, None);
    assert_eq!(position(r0, &arena), 0);
    assert_eq!(position(r3, &arena), 3);
    Ok(())
}

#[test]
fn searched_right_input_keeps_the_columns() -> Result<(), DatabaseError> {
    let tables = TableArenaCell::default();
    let mut arena = PlanArena::new(&tables);
    let mut left = scan(&mut arena, "left", &[LogicalType::Integer], &[]);
    let mut right = scan(
        &mut arena,
        "right",
        &[LogicalType::Integer, LogicalType::Integer],
        &[&[1]],
    );
    let mut schema = left.output_schema(&mut arena).clone();
    schema.extend_from_slice(right.output_schema(&mut arena));
    let l = column(&left, 0, &mut arena);
    let r = column(&right, 1, &mut arena);
    let mut plan = join(left, right, vec![(l, r)], None);

    assert!(ParameterizeInnerJoin.apply(&mut plan, &mut arena)?);
    assert_eq!(plan.output_schema(&mut arena), &schema);
    assert!(matches!(plan.operator, Operator::MarkApply(_)));
    Ok(())
}

#[test]
fn swapped_join_restores_unequal_widths_and_filter_positions() -> Result<(), DatabaseError> {
    let tables = TableArenaCell::default();
    let mut arena = PlanArena::new(&tables);
    let mut left = scan(
        &mut arena,
        "left",
        &[LogicalType::Integer, LogicalType::Integer, LogicalType::Integer],
        &[&[1]],
    );
    let mut right = scan(&mut arena, "right", &[LogicalType::Integer], &[]);
    let mut schema = left.output_schema(&mut arena).clone();
    schema.extend_from_slice(right.output_schema(&mut arena));
    let l = column(&left, 1, &mut arena);
    let r = column(&right, 0, &mut arena);
    let filter_left = arena.alloc_expression(ScalarExpression::column_expr(schema[2], 2));
    let filter_right = arena.alloc_expression(ScalarExpression::column_expr(schema[3], 3));
    let predicate = binary(&mut arena, BinaryOperator::Gt, filter_left, filter_right);
    let mut plan = join(left, right, vec![(l, r)], Some(predicate));

    assert!(ParameterizeInnerJoin.apply(&mut plan, &mut arena)?);
    assert_eq!(plan.output_schema(&mut arena), &schema);
    let Operator::Filter(filter) = &plan.operator else {
        panic!("join filter must remain above projection")
    };
    assert_eq!(filter.predicate, predicate);
    assert_eq!(
        (
            position(filter_left, &arena),
            position(filter_right, &arena)
        ),
        (2, 3)
    );
    let Childrens::Only(project) = plan.childrens.as_ref() else {
        unreachable!()
    };
    let Operator::Project(project_op) = &project.operator else {
        panic!("expected reorder projection")
    };
    assert_eq!(
        project_op
            .exprs
            .iter()
            .map(|expr| position(*expr, &arena))
            .collect::<Vec<_>>(),
        vec![1, 2, 3, 0]
    );
    let Childrens::Only(apply_plan) = project.childrens.as_ref() else {
        unreachable!()
    };
    let Operator::MarkApply(apply) = &apply_plan.operator else {
        panic!("expected apply")
    };
    assert_eq!(apply.parameterized_probe(), Some(&r));
    assert_eq!((position(r, &arena), position(l, &arena)), (0, 2));
    let ScalarExpression::Binary {
        left_expr,
        right_expr,
        ..
    } = arena.expression(apply.predicates()[0])
    else {
        unreachable!()
    };
    assert_eq!((*left_expr, *right_expr), (r, l));
    let Childrens::Twins { left, right } = apply_plan.childrens.as_ref() else {
        unreachable!()
    };
    let Operator::TableScan(outer) = &left.operator else {
        unreachable!()
    };
    let Operator::TableScan(inner) = &right.operator else {
        unreachable!()
    };
    assert_eq!(outer.table_name.as_str(), "right");
    assert_eq!(inner.table_name.as_str(), "left");
    Ok(())
}

#[test]
fn rejected_probe_leaves_join_and_expression_positions_unchanged() -> Result<(), DatabaseError>
{
    for case in ["missing_key", "type_mismatch", "inner_limit", "outer_join"] {
        let tables = TableArenaCell::default();
        let mut arena = PlanArena::new(&tables);
        let left = scan(&mut arena, "left", &[LogicalType::Integer], &[]);
        let ty = if case == "type_mismatch" {
            LogicalType::Bigint
        } else {
            LogicalType::Integer
        };
        let index: &[usize] = if case == "missing_key" { &[0, 1] } else { &[0] };
        let mut right = scan(&mut arena, "right", &[ty, LogicalType::Integer], &[index]);
        if case == "inner_limit" {
            let Operator::TableScan(scan) = &mut right.operator else {
                unreachable!()
            };
            scan.limit = (None, Some(1));
        }
        let l = column(&left, 0, &mut arena);
        let r = column(&right, 0, &mut arena);
        let mut plan = join(left, right, vec![(l, r)], None);
        if case == "outer_join" {
            let Operator::Join(join) = &mut plan.operator else {
                unreachable!()
            };
            join.join_type = JoinType::LeftOuter;
        }
        let before = plan.clone();
        assert!(
            !ParameterizeInnerJoin.apply(&mut plan, &mut arena)?,
            "{case}"
        );
        assert_eq!(plan, before, "{case}");
        assert_eq!((position(l, &arena), position(r, &arena)), (0, 0), "{case}");
    }
    Ok(())
}
