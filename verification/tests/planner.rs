use kite_sql::catalog::{ColumnCatalog, ColumnDesc, ColumnRef};
use kite_sql::errors::DatabaseError;
use kite_sql::expression::{BinaryOperator, ScalarExpression};
use kite_sql::planner::arena::{PlanArena, TableArenaCell};
use kite_sql::planner::operator::ddl::DescribeOperator;
use kite_sql::planner::operator::filter::FilterOperator;
use kite_sql::planner::operator::limit::LimitOperator;
use kite_sql::planner::operator::table_scan::TableScanOperator;
use kite_sql::planner::operator::{Operator, PhysicalOption, PlanImpl, SortOption};
use kite_sql::planner::{Childrens, LogicalPlan};
use kite_sql::types::value::DataValue;
use kite_sql::types::{CharLengthUnits, LogicalType};
use std::collections::hash_map::DefaultHasher;
use std::hash::{Hash, Hasher};

fn column(name: &str, ty: LogicalType, arena: &mut PlanArena) -> ColumnRef {
    arena.alloc_column(ColumnCatalog::new(
        name.to_string(),
        true,
        ColumnDesc::new(ty, None, false, None).unwrap(),
    ))
}

fn table_scan(table: &str, columns: Vec<ColumnRef>) -> LogicalPlan {
    LogicalPlan::new(
        Operator::TableScan(TableScanOperator {
            table_name: table.to_string(),
            columns,
            limit: (None, None),
            index_infos: Vec::new(),
            with_pk: false,
        }),
        Childrens::Leaf,
    )
}

fn schema_names(schema: &[ColumnRef], arena: &PlanArena) -> Vec<String> {
    schema
        .iter()
        .map(|column| arena.column(*column).name().to_string())
        .collect()
}

#[test]
fn childrens_iterates_and_pops_expected_plans() {
    let left = LogicalPlan::new(Operator::ShowTable, Childrens::Leaf);
    let right = LogicalPlan::new(Operator::ShowView, Childrens::Leaf);

    assert_eq!(Childrens::Leaf.iter().count(), 0);

    let only = Childrens::Only(Box::new(left.clone()));
    assert_eq!(only.iter().count(), 1);
    assert!(matches!(only.pop_only().operator, Operator::ShowTable));

    let twins = Childrens::Twins {
        left: Box::new(left),
        right: Box::new(right),
    };
    let mut children = twins.iter();
    assert!(matches!(
        children.next().map(|plan| &plan.operator),
        Some(Operator::ShowTable)
    ));
    assert!(matches!(
        children.next().map(|plan| &plan.operator),
        Some(Operator::ShowView)
    ));
    assert!(children.next().is_none());

    let (left, right) = twins.pop_twins();
    assert!(matches!(left.operator, Operator::ShowTable));
    assert!(matches!(right.operator, Operator::ShowView));
}

#[test]
fn logical_plan_collects_tables_explains_and_hashes_without_schema_cache() {
    let table_arena = TableArenaCell::default();
    let mut arena = PlanArena::new(&table_arena);
    let id = column("id", LogicalType::Integer, &mut arena);
    let scan = table_scan("users", vec![id]);
    let mut plan = LimitOperator::build(Some(2), Some(5), scan);
    plan.physical_option = Some(PhysicalOption::new(PlanImpl::Limit, SortOption::Follow));

    let tables = plan
        .referenced_table()
        .into_iter()
        .map(|table| table.to_string())
        .collect::<Vec<_>>();
    assert_eq!(tables, vec!["users"]);
    assert_eq!(
        plan.explain(&arena, 0),
        "Limit 5, Offset 2 [Limit => (Sort Option: Follow)] TableScan users -> [id]"
    );

    let _ = plan.output_schema(&mut arena);
    let cloned = plan.clone();
    assert_eq!(plan, cloned);

    let mut left = DefaultHasher::new();
    let mut right = DefaultHasher::new();
    plan.hash(&mut left);
    cloned.hash(&mut right);
    assert_eq!(left.finish(), right.finish());
}

#[test]
fn output_schema_inherits_from_child_and_can_be_recursively_reset() {
    let table_arena = TableArenaCell::default();
    let mut arena = PlanArena::new(&table_arena);
    let id = column("id", LogicalType::Integer, &mut arena);
    let name = column(
        "name",
        LogicalType::Varchar(None, CharLengthUnits::Characters),
        &mut arena,
    );
    let scan = table_scan("users", vec![id]);
    let mut plan = LimitOperator::build(None, Some(10), scan);

    let schema = plan.output_schema(&mut arena).clone();
    assert_eq!(schema_names(&schema, &arena), vec!["id"]);

    if let Childrens::Only(child) = plan.childrens.as_mut() {
        if let Operator::TableScan(scan) = &mut child.operator {
            scan.columns = vec![name];
        }
    }

    let cached = plan.output_schema(&mut arena).clone();
    assert_eq!(schema_names(&cached, &arena), vec!["id"]);

    plan.reset_output_schema_cache_recursive();
    let recomputed = plan.output_schema(&mut arena).clone();
    assert_eq!(schema_names(&recomputed, &arena), vec!["name"]);
}

#[test]
fn dummy_operators_produce_expected_output_schema() {
    let table_arena = TableArenaCell::default();
    let mut arena = PlanArena::new(&table_arena);
    let cases = [
        (Operator::ShowTable, vec!["TABLE"]),
        (Operator::ShowView, vec!["VIEW"]),
        (Operator::Explain, vec!["PLAN"]),
        (
            Operator::Describe(DescribeOperator {
                table_name: "users".to_string(),
            }),
            vec![
                "FIELD",
                "TYPE",
                "LEN",
                "NULL",
                "Key",
                "DEFAULT",
                "COLUMN_REF",
            ],
        ),
    ];

    for (operator, expected) in cases {
        let mut plan = LogicalPlan::new(operator, Childrens::Leaf);
        let schema = plan.output_schema(&mut arena).clone();
        assert_eq!(schema_names(&schema, &arena), expected);
    }
}

#[test]
fn copied_plan_shares_no_expression() -> Result<(), DatabaseError> {
    let table_arena = TableArenaCell::default();
    let mut arena = PlanArena::new(&table_arena);
    let id = column("id", LogicalType::Integer, &mut arena);
    let left = arena.alloc_expression(ScalarExpression::ColumnRef {
        column: id,
        position: 0,
    });
    let right = arena.alloc_expression(ScalarExpression::Constant(DataValue::Int32(3)));
    let predicate = arena.alloc_expression(ScalarExpression::Binary {
        op: BinaryOperator::Gt,
        left_expr: left,
        right_expr: right,
        evaluator: None,
        ty: LogicalType::Boolean,
    });
    let plan = LogicalPlan::new(
        Operator::Filter(FilterOperator {
            predicate,
            is_optimized: false,
            having: false,
        }),
        Childrens::Only(Box::new(table_scan("users", vec![id]))),
    );
    let copy = plan.clone_plan(&mut arena)?;
    let copied = match &copy.operator {
        Operator::Filter(op) => op.predicate,
        _ => unreachable!("a filter is copied as a filter"),
    };
    assert_ne!(copied, predicate);
    assert!(copied.alike(predicate, &arena));
    assert_eq!(copy.explain(&arena, 0), plan.explain(&arena, 0));
    assert_eq!(copy.referenced_table(), plan.referenced_table());

    arena.set_position(left, 7);
    assert!(!copied.alike(predicate, &arena));
    Ok(())
}
