use kite_sql::binder::condition::split_join_condition;
use kite_sql::binder::scan::bind_indexes;
use kite_sql::catalog::{ColumnCatalog, ColumnDesc, ColumnRef};
use kite_sql::db::functions::{ScalaFunctions, TableFunctions};
use kite_sql::errors::DatabaseError;
use kite_sql::execution::choice::{build_read, build_write};
use kite_sql::execution::{ExecArena, ExecutionContext, Executor, NoRows};
use kite_sql::expression::conjunction::{conjoin, split_conjunctive_predicates};
use kite_sql::expression::identity::drop_repeats;
use kite_sql::expression::range_detacher::{Bound, Range, RangeDetacher};
use kite_sql::expression::{AggKind, BinaryOperator, ScalarExpression};
use kite_sql::optimizer::heuristic::batch::{HepBatch, HepBatchStep, HepBatchStrategy};
use kite_sql::optimizer::heuristic::optimizer::HepOptimizerPipeline;
use kite_sql::optimizer::rule::implementation::NoStatistics;
use kite_sql::optimizer::rule::normalization::remap::remap_position;
use kite_sql::optimizer::rule::normalization::{NoRules, NormalizationRuleImpl};
use kite_sql::orm::field::{model_column_matches_catalog, Field, OrmField};
use kite_sql::orm::value::{Date, DateTime, Decimal, FromDataValue, Time, ToDataValue};
use kite_sql::planner::arena::{ExprRef, PlanArena, TableArenaCell};
use kite_sql::planner::operator::limit::LimitOperator;
use kite_sql::planner::operator::{Operator, SortOption};
use kite_sql::planner::{Childrens, LogicalPlan};
use kite_sql::storage::{StatisticsMetaCache, TableCache, ViewCache};
use kite_sql::types::index::{IndexMeta, IndexType, RuntimeIndexProbe};
use kite_sql::types::value::DataValue;
use kite_sql::types::{CharLengthUnits, LogicalType};
use std::sync::Arc;

fn empty_arena() -> PlanArena {
    PlanArena::new(&TableArenaCell::default())
}

fn numbered_column(name: &str, id: u64, arena: &mut PlanArena) -> ColumnRef {
    let mut column = ColumnCatalog::new(
        name.to_string(),
        true,
        ColumnDesc::new(LogicalType::Integer, None, false, None).unwrap(),
    );
    column.set_ref_table("t".to_string(), id, false);
    arena.alloc_column(column)
}

fn constant(value: i32, arena: &mut PlanArena) -> ExprRef {
    arena.alloc_expression(ScalarExpression::Constant(DataValue::Int32(value)))
}

fn binary(op: BinaryOperator, left: ExprRef, right: ExprRef, arena: &mut PlanArena) -> ExprRef {
    arena.alloc_expression(ScalarExpression::Binary {
        op,
        left_expr: left,
        right_expr: right,
        evaluator: None,
        ty: LogicalType::Boolean,
    })
}

#[test]
fn written_values_are_read_back() -> Result<(), DatabaseError> {
    assert_eq!(i8::from_data_value((-8i8).to_data_value())?, -8);
    assert_eq!(i16::from_data_value((-16i16).to_data_value())?, -16);
    assert_eq!(i32::from_data_value((-32i32).to_data_value())?, -32);
    assert_eq!(i64::from_data_value((-64i64).to_data_value())?, -64);
    assert_eq!(u8::from_data_value(8u8.to_data_value())?, 8);
    assert_eq!(u16::from_data_value(16u16.to_data_value())?, 16);
    assert_eq!(u32::from_data_value(32u32.to_data_value())?, 32);
    assert_eq!(u64::from_data_value(64u64.to_data_value())?, 64);
    assert!(bool::from_data_value(true.to_data_value())?);
    assert_eq!(Date::from_data_value(Date(730120).to_data_value())?, Date(730120));
    assert_eq!(
        DateTime::from_data_value(DateTime(86400).to_data_value())?,
        DateTime(86400)
    );
    assert_eq!(Time::from_data_value(Time(3600).to_data_value())?, Time(3600));
    let price = Decimal {
        mantissa: 1999,
        scale: 2,
    };
    assert_eq!(Decimal::from_data_value(price.to_data_value())?, price);
    assert_eq!(
        String::from_data_value("kite".to_string().to_data_value())?,
        "kite"
    );
    let shared: Arc<str> = Arc::from("shared");
    assert_eq!(Arc::<str>::from_data_value(shared.to_data_value())?, shared);
    assert_eq!(
        Option::<i32>::from_data_value(Some(5i32).to_data_value())?,
        Some(5)
    );
    assert_eq!(
        Option::<i32>::from_data_value(None::<i32>.to_data_value())?,
        None
    );
    Ok(())
}

#[test]
fn choices_of_a_sort_do_not_touch_each_other() {
    let sort = Field::<(), i32>::new("t", "a").desc().nulls_first().asc();
    assert!(sort.asc);
    assert!(sort.nulls_first);
    let sort = sort.nulls_last().desc();
    assert!(!sort.asc);
    assert!(!sort.nulls_first);
}

#[test]
fn column_of_a_field_matches_the_field() -> Result<(), DatabaseError> {
    let mut arena = empty_arena();
    let field = OrmField {
        column: "name",
        column_index: 1,
        data_type: LogicalType::Varchar(Some(10), CharLengthUnits::Characters),
        nullable: false,
        default: Some(ScalarExpression::Constant(DataValue::utf8("none".to_string()))),
        primary_key: false,
        unique: true,
    };
    let mut column = field.to_column_catalog(&mut arena)?;
    assert_eq!(model_column_matches_catalog(&field, &column, &arena), Ok(true));
    column.nullable = true;
    assert_eq!(model_column_matches_catalog(&field, &column, &arena), Ok(false));
    Ok(())
}

#[test]
fn neighbouring_rules_share_a_step() {
    let batch = HepBatch::new(
        "rules".to_string(),
        HepBatchStrategy::once_topdown(),
        vec![
            NormalizationRuleImpl::CollapseProject,
            NormalizationRuleImpl::CombineFilter,
            NormalizationRuleImpl::ColumnPruning,
            NormalizationRuleImpl::PushLimitThroughJoin,
        ],
    );
    assert_eq!(batch.steps.len(), 3);
    assert!(matches!(
        &batch.steps[0],
        HepBatchStep::LocalRewrite(step) if step.rules
            == vec![NormalizationRuleImpl::CollapseProject, NormalizationRuleImpl::CombineFilter]
    ));
    assert!(matches!(
        &batch.steps[1],
        HepBatchStep::WholeTree(step) if step.rules == vec![NormalizationRuleImpl::ColumnPruning]
    ));
    assert!(matches!(
        &batch.steps[2],
        HepBatchStep::LocalRewrite(step) if step.rules
            == vec![NormalizationRuleImpl::PushLimitThroughJoin]
    ));
}

#[test]
fn pipeline_without_rules_keeps_the_plan() -> Result<(), DatabaseError> {
    let mut arena = empty_arena();
    let plan = LogicalPlan::new(
        Operator::Limit(LimitOperator {
            offset: None,
            limit: Some(3),
        }),
        Childrens::Only(Box::new(LogicalPlan::new(Operator::Dummy, Childrens::Leaf))),
    );
    let pipeline = HepOptimizerPipeline::builder().build();
    let best = pipeline
        .instantiate(plan.clone())
        .find_best(None::<&NoStatistics>, &mut arena, &NoRules)?;
    assert_eq!(best, plan);
    Ok(())
}

#[test]
fn expression_equals_itself_and_its_copies() {
    let mut arena = empty_arena();
    let column = numbered_column("a", 0, &mut arena);
    let first = arena.alloc_expression(ScalarExpression::ColumnRef { column, position: 0 });
    let second = arena.alloc_expression(ScalarExpression::ColumnRef { column, position: 4 });
    let one = constant(1, &mut arena);
    let left = binary(BinaryOperator::Gt, first, one, &mut arena);
    let right = binary(BinaryOperator::Gt, second, one, &mut arena);
    assert!(left.eq_ignore_colref_pos(left, &arena));
    assert!(left.eq_ignore_colref_pos(right, &arena));
    assert!(left.alike(left, &arena));
    assert!(!left.alike(right, &arena));
}

#[test]
fn repeated_aggregates_are_dropped() {
    let mut arena = empty_arena();
    let column = numbered_column("a", 0, &mut arena);
    let mut calls = Vec::new();
    for kind in [AggKind::Sum, AggKind::Max, AggKind::Sum] {
        let arg = arena.alloc_expression(ScalarExpression::ColumnRef { column, position: 0 });
        calls.push(arena.alloc_expression(ScalarExpression::AggCall {
            distinct: false,
            kind,
            args: vec![arg],
            ty: LogicalType::Integer,
        }));
    }
    assert_eq!(drop_repeats(&calls, &arena), vec![calls[0], calls[1]]);
}

#[test]
fn conjunction_is_split_into_its_parts() {
    let mut arena = empty_arena();
    let parts: Vec<ExprRef> = (0..3).map(|i| constant(i, &mut arena)).collect();
    let all = conjoin(&parts, &mut arena).unwrap();
    let mut found = Vec::new();
    split_conjunctive_predicates(all, &arena, &mut found);
    assert_eq!(found, parts);
    assert_eq!(conjoin(&Vec::new(), &mut arena), None);
    assert_eq!(conjoin(&vec![parts[1]], &mut arena), Some(parts[1]));
}

#[test]
fn remapped_positions_skip_the_removed_ones() {
    let row = ["a", "b", "c", "d", "e"];
    let removed = [1usize, 3];
    let kept = ["a", "c", "e"];
    for position in [0usize, 2, 4] {
        let mut moved = position;
        remap_position(&mut moved, &removed);
        assert_eq!(kept[moved], row[position]);
    }
}

#[test]
fn intersected_ranges_hold_the_common_values() {
    let range = |min: i32, max: i32| Range::Scope {
        min: Bound::Included(DataValue::Int32(min)),
        max: Bound::Excluded(DataValue::Int32(max)),
    };
    assert_eq!(range(1, 5).intersect(&range(3, 9)), Some(range(3, 5)));
    assert_eq!(range(1, 3).intersect(&range(4, 9)), Some(Range::Dummy));
    assert_eq!(
        range(1, 5).intersect(&Range::Eq(DataValue::Int32(2))),
        Some(Range::Eq(DataValue::Int32(2)))
    );
    assert_eq!(
        range(1, 5).intersect(&Range::Eq(DataValue::Int32(5))),
        Some(Range::Dummy)
    );
}

#[test]
fn detached_range_leaves_the_other_predicates() -> Result<(), DatabaseError> {
    let mut arena = empty_arena();
    let key = numbered_column("key", 0, &mut arena);
    let other = numbered_column("other", 1, &mut arena);
    let key = arena.alloc_expression(ScalarExpression::ColumnRef {
        column: key,
        position: 0,
    });
    let other = arena.alloc_expression(ScalarExpression::ColumnRef {
        column: other,
        position: 1,
    });
    let one = constant(1, &mut arena);
    let nine = constant(9, &mut arena);
    let low = binary(BinaryOperator::Lt, one, key, &mut arena);
    let high = binary(BinaryOperator::LtEq, key, nine, &mut arena);
    let rest = binary(BinaryOperator::Eq, other, nine, &mut arena);
    let all = conjoin(&vec![low, rest, high], &mut arena).unwrap();
    let split = RangeDetacher::new("t", &0, &mut arena).detach(all)?.unwrap();
    assert_eq!(
        split.range,
        Range::Scope {
            min: Bound::Excluded(DataValue::Int32(1)),
            max: Bound::Included(DataValue::Int32(9)),
        }
    );
    assert_eq!(split.residual, Some(rest));
    let none = RangeDetacher::new("t", &2, &mut arena).detach(all)?;
    assert!(none.is_none());
    Ok(())
}

#[test]
fn pushed_probe_is_popped() {
    let mut arena: ExecArena<'_, NoRows> = ExecArena::new();
    assert_eq!(arena.runtime_probe_depth(), 0);
    arena.push_runtime_probe(RuntimeIndexProbe::Eq(DataValue::Int32(4)));
    arena.push_runtime_probe(RuntimeIndexProbe::Eq(DataValue::Int32(5)));
    assert_eq!(arena.runtime_probe_depth(), 2);
    assert_eq!(
        arena.pop_runtime_probe(),
        RuntimeIndexProbe::Eq(DataValue::Int32(5))
    );
    assert_eq!(
        arena.pop_runtime_probe(),
        RuntimeIndexProbe::Eq(DataValue::Int32(4))
    );
    assert_eq!(arena.runtime_probe_depth(), 0);
}

#[test]
fn reads_choose_one_executor_in_both_ways() {
    let plan = || {
        LogicalPlan::new(
            Operator::Limit(LimitOperator {
                offset: None,
                limit: Some(3),
            }),
            Childrens::Only(Box::new(LogicalPlan::new(Operator::Dummy, Childrens::Leaf))),
        )
    };
    let tables = TableCache::new();
    let views = ViewCache::new();
    let statistics = StatisticsMetaCache::new();
    let scalars = ScalaFunctions::new();
    let row_sources = TableFunctions::new();
    let context = ExecutionContext::new(&tables, &views, &statistics, &scalars, &row_sources);
    let mut plan_arena = empty_arena();

    let mut reading: ExecArena<'_, NoRows> = ExecArena::new();
    let read = build_read(&mut reading, &mut plan_arena, plan(), context, &());
    let mut writing: ExecArena<'_, NoRows> = ExecArena::new();
    let written = build_write(&mut writing, &mut plan_arena, plan(), context, &());
    assert_eq!(read, written);

    let mut executor = Executor::new(reading, read);
    assert!(executor.next_tuple(&mut plan_arena, &mut ()).unwrap().is_none());
    assert!(executor.take_ddl_apply().is_empty());
}

#[test]
fn join_condition_is_split_into_keys_and_filter() {
    let mut arena = empty_arena();
    let left: Vec<ColumnRef> = ["id", "x"]
        .iter()
        .enumerate()
        .map(|(i, name)| numbered_column(name, i as u64, &mut arena))
        .collect();
    let right: Vec<ColumnRef> = ["t_id", "x", "y"]
        .iter()
        .enumerate()
        .map(|(i, name)| numbered_column(name, 10 + i as u64, &mut arena))
        .collect();
    let column = |column: ColumnRef, position: usize, arena: &mut PlanArena| {
        arena.alloc_expression(ScalarExpression::ColumnRef { column, position })
    };
    let own = column(left[1], 1, &mut arena);
    let other = column(right[1], 3, &mut arena);
    let y = column(right[2], 4, &mut arena);
    let number = constant(53, &mut arena);
    let equal = binary(BinaryOperator::Eq, other, own, &mut arena);
    let filter = binary(BinaryOperator::Eq, y, number, &mut arena);
    let on = conjoin(&vec![equal, filter], &mut arena).unwrap();

    let (keys, rest) = split_join_condition(on, &left, &right, &mut arena);
    assert_eq!(keys.len(), 1);
    assert_eq!(keys[0].0, own);
    assert_eq!(
        *arena.expression(keys[0].1),
        ScalarExpression::ColumnRef {
            column: right[1],
            position: 1
        }
    );
    assert_eq!(rest, Some(filter));

    let (keys, rest) = split_join_condition(filter, &left, &right, &mut arena);
    assert!(keys.is_empty());
    assert_eq!(rest, Some(filter));
}

#[test]
fn scan_knows_the_order_of_its_indexes() {
    let mut arena = empty_arena();
    let columns: Vec<ColumnRef> = (0..3)
        .map(|i| numbered_column("c", i, &mut arena))
        .collect();
    let index = arena.alloc_index(IndexMeta {
        id: 0,
        column_ids: vec![2, 0],
        table_name: "t".to_string(),
        pk_ty: LogicalType::Integer,
        value_ty: LogicalType::Tuple(vec![LogicalType::Integer, LogicalType::Integer]),
        name: "by_last".to_string(),
        ty: IndexType::Composite,
    });
    let infos = bind_indexes(&columns, &vec![index], &mut arena);
    assert_eq!(infos.len(), 1);
    let fields = match &infos[0].sort_option {
        SortOption::OrderBy { fields, .. } => fields,
        _ => unreachable!("an index keeps an order"),
    };
    let keys: Vec<&ScalarExpression> = fields
        .iter()
        .map(|field| arena.expression(field.expr))
        .collect();
    assert_eq!(
        keys,
        vec![
            &ScalarExpression::ColumnRef {
                column: columns[2],
                position: 2
            },
            &ScalarExpression::ColumnRef {
                column: columns[0],
                position: 0
            },
        ]
    );
    assert!(fields.iter().all(|field| field.asc && !field.nulls_first));
}

fn scope(min: Bound, max: Bound) -> Range {
    Range::Scope { min, max }
}

#[test]
fn ranges_are_united_without_overlap() {
    let two = Range::Eq(DataValue::Int32(2));
    let five = Range::Eq(DataValue::Int32(5));
    let above = scope(Bound::Excluded(DataValue::Int32(40)), Bound::Unbounded);
    let below = scope(Bound::Unbounded, Bound::Excluded(DataValue::Int32(5)));
    let behind = scope(Bound::Excluded(DataValue::Int32(5)), Bound::Unbounded);
    let low = scope(
        Bound::Included(DataValue::Int32(1)),
        Bound::Included(DataValue::Int32(5)),
    );
    let high = scope(
        Bound::Excluded(DataValue::Int32(3)),
        Bound::Included(DataValue::Int32(9)),
    );

    // Ranges that lie apart are kept in their order, whichever comes first.
    let apart = Range::SortedRanges(vec![two.clone(), above.clone()]);
    assert_eq!(above.union(&two), Some(apart.clone()));
    assert_eq!(two.union(&above), Some(apart.clone()));
    // What is there already changes nothing.
    assert_eq!(apart.union(&two), Some(apart.clone()));
    assert_eq!(two.union(&two), Some(two.clone()));
    assert_eq!(two.union(&Range::Dummy), Some(two.clone()));
    // Ranges that share a value are merged.
    assert_eq!(
        low.union(&high),
        Some(scope(
            Bound::Included(DataValue::Int32(1)),
            Bound::Included(DataValue::Int32(9)),
        ))
    );
    assert_eq!(
        Range::SortedRanges(vec![two.clone(), five.clone()]).union(&low),
        Some(low.clone())
    );
    // An open end on both sides of a value leaves the value out.
    assert_eq!(
        below.union(&behind),
        Some(Range::SortedRanges(vec![below.clone(), behind.clone()]))
    );
    // Nothing is left to search for where every value would do, or where values differ in kind.
    assert_eq!(
        below.union(&scope(Bound::Included(DataValue::Int32(4)), Bound::Unbounded)),
        None
    );
    assert_eq!(two.union(&Range::Eq(DataValue::Int64(2))), None);
}

#[test]
fn ranges_have_their_overlap_in_common() {
    let two = Range::Eq(DataValue::Int32(2));
    let above = scope(Bound::Excluded(DataValue::Int32(40)), Bound::Unbounded);
    let either = two.union(&above).unwrap();

    let narrow = scope(
        Bound::Included(DataValue::Int32(2)),
        Bound::Included(DataValue::Int32(50)),
    );
    assert_eq!(
        either.common(&narrow),
        Some(Range::SortedRanges(vec![
            two.clone(),
            scope(
                Bound::Excluded(DataValue::Int32(40)),
                Bound::Included(DataValue::Int32(50)),
            ),
        ]))
    );
    assert_eq!(either.common(&two), Some(two.clone()));
    assert_eq!(
        either.common(&Range::Eq(DataValue::Int32(3))),
        Some(Range::Dummy)
    );
    assert_eq!(either.common(&either), Some(either.clone()));
}

#[test]
fn alternatives_are_detached_together() -> Result<(), DatabaseError> {
    let mut arena = empty_arena();
    let key = numbered_column("k", 1, &mut arena);
    let other = numbered_column("o", 2, &mut arena);
    let column = arena.alloc_expression(ScalarExpression::column_expr(key, 0));
    let rest = arena.alloc_expression(ScalarExpression::column_expr(other, 1));
    let one = constant(1, &mut arena);
    let five = constant(5, &mut arena);
    let nine = constant(9, &mut arena);

    // (k >= 1 and k < 5) or k = 9
    let low = binary(BinaryOperator::GtEq, column, one, &mut arena);
    let high = binary(BinaryOperator::Lt, column, five, &mut arena);
    let between = binary(BinaryOperator::And, low, high, &mut arena);
    let equal = binary(BinaryOperator::Eq, column, nine, &mut arena);
    let either = binary(BinaryOperator::Or, between, equal, &mut arena);
    let split = RangeDetacher::new("t", &1, &mut arena).detach(either)?.unwrap();
    assert_eq!(
        split.range,
        Range::SortedRanges(vec![
            scope(
                Bound::Included(DataValue::Int32(1)),
                Bound::Excluded(DataValue::Int32(5)),
            ),
            Range::Eq(DataValue::Int32(9)),
        ])
    );
    assert_eq!(split.residual, None);

    // k = 9 or o = 9 says nothing about k alone.
    let foreign = binary(BinaryOperator::Eq, rest, nine, &mut arena);
    let mixed = binary(BinaryOperator::Or, equal, foreign, &mut arena);
    assert_eq!(RangeDetacher::new("t", &1, &mut arena).detach(mixed)?, None);

    // It stays behind where another part restricts k.
    let both = binary(BinaryOperator::And, low, mixed, &mut arena);
    let split = RangeDetacher::new("t", &1, &mut arena).detach(both)?.unwrap();
    assert_eq!(
        split.range,
        scope(Bound::Included(DataValue::Int32(1)), Bound::Unbounded)
    );
    assert_eq!(split.residual, Some(mixed));
    Ok(())
}

#[test]
fn values_beyond_the_calendar_are_refused() {
    for (day, there) in [
        (-95_746_130, false),
        (-95_746_129, true),
        (0, true),
        (95_745_399, true),
        (95_745_400, false),
        (i32::MAX, false),
    ] {
        let read = Date::from_data_value(DataValue::Date32(day));
        assert_eq!(read.is_ok(), there, "{day}");
        let moment = DateTime::from_data_value(DataValue::Date64(
            (i64::from(day) - 719_163) * 86_400 + 86_399,
        ));
        assert_eq!(moment.is_ok(), there, "{day}");
    }
    assert!(DateTime::from_data_value(DataValue::Date64(i64::MIN)).is_err());

    assert_eq!(
        Time::from_data_value(DataValue::Time32(86_399, 0)),
        Ok(Time(86_399))
    );
    assert!(Time::from_data_value(DataValue::Time32(86_400, 0)).is_err());

    let largest: i128 = 0xffff_ffff_ffff_ffff_ffff_ffff;
    for (mantissa, scale, there) in [
        (largest, 28, true),
        (-largest, 0, true),
        (largest + 1, 0, false),
        (-largest - 1, 0, false),
        (1, 29, false),
    ] {
        let read = Decimal::from_data_value(DataValue::Decimal(mantissa, scale));
        assert_eq!(read.is_ok(), there, "{mantissa} {scale}");
    }
}

#[test]
fn decimals_show_digits_and_point() {
    for (digits, scale, text) in [
        (12345, 2, "123.45"),
        (5, 2, "0.05"),
        (-5, 2, "-0.05"),
        (100, 2, "1.00"),
        (0, 1, "0.0"),
        (-700, 0, "-700"),
        (i128::MIN, 3, "-170141183460469231731687303715884105.728"),
    ] {
        assert_eq!(DataValue::Decimal(digits, scale).to_string(), text);
    }
}

#[test]
fn refused_cast_names_both_types() {
    let text = DataValue::utf8("ten".to_string());
    let own = text.logical_type();
    match text.cast(&LogicalType::Integer) {
        Err(DatabaseError::CastFail { from, to }) => {
            assert_eq!(from, own);
            assert_eq!(to, LogicalType::Integer);
        }
        other => panic!("{other:?}"),
    }
}
