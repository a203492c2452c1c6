use kite_sql::binder::Binder;
use kite_sql::catalog::{ColumnCatalog, ColumnDesc, ColumnRef, TableCatalog};
use kite_sql::db::builder::DataBaseBuilder;
use kite_sql::db::database::Database;
use kite_sql::errors::DatabaseError;
use kite_sql::expression::ScalarExpression;
use kite_sql::notation::{List, Text};
use kite_sql::orm::access::explain_orm_context;
use kite_sql::orm::context::OrmContext;
use kite_sql::orm::field::{Field, Model, OrmField, WindowSpec};
use kite_sql::orm::insert::bind_orm_insert_plan;
use kite_sql::orm::row::{take_value_at, FromQueryRow};
use kite_sql::orm::scope::ExprBindScope;
use kite_sql::orm::value::ToDataValue;
use kite_sql::planner::arena::{ArenaView, PlanArena};
use kite_sql::planner::operator::values::ValuesOperator;
use kite_sql::planner::operator::Operator;
use kite_sql::planner::{Childrens, LogicalPlan};
use kite_sql::storage::EmptyStorage;
use kite_sql::types::tuple::{SchemaView, Tuple};
use kite_sql::types::value::DataValue;
use kite_sql::types::LogicalType;

#[derive(Debug, PartialEq, Eq)]
struct Point {
    id: i32,
    height: Option<i32>,
}

const POINT_FIELDS: &[OrmField] = &[
    OrmField {
        column: "id",
        column_index: 0,
        data_type: LogicalType::Integer,
        nullable: false,
        default: None,
        primary_key: true,
        unique: false,
    },
    OrmField {
        column: "height",
        column_index: 1,
        data_type: LogicalType::Integer,
        nullable: true,
        default: None,
        primary_key: false,
        unique: false,
    },
];

impl Point {
    fn id() -> Field<Self, i32> {
        Field::new("points", "id")
    }

    fn height() -> Field<Self, Option<i32>> {
        Field::new("points", "height")
    }
}

impl FromQueryRow for Point {
    fn decodes_row(
        _arena: ArenaView,
        _schema: List<ColumnRef>,
        _before: List<DataValue>,
        _after: List<DataValue>,
        _res: Result<Self, DatabaseError>,
    ) -> bool {
        unreachable!()
    }

    fn from_query_row(schema: &SchemaView<'_>, tuple: &mut Tuple) -> Result<Self, DatabaseError> {
        Ok(Self {
            id: take_value_at(tuple, schema.position("id"), "id")?,
            height: take_value_at(tuple, schema.position("height"), "height")?,
        })
    }
}

impl Model for Point {
    type PrimaryKey = i32;

    fn table() -> Text {
        unreachable!()
    }

    fn columns() -> List<OrmField> {
        unreachable!()
    }

    fn named_values(&self) -> List<(&'static str, DataValue)> {
        unreachable!()
    }

    fn table_name() -> &'static str {
        "points"
    }

    fn fields() -> &'static [OrmField] {
        POINT_FIELDS
    }

    fn params(&self) -> Vec<(&'static str, DataValue)> {
        vec![
            ("id", self.id.to_data_value()),
            ("height", self.height.to_data_value()),
        ]
    }

    fn primary_key(&self) -> &Self::PrimaryKey {
        &self.id
    }
}

fn memory() -> Database<EmptyStorage> {
    DataBaseBuilder::path("points".to_string())
        .build_in_memory()
        .unwrap()
}

fn add_table(database: &mut Database<EmptyStorage>, name: &str, columns: &[(&str, bool)]) {
    let mut refs = Vec::new();
    for (i, (column, nullable)) in columns.iter().enumerate() {
        let primary = if i == 0 { Some(0) } else { None };
        let mut catalog = ColumnCatalog::new(
            column.to_string(),
            *nullable,
            ColumnDesc::new(LogicalType::Integer, primary, false, None).unwrap(),
        );
        catalog.set_ref_table(name.to_string(), i as u64, false);
        refs.push(database.state.table_arena.alloc_column(catalog));
    }
    database.state.table_cache.insert(
        name.to_string(),
        TableCatalog {
            name: name.to_string(),
            primary_keys: vec![refs[0]],
            columns: refs,
            indexes: Vec::new(),
        },
    );
}

fn points() -> Database<EmptyStorage> {
    let mut database = memory();
    add_table(&mut database, "points", &[("id", false), ("height", true)]);
    database
}

fn shown<'a, F>(database: &'a Database<EmptyStorage>, build: F) -> Result<String, DatabaseError>
where
    F: FnOnce(&mut OrmContext<'a>) -> Result<LogicalPlan, DatabaseError>,
{
    explain_orm_context(database, build)
}

const SCAN: &str =
    "TableScan points -> [points.id, points.height] [SeqScan => (Sort Option: None)]";

/// A list of columns over a plan.
fn listed(columns: &str, plan: &str) -> String {
    format!("Projection [{columns}] [Project => (Sort Option: Follow)] {plan}")
}

/// The rows of a plan that meet a condition.
fn kept(condition: &str, plan: &str) -> String {
    format!("Filter {condition}, Is Having: false [Filter => (Sort Option: Follow)] {plan}")
}

#[test]
fn cases_and_patterns_are_shown() -> Result<(), DatabaseError> {
    let database = points();
    let mut plans = Vec::new();
    plans.push(shown(&database, |ctx| {
        ctx.from::<Point>()?
            .project_value(|e| {
                let tall = e.column(Point::height())?.gt(10, e)?;
                let short = e.column(Point::height())?.lte(3, e)?;
                Ok(e.case_when(vec![(tall, 1), (short, 2)], Some(3)))
            })?
            .finish()
    })?);
    plans.push(shown(&database, |ctx| {
        ctx.from::<Point>()?
            .project_value(|e| {
                let id = e.column(Point::id())?;
                Ok(e.case_value(id, vec![(1, 10), (2, 20)], None::<i32>))
            })?
            .finish()
    })?);
    plans.push(shown(&database, |ctx| {
        ctx.from::<Point>()?
            .filter(|e| e.column(Point::id())?.like("a%", e)?.not(e))?
            .project_scalar(Point::id())?
            .finish()
    })?);
    plans.push(shown(&database, |ctx| {
        ctx.from::<Point>()?
            .filter(|e| e.column(Point::id())?.not_like("a%", e))?
            .project_scalar(Point::id())?
            .finish()
    })?);
    assert_eq!(
        plans,
        vec![
            listed("CaseWhen((points.height > 10), 1, (points.height <= 3), 2, 3)", SCAN),
            listed("CaseWhen(points.id, 1, 10, 2, 20)", SCAN),
            listed("points.id", &kept("!(points.id like a%)", SCAN)),
            listed("points.id", &kept("(points.id not like a%)", SCAN)),
        ]
    );
    Ok(())
}

#[test]
fn windows_are_shown() -> Result<(), DatabaseError> {
    let database = points();
    let mut plans = Vec::new();
    plans.push(shown(&database, |ctx| {
        ctx.from::<Point>()?
            .project_tuple(|e| {
                let id = e.column(Point::id())?;
                let height = e.column(Point::height())?;
                let spec = WindowSpec::new()
                    .partition_by(height.into_scalar())
                    .order_by(id.into_sort());
                let number = e.row_number(spec)?;
                let id = e.column(Point::id())?;
                let rank = e.rank(WindowSpec::new().order_by(id.desc()))?;
                let id = e.column(Point::id())?;
                let dense = e.dense_rank(WindowSpec::new().order_by(id.desc()))?;
                Ok(vec![number, rank, dense])
            })?
            .finish()
    })?);
    plans.push(shown(&database, |ctx| {
        ctx.from::<Point>()?
            .project_tuple(|e| {
                let height = e.column(Point::height())?;
                let sum = e.sum_over(height, WindowSpec::new())?;
                let height = e.column(Point::height())?;
                let count = e.count_over(height, WindowSpec::new())?;
                let all = e.count_all_over(WindowSpec::new())?;
                Ok(vec![sum, count, all])
            })?
            .finish()
    })?);
    assert_eq!(
        plans,
        vec![
            listed(
                "RowNumber() Over(points.height, points.id), Rank() Over(points.id), \
                 DenseRank() Over(points.id)",
                SCAN,
            ),
            listed(
                "Sum(points.height) Over(), Count(points.height) Over(), Count(*) Over()",
                SCAN,
            ),
        ]
    );
    Ok(())
}

#[test]
fn subqueries_are_shown() -> Result<(), DatabaseError> {
    let database = points();
    let mut plans = Vec::new();
    plans.push(shown(&database, |ctx| {
        ctx.from::<Point>()?
            .filter(|e| {
                e.column(Point::id())?.eq_any(
                    |inner| inner.from::<Point>()?.project_scalar(Point::height())?.finish(),
                    e,
                )
            })?
            .project_scalar(Point::id())?
            .finish()
    })?);
    plans.push(shown(&database, |ctx| {
        ctx.from::<Point>()?
            .filter(|e| {
                e.column(Point::id())?.gt_all(
                    |inner| inner.from::<Point>()?.project_scalar(Point::height())?.finish(),
                    e,
                )
            })?
            .project_scalar(Point::id())?
            .finish()
    })?);
    plans.push(shown(&database, |ctx| {
        ctx.from::<Point>()?
            .filter(|e| {
                e.column(Point::id())?.not_in_subquery(
                    |inner| inner.from::<Point>()?.project_scalar(Point::height())?.finish(),
                    e,
                )
            })?
            .project_scalar(Point::id())?
            .finish()
    })?);
    plans.push(shown(&database, |ctx| {
        ctx.from::<Point>()?
            .filter(|e| e.exists_subquery(true, |inner| inner.from::<Point>()?.finish()))?
            .project_scalar(Point::id())?
            .finish()
    })?);
    plans.push(shown(&database, |ctx| {
        ctx.from::<Point>()?
            .filter(|e| {
                let most = e.scalar_subquery(|inner| {
                    inner.from::<Point>()?.project_scalar(Point::height())?.finish()
                })?;
                e.column(Point::id())?.eq(most, e)
            })?
            .project_scalar(Point::id())?
            .finish()
    })?);
    let heights = listed("points.height", SCAN);
    assert_eq!(
        plans,
        vec![
            listed(
                "points.id",
                &kept("quantified", &format!("MarkAnyApply {SCAN} {heights}")),
            ),
            listed(
                "points.id",
                &kept("quantified", &format!("MarkAllApply {SCAN} {heights}")),
            ),
            listed(
                "points.id",
                &kept("!quantified", &format!("MarkAnyApply {SCAN} {heights}")),
            ),
            listed(
                "points.id",
                &kept(
                    "!exists",
                    &format!(
                        "MarkExistsApply {SCAN} {}",
                        listed("points.id, points.height", SCAN)
                    ),
                ),
            ),
            listed(
                "points.id",
                &kept(
                    "(points.id = points.height)",
                    &format!(
                        "ScalarApply {SCAN} \
                         ScalarSubquery [ScalarSubquery => (Sort Option: Follow)] {heights}"
                    ),
                ),
            ),
        ]
    );
    Ok(())
}

#[test]
fn named_sources_are_shown() -> Result<(), DatabaseError> {
    let database = points();
    let mut plans = Vec::new();
    plans.push(shown(&database, |ctx| {
        ctx.from_as::<Point>("p".to_string())?
            .left_join_as::<Point, _, _>("q".to_string(), |e| {
                let left = e.qualified_column("p", Point::id())?;
                let right = e.qualified_column("q", Point::height())?;
                left.eq(right, e)
            })?
            .project_value(|e| e.qualified_column("q", Point::id()))?
            .finish()
    })?);
    plans.push(shown(&database, |ctx| {
        ctx.from_as::<Point>("p".to_string())?
            .inner_join_as::<Point, _, _>("q".to_string(), |e| {
                let left = e.qualified_column("p", Point::id())?;
                let right = e.qualified_column("q", Point::height())?;
                left.lte(right, e)
            })?
            .project_value(|e| e.column_ref("p", "height"))?
            .finish()
    })?);
    plans.push(shown(&database, |ctx| {
        ctx.mutate_as::<Point>("p".to_string())?
            .filter(|e| e.qualified_column("p", Point::id())?.eq(1, e))?
            .update(|u| {
                u.set_value(Point::id(), 7)?;
                u.set_expr(Point::height(), |e| e.qualified_column("p", Point::id()))
            })
    })?);
    let left = listed("p.id, p.height", SCAN);
    let right = listed("q.id, q.height", SCAN);
    assert_eq!(
        plans,
        vec![
            listed(
                "q.id",
                &format!(
                    "LeftOuter Join On p.id = q.height [HashJoin => (Sort Option: None)] \
                     {left} {right}"
                ),
            ),
            listed(
                "p.height",
                &format!(
                    "Inner Join Where (p.id <= q.height) [NestLoopJoin => (Sort Option: None)] \
                     {left} {right}"
                ),
            ),
            format!(
                "Update points set points.id = 7, points.height = points.id \
                 [Update => (Sort Option: None)] {}",
                kept("(points.id = 1)", SCAN)
            ),
        ]
    );
    let clash = shown(&database, |ctx| {
        ctx.from::<Point>()?
            .filter(|e| e.qualified_column("q", Point::id())?.eq(1, e))?
            .finish()
    });
    assert_eq!(
        clash,
        Err(DatabaseError::InvalidTable {
            name: "q".to_string()
        })
    );
    Ok(())
}

#[test]
fn ordered_and_grouped_lists_are_shown() -> Result<(), DatabaseError> {
    let database = points();
    let mut plans = Vec::new();
    plans.push(shown(&database, |ctx| {
        ctx.from::<Point>()?.order_by(Point::height().desc())?.finish()
    })?);
    plans.push(shown(&database, |ctx| {
        ctx.from::<Point>()?
            .project_value(|e| e.count_all())?
            .group_by_scalar(Point::height())?
            .finish()
    })?);
    plans.push(shown(&database, |ctx| {
        ctx.from::<Point>()?.project_model()?.finish()
    })?);
    plans.push(shown(&database, |ctx| {
        ctx.except(
            false,
            |left| left.from::<Point>()?.project_scalar(Point::id())?.finish(),
            |right| right.from::<Point>()?.project_scalar(Point::height())?.finish(),
        )
    })?);
    plans.push(shown(&database, |ctx| {
        ctx.intersect(
            true,
            |left| left.from::<Point>()?.project_scalar(Point::id())?.finish(),
            |right| right.from::<Point>()?.project_scalar(Point::height())?.finish(),
        )
    })?);
    plans.push(shown(&database, |ctx| {
        ctx.overwrite_select::<Point, _>(Vec::new(), |inner| inner.from::<Point>()?.finish())
    })?);
    let ids = listed("points.id", SCAN);
    let heights = listed("points.height", SCAN);
    let rows = listed("points.id, points.height", SCAN);
    assert_eq!(
        plans,
        vec![
            listed(
                "points.id, points.height",
                &format!(
                    "Sort By points.height Desc Nulls Last [Sort => (Sort Option: OrderBy: \
                     (points.height Desc Nulls Last) ignore_prefix_len: 0)] {SCAN}"
                ),
            ),
            listed(
                "Count(*)",
                &format!(
                    "Aggregate [Count(*)] -> Group By [points.height] \
                     [HashAggregate => (Sort Option: None)] {SCAN}"
                ),
            ),
            rows.clone(),
            format!(
                "Aggregate [] -> Group By [points.id] [HashAggregate => (Sort Option: None)] \
                 Except {ids} {heights}"
            ),
            format!("Intersect {ids} {heights}"),
            format!(
                "Insert Overwrite points [Insert => (Sort Option: None)] {}",
                listed("id, height", &rows)
            ),
        ]
    );
    Ok(())
}

#[test]
fn insert_names_the_first_unknown_column() -> Result<(), DatabaseError> {
    let database = points();
    let columns = database.state.table_cache.get(&"points".to_string()).unwrap().columns.clone();
    for (names, unknown, known) in [
        (["wide", "deep"], "wide", 0),
        (["height", "deep"], "deep", 1),
    ] {
        let mut scope = ExprBindScope::new(
            Binder::new(
                &database.state.table_cache,
                &database.state.scala_functions,
                Vec::new(),
            ),
            PlanArena::new(&database.state.table_arena),
        );
        let rows = LogicalPlan::new(
            Operator::Values(ValuesOperator {
                rows: Vec::new(),
                schema_ref: columns.clone(),
            }),
            Childrens::Leaf,
        );
        let before = scope.arena.alloc_expression(ScalarExpression::Empty);
        let res = bind_orm_insert_plan(
            &mut scope,
            "points",
            names.iter().map(|name| name.to_string()).collect(),
            rows,
            false,
        );
        match res {
            Err(DatabaseError::ColumnNotFound { name, span: None }) => assert_eq!(name, unknown),
            other => panic!("{other:?}"),
        }
        // Every value before the unknown column has been read and renamed.
        let after = scope.arena.alloc_expression(ScalarExpression::Empty);
        assert_eq!(after.0 - before.0, 1 + 2 * known);
    }
    Ok(())
}
