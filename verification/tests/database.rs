use kite_sql::catalog::{ColumnCatalog, ColumnDesc, ColumnRef, TableCatalog};
use kite_sql::db::builder::{DataBaseBuilder, LmdbConfig, StorageConfig};
use kite_sql::db::database::{CatalogKind, Database};
use kite_sql::db::functions::{FunctionSummary, RowSource, ScalarFunction};
use kite_sql::db::iter::ResultIter;
use kite_sql::db::source::BindSource;
use kite_sql::errors::DatabaseError;
use kite_sql::execution::ddl_apply::DDLApply;
use kite_sql::notation::{List, Text};
use kite_sql::orm::access::{
    bind_orm_context, explain_orm_context, orm_analyze, orm_get, orm_insert, orm_list,
};
use kite_sql::orm::field::{Field, Model, OrmField};
use kite_sql::orm::result::OrmQueryResultExt;
use kite_sql::orm::row::{take_value_at, FromQueryRow};
use kite_sql::orm::value::ToDataValue;
use kite_sql::planner::arena::{ArenaView, PlanArena};
use kite_sql::planner::operator::Operator;
use kite_sql::storage::{EmptyStorage, StatisticsMeta, TransactionIsolationLevel};
use kite_sql::types::tuple::{SchemaView, Tuple};
use kite_sql::types::value::DataValue;
use kite_sql::types::LogicalType;

#[derive(Debug, PartialEq, Eq)]
struct Point {
    id: i32,
    height: Option<i32>,
}

const POINT_FIELDS: &[OrmField] = &[
    OrmField {
        column: "id",
        column_index: 0,
        data_type: LogicalType::Integer,
        nullable: false,
        default: None,
        primary_key: true,
        unique: false,
    },
    OrmField {
        column: "height",
        column_index: 1,
        data_type: LogicalType::Integer,
        nullable: true,
        default: None,
        primary_key: false,
        unique: false,
    },
];

impl Point {
    fn id() -> Field<Self, i32> {
        Field::new("points", "id")
    }

    fn height() -> Field<Self, Option<i32>> {
        Field::new("points", "height")
    }
}

impl FromQueryRow for Point {
    fn decodes_row(
        _arena: ArenaView,
        _schema: List<ColumnRef>,
        _before: List<DataValue>,
        _after: List<DataValue>,
        _res: Result<Self, DatabaseError>,
    ) -> bool {
        unreachable!()
    }

    fn from_query_row(schema: &SchemaView<'_>, tuple: &mut Tuple) -> Result<Self, DatabaseError> {
        Ok(Self {
            id: take_value_at(tuple, schema.position("id"), "id")?,
            height: take_value_at(tuple, schema.position("height"), "height")?,
        })
    }
}

impl Model for Point {
    type PrimaryKey = i32;

    fn table() -> Text {
        unreachable!()
    }

    fn columns() -> List<OrmField> {
        unreachable!()
    }

    fn named_values(&self) -> List<(&'static str, DataValue)> {
        unreachable!()
    }

    fn table_name() -> &'static str {
        "points"
    }

    fn fields() -> &'static [OrmField] {
        POINT_FIELDS
    }

    fn params(&self) -> Vec<(&'static str, DataValue)> {
        vec![
            ("id", self.id.to_data_value()),
            ("height", self.height.to_data_value()),
        ]
    }

    fn primary_key(&self) -> &Self::PrimaryKey {
        &self.id
    }
}

fn memory() -> Database<EmptyStorage> {
    DataBaseBuilder::path("points".to_string())
        .build_in_memory()
        .unwrap()
}

fn add_table(database: &mut Database<EmptyStorage>, name: &str, columns: &[(&str, bool)]) {
    let mut refs = Vec::new();
    for (i, (column, nullable)) in columns.iter().enumerate() {
        let primary = if i == 0 { Some(0) } else { None };
        let mut catalog = ColumnCatalog::new(
            column.to_string(),
            *nullable,
            ColumnDesc::new(LogicalType::Integer, primary, false, None).unwrap(),
        );
        catalog.set_ref_table(name.to_string(), i as u64, false);
        refs.push(database.state.table_arena.alloc_column(catalog));
    }
    database.state.table_cache.insert(
        name.to_string(),
        TableCatalog {
            name: name.to_string(),
            primary_keys: vec![refs[0]],
            columns: refs,
            indexes: Vec::new(),
        },
    );
}

fn points() -> Database<EmptyStorage> {
    let mut database = memory();
    add_table(&mut database, "points", &[("id", false), ("height", true)]);
    database
}

fn assert_send_sync<T: Send + Sync>() {}

#[test]
fn database_handles_are_send_sync() {
    assert_send_sync::<Database<EmptyStorage>>();
}

#[test]
fn test_invalid_histogram_buckets() {
    let result = DataBaseBuilder::path("buckets".to_string())
        .histogram_buckets(0)
        .build_in_memory::<EmptyStorage>();

    assert!(matches!(
        result,
        Err(DatabaseError::InvalidValue(message)) if message == "histogram buckets must be >= 1"
    ));
}

#[test]
fn builder_keeps_its_settings() {
    let builder = DataBaseBuilder::path("data".to_string())
        .histogram_buckets(7)
        .transaction_isolation(TransactionIsolationLevel::ReadCommitted)
        .storage_statistics(true)
        .lmdb_map_size(4096)
        .lmdb_flags(0x20000)
        .lmdb_max_readers(3)
        .lmdb_max_dbs(5);
    assert_eq!(builder.path, "data");
    assert_eq!(builder.histogram_buckets, Some(7));
    assert_eq!(
        builder.transaction_isolation,
        Some(TransactionIsolationLevel::ReadCommitted)
    );
    assert_eq!(
        builder.storage_config,
        StorageConfig {
            enable_statistics: true
        }
    );
    assert_eq!(
        builder.lmdb_config,
        LmdbConfig {
            map_size: 4096,
            flags: 0x20000,
            max_readers: Some(3),
            max_dbs: Some(5),
            enable_statistics: true,
        }
    );
}

#[test]
fn no_sync_flag_is_set_and_cleared() {
    let builder = DataBaseBuilder::path("data".to_string()).lmdb_flags(0x20000);
    let builder = builder.lmdb_no_sync(true);
    assert_eq!(builder.lmdb_config.flags, 0x30000);
    let builder = builder.lmdb_no_sync(true);
    assert_eq!(builder.lmdb_config.flags, 0x30000);
    let builder = builder.lmdb_no_sync(false);
    assert_eq!(builder.lmdb_config.flags, 0x20000);

    let builder = DataBaseBuilder::path("data".to_string())
        .lmdb_flags(0x2)
        .lmdb_no_sync(true);
    assert_eq!(builder.lmdb_config.flags, 0x10000);
}

#[test]
fn empty_storage_offers_one_isolation() {
    let result = DataBaseBuilder::path("data".to_string())
        .transaction_isolation(TransactionIsolationLevel::RepeatableRead)
        .build_in_memory::<EmptyStorage>();
    assert!(matches!(result, Err(DatabaseError::UnsupportedIsolation)));

    let database = DataBaseBuilder::path("data".to_string())
        .build::<EmptyStorage>()
        .unwrap();
    assert_eq!(
        database.transaction_isolation(),
        TransactionIsolationLevel::ReadCommitted
    );
    assert!(database.storage_metrics().is_none());
}

#[test]
fn new_database_knows_the_built_in_functions() {
    let database = memory();
    let upper = FunctionSummary {
        name: "upper".to_string(),
        arg_types: vec![LogicalType::Varchar(
            None,
            kite_sql::types::CharLengthUnits::Characters,
        )],
    };
    assert!(database.state.scala_functions.get(&upper).is_some());
    let numbers = FunctionSummary {
        name: "numbers".to_string(),
        arg_types: vec![LogicalType::Integer],
    };
    assert!(database.state.table_functions.get(&numbers).is_some());
    let reverse = FunctionSummary {
        name: "reverse".to_string(),
        arg_types: vec![LogicalType::Integer],
    };
    assert!(database.state.scala_functions.get(&reverse).is_none());
    assert_eq!(database.state.table_cache.len(), 0);
}

#[test]
fn missing_tables_and_views_are_not_loaded() {
    let mut database = memory();
    assert_eq!(
        database.load(CatalogKind::Table("ghost".to_string())),
        Err(DatabaseError::TableNotFound)
    );
    assert_eq!(
        database.load(CatalogKind::View("ghost".to_string())),
        Err(DatabaseError::ViewNotFound)
    );
}

#[test]
fn loaded_functions_are_found() -> Result<(), DatabaseError> {
    let mut database = memory();
    let summary = |name: &str| FunctionSummary {
        name: name.to_string(),
        arg_types: vec![LogicalType::Integer],
    };
    database.load(CatalogKind::ScalarFunction(ScalarFunction {
        summary: summary("plus_one"),
        return_type: LogicalType::Integer,
    }))?;
    assert_eq!(
        database
            .state
            .scala_functions
            .get(&summary("plus_one"))
            .map(|function| function.return_type.clone()),
        Some(LogicalType::Integer)
    );

    database.load(CatalogKind::TableFunction(RowSource {
        summary: summary("squares"),
        columns: vec![ColumnCatalog::new(
            "square".to_string(),
            true,
            ColumnDesc::new(LogicalType::Integer, None, false, None)?,
        )],
    }))?;
    let function = database
        .state
        .table_functions
        .get(&summary("squares"))
        .unwrap();
    let column = function.schema[0];
    assert_eq!(function.schema.len(), 1);
    assert_eq!(
        database.state.table_arena.columns[column.pos()].name(),
        "square"
    );
    Ok(())
}

#[test]
fn unknown_table_fails_in_every_helper() {
    let mut database = memory();
    let missing = Some(DatabaseError::TableNotFound);
    assert_eq!(orm_list::<_, Point>(&database).err(), missing);
    assert_eq!(orm_get::<_, Point>(&database, &1).err(), missing);
    assert_eq!(
        orm_insert(&database, &Point { id: 1, height: None }).err(),
        missing
    );
    assert_eq!(orm_analyze::<_, Point>(&database).err(), missing);
    assert_eq!(
        database.analyze("points"),
        Err(DatabaseError::InStatement {
            context: "ANALYZE".to_string(),
            source: Box::new(DatabaseError::TableNotFound),
        })
    );
    assert_eq!(
        DatabaseError::InStatement {
            context: "ANALYZE".to_string(),
            source: Box::new(DatabaseError::TableNotFound),
        }
        .to_string(),
        "ANALYZE: the table does not exist"
    );
}

#[test]
fn helpers_run_to_the_end() -> Result<(), DatabaseError> {
    let mut database = points();
    orm_insert(&database, &Point { id: 1, height: Some(2) })?;
    orm_analyze::<_, Point>(&database)?;
    database.analyze("points")?;
    assert_eq!(orm_get::<_, Point>(&database, &1)?, None);
    let mut listed = orm_list::<_, Point>(&database)?;
    assert!(listed.next().is_none());
    assert!(listed.next().is_none());
    listed.done()?;
    Ok(())
}

#[test]
fn ended_result_closes_its_statement_once() -> Result<(), DatabaseError> {
    let database = points();
    let mut iter = bind_orm_context(&database, |ctx| ctx.from::<Point>()?.finish())?;
    assert_eq!(iter.transaction.open_statements, 1);
    assert_eq!(iter.next_tuple(|_, tuple| tuple.values.len())?, None);
    assert_eq!(iter.transaction.open_statements, 0);
    assert_eq!(iter.next_tuple(|_, tuple| tuple.values.len())?, None);
    assert_eq!(iter.transaction.open_statements, 0);
    assert_eq!(iter.schema(|schema| schema.position("height")), Some(1));
    iter.done()
}

#[test]
fn transaction_outlives_its_statements() -> Result<(), DatabaseError> {
    let database = points();
    let mut tx = database.new_transaction()?;
    orm_insert(&mut tx, &Point { id: 1, height: None })?;
    assert_eq!(tx.inner.open_statements, 0);
    let heights = (&mut tx).execute(|ctx| {
        ctx.from::<Point>()?
            .project_scalar(Point::height())?
            .finish()
    })?;
    let mut heights = heights.project_value::<i32>();
    assert!(heights.next().is_none());
    heights.done()?;
    assert_eq!(tx.inner.open_statements, 0);
    let pairs = bind_orm_context(&mut tx, |ctx| {
        ctx.from::<Point>()?
            .project_scalars((Point::id(), Point::height()))?
            .finish()
    })?;
    let mut pairs = pairs.project_tuple::<(i32, i32)>();
    assert!(pairs.next().is_none());
    pairs.done()?;
    tx.commit()
}

#[test]
fn changes_of_rows_are_shown() -> Result<(), DatabaseError> {
    let database = points();
    let deleted = explain_orm_context(&database, |ctx| {
        ctx.mutate::<Point>()?
            .filter(|e| {
                let height = e.column(Point::height())?;
                Ok(e.is_null(height))
            })?
            .delete()
    })?;
    assert_eq!(
        deleted,
        "Delete points [Delete => (Sort Option: None)] \
         Filter points.height is null, Is Having: false [Filter => (Sort Option: Follow)] \
         TableScan points -> [points.id, points.height] [SeqScan => (Sort Option: None)]"
    );

    let updated = explain_orm_context(&database, |ctx| {
        ctx.mutate::<Point>()?.update(|u| u.set(Point::height(), 3))
    })?;
    assert_eq!(
        updated,
        "Update points set points.height = 3 [Update => (Sort Option: None)] \
         TableScan points -> [points.id, points.height] [SeqScan => (Sort Option: None)]"
    );

    let counted = explain_orm_context(&database, |ctx| ctx.from::<Point>()?.count())?;
    assert_eq!(
        counted,
        "Projection [count] [Project => (Sort Option: Follow)] \
         Aggregate [Count(*)] [SimpleAggregate => (Sort Option: None)] \
         TableScan points -> [points.id, points.height] [SeqScan => (Sort Option: None)]"
    );

    let limited = explain_orm_context(&database, |ctx| ctx.from::<Point>()?.has_rows())?;
    assert_eq!(
        limited,
        "Limit 1 [Limit => (Sort Option: Follow)] \
         TableScan points -> [points.id, points.height] [SeqScan => (Sort Option: None)]"
    );
    Ok(())
}

#[test]
fn sets_and_subqueries_are_shown() -> Result<(), DatabaseError> {
    let database = points();
    let union = explain_orm_context(&database, |ctx| {
        ctx.union(
            true,
            |left| left.from::<Point>()?.project_scalar(Point::id())?.finish(),
            |right| right.from::<Point>()?.project_scalar(Point::height())?.finish(),
        )
    })?;
    assert!(union.starts_with("Union Projection [points.id]"), "{union}");

    let copied = explain_orm_context(&database, |ctx| {
        ctx.insert_select::<Point, _>(Vec::new(), |inner| inner.from::<Point>()?.finish())
    })?;
    assert!(copied.starts_with("Insert points"), "{copied}");

    let narrow = explain_orm_context(&database, |ctx| {
        ctx.insert_select::<Point, _>(vec!["id".to_string()], |inner| {
            inner.from::<Point>()?.finish()
        })
    });
    assert_eq!(narrow, Err(DatabaseError::ValuesLenMismatch(1, 2)));

    let truncated = explain_orm_context(&database, |ctx| ctx.truncate::<Point>())?;
    assert!(truncated.starts_with("Truncate points"), "{truncated}");
    Ok(())
}

#[test]
fn null_keys_and_missing_values_are_refused() {
    let mut database = memory();
    add_table(
        &mut database,
        "points",
        &[("id", false), ("height", false)],
    );
    let res = orm_insert(&database, &Point { id: 1, height: None });
    assert_eq!(
        res,
        Err(DatabaseError::NotNullColumn {
            name: "height".to_string()
        })
    );
}

#[test]
fn dropped_table_is_forgotten_and_others_stay() -> Result<(), DatabaseError> {
    let mut database = points();
    add_table(&mut database, "lines", &[("id", false)]);
    let kept = database
        .state
        .table_cache
        .get(&"points".to_string())
        .unwrap()
        .columns
        .clone();
    database.state.meta_cache.insert(
        ("lines".to_string(), 0),
        StatisticsMeta {
            index_id: 0,
            row_count: 4,
        },
    );
    let plan_arena = PlanArena::new(&database.state.table_arena);
    let changed = DDLApply::DropTable {
        name: "lines".to_string(),
    }
    .apply_to(&mut database.state, &plan_arena)?;
    assert!(changed);
    assert!(database.state.table_cache.get(&"lines".to_string()).is_none());
    assert!(database
        .state
        .meta_cache
        .get(&("lines".to_string(), 0))
        .is_none());
    assert!(database.state.table_cache.get(&"points".to_string()).is_some());

    database.state.recycle_table_arena()?;
    assert_eq!(database.state.table_arena.columns[kept[0].pos()].name(), "id");
    assert_eq!(
        database.state.table_arena.columns[kept[1].pos()].name(),
        "height"
    );
    let before = database.state.table_arena.columns.len();
    add_table(&mut database, "circles", &[("id", false)]);
    assert_eq!(database.state.table_arena.columns.len(), before);
    Ok(())
}

#[test]
fn statistics_get_the_buckets_of_the_database() -> Result<(), DatabaseError> {
    let mut database = DataBaseBuilder::path("points".to_string())
        .histogram_buckets(9)
        .build_in_memory::<EmptyStorage>()?;
    add_table(&mut database, "points", &[("id", false), ("height", true)]);
    let (plan, _) = database.state.build_plan(&database.storage, |ctx| {
        ctx.scope
            .binder
            .bind_analyze("points".to_string(), &mut ctx.scope.arena)
    })?;
    assert!(matches!(
        plan.operator,
        Operator::Analyze(op) if op.histogram_buckets == Some(9)
    ));
    Ok(())
}
