use kite_sql::catalog::{ColumnCatalog, ColumnDesc, ColumnRef, TableCatalog, TableName};
use kite_sql::db::builder::DataBaseBuilder;
use kite_sql::db::database::{CatalogKind, Database};
use kite_sql::db::iter::{OrmIter, ResultIter};
use kite_sql::db::source::BindSource;
use kite_sql::errors::DatabaseError;
use kite_sql::execution::choice::ExecInput;
use kite_sql::execution::node::{Building, Running};
use kite_sql::execution::{
    build_read, ExecArena, ExecId, ExecNode, ExecutionContext, ExecutorNode,
};
use kite_sql::expression::{AggKind, BinaryOperator, ScalarExpression};
use kite_sql::notation::{List, Text};
use kite_sql::optimizer::rule::implementation::NoStatistics;
use kite_sql::optimizer::rule::normalization::{NormalizationRuleImpl, RuleLibrary, Stage};
use kite_sql::orm::access::{
    explain_orm_context, orm_analyze, orm_get, orm_insert, orm_list,
};
use kite_sql::orm::field::{Field, Model, OrmField};
use kite_sql::orm::result::OrmQueryResultExt;
use kite_sql::orm::row::{take_value_at, DescribeColumn, FromQueryRow};
use kite_sql::orm::value::ToDataValue;
use kite_sql::planner::arena::{ArenaView, ExprRef, PlanArena, TableArena};
use kite_sql::planner::operator::ddl::{CreateViewOperator, DescribeOperator};
use kite_sql::planner::operator::join::JoinCondition;
use kite_sql::planner::operator::Operator;
use kite_sql::planner::{Childrens, LogicalPlan};
use kite_sql::storage::{
    StatisticsMeta, StatisticsMetaCache, Storage, Transaction, TransactionIsolationLevel,
    ViewCatalog,
};
use kite_sql::types::index::{IndexId, IndexMeta, IndexMetaRef, IndexType};
use kite_sql::types::tuple::{SchemaView, Tuple};
use kite_sql::types::value::{DataValue, Utf8Type};
use kite_sql::types::{CharLengthUnits, LogicalType};
use std::cell::RefCell;
use std::collections::VecDeque;
use std::rc::Rc;

#[derive(Debug, PartialEq, Eq)]
struct OrmUnitUser {
    id: i32,
    name: String,
    age: Option<i32>,
}

const ORM_UNIT_USER_FIELDS: &[OrmField] = &[
    OrmField {
        column: "id",
        column_index: 0,
        data_type: LogicalType::Integer,
        nullable: false,
        default: None,
        primary_key: true,
        unique: false,
    },
    OrmField {
        column: "name",
        column_index: 1,
        data_type: LogicalType::Varchar(None, CharLengthUnits::Characters),
        nullable: false,
        default: None,
        primary_key: false,
        unique: false,
    },
    OrmField {
        column: "age",
        column_index: 2,
        data_type: LogicalType::Integer,
        nullable: true,
        default: None,
        primary_key: false,
        unique: false,
    },
];

impl OrmUnitUser {
    fn id() -> Field<Self, i32> {
        Field::new("orm_unit_users", "id")
    }

    fn name() -> Field<Self, String> {
        Field::new("orm_unit_users", "name")
    }

    fn age() -> Field<Self, Option<i32>> {
        Field::new("orm_unit_users", "age")
    }
}

impl FromQueryRow for OrmUnitUser {
    fn decodes_row(
        _arena: ArenaView,
        _schema: List<ColumnRef>,
        _before: List<DataValue>,
        _after: List<DataValue>,
        _res: Result<Self, DatabaseError>,
    ) -> bool {
        unreachable!()
    }

    fn from_query_row(schema: &SchemaView<'_>, tuple: &mut Tuple) -> Result<Self, DatabaseError> {
        Ok(Self {
            id: take_value_at(tuple, schema.position("id"), "id")?,
            name: take_value_at(tuple, schema.position("name"), "name")?,
            age: take_value_at(tuple, schema.position("age"), "age")?,
        })
    }
}

impl Model for OrmUnitUser {
    type PrimaryKey = i32;

    fn table() -> Text {
        unreachable!()
    }

    fn columns() -> List<OrmField> {
        unreachable!()
    }

    fn named_values(&self) -> List<(&'static str, DataValue)> {
        unreachable!()
    }

    fn table_name() -> &'static str {
        "orm_unit_users"
    }

    fn fields() -> &'static [OrmField] {
        ORM_UNIT_USER_FIELDS
    }

    fn params(&self) -> Vec<(&'static str, DataValue)> {
        vec![
            ("id", self.id.to_data_value()),
            ("name", self.name.to_data_value()),
            ("age", self.age.to_data_value()),
        ]
    }

    fn primary_key(&self) -> &Self::PrimaryKey {
        &self.id
    }
}

#[derive(Debug, PartialEq, Eq)]
struct OrmUnitOrder {
    id: i32,
    user_id: i32,
    amount: i32,
}

const ORM_UNIT_ORDER_FIELDS: &[OrmField] = &[
    OrmField {
        column: "id",
        column_index: 0,
        data_type: LogicalType::Integer,
        nullable: false,
        default: None,
        primary_key: true,
        unique: false,
    },
    OrmField {
        column: "user_id",
        column_index: 1,
        data_type: LogicalType::Integer,
        nullable: false,
        default: None,
        primary_key: false,
        unique: false,
    },
    OrmField {
        column: "amount",
        column_index: 2,
        data_type: LogicalType::Integer,
        nullable: false,
        default: None,
        primary_key: false,
        unique: false,
    },
];

impl OrmUnitOrder {
    fn id() -> Field<Self, i32> {
        Field::new("orm_unit_orders", "id")
    }

    fn user_id() -> Field<Self, i32> {
        Field::new("orm_unit_orders", "user_id")
    }

    fn amount() -> Field<Self, i32> {
        Field::new("orm_unit_orders", "amount")
    }
}

impl FromQueryRow for OrmUnitOrder {
    fn decodes_row(
        _arena: ArenaView,
        _schema: List<ColumnRef>,
        _before: List<DataValue>,
        _after: List<DataValue>,
        _res: Result<Self, DatabaseError>,
    ) -> bool {
        unreachable!()
    }

    fn from_query_row(schema: &SchemaView<'_>, tuple: &mut Tuple) -> Result<Self, DatabaseError> {
        Ok(Self {
            id: take_value_at(tuple, schema.position("id"), "id")?,
            user_id: take_value_at(tuple, schema.position("user_id"), "user_id")?,
            amount: take_value_at(tuple, schema.position("amount"), "amount")?,
        })
    }
}

impl Model for OrmUnitOrder {
    type PrimaryKey = i32;

    fn table() -> Text {
        unreachable!()
    }

    fn columns() -> List<OrmField> {
        unreachable!()
    }

    fn named_values(&self) -> List<(&'static str, DataValue)> {
        unreachable!()
    }

    fn table_name() -> &'static str {
        "orm_unit_orders"
    }

    fn fields() -> &'static [OrmField] {
        ORM_UNIT_ORDER_FIELDS
    }

    fn params(&self) -> Vec<(&'static str, DataValue)> {
        vec![
            ("id", self.id.to_data_value()),
            ("user_id", self.user_id.to_data_value()),
            ("amount", self.amount.to_data_value()),
        ]
    }

    fn primary_key(&self) -> &Self::PrimaryKey {
        &self.id
    }
}

/// Lets scans read only the columns that some expression refers to, and writes lists and ranges of
/// filters with comparisons.
#[derive(Debug, Default)]
struct UnitRules;

fn columns_of(expr: ExprRef, arena: &PlanArena, out: &mut Vec<(ExprRef, ColumnRef)>) {
    if let ScalarExpression::ColumnRef { column, .. } = arena.expression(expr) {
        out.push((expr, *column));
    }
    for child in arena.expression(expr).children() {
        columns_of(child, arena, out);
    }
}

fn used_columns(plan: &LogicalPlan, arena: &PlanArena, out: &mut Vec<(ExprRef, ColumnRef)>) {
    for expr in plan.operator.expressions() {
        columns_of(expr, arena, out);
    }
    let mut children = plan.childrens.iter();
    while let Some(child) = children.next() {
        used_columns(child, arena, out);
    }
}

fn place(exprs: &[ExprRef], row: &[ColumnRef], arena: &mut PlanArena) {
    let mut found = Vec::new();
    for expr in exprs {
        columns_of(*expr, arena, &mut found);
    }
    for (expr, column) in found {
        if let Some(position) = row.iter().position(|other| *other == column) {
            arena.set_position(expr, position);
        }
    }
}

fn prune(plan: &mut LogicalPlan, used: &[(ExprRef, ColumnRef)], arena: &mut PlanArena) -> Vec<ColumnRef> {
    let mut rows: Vec<Vec<ColumnRef>> = Vec::new();
    match plan.childrens.as_mut() {
        Childrens::Only(child) => rows.push(prune(child, used, arena)),
        Childrens::Twins { left, right } => {
            rows.push(prune(left, used, arena));
            rows.push(prune(right, used, arena));
        }
        Childrens::Leaf => {}
    }
    let row: Vec<ColumnRef> = rows.concat();
    match &mut plan.operator {
        Operator::TableScan(op) => {
            op.columns.retain(|column| used.iter().any(|(_, other)| other == column));
            op.columns.clone()
        }
        Operator::Join(op) => {
            if let JoinCondition::On { on, filter } = &op.on {
                for (left, right) in on {
                    place(&[*left], &rows[0], arena);
                    place(&[*right], &rows[1], arena);
                }
                if let Some(filter) = filter {
                    place(&[*filter], &row, arena);
                }
            }
            row
        }
        Operator::Project(_) | Operator::Aggregate(_) => {
            place(&plan.operator.expressions(), &row, arena);
            Vec::new()
        }
        _ => {
            place(&plan.operator.expressions(), &row, arena);
            row
        }
    }
}

fn pair(op: BinaryOperator, left: ExprRef, right: ExprRef, arena: &mut PlanArena) -> ExprRef {
    arena.alloc_expression(ScalarExpression::Binary {
        op,
        left_expr: left,
        right_expr: right,
        evaluator: None,
        ty: LogicalType::Boolean,
    })
}

/// Writes lists and ranges with comparisons; a unary operator moves from the right operand to the
/// left one.
fn simplify(expr: ExprRef, arena: &mut PlanArena) -> ExprRef {
    enum Shape {
        Range(bool, ExprRef, ExprRef, ExprRef),
        List(bool, ExprRef, Vec<ExprRef>),
        Both(BinaryOperator, ExprRef, ExprRef),
        Other,
    }
    let shape = match arena.expression(expr) {
        ScalarExpression::Between {
            negated,
            expr,
            left_expr,
            right_expr,
        } => Shape::Range(*negated, *expr, *left_expr, *right_expr),
        ScalarExpression::In {
            negated,
            expr,
            args,
        } => Shape::List(*negated, *expr, args.clone()),
        ScalarExpression::Binary {
            op,
            left_expr,
            right_expr,
            ..
        } => Shape::Both(*op, *left_expr, *right_expr),
        _ => Shape::Other,
    };
    match shape {
        Shape::Range(negated, expr, low, high) => {
            let (below, joint, above) = if negated {
                (BinaryOperator::Lt, BinaryOperator::Or, BinaryOperator::Gt)
            } else {
                (BinaryOperator::GtEq, BinaryOperator::And, BinaryOperator::LtEq)
            };
            let left = pair(below, expr, low, arena);
            let right = pair(above, expr, high, arena);
            pair(joint, left, right, arena)
        }
        Shape::List(negated, expr, args) => {
            let (compare, joint) = if negated {
                (BinaryOperator::NotEq, BinaryOperator::And)
            } else {
                (BinaryOperator::Eq, BinaryOperator::Or)
            };
            let mut all = pair(compare, expr, args[0], arena);
            for arg in &args[1..] {
                let one = pair(compare, expr, *arg, arena);
                all = pair(joint, one, all, arena);
            }
            all
        }
        Shape::Both(op, left, right) => {
            let mut left = simplify(left, arena);
            let mut right = simplify(right, arena);
            let unary = match arena.expression(right) {
                ScalarExpression::Unary { op, expr, .. } => Some((*op, *expr)),
                _ => None,
            };
            if let Some((op, expr)) = unary {
                left = arena.alloc_expression(ScalarExpression::Unary {
                    op,
                    expr: left,
                    evaluator: None,
                    ty: LogicalType::Boolean,
                });
                right = expr;
            }
            pair(op, left, right, arena)
        }
        Shape::Other => expr,
    }
}

impl RuleLibrary for UnitRules {
    fn rewrites(
        &self,
        _rule: NormalizationRuleImpl,
        _before: Stage,
        _after: Stage,
        _res: Result<bool, DatabaseError>,
    ) -> bool {
        unreachable!()
    }

    fn recomputes(
        &self,
        _rule: NormalizationRuleImpl,
        _before: Stage,
        _after: Stage,
        _res: Result<(), DatabaseError>,
    ) -> bool {
        unreachable!()
    }

    fn apply(
        &self,
        rule: NormalizationRuleImpl,
        plan: &mut LogicalPlan,
        arena: &mut PlanArena,
    ) -> Result<bool, DatabaseError> {
        if rule == NormalizationRuleImpl::ColumnPruning {
            let mut used = Vec::new();
            used_columns(plan, arena, &mut used);
            prune(plan, &used, arena);
        }
        if rule == NormalizationRuleImpl::SimplifyFilter {
            if let Operator::Filter(op) = &mut plan.operator {
                op.predicate = simplify(op.predicate, arena);
            }
        }
        Ok(false)
    }

    fn apply_current(
        &self,
        _rule: NormalizationRuleImpl,
        _plan: &mut LogicalPlan,
        _arena: &mut PlanArena,
    ) -> Result<(), DatabaseError> {
        Ok(())
    }
}

/// What was written: the users and the names of the views.
#[derive(Debug, Default)]
struct UnitData {
    users: Vec<Vec<DataValue>>,
    views: Vec<String>,
}

#[derive(Debug, Default)]
struct UnitStorage {
    rules: UnitRules,
    data: Rc<RefCell<UnitData>>,
}

#[derive(Debug)]
struct UnitTransaction {
    data: Rc<RefCell<UnitData>>,
    open_statements: usize,
}

/// The executors that the helpers need: scans, filters and projections over the users, and the
/// statements that write or describe.
#[derive(Debug)]
enum UnitExec {
    Scan { positions: Vec<usize>, next: usize },
    Rows(VecDeque<Vec<DataValue>>),
    Filter(ExprRef, ExecId),
    Projection(Vec<ExprRef>, ExecId),
    Insert(ExecId),
    Analyze(usize, ExecId),
    View(String),
}

fn text(value: &str) -> DataValue {
    DataValue::Utf8 {
        value: value.to_string(),
        ty: Utf8Type::Variable(None),
        unit: CharLengthUnits::Characters,
    }
}

fn eval(expr: ExprRef, row: &[DataValue], arena: &PlanArena) -> DataValue {
    match arena.expression(expr) {
        ScalarExpression::Constant(value) => value.clone(),
        ScalarExpression::ColumnRef { position, .. } => row[*position].clone(),
        ScalarExpression::Binary {
            op: BinaryOperator::Eq,
            left_expr,
            right_expr,
            ..
        } => DataValue::Boolean(eval(*left_expr, row, arena) == eval(*right_expr, row, arena)),
        other => unreachable!("{other:?}"),
    }
}

impl ExecutorNode<UnitTransaction> for UnitExec {
    fn builds(
        _input: ExecInput,
        _context: ExecutionContext<'_>,
        _transaction: UnitTransaction,
        _before: Building<Self>,
        _after: Building<Self>,
        _id: ExecId,
    ) -> bool {
        unreachable!()
    }

    fn pulls(
        _before: Running<Self, UnitTransaction>,
        _after: Running<Self, UnitTransaction>,
        _res: Result<(), DatabaseError>,
    ) -> bool {
        unreachable!()
    }

    fn into_executor(
        input: ExecInput,
        arena: &mut ExecArena<'_, Self>,
        plan_arena: &mut PlanArena,
        context: ExecutionContext<'_>,
        transaction: &UnitTransaction,
    ) -> ExecId {
        let node = match input {
            ExecInput::SeqScan(op) => {
                let positions = op
                    .columns
                    .iter()
                    .map(|column| plan_arena.column(*column).id().unwrap() as usize)
                    .collect();
                ExecNode::SeqScan(UnitExec::Scan { positions, next: 0 })
            }
            ExecInput::Values(op) => ExecNode::Values(UnitExec::Rows(op.rows.into())),
            ExecInput::Filter(op, plan) => {
                let child = build_read(arena, plan_arena, plan, context, transaction);
                ExecNode::Filter(UnitExec::Filter(op.predicate, child))
            }
            ExecInput::Projection(op, plan) => {
                let child = build_read(arena, plan_arena, plan, context, transaction);
                ExecNode::Projection(UnitExec::Projection(op.exprs, child))
            }
            ExecInput::Insert(_, plan) => {
                let child = build_read(arena, plan_arena, plan, context, transaction);
                ExecNode::Insert(UnitExec::Insert(child))
            }
            ExecInput::Analyze(op, plan) => {
                let child = build_read(arena, plan_arena, plan, context, transaction);
                let buckets = op.histogram_buckets.unwrap_or(100);
                ExecNode::Analyze(UnitExec::Analyze(buckets, child))
            }
            ExecInput::CreateView(op) => ExecNode::CreateView(UnitExec::View(op.view_name)),
            ExecInput::ShowTables => {
                let names = ["orm_unit_users", "orm_unit_orders"];
                let rows = names.iter().map(|name| vec![text(name)]).collect();
                ExecNode::ShowTables(UnitExec::Rows(rows))
            }
            ExecInput::ShowViews => {
                let views = &transaction.data.borrow().views;
                let rows = views.iter().map(|name| vec![text(name)]).collect();
                ExecNode::ShowViews(UnitExec::Rows(rows))
            }
            ExecInput::Describe(op) => {
                let table = context.table_cache().get(&op.table_name).unwrap();
                let rows = table
                    .columns
                    .iter()
                    .map(|column| vec![text(plan_arena.column(*column).name())])
                    .collect();
                ExecNode::Describe(UnitExec::Rows(rows))
            }
            other => unreachable!("{other:?}"),
        };
        arena.push(node)
    }

    fn next_tuple(
        &mut self,
        arena: &mut ExecArena<'_, Self>,
        plan_arena: &mut PlanArena,
        transaction: &mut UnitTransaction,
    ) -> Result<(), DatabaseError> {
        match self {
            UnitExec::Scan { positions, next } => {
                let data = transaction.data.borrow();
                match data.users.get(*next) {
                    Some(row) => {
                        *next += 1;
                        let values = positions.iter().map(|i| row[*i].clone()).collect();
                        arena.produce_tuple(Tuple::new(None, values));
                    }
                    None => arena.finish(),
                }
            }
            UnitExec::Rows(rows) => match rows.pop_front() {
                Some(values) => arena.produce_tuple(Tuple::new(None, values)),
                None => arena.finish(),
            },
            UnitExec::Filter(predicate, child) => {
                while arena.next_tuple(*child, plan_arena, transaction)? {
                    let row = &arena.result_tuple().values;
                    if eval(*predicate, row, plan_arena) == DataValue::Boolean(true) {
                        return Ok(());
                    }
                }
            }
            UnitExec::Projection(exprs, child) => {
                if arena.next_tuple(*child, plan_arena, transaction)? {
                    let row = &arena.result_tuple().values;
                    let values = exprs.iter().map(|expr| eval(*expr, row, plan_arena)).collect();
                    arena.result_tuple_mut().values = values;
                }
            }
            UnitExec::Insert(child) => {
                while arena.next_tuple(*child, plan_arena, transaction)? {
                    let row = arena.result_tuple().values.clone();
                    transaction.data.borrow_mut().users.push(row);
                }
            }
            UnitExec::Analyze(buckets, child) => {
                let mut count = 0;
                while arena.next_tuple(*child, plan_arena, transaction)? {
                    count += 1;
                }
                if *buckets > count {
                    return Err(DatabaseError::TooManyBuckets(*buckets, count));
                }
            }
            UnitExec::View(name) => {
                transaction.data.borrow_mut().views.push(name.clone());
                arena.finish();
            }
        }
        Ok(())
    }
}

impl UnitTransaction {
    fn table(name: &str, columns: &[(&str, LogicalType, bool)], arena: &mut TableArena) -> TableCatalog {
        let mut refs = Vec::new();
        for (i, (column, ty, nullable)) in columns.iter().enumerate() {
            let primary = if i == 0 { Some(0) } else { None };
            let mut catalog = ColumnCatalog::new(
                column.to_string(),
                *nullable,
                ColumnDesc::new(ty.clone(), primary, false, None).unwrap(),
            );
            catalog.set_ref_table(name.to_string(), i as u64, false);
            refs.push(arena.alloc_column(catalog));
        }
        arena.indexes.push(IndexMeta {
            id: 0,
            column_ids: vec![0],
            table_name: name.to_string(),
            pk_ty: LogicalType::Integer,
            value_ty: LogicalType::Integer,
            name: "pk_index".to_string(),
            ty: IndexType::PrimaryKey { is_multiple: false },
        });
        TableCatalog {
            name: name.to_string(),
            primary_keys: vec![refs[0]],
            columns: refs,
            indexes: vec![IndexMetaRef(arena.indexes.len() - 1)],
        }
    }
}

impl Transaction for UnitTransaction {
    fn begins(_before: Self, _after: Self, _res: Result<(), DatabaseError>) -> bool {
        unreachable!()
    }

    fn ends(_before: Self, _after: Self, _res: Result<(), DatabaseError>) -> bool {
        unreachable!()
    }

    fn commits(self, _res: Result<(), DatabaseError>) -> bool {
        unreachable!()
    }

    fn finds_table(
        self,
        _name: Text,
        _before: TableArena,
        _after: TableArena,
        _res: Result<Option<TableCatalog>, DatabaseError>,
    ) -> bool {
        unreachable!()
    }

    fn finds_statistics(
        self,
        _name: Text,
        _index_id: IndexId,
        _res: Result<Option<StatisticsMeta>, DatabaseError>,
    ) -> bool {
        unreachable!()
    }

    fn finds_view(
        self,
        _name: Text,
        _before: TableArena,
        _after: TableArena,
        _res: Result<Option<ViewCatalog>, DatabaseError>,
    ) -> bool {
        unreachable!()
    }

    fn begin_statement_scope(&mut self) -> Result<(), DatabaseError> {
        self.open_statements += 1;
        Ok(())
    }

    fn end_statement_scope(&mut self) -> Result<(), DatabaseError> {
        self.open_statements -= 1;
        Ok(())
    }

    fn commit(self) -> Result<(), DatabaseError> {
        Ok(())
    }

    fn load_table(
        &self,
        arena: &mut TableArena,
        name: &TableName,
    ) -> Result<Option<TableCatalog>, DatabaseError> {
        let varchar = LogicalType::Varchar(None, CharLengthUnits::Characters);
        Ok(match name.as_str() {
            "orm_unit_users" => Some(Self::table(
                name,
                &[
                    ("id", LogicalType::Integer, false),
                    ("name", varchar, true),
                    ("age", LogicalType::Integer, true),
                ],
                arena,
            )),
            "orm_unit_orders" => Some(Self::table(
                name,
                &[
                    ("id", LogicalType::Integer, false),
                    ("user_id", LogicalType::Integer, true),
                    ("amount", LogicalType::Integer, true),
                ],
                arena,
            )),
            _ => None,
        })
    }

    fn statistics_meta(
        &self,
        _name: &TableName,
        _index_id: IndexId,
    ) -> Result<Option<StatisticsMeta>, DatabaseError> {
        Ok(None)
    }

    fn load_view(
        &self,
        _arena: &mut TableArena,
        _name: &TableName,
    ) -> Result<Option<ViewCatalog>, DatabaseError> {
        Ok(None)
    }
}

impl Storage for UnitStorage {
    type TransactionType = UnitTransaction;
    type Metrics = ();
    type Executor = UnitExec;
    type Rules = UnitRules;
    type Costs = NoStatistics;

    fn opens(
        self,
        _isolation: TransactionIsolationLevel,
        _res: Result<UnitTransaction, DatabaseError>,
    ) -> bool {
        unreachable!()
    }

    fn default_isolation(self) -> TransactionIsolationLevel {
        unreachable!()
    }

    fn validates(
        self,
        _isolation: TransactionIsolationLevel,
        _res: Result<(), DatabaseError>,
    ) -> bool {
        unreachable!()
    }

    fn counts(self, _res: Option<()>) -> bool {
        unreachable!()
    }

    fn rule_library(self) -> UnitRules {
        unreachable!()
    }

    fn cost_model(self, _statistics: StatisticsMetaCache) -> NoStatistics {
        unreachable!()
    }

    fn transaction_with_isolation(
        &self,
        _isolation: TransactionIsolationLevel,
    ) -> Result<UnitTransaction, DatabaseError> {
        Ok(UnitTransaction {
            open_statements: 0,
            data: Rc::clone(&self.data),
        })
    }

    fn default_transaction_isolation(&self) -> TransactionIsolationLevel {
        TransactionIsolationLevel::ReadCommitted
    }

    fn validate_transaction_isolation(
        &self,
        _isolation: TransactionIsolationLevel,
    ) -> Result<(), DatabaseError> {
        Ok(())
    }

    fn metrics(&self) -> Option<()> {
        None
    }

    fn rules(&self) -> &UnitRules {
        &self.rules
    }

    fn costs(&self, _statistics: &StatisticsMetaCache) -> NoStatistics {
        NoStatistics
    }
}

fn build_orm_unit_database() -> Result<Database<UnitStorage>, DatabaseError> {
    let mut database: Database<UnitStorage> =
        DataBaseBuilder::path("./orm-unit-test".to_string()).build_in_memory()?;
    database.load(CatalogKind::Table("orm_unit_users".to_string()))?;
    database.load(CatalogKind::Table("orm_unit_orders".to_string()))?;
    Ok(database)
}

#[test]
fn query_builder_wrappers_cover_group_having_and_join_variants() -> Result<(), DatabaseError> {
    let database = build_orm_unit_database()?;

    let grouped_plan = (&database).explain(|ctx| {
        ctx.from::<OrmUnitOrder>()?
            .project_tuple(|e| {
                let user_id = e.column(OrmUnitOrder::user_id())?;
                let amount = e.column(OrmUnitOrder::amount())?;
                Ok(vec![user_id, e.aggregate(AggKind::Sum, vec![amount])?])
            })?
            .group_by(|e| e.column(OrmUnitOrder::user_id()))?
            .having(|e| {
                let amount = e.column(OrmUnitOrder::amount())?;
                e.aggregate(AggKind::Sum, vec![amount])?.gte(200, e)
            })?
            .order_by_expr(|e| Ok(e.column(OrmUnitOrder::user_id())?.asc()))?
            .finish()
    })?;
    assert_eq!(
        grouped_plan,
        [
            "Projection [orm_unit_orders.user_id, Sum(orm_unit_orders.amount)] [Project => (Sort Option: Follow)] ",
            "Sort By orm_unit_orders.user_id Asc Nulls Last [Sort => (Sort Option: OrderBy: (orm_unit_orders.user_id Asc Nulls Last) ignore_prefix_len: 0)] ",
            "Filter (Sum(orm_unit_orders.amount) >= 200), Is Having: true [Filter => (Sort Option: Follow)] ",
            "Aggregate [Sum(orm_unit_orders.amount)] -> Group By [orm_unit_orders.user_id] [HashAggregate => (Sort Option: None)] ",
            "TableScan orm_unit_orders -> [orm_unit_orders.user_id, orm_unit_orders.amount] [SeqScan => (Sort Option: None)]",
        ]
        .concat(),
        "{grouped_plan}"
    );

    let right_join_plan = (&database).explain(|ctx| {
        ctx.from::<OrmUnitUser>()?
            .right_join::<OrmUnitOrder, _, _>(|e| {
                let user_id = e.column(OrmUnitOrder::user_id())?;
                e.column(OrmUnitUser::id())?.eq(user_id, e)
            })?
            .project_scalar(OrmUnitUser::id())?
            .finish()
    })?;
    assert_eq!(
        right_join_plan,
        [
            "Projection [orm_unit_users.id] [Project => (Sort Option: Follow)] ",
            "RightOuter Join On orm_unit_users.id = orm_unit_orders.user_id [HashJoin => (Sort Option: None)] ",
            "TableScan orm_unit_users -> [orm_unit_users.id] [SeqScan => (Sort Option: None)] ",
            "TableScan orm_unit_orders -> [orm_unit_orders.user_id] [SeqScan => (Sort Option: None)]",
        ]
        .concat(),
        "{right_join_plan}"
    );

    let full_join_plan = (&database).explain(|ctx| {
        ctx.from::<OrmUnitUser>()?
            .full_join::<OrmUnitOrder, _, _>(|e| {
                let user_id = e.column(OrmUnitOrder::user_id())?;
                e.column(OrmUnitUser::id())?.eq(user_id, e)
            })?
            .project_scalar(OrmUnitUser::id())?
            .finish()
    })?;
    assert_eq!(
        full_join_plan,
        [
            "Projection [orm_unit_users.id] [Project => (Sort Option: Follow)] ",
            "Full Join On orm_unit_users.id = orm_unit_orders.user_id [HashJoin => (Sort Option: None)] ",
            "TableScan orm_unit_users -> [orm_unit_users.id] [SeqScan => (Sort Option: None)] ",
            "TableScan orm_unit_orders -> [orm_unit_orders.user_id] [SeqScan => (Sort Option: None)]",
        ]
        .concat(),
        "{full_join_plan}"
    );

    let cross_join_plan = (&database).explain(|ctx| {
        ctx.from::<OrmUnitUser>()?
            .cross_join::<OrmUnitOrder>()?
            .project_scalars((OrmUnitUser::id(), OrmUnitOrder::id()))?
            .finish()
    })?;
    assert_eq!(
        cross_join_plan,
        [
            "Projection [orm_unit_users.id, orm_unit_orders.id] [Project => (Sort Option: Follow)] ",
            "Cross Join Nothing [NestLoopJoin => (Sort Option: None)] ",
            "TableScan orm_unit_users -> [orm_unit_users.id] [SeqScan => (Sort Option: None)] ",
            "TableScan orm_unit_orders -> [orm_unit_orders.id] [SeqScan => (Sort Option: None)]",
        ]
        .concat(),
        "{cross_join_plan}"
    );

    let inner_using_plan = (&database).explain(|ctx| {
        ctx.from::<OrmUnitUser>()?
            .inner_join_using::<OrmUnitOrder>(vec!["id".to_string()])?
            .project_scalar(OrmUnitUser::id())?
            .finish()
    })?;
    assert_eq!(
        inner_using_plan,
        [
            "Projection [orm_unit_users.id] [Project => (Sort Option: Follow)] ",
            "InnerJoinApply ",
            "TableScan orm_unit_users -> [orm_unit_users.id] [SeqScan => (Sort Option: None)] ",
            "TableScan orm_unit_orders -> [orm_unit_orders.id] [IndexScan By pk_index => Probe ? => (Sort Option: OrderBy: (orm_unit_orders.id Asc Nulls Last) ignore_prefix_len: 0)]",
        ]
        .concat(),
        "{inner_using_plan}"
    );

    let left_using_plan = (&database).explain(|ctx| {
        ctx.from::<OrmUnitUser>()?
            .left_join_using::<OrmUnitOrder>(vec!["id".to_string()])?
            .project_scalar(OrmUnitUser::id())?
            .finish()
    })?;
    assert_eq!(
        left_using_plan,
        [
            "Projection [orm_unit_users.id] [Project => (Sort Option: Follow)] ",
            "LeftOuter Join On orm_unit_users.id = orm_unit_orders.id [HashJoin => (Sort Option: None)] ",
            "TableScan orm_unit_users -> [orm_unit_users.id] [SeqScan => (Sort Option: None)] ",
            "TableScan orm_unit_orders -> [orm_unit_orders.id] [SeqScan => (Sort Option: None)]",
        ]
        .concat(),
        "{left_using_plan}"
    );

    let right_using_plan = (&database).explain(|ctx| {
        ctx.from::<OrmUnitUser>()?
            .right_join_using::<OrmUnitOrder>(vec!["id".to_string()])?
            .project_scalar(OrmUnitUser::id())?
            .finish()
    })?;
    assert_eq!(
        right_using_plan,
        [
            "Projection [orm_unit_users.id] [Project => (Sort Option: Follow)] ",
            "RightOuter Join On orm_unit_users.id = orm_unit_orders.id [HashJoin => (Sort Option: None)] ",
            "TableScan orm_unit_users -> [orm_unit_users.id] [SeqScan => (Sort Option: None)] ",
            "TableScan orm_unit_orders -> [orm_unit_orders.id] [SeqScan => (Sort Option: None)]",
        ]
        .concat(),
        "{right_using_plan}"
    );

    let full_using_plan = (&database).explain(|ctx| {
        ctx.from::<OrmUnitUser>()?
            .full_join_using::<OrmUnitOrder>(vec!["id".to_string()])?
            .project_scalar(OrmUnitUser::id())?
            .finish()
    })?;
    assert_eq!(
        full_using_plan,
        [
            "Projection [orm_unit_users.id] [Project => (Sort Option: Follow)] ",
            "Full Join On orm_unit_users.id = orm_unit_orders.id [HashJoin => (Sort Option: None)] ",
            "TableScan orm_unit_users -> [orm_unit_users.id] [SeqScan => (Sort Option: None)] ",
            "TableScan orm_unit_orders -> [orm_unit_orders.id] [SeqScan => (Sort Option: None)]",
        ]
        .concat(),
        "{full_using_plan}"
    );

    Ok(())
}

#[test]
fn query_builder_force_nested_loop_join() -> Result<(), DatabaseError> {
    let database = build_orm_unit_database()?;

    let plan = (&database).explain(|ctx| {
        ctx.from::<OrmUnitUser>()?
            .force_nested_loop()
            .inner_join::<OrmUnitOrder, _, _>(|e| {
                let user_id = e.column(OrmUnitOrder::user_id())?;
                e.column(OrmUnitUser::id())?.eq(user_id, e)
            })?
            .project_scalar(OrmUnitUser::id())?
            .finish()
    })?;
    assert_eq!(
        plan,
        [
            "Projection [orm_unit_users.id] [Project => (Sort Option: Follow)] ",
            "Inner Join On orm_unit_users.id = orm_unit_orders.user_id [NestLoopJoin => (Sort Option: None)] ",
            "TableScan orm_unit_users -> [orm_unit_users.id] [SeqScan => (Sort Option: None)] ",
            "TableScan orm_unit_orders -> [orm_unit_orders.user_id] [SeqScan => (Sort Option: None)]",
        ]
        .concat(),
        "{plan}"
    );

    Ok(())
}

#[test]
fn query_builder_force_spill_aggregate_and_distinct() -> Result<(), DatabaseError> {
    let database = build_orm_unit_database()?;

    let plan = (&database).explain(|ctx| {
        ctx.from::<OrmUnitOrder>()?
            .force_spill()?
            .project_tuple(|e| {
                let user_id = e.column(OrmUnitOrder::user_id())?;
                let amount = e.column(OrmUnitOrder::amount())?;
                Ok(vec![user_id, e.aggregate(AggKind::Sum, vec![amount])?])
            })?
            .group_by(|e| e.column(OrmUnitOrder::user_id()))?
            .order_by_expr(|e| Ok(e.column(OrmUnitOrder::user_id())?.asc()))?
            .finish()
    })?;
    assert_eq!(
        plan,
        [
            "Projection [orm_unit_orders.user_id, Sum(orm_unit_orders.amount)] [Project => (Sort Option: Follow)] ",
            "Aggregate [Sum(orm_unit_orders.amount)] -> Group By [orm_unit_orders.user_id] [StreamAggregate => (Sort Option: Follow)] ",
            "Sort By orm_unit_orders.user_id Asc Nulls Last [Sort => (Sort Option: OrderBy: (orm_unit_orders.user_id Asc Nulls Last) ignore_prefix_len: 0)] ",
            "TableScan orm_unit_orders -> [orm_unit_orders.user_id, orm_unit_orders.amount] [SeqScan => (Sort Option: None)]",
        ]
        .concat(),
        "{plan}"
    );

    let distinct_plan = (&database).explain(|ctx| {
        ctx.from::<OrmUnitOrder>()?
            .force_spill()?
            .project_scalar(OrmUnitOrder::user_id())?
            .distinct()?
            .finish()
    })?;
    assert_eq!(
        distinct_plan,
        [
            "Projection [orm_unit_orders.user_id] [Project => (Sort Option: Follow)] ",
            "Aggregate [] -> Group By [orm_unit_orders.user_id] [StreamDistinct => (Sort Option: Follow)] ",
            "Sort By orm_unit_orders.user_id Asc Nulls Last [Sort => (Sort Option: OrderBy: (orm_unit_orders.user_id Asc Nulls Last) ignore_prefix_len: 0)] ",
            "TableScan orm_unit_orders -> [orm_unit_orders.user_id] [SeqScan => (Sort Option: None)]",
        ]
        .concat(),
        "{distinct_plan}"
    );

    Ok(())
}

#[test]
fn expression_scope_helpers_build_filter_projection_and_sort_exprs() -> Result<(), DatabaseError> {
    let database = build_orm_unit_database()?;

    let expression_plan = (&database).explain(|ctx| {
        ctx.from::<OrmUnitUser>()?
            .filter(|e| {
                let age = e.column(OrmUnitUser::age())?;
                let not_null = e.is_not_null(age);
                let age = e.column(OrmUnitUser::age())?;
                let in_range = e.between(age, 18, 25);
                let name = e.column(OrmUnitUser::name())?;
                let not_bob = e.ne(name, "Bob")?;
                let name = e.column(OrmUnitUser::name())?;
                let missing = e.eq(name, "Missing")?;
                let not_missing = e.not(missing)?;
                let left = e.and(not_null, in_range)?;
                let right = e.and(not_bob, not_missing)?;
                e.and(left, right)
            })?
            .project_value(|e| {
                let name = e.column(OrmUnitUser::name())?;
                e.function("upper".to_string(), vec![name])?
                    .alias("upper_name".to_string(), e)
                    .cast(LogicalType::Varchar(None, CharLengthUnits::Characters), e)
            })?
            .order_by_expr(|e| Ok(e.column(OrmUnitUser::age())?.desc()))?
            .finish()
    })?;
    assert_eq!(
        expression_plan,
        [
            "Projection [upper_name] [Project => (Sort Option: Follow)] ",
            "Sort By orm_unit_users.age Desc Nulls Last [Sort => (Sort Option: OrderBy: (orm_unit_users.age Desc Nulls Last) ignore_prefix_len: 0)] ",
            "Filter ((orm_unit_users.age is not null && ((orm_unit_users.age >= 18) && (orm_unit_users.age <= 25))) && (!(orm_unit_users.name != Bob) && (orm_unit_users.name = Missing))), Is Having: false ",
            "[Filter => (Sort Option: Follow)] TableScan orm_unit_users -> [orm_unit_users.name, orm_unit_users.age] [SeqScan => (Sort Option: None)]",
        ]
        .concat(),
        "{expression_plan}"
    );

    let list_plan = (&database).explain(|ctx| {
        ctx.from::<OrmUnitUser>()?
            .filter(|e| {
                let id = e.column(OrmUnitUser::id())?;
                let in_list = id.in_list(vec![1, 2, 3], e)?;
                let not_in_list = id.not_in_list(vec![3], e)?;
                in_list.and(not_in_list, e)
            })?
            .project_scalar(OrmUnitUser::id())?
            .order_by_expr(|e| Ok(e.value(1_i32).asc()))?
            .finish()
    })?;
    assert_eq!(
        list_plan,
        [
            "Projection [orm_unit_users.id] [Project => (Sort Option: Follow)] ",
            "Sort By 1 Asc Nulls Last [Sort => (Sort Option: OrderBy: (1 Asc Nulls Last) ignore_prefix_len: 0)] ",
            "Filter (((orm_unit_users.id = 3) || ((orm_unit_users.id = 2) || (orm_unit_users.id = 1))) && (orm_unit_users.id != 3)), Is Having: false ",
            "[Filter => (Sort Option: Follow)] TableScan orm_unit_users -> [orm_unit_users.id] [SeqScan => (Sort Option: None)]",
        ]
        .concat(),
        "{list_plan}"
    );

    let nullable_plan = (&database).explain(|ctx| {
        ctx.from::<OrmUnitUser>()?
            .filter(|e| {
                let age = e.column(OrmUnitUser::age())?;
                let outside = e.not_between(age, 10, 30);
                let null_age = e.is_null(age);
                e.or(outside, null_age)
            })?
            .project_scalar(OrmUnitUser::id())?
            .finish()
    })?;
    assert_eq!(
        nullable_plan,
        [
            "Projection [orm_unit_users.id] [Project => (Sort Option: Follow)] ",
            "Filter (((orm_unit_users.age < 10) || (orm_unit_users.age > 30)) || orm_unit_users.age is null), Is Having: false ",
            "[Filter => (Sort Option: Follow)] TableScan orm_unit_users -> [orm_unit_users.id, orm_unit_users.age] [SeqScan => (Sort Option: None)]",
        ]
        .concat(),
        "{nullable_plan}"
    );

    Ok(())
}

fn user(id: i32, name: &str, age: Option<i32>) -> OrmUnitUser {
    OrmUnitUser {
        id,
        name: name.to_string(),
        age,
    }
}

fn all_rows<I: ResultIter, T: FromQueryRow>(mut rows: OrmIter<I, T>) -> Result<Vec<T>, DatabaseError> {
    let mut all = Vec::new();
    while let Some(row) = rows.next() {
        all.push(row?);
    }
    rows.done()?;
    Ok(all)
}

fn all_names<'a, S: BindSource<'a>>(source: S, statement: Operator) -> Result<Vec<String>, DatabaseError> {
    let mut names = source
        .execute(|_| Ok(LogicalPlan::new(statement, Childrens::Leaf)))?
        .project_value::<String>();
    let mut all = Vec::new();
    while let Some(name) = names.next() {
        all.push(name?);
    }
    names.done()?;
    Ok(all)
}

fn all_columns<'a, S: BindSource<'a>, M: Model>(source: S) -> Result<Vec<DescribeColumn>, DatabaseError> {
    let statement = Operator::Describe(DescribeOperator {
        table_name: M::table_name().to_string(),
    });
    all_rows(
        source
            .execute(|_| Ok(LogicalPlan::new(statement, Childrens::Leaf)))?
            .orm::<DescribeColumn>(),
    )
}

#[test]
fn database_and_transaction_orm_helpers_bind_expected_plans() -> Result<(), DatabaseError> {
    let mut database = build_orm_unit_database()?;
    database.execute_mut("CREATE VIEW", |ctx| {
        ctx.from::<OrmUnitUser>()?
            .project_scalars((OrmUnitUser::id(), OrmUnitUser::name()))?
            .finish()?;
        Ok(LogicalPlan::new(
            Operator::CreateView(CreateViewOperator {
                view_name: "orm_unit_user_names".to_string(),
                or_replace: false,
            }),
            Childrens::Leaf,
        ))
    })?;

    orm_insert(&database, &user(1, "Alice", Some(18)))?;
    for model in [user(2, "Bob", Some(20)), user(3, "Cara", None)] {
        orm_insert(&database, &model)?;
    }
    assert!(matches!(
        orm_analyze::<_, OrmUnitUser>(&database),
        Err(DatabaseError::TooManyBuckets(100, 3))
    ));

    assert_eq!(
        orm_get::<_, OrmUnitUser>(&database, &1)?,
        Some(OrmUnitUser {
            id: 1,
            name: "Alice".to_string(),
            age: Some(18),
        })
    );
    assert_eq!(orm_get::<_, OrmUnitUser>(&database, &9)?, None);
    assert_eq!(all_rows(orm_list::<_, OrmUnitUser>(&database)?)?.len(), 3);
    assert!(all_names(&database, Operator::ShowView)?
        .iter()
        .any(|view| view == "orm_unit_user_names"));
    assert!(all_columns::<_, OrmUnitUser>(&database)?
        .iter()
        .any(|column| column.field == "name"));

    let mut tx = database.new_transaction()?;
    orm_insert(&mut tx, &user(4, "Dora", Some(40)))?;
    for model in [user(5, "Eve", None), user(6, "Finn", Some(60))] {
        orm_insert(&mut tx, &model)?;
    }
    assert!(matches!(
        orm_analyze::<_, OrmUnitUser>(&mut tx),
        Err(DatabaseError::TooManyBuckets(100, 6))
    ));

    assert_eq!(
        orm_get::<_, OrmUnitUser>(&mut tx, &4)?.unwrap().name,
        "Dora"
    );
    assert_eq!(all_rows(orm_list::<_, OrmUnitUser>(&mut tx)?)?.len(), 6);
    assert!(all_names(&mut tx, Operator::ShowTable)?
        .iter()
        .any(|table| table == "orm_unit_users"));
    assert!(all_names(&mut tx, Operator::ShowView)?
        .iter()
        .any(|view| view == "orm_unit_user_names"));
    assert!(all_columns::<_, OrmUnitUser>(&mut tx)?
        .iter()
        .any(|column| column.field == "age"));

    let plan = (&mut tx).explain(|ctx| {
        ctx.from::<OrmUnitUser>()?
            .filter(|e| e.column(OrmUnitUser::id())?.gte(4, e))?
            .project_scalar(OrmUnitUser::name())?
            .finish()
    })?;
    assert_eq!(
        plan,
        [
            "Projection [orm_unit_users.name] [Project => (Sort Option: Follow)] ",
            "Filter (orm_unit_users.id >= 4), Is Having: false [Filter => (Sort Option: Follow)] ",
            "TableScan orm_unit_users -> [orm_unit_users.id, orm_unit_users.name] [SeqScan => (Sort Option: None)]",
        ]
        .concat(),
        "{plan}"
    );

    tx.commit()?;

    Ok(())
}

#[test]
fn unfinished_results_are_closed() -> Result<(), DatabaseError> {
    let database = build_orm_unit_database()?;
    for id in 1..4 {
        orm_insert(&database, &user(id, "Someone", None))?;
    }
    let mut tx = database.new_transaction()?;
    assert_eq!(orm_get::<_, OrmUnitUser>(&mut tx, &2)?.unwrap().id, 2);
    assert_eq!(tx.inner.open_statements, 0);

    let mut users = orm_list::<_, OrmUnitUser>(&mut tx)?;
    assert_eq!(users.next().unwrap()?.id, 1);
    assert_eq!(users.inner.transaction.open_statements, 1);
    users.close()?;
    assert_eq!(tx.inner.open_statements, 0);

    let mut users = orm_list::<_, OrmUnitUser>(&database)?;
    assert_eq!(users.next().unwrap()?.id, 1);
    users.close()?;

    // A result that ended is closed already.
    let mut users = orm_list::<_, OrmUnitUser>(&mut tx)?;
    while let Some(user) = users.next() {
        user?;
    }
    assert_eq!(users.inner.transaction.open_statements, 0);
    users.close()?;
    assert_eq!(tx.inner.open_statements, 0);
    Ok(())
}

#[test]
fn join_using_names_the_first_missing_column() -> Result<(), DatabaseError> {
    let database = build_orm_unit_database()?;
    let res = explain_orm_context(&database, |ctx| {
        ctx.from::<OrmUnitUser>()?
            .inner_join_using::<OrmUnitOrder>(vec![
                "id".to_string(),
                "far".to_string(),
                "near".to_string(),
            ])?
            .finish()
    });
    match res {
        Err(DatabaseError::ColumnNotFound { name, span: None }) => assert_eq!(name, "far"),
        other => panic!("{other:?}"),
    }
    Ok(())
}
