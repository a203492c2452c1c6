//! The error type shared by planning, optimization and result decoding.

use crate::types::LogicalType;
use vstd::prelude::*;

verus! {

/// Everything that can go wrong while a statement is bound, optimized or decoded.
#[derive(Debug, PartialEq, Eq)]
pub enum DatabaseError {
    /// A cast between two logical types is not possible for the given value.
    CastFail { from: LogicalType, to: LogicalType },
    /// A column was not found by name.
    ColumnNotFound { name: String, span: Option<(usize, usize)> },
    /// A statement that needs at least one column got none.
    ColumnsEmpty,
    /// A column without default was asked for its default.
    DefaultNotExist,
    /// A function call does not resolve.
    FunctionNotFound { name: String },
    /// A column name that does not fit here.
    InvalidColumn { name: String },
    /// An index without the order information that it must carry.
    InvalidIndex,
    /// A table name that does not fit here.
    InvalidTable { name: String },
    /// A value outside its domain.
    InvalidValue(String),
    /// Two things that must agree do not.
    MisMatch(&'static str, &'static str),
    /// A null for a column that forbids it.
    NotNullColumn { name: String },
    /// A parameter was not supplied.
    ParameterNotFound { name: String },
    /// A primary key column is missing.
    PrimaryKeyNotFound,
    /// The table does not exist.
    TableNotFound,
    /// A text longer than its column allows.
    TooLong,
    /// A histogram with more buckets than there are values.
    TooManyBuckets(usize, usize),
    /// A result has more rows than can be counted.
    TooManyRows,
    /// The requested isolation level is not offered by the storage.
    UnsupportedIsolation,
    /// A statement that this build cannot run.
    UnsupportedStmt(String),
    /// A row with another number of values than columns.
    ValuesLenMismatch(usize, usize),
    /// The view does not exist.
    ViewNotFound,
    /// An error together with the statement that it came from.
    InStatement { context: String, source: Box<DatabaseError> },
}

impl DatabaseError {
    /// The error for an unknown column.
    pub fn column_not_found(name: String) -> (err: Self)
        ensures
            err == (DatabaseError::ColumnNotFound { name, span: None }),
    {
        DatabaseError::ColumnNotFound { name, span: None }
    }

    /// The error for a column name that does not fit.
    pub fn invalid_column(name: String) -> (err: Self)
        ensures
            err == (DatabaseError::InvalidColumn { name }),
    {
        DatabaseError::InvalidColumn { name }
    }

    /// The error for a table name that does not fit.
    pub fn invalid_table(name: String) -> (err: Self)
        ensures
            err == (DatabaseError::InvalidTable { name }),
    {
        DatabaseError::InvalidTable { name }
    }

    /// The error for a null in a column that forbids it.
    pub fn not_null_column(name: String) -> (err: Self)
        ensures
            err == (DatabaseError::NotNullColumn { name }),
    {
        DatabaseError::NotNullColumn { name }
    }

    /// The error for a parameter that was not supplied.
    pub fn parameter_not_found(name: String) -> (err: Self)
        ensures
            err == (DatabaseError::ParameterNotFound { name }),
    {
        DatabaseError::ParameterNotFound { name }
    }

    /// Attaches the statement that was running.
    pub fn with_sql_context(self, context: &str) -> (err: Self)
        ensures
            err matches DatabaseError::InStatement { context: c, source } && c@ == context@
                && *source == self,
    {
        DatabaseError::InStatement { context: context.to_string(), source: Box::new(self) }
    }

    /// The message of the error, as far as it carries one of its own.
    pub open spec fn message(self) -> Seq<char>
        decreases self,
    {
        match self {
            DatabaseError::CastFail { .. } => "the value cannot be cast to the requested type"@,
            DatabaseError::ColumnNotFound { name, .. } => "column not found: "@ + name@,
            DatabaseError::ColumnsEmpty => "columns empty"@,
            DatabaseError::DefaultNotExist => "default cannot exist"@,
            DatabaseError::FunctionNotFound { name } => "function not found: "@ + name@,
            DatabaseError::InvalidColumn { name } => "invalid column: "@ + name@,
            DatabaseError::InvalidIndex => "invalid index"@,
            DatabaseError::InvalidTable { name } => "invalid table: "@ + name@,
            DatabaseError::InvalidValue(text) => "invalid value: "@ + text@,
            DatabaseError::MisMatch(left, right) => "mismatch: "@ + left@ + " and "@ + right@,
            DatabaseError::NotNullColumn { name } => "cannot be null: "@ + name@,
            DatabaseError::ParameterNotFound { name } => "parameter not found: "@ + name@,
            DatabaseError::PrimaryKeyNotFound => "primary key not found"@,
            DatabaseError::TableNotFound => "the table does not exist"@,
            DatabaseError::TooLong => "the value is too long"@,
            DatabaseError::TooManyBuckets(..) => "there are more buckets than values"@,
            DatabaseError::TooManyRows => "there are more rows than can be counted"@,
            DatabaseError::UnsupportedIsolation => "the isolation level is not supported"@,
            DatabaseError::UnsupportedStmt(text) => "unsupported statement: "@ + text@,
            DatabaseError::ValuesLenMismatch(..) => "values length does not match"@,
            DatabaseError::ViewNotFound => "the view does not exist"@,
            DatabaseError::InStatement { context, source } => context@ + ": "@ + source.message(),
        }
    }

    /// Renders the message.
    pub fn to_string(&self) -> (text: String)
        ensures
            text@ == self.message(),
        decreases self,
    {
        match self {
            DatabaseError::CastFail { .. } =>
                "the value cannot be cast to the requested type".to_string(),
            DatabaseError::ColumnNotFound { name, .. } => labelled("column not found: ", name),
            DatabaseError::ColumnsEmpty => "columns empty".to_string(),
            DatabaseError::DefaultNotExist => "default cannot exist".to_string(),
            DatabaseError::FunctionNotFound { name } => labelled("function not found: ", name),
            DatabaseError::InvalidColumn { name } => labelled("invalid column: ", name),
            DatabaseError::InvalidIndex => "invalid index".to_string(),
            DatabaseError::InvalidTable { name } => labelled("invalid table: ", name),
            DatabaseError::InvalidValue(text) => labelled("invalid value: ", text),
            DatabaseError::MisMatch(left, right) => {
                let mut text = "mismatch: ".to_string();
                text.append(left);
                text.append(" and ");
                text.append(right);
                text
            },
            DatabaseError::NotNullColumn { name } => labelled("cannot be null: ", name),
            DatabaseError::ParameterNotFound { name } => labelled("parameter not found: ", name),
            DatabaseError::PrimaryKeyNotFound => "primary key not found".to_string(),
            DatabaseError::TableNotFound => "the table does not exist".to_string(),
            DatabaseError::TooLong => "the value is too long".to_string(),
            DatabaseError::TooManyBuckets(..) => "there are more buckets than values".to_string(),
            DatabaseError::TooManyRows => "there are more rows than can be counted".to_string(),
            DatabaseError::UnsupportedIsolation => {
                "the isolation level is not supported".to_string()
            },
            DatabaseError::UnsupportedStmt(text) => labelled("unsupported statement: ", text),
            DatabaseError::ValuesLenMismatch(..) => "values length does not match".to_string(),
            DatabaseError::ViewNotFound => "the view does not exist".to_string(),
            DatabaseError::InStatement { context, source } => {
                let mut text = context.clone();
                text.append(": ");
                text.append(source.to_string().as_str());
                text
            },
        }
    }
}

fn labelled(label: &str, rest: &String) -> (text: String)
    ensures
        text@ == label@ + rest@,
{
    let mut text = label.to_string();
    text.append(rest.as_str());
    text
}

} // verus!
