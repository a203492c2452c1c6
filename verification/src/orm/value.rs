//! Conversions between column values and the values of a program.

use crate::errors::DatabaseError;
use crate::orm::calendar::{
    has_decimal, in_calendar, in_day, in_decimal, moment_at, on_calendar_day,
};
use crate::types::value::{DataValue, DataValueView, Utf8Type};
use crate::types::{CharLengthUnits, LogicalType, LogicalTypeView};
use std::sync::Arc;
use vstd::prelude::*;

verus! {

/// What can be read from a column value.
pub trait FromDataValue: Sized {
    /// The type that a value is cast to before it is read.
    spec fn target() -> Option<LogicalTypeView>;

    /// Outcomes of reading a value.
    spec fn decodes(value: DataValueView, res: Result<Self, DatabaseError>) -> bool;

    /// The type that a value is cast to before it is read.
    fn logical_type() -> (res: Option<LogicalType>)
        ensures
            res is Some <==> Self::target() is Some,
            res matches Some(ty) ==> Self::target() == Some(ty@),
    ;

    /// Reads a value.
    fn from_data_value(value: DataValue) -> (res: Result<Self, DatabaseError>)
        ensures
            Self::decodes(value@, res),
    ;
}

/// What can be written as a column value.
pub trait ToDataValue {
    /// The column value.
    spec fn encoded(&self) -> DataValueView;

    /// Writes the value.
    fn to_data_value(&self) -> (res: DataValue)
        ensures
            res@ == self.encoded(),
    ;
}

/// The column that a field of a model is kept in.
pub trait ModelColumnType {
    /// The type of the column.
    spec fn column_type() -> LogicalTypeView;

    /// Whether the column may hold null.
    spec fn holds_null() -> bool;

    /// The type of the column.
    fn logical_type() -> (res: LogicalType)
        ensures
            res@ == Self::column_type(),
    ;

    /// Whether the column may hold null.
    fn nullable() -> (res: bool)
        ensures
            res == Self::holds_null(),
    ;
}

/// Fields that are kept as text.
pub trait StringType {

}

/// Fields that are kept as decimal numbers.
pub trait DecimalType {

}

/// The type of texts without a limit.
pub open spec fn text_type() -> LogicalTypeView {
    LogicalTypeView::Plain(LogicalType::Varchar(None, CharLengthUnits::Characters))
}

/// The column value of a text.
pub open spec fn text_value(text: Seq<char>) -> DataValueView {
    DataValueView::Utf8 {
        value: text,
        ty: Utf8Type::Variable(None),
        unit: CharLengthUnits::Characters,
    }
}

/// What is said of a value that cannot be read.
pub open spec fn refusal(value: DataValueView, rust_type: Seq<char>) -> Seq<char> {
    "failed to convert "@ + LogicalType::text(DataValue::type_of(value)) + " value `"@
        + DataValue::text(value) + "` into "@ + rust_type
}

/// Whether the error refuses the value.
pub open spec fn refuses(err: DatabaseError, value: DataValueView, rust_type: Seq<char>) -> bool {
    err matches DatabaseError::InvalidValue(text) && text@ == refusal(value, rust_type)
}

/// The error for a value that cannot be read as the type of that name.
pub fn invalid_from_data_value(value: &DataValue, rust_type: &str) -> (err: DatabaseError)
    ensures
        refuses(err, value@, rust_type@),
{
    let mut text = "failed to convert ".to_string();
    text.append(value.logical_type().to_string().as_str());
    text.append(" value `");
    text.append(value.to_string().as_str());
    text.append("` into ");
    text.append(rust_type);
    DatabaseError::InvalidValue(text)
}

impl FromDataValue for i8 {
    open spec fn target() -> Option<LogicalTypeView> {
        Some(LogicalTypeView::Plain(LogicalType::Tinyint))
    }

    open spec fn decodes(value: DataValueView, res: Result<Self, DatabaseError>) -> bool {
        match value {
            DataValueView::Plain(DataValue::Int8(own)) => res == Ok::<i8, DatabaseError>(own),
            _ => res matches Err(err) && refuses(err, value, "i8"@),
        }
    }

    fn logical_type() -> (res: Option<LogicalType>) {
        Some(LogicalType::Tinyint)
    }

    fn from_data_value(value: DataValue) -> (res: Result<Self, DatabaseError>) {
        match &value {
            DataValue::Int8(own) => Ok(*own),
            other => Err(invalid_from_data_value(other, "i8")),
        }
    }
}

impl ToDataValue for i8 {
    open spec fn encoded(&self) -> DataValueView {
        DataValueView::Plain(DataValue::Int8(*self))
    }

    fn to_data_value(&self) -> (res: DataValue) {
        DataValue::Int8(*self)
    }
}

impl ModelColumnType for i8 {
    open spec fn column_type() -> LogicalTypeView {
        LogicalTypeView::Plain(LogicalType::Tinyint)
    }

    open spec fn holds_null() -> bool {
        false
    }

    fn logical_type() -> (res: LogicalType) {
        LogicalType::Tinyint
    }

    fn nullable() -> (res: bool) {
        false
    }
}

impl FromDataValue for i16 {
    open spec fn target() -> Option<LogicalTypeView> {
        Some(LogicalTypeView::Plain(LogicalType::Smallint))
    }

    open spec fn decodes(value: DataValueView, res: Result<Self, DatabaseError>) -> bool {
        match value {
            DataValueView::Plain(DataValue::Int16(own)) => res == Ok::<i16, DatabaseError>(own),
            _ => res matches Err(err) && refuses(err, value, "i16"@),
        }
    }

    fn logical_type() -> (res: Option<LogicalType>) {
        Some(LogicalType::Smallint)
    }

    fn from_data_value(value: DataValue) -> (res: Result<Self, DatabaseError>) {
        match &value {
            DataValue::Int16(own) => Ok(*own),
            other => Err(invalid_from_data_value(other, "i16")),
        }
    }
}

impl ToDataValue for i16 {
    open spec fn encoded(&self) -> DataValueView {
        DataValueView::Plain(DataValue::Int16(*self))
    }

    fn to_data_value(&self) -> (res: DataValue) {
        DataValue::Int16(*self)
    }
}

impl ModelColumnType for i16 {
    open spec fn column_type() -> LogicalTypeView {
        LogicalTypeView::Plain(LogicalType::Smallint)
    }

    open spec fn holds_null() -> bool {
        false
    }

    fn logical_type() -> (res: LogicalType) {
        LogicalType::Smallint
    }

    fn nullable() -> (res: bool) {
        false
    }
}

impl FromDataValue for i32 {
    open spec fn target() -> Option<LogicalTypeView> {
        Some(LogicalTypeView::Plain(LogicalType::Integer))
    }

    open spec fn decodes(value: DataValueView, res: Result<Self, DatabaseError>) -> bool {
        match value {
            DataValueView::Plain(DataValue::Int32(own)) => res == Ok::<i32, DatabaseError>(own),
            _ => res matches Err(err) && refuses(err, value, "i32"@),
        }
    }

    fn logical_type() -> (res: Option<LogicalType>) {
        Some(LogicalType::Integer)
    }

    fn from_data_value(value: DataValue) -> (res: Result<Self, DatabaseError>) {
        match &value {
            DataValue::Int32(own) => Ok(*own),
            other => Err(invalid_from_data_value(other, "i32")),
        }
    }
}

impl ToDataValue for i32 {
    open spec fn encoded(&self) -> DataValueView {
        DataValueView::Plain(DataValue::Int32(*self))
    }

    fn to_data_value(&self) -> (res: DataValue) {
        DataValue::Int32(*self)
    }
}

impl ModelColumnType for i32 {
    open spec fn column_type() -> LogicalTypeView {
        LogicalTypeView::Plain(LogicalType::Integer)
    }

    open spec fn holds_null() -> bool {
        false
    }

    fn logical_type() -> (res: LogicalType) {
        LogicalType::Integer
    }

    fn nullable() -> (res: bool) {
        false
    }
}

impl FromDataValue for i64 {
    open spec fn target() -> Option<LogicalTypeView> {
        Some(LogicalTypeView::Plain(LogicalType::Bigint))
    }

    open spec fn decodes(value: DataValueView, res: Result<Self, DatabaseError>) -> bool {
        match value {
            DataValueView::Plain(DataValue::Int64(own)) => res == Ok::<i64, DatabaseError>(own),
            _ => res matches Err(err) && refuses(err, value, "i64"@),
        }
    }

    fn logical_type() -> (res: Option<LogicalType>) {
        Some(LogicalType::Bigint)
    }

    fn from_data_value(value: DataValue) -> (res: Result<Self, DatabaseError>) {
        match &value {
            DataValue::Int64(own) => Ok(*own),
            other => Err(invalid_from_data_value(other, "i64")),
        }
    }
}

impl ToDataValue for i64 {
    open spec fn encoded(&self) -> DataValueView {
        DataValueView::Plain(DataValue::Int64(*self))
    }

    fn to_data_value(&self) -> (res: DataValue) {
        DataValue::Int64(*self)
    }
}

impl ModelColumnType for i64 {
    open spec fn column_type() -> LogicalTypeView {
        LogicalTypeView::Plain(LogicalType::Bigint)
    }

    open spec fn holds_null() -> bool {
        false
    }

    fn logical_type() -> (res: LogicalType) {
        LogicalType::Bigint
    }

    fn nullable() -> (res: bool) {
        false
    }
}

impl FromDataValue for u8 {
    open spec fn target() -> Option<LogicalTypeView> {
        Some(LogicalTypeView::Plain(LogicalType::UTinyint))
    }

    open spec fn decodes(value: DataValueView, res: Result<Self, DatabaseError>) -> bool {
        match value {
            DataValueView::Plain(DataValue::UInt8(own)) => res == Ok::<u8, DatabaseError>(own),
            _ => res matches Err(err) && refuses(err, value, "u8"@),
        }
    }

    fn logical_type() -> (res: Option<LogicalType>) {
        Some(LogicalType::UTinyint)
    }

    fn from_data_value(value: DataValue) -> (res: Result<Self, DatabaseError>) {
        match &value {
            DataValue::UInt8(own) => Ok(*own),
            other => Err(invalid_from_data_value(other, "u8")),
        }
    }
}

impl ToDataValue for u8 {
    open spec fn encoded(&self) -> DataValueView {
        DataValueView::Plain(DataValue::UInt8(*self))
    }

    fn to_data_value(&self) -> (res: DataValue) {
        DataValue::UInt8(*self)
    }
}

impl ModelColumnType for u8 {
    open spec fn column_type() -> LogicalTypeView {
        LogicalTypeView::Plain(LogicalType::UTinyint)
    }

    open spec fn holds_null() -> bool {
        false
    }

    fn logical_type() -> (res: LogicalType) {
        LogicalType::UTinyint
    }

    fn nullable() -> (res: bool) {
        false
    }
}

impl FromDataValue for u16 {
    open spec fn target() -> Option<LogicalTypeView> {
        Some(LogicalTypeView::Plain(LogicalType::USmallint))
    }

    open spec fn decodes(value: DataValueView, res: Result<Self, DatabaseError>) -> bool {
        match value {
            DataValueView::Plain(DataValue::UInt16(own)) => res == Ok::<u16, DatabaseError>(own),
            _ => res matches Err(err) && refuses(err, value, "u16"@),
        }
    }

    fn logical_type() -> (res: Option<LogicalType>) {
        Some(LogicalType::USmallint)
    }

    fn from_data_value(value: DataValue) -> (res: Result<Self, DatabaseError>) {
        match &value {
            DataValue::UInt16(own) => Ok(*own),
            other => Err(invalid_from_data_value(other, "u16")),
        }
    }
}

impl ToDataValue for u16 {
    open spec fn encoded(&self) -> DataValueView {
        DataValueView::Plain(DataValue::UInt16(*self))
    }

    fn to_data_value(&self) -> (res: DataValue) {
        DataValue::UInt16(*self)
    }
}

impl ModelColumnType for u16 {
    open spec fn column_type() -> LogicalTypeView {
        LogicalTypeView::Plain(LogicalType::USmallint)
    }

    open spec fn holds_null() -> bool {
        false
    }

    fn logical_type() -> (res: LogicalType) {
        LogicalType::USmallint
    }

    fn nullable() -> (res: bool) {
        false
    }
}

impl FromDataValue for u32 {
    open spec fn target() -> Option<LogicalTypeView> {
        Some(LogicalTypeView::Plain(LogicalType::UInteger))
    }

    open spec fn decodes(value: DataValueView, res: Result<Self, DatabaseError>) -> bool {
        match value {
            DataValueView::Plain(DataValue::UInt32(own)) => res == Ok::<u32, DatabaseError>(own),
            _ => res matches Err(err) && refuses(err, value, "u32"@),
        }
    }

    fn logical_type() -> (res: Option<LogicalType>) {
        Some(LogicalType::UInteger)
    }

    fn from_data_value(value: DataValue) -> (res: Result<Self, DatabaseError>) {
        match &value {
            DataValue::UInt32(own) => Ok(*own),
            other => Err(invalid_from_data_value(other, "u32")),
        }
    }
}

impl ToDataValue for u32 {
    open spec fn encoded(&self) -> DataValueView {
        DataValueView::Plain(DataValue::UInt32(*self))
    }

    fn to_data_value(&self) -> (res: DataValue) {
        DataValue::UInt32(*self)
    }
}

impl ModelColumnType for u32 {
    open spec fn column_type() -> LogicalTypeView {
        LogicalTypeView::Plain(LogicalType::UInteger)
    }

    open spec fn holds_null() -> bool {
        false
    }

    fn logical_type() -> (res: LogicalType) {
        LogicalType::UInteger
    }

    fn nullable() -> (res: bool) {
        false
    }
}

impl FromDataValue for u64 {
    open spec fn target() -> Option<LogicalTypeView> {
        Some(LogicalTypeView::Plain(LogicalType::UBigint))
    }

    open spec fn decodes(value: DataValueView, res: Result<Self, DatabaseError>) -> bool {
        match value {
            DataValueView::Plain(DataValue::UInt64(own)) => res == Ok::<u64, DatabaseError>(own),
            _ => res matches Err(err) && refuses(err, value, "u64"@),
        }
    }

    fn logical_type() -> (res: Option<LogicalType>) {
        Some(LogicalType::UBigint)
    }

    fn from_data_value(value: DataValue) -> (res: Result<Self, DatabaseError>) {
        match &value {
            DataValue::UInt64(own) => Ok(*own),
            other => Err(invalid_from_data_value(other, "u64")),
        }
    }
}

impl ToDataValue for u64 {
    open spec fn encoded(&self) -> DataValueView {
        DataValueView::Plain(DataValue::UInt64(*self))
    }

    fn to_data_value(&self) -> (res: DataValue) {
        DataValue::UInt64(*self)
    }
}

impl ModelColumnType for u64 {
    open spec fn column_type() -> LogicalTypeView {
        LogicalTypeView::Plain(LogicalType::UBigint)
    }

    open spec fn holds_null() -> bool {
        false
    }

    fn logical_type() -> (res: LogicalType) {
        LogicalType::UBigint
    }

    fn nullable() -> (res: bool) {
        false
    }
}

impl FromDataValue for bool {
    open spec fn target() -> Option<LogicalTypeView> {
        Some(LogicalTypeView::Plain(LogicalType::Boolean))
    }

    open spec fn decodes(value: DataValueView, res: Result<Self, DatabaseError>) -> bool {
        match value {
            DataValueView::Plain(DataValue::Boolean(own)) => res == Ok::<bool, DatabaseError>(own),
            _ => res matches Err(err) && refuses(err, value, "bool"@),
        }
    }

    fn logical_type() -> (res: Option<LogicalType>) {
        Some(LogicalType::Boolean)
    }

    fn from_data_value(value: DataValue) -> (res: Result<Self, DatabaseError>) {
        match &value {
            DataValue::Boolean(own) => Ok(*own),
            other => Err(invalid_from_data_value(other, "bool")),
        }
    }
}

impl ToDataValue for bool {
    open spec fn encoded(&self) -> DataValueView {
        DataValueView::Plain(DataValue::Boolean(*self))
    }

    fn to_data_value(&self) -> (res: DataValue) {
        DataValue::Boolean(*self)
    }
}

impl ModelColumnType for bool {
    open spec fn column_type() -> LogicalTypeView {
        LogicalTypeView::Plain(LogicalType::Boolean)
    }

    open spec fn holds_null() -> bool {
        false
    }

    fn logical_type() -> (res: LogicalType) {
        LogicalType::Boolean
    }

    fn nullable() -> (res: bool) {
        false
    }
}

impl FromDataValue for String {
    open spec fn target() -> Option<LogicalTypeView> {
        Some(text_type())
    }

    open spec fn decodes(value: DataValueView, res: Result<Self, DatabaseError>) -> bool {
        match value {
            DataValueView::Utf8 { value: text, .. } => res matches Ok(own) && own@ == text,
            _ => res matches Err(err) && refuses(err, value, "alloc::string::String"@),
        }
    }

    fn logical_type() -> (res: Option<LogicalType>) {
        Some(LogicalType::Varchar(None, CharLengthUnits::Characters))
    }

    fn from_data_value(value: DataValue) -> (res: Result<Self, DatabaseError>) {
        match value {
            DataValue::Utf8 { value, .. } => Ok(value),
            other => Err(invalid_from_data_value(&other, "alloc::string::String")),
        }
    }
}

impl ToDataValue for String {
    open spec fn encoded(&self) -> DataValueView {
        text_value(self@)
    }

    fn to_data_value(&self) -> (res: DataValue) {
        DataValue::utf8(self.clone())
    }
}

impl ModelColumnType for String {
    open spec fn column_type() -> LogicalTypeView {
        text_type()
    }

    open spec fn holds_null() -> bool {
        false
    }

    fn logical_type() -> (res: LogicalType) {
        LogicalType::Varchar(None, CharLengthUnits::Characters)
    }

    fn nullable() -> (res: bool) {
        false
    }
}

impl StringType for String {

}

/// Shares a text. The conversion of `std` from `String` to `Arc<str>` keeps the characters.
#[verifier::external_body]
fn shared_text(text: String) -> (res: Arc<str>)
    ensures
        res@ == text@,
{
    Arc::from(text)
}

/// Copies a shared text. `to_string` of `std` on `str` keeps the characters.
#[verifier::external_body]
fn owned_text(text: &Arc<str>) -> (res: String)
    ensures
        res@ == text@,
{
    text.to_string()
}

impl FromDataValue for Arc<str> {
    open spec fn target() -> Option<LogicalTypeView> {
        Some(text_type())
    }

    open spec fn decodes(value: DataValueView, res: Result<Self, DatabaseError>) -> bool {
        match value {
            DataValueView::Utf8 { value: text, .. } => res matches Ok(own) && own@ == text,
            _ => res matches Err(err) && refuses(err, value, "alloc::sync::Arc<str>"@),
        }
    }

    fn logical_type() -> (res: Option<LogicalType>) {
        Some(LogicalType::Varchar(None, CharLengthUnits::Characters))
    }

    fn from_data_value(value: DataValue) -> (res: Result<Self, DatabaseError>) {
        match value {
            DataValue::Utf8 { value, .. } => Ok(shared_text(value)),
            other => Err(invalid_from_data_value(&other, "alloc::sync::Arc<str>")),
        }
    }
}

impl ToDataValue for Arc<str> {
    open spec fn encoded(&self) -> DataValueView {
        text_value(self@)
    }

    fn to_data_value(&self) -> (res: DataValue) {
        DataValue::utf8(owned_text(self))
    }
}

impl ModelColumnType for Arc<str> {
    open spec fn column_type() -> LogicalTypeView {
        text_type()
    }

    open spec fn holds_null() -> bool {
        false
    }

    fn logical_type() -> (res: LogicalType) {
        LogicalType::Varchar(None, CharLengthUnits::Characters)
    }

    fn nullable() -> (res: bool) {
        false
    }
}

impl StringType for Arc<str> {

}

impl ToDataValue for &str {
    open spec fn encoded(&self) -> DataValueView {
        text_value(self@)
    }

    fn to_data_value(&self) -> (res: DataValue) {
        DataValue::utf8((*self).to_string())
    }
}

impl<T: FromDataValue> FromDataValue for Option<T> {
    open spec fn target() -> Option<LogicalTypeView> {
        T::target()
    }

    open spec fn decodes(value: DataValueView, res: Result<Self, DatabaseError>) -> bool {
        if value == DataValueView::Plain(DataValue::Null) {
            res == Ok::<Option<T>, DatabaseError>(None)
        } else {
            match res {
                Ok(Some(own)) => T::decodes(value, Ok(own)),
                Ok(None) => false,
                Err(err) => T::decodes(value, Err(err)),
            }
        }
    }

    fn logical_type() -> (res: Option<LogicalType>) {
        T::logical_type()
    }

    fn from_data_value(value: DataValue) -> (res: Result<Self, DatabaseError>) {
        match value {
            DataValue::Null => Ok(None),
            other => match T::from_data_value(other) {
                Ok(own) => Ok(Some(own)),
                Err(err) => Err(err),
            },
        }
    }
}

impl<T: ToDataValue> ToDataValue for Option<T> {
    open spec fn encoded(&self) -> DataValueView {
        match self {
            Some(value) => value.encoded(),
            None => DataValueView::Plain(DataValue::Null),
        }
    }

    fn to_data_value(&self) -> (res: DataValue) {
        match self {
            Some(value) => value.to_data_value(),
            None => DataValue::Null,
        }
    }
}

impl<T: ModelColumnType> ModelColumnType for Option<T> {
    open spec fn column_type() -> LogicalTypeView {
        T::column_type()
    }

    open spec fn holds_null() -> bool {
        true
    }

    fn logical_type() -> (res: LogicalType) {
        T::logical_type()
    }

    fn nullable() -> (res: bool) {
        true
    }
}

impl<T: StringType> StringType for Option<T> {

}

impl<T: DecimalType> DecimalType for Option<T> {

}

/// A calendar date, as the number of its day: January 1 of the year 1 is day 1.
#[derive(Clone, Copy, Debug, PartialEq, Eq, Hash, Structural)]
pub struct Date(pub i32);

/// A point in time, in seconds since January 1, 1970.
#[derive(Clone, Copy, Debug, PartialEq, Eq, Hash, Structural)]
pub struct DateTime(pub i64);

/// A time of day, in seconds since midnight.
#[derive(Clone, Copy, Debug, PartialEq, Eq, Hash, Structural)]
pub struct Time(pub u32);

/// A decimal number: its digits, and how many of them stand behind the point.
#[derive(Clone, Copy, Debug, PartialEq, Eq, Hash, Structural)]
pub struct Decimal {
    pub mantissa: i128,
    pub scale: u32,
}

impl FromDataValue for Date {
    open spec fn target() -> Option<LogicalTypeView> {
        Some(LogicalTypeView::Plain(LogicalType::Date))
    }

    open spec fn decodes(value: DataValueView, res: Result<Self, DatabaseError>) -> bool {
        match value {
            DataValueView::Plain(DataValue::Date32(days)) if in_calendar(days as int) => res
                == Ok::<Date, DatabaseError>(Date(days)),
            _ => res matches Err(err) && refuses(err, value, "Date"@),
        }
    }

    fn logical_type() -> (res: Option<LogicalType>) {
        Some(LogicalType::Date)
    }

    fn from_data_value(value: DataValue) -> (res: Result<Self, DatabaseError>) {
        if let DataValue::Date32(days) = &value {
            if chrono::NaiveDate::from_num_days_from_ce_opt(*days).is_some() {
                return Ok(Date(*days));
            }
        }
        Err(invalid_from_data_value(&value, "Date"))
    }
}

impl ToDataValue for Date {
    open spec fn encoded(&self) -> DataValueView {
        DataValueView::Plain(DataValue::Date32(self.0))
    }

    fn to_data_value(&self) -> (res: DataValue) {
        DataValue::Date32(self.0)
    }
}

impl ModelColumnType for Date {
    open spec fn column_type() -> LogicalTypeView {
        LogicalTypeView::Plain(LogicalType::Date)
    }

    open spec fn holds_null() -> bool {
        false
    }

    fn logical_type() -> (res: LogicalType) {
        LogicalType::Date
    }

    fn nullable() -> (res: bool) {
        false
    }
}

impl FromDataValue for DateTime {
    open spec fn target() -> Option<LogicalTypeView> {
        Some(LogicalTypeView::Plain(LogicalType::DateTime))
    }

    open spec fn decodes(value: DataValueView, res: Result<Self, DatabaseError>) -> bool {
        match value {
            DataValueView::Plain(DataValue::Date64(seconds)) if on_calendar_day(
                seconds as int,
            ) => res == Ok::<DateTime, DatabaseError>(DateTime(seconds)),
            _ => res matches Err(err) && refuses(err, value, "DateTime"@),
        }
    }

    fn logical_type() -> (res: Option<LogicalType>) {
        Some(LogicalType::DateTime)
    }

    fn from_data_value(value: DataValue) -> (res: Result<Self, DatabaseError>) {
        if let DataValue::Date64(seconds) = &value {
            if moment_at(*seconds, 0).is_some() {
                return Ok(DateTime(*seconds));
            }
        }
        Err(invalid_from_data_value(&value, "DateTime"))
    }
}

impl ToDataValue for DateTime {
    open spec fn encoded(&self) -> DataValueView {
        DataValueView::Plain(DataValue::Date64(self.0))
    }

    fn to_data_value(&self) -> (res: DataValue) {
        DataValue::Date64(self.0)
    }
}

impl ModelColumnType for DateTime {
    open spec fn column_type() -> LogicalTypeView {
        LogicalTypeView::Plain(LogicalType::DateTime)
    }

    open spec fn holds_null() -> bool {
        false
    }

    fn logical_type() -> (res: LogicalType) {
        LogicalType::DateTime
    }

    fn nullable() -> (res: bool) {
        false
    }
}

impl FromDataValue for Time {
    open spec fn target() -> Option<LogicalTypeView> {
        Some(LogicalTypeView::Plain(LogicalType::Time(Some(0))))
    }

    open spec fn decodes(value: DataValueView, res: Result<Self, DatabaseError>) -> bool {
        match value {
            DataValueView::Plain(DataValue::Time32(seconds, _)) if in_day(seconds as int, 0) => res
                == Ok::<Time, DatabaseError>(Time(seconds)),
            _ => res matches Err(err) && refuses(err, value, "Time"@),
        }
    }

    fn logical_type() -> (res: Option<LogicalType>) {
        Some(LogicalType::Time(Some(0)))
    }

    fn from_data_value(value: DataValue) -> (res: Result<Self, DatabaseError>) {
        if let DataValue::Time32(seconds, _) = &value {
            if chrono::NaiveTime::from_num_seconds_from_midnight_opt(*seconds, 0).is_some() {
                return Ok(Time(*seconds));
            }
        }
        Err(invalid_from_data_value(&value, "Time"))
    }
}

impl ToDataValue for Time {
    open spec fn encoded(&self) -> DataValueView {
        DataValueView::Plain(DataValue::Time32(self.0, 0))
    }

    fn to_data_value(&self) -> (res: DataValue) {
        DataValue::Time32(self.0, 0)
    }
}

impl ModelColumnType for Time {
    open spec fn column_type() -> LogicalTypeView {
        LogicalTypeView::Plain(LogicalType::Time(Some(0)))
    }

    open spec fn holds_null() -> bool {
        false
    }

    fn logical_type() -> (res: LogicalType) {
        LogicalType::Time(Some(0))
    }

    fn nullable() -> (res: bool) {
        false
    }
}

impl FromDataValue for Decimal {
    open spec fn target() -> Option<LogicalTypeView> {
        Some(LogicalTypeView::Plain(LogicalType::Decimal(None, None)))
    }

    open spec fn decodes(value: DataValueView, res: Result<Self, DatabaseError>) -> bool {
        match value {
            DataValueView::Plain(DataValue::Decimal(mantissa, scale)) if in_decimal(
                mantissa as int,
                scale as int,
            ) => res == Ok::<Decimal, DatabaseError>((Decimal { mantissa, scale })),
            _ => res matches Err(err) && refuses(err, value, "Decimal"@),
        }
    }

    fn logical_type() -> (res: Option<LogicalType>) {
        Some(LogicalType::Decimal(None, None))
    }

    fn from_data_value(value: DataValue) -> (res: Result<Self, DatabaseError>) {
        if let DataValue::Decimal(mantissa, scale) = &value {
            if has_decimal(*mantissa, *scale) {
                return Ok(Decimal { mantissa: *mantissa, scale: *scale });
            }
        }
        Err(invalid_from_data_value(&value, "Decimal"))
    }
}

impl ToDataValue for Decimal {
    open spec fn encoded(&self) -> DataValueView {
        DataValueView::Plain(DataValue::Decimal(self.mantissa, self.scale))
    }

    fn to_data_value(&self) -> (res: DataValue) {
        DataValue::Decimal(self.mantissa, self.scale)
    }
}

impl ModelColumnType for Decimal {
    open spec fn column_type() -> LogicalTypeView {
        LogicalTypeView::Plain(LogicalType::Decimal(None, None))
    }

    open spec fn holds_null() -> bool {
        false
    }

    fn logical_type() -> (res: LogicalType) {
        LogicalType::Decimal(None, None)
    }

    fn nullable() -> (res: bool) {
        false
    }
}

impl DecimalType for Decimal {

}

/// Whether reading what was written gives the value back: the cast leaves it alone, and nothing
/// but the value itself can be read.
pub open spec fn round_trips<T: FromDataValue + ToDataValue>(value: T) -> bool {
    &&& T::target() matches Some(ty) ==> DataValue::cast_view(value.encoded(), ty) == Some(
        value.encoded(),
    )
    &&& forall|res: Result<T, DatabaseError>| #[trigger]
        T::decodes(value.encoded(), res) ==> res == Ok::<T, DatabaseError>(value)
}

/// Numbers and truth values are read back as they were written.
pub proof fn numbers_round_trip(
    a: i8,
    b: i16,
    c: i32,
    d: i64,
    e: u8,
    f: u16,
    g: u32,
    h: u64,
    i: bool,
)
    ensures
        round_trips(a),
        round_trips(b),
        round_trips(c),
        round_trips(d),
        round_trips(e),
        round_trips(f),
        round_trips(g),
        round_trips(h),
        round_trips(i),
{
}

/// Dates, times and decimal numbers are read back as they were written, as far as calendar, clock
/// and decimal numbers reach.
pub proof fn times_round_trip(date: Date, moment: DateTime, time: Time, decimal: Decimal)
    requires
        in_calendar(date.0 as int),
        on_calendar_day(moment.0 as int),
        in_day(time.0 as int, 0),
        in_decimal(decimal.mantissa as int, decimal.scale as int),
    ensures
        round_trips(date),
        round_trips(moment),
        forall|res: Result<Time, DatabaseError>| #[trigger]
            Time::decodes(time.encoded(), res) ==> res == Ok::<Time, DatabaseError>(time),
        forall|res: Result<Decimal, DatabaseError>| #[trigger]
            Decimal::decodes(decimal.encoded(), res) ==> res == Ok::<Decimal, DatabaseError>(
                decimal,
            ),
{
}

/// A text is read back with the characters that were written.
pub proof fn texts_round_trip(text: String, res: Result<String, DatabaseError>)
    requires
        String::decodes(text.encoded(), res),
    ensures
        res matches Ok(own) && own@ == text@,
        DataValue::cast_view(text.encoded(), text_type()) == Some(text.encoded()),
{
}

/// A missing value is read back as missing, and a present one as itself, unless it is written as
/// null.
pub proof fn options_round_trip<T: FromDataValue + ToDataValue>(value: Option<T>)
    requires
        value matches Some(own) ==> round_trips(own) && own.encoded() != DataValueView::Plain(
            DataValue::Null,
        ),
    ensures
        round_trips(value),
{
    assert forall|res: Result<Option<T>, DatabaseError>| #[trigger]
        Option::<T>::decodes(value.encoded(), res) implies res == Ok::<
        Option<T>,
        DatabaseError,
    >(value) by {
        if let Some(own) = value {
            match res {
                Ok(Some(read)) => {
                    let inner: Result<T, DatabaseError> = Ok(read);
                    assert(T::decodes(own.encoded(), inner));
                },
                Ok(None) => {},
                Err(err) => {
                    let inner: Result<T, DatabaseError> = Err(err);
                    assert(T::decodes(own.encoded(), inner));
                },
            }
        }
    }
}

} // verus!
