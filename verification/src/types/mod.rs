//! Logical column types.

pub mod index;
pub mod tuple;
pub mod value;
pub mod value_laws;

use crate::text::{decimal_text, unsigned_text};
use vstd::prelude::*;

verus! {

/// Number by which a table knows one of its columns.
pub type ColumnId = u64;

/// Unit in which the length of a text column is counted.
#[derive(Clone, Copy, Debug, PartialEq, Eq, Hash, Structural)]
pub enum CharLengthUnits {
    Characters,
    Octets,
}

/// Type of a column or of an expression.
#[derive(Debug, PartialEq, Eq, Hash)]
pub enum LogicalType {
    SqlNull,
    Boolean,
    Tinyint,
    UTinyint,
    Smallint,
    USmallint,
    Integer,
    UInteger,
    Bigint,
    UBigint,
    Float,
    Double,
    Char(u32, CharLengthUnits),
    Varchar(Option<u32>, CharLengthUnits),
    Date,
    DateTime,
    Time(Option<u64>),
    TimeStamp(Option<u64>, bool),
    Decimal(Option<u8>, Option<u8>),
    Tuple(Vec<LogicalType>),
}

/// Mathematical model of a [`LogicalType`]: a plain type, or a sequence of types.
pub enum LogicalTypeView {
    Plain(LogicalType),
    Tuple(Seq<LogicalTypeView>),
}

impl LogicalType {
    pub open spec fn view(&self) -> LogicalTypeView
        decreases self,
    {
        match self {
            LogicalType::Tuple(types) => LogicalTypeView::Tuple(
                Seq::new(
                    types@.len(),
                    |i: int|
                        if 0 <= i < types@.len() {
                            types@[i].view()
                        } else {
                            arbitrary()
                        },
                ),
            ),
            plain => LogicalTypeView::Plain(*plain),
        }
    }

    /// Whether two types are the same.
    pub fn same(&self, other: &LogicalType) -> (same: bool)
        ensures
            same == (self@ == other@),
        decreases self,
    {
        match (self, other) {
            (LogicalType::Tuple(left), LogicalType::Tuple(right)) => {
                if left.len() != right.len() {
                    assert(self@->Tuple_0.len() != other@->Tuple_0.len());
                    return false;
                }
                let mut i: usize = 0;
                while i < left.len()
                    invariant
                        i <= left.len(),
                        left.len() == right.len(),
                        *self == LogicalType::Tuple(*left),
                        *other == LogicalType::Tuple(*right),
                        forall|j: int| 0 <= j < i ==> left@[j]@ == right@[j]@,
                    decreases left.len() - i,
                {
                    assert(decreases_to!(*self => self->Tuple_0@[i as int]));
                    if !left[i].same(&right[i]) {
                        assert(self@->Tuple_0[i as int] != other@->Tuple_0[i as int]);
                        return false;
                    }
                    i += 1;
                }
                assert(self@->Tuple_0 =~= other@->Tuple_0);
                true
            },
            (LogicalType::Char(n, u), LogicalType::Char(m, v)) => *n == *m && *u == *v,
            (LogicalType::Varchar(n, u), LogicalType::Varchar(m, v)) => {
                same_length(n, m) && *u == *v
            },
            (LogicalType::Time(n), LogicalType::Time(m)) => same_precision(n, m),
            (LogicalType::TimeStamp(n, u), LogicalType::TimeStamp(m, v)) => {
                same_precision(n, m) && *u == *v
            },
            (LogicalType::Decimal(n, u), LogicalType::Decimal(m, v)) => {
                same_digits(n, m) && same_digits(u, v)
            },
            (LogicalType::SqlNull, LogicalType::SqlNull)
            | (LogicalType::Boolean, LogicalType::Boolean)
            | (LogicalType::Tinyint, LogicalType::Tinyint)
            | (LogicalType::UTinyint, LogicalType::UTinyint)
            | (LogicalType::Smallint, LogicalType::Smallint)
            | (LogicalType::USmallint, LogicalType::USmallint)
            | (LogicalType::Integer, LogicalType::Integer)
            | (LogicalType::UInteger, LogicalType::UInteger)
            | (LogicalType::Bigint, LogicalType::Bigint)
            | (LogicalType::UBigint, LogicalType::UBigint)
            | (LogicalType::Float, LogicalType::Float)
            | (LogicalType::Double, LogicalType::Double)
            | (LogicalType::Date, LogicalType::Date)
            | (LogicalType::DateTime, LogicalType::DateTime) => true,
            _ => false,
        }
    }

    /// The text of a type, as it is shown in messages.
    pub open spec fn text(view: LogicalTypeView) -> Seq<char>
        decreases view,
    {
        match view {
            LogicalTypeView::Plain(ty) => match ty {
                LogicalType::SqlNull => "SqlNull"@,
                LogicalType::Boolean => "Boolean"@,
                LogicalType::Tinyint => "Tinyint"@,
                LogicalType::UTinyint => "UTinyint"@,
                LogicalType::Smallint => "Smallint"@,
                LogicalType::USmallint => "USmallint"@,
                LogicalType::Integer => "Integer"@,
                LogicalType::UInteger => "UInteger"@,
                LogicalType::Bigint => "Bigint"@,
                LogicalType::UBigint => "UBigint"@,
                LogicalType::Float => "Float"@,
                LogicalType::Double => "Double"@,
                LogicalType::Char(len, unit) => "Char("@ + decimal_text(len as int) + ", "@
                    + unit_text(unit) + ")"@,
                LogicalType::Varchar(len, unit) => "Varchar("@ + option_text(
                    match len {
                        Some(n) => Some(n as nat),
                        None => None,
                    },
                ) + ", "@ + unit_text(unit) + ")"@,
                LogicalType::Date => "Date"@,
                LogicalType::DateTime => "DateTime"@,
                LogicalType::Time(p) => "Time("@ + option_text(
                    match p {
                        Some(n) => Some(n as nat),
                        None => None,
                    },
                ) + ")"@,
                LogicalType::TimeStamp(p, zone) => "TimeStamp("@ + option_text(
                    match p {
                        Some(n) => Some(n as nat),
                        None => None,
                    },
                ) + ", "@ + (if zone { "true"@ } else { "false"@ }) + ")"@,
                LogicalType::Decimal(p, s) => "Decimal("@ + option_text(
                    match p {
                        Some(n) => Some(n as nat),
                        None => None,
                    },
                ) + ", "@ + option_text(
                    match s {
                        Some(n) => Some(n as nat),
                        None => None,
                    },
                ) + ")"@,
                LogicalType::Tuple(_) => "()"@,
            },
            LogicalTypeView::Tuple(types) => "("@ + LogicalType::texts(types) + ")"@,
        }
    }

    /// The texts of the types in order, separated by commas.
    pub open spec fn texts(views: Seq<LogicalTypeView>) -> Seq<char>
        decreases views,
    {
        if views.len() == 0 {
            Seq::empty()
        } else if views.len() == 1 {
            LogicalType::text(views[0])
        } else {
            LogicalType::texts(views.drop_last()) + ", "@ + LogicalType::text(views.last())
        }
    }

    /// Renders the type.
    pub fn to_string(&self) -> (text: String)
        ensures
            text@ == LogicalType::text(self@),
        decreases self,
    {
        match self {
            LogicalType::SqlNull => "SqlNull".to_string(),
            LogicalType::Boolean => "Boolean".to_string(),
            LogicalType::Tinyint => "Tinyint".to_string(),
            LogicalType::UTinyint => "UTinyint".to_string(),
            LogicalType::Smallint => "Smallint".to_string(),
            LogicalType::USmallint => "USmallint".to_string(),
            LogicalType::Integer => "Integer".to_string(),
            LogicalType::UInteger => "UInteger".to_string(),
            LogicalType::Bigint => "Bigint".to_string(),
            LogicalType::UBigint => "UBigint".to_string(),
            LogicalType::Float => "Float".to_string(),
            LogicalType::Double => "Double".to_string(),
            LogicalType::Char(len, unit) => {
                let mut text = "Char(".to_string();
                text.append(unsigned_text(*len as u64).as_str());
                text.append(", ");
                text.append(render_unit(*unit));
                text.append(")");
                text
            },
            LogicalType::Varchar(len, unit) => {
                let mut text = "Varchar(".to_string();
                let wide: Option<u64> = match len {
                    Some(n) => Some(*n as u64),
                    None => None,
                };
                text.append(render_option(wide).as_str());
                text.append(", ");
                text.append(render_unit(*unit));
                text.append(")");
                text
            },
            LogicalType::Date => "Date".to_string(),
            LogicalType::DateTime => "DateTime".to_string(),
            LogicalType::Time(p) => {
                let mut text = "Time(".to_string();
                text.append(render_option(*p).as_str());
                text.append(")");
                text
            },
            LogicalType::TimeStamp(p, zone) => {
                let mut text = "TimeStamp(".to_string();
                text.append(render_option(*p).as_str());
                text.append(", ");
                text.append(if *zone { "true" } else { "false" });
                text.append(")");
                text
            },
            LogicalType::Decimal(p, s) => {
                let mut text = "Decimal(".to_string();
                let precision: Option<u64> = match p {
                    Some(n) => Some(*n as u64),
                    None => None,
                };
                let scale: Option<u64> = match s {
                    Some(n) => Some(*n as u64),
                    None => None,
                };
                text.append(render_option(precision).as_str());
                text.append(", ");
                text.append(render_option(scale).as_str());
                text.append(")");
                text
            },
            LogicalType::Tuple(types) => {
                let mut inner = String::new();
                let mut i: usize = 0;
                let ghost views = self@->Tuple_0;
                assert(views.take(0) =~= Seq::empty());
                while i < types.len()
                    invariant
                        i <= types.len(),
                        *self == LogicalType::Tuple(*types),
                        views == self@->Tuple_0,
                        views.len() == types.len(),
                        inner@ == LogicalType::texts(views.take(i as int)),
                    decreases types.len() - i,
                {
                    assert(decreases_to!(*self => self->Tuple_0@[i as int]));
                    if i > 0 {
                        inner.append(", ");
                    }
                    inner.append(types[i].to_string().as_str());
                    proof {
                        let next = views.take(i + 1);
                        assert(next.drop_last() =~= views.take(i as int));
                        assert(next.last() == types@[i as int]@);
                        if i == 0 {
                            assert(inner@ =~= LogicalType::text(next[0]));
                        }
                    }
                    i += 1;
                }
                assert(views.take(i as int) =~= views);
                let mut text = "(".to_string();
                text.append(inner.as_str());
                text.append(")");
                text
            },
        }
    }
}

impl Clone for LogicalType {
    fn clone(&self) -> (res: Self)
        ensures
            res@ == self@,
        decreases self,
    {
        match self {
            LogicalType::SqlNull => LogicalType::SqlNull,
            LogicalType::Boolean => LogicalType::Boolean,
            LogicalType::Tinyint => LogicalType::Tinyint,
            LogicalType::UTinyint => LogicalType::UTinyint,
            LogicalType::Smallint => LogicalType::Smallint,
            LogicalType::USmallint => LogicalType::USmallint,
            LogicalType::Integer => LogicalType::Integer,
            LogicalType::UInteger => LogicalType::UInteger,
            LogicalType::Bigint => LogicalType::Bigint,
            LogicalType::UBigint => LogicalType::UBigint,
            LogicalType::Float => LogicalType::Float,
            LogicalType::Double => LogicalType::Double,
            LogicalType::Char(len, unit) => LogicalType::Char(*len, *unit),
            LogicalType::Varchar(len, unit) => LogicalType::Varchar(*len, *unit),
            LogicalType::Date => LogicalType::Date,
            LogicalType::DateTime => LogicalType::DateTime,
            LogicalType::Time(p) => LogicalType::Time(*p),
            LogicalType::TimeStamp(p, zone) => LogicalType::TimeStamp(*p, *zone),
            LogicalType::Decimal(p, s) => LogicalType::Decimal(*p, *s),
            LogicalType::Tuple(types) => {
                let mut out: Vec<LogicalType> = Vec::new();
                let mut i: usize = 0;
                while i < types.len()
                    invariant
                        i <= types.len(),
                        out@.len() == i,
                        *self == LogicalType::Tuple(*types),
                        forall|j: int| 0 <= j < i ==> out@[j]@ == types@[j]@,
                    decreases types.len() - i,
                {
                    assert(decreases_to!(*self => self->Tuple_0@[i as int]));
                    let ty = types[i].clone();
                    out.push(ty);
                    i += 1;
                }
                let res = LogicalType::Tuple(out);
                assert(res@->Tuple_0 =~= self@->Tuple_0);
                res
            },
        }
    }
}

/// The text of a length unit.
pub open spec fn unit_text(unit: CharLengthUnits) -> Seq<char> {
    match unit {
        CharLengthUnits::Characters => "CHARACTERS"@,
        CharLengthUnits::Octets => "OCTETS"@,
    }
}

/// The text of an optional number.
pub open spec fn option_text(n: Option<nat>) -> Seq<char> {
    match n {
        Some(n) => "Some("@ + decimal_text(n as int) + ")"@,
        None => "None"@,
    }
}

fn render_unit(unit: CharLengthUnits) -> (text: &'static str)
    ensures
        text@ == unit_text(unit),
{
    match unit {
        CharLengthUnits::Characters => "CHARACTERS",
        CharLengthUnits::Octets => "OCTETS",
    }
}

fn render_option(n: Option<u64>) -> (text: String)
    ensures
        text@ == option_text(
            match n {
                Some(n) => Some(n as nat),
                None => None,
            },
        ),
{
    match n {
        Some(n) => {
            let mut text = "Some(".to_string();
            text.append(unsigned_text(n).as_str());
            text.append(")");
            text
        },
        None => "None".to_string(),
    }
}

fn same_length(left: &Option<u32>, right: &Option<u32>) -> (same: bool)
    ensures
        same == (*left == *right),
{
    match (left, right) {
        (Some(l), Some(r)) => *l == *r,
        (None, None) => true,
        _ => false,
    }
}

fn same_precision(left: &Option<u64>, right: &Option<u64>) -> (same: bool)
    ensures
        same == (*left == *right),
{
    match (left, right) {
        (Some(l), Some(r)) => *l == *r,
        (None, None) => true,
        _ => false,
    }
}

fn same_digits(left: &Option<u8>, right: &Option<u8>) -> (same: bool)
    ensures
        same == (*left == *right),
{
    match (left, right) {
        (Some(l), Some(r)) => *l == *r,
        (None, None) => true,
        _ => false,
    }
}

} // verus!
