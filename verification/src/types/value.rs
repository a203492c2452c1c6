//! Constant values.

use crate::errors::DatabaseError;
use crate::text::{decimal_point_text, decimal_text, point_text, signed_text, unsigned_text};
use crate::types::{CharLengthUnits, LogicalType, LogicalTypeView};
use vstd::prelude::*;
use vstd::string::StrSliceExecFns;

verus! {

/// Declared shape of a text value.
#[derive(Clone, Copy, Debug, PartialEq, Eq, Hash, Structural)]
pub enum Utf8Type {
    Variable(Option<u32>),
    Fixed(u32),
}

/// A constant value.
#[derive(Debug, PartialEq, Eq, Hash)]
pub enum DataValue {
    Null,
    Boolean(bool),
    Int8(i8),
    Int16(i16),
    Int32(i32),
    Int64(i64),
    UInt8(u8),
    UInt16(u16),
    UInt32(u32),
    UInt64(u64),
    Utf8 { value: String, ty: Utf8Type, unit: CharLengthUnits },
    /// Days of a calendar date.
    Date32(i32),
    /// Seconds of a point in time.
    Date64(i64),
    /// Seconds since midnight, and the precision.
    Time32(u32, u64),
    /// A decimal number, as its digits and the position of the point.
    Decimal(i128, u32),
    /// The parts of a composite key, and whether the key stands above all its extensions.
    Tuple(Vec<DataValue>, bool),
}

/// Mathematical model of a [`DataValue`].
pub enum DataValueView {
    Plain(DataValue),
    Utf8 { value: Seq<char>, ty: Utf8Type, unit: CharLengthUnits },
    Tuple(Seq<DataValueView>, bool),
}

/// Result of comparing two values of one kind.
#[derive(Clone, Copy, Debug, PartialEq, Eq, Structural)]
pub enum Order {
    Before,
    Same,
    After,
}

/// How two integers are ordered.
pub open spec fn int_order(left: int, right: int) -> Order {
    if left < right {
        Order::Before
    } else if left == right {
        Order::Same
    } else {
        Order::After
    }
}

/// How two texts are ordered, character by character.
pub open spec fn text_order(left: Seq<char>, right: Seq<char>) -> Order
    decreases left.len(),
{
    if left.len() == 0 && right.len() == 0 {
        Order::Same
    } else if left.len() == 0 {
        Order::Before
    } else if right.len() == 0 {
        Order::After
    } else if left[0] == right[0] {
        text_order(left.drop_first(), right.drop_first())
    } else {
        int_order(left[0] as int, right[0] as int)
    }
}

impl DataValue {
    pub open spec fn view(&self) -> DataValueView
        decreases self,
    {
        match self {
            DataValue::Utf8 { value, ty, unit } => DataValueView::Utf8 {
                value: value@,
                ty: *ty,
                unit: *unit,
            },
            DataValue::Tuple(values, upper) => DataValueView::Tuple(
                Seq::new(
                    values@.len(),
                    |i: int|
                        if 0 <= i < values@.len() {
                            values@[i].view()
                        } else {
                            arbitrary()
                        },
                ),
                *upper,
            ),
            plain => DataValueView::Plain(*plain),
        }
    }

    /// The integer behind a value of an integer kind.
    pub open spec fn integer(self) -> Option<int> {
        match self {
            DataValue::Int8(n) => Some(n as int),
            DataValue::Int16(n) => Some(n as int),
            DataValue::Int32(n) => Some(n as int),
            DataValue::Int64(n) => Some(n as int),
            DataValue::UInt8(n) => Some(n as int),
            DataValue::UInt16(n) => Some(n as int),
            DataValue::UInt32(n) => Some(n as int),
            DataValue::UInt64(n) => Some(n as int),
            _ => None,
        }
    }

    /// The integers that an integer type holds.
    pub open spec fn in_type(ty: LogicalType, n: int) -> bool {
        match ty {
            LogicalType::Tinyint => i8::MIN <= n <= i8::MAX,
            LogicalType::Smallint => i16::MIN <= n <= i16::MAX,
            LogicalType::Integer => i32::MIN <= n <= i32::MAX,
            LogicalType::Bigint => i64::MIN <= n <= i64::MAX,
            LogicalType::UTinyint => 0 <= n <= u8::MAX,
            LogicalType::USmallint => 0 <= n <= u16::MAX,
            LogicalType::UInteger => 0 <= n <= u32::MAX,
            LogicalType::UBigint => 0 <= n <= u64::MAX,
            _ => false,
        }
    }

    /// The value of an integer type for an integer that the type holds.
    pub open spec fn of_integer(ty: LogicalType, n: int) -> DataValue {
        match ty {
            LogicalType::Tinyint => DataValue::Int8(n as i8),
            LogicalType::Smallint => DataValue::Int16(n as i16),
            LogicalType::Integer => DataValue::Int32(n as i32),
            LogicalType::Bigint => DataValue::Int64(n as i64),
            LogicalType::UTinyint => DataValue::UInt8(n as u8),
            LogicalType::USmallint => DataValue::UInt16(n as u16),
            LogicalType::UInteger => DataValue::UInt32(n as u32),
            _ => DataValue::UInt64(n as u64),
        }
    }

    /// The logical type of a value.
    pub open spec fn type_of(view: DataValueView) -> LogicalTypeView
        decreases view,
    {
        match view {
            DataValueView::Plain(value) => LogicalTypeView::Plain(
                match value {
                    DataValue::Boolean(_) => LogicalType::Boolean,
                    DataValue::Int8(_) => LogicalType::Tinyint,
                    DataValue::Int16(_) => LogicalType::Smallint,
                    DataValue::Int32(_) => LogicalType::Integer,
                    DataValue::Int64(_) => LogicalType::Bigint,
                    DataValue::UInt8(_) => LogicalType::UTinyint,
                    DataValue::UInt16(_) => LogicalType::USmallint,
                    DataValue::UInt32(_) => LogicalType::UInteger,
                    DataValue::UInt64(_) => LogicalType::UBigint,
                    DataValue::Date32(_) => LogicalType::Date,
                    DataValue::Date64(_) => LogicalType::DateTime,
                    DataValue::Time32(_, precision) => LogicalType::Time(Some(precision)),
                    DataValue::Decimal(..) => LogicalType::Decimal(None, None),
                    _ => LogicalType::SqlNull,
                },
            ),
            DataValueView::Utf8 { ty, unit, .. } => LogicalTypeView::Plain(
                match ty {
                    Utf8Type::Variable(len) => LogicalType::Varchar(len, unit),
                    Utf8Type::Fixed(len) => LogicalType::Char(len, unit),
                },
            ),
            DataValueView::Tuple(values, _) => LogicalTypeView::Tuple(
                Seq::new(
                    values.len(),
                    |i: int|
                        if 0 <= i < values.len() {
                            DataValue::type_of(values[i])
                        } else {
                            arbitrary()
                        },
                ),
            ),
        }
    }

    /// The logical type of the value.
    pub fn logical_type(&self) -> (ty: LogicalType)
        ensures
            ty@ == DataValue::type_of(self@),
        decreases self,
    {
        match self {
            DataValue::Null => LogicalType::SqlNull,
            DataValue::Boolean(_) => LogicalType::Boolean,
            DataValue::Int8(_) => LogicalType::Tinyint,
            DataValue::Int16(_) => LogicalType::Smallint,
            DataValue::Int32(_) => LogicalType::Integer,
            DataValue::Int64(_) => LogicalType::Bigint,
            DataValue::UInt8(_) => LogicalType::UTinyint,
            DataValue::UInt16(_) => LogicalType::USmallint,
            DataValue::UInt32(_) => LogicalType::UInteger,
            DataValue::UInt64(_) => LogicalType::UBigint,
            DataValue::Utf8 { ty, unit, .. } => match ty {
                Utf8Type::Variable(len) => LogicalType::Varchar(*len, *unit),
                Utf8Type::Fixed(len) => LogicalType::Char(*len, *unit),
            },
            DataValue::Date32(_) => LogicalType::Date,
            DataValue::Date64(_) => LogicalType::DateTime,
            DataValue::Time32(_, precision) => LogicalType::Time(Some(*precision)),
            DataValue::Decimal(..) => LogicalType::Decimal(None, None),
            DataValue::Tuple(values, _) => {
                let mut types: Vec<LogicalType> = Vec::new();
                let mut i: usize = 0;
                while i < values.len()
                    invariant
                        i <= values.len(),
                        types@.len() == i,
                        self@ is Tuple,
                        self@->Tuple_0.len() == values@.len(),
                        self is Tuple,
                        self->Tuple_0 == *values,
                        forall|j: int|
                            0 <= j < i ==> types@[j]@ == DataValue::type_of(values@[j]@),
                    decreases values.len() - i,
                {
                    assert(decreases_to!(*self => self->Tuple_0@[i as int]));
                    let ty = values[i].logical_type();
                    types.push(ty);
                    i += 1;
                }
                let ty = LogicalType::Tuple(types);
                assert(ty@->Tuple_0 =~= DataValue::type_of(self@)->Tuple_0);
                ty
            },
        }
    }

    /// Whether two values are the same.
    pub fn same(&self, other: &DataValue) -> (same: bool)
        ensures
            same == (self@ == other@),
        decreases self,
    {
        match (self, other) {
            (DataValue::Null, DataValue::Null) => true,
            (DataValue::Boolean(l), DataValue::Boolean(r)) => *l == *r,
            (DataValue::Int8(l), DataValue::Int8(r)) => *l == *r,
            (DataValue::Int16(l), DataValue::Int16(r)) => *l == *r,
            (DataValue::Int32(l), DataValue::Int32(r)) => *l == *r,
            (DataValue::Int64(l), DataValue::Int64(r)) => *l == *r,
            (DataValue::UInt8(l), DataValue::UInt8(r)) => *l == *r,
            (DataValue::UInt16(l), DataValue::UInt16(r)) => *l == *r,
            (DataValue::UInt32(l), DataValue::UInt32(r)) => *l == *r,
            (DataValue::UInt64(l), DataValue::UInt64(r)) => *l == *r,
            (DataValue::Date32(l), DataValue::Date32(r)) => *l == *r,
            (DataValue::Date64(l), DataValue::Date64(r)) => *l == *r,
            (DataValue::Time32(l, p), DataValue::Time32(r, q)) => *l == *r && *p == *q,
            (DataValue::Decimal(l, p), DataValue::Decimal(r, q)) => *l == *r && *p == *q,
            (
                DataValue::Utf8 { value: l, ty: t, unit: u },
                DataValue::Utf8 { value: r, ty: s, unit: v },
            ) => *l == *r && *t == *s && *u == *v,
            (DataValue::Tuple(left, p), DataValue::Tuple(right, q)) => {
                if *p != *q {
                    return false;
                }
                if left.len() != right.len() {
                    assert(self@->Tuple_0.len() != other@->Tuple_0.len());
                    return false;
                }
                let mut i: usize = 0;
                while i < left.len()
                    invariant
                        i <= left.len(),
                        left.len() == right.len(),
                        *self == DataValue::Tuple(*left, *p),
                        *other == DataValue::Tuple(*right, *q),
                        *p == *q,
                        forall|j: int| 0 <= j < i ==> left@[j]@ == right@[j]@,
                    decreases left.len() - i,
                {
                    assert(decreases_to!(*self => self->Tuple_0@[i as int]));
                    if !left[i].same(&right[i]) {
                        assert(self@->Tuple_0[i as int] != other@->Tuple_0[i as int]);
                        return false;
                    }
                    i += 1;
                }
                assert(self@->Tuple_0 =~= other@->Tuple_0);
                true
            },
            _ => false,
        }
    }

    /// How two values of one kind are ordered; values of different kinds, nulls, decimals and
    /// composite keys are not compared here.
    pub open spec fn order(left: DataValueView, right: DataValueView) -> Option<Order> {
        match (left, right) {
            (DataValueView::Plain(l), DataValueView::Plain(r)) => match (l, r) {
                (DataValue::Boolean(l), DataValue::Boolean(r)) => Some(
                    int_order(
                        if l {
                            1int
                        } else {
                            0int
                        },
                        if r {
                            1int
                        } else {
                            0int
                        },
                    ),
                ),
                (DataValue::Int8(l), DataValue::Int8(r)) => Some(int_order(l as int, r as int)),
                (DataValue::Int16(l), DataValue::Int16(r)) => Some(int_order(l as int, r as int)),
                (DataValue::Int32(l), DataValue::Int32(r)) => Some(int_order(l as int, r as int)),
                (DataValue::Int64(l), DataValue::Int64(r)) => Some(int_order(l as int, r as int)),
                (DataValue::UInt8(l), DataValue::UInt8(r)) => Some(int_order(l as int, r as int)),
                (DataValue::UInt16(l), DataValue::UInt16(r)) => Some(int_order(l as int, r as int)),
                (DataValue::UInt32(l), DataValue::UInt32(r)) => Some(int_order(l as int, r as int)),
                (DataValue::UInt64(l), DataValue::UInt64(r)) => Some(int_order(l as int, r as int)),
                (DataValue::Date32(l), DataValue::Date32(r)) => Some(int_order(l as int, r as int)),
                (DataValue::Date64(l), DataValue::Date64(r)) => Some(int_order(l as int, r as int)),
                (DataValue::Time32(l, _), DataValue::Time32(r, _)) => Some(
                    int_order(l as int, r as int),
                ),
                _ => None,
            },
            (
                DataValueView::Utf8 { value: l, .. },
                DataValueView::Utf8 { value: r, .. },
            ) => Some(text_order(l, r)),
            _ => None,
        }
    }

    /// Compares two values of one kind.
    pub fn compare(&self, other: &DataValue) -> (order: Option<Order>)
        ensures
            order == DataValue::order(self@, other@),
    {
        match (self, other) {
            (DataValue::Boolean(l), DataValue::Boolean(r)) => Some(
                compare_integers(
                    if *l {
                        1
                    } else {
                        0
                    },
                    if *r {
                        1
                    } else {
                        0
                    },
                ),
            ),
            (DataValue::Int8(l), DataValue::Int8(r)) => Some(
                compare_integers(*l as i128, *r as i128),
            ),
            (DataValue::Int16(l), DataValue::Int16(r)) => Some(
                compare_integers(*l as i128, *r as i128),
            ),
            (DataValue::Int32(l), DataValue::Int32(r)) => Some(
                compare_integers(*l as i128, *r as i128),
            ),
            (DataValue::Int64(l), DataValue::Int64(r)) => Some(
                compare_integers(*l as i128, *r as i128),
            ),
            (DataValue::UInt8(l), DataValue::UInt8(r)) => Some(
                compare_integers(*l as i128, *r as i128),
            ),
            (DataValue::UInt16(l), DataValue::UInt16(r)) => Some(
                compare_integers(*l as i128, *r as i128),
            ),
            (DataValue::UInt32(l), DataValue::UInt32(r)) => Some(
                compare_integers(*l as i128, *r as i128),
            ),
            (DataValue::UInt64(l), DataValue::UInt64(r)) => Some(
                compare_integers(*l as i128, *r as i128),
            ),
            (DataValue::Date32(l), DataValue::Date32(r)) => Some(
                compare_integers(*l as i128, *r as i128),
            ),
            (DataValue::Date64(l), DataValue::Date64(r)) => Some(
                compare_integers(*l as i128, *r as i128),
            ),
            (DataValue::Time32(l, _), DataValue::Time32(r, _)) => Some(
                compare_integers(*l as i128, *r as i128),
            ),
            (DataValue::Utf8 { value: l, .. }, DataValue::Utf8 { value: r, .. }) => Some(
                compare_texts(l.as_str(), r.as_str()),
            ),
            _ => None,
        }
    }

    /// A text value of unrestricted length.
    pub fn utf8(value: String) -> (res: Self)
        ensures
            res == (DataValue::Utf8 {
                value,
                ty: Utf8Type::Variable(None),
                unit: CharLengthUnits::Characters,
            }),
    {
        DataValue::Utf8 {
            value,
            ty: Utf8Type::Variable(None),
            unit: CharLengthUnits::Characters,
        }
    }

    /// The text of a value. Dates and times are shown by the number that counts them, since their
    /// text would need a calendar.
    pub open spec fn text(view: DataValueView) -> Seq<char>
        decreases view,
    {
        match view {
            DataValueView::Plain(value) => match value {
                DataValue::Boolean(b) => if b {
                    "true"@
                } else {
                    "false"@
                },
                DataValue::Date32(days) => "Date32("@ + decimal_text(days as int) + ")"@,
                DataValue::Date64(seconds) => "Date64("@ + decimal_text(seconds as int) + ")"@,
                DataValue::Time32(seconds, _) => "Time32("@ + decimal_text(seconds as int) + ")"@,
                DataValue::Decimal(digits, scale) => point_text(digits as int, scale as nat),
                _ => match value.integer() {
                    Some(n) => decimal_text(n),
                    None => "null"@,
                },
            },
            DataValueView::Utf8 { value, .. } => value,
            DataValueView::Tuple(values, _) => "("@ + DataValue::texts(values) + ")"@,
        }
    }

    /// The texts of the values in order, separated by commas.
    pub open spec fn texts(views: Seq<DataValueView>) -> Seq<char>
        decreases views,
    {
        if views.len() == 0 {
            Seq::empty()
        } else if views.len() == 1 {
            DataValue::text(views[0])
        } else {
            DataValue::texts(views.drop_last()) + ", "@ + DataValue::text(views.last())
        }
    }

    /// Renders the value.
    pub fn to_string(&self) -> (text: String)
        ensures
            text@ == DataValue::text(self@),
        decreases self,
    {
        match self {
            DataValue::Null => "null".to_string(),
            DataValue::Boolean(b) => if *b {
                "true".to_string()
            } else {
                "false".to_string()
            },
            DataValue::Int8(n) => signed_text(*n as i64),
            DataValue::Int16(n) => signed_text(*n as i64),
            DataValue::Int32(n) => signed_text(*n as i64),
            DataValue::Int64(n) => signed_text(*n),
            DataValue::UInt8(n) => unsigned_text(*n as u64),
            DataValue::UInt16(n) => unsigned_text(*n as u64),
            DataValue::UInt32(n) => unsigned_text(*n as u64),
            DataValue::UInt64(n) => unsigned_text(*n),
            DataValue::Utf8 { value, .. } => value.clone(),
            DataValue::Date32(days) => wrapped_text("Date32(", signed_text(*days as i64)),
            DataValue::Date64(seconds) => wrapped_text("Date64(", signed_text(*seconds)),
            DataValue::Time32(seconds, _) =>
                wrapped_text("Time32(", unsigned_text(*seconds as u64)),
            DataValue::Decimal(digits, scale) => decimal_point_text(*digits, *scale),
            DataValue::Tuple(values, upper) => {
                let mut inner = String::new();
                let mut i: usize = 0;
                let ghost views = self@->Tuple_0;
                assert(views.take(0) =~= Seq::empty());
                while i < values.len()
                    invariant
                        i <= values.len(),
                        *self == DataValue::Tuple(*values, *upper),
                        views == self@->Tuple_0,
                        views.len() == values.len(),
                        inner@ == DataValue::texts(views.take(i as int)),
                    decreases values.len() - i,
                {
                    assert(decreases_to!(*self => self->Tuple_0@[i as int]));
                    if i > 0 {
                        inner.append(", ");
                    }
                    inner.append(values[i].to_string().as_str());
                    proof {
                        let next = views.take(i + 1);
                        assert(next.drop_last() =~= views.take(i as int));
                        assert(next.last() == values@[i as int]@);
                        if i == 0 {
                            assert(inner@ =~= DataValue::text(next[0]));
                        }
                    }
                    i += 1;
                }
                assert(views.take(i as int) =~= views);
                wrapped_text("(", inner)
            },
        }
    }

    /// What a cast gives, where there is a cast.
    ///
    /// A null stays null, everything becomes null in the null type, integers and booleans move
    /// between the integer types that hold them, and texts, integers and booleans become texts.
    /// A value that already has the requested type stays as it is.
    pub open spec fn cast_view(view: DataValueView, ty: LogicalTypeView) -> Option<DataValueView> {
        if view == DataValueView::Plain(DataValue::Null) || ty == LogicalTypeView::Plain(
            LogicalType::SqlNull,
        ) {
            Some(DataValueView::Plain(DataValue::Null))
        } else if DataValue::type_of(view) == ty {
            Some(view)
        } else {
            match (view, ty) {
                (DataValueView::Plain(value), LogicalTypeView::Plain(ty)) => {
                    let number = match value {
                        DataValue::Boolean(b) => Some(
                            if b {
                                1int
                            } else {
                                0int
                            },
                        ),
                        _ => value.integer(),
                    };
                    match ty {
                        LogicalType::Varchar(len, unit) => if number is Some {
                            Some(
                                DataValueView::Utf8 {
                                    value: DataValue::text(view),
                                    ty: Utf8Type::Variable(len),
                                    unit,
                                },
                            )
                        } else {
                            None
                        },
                        LogicalType::Char(len, unit) => if number is Some {
                            Some(
                                DataValueView::Utf8 {
                                    value: DataValue::text(view),
                                    ty: Utf8Type::Fixed(len),
                                    unit,
                                },
                            )
                        } else {
                            None
                        },
                        _ => match number {
                            Some(n) => if DataValue::in_type(ty, n) {
                                Some(DataValueView::Plain(DataValue::of_integer(ty, n)))
                            } else {
                                None
                            },
                            None => None,
                        },
                    }
                },
                (DataValueView::Utf8 { value, .. }, LogicalTypeView::Plain(ty)) => match ty {
                    LogicalType::Varchar(len, unit) => Some(
                        DataValueView::Utf8 { value, ty: Utf8Type::Variable(len), unit },
                    ),
                    LogicalType::Char(len, unit) => Some(
                        DataValueView::Utf8 { value, ty: Utf8Type::Fixed(len), unit },
                    ),
                    _ => None,
                },
                _ => None,
            }
        }
    }

    /// Casts the value to a type.
    pub fn cast(self, ty: &LogicalType) -> (res: Result<DataValue, DatabaseError>)
        ensures
            res is Ok <==> DataValue::cast_view(self@, ty@) is Some,
            res matches Ok(value) ==> DataValue::cast_view(self@, ty@) == Some(value@),
            res matches Err(err) ==> (err matches DatabaseError::CastFail { from, to } && from@
                == DataValue::type_of(self@) && to@ == ty@),
    {
        let own = self.logical_type();
        match (&self, ty) {
            (DataValue::Null, _) => {
                return Ok(DataValue::Null);
            },
            (_, LogicalType::SqlNull) => {
                return Ok(DataValue::Null);
            },
            _ => {},
        }
        if own.same(ty) {
            return Ok(self);
        }
        let number: Option<i128> = match &self {
            DataValue::Boolean(b) => Some(
                if *b {
                    1
                } else {
                    0
                },
            ),
            DataValue::Int8(n) => Some(*n as i128),
            DataValue::Int16(n) => Some(*n as i128),
            DataValue::Int32(n) => Some(*n as i128),
            DataValue::Int64(n) => Some(*n as i128),
            DataValue::UInt8(n) => Some(*n as i128),
            DataValue::UInt16(n) => Some(*n as i128),
            DataValue::UInt32(n) => Some(*n as i128),
            DataValue::UInt64(n) => Some(*n as i128),
            _ => None,
        };
        match ty {
            LogicalType::Varchar(len, unit) => match self {
                DataValue::Utf8 { value, .. } => Ok(
                    DataValue::Utf8 { value, ty: Utf8Type::Variable(*len), unit: *unit },
                ),
                other => {
                    if number.is_some() {
                        Ok(
                            DataValue::Utf8 {
                                value: other.to_string(),
                                ty: Utf8Type::Variable(*len),
                                unit: *unit,
                            },
                        )
                    } else {
                        Err(DatabaseError::CastFail { from: own, to: ty.clone() })
                    }
                },
            },
            LogicalType::Char(len, unit) => match self {
                DataValue::Utf8 { value, .. } => Ok(
                    DataValue::Utf8 { value, ty: Utf8Type::Fixed(*len), unit: *unit },
                ),
                other => {
                    if number.is_some() {
                        Ok(
                            DataValue::Utf8 {
                                value: other.to_string(),
                                ty: Utf8Type::Fixed(*len),
                                unit: *unit,
                            },
                        )
                    } else {
                        Err(DatabaseError::CastFail { from: own, to: ty.clone() })
                    }
                },
            },
            _ => match number {
                Some(n) => match integer_of_type(ty, n) {
                    Some(value) => Ok(value),
                    None => Err(DatabaseError::CastFail { from: own, to: ty.clone() }),
                },
                None => Err(DatabaseError::CastFail { from: own, to: ty.clone() }),
            },
        }
    }

    /// Whether a value fits the length that its column declares.
    pub open spec fn fits(view: DataValueView, ty: LogicalTypeView) -> bool {
        match (view, ty) {
            (DataValueView::Utf8 { value, .. }, LogicalTypeView::Plain(ty)) => match ty {
                LogicalType::Varchar(Some(len), CharLengthUnits::Characters) => value.len() <= len,
                LogicalType::Char(len, CharLengthUnits::Characters) => value.len() <= len,
                LogicalType::Varchar(Some(len), CharLengthUnits::Octets) => vstd::utf8::encode_utf8(
                    value,
                ).len() <= len,
                LogicalType::Char(len, CharLengthUnits::Octets) => vstd::utf8::encode_utf8(
                    value,
                ).len() <= len,
                _ => true,
            },
            _ => true,
        }
    }

    /// Checks the length of a text against its column.
    pub fn check_len(&self, ty: &LogicalType) -> (res: Result<(), DatabaseError>)
        ensures
            res is Ok <==> DataValue::fits(self@, ty@),
            res matches Err(err) ==> err == DatabaseError::TooLong,
    {
        if let DataValue::Utf8 { value, .. } = self {
            let limit: Option<(u32, CharLengthUnits)> = match ty {
                LogicalType::Varchar(Some(len), unit) => Some((*len, *unit)),
                LogicalType::Char(len, unit) => Some((*len, *unit)),
                _ => None,
            };
            if let Some((len, unit)) = limit {
                let used: usize = match unit {
                    CharLengthUnits::Characters => value.as_str().unicode_len(),
                    CharLengthUnits::Octets => value.as_str().as_bytes().len(),
                };
                if used > len as usize {
                    return Err(DatabaseError::TooLong);
                }
            }
        }
        Ok(())
    }
}

impl Clone for DataValue {
    fn clone(&self) -> (res: Self)
        ensures
            res@ == self@,
        decreases self,
    {
        match self {
            DataValue::Null => DataValue::Null,
            DataValue::Boolean(b) => DataValue::Boolean(*b),
            DataValue::Int8(n) => DataValue::Int8(*n),
            DataValue::Int16(n) => DataValue::Int16(*n),
            DataValue::Int32(n) => DataValue::Int32(*n),
            DataValue::Int64(n) => DataValue::Int64(*n),
            DataValue::UInt8(n) => DataValue::UInt8(*n),
            DataValue::UInt16(n) => DataValue::UInt16(*n),
            DataValue::UInt32(n) => DataValue::UInt32(*n),
            DataValue::UInt64(n) => DataValue::UInt64(*n),
            DataValue::Utf8 { value, ty, unit } => DataValue::Utf8 {
                value: value.clone(),
                ty: *ty,
                unit: *unit,
            },
            DataValue::Date32(n) => DataValue::Date32(*n),
            DataValue::Date64(n) => DataValue::Date64(*n),
            DataValue::Time32(n, p) => DataValue::Time32(*n, *p),
            DataValue::Decimal(n, s) => DataValue::Decimal(*n, *s),
            DataValue::Tuple(values, upper) => {
                let mut out: Vec<DataValue> = Vec::new();
                let mut i: usize = 0;
                while i < values.len()
                    invariant
                        i <= values.len(),
                        out@.len() == i,
                        *self == DataValue::Tuple(*values, *upper),
                        forall|j: int| 0 <= j < i ==> out@[j]@ == values@[j]@,
                    decreases values.len() - i,
                {
                    assert(decreases_to!(*self => self->Tuple_0@[i as int]));
                    let value = values[i].clone();
                    out.push(value);
                    i += 1;
                }
                let res = DataValue::Tuple(out, *upper);
                assert(res@->Tuple_0 =~= self@->Tuple_0);
                res
            },
        }
    }
}

impl Default for DataValue {
    fn default() -> (res: Self)
        ensures
            res == DataValue::Null,
    {
        DataValue::Null
    }
}

impl From<String> for DataValue {
    fn from(value: String) -> (res: Self) {
        DataValue::utf8(value)
    }
}

impl vstd::std_specs::convert::FromSpecImpl<String> for DataValue {
    open spec fn obeys_from_spec() -> bool {
        true
    }

    open spec fn from_spec(value: String) -> DataValue {
        DataValue::Utf8 {
            value,
            ty: Utf8Type::Variable(None),
            unit: CharLengthUnits::Characters,
        }
    }
}

/// The values of a row, each by its model.
pub open spec fn value_views(values: Seq<DataValue>) -> Seq<DataValueView> {
    values.map_values(|value: DataValue| value@)
}

/// Copies a sequence of values.
pub fn clone_values(values: &Vec<DataValue>) -> (res: Vec<DataValue>)
    ensures
        value_views(res@) == value_views(values@),
{
    let mut out: Vec<DataValue> = Vec::new();
    let mut i: usize = 0;
    while i < values.len()
        invariant
            i <= values.len(),
            out@.len() == i,
            forall|j: int| 0 <= j < i ==> out@[j]@ == values@[j]@,
        decreases values.len() - i,
    {
        let value = values[i].clone();
        out.push(value);
        i += 1;
    }
    assert(value_views(out@) =~= value_views(values@));
    out
}

fn compare_integers(left: i128, right: i128) -> (order: Order)
    ensures
        order == int_order(left as int, right as int),
{
    if left < right {
        Order::Before
    } else if left == right {
        Order::Same
    } else {
        Order::After
    }
}

fn compare_texts(left: &str, right: &str) -> (order: Order)
    ensures
        order == text_order(left@, right@),
{
    let left_len: usize = left.unicode_len();
    let right_len: usize = right.unicode_len();
    let mut i: usize = 0;
    assert(left@.skip(0) =~= left@);
    assert(right@.skip(0) =~= right@);
    while i < left_len && i < right_len
        invariant
            left_len == left@.len(),
            right_len == right@.len(),
            i <= left_len,
            i <= right_len,
            text_order(left@, right@) == text_order(left@.skip(i as int), right@.skip(i as int)),
        decreases left_len - i,
    {
        let l = left.get_char(i);
        let r = right.get_char(i);
        assert(left@.skip(i as int)[0] == l);
        assert(right@.skip(i as int)[0] == r);
        if l != r {
            return if l < r {
                Order::Before
            } else {
                Order::After
            };
        }
        assert(left@.skip(i as int).drop_first() =~= left@.skip(i + 1));
        assert(right@.skip(i as int).drop_first() =~= right@.skip(i + 1));
        i += 1;
    }
    if left_len == right_len {
        Order::Same
    } else if left_len < right_len {
        Order::Before
    } else {
        Order::After
    }
}

fn integer_of_type(ty: &LogicalType, n: i128) -> (res: Option<DataValue>)
    ensures
        res is Some <==> DataValue::in_type(*ty, n as int),
        res matches Some(value) ==> value == DataValue::of_integer(*ty, n as int),
{
    match ty {
        LogicalType::Tinyint if i8::MIN as i128 <= n && n <= i8::MAX as i128 => Some(
            DataValue::Int8(n as i8),
        ),
        LogicalType::Smallint if i16::MIN as i128 <= n && n <= i16::MAX as i128 => Some(
            DataValue::Int16(n as i16),
        ),
        LogicalType::Integer if i32::MIN as i128 <= n && n <= i32::MAX as i128 => Some(
            DataValue::Int32(n as i32),
        ),
        LogicalType::Bigint if i64::MIN as i128 <= n && n <= i64::MAX as i128 => Some(
            DataValue::Int64(n as i64),
        ),
        LogicalType::UTinyint if 0 <= n && n <= u8::MAX as i128 => Some(DataValue::UInt8(n as u8)),
        LogicalType::USmallint if 0 <= n && n <= u16::MAX as i128 => Some(
            DataValue::UInt16(n as u16),
        ),
        LogicalType::UInteger if 0 <= n && n <= u32::MAX as i128 => Some(
            DataValue::UInt32(n as u32),
        ),
        LogicalType::UBigint if 0 <= n && n <= u64::MAX as i128 => Some(
            DataValue::UInt64(n as u64),
        ),
        _ => None,
    }
}

fn wrapped_text(label: &str, rest: String) -> (text: String)
    ensures
        text@ == label@ + rest@ + ")"@,
{
    let mut text = label.to_string();
    text.append(rest.as_str());
    text.append(")");
    text
}

} // verus!
