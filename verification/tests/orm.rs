use kite_sql::errors::DatabaseError;
use kite_sql::orm::field::Field;
use kite_sql::orm::row::{
    describe_text_value, extract_value_from_tuple, take_value_at, DescribeColumn, FromQueryRow,
    FromQueryTuple,
};
use kite_sql::orm::value::{FromDataValue, ModelColumnType, ToDataValue};
use kite_sql::planner::arena::{PlanArena, TableArenaCell};
use kite_sql::types::tuple::{Schema, SchemaView, Tuple};
use kite_sql::types::value::DataValue;
use kite_sql::types::{CharLengthUnits, LogicalType};
use std::sync::Arc;

struct User;

#[test]
fn field_accessors_and_sort_build_expected_metadata() {
    let field = Field::<User, i32>::new("users", "id");
    assert_eq!(field.table_name(), "users");
    assert_eq!(field.column_name(), "id");

    let asc = Field::<User, i32>::new("users", "id").asc();
    assert_eq!(asc.field.table_name(), "users");
    assert_eq!(asc.field.column_name(), "id");
    assert!(asc.asc);
    assert!(!asc.nulls_first);

    let desc_nulls_first = Field::<User, i32>::new("users", "id").desc().nulls_first();
    assert!(!desc_nulls_first.asc);
    assert!(desc_nulls_first.nulls_first);

    let asc_nulls_last = Field::<User, i32>::new("users", "id")
        .nulls_first()
        .asc()
        .nulls_last();
    assert!(asc_nulls_last.asc);
    assert!(!asc_nulls_last.nulls_first);
}

#[test]
fn describe_column_decodes_projected_tuple_values() -> Result<(), DatabaseError> {
    let table_arena = TableArenaCell::default();
    let arena = PlanArena::new(&table_arena);
    let schema: Schema = Vec::new();
    let schema_view = SchemaView::new(&schema, &arena);
    let mut tuple = Tuple::new(
        None,
        vec![
            DataValue::utf8("id".to_string()),
            DataValue::utf8("Integer".to_string()),
            DataValue::Int32(4),
            DataValue::utf8("true".to_string()),
            DataValue::utf8("PRI".to_string()),
            DataValue::Null,
        ],
    );

    let column = DescribeColumn::from_query_row(&schema_view, &mut tuple)?;
    assert_eq!(
        column,
        DescribeColumn {
            field: "id".to_string(),
            data_type: "Integer".to_string(),
            len: "4".to_string(),
            nullable: true,
            key: "PRI".to_string(),
            default: "null".to_string(),
        }
    );
    assert!(tuple
        .values
        .iter()
        .all(|value| matches!(value, DataValue::Null)));
    assert_eq!(describe_text_value(None), "");

    Ok(())
}

#[test]
fn data_value_conversion_traits_handle_scalars_options_and_errors() -> Result<(), DatabaseError> {
    assert_eq!(i32::from_data_value(DataValue::Int32(7))?, 7);
    assert_eq!(
        String::from_data_value(DataValue::utf8("kite".to_string()))?,
        "kite"
    );
    assert_eq!(
        Arc::<str>::from_data_value(DataValue::utf8("sql".to_string()))?,
        Arc::<str>::from("sql")
    );
    assert_eq!(Option::<i32>::from_data_value(DataValue::Null)?, None);
    assert_eq!(
        Option::<i32>::from_data_value(DataValue::Int32(9))?,
        Some(9)
    );

    assert_eq!(true.to_data_value(), DataValue::Boolean(true));
    assert_eq!("name".to_data_value(), DataValue::utf8("name".to_string()));
    assert_eq!(Option::<i32>::None.to_data_value(), DataValue::Null);
    assert_eq!(Some(3i32).to_data_value(), DataValue::Int32(3));

    assert_eq!(
        <i32 as ModelColumnType>::logical_type(),
        LogicalType::Integer
    );
    assert!(!<i32 as ModelColumnType>::nullable());
    assert_eq!(
        <Option<String> as ModelColumnType>::logical_type(),
        LogicalType::Varchar(None, CharLengthUnits::Characters)
    );
    assert!(<Option<String> as ModelColumnType>::nullable());

    let err = i32::from_data_value(DataValue::utf8("not-int".to_string())).unwrap_err();
    assert!(err
        .to_string()
        .contains("failed to convert Varchar(None, CHARACTERS) value"));

    Ok(())
}

#[test]
fn tuple_projection_helpers_cast_extract_and_report_width_mismatch() -> Result<(), DatabaseError> {
    let mut tuple = Tuple::new(
        None,
        vec![DataValue::Int8(7), DataValue::utf8("seven".to_string())],
    );
    assert_eq!(take_value_at::<i32>(&mut tuple, Some(0), "id")?, 7);
    assert!(matches!(tuple.values[0], DataValue::Null));
    assert!(matches!(
        take_value_at::<i32>(&mut tuple, None, "missing"),
        Err(DatabaseError::ColumnNotFound { .. })
    ));

    let mut tuple = Tuple::new(
        None,
        vec![DataValue::Int32(1), DataValue::utf8("one".to_string())],
    );
    let projected = <(i32, String) as FromQueryTuple>::from_query_tuple(&mut tuple)?;
    assert_eq!(projected, (1, "one".to_string()));
    assert!(tuple
        .values
        .iter()
        .all(|value| matches!(value, DataValue::Null)));

    let mut too_wide = Tuple::new(None, vec![DataValue::Int32(1), DataValue::Int32(2)]);
    assert!(matches!(
        extract_value_from_tuple::<i32>(&mut too_wide),
        Err(DatabaseError::MisMatch(
            "one projected expression",
            "the query result"
        ))
    ));

    let mut too_narrow = Tuple::new(None, vec![DataValue::Int32(1)]);
    assert!(matches!(
        <(i32, i32) as FromQueryTuple>::from_query_tuple(&mut too_narrow),
        Err(DatabaseError::MisMatch(
            "the expected tuple projection width",
            "the query result"
        ))
    ));

    Ok(())
}
