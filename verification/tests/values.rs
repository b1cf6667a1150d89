use arrow_schema::{DataType, Field, Fields, Schema as ArrowSchema, TimeUnit, UnionFields, UnionMode};
use iceberg_projection::arrow_convert::arrow_schema_to_schema;
use iceberg_projection::arrow_file::{read_arrow_fields, read_leaf_ids};
use iceberg_projection::arrow_tree::{read_field_id, ArrowType, ListKind, PlainType};
use iceberg_projection::error::{Error, ErrorKind};
use iceberg_projection::projection::{
    fallback_projection, leaves_of, project_leaves, reject_variants, Projection,
};
use iceberg_projection::promotion::{type_promotion_is_valid, unpromotable_column_types_error};
use iceberg_projection::reader::ArrowReader;
use iceberg_projection::schema::{
    type_contains_variant, ListType, MapType, NestedField, PrimitiveType, Schema, StructType, Type,
    VariantType,
};
use parquet::arrow::PARQUET_FIELD_ID_META_KEY;
use std::collections::HashMap;
use std::sync::Arc;

fn tagged(name: &str, data_type: DataType, id: &str) -> Field {
    Field::new(name, data_type, true).with_metadata(HashMap::from([(
        PARQUET_FIELD_ID_META_KEY.to_string(),
        id.to_string(),
    )]))
}

fn leaf(id: i32, name: &str, field_type: PrimitiveType) -> Arc<NestedField> {
    NestedField::optional(id, name, Type::Primitive(field_type)).into()
}

fn read_one(data_type: DataType) -> ArrowType {
    let schema = ArrowSchema::new(vec![Field::new("x", data_type, true)]);
    read_arrow_fields(&schema).pop().unwrap().data_type
}

fn convert(fields: Vec<Field>) -> Result<Schema, Error> {
    arrow_schema_to_schema(&read_arrow_fields(&ArrowSchema::new(fields)))
}

fn converted(data_type: DataType) -> Result<PrimitiveType, String> {
    match convert(vec![tagged("x", data_type, "1")]) {
        Ok(schema) => Ok(*schema.field_by_id(1).unwrap().field_type.as_primitive_type().unwrap()),
        Err(error) => Err(error.to_string()),
    }
}

#[test]
fn promotions_are_the_listed_ones() {
    let valid = |file: PrimitiveType, projected: PrimitiveType| {
        type_promotion_is_valid(Some(&file), Some(&projected))
    };
    let decimal = |precision: u32, scale: u32| PrimitiveType::Decimal { precision, scale };
    assert!(valid(PrimitiveType::Int, PrimitiveType::Int));
    assert!(valid(PrimitiveType::Int, PrimitiveType::Long));
    assert!(!valid(PrimitiveType::Long, PrimitiveType::Int));
    assert!(valid(PrimitiveType::Float, PrimitiveType::Double));
    assert!(!valid(PrimitiveType::Double, PrimitiveType::Float));
    assert!(!valid(PrimitiveType::Int, PrimitiveType::Double));
    assert!(valid(decimal(10, 2), decimal(10, 2)));
    assert!(valid(decimal(10, 2), decimal(11, 2)));
    assert!(!valid(decimal(10, 2), decimal(9, 2)));
    assert!(!valid(decimal(10, 2), decimal(11, 3)));
    assert!(valid(PrimitiveType::Fixed(16), PrimitiveType::Uuid));
    assert!(!valid(PrimitiveType::Fixed(15), PrimitiveType::Uuid));
    assert!(!valid(PrimitiveType::Uuid, PrimitiveType::Fixed(16)));
    assert!(!valid(PrimitiveType::Binary, PrimitiveType::Uuid));
    assert!(!valid(PrimitiveType::Date, PrimitiveType::Timestamp));
    assert!(!type_promotion_is_valid(None, Some(&PrimitiveType::Int)));
    assert!(!type_promotion_is_valid(Some(&PrimitiveType::Int), None));
    assert!(!type_promotion_is_valid(None, None));
}

#[test]
fn unpromotable_columns_are_listed() {
    let error = unpromotable_column_types_error(&["one".to_string(), "two".to_string()]);
    assert_eq!(error.kind(), ErrorKind::FeatureUnsupported);
    assert_eq!(
        error.message(),
        "Parquet file column types cannot be promoted to the projected schema types: one; two"
    );
}

#[test]
fn errors_read_with_what_is_behind_them() {
    let behind = Error::new(ErrorKind::FeatureUnsupported, String::new());
    let error = Error::new(ErrorKind::DataInvalid, "top".to_string()).with_source(behind);
    assert_eq!(error.to_string(), "DataInvalid => top, source: FeatureUnsupported");
}

#[test]
fn types_have_names() {
    for (primitive, text) in [
        (PrimitiveType::Boolean, "boolean"),
        (PrimitiveType::Decimal { precision: 9, scale: 2 }, "decimal(9,2)"),
        (PrimitiveType::TimestamptzNs, "timestamptz_ns"),
        (PrimitiveType::Fixed(16), "fixed(16)"),
        (PrimitiveType::String, "string"),
    ] {
        assert_eq!(Type::Primitive(primitive).to_string(), text);
    }
    let pair = StructType::new(vec![
        leaf(1, "a", PrimitiveType::Int),
        leaf(2, "b", PrimitiveType::Date),
    ]);
    assert_eq!(Type::Struct(pair).to_string(), "struct<intdate>");
    assert_eq!(Type::Variant(VariantType).to_string(), "variant");
    let list = ListType { element_field: leaf(1, "element", PrimitiveType::Int) };
    assert_eq!(Type::List(list).to_string(), "list");
}

#[test]
fn variants_are_found_at_any_depth() {
    let variant = || NestedField::optional(9, "v", Type::Variant(VariantType)).into();
    assert!(type_contains_variant(&Type::Variant(VariantType)));
    assert!(!type_contains_variant(&Type::Primitive(PrimitiveType::Int)));
    let list = Type::List(ListType { element_field: variant() });
    assert!(type_contains_variant(&list));
    let record = Type::Struct(StructType::new(vec![
        leaf(1, "a", PrimitiveType::Int),
        NestedField::optional(2, "b", list).into(),
    ]));
    assert!(type_contains_variant(&record));
    assert!(!type_contains_variant(&Type::Struct(StructType::new(vec![]))));
    let keyed = MapType::required(
        1,
        Type::Variant(VariantType),
        2,
        Type::Primitive(PrimitiveType::Int),
    );
    assert!(type_contains_variant(&Type::Mapping(keyed)));
    let schema = Schema::new(vec![variant(), leaf(1, "a", PrimitiveType::Int)]);
    assert!(reject_variants(&[1, 5], &schema).is_ok());
    assert!(reject_variants(&[1, 9], &schema).is_err());
}

#[test]
fn leaves_are_gathered_depth_first() {
    let record = NestedField::optional(
        1,
        "r",
        Type::Struct(StructType::new(vec![
            leaf(2, "a", PrimitiveType::Int),
            NestedField::optional(
                3,
                "l",
                Type::List(ListType { element_field: leaf(4, "element", PrimitiveType::Int) }),
            )
            .into(),
            NestedField::optional(
                5,
                "m",
                Type::Mapping(MapType::required(
                    6,
                    Type::Primitive(PrimitiveType::Int),
                    7,
                    Type::Primitive(PrimitiveType::Int),
                )),
            )
            .into(),
            NestedField::optional(8, "v", Type::Variant(VariantType)).into(),
        ])),
    );
    let mut ids = vec![100];
    ArrowReader::include_leaf_field_id(&record, &mut ids);
    assert_eq!(ids, vec![100, 2, 4, 6, 7, 8]);
    let schema = Schema::new(vec![record.into(), leaf(9, "z", PrimitiveType::Int)]);
    assert_eq!(leaves_of(&[9, 3, 77, 1], &schema), vec![9, 4, 2, 4, 6, 7, 8]);
}

#[test]
fn a_projection_needs_no_file_to_be_decided() {
    let table = Schema::new(vec![
        leaf(1, "a", PrimitiveType::Long),
        leaf(2, "b", PrimitiveType::Int),
    ]);
    let file = Schema::new(vec![
        leaf(1, "a", PrimitiveType::Int),
        leaf(3, "c", PrimitiveType::Int),
    ]);
    let ids = vec![None, Some(1), Some(3), Some(2)];
    match project_leaves(&[1, 2], &ids, &table, &file).unwrap() {
        Projection::Leaves(positions) => assert_eq!(positions, vec![1]),
        other => panic!("{other:?}"),
    }
    assert!(matches!(project_leaves(&[2], &ids, &table, &file), Ok(Projection::All)));
    let wrong = Schema::new(vec![leaf(1, "a", PrimitiveType::String)]);
    assert!(project_leaves(&[2], &ids, &table, &wrong).is_err());
    match fallback_projection(&[3, 9, 1], 3) {
        Projection::Roots(positions) => assert_eq!(positions, vec![2, 0]),
        other => panic!("{other:?}"),
    }
}

#[test]
fn field_ids_are_decimal_numbers() {
    let read = |text: &str| read_field_id(Some(&text.to_string()));
    assert_eq!(read("12"), Some(12));
    assert_eq!(read("-7"), Some(-7));
    assert_eq!(read("+7"), Some(7));
    assert_eq!(read("007"), Some(7));
    assert_eq!(read("2147483647"), Some(i32::MAX));
    assert_eq!(read("-2147483648"), Some(i32::MIN));
    assert_eq!(read("2147483648"), None);
    for text in ["", "-", "+", " 1", "1 ", "1.0", "0x1", "--1"] {
        assert_eq!(read(text), None);
    }
    assert_eq!(read_field_id(None), None);
}

#[test]
fn leaves_carry_their_own_ids() {
    let inner = DataType::Struct(Fields::from(vec![
        tagged("x", DataType::Int32, "3"),
        Field::new("y", DataType::Int32, true),
    ]));
    let schema = ArrowSchema::new(vec![
        tagged("a", DataType::Int32, "1"),
        tagged("s", inner.clone(), "2"),
        tagged("l", DataType::LargeList(Arc::new(tagged("element", inner.clone(), "9"))), "8"),
        tagged("d", DataType::Dictionary(Box::new(DataType::Int32), Box::new(inner)), "7"),
        tagged("z", DataType::Int32, "none"),
    ]);
    assert_eq!(
        read_leaf_ids(&schema),
        vec![Some(1), Some(3), None, Some(3), None, Some(3), None, None]
    );
}

#[test]
fn arrow_fields_are_read_as_they_are() {
    let schema = ArrowSchema::new(vec![
        Field::new("plain", DataType::Int32, false),
        tagged("tagged", DataType::Utf8, "4"),
    ]);
    let fields = read_arrow_fields(&schema);
    assert_eq!(fields.len(), 2);
    assert_eq!(fields[0].name, "plain");
    assert!(!fields[0].nullable);
    assert!(fields[0].metadata.is_empty());
    assert_eq!(fields[1].name, "tagged");
    assert!(fields[1].nullable);
    assert_eq!(
        fields[1].metadata,
        vec![(PARQUET_FIELD_ID_META_KEY.to_string(), "4".to_string())]
    );
}

#[test]
fn plain_arrow_types_are_told_apart() {
    for (data_type, plain) in [
        (DataType::Boolean, PlainType::Boolean),
        (DataType::Int8, PlainType::Int8),
        (DataType::Int16, PlainType::Int16),
        (DataType::Int32, PlainType::Int32),
        (DataType::Int64, PlainType::Int64),
        (DataType::UInt8, PlainType::UInt8),
        (DataType::UInt16, PlainType::UInt16),
        (DataType::UInt32, PlainType::UInt32),
        (DataType::Float32, PlainType::Float32),
        (DataType::Float64, PlainType::Float64),
        (DataType::Decimal128(7, 2), PlainType::Decimal128 { precision: 7, scale: 2 }),
        (DataType::Date32, PlainType::Date32),
        (DataType::Time64(TimeUnit::Microsecond), PlainType::TimeMicros),
        (DataType::Binary, PlainType::Binary),
        (DataType::LargeBinary, PlainType::LargeBinary),
        (DataType::BinaryView, PlainType::BinaryView),
        (DataType::FixedSizeBinary(5), PlainType::FixedSizeBinary(5)),
        (DataType::Utf8, PlainType::Utf8),
        (DataType::LargeUtf8, PlainType::LargeUtf8),
        (DataType::Utf8View, PlainType::Utf8View),
    ] {
        match read_one(data_type) {
            ArrowType::Plain(own) => assert_eq!(own, plain),
            other => panic!("{other:?}"),
        }
    }
}

#[test]
fn nested_arrow_types_are_told_apart() {
    let item = Arc::new(Field::new("item", DataType::Int32, true));
    for (data_type, kind) in [
        (DataType::List(item.clone()), ListKind::Regular),
        (DataType::LargeList(item.clone()), ListKind::Large),
        (DataType::FixedSizeList(item.clone(), 3), ListKind::FixedSize(3)),
    ] {
        match read_one(data_type) {
            ArrowType::List(own, element) => {
                assert_eq!(own, kind);
                assert_eq!(element.name, "item");
            }
            other => panic!("{other:?}"),
        }
    }
    match read_one(DataType::Struct(Fields::from(vec![item.clone(), item.clone()]))) {
        ArrowType::Struct(fields) => assert_eq!(fields.len(), 2),
        other => panic!("{other:?}"),
    }
    match read_one(DataType::Map(item.clone(), true)) {
        ArrowType::Entries(entry, sorted) => {
            assert_eq!(entry.name, "item");
            assert!(sorted);
        }
        other => panic!("{other:?}"),
    }
    let union = UnionFields::try_new(vec![3], vec![item.as_ref().clone()]).unwrap();
    for (mode, is_dense) in [(UnionMode::Dense, true), (UnionMode::Sparse, false)] {
        let data_type = DataType::Union(union.clone(), mode);
        match read_one(data_type.clone()) {
            ArrowType::Union { dense, type_ids, fields, text } => {
                assert_eq!(dense, is_dense);
                assert_eq!(type_ids, vec![3]);
                assert_eq!(fields[0].name, "item");
                assert_eq!(text, data_type.to_string());
            }
            other => panic!("{other:?}"),
        }
    }
    match read_one(DataType::Dictionary(Box::new(DataType::Int8), Box::new(DataType::Utf8))) {
        ArrowType::Dictionary { key, value } => {
            assert!(matches!(*key, ArrowType::Plain(PlainType::Int8)));
            assert!(matches!(*value, ArrowType::Plain(PlainType::Utf8)));
        }
        other => panic!("{other:?}"),
    }
    let ends = Arc::new(Field::new("run_ends", DataType::Int32, false));
    let encoded = DataType::RunEndEncoded(ends, item);
    match read_one(encoded.clone()) {
        ArrowType::RunEndEncoded { run_ends, values, text } => {
            assert_eq!(run_ends.name, "run_ends");
            assert_eq!(values.name, "item");
            assert_eq!(text, encoded.to_string());
        }
        other => panic!("{other:?}"),
    }
    match read_one(DataType::Timestamp(TimeUnit::Nanosecond, Some("UTC".into()))) {
        ArrowType::Timestamp { nanos, zone, .. } => {
            assert!(nanos);
            assert_eq!(zone.as_deref(), Some("UTC"));
        }
        other => panic!("{other:?}"),
    }
    match read_one(DataType::Timestamp(TimeUnit::Second, None)) {
        ArrowType::Other { text } => assert_eq!(text, "Timestamp(s)"),
        other => panic!("{other:?}"),
    }
}

#[test]
fn arrow_types_stand_for_table_types() {
    let micros = |zone: Option<&str>| {
        DataType::Timestamp(TimeUnit::Microsecond, zone.map(|zone| zone.into()))
    };
    for (data_type, primitive) in [
        (DataType::Boolean, PrimitiveType::Boolean),
        (DataType::Int8, PrimitiveType::Int),
        (DataType::UInt16, PrimitiveType::Int),
        (DataType::UInt32, PrimitiveType::Long),
        (DataType::Int64, PrimitiveType::Long),
        (DataType::Float32, PrimitiveType::Float),
        (DataType::Float64, PrimitiveType::Double),
        (DataType::Decimal128(38, 4), PrimitiveType::Decimal { precision: 38, scale: 4 }),
        (DataType::Date32, PrimitiveType::Date),
        (DataType::Time64(TimeUnit::Microsecond), PrimitiveType::Time),
        (micros(None), PrimitiveType::Timestamp),
        (micros(Some("UTC")), PrimitiveType::Timestamptz),
        (micros(Some("+00:00")), PrimitiveType::Timestamptz),
        (DataType::Timestamp(TimeUnit::Nanosecond, None), PrimitiveType::TimestampNs),
        (
            DataType::Timestamp(TimeUnit::Nanosecond, Some("UTC".into())),
            PrimitiveType::TimestamptzNs,
        ),
        (DataType::LargeBinary, PrimitiveType::Binary),
        (DataType::FixedSizeBinary(16), PrimitiveType::Fixed(16)),
        (DataType::Utf8View, PrimitiveType::String),
        (
            DataType::Dictionary(Box::new(DataType::Int8), Box::new(DataType::Utf8)),
            PrimitiveType::String,
        ),
    ] {
        assert_eq!(converted(data_type), Ok(primitive));
    }
}

#[test]
fn arrow_types_without_counterparts_are_errors() {
    let refused = |data_type: DataType| converted(data_type).unwrap_err();
    assert_eq!(
        refused(DataType::Duration(TimeUnit::Microsecond)),
        "DataInvalid => Unsupported Arrow data type: Duration(µs)"
    );
    assert_eq!(
        refused(DataType::Decimal128(39, 0)),
        "DataInvalid => Failed to create decimal type, source: DataInvalid => Decimals with \
         precision larger than 38 are not supported: 39"
    );
    let zoned = DataType::Timestamp(TimeUnit::Microsecond, Some("Europe/Paris".into()));
    assert_eq!(refused(zoned.clone()), format!("DataInvalid => Unsupported Arrow data type: {zoned}"));
    let item = Arc::new(tagged("item", DataType::Int32, "2"));
    let ends = Arc::new(Field::new("run_ends", DataType::Int32, false));
    let encoded = DataType::RunEndEncoded(ends, item.clone());
    assert_eq!(
        refused(encoded.clone()),
        format!("DataInvalid => Unsupported Arrow data type: {encoded}")
    );
    let union = UnionFields::try_new(vec![1], vec![item.as_ref().clone()]).unwrap();
    let union = DataType::Union(union, UnionMode::Sparse);
    assert_eq!(
        refused(union.clone()),
        format!("DataInvalid => Unsupported Arrow data type: {union}")
    );
    assert_eq!(
        refused(DataType::Map(item, false)),
        "DataInvalid => Map field must have struct type"
    );
}

#[test]
fn fields_without_ids_are_errors() {
    let missing = convert(vec![Field::new("x", DataType::Int32, true)]).unwrap_err();
    assert_eq!(missing.to_string(), "DataInvalid => Field id not found in metadata");
    let wrong = convert(vec![tagged("x", DataType::Int32, "x")]).unwrap_err();
    assert_eq!(wrong.to_string(), "DataInvalid => Failed to parse field id");
}

#[test]
fn nested_arrow_types_stand_for_nested_table_types() {
    let entry = Field::new(
        "entries",
        DataType::Struct(Fields::from(vec![
            tagged("keys", DataType::Utf8, "5"),
            tagged("values", DataType::Int64, "6"),
        ])),
        false,
    );
    let schema = convert(vec![
        tagged(
            "s",
            DataType::Struct(Fields::from(vec![tagged("a", DataType::Int32, "2")])),
            "1",
        ),
        tagged("l", DataType::List(Arc::new(tagged("item", DataType::Date32, "4"))), "3"),
        tagged("m", DataType::Map(Arc::new(entry), false), "7"),
    ])
    .unwrap();
    for (id, name, required, text) in [
        (1, "s", false, "struct<int>"),
        (2, "a", false, "int"),
        (3, "l", false, "list"),
        (4, "element", false, "date"),
        (5, "key", true, "string"),
        (6, "value", false, "long"),
        (7, "m", false, "map"),
    ] {
        let field = schema.field_by_id(id).unwrap();
        assert_eq!(field.name, name);
        assert_eq!(field.required, required);
        assert_eq!(field.field_type.to_string(), text);
    }
    assert!(schema.field_by_id(8).is_none());
}
