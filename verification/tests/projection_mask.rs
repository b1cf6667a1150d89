use arrow_schema::{DataType, Field, Schema as ArrowSchema, TimeUnit};
use iceberg_projection::error::ErrorKind;
use iceberg_projection::reader::ArrowReader;
use iceberg_projection::schema::{
    MapType, NestedField, PrimitiveType, Schema, StructType, Type, VariantType,
};
use parquet::arrow::{ProjectionMask, PARQUET_FIELD_ID_META_KEY};
use parquet::schema::parser::parse_message_type;
use parquet::schema::types::SchemaDescriptor;
use std::collections::HashMap;
use std::sync::Arc;

#[test]
fn test_arrow_projection_mask() {
    let schema = Schema::new(vec![
        NestedField::required(1, "c1", Type::Primitive(PrimitiveType::String)).into(),
        NestedField::optional(2, "c2", Type::Primitive(PrimitiveType::Int)).into(),
        NestedField::optional(
            3,
            "c3",
            Type::Primitive(PrimitiveType::Decimal { precision: 38, scale: 3 }),
        )
        .into(),
    ]);
    let arrow_schema = Arc::new(ArrowSchema::new(vec![
        Field::new("c1", DataType::Utf8, false).with_metadata(HashMap::from([(
            PARQUET_FIELD_ID_META_KEY.to_string(),
            "1".to_string(),
        )])),
        // Type not supported
        Field::new("c2", DataType::Duration(TimeUnit::Microsecond), true).with_metadata(
            HashMap::from([(PARQUET_FIELD_ID_META_KEY.to_string(), "2".to_string())]),
        ),
        // Precision is beyond the supported range
        Field::new("c3", DataType::Decimal128(39, 3), true).with_metadata(HashMap::from([(
            PARQUET_FIELD_ID_META_KEY.to_string(),
            "3".to_string(),
        )])),
    ]));

    let message_type = "
message schema {
  required binary c1 (STRING) = 1;
  optional int32 c2 (INTEGER(8,true)) = 2;
  optional fixed_len_byte_array(17) c3 (DECIMAL(39,3)) = 3;
}
    ";
    let parquet_type = parse_message_type(message_type).expect("should parse schema");
    let parquet_schema = SchemaDescriptor::new(Arc::new(parquet_type));

    // Try projecting the fields c2 and c3 with the unsupported data types
    let err = ArrowReader::get_arrow_projection_mask(
        &[1, 2, 3],
        &[],
        &schema,
        &parquet_schema,
        &arrow_schema,
        false,
    )
    .unwrap_err();

    assert_eq!(err.kind(), ErrorKind::DataInvalid);
    assert_eq!(
        err.to_string(),
        "DataInvalid => Unsupported Arrow data type: Duration(µs)".to_string()
    );

    // Omitting field c2, we still get an error due to c3 being selected
    let err = ArrowReader::get_arrow_projection_mask(
        &[1, 3],
        &[],
        &schema,
        &parquet_schema,
        &arrow_schema,
        false,
    )
    .unwrap_err();

    assert_eq!(err.kind(), ErrorKind::DataInvalid);
    assert_eq!(
        err.to_string(),
        "DataInvalid => Failed to create decimal type, source: DataInvalid => Decimals with precision larger than 38 are not supported: 39".to_string()
    );

    // Finally avoid selecting fields with unsupported data types
    let mask = ArrowReader::get_arrow_projection_mask(
        &[1],
        &[],
        &schema,
        &parquet_schema,
        &arrow_schema,
        false,
    )
    .expect("Some ProjectionMask");
    assert_eq!(mask, ProjectionMask::leaves(&parquet_schema, vec![0]));
}

/// A column that is in the file at a type that cannot be promoted to the projected type is an
/// error. Skipping it would make it look like a column that the file lacks.
#[test]
fn test_arrow_projection_mask_rejects_invalid_type_promotion() {
    let schema = Schema::new(vec![
        NestedField::required(1, "c1", Type::Primitive(PrimitiveType::String)).into(),
        // Narrowing Long -> Int is not a valid promotion.
        NestedField::optional(2, "c2", Type::Primitive(PrimitiveType::Int)).into(),
        // Binary -> Uuid is not a valid promotion (only Fixed(16) -> Uuid is).
        NestedField::optional(3, "c3", Type::Primitive(PrimitiveType::Uuid)).into(),
    ]);

    let field_with_id = |name: &str, data_type: DataType, id: &str| {
        Field::new(name, data_type, true).with_metadata(HashMap::from([(
            PARQUET_FIELD_ID_META_KEY.to_string(),
            id.to_string(),
        )]))
    };

    let arrow_schema = Arc::new(ArrowSchema::new(vec![
        field_with_id("c1", DataType::Utf8, "1"),
        field_with_id("c2", DataType::Int64, "2"),
        field_with_id("c3", DataType::Binary, "3"),
    ]));

    let message_type = "
message schema {
  required binary c1 (STRING) = 1;
  optional int64 c2 = 2;
  optional binary c3 = 3;
}
    ";
    let parquet_type = parse_message_type(message_type).expect("should parse schema");
    let parquet_schema = SchemaDescriptor::new(Arc::new(parquet_type));

    // Every mismatching column is named, not just the first one found.
    let err = ArrowReader::get_arrow_projection_mask(
        &[1, 2, 3],
        &[],
        &schema,
        &parquet_schema,
        &arrow_schema,
        false,
    )
    .expect_err("unpromotable column types must be rejected");

    assert_eq!(err.kind(), ErrorKind::FeatureUnsupported);
    let message = err.to_string();
    assert!(
        message.contains("field 2 (c2): file type long, projected type int"),
        "{message}"
    );
    assert!(
        message.contains("field 3 (c3): file type binary, projected type uuid"),
        "{message}"
    );

    // The promotable column on its own still projects.
    let mask = ArrowReader::get_arrow_projection_mask(
        &[1],
        &[],
        &schema,
        &parquet_schema,
        &arrow_schema,
        false,
    )
    .expect("Some ProjectionMask");
    assert_eq!(mask, ProjectionMask::leaves(&parquet_schema, vec![0]));
}

/// A field id that the file does not carry at all is no error.
#[test]
fn test_arrow_projection_mask_allows_missing_column() {
    let schema = Schema::new(vec![
        NestedField::required(1, "c1", Type::Primitive(PrimitiveType::String)).into(),
        // Added after the file was written.
        NestedField::optional(2, "c2", Type::Primitive(PrimitiveType::Int)).into(),
    ]);

    let arrow_schema = Arc::new(ArrowSchema::new(vec![
        Field::new("c1", DataType::Utf8, false).with_metadata(HashMap::from([(
            PARQUET_FIELD_ID_META_KEY.to_string(),
            "1".to_string(),
        )])),
    ]));

    let parquet_schema = SchemaDescriptor::new(Arc::new(
        parse_message_type("message schema { required binary c1 (STRING) = 1; }").unwrap(),
    ));

    let mask = ArrowReader::get_arrow_projection_mask(
        &[1, 2],
        &[],
        &schema,
        &parquet_schema,
        &arrow_schema,
        false,
    )
    .expect("a column absent from the file must not be an error");
    assert_eq!(mask, ProjectionMask::leaves(&parquet_schema, vec![0]));
}

/// Projecting a variant, top-level or nested, fails.
#[test]
fn test_arrow_projection_mask_variant_is_unsupported() {
    let schema = Schema::new(vec![
        NestedField::optional(1, "id", Type::Primitive(PrimitiveType::Int)).into(),
        NestedField::optional(2, "v", Type::Variant(VariantType)).into(),
        NestedField::required(
            3,
            "s",
            Type::Struct(StructType::new(vec![
                NestedField::optional(4, "vv", Type::Variant(VariantType)).into(),
            ])),
        )
        .into(),
        NestedField::required(
            5,
            "m",
            Type::Mapping(MapType::required(
                6,
                Type::Primitive(PrimitiveType::String),
                7,
                Type::Variant(VariantType),
            )),
        )
        .into(),
    ]);
    // The file does not matter: the variant is rejected before it is looked at.
    let parquet_schema = SchemaDescriptor::new(Arc::new(
        parse_message_type("message schema { optional int32 id = 1; }").unwrap(),
    ));
    let arrow_schema = Arc::new(ArrowSchema::empty());

    // 2 = top-level variant, 3 = struct containing a variant, 4 = the nested variant,
    // 5 = map<string, variant>, plus a mix with a non-variant sibling.
    for projected in [vec![2], vec![3], vec![4], vec![5], vec![1, 2]] {
        let err = ArrowReader::get_arrow_projection_mask(
            &projected,
            &[],
            &schema,
            &parquet_schema,
            &arrow_schema,
            false,
        )
        .expect_err("variant projection must be rejected");
        assert_eq!(err.kind(), ErrorKind::FeatureUnsupported, "{}", err.to_string());
    }
}
