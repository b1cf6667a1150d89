use arrow_schema::{
    DataType, Field, Fields, Schema as ArrowSchema, TimeUnit, UnionFields, UnionMode,
};
use iceberg_projection::error::{Error, ErrorKind};
use iceberg_projection::reader::ArrowReader;
use iceberg_projection::schema::{
    ListType, MapType, NestedField, PrimitiveType, Schema, StructType, Type, VariantType,
};
use parquet::arrow::{ProjectionMask, PARQUET_FIELD_ID_META_KEY};
use parquet::schema::parser::parse_message_type;
use parquet::schema::types::SchemaDescriptor;
use std::collections::HashMap;
use std::sync::Arc;

fn with_id(field: Field, id: &str) -> Field {
    field.with_metadata(HashMap::from([(
        PARQUET_FIELD_ID_META_KEY.to_string(),
        id.to_string(),
    )]))
}

fn column(name: &str, data_type: DataType, id: &str) -> Field {
    with_id(Field::new(name, data_type, true), id)
}

fn arrow(fields: Vec<Field>) -> Arc<ArrowSchema> {
    Arc::new(ArrowSchema::new(fields))
}

fn file(message: &str) -> SchemaDescriptor {
    SchemaDescriptor::new(Arc::new(parse_message_type(message).unwrap()))
}

fn field(id: i32, name: &str, field_type: PrimitiveType) -> Arc<NestedField> {
    NestedField::optional(id, name, Type::Primitive(field_type)).into()
}

fn project(
    field_ids: &[i32],
    predicate_field_ids: &[i32],
    schema: &Schema,
    file: &SchemaDescriptor,
    arrow: &Arc<ArrowSchema>,
    use_fallback: bool,
) -> Result<ProjectionMask, Error> {
    ArrowReader::get_arrow_projection_mask(
        field_ids,
        predicate_field_ids,
        schema,
        file,
        arrow,
        use_fallback,
    )
}

/// Three columns: a name, a `long` that the table has as an `int`, and a date.
fn three_columns() -> (Schema, SchemaDescriptor, Arc<ArrowSchema>) {
    (
        Schema::new(vec![
            field(1, "name", PrimitiveType::String),
            field(2, "v", PrimitiveType::Int),
            field(3, "day", PrimitiveType::Date),
        ]),
        file(
            "message schema {
  optional binary name (STRING) = 1;
  optional int64 v = 2;
  optional int32 day (DATE) = 3;
}",
        ),
        arrow(vec![
            column("name", DataType::Utf8, "1"),
            column("v", DataType::Int64, "2"),
            column("day", DataType::Date32, "3"),
        ]),
    )
}

#[test]
fn nothing_requested_and_nothing_filtered_selects_everything() {
    let (schema, file, arrow) = three_columns();
    for use_fallback in [false, true] {
        let mask = project(&[], &[], &schema, &file, &arrow, use_fallback).unwrap();
        assert_eq!(mask, ProjectionMask::all());
    }
}

#[test]
fn a_filter_alone_selects_everything() {
    let (schema, file, arrow) = three_columns();
    assert_eq!(
        project(&[], &[3], &schema, &file, &arrow, false).unwrap(),
        ProjectionMask::all()
    );
    assert_eq!(
        project(&[], &[3], &schema, &file, &arrow, true).unwrap(),
        ProjectionMask::all()
    );
}

#[test]
fn a_filtered_column_is_not_selected() {
    let (schema, file, arrow) = three_columns();
    let mask = project(&[1], &[3], &schema, &file, &arrow, false).unwrap();
    assert_eq!(mask, ProjectionMask::leaves(&file, vec![0]));
    assert_eq!(mask, project(&[1], &[], &schema, &file, &arrow, false).unwrap());
}

#[test]
fn a_filtered_column_is_type_checked() {
    let (schema, file, arrow) = three_columns();
    let selected = project(&[2], &[], &schema, &file, &arrow, false).unwrap_err();
    let filtered = project(&[1], &[2], &schema, &file, &arrow, false).unwrap_err();
    let filtered_alone = project(&[], &[2], &schema, &file, &arrow, false).unwrap_err();
    for error in [selected, filtered, filtered_alone] {
        assert_eq!(error.kind(), ErrorKind::FeatureUnsupported);
        assert_eq!(
            error.message(),
            "Parquet file column types cannot be promoted to the projected schema types: \
             field 2 (v): file type long, projected type int"
        );
    }
}

#[test]
fn an_untouched_column_is_not_type_checked() {
    let (schema, file, arrow) = three_columns();
    let mask = project(&[1, 3], &[], &schema, &file, &arrow, false).unwrap();
    assert_eq!(mask, ProjectionMask::leaves(&file, vec![0, 2]));
}

#[test]
fn order_and_repetition_make_no_difference() {
    let (schema, file, arrow) = three_columns();
    let mask = project(&[3, 1, 3, 3], &[1, 1], &schema, &file, &arrow, false).unwrap();
    assert_eq!(mask, project(&[1, 3], &[1], &schema, &file, &arrow, false).unwrap());
    let one = project(&[2, 1], &[], &schema, &file, &arrow, false).unwrap_err();
    let other = project(&[1, 2, 2], &[], &schema, &file, &arrow, false).unwrap_err();
    assert_eq!(one.to_string(), other.to_string());
    let by_position = project(&[3, 1, 1], &[], &schema, &file, &arrow, true).unwrap();
    assert_eq!(by_position, project(&[1, 3], &[2], &schema, &file, &arrow, true).unwrap());
}

#[test]
fn no_requested_column_in_the_file_selects_everything() {
    let (_, file, arrow) = three_columns();
    let schema = Schema::new(vec![
        field(8, "new", PrimitiveType::Int),
        field(9, "newer", PrimitiveType::Int),
    ]);
    let mask = project(&[8, 9], &[9], &schema, &file, &arrow, false).unwrap();
    assert_eq!(mask, ProjectionMask::all());
}

#[test]
fn an_id_that_is_no_field_of_the_table_is_passed_over() {
    let (schema, file, arrow) = three_columns();
    let mask = project(&[1, 77], &[78], &schema, &file, &arrow, false).unwrap();
    assert_eq!(mask, ProjectionMask::leaves(&file, vec![0]));
}

#[test]
fn legal_promotions_are_read() {
    let schema = Schema::new(vec![
        field(1, "a", PrimitiveType::Long),
        field(2, "b", PrimitiveType::Double),
        field(3, "c", PrimitiveType::Decimal { precision: 20, scale: 2 }),
        field(4, "d", PrimitiveType::Uuid),
    ]);
    let file = file(
        "message schema {
  optional int32 a = 1;
  optional float b = 2;
  optional int64 c (DECIMAL(10,2)) = 3;
  optional fixed_len_byte_array(16) d = 4;
}",
    );
    let arrow = arrow(vec![
        column("a", DataType::Int32, "1"),
        column("b", DataType::Float32, "2"),
        column("c", DataType::Decimal128(10, 2), "3"),
        column("d", DataType::FixedSizeBinary(16), "4"),
    ]);
    let mask = project(&[4, 3, 2, 1], &[], &schema, &file, &arrow, false).unwrap();
    assert_eq!(mask, ProjectionMask::leaves(&file, vec![0, 1, 2, 3]));
}

#[test]
fn a_column_that_occurs_twice_is_named_once() {
    let schema = Schema::new(vec![field(1, "a", PrimitiveType::Int)]);
    let file = file("message schema { optional int64 a = 1; optional int64 b = 1; }");
    let arrow = arrow(vec![
        column("a", DataType::Int64, "1"),
        column("b", DataType::Int64, "1"),
    ]);
    let error = project(&[1, 1], &[1], &schema, &file, &arrow, false).unwrap_err();
    assert_eq!(
        error.to_string(),
        "FeatureUnsupported => Parquet file column types cannot be promoted to the projected \
         schema types: field 1 (a): file type long, projected type int"
    );
}

#[test]
fn of_two_leaves_with_one_id_the_last_is_selected() {
    let schema = Schema::new(vec![field(1, "a", PrimitiveType::Int)]);
    let file = file("message schema { optional int32 a = 1; optional int32 b = 1; }");
    let arrow = arrow(vec![
        column("a", DataType::Int32, "1"),
        column("b", DataType::Int32, "1"),
    ]);
    let mask = project(&[1], &[], &schema, &file, &arrow, false).unwrap();
    assert_eq!(mask, ProjectionMask::leaves(&file, vec![1]));
}

#[test]
fn an_id_that_is_no_number_is_no_id() {
    let schema = Schema::new(vec![field(1, "a", PrimitiveType::Int)]);
    let file = file("message schema { optional int32 a; optional int32 b; }");
    let arrow = arrow(vec![
        column("a", DataType::Int32, "one"),
        column("b", DataType::Int32, "+1"),
    ]);
    let mask = project(&[1], &[], &schema, &file, &arrow, false).unwrap();
    assert_eq!(mask, ProjectionMask::leaves(&file, vec![1]));
}

/// A struct, a list and a map around leaves, and a plain column behind them.
fn nested_columns() -> (Schema, SchemaDescriptor, Arc<ArrowSchema>) {
    let schema = Schema::new(vec![
        NestedField::optional(
            1,
            "person",
            Type::Struct(StructType::new(vec![
                field(2, "name", PrimitiveType::String),
                field(3, "age", PrimitiveType::Int),
            ])),
        )
        .into(),
        NestedField::optional(
            4,
            "tags",
            Type::List(ListType { element_field: field(5, "element", PrimitiveType::String) }),
        )
        .into(),
        NestedField::optional(
            6,
            "props",
            Type::Mapping(MapType::required(
                7,
                Type::Primitive(PrimitiveType::String),
                8,
                Type::Primitive(PrimitiveType::Int),
            )),
        )
        .into(),
        field(9, "id", PrimitiveType::Long),
    ]);
    let file = file(
        "message schema {
  optional group person = 1 {
    optional binary name (STRING) = 2;
    optional int32 age = 3;
  }
  optional group tags (LIST) = 4 {
    repeated group list { optional binary element (STRING) = 5; }
  }
  optional group props (MAP) = 6 {
    repeated group key_value {
      required binary key (STRING) = 7;
      required int32 value = 8;
    }
  }
  optional int32 id = 9;
}",
    );
    let arrow = arrow(vec![
        column(
            "person",
            DataType::Struct(Fields::from(vec![
                column("name", DataType::Utf8, "2"),
                column("age", DataType::Int32, "3"),
            ])),
            "1",
        ),
        column("tags", DataType::List(Arc::new(column("element", DataType::Utf8, "5"))), "4"),
        column(
            "props",
            DataType::Map(
                Arc::new(Field::new(
                    "key_value",
                    DataType::Struct(Fields::from(vec![
                        with_id(Field::new("key", DataType::Utf8, false), "7"),
                        with_id(Field::new("value", DataType::Int32, false), "8"),
                    ])),
                    false,
                )),
                false,
            ),
            "6",
        ),
        column("id", DataType::Int32, "9"),
    ]);
    (schema, file, arrow)
}

#[test]
fn nested_columns_are_projected_leaf_by_leaf() {
    let (schema, file, arrow) = nested_columns();
    for (requested, leaves) in [
        (vec![1], vec![0, 1]),
        (vec![3], vec![1]),
        (vec![4], vec![2]),
        (vec![5], vec![2]),
        (vec![6], vec![3, 4]),
        (vec![9, 1], vec![0, 1, 5]),
        (vec![1, 4, 6, 9], vec![0, 1, 2, 3, 4, 5]),
    ] {
        let mask = project(&requested, &[], &schema, &file, &arrow, false).unwrap();
        assert_eq!(mask, ProjectionMask::leaves(&file, leaves));
    }
}

#[test]
fn half_a_map_cannot_be_read() {
    let (schema, file, arrow) = nested_columns();
    let error = project(&[7], &[], &schema, &file, &arrow, false).unwrap_err();
    assert_eq!(error.kind(), ErrorKind::DataInvalid);
    assert_eq!(error.to_string(), "DataInvalid => Map field must have exactly 2 fields");
}

#[test]
fn a_nested_column_that_cannot_be_read_is_named() {
    let (_, file, arrow) = nested_columns();
    let schema = Schema::new(vec![NestedField::optional(
        1,
        "person",
        Type::Struct(StructType::new(vec![field(3, "years", PrimitiveType::Date)])),
    )
    .into()]);
    let error = project(&[1], &[], &schema, &file, &arrow, false).unwrap_err();
    assert_eq!(
        error.message(),
        "Parquet file column types cannot be promoted to the projected schema types: \
         field 3 (years): file type int, projected type date"
    );
}

#[test]
fn a_leaf_of_the_file_cannot_be_read_as_a_list() {
    let (_, file, arrow) = three_columns();
    let schema = Schema::new(vec![
        NestedField::optional(
            3,
            "day",
            Type::List(ListType { element_field: field(4, "element", PrimitiveType::Date) }),
        )
        .into(),
        field(5, "other", PrimitiveType::Date),
    ]);
    // The leaf of the list is not in the file, and the list itself is no leaf.
    let mask = project(&[3], &[], &schema, &file, &arrow, false).unwrap();
    assert_eq!(mask, ProjectionMask::all());
    let error = ArrowReader::get_arrow_projection_mask_with_field_ids(
        &[3],
        &[],
        &schema,
        &file,
        &arrow,
    )
    .unwrap_err();
    assert_eq!(
        error.message(),
        "Parquet file column types cannot be promoted to the projected schema types: \
         field 3 (day): file type date, projected type list"
    );
}

#[test]
fn a_fallback_selects_whole_columns_by_position() {
    let (schema, file, arrow) = nested_columns();
    for (requested, roots) in [
        (vec![1], vec![0]),
        (vec![2], vec![1]),
        (vec![3, 1], vec![0, 2]),
        (vec![4, 99], vec![3]),
    ] {
        let mask = project(&requested, &[], &schema, &file, &arrow, true).unwrap();
        assert_eq!(mask, ProjectionMask::roots(&file, roots));
    }
    let mask = project(&[3], &[], &schema, &file, &arrow, true).unwrap();
    assert_eq!(mask, ProjectionMask::leaves(&file, vec![3, 4]));
}

#[test]
fn a_fallback_onto_missing_positions_selects_everything() {
    let (schema, file, arrow) = three_columns();
    for requested in [vec![4], vec![0], vec![-5], vec![i32::MIN], vec![i32::MAX]] {
        let mask = project(&requested, &[], &schema, &file, &arrow, true).unwrap();
        assert_eq!(mask, ProjectionMask::all());
    }
}

#[test]
fn a_fallback_checks_no_types() {
    let (schema, file, arrow) = three_columns();
    let mask = project(&[2], &[2], &schema, &file, &arrow, true).unwrap();
    assert_eq!(mask, ProjectionMask::leaves(&file, vec![1]));
}

#[test]
fn a_variant_is_refused_with_a_fallback_too_but_not_in_a_filter() {
    let (_, file, arrow) = three_columns();
    let schema = Schema::new(vec![
        field(1, "name", PrimitiveType::String),
        NestedField::optional(7, "v", Type::Variant(VariantType)).into(),
    ]);
    for use_fallback in [false, true] {
        let error = project(&[7], &[1], &schema, &file, &arrow, use_fallback).unwrap_err();
        assert_eq!(error.kind(), ErrorKind::FeatureUnsupported);
        assert_eq!(
            error.to_string(),
            "FeatureUnsupported => Reading variant columns is not supported yet"
        );
    }
    let mask = project(&[1], &[7], &schema, &file, &arrow, false).unwrap();
    assert_eq!(mask, ProjectionMask::leaves(&file, vec![0]));
}

#[test]
fn an_unsupported_type_matters_only_where_it_is_touched() {
    let schema = Schema::new(vec![
        field(1, "a", PrimitiveType::Int),
        field(2, "b", PrimitiveType::Int),
    ]);
    let file = file("message schema { optional int32 a = 1; optional int64 b = 2; }");
    let arrow = arrow(vec![
        column("a", DataType::Int32, "1"),
        column("b", DataType::Duration(TimeUnit::Second), "2"),
    ]);
    let mask = project(&[1], &[], &schema, &file, &arrow, false).unwrap();
    assert_eq!(mask, ProjectionMask::leaves(&file, vec![0]));
    let error = project(&[1], &[2], &schema, &file, &arrow, false).unwrap_err();
    assert_eq!(error.to_string(), "DataInvalid => Unsupported Arrow data type: Duration(s)");
}

#[test]
fn schemas_of_different_files_are_noticed() {
    let (schema, _, arrow) = three_columns();
    let narrow = file("message schema { optional binary name (STRING) = 1; }");
    assert!(ArrowReader::get_arrow_projection_mask_checked(
        &[3],
        &[],
        &schema,
        &narrow,
        &arrow,
        false
    )
    .is_none());
    let wide = file(
        "message schema {
  optional binary name (STRING) = 1;
  optional int64 v = 2;
  optional int32 day (DATE) = 3;
  optional int32 more = 4;
}",
    );
    let mask = ArrowReader::get_arrow_projection_mask_checked(
        &[3],
        &[],
        &schema,
        &wide,
        &arrow,
        false,
    )
    .unwrap()
    .unwrap();
    assert_eq!(mask, ProjectionMask::leaves(&wide, vec![2]));
}

#[test]
fn the_parts_of_a_projection_can_be_called_on_their_own() {
    let (schema, file, arrow) = nested_columns();
    let mask = ArrowReader::get_arrow_projection_mask_with_field_ids(
        &[2, 9],
        &[3],
        &schema,
        &file,
        &arrow,
    )
    .unwrap();
    assert_eq!(mask, ProjectionMask::leaves(&file, vec![0, 5]));
    let mask = ArrowReader::get_arrow_projection_mask_fallback(&[4], &file).unwrap();
    assert_eq!(mask, ProjectionMask::roots(&file, vec![3]));
}

/// One requested leaf and one other leaf of a given type, side by side in a struct.
fn beside(other: DataType) -> Arc<ArrowSchema> {
    arrow(vec![column(
        "s",
        DataType::Struct(Fields::from(vec![
            column("a", DataType::Int64, "2"),
            column("b", other, "3"),
        ])),
        "1",
    )])
}

#[test]
fn the_type_of_an_untouched_leaf_does_not_matter_at_any_depth() {
    let file = file(
        "message schema { optional group s = 1 { optional int64 a = 2; optional int64 b = 3; } }",
    );
    let others = [
        DataType::Int64,
        DataType::Duration(TimeUnit::Second),
        DataType::Decimal128(39, 0),
        DataType::Dictionary(Box::new(DataType::Int8), Box::new(DataType::Utf8)),
    ];
    for (table_type, readable) in [(PrimitiveType::Long, true), (PrimitiveType::Int, false)] {
        let schema = Schema::new(vec![
            field(2, "a", table_type),
            field(3, "b", PrimitiveType::Int),
        ]);
        for other in others.clone() {
            let result = project(&[2], &[], &schema, &file, &beside(other), false);
            if readable {
                assert_eq!(result.unwrap(), ProjectionMask::leaves(&file, vec![0]));
            } else {
                assert_eq!(
                    result.unwrap_err().to_string(),
                    "FeatureUnsupported => Parquet file column types cannot be promoted to the \
                     projected schema types: field 2 (a): file type long, projected type int"
                );
            }
        }
    }
}

#[test]
fn an_invalid_file_is_refused_in_the_same_words_whatever_the_order() {
    let file = file(
        "message schema { optional int32 a = 1; optional int64 b = 2; optional int64 c = 3; }",
    );
    let schema = Schema::new(vec![
        field(1, "a", PrimitiveType::Int),
        field(2, "b", PrimitiveType::Int),
        field(3, "c", PrimitiveType::Int),
    ]);
    let union = DataType::Union(
        UnionFields::try_new(
            vec![4, 7],
            vec![column("x", DataType::Int32, "2"), column("y", DataType::Int32, "9")],
        )
        .unwrap(),
        UnionMode::Dense,
    );
    let arrow = arrow(vec![
        column("a", DataType::Int32, "1"),
        column("b", union, "8"),
        column("c", DataType::Int64, "3"),
    ]);
    // What is left of the union without its other field.
    let kept = DataType::Union(
        UnionFields::try_new(vec![4], vec![column("x", DataType::Int32, "2")]).unwrap(),
        UnionMode::Dense,
    );
    for (requested, filtered) in
        [(vec![1, 2], vec![]), (vec![2, 1, 2], vec![]), (vec![1], vec![2]), (vec![3, 2], vec![1])]
    {
        let error = project(&requested, &filtered, &schema, &file, &arrow, false).unwrap_err();
        assert_eq!(error.kind(), ErrorKind::DataInvalid);
        assert_eq!(error.message(), format!("Unsupported Arrow data type: {kept}"));
    }
}

#[test]
fn a_run_end_encoded_type_is_refused_as_it_is_left() {
    let file = file("message schema { optional group r { optional int32 x; optional int32 y; } }");
    let schema = Schema::new(vec![field(2, "x", PrimitiveType::Int)]);
    let encoded = |leaves: Vec<Field>| {
        DataType::RunEndEncoded(
            Arc::new(Field::new("run_ends", DataType::Int32, false)),
            Arc::new(Field::new("values", DataType::Struct(Fields::from(leaves)), true)),
        )
    };
    let x = column("x", DataType::Int32, "2");
    let y = column("y", DataType::Int32, "3");
    let arrow = arrow(vec![column("r", encoded(vec![x.clone(), y]), "1")]);
    let error = project(&[2], &[], &schema, &file, &arrow, false).unwrap_err();
    assert_eq!(
        error.message(),
        format!("Unsupported Arrow data type: {}", encoded(vec![x]))
    );
}

#[test]
fn only_touched_leaves_are_named_unless_ids_are_shared() {
    let file = file(
        "message schema {
  optional group s = 1 { optional int64 a = 2; }
  optional int64 b = 3;
  optional int64 c = 1;
}",
    );
    let fields = |last: &str| {
        arrow(vec![
            column(
                "s",
                DataType::Struct(Fields::from(vec![column("a", DataType::Int64, "2")])),
                "1",
            ),
            column("b", DataType::Int64, "3"),
            column("c", DataType::Int64, last),
        ])
    };
    let schema = Schema::new(vec![
        NestedField::optional(
            1,
            "s",
            Type::Struct(StructType::new(vec![field(2, "a", PrimitiveType::Int)])),
        )
        .into(),
        field(3, "b", PrimitiveType::Int),
        field(4, "c", PrimitiveType::Int),
    ]);
    let start = "Parquet file column types cannot be promoted to the projected schema types: ";
    let touched = "field 2 (a): file type long, projected type int";
    let error = project(&[1], &[], &schema, &file, &fields("4"), false).unwrap_err();
    assert_eq!(error.message(), format!("{start}{touched}"));
    // A leaf with the id of the struct around the requested leaf is taken for that struct.
    let error = project(&[1], &[], &schema, &file, &fields("1"), false).unwrap_err();
    assert_eq!(
        error.message(),
        format!(
            "{start}{touched}; field 1 (s): file type struct<long>, projected type struct<int>"
        )
    );
}
