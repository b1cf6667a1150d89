use arrow_schema::{DataType, Field, Fields, Schema as ArrowSchema};
use iceberg_projection::field_ids::{
    add_fallback_field_ids_to_arrow_schema, apply_name_mapping_to_arrow_schema,
    mapped_field_ids, positional_field_ids,
};
use iceberg_projection::field_map::{
    build_fallback_field_id_map, build_field_id_map, build_field_id_map_from_arrow_schema,
    fallback_field_id_map, field_id_map_of_columns, field_id_map_of_leaves,
    find_column_by_field_id, find_leaf_by_field_id, leaf_count,
};
use iceberg_projection::name_mapping::{MappedField, NameMapping};
use iceberg_projection::parquet_file::{read_parquet_roots, LeafColumn, ParquetNode};
use iceberg_projection::predicate::{BoundPredicate, BoundReference};
use iceberg_projection::reader::ArrowReader;
use iceberg_projection::schema::{NestedField, PrimitiveType, Schema, Type};
use parquet::arrow::{ProjectionMask, PARQUET_FIELD_ID_META_KEY};
use parquet::schema::parser::parse_message_type;
use parquet::schema::types::SchemaDescriptor;
use std::collections::{HashMap, HashSet};
use std::sync::Arc;

fn descriptor(message: &str) -> SchemaDescriptor {
    SchemaDescriptor::new(Arc::new(parse_message_type(message).unwrap()))
}

/// A struct, a list and a map before the column `id`, and no field ids.
fn migrated() -> SchemaDescriptor {
    descriptor(
        "message schema {
  optional group person {
    optional binary name (STRING);
    optional int32 age;
  }
  optional group people (LIST) {
    repeated group list {
      optional group element {
        optional binary name (STRING);
        optional int32 age;
      }
    }
  }
  optional group props (MAP) {
    repeated group key_value {
      required binary key (STRING);
      optional binary value (STRING);
    }
  }
  optional int32 id;
}",
    )
}

fn reads(id: i32) -> BoundPredicate {
    BoundPredicate::Binary(BoundReference { field_id: id })
}

fn id_of(field: &Field) -> Option<&str> {
    field.metadata().get(PARQUET_FIELD_ID_META_KEY).map(|id| id.as_str())
}

#[test]
fn embedded_ids_are_mapped_to_columns() {
    let file = descriptor(
        "message schema {
  optional group s = 1 { optional int32 a = 4; optional int32 b = 3; }
  optional int32 c = 2;
}",
    );
    let map = build_field_id_map(&file).unwrap().unwrap();
    assert_eq!(map, HashMap::from([(4, 0), (3, 1), (2, 2)]));
}

#[test]
fn a_column_without_an_id_leaves_a_file_without_a_map() {
    let file = descriptor("message schema { optional int32 a = 1; optional int32 b; }");
    assert!(build_field_id_map(&file).unwrap().is_none());
    assert_eq!(find_leaf_by_field_id(&file, 1), Some(0));
    assert_eq!(find_leaf_by_field_id(&file, 2), None);
}

#[test]
fn of_two_columns_with_one_id_the_map_takes_the_last_and_the_search_the_first() {
    let file = descriptor(
        "message schema { optional int32 a = 1; optional int32 b = 2; optional int32 c = 1; }",
    );
    assert_eq!(build_field_id_map(&file).unwrap().unwrap(), HashMap::from([(1, 2), (2, 1)]));
    assert_eq!(find_leaf_by_field_id(&file, 1), Some(0));
    assert_eq!(find_leaf_by_field_id(&file, 2), Some(1));
}

#[test]
fn a_search_passes_over_columns_without_ids() {
    let file = descriptor(
        "message schema {
  optional group v { required binary metadata; required binary value; }
  optional int64 position = 2147483545;
}",
    );
    assert_eq!(find_leaf_by_field_id(&file, 2147483545), Some(2));
}

#[test]
fn a_leaf_that_is_a_group_is_an_error() {
    let columns = vec![
        LeafColumn::Primitive { id: Some(1) },
        LeafColumn::Group { debug: "GroupType".to_string() },
        LeafColumn::Primitive { id: None },
    ];
    let error = field_id_map_of_columns(&columns).unwrap_err();
    assert_eq!(
        error.to_string(),
        "DataInvalid => Leaf column in schema should be primitive type but got GroupType"
    );
    let columns = vec![
        LeafColumn::Primitive { id: None },
        LeafColumn::Group { debug: "GroupType".to_string() },
        LeafColumn::Primitive { id: Some(5) },
    ];
    assert!(field_id_map_of_columns(&columns).unwrap().is_none());
    assert_eq!(find_column_by_field_id(&columns, 5), Some(2));
}

#[test]
fn a_fallback_map_counts_the_columns_of_groups() {
    let file = migrated();
    // The nested columns before `id` take up six leaves and three positions.
    assert_eq!(build_fallback_field_id_map(&file), HashMap::from([(4, 6)]));
    let flat = descriptor("message schema { optional int32 a; optional int32 b; }");
    assert_eq!(build_fallback_field_id_map(&flat), HashMap::from([(1, 0), (2, 1)]));
}

#[test]
fn parquet_types_are_read_as_trees() {
    let roots = read_parquet_roots(&migrated());
    assert_eq!(roots.len(), 4);
    assert_eq!(roots.iter().map(leaf_count).collect::<Vec<_>>(), vec![2, 2, 2, 1]);
    assert!(matches!(roots[3], ParquetNode::Primitive { id: None }));
    let roots = read_parquet_roots(&descriptor(
        "message schema { optional group s = 1 { optional int32 a = 7; } }",
    ));
    match &roots[0] {
        ParquetNode::Group { fields } => {
            assert!(matches!(fields[0], ParquetNode::Primitive { id: Some(7) }));
        }
        other => panic!("{other:?}"),
    }
}

#[test]
fn trees_have_fallback_maps_too() {
    let roots = vec![
        ParquetNode::Primitive { id: None },
        ParquetNode::Group {
            fields: vec![
                ParquetNode::Primitive { id: None },
                ParquetNode::Group { fields: vec![ParquetNode::Primitive { id: None }] },
            ],
        },
        ParquetNode::Group { fields: vec![] },
        ParquetNode::Primitive { id: None },
    ];
    assert_eq!(fallback_field_id_map(&roots), HashMap::from([(1, 0), (4, 3)]));
}

#[test]
fn leaf_ids_are_mapped_to_their_last_positions() {
    let ids = vec![Some(3), None, Some(3), Some(-1)];
    assert_eq!(field_id_map_of_leaves(&ids), HashMap::from([(3, 2), (-1, 3)]));
    assert_eq!(field_id_map_of_leaves(&vec![]), HashMap::new());
}

#[test]
fn a_mask_and_a_map_by_position_agree() {
    let file = migrated();
    let position = build_fallback_field_id_map(&file)[&4];
    let mask = ArrowReader::get_arrow_projection_mask_fallback(&[4], &file).unwrap();
    assert!(mask.leaf_included(position));
    assert_eq!(mask, ProjectionMask::leaves(&file, vec![position]));
}

#[test]
fn a_predicate_reads_each_of_its_fields_once() {
    let predicate = BoundPredicate::And(
        Box::new(BoundPredicate::Or(
            Box::new(reads(4)),
            Box::new(BoundPredicate::Not(Box::new(reads(2)))),
        )),
        Box::new(BoundPredicate::And(
            Box::new(BoundPredicate::Unary(BoundReference { field_id: 4 })),
            Box::new(BoundPredicate::Membership(BoundReference { field_id: 9 })),
        )),
    );
    let mut ids = ArrowReader::collect_predicate_field_ids(&predicate).unwrap();
    ids.sort();
    assert_eq!(ids, vec![2, 4, 9]);
    for constant in [BoundPredicate::AlwaysTrue, BoundPredicate::AlwaysFalse] {
        assert!(ArrowReader::collect_predicate_field_ids(&constant).unwrap().is_empty());
    }
}

#[test]
fn columns_are_found_by_embedded_ids_first() {
    let file = descriptor("message schema { optional int32 a = 7; optional int32 b = 5; }");
    let arrow = Arc::new(ArrowSchema::empty());
    for fallback in [false, true] {
        let (ids, map) =
            ArrowReader::build_field_id_set_and_map(&file, &arrow, &reads(5), fallback).unwrap();
        assert_eq!(ids, HashSet::from([5]));
        assert_eq!(map, HashMap::from([(7, 0), (5, 1)]));
    }
}

#[test]
fn columns_without_ids_are_found_by_position_or_by_name() {
    let file = descriptor(
        "message schema { optional binary name (STRING); optional binary subdept (STRING); }",
    );
    let arrow = Arc::new(ArrowSchema::new(vec![
        Field::new("name", DataType::Utf8, true),
        Field::new("subdept", DataType::Utf8, true),
    ]));
    let mapping = NameMapping::new(vec![
        MappedField::new(Some(2), vec!["name".to_string()], vec![]),
        MappedField::new(Some(4), vec!["subdept".to_string()], vec![]),
    ]);
    let mapped = apply_name_mapping_to_arrow_schema(arrow.clone(), &mapping).unwrap();
    let (ids, map) =
        ArrowReader::build_field_id_set_and_map(&file, &mapped, &reads(4), false).unwrap();
    assert_eq!(ids, HashSet::from([4]));
    assert_eq!(map, HashMap::from([(2, 0), (4, 1)]));
    let (_, map) =
        ArrowReader::build_field_id_set_and_map(&file, &mapped, &reads(4), true).unwrap();
    assert_eq!(map, HashMap::from([(1, 0), (2, 1)]));

    let schema = Schema::new(vec![
        NestedField::optional(2, "name", Type::Primitive(PrimitiveType::String)).into(),
        NestedField::optional(4, "subdept", Type::Primitive(PrimitiveType::String)).into(),
    ]);
    for (requested, leaves) in [(vec![2], vec![0]), (vec![4], vec![1]), (vec![2, 4], vec![0, 1])] {
        let mask = ArrowReader::get_arrow_projection_mask(
            &requested,
            &[],
            &schema,
            &file,
            &mapped,
            false,
        )
        .unwrap();
        assert_eq!(mask, ProjectionMask::leaves(&file, leaves));
    }
}

#[test]
fn a_name_mapping_changes_the_ids_of_listed_columns_alone() {
    let noted = HashMap::from([("note".to_string(), "kept".to_string())]);
    let arrow = Arc::new(ArrowSchema::new_with_metadata(
        vec![
            Field::new("a", DataType::Int32, false).with_metadata(noted.clone()),
            Field::new("b", DataType::Utf8, true).with_metadata(noted),
            Field::new("c", DataType::Date32, true),
            Field::new("d", DataType::Boolean, true),
        ],
        HashMap::from([("writer".to_string(), "hive".to_string())]),
    ));
    let mapping = NameMapping::new(vec![
        MappedField::new(None, vec!["c".to_string()], vec![]),
        MappedField::new(Some(11), vec!["other".to_string(), "a".to_string()], vec![]),
        MappedField::new(Some(12), vec!["a".to_string(), "c".to_string()], vec![]),
        MappedField::new(Some(-13), vec!["d".to_string()], vec![]),
    ]);
    let mapped = apply_name_mapping_to_arrow_schema(arrow.clone(), &mapping).unwrap();
    assert_eq!(mapped.metadata(), arrow.metadata());
    assert_eq!(id_of(mapped.field(0)), Some("11"));
    assert_eq!(mapped.field(0).metadata()["note"], "kept");
    assert_eq!(mapped.field(0).name(), "a");
    assert_eq!(mapped.field(0).data_type(), &DataType::Int32);
    assert!(!mapped.field(0).is_nullable());
    assert_eq!(mapped.field(1), arrow.field(1));
    assert_eq!(mapped.field(2), arrow.field(2));
    assert_eq!(id_of(mapped.field(3)), Some("-13"));
    let names: Vec<String> = ["a", "b", "c", "d"].iter().map(|name| name.to_string()).collect();
    assert_eq!(mapped_field_ids(&mapping, &names), vec![Some(11), None, None, Some(-13)]);
    assert_eq!(
        build_field_id_map_from_arrow_schema(&mapped),
        HashMap::from([(11, 0), (-13, 3)])
    );
}

#[test]
fn a_fallback_numbers_the_top_level_columns() {
    let nested = DataType::Struct(Fields::from(vec![
        Field::new("x", DataType::Int32, true),
        Field::new("y", DataType::Int32, true),
    ]));
    let arrow = Arc::new(ArrowSchema::new_with_metadata(
        vec![
            Field::new("a", DataType::Int32, false),
            Field::new("s", nested.clone(), true),
            Field::new("b", DataType::Utf8, true),
        ],
        HashMap::from([("writer".to_string(), "hive".to_string())]),
    ));
    let numbered = add_fallback_field_ids_to_arrow_schema(&arrow);
    assert_eq!(numbered.metadata(), arrow.metadata());
    assert_eq!(
        numbered.fields().iter().map(|field| id_of(field)).collect::<Vec<_>>(),
        vec![Some("1"), Some("2"), Some("3")]
    );
    assert_eq!(numbered.field(1).data_type(), &nested);
    assert_eq!(numbered.field(1).name(), "s");
    assert!(!numbered.field(0).is_nullable());
    assert_eq!(positional_field_ids(3), vec![Some(1), Some(2), Some(3)]);

    // The ids lead to the same columns as the map that goes by the file.
    let file = descriptor(
        "message schema {
  required int32 a;
  optional group s { optional int32 x; optional int32 y; }
  optional binary b (STRING);
}",
    );
    assert_eq!(build_field_id_map_from_arrow_schema(&numbered), HashMap::from([(1, 0), (3, 3)]));
    assert_eq!(
        build_field_id_map_from_arrow_schema(&numbered),
        build_fallback_field_id_map(&file)
    );
}

#[test]
fn a_mapped_column_behind_a_nested_one_is_found() {
    let arrow = Arc::new(ArrowSchema::new(vec![
        Field::new(
            "s",
            DataType::Struct(Fields::from(vec![
                Field::new("x", DataType::Int32, true),
                Field::new("y", DataType::Int32, true),
            ])),
            true,
        ),
        Field::new("b", DataType::Utf8, true),
    ]));
    let mapping = NameMapping::new(vec![
        MappedField::new(Some(1), vec!["b".to_string()], vec![]),
        MappedField::new(Some(2), vec!["s".to_string()], vec![]),
    ]);
    let mapped = apply_name_mapping_to_arrow_schema(arrow, &mapping).unwrap();
    assert_eq!(build_field_id_map_from_arrow_schema(&mapped), HashMap::from([(1, 2)]));
}
