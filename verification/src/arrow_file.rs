//! The Arrow schema of a file.

use crate::arrow_tree::{
    field_id_key, field_view, fields_view, id_text, leaf_field_ids, leaf_fields_of_all,
    leaf_is_wanted, nested_type_text, optional_text, pairs_map, pruned_all, read_field_id,
    type_view, ArrowField, ArrowFieldView, ArrowType, ArrowTypeView, ListKind, NestedParts,
    PlainType,
};
use arrow_schema::{DataType, Field, Schema as ArrowSchema, TimeUnit, UnionMode};
use parquet::arrow::PARQUET_FIELD_ID_META_KEY;
use std::collections::HashSet;
use std::sync::Arc;
use vstd::prelude::*;

verus! {

#[verifier::external_type_specification]
#[verifier::external_body]
pub struct ExArrowSchema(ArrowSchema);

#[verifier::external_type_specification]
#[verifier::external_body]
pub struct ExField(Field);

#[verifier::external_type_specification]
#[verifier::external_body]
pub struct ExDataType(DataType);

/// The top-level fields of an Arrow schema.
pub uninterp spec fn arrow_fields(schema: ArrowSchema) -> Seq<ArrowFieldView>;

/// The metadata of an Arrow schema as a whole.
pub uninterp spec fn arrow_metadata(schema: ArrowSchema) -> Map<Seq<char>, Seq<char>>;

/// What an Arrow field holds: its name, its type with the fields in it, whether it may be null,
/// and its metadata.
pub uninterp spec fn arrow_field(field: Field) -> ArrowFieldView;

/// What an Arrow type holds, and how it reads where that is part of its view.
pub uninterp spec fn arrow_type(data_type: DataType) -> ArrowTypeView;

/// The fields that `Arc`s hold.
pub open spec fn arrow_field_views(fields: Seq<Arc<Field>>) -> Seq<ArrowFieldView> {
    fields.map_values(|field: Arc<Field>| arrow_field(*field))
}

/// The fields in a sequence of them.
pub open spec fn owned_field_views(fields: Seq<Field>) -> Seq<ArrowFieldView> {
    fields.map_values(|field: Field| arrow_field(field))
}

/// `Field::name`.
pub assume_specification[ Field::name ](field: &Field) -> (name: &String)
    ensures
        name@ == arrow_field(*field).name,
;

/// `Field::data_type`.
pub assume_specification[ Field::data_type ](field: &Field) -> (data_type: &DataType)
    ensures
        arrow_type(*data_type) == arrow_field(*field).data_type,
;

/// `Field::is_nullable`.
pub assume_specification[ Field::is_nullable ](field: &Field) -> (nullable: bool)
    ensures
        nullable == arrow_field(*field).nullable,
;

/// `Field::metadata`, entry by entry. No key occurs twice, and the order is left open.
#[verifier::external_body]
pub(crate) fn field_metadata(field: &Field) -> (pairs: Vec<(String, String)>)
    ensures
        pairs_map(pairs@) == arrow_field(*field).metadata,
{
    field.metadata().iter().map(|(key, value)| (key.clone(), value.clone())).collect()
}

/// `Schema::fields`: the top-level fields, in order.
#[verifier::external_body]
pub(crate) fn schema_fields(schema: &ArrowSchema) -> (fields: Vec<Arc<Field>>)
    ensures
        arrow_field_views(fields@) == arrow_fields(*schema),
{
    schema.fields().to_vec()
}

/// Whether a plain type holds numbers.
pub open spec fn is_numeric(plain: PlainType) -> bool {
    match plain {
        PlainType::Boolean | PlainType::Int8 | PlainType::Int16 | PlainType::Int32
        | PlainType::Int64 | PlainType::UInt8 | PlainType::UInt16 | PlainType::UInt32
        | PlainType::Float32 | PlainType::Float64 | PlainType::Decimal128 { .. } => true,
        _ => false,
    }
}

/// The variants of `DataType` that hold numbers and truth values.
#[verifier::external_body]
fn numeric_type(data_type: &DataType) -> (plain: Option<PlainType>)
    ensures
        match plain {
            Some(plain) => is_numeric(plain) && arrow_type(*data_type) == ArrowTypeView::Plain(
                plain,
            ),
            None => !(arrow_type(*data_type) is Plain && is_numeric(
                arrow_type(*data_type)->Plain_0,
            )),
        },
{
    Some(match *data_type {
        DataType::Boolean => PlainType::Boolean,
        DataType::Int8 => PlainType::Int8,
        DataType::Int16 => PlainType::Int16,
        DataType::Int32 => PlainType::Int32,
        DataType::Int64 => PlainType::Int64,
        DataType::UInt8 => PlainType::UInt8,
        DataType::UInt16 => PlainType::UInt16,
        DataType::UInt32 => PlainType::UInt32,
        DataType::Float32 => PlainType::Float32,
        DataType::Float64 => PlainType::Float64,
        DataType::Decimal128(precision, scale) => PlainType::Decimal128 { precision, scale },
        _ => return None,
    })
}

/// The variants of `DataType` that hold dates, times of day in microseconds, bytes and text.
#[verifier::external_body]
fn binary_or_text_type(data_type: &DataType) -> (plain: Option<PlainType>)
    ensures
        match plain {
            Some(plain) => !is_numeric(plain) && arrow_type(*data_type) == ArrowTypeView::Plain(
                plain,
            ),
            None => !(arrow_type(*data_type) is Plain && !is_numeric(
                arrow_type(*data_type)->Plain_0,
            )),
        },
{
    Some(match *data_type {
        DataType::Date32 => PlainType::Date32,
        DataType::Time64(TimeUnit::Microsecond) => PlainType::TimeMicros,
        DataType::Binary => PlainType::Binary,
        DataType::LargeBinary => PlainType::LargeBinary,
        DataType::BinaryView => PlainType::BinaryView,
        DataType::FixedSizeBinary(width) => PlainType::FixedSizeBinary(width),
        DataType::Utf8 => PlainType::Utf8,
        DataType::LargeUtf8 => PlainType::LargeUtf8,
        DataType::Utf8View => PlainType::Utf8View,
        _ => return None,
    })
}

/// The variant `DataType::Timestamp`, in microseconds and in nanoseconds, with its zone.
#[verifier::external_body]
fn timestamp_type(data_type: &DataType) -> (found: Option<(bool, Option<String>)>)
    ensures
        match found {
            Some((nanos, zone)) => {
                &&& arrow_type(*data_type) matches ArrowTypeView::Timestamp {
                    nanos: own_nanos,
                    zone: own_zone,
                    text,
                }
                &&& own_nanos == nanos
                &&& own_zone == optional_text(zone)
            },
            None => !(arrow_type(*data_type) is Timestamp),
        },
{
    match data_type {
        DataType::Timestamp(TimeUnit::Microsecond, zone) => {
            Some((false, zone.as_ref().map(|zone| zone.to_string())))
        },
        DataType::Timestamp(TimeUnit::Nanosecond, zone) => {
            Some((true, zone.as_ref().map(|zone| zone.to_string())))
        },
        _ => None,
    }
}

/// The variants `DataType::List`, `LargeList` and `FixedSizeList`.
#[verifier::external_body]
fn list_type(data_type: &DataType) -> (found: Option<(ListKind, Arc<Field>)>)
    ensures
        match found {
            Some((kind, element)) => arrow_type(*data_type) == ArrowTypeView::List(
                kind,
                Box::new(arrow_field(*element)),
            ),
            None => !(arrow_type(*data_type) is List),
        },
{
    match data_type {
        DataType::List(element) => Some((ListKind::Regular, element.clone())),
        DataType::LargeList(element) => Some((ListKind::Large, element.clone())),
        DataType::FixedSizeList(element, size) => Some((
            ListKind::FixedSize(*size),
            element.clone(),
        )),
        _ => None,
    }
}

/// The variant `DataType::Map`.
#[verifier::external_body]
fn map_type(data_type: &DataType) -> (found: Option<(Arc<Field>, bool)>)
    ensures
        match found {
            Some((entry, sorted)) => arrow_type(*data_type) == ArrowTypeView::Entries(
                Box::new(arrow_field(*entry)),
                sorted,
            ),
            None => !(arrow_type(*data_type) is Entries),
        },
{
    match data_type {
        DataType::Map(entry, sorted) => Some((entry.clone(), *sorted)),
        _ => None,
    }
}

/// The variant `DataType::Struct`.
#[verifier::external_body]
fn struct_type(data_type: &DataType) -> (found: Option<Vec<Arc<Field>>>)
    ensures
        match found {
            Some(fields) => arrow_type(*data_type) == ArrowTypeView::Struct(
                arrow_field_views(fields@),
            ),
            None => !(arrow_type(*data_type) is Struct),
        },
{
    match data_type {
        DataType::Struct(fields) => Some(fields.to_vec()),
        _ => None,
    }
}

/// The variant `DataType::Union`: whether its mode is `UnionMode::Dense`, and its type ids and
/// fields, in order.
#[verifier::external_body]
fn union_type(data_type: &DataType) -> (found: Option<(bool, Vec<i8>, Vec<Arc<Field>>)>)
    ensures
        match found {
            Some((dense, type_ids, fields)) => {
                &&& arrow_type(*data_type) matches ArrowTypeView::Union {
                    dense: own_dense,
                    type_ids: own_type_ids,
                    fields: own_fields,
                    text,
                }
                &&& own_dense == dense
                &&& own_type_ids == type_ids@
                &&& own_fields == arrow_field_views(fields@)
            },
            None => !(arrow_type(*data_type) is Union),
        },
{
    match data_type {
        DataType::Union(fields, mode) => Some((
            matches!(mode, UnionMode::Dense),
            fields.iter().map(|(type_id, _)| type_id).collect(),
            fields.iter().map(|(_, field)| field.clone()).collect(),
        )),
        _ => None,
    }
}

/// The variant `DataType::Dictionary`, with the types of its keys and of its values.
#[verifier::external_body]
fn dictionary_type(data_type: &DataType) -> (found: Option<(Box<DataType>, Box<DataType>)>)
    ensures
        match found {
            Some((key, value)) => arrow_type(*data_type) == (ArrowTypeView::Dictionary {
                key: Box::new(arrow_type(*key)),
                value: Box::new(arrow_type(*value)),
            }),
            None => !(arrow_type(*data_type) is Dictionary),
        },
{
    match data_type {
        DataType::Dictionary(key, value) => Some((key.clone(), value.clone())),
        _ => None,
    }
}

/// The variant `DataType::RunEndEncoded`, with the fields of its run ends and of its values.
#[verifier::external_body]
fn run_end_encoded_type(data_type: &DataType) -> (found: Option<(Arc<Field>, Arc<Field>)>)
    ensures
        match found {
            Some((run_ends, values)) => {
                &&& arrow_type(*data_type) matches ArrowTypeView::RunEndEncoded {
                    run_ends: own_run_ends,
                    values: own_values,
                    text,
                }
                &&& *own_run_ends == arrow_field(*run_ends)
                &&& *own_values == arrow_field(*values)
            },
            None => !(arrow_type(*data_type) is RunEndEncoded),
        },
{
    match data_type {
        DataType::RunEndEncoded(run_ends, values) => Some((run_ends.clone(), values.clone())),
        _ => None,
    }
}

/// `DataType::to_string`: how a type reads. For a type that is none of the kinds above this is all
/// that is known of it. How a union or a run-end encoded type reads depends on its parts alone;
/// metadata is written in the order of its keys. No other type is asked how it reads.
#[verifier::external_body]
fn type_text(data_type: &DataType) -> (text: String)
    requires
        match arrow_type(*data_type) {
            ArrowTypeView::Timestamp { .. } | ArrowTypeView::Union { .. }
            | ArrowTypeView::RunEndEncoded { .. } | ArrowTypeView::Other { .. } => true,
            _ => false,
        },
    ensures
        match arrow_type(*data_type) {
            ArrowTypeView::Timestamp { nanos: _, zone: _, text: own } => text@ == own,
            ArrowTypeView::Union { dense, type_ids, fields, text: own } => text@ == own && text@
                == nested_type_text(NestedParts::Union { dense, type_ids, fields }),
            ArrowTypeView::RunEndEncoded { run_ends, values, text: own } => text@ == own && text@
                == nested_type_text(
                NestedParts::RunEndEncoded { run_ends: *run_ends, values: *values },
            ),
            ArrowTypeView::Other { text: own } => text@ == own,
            _ => true,
        },
{
    data_type.to_string()
}

/// `Fields::filter_leaves` visits every leaf field, depth first: the texts under the field-id key
/// of the leaves, in that order.
#[verifier::external_body]
fn leaf_id_texts(schema: &ArrowSchema) -> (texts: Vec<Option<String>>)
    ensures
        texts@.len() == leaf_fields_of_all(arrow_fields(*schema)).len(),
        forall|i: int|
            0 <= i < texts@.len() ==> optional_text(#[trigger] texts@[i]) == id_text(
                leaf_fields_of_all(arrow_fields(*schema))[i],
            ),
{
    let mut texts = Vec::new();
    schema.fields().filter_leaves(|_, leaf| {
        texts.push(leaf.metadata().get(PARQUET_FIELD_ID_META_KEY).cloned());
        false
    });
    texts
}

/// `Fields::filter_leaves` keeps the leaves that a test picks, and of the fields around them those
/// that have a leaf left; here the test is [`leaf_is_wanted`]. A union keeps its mode, and its
/// fields their type ids. `Schema::new_with_metadata` makes the kept fields a schema again.
#[verifier::external_body]
pub(crate) fn retain_leaves(schema: &ArrowSchema, ids: &HashSet<i32>) -> (kept: ArrowSchema)
    ensures
        arrow_fields(kept) == pruned_all(arrow_fields(*schema), ids@),
        arrow_metadata(kept) == arrow_metadata(*schema),
{
    ArrowSchema::new_with_metadata(
        schema.fields().filter_leaves(
            |_, leaf| leaf_is_wanted(leaf.metadata().get(PARQUET_FIELD_ID_META_KEY), ids),
        ),
        schema.metadata().clone(),
    )
}

/// The ids that the leaves of an Arrow schema carry, leaf by leaf.
pub fn read_leaf_ids(schema: &ArrowSchema) -> (ids: Vec<Option<i32>>)
    ensures
        ids@ == leaf_field_ids(arrow_fields(*schema)),
{
    let texts = leaf_id_texts(schema);
    let ghost wanted = leaf_field_ids(arrow_fields(*schema));
    let mut ids: Vec<Option<i32>> = Vec::new();
    let mut i: usize = 0;
    while i < texts.len()
        invariant
            i <= texts.len(),
            texts@.len() == leaf_fields_of_all(arrow_fields(*schema)).len(),
            forall|j: int|
                0 <= j < texts@.len() ==> optional_text(#[trigger] texts@[j]) == id_text(
                    leaf_fields_of_all(arrow_fields(*schema))[j],
                ),
            wanted == leaf_field_ids(arrow_fields(*schema)),
            ids@ =~= wanted.take(i as int),
        decreases texts.len() - i,
    {
        assert(optional_text(texts@[i as int]) == id_text(
            leaf_fields_of_all(arrow_fields(*schema))[i as int],
        ));
        ids.push(read_field_id(texts[i].as_ref()));
        i = i + 1;
    }
    assert(ids@ =~= wanted);
    ids
}

/// The constant `PARQUET_FIELD_ID_META_KEY`.
#[verifier::external_body]
pub(crate) fn field_id_meta_key() -> (key: String)
    ensures
        key@ == field_id_key(),
{
    PARQUET_FIELD_ID_META_KEY.to_string()
}

/// `Field::new` with the name, the type and the nullability of `field`, and `Field::with_metadata`
/// with the given entries, later ones over earlier ones.
#[verifier::external_body]
pub(crate) fn field_with_metadata(field: &Field, metadata: Vec<(String, String)>) -> (new: Field)
    ensures
        arrow_field(new) == (ArrowFieldView {
            metadata: pairs_map(metadata@),
            ..arrow_field(*field)
        }),
{
    Field::new(field.name(), field.data_type().clone(), field.is_nullable()).with_metadata(
        metadata.into_iter().collect(),
    )
}

/// `Schema::new_with_metadata` with the metadata of `schema`.
#[verifier::external_body]
pub(crate) fn schema_with_fields(schema: &ArrowSchema, fields: Vec<Field>) -> (new: ArrowSchema)
    ensures
        arrow_fields(new) == owned_field_views(fields@),
        arrow_metadata(new) == arrow_metadata(*schema),
{
    ArrowSchema::new_with_metadata(fields, schema.metadata().clone())
}

/// Reads fields that are parts of a type or of a schema.
fn read_fields(fields: &Vec<Arc<Field>>) -> (read: Vec<ArrowField>)
    ensures
        fields_view(read@) == arrow_field_views(fields@),
    decreases arrow_field_views(fields@), 1nat,
{
    let mut read: Vec<ArrowField> = Vec::new();
    let ghost wanted = arrow_field_views(fields@);
    let mut i: usize = 0;
    while i < fields.len()
        invariant
            i <= fields.len(),
            wanted == arrow_field_views(fields@),
            fields_view(read@) =~= wanted.take(i as int),
        decreases fields.len() - i,
    {
        assert(wanted[i as int] == arrow_field(*fields@[i as int]));
        let field = read_field(&fields[i]);
        let ghost before = read@;
        read.push(field);
        assert(read@.drop_last() =~= before);
        i = i + 1;
    }
    assert(fields_view(read@) =~= wanted);
    read
}

/// Reads an Arrow field.
fn read_field(field: &Field) -> (read: ArrowField)
    ensures
        field_view(read) == arrow_field(*field),
    decreases arrow_field(*field), 0nat,
{
    let data_type = read_type(field.data_type());
    ArrowField {
        name: field.name().clone(),
        data_type,
        nullable: field.is_nullable(),
        metadata: field_metadata(field),
    }
}

/// Reads an Arrow type.
fn read_type(data_type: &DataType) -> (read: ArrowType)
    ensures
        type_view(read) == arrow_type(*data_type),
    decreases arrow_type(*data_type), 2nat,
{
    if let Some(plain) = numeric_type(data_type) {
        return ArrowType::Plain(plain);
    }
    if let Some(plain) = binary_or_text_type(data_type) {
        return ArrowType::Plain(plain);
    }
    if let Some((nanos, zone)) = timestamp_type(data_type) {
        return ArrowType::Timestamp { nanos, zone, text: type_text(data_type) };
    }
    let ghost own = arrow_type(*data_type);
    if let Some((kind, element)) = list_type(data_type) {
        assert(decreases_to!(own => own->List_1));
        return ArrowType::List(kind, Box::new(read_field(&element)));
    }
    if let Some((entry, sorted)) = map_type(data_type) {
        assert(decreases_to!(own => own->Entries_0));
        return ArrowType::Entries(Box::new(read_field(&entry)), sorted);
    }
    if let Some(fields) = struct_type(data_type) {
        assert(decreases_to!(own => own->Struct_0));
        return ArrowType::Struct(read_fields(&fields));
    }
    if let Some((dense, type_ids, fields)) = union_type(data_type) {
        assert(decreases_to!(own => own->Union_fields));
        return ArrowType::Union {
            dense,
            type_ids,
            fields: read_fields(&fields),
            text: type_text(data_type),
        };
    }
    if let Some((key, value)) = dictionary_type(data_type) {
        assert(decreases_to!(own => own->key));
        assert(decreases_to!(own => own->value));
        return ArrowType::Dictionary {
            key: Box::new(read_type(&key)),
            value: Box::new(read_type(&value)),
        };
    }
    if let Some((run_ends, values)) = run_end_encoded_type(data_type) {
        assert(decreases_to!(own => own->run_ends));
        assert(decreases_to!(own => own->values));
        return ArrowType::RunEndEncoded {
            run_ends: Box::new(read_field(&run_ends)),
            values: Box::new(read_field(&values)),
            text: type_text(data_type),
        };
    }
    ArrowType::Other { text: type_text(data_type) }
}

/// Reads the top-level fields of an Arrow schema.
pub fn read_arrow_fields(schema: &ArrowSchema) -> (fields: Vec<ArrowField>)
    ensures
        fields_view(fields@) == arrow_fields(*schema),
{
    read_fields(&schema_fields(schema))
}

} // verus!
