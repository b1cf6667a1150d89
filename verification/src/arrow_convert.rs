//! The table schema that an Arrow schema stands for.

use crate::arrow_file::field_id_meta_key;
use crate::arrow_tree::{
    field_id, field_id_key, field_view, fields_view, id_text, layout, leaf_fields,
    leaf_fields_of_all, pairs_map, read_field_id, type_view, ArrowField, ArrowFieldView, ArrowType,
    ArrowTypeView, PlainType,
};
use crate::error::{Error, ErrorKind};
use crate::schema::{
    field_types_text, find_in_all, find_in_field, type_text, ListType, MapType, NestedField,
    PrimitiveType, Schema, StructType, Type,
};
use crate::text::{decimal_text, integer_text};
use std::sync::Arc;
use vstd::prelude::*;
use vstd::string::StringExecFns;

verus! {

/// Why an Arrow schema stands for no table schema.
pub enum ConversionError {
    /// A type without a counterpart, by how it reads.
    Unsupported(Seq<char>),
    /// A decimal type with too many digits.
    DecimalPrecision(int),
    /// A map whose entries are not made of a key and a value.
    EntryCount,
    /// A map whose entries are no structs.
    EntryNotStruct,
    /// A field without a field id.
    MissingId,
    /// A field whose field id is no number.
    InvalidId,
}

/// Whether `error` reports `reason`.
pub open spec fn reports(error: Error, reason: ConversionError) -> bool {
    &&& error.kind is DataInvalid
    &&& match reason {
        ConversionError::Unsupported(text) => error.message@ == "Unsupported Arrow data type: "@
            + text && error.source is None,
        ConversionError::DecimalPrecision(precision) => {
            &&& error.message@ == "Failed to create decimal type"@
            &&& error.source matches Some(source)
            &&& source.kind is DataInvalid
            &&& source.message@ == "Decimals with precision larger than 38 are not supported: "@
                + decimal_text(precision)
            &&& source.source is None
        },
        ConversionError::EntryCount => error.message@ == "Map field must have exactly 2 fields"@
            && error.source is None,
        ConversionError::EntryNotStruct => error.message@ == "Map field must have struct type"@
            && error.source is None,
        ConversionError::MissingId => error.message@ == "Field id not found in metadata"@
            && error.source is None,
        ConversionError::InvalidId => error.message@ == "Failed to parse field id"@
            && error.source is None,
    }
}

/// The table type that a plain Arrow type stands for.
pub open spec fn plain_target(plain: PlainType) -> PrimitiveType {
    match plain {
        PlainType::Boolean => PrimitiveType::Boolean,
        PlainType::Int8 | PlainType::Int16 | PlainType::Int32 => PrimitiveType::Int,
        PlainType::UInt8 | PlainType::UInt16 => PrimitiveType::Int,
        PlainType::Int64 | PlainType::UInt32 => PrimitiveType::Long,
        PlainType::Float32 => PrimitiveType::Float,
        PlainType::Float64 => PrimitiveType::Double,
        PlainType::Decimal128 { precision, scale } => PrimitiveType::Decimal {
            precision: precision as u32,
            scale: scale as u32,
        },
        PlainType::Date32 => PrimitiveType::Date,
        PlainType::TimeMicros => PrimitiveType::Time,
        PlainType::Binary | PlainType::LargeBinary | PlainType::BinaryView => PrimitiveType::Binary,
        PlainType::FixedSizeBinary(width) => PrimitiveType::Fixed(width as u64),
        PlainType::Utf8 | PlainType::LargeUtf8 | PlainType::Utf8View => PrimitiveType::String,
    }
}

/// The table type that a timestamp stands for. A zone matters only by being there.
pub open spec fn timestamp_target(nanos: bool, zoned: bool) -> PrimitiveType {
    match (nanos, zoned) {
        (false, false) => PrimitiveType::Timestamp,
        (false, true) => PrimitiveType::Timestamptz,
        (true, false) => PrimitiveType::TimestampNs,
        (true, true) => PrimitiveType::TimestamptzNs,
    }
}

/// Whether a zone is that of the table format.
pub open spec fn is_utc(zone: Seq<char>) -> bool {
    zone == "UTC"@ || zone == "+00:00"@
}

/// The first of two reasons.
pub open spec fn first_reason(
    first: Option<ConversionError>,
    second: Option<ConversionError>,
) -> Option<ConversionError> {
    if first is Some {
        first
    } else {
        second
    }
}

/// Why a field has no usable id.
pub open spec fn id_error(field: ArrowFieldView) -> Option<ConversionError> {
    if id_text(field) is None {
        Some(ConversionError::MissingId)
    } else if field_id(field) is None {
        Some(ConversionError::InvalidId)
    } else {
        None
    }
}

/// Why a type stands for no table type. Of the parts of a type the types come first, in order, and
/// then the ids.
pub open spec fn type_error(t: ArrowTypeView) -> Option<ConversionError>
    decreases t,
{
    match t {
        ArrowTypeView::Plain(plain) => match plain {
            PlainType::Decimal128 { precision, scale: _ } if precision > 38 => Some(
                ConversionError::DecimalPrecision(precision as int),
            ),
            _ => None,
        },
        ArrowTypeView::Timestamp { nanos: _, zone, text } => if zone is None || is_utc(zone->0) {
            None
        } else {
            Some(ConversionError::Unsupported(text))
        },
        ArrowTypeView::List(_, element) => first_reason(
            type_error(element.data_type),
            id_error(*element),
        ),
        ArrowTypeView::Struct(fields) => first_reason(types_error(fields), ids_error(fields)),
        ArrowTypeView::Entries(entry, _) => match entry.data_type {
            ArrowTypeView::Struct(fields) => if fields.len() == 2 {
                first_reason(
                    first_reason(type_error(fields[0].data_type), type_error(fields[1].data_type)),
                    first_reason(id_error(fields[0]), id_error(fields[1])),
                )
            } else {
                Some(ConversionError::EntryCount)
            },
            _ => Some(ConversionError::EntryNotStruct),
        },
        ArrowTypeView::Dictionary { key: _, value } => type_error(*value),
        ArrowTypeView::Union { dense: _, type_ids: _, fields: _, text } => Some(
            ConversionError::Unsupported(text),
        ),
        ArrowTypeView::RunEndEncoded { run_ends: _, values: _, text } => Some(
            ConversionError::Unsupported(text),
        ),
        ArrowTypeView::Other { text } => Some(ConversionError::Unsupported(text)),
    }
}

/// Why the type of one of `fields` stands for no table type; of several reasons the first.
pub open spec fn types_error(fields: Seq<ArrowFieldView>) -> Option<ConversionError>
    decreases fields,
{
    if fields.len() == 0 {
        None
    } else {
        first_reason(types_error(fields.drop_last()), type_error(fields.last().data_type))
    }
}

/// Why one of `fields` has no usable id; of several reasons the first.
pub open spec fn ids_error(fields: Seq<ArrowFieldView>) -> Option<ConversionError>
    decreases fields.len(),
{
    if fields.len() == 0 {
        None
    } else {
        first_reason(ids_error(fields.drop_last()), id_error(fields.last()))
    }
}

/// Why `fields` stand for no table schema.
pub open spec fn conversion_error(fields: Seq<ArrowFieldView>) -> Option<ConversionError> {
    first_reason(types_error(fields), ids_error(fields))
}

/// Whether `converted` is the table type that `t` stands for.
pub open spec fn type_converts(t: ArrowTypeView, converted: Type) -> bool
    decreases t,
{
    match t {
        ArrowTypeView::Plain(plain) => converted == Type::Primitive(plain_target(plain)),
        ArrowTypeView::Timestamp { nanos, zone, text: _ } => converted == Type::Primitive(
            timestamp_target(nanos, zone is Some),
        ),
        ArrowTypeView::List(_, element) => {
            &&& converted matches Type::List(list)
            &&& part_converts(*element, *list.element_field, "element"@, !element.nullable)
        },
        ArrowTypeView::Struct(fields) => {
            &&& converted matches Type::Struct(own)
            &&& fields_convert(fields, own.fields@)
        },
        ArrowTypeView::Entries(entry, _) => {
            &&& converted matches Type::Mapping(own)
            &&& entry.data_type matches ArrowTypeView::Struct(fields)
            &&& fields.len() == 2
            &&& part_converts(fields[0], *own.key_field, "key"@, true)
            &&& part_converts(fields[1], *own.value_field, "value"@, !fields[1].nullable)
        },
        ArrowTypeView::Dictionary { key: _, value } => type_converts(*value, converted),
        _ => false,
    }
}

/// Whether `converted` has the id of `field`, the type that its type stands for, and the given
/// name and necessity.
pub open spec fn part_converts(
    field: ArrowFieldView,
    converted: NestedField,
    name: Seq<char>,
    required: bool,
) -> bool
    decreases field,
{
    &&& field_id(field) == Some(converted.id)
    &&& converted.name@ == name
    &&& converted.required == required
    &&& type_converts(field.data_type, *converted.field_type)
}

/// Whether `converted` are the table fields that `fields` stand for.
pub open spec fn fields_convert(
    fields: Seq<ArrowFieldView>,
    converted: Seq<Arc<NestedField>>,
) -> bool
    decreases fields,
{
    &&& fields.len() == converted.len()
    &&& fields.len() > 0 ==> {
        &&& fields_convert(fields.drop_last(), converted.drop_last())
        &&& part_converts(
            fields.last(),
            *converted.last(),
            fields.last().name,
            !fields.last().nullable,
        )
    }
}

/// The entry under the field-id key of `field`.
fn id_text_of(field: &ArrowField) -> (text: Option<&String>)
    ensures
        id_text(field_view(*field)) == (match text {
            Some(text) => Some(text@),
            None => None,
        }),
{
    let key = field_id_meta_key();
    let mut i: usize = field.metadata.len();
    assert(field.metadata@.take(i as int) =~= field.metadata@);
    while i > 0
        invariant
            i <= field.metadata.len(),
            key@ == field_id_key(),
            ({
                let all = pairs_map(field.metadata@);
                let some = pairs_map(field.metadata@.take(i as int));
                &&& all.contains_key(key@) <==> some.contains_key(key@)
                &&& all.contains_key(key@) ==> all[key@] == some[key@]
            }),
        decreases i,
    {
        i = i - 1;
        assert(field.metadata@.take(i + 1).drop_last() =~= field.metadata@.take(i as int));
        assert(field.metadata@.take(i + 1).last() == field.metadata@[i as int]);
        if field.metadata[i].0 == key {
            return Some(&field.metadata[i].1);
        }
    }
    None
}

/// The id of a field that must have one.
fn required_id(field: &ArrowField) -> (id: Result<i32, Error>)
    ensures
        match id {
            Ok(id) => id_error(field_view(*field)) is None && field_id(field_view(*field)) == Some(
                id,
            ),
            Err(error) => id_error(field_view(*field)) matches Some(reason) && reports(
                error,
                reason,
            ),
        },
{
    match id_text_of(field) {
        None => Err(
            Error::new(ErrorKind::DataInvalid, "Field id not found in metadata".to_string()),
        ),
        Some(text) => match read_field_id(Some(text)) {
            Some(id) => Ok(id),
            None => Err(
                Error::new(ErrorKind::DataInvalid, "Failed to parse field id".to_string()),
            ),
        },
    }
}

/// The error for a type without a counterpart.
fn unsupported(text: &String) -> (error: Error)
    ensures
        reports(error, ConversionError::Unsupported(text@)),
{
    let mut message = String::new();
    message.append("Unsupported Arrow data type: ");
    message.append(text.as_str());
    assert(message@ =~= "Unsupported Arrow data type: "@ + text@);
    Error::new(ErrorKind::DataInvalid, message)
}

/// The table type of a plain Arrow type.
pub fn plain_to_primitive(plain: PlainType) -> (converted: Result<PrimitiveType, Error>)
    ensures
        match converted {
            Ok(primitive) => type_error(ArrowTypeView::Plain(plain)) is None && primitive
                == plain_target(plain),
            Err(error) => type_error(ArrowTypeView::Plain(plain)) matches Some(reason) && reports(
                error,
                reason,
            ),
        },
{
    Ok(
        match plain {
            PlainType::Boolean => PrimitiveType::Boolean,
            PlainType::Int8 => PrimitiveType::Int,
            PlainType::Int16 => PrimitiveType::Int,
            PlainType::Int32 => PrimitiveType::Int,
            PlainType::UInt8 => PrimitiveType::Int,
            PlainType::UInt16 => PrimitiveType::Int,
            PlainType::Int64 => PrimitiveType::Long,
            PlainType::UInt32 => PrimitiveType::Long,
            PlainType::Float32 => PrimitiveType::Float,
            PlainType::Float64 => PrimitiveType::Double,
            PlainType::Decimal128 { precision, scale } => {
                if precision > 38 {
                    let mut message = String::new();
                    message.append("Decimals with precision larger than 38 are not supported: ");
                    message.append(integer_text(precision as i128).as_str());
                    assert(message@
                        =~= "Decimals with precision larger than 38 are not supported: "@
                        + decimal_text(precision as int));
                    let source = Error::new(ErrorKind::DataInvalid, message);
                    return Err(
                        Error::new(
                            ErrorKind::DataInvalid,
                            "Failed to create decimal type".to_string(),
                        ).with_source(source),
                    );
                }
                PrimitiveType::Decimal { precision: precision as u32, scale: scale as u32 }
            },
            PlainType::Date32 => PrimitiveType::Date,
            PlainType::TimeMicros => PrimitiveType::Time,
            PlainType::Binary => PrimitiveType::Binary,
            PlainType::LargeBinary => PrimitiveType::Binary,
            PlainType::BinaryView => PrimitiveType::Binary,
            PlainType::FixedSizeBinary(width) => PrimitiveType::Fixed(width as u64),
            PlainType::Utf8 => PrimitiveType::String,
            PlainType::LargeUtf8 => PrimitiveType::String,
            PlainType::Utf8View => PrimitiveType::String,
        },
    )
}

/// Whether a zone is that of the table format.
fn zone_is_utc(zone: &String) -> (utc: bool)
    ensures
        utc == is_utc(zone@),
{
    *zone == "UTC".to_string() || *zone == "+00:00".to_string()
}

/// The view of fields is made of the views of the fields.
proof fn lemma_fields_view(fields: Seq<ArrowField>)
    ensures
        fields_view(fields).len() == fields.len(),
        forall|i: int|
            0 <= i < fields.len() ==> #[trigger] fields_view(fields)[i] == field_view(fields[i]),
    decreases fields.len(),
{
    if fields.len() > 0 {
        lemma_fields_view(fields.drop_last());
        assert forall|i: int| 0 <= i < fields.len() implies #[trigger] fields_view(fields)[i]
            == field_view(fields[i]) by {
            if i < fields.len() - 1 {
                assert(fields_view(fields.drop_last())[i] == field_view(fields.drop_last()[i]));
            }
        }
    }
}

/// A reason among the first fields is the first reason among all.
proof fn lemma_first_reasons(fields: Seq<ArrowFieldView>, i: int)
    requires
        0 <= i <= fields.len(),
    ensures
        types_error(fields.take(i)) is Some ==> types_error(fields) == types_error(fields.take(i)),
        ids_error(fields.take(i)) is Some ==> ids_error(fields) == ids_error(fields.take(i)),
    decreases fields.len(),
{
    if i == fields.len() {
        assert(fields.take(i) =~= fields);
    } else {
        lemma_first_reasons(fields.drop_last(), i);
        assert(fields.drop_last().take(i) =~= fields.take(i));
    }
}

/// Whether `types` are the table types of the first of `fields`.
spec fn types_convert(fields: Seq<ArrowFieldView>, types: Seq<Type>) -> bool {
    &&& types.len() <= fields.len()
    &&& forall|j: int|
        0 <= j < types.len() ==> type_converts(fields[j].data_type, #[trigger] types[j])
}

/// The table type of an Arrow type.
fn convert_type(t: &ArrowType) -> (converted: Result<Type, Error>)
    ensures
        match converted {
            Ok(own) => type_error(type_view(*t)) is None && type_converts(type_view(*t), own),
            Err(error) => type_error(type_view(*t)) matches Some(reason) && reports(error, reason),
        },
    decreases t,
{
    match t {
        ArrowType::Plain(plain) => match plain_to_primitive(*plain) {
            Ok(primitive) => Ok(Type::Primitive(primitive)),
            Err(error) => Err(error),
        },
        ArrowType::Timestamp { nanos, zone, text } => {
            let zoned = match zone {
                Some(zone) => {
                    if !zone_is_utc(zone) {
                        return Err(unsupported(text));
                    }
                    true
                },
                None => false,
            };
            Ok(
                Type::Primitive(
                    match (*nanos, zoned) {
                        (false, false) => PrimitiveType::Timestamp,
                        (false, true) => PrimitiveType::Timestamptz,
                        (true, false) => PrimitiveType::TimestampNs,
                        (true, true) => PrimitiveType::TimestamptzNs,
                    },
                ),
            )
        },
        ArrowType::List(_, element) => {
            assert(field_view(**element).data_type == type_view(element.data_type));
            let element_type = match convert_type(&element.data_type) {
                Ok(own) => own,
                Err(error) => {
                    return Err(error);
                },
            };
            let id = match required_id(element) {
                Ok(id) => id,
                Err(error) => {
                    return Err(error);
                },
            };
            let element_field = NestedField {
                id,
                name: "element".to_string(),
                required: !element.nullable,
                field_type: Box::new(element_type),
            };
            assert(part_converts(
                field_view(**element),
                element_field,
                "element"@,
                !element.nullable,
            ));
            Ok(Type::List(ListType { element_field: Arc::new(element_field) }))
        },
        ArrowType::Struct(fields) => match convert_fields(fields) {
            Ok(own) => Ok(Type::Struct(StructType { fields: own })),
            Err(error) => Err(error),
        },
        ArrowType::Entries(entry, _) => match &entry.data_type {
            ArrowType::Struct(fields) => {
                proof {
                    lemma_fields_view(fields@);
                    assert(field_view(**entry).data_type == type_view(entry.data_type));
                    assert(type_view(entry.data_type) == ArrowTypeView::Struct(
                        fields_view(fields@),
                    ));
                }
                if fields.len() != 2 {
                    return Err(
                        Error::new(
                            ErrorKind::DataInvalid,
                            "Map field must have exactly 2 fields".to_string(),
                        ),
                    );
                }
                convert_entry(fields)
            },
            _ => {
                assert(field_view(**entry).data_type == type_view(entry.data_type));
                assert(!(type_view(entry.data_type) is Struct));
                Err(
                    Error::new(
                        ErrorKind::DataInvalid,
                        "Map field must have struct type".to_string(),
                    ),
                )
            },
        },
        ArrowType::Dictionary { key: _, value } => convert_type(value),
        ArrowType::Union { dense: _, type_ids: _, fields: _, text } => Err(unsupported(text)),
        ArrowType::RunEndEncoded { run_ends: _, values: _, text } => Err(unsupported(text)),
        ArrowType::Other { text } => Err(unsupported(text)),
    }
}

/// The table type of a map whose entries are made of the given key and value.
fn convert_entry(entry: &Vec<ArrowField>) -> (converted: Result<Type, Error>)
    requires
        entry@.len() == 2,
    ensures
        ({
            let key = field_view(entry@[0]);
            let value = field_view(entry@[1]);
            let found = first_reason(
                first_reason(type_error(key.data_type), type_error(value.data_type)),
                first_reason(id_error(key), id_error(value)),
            );
            match converted {
                Ok(own) => {
                    &&& found is None
                    &&& own matches Type::Mapping(own)
                    &&& part_converts(key, *own.key_field, "key"@, true)
                    &&& part_converts(value, *own.value_field, "value"@, !value.nullable)
                },
                Err(error) => found matches Some(reason) && reports(error, reason),
            }
        }),
    decreases entry,
{
    let key = &entry[0];
    let value = &entry[1];
    assert(decreases_to!(entry => entry[0]));
    assert(decreases_to!(entry => entry[1]));
    let key_type = match convert_type(&key.data_type) {
        Ok(own) => own,
        Err(error) => {
            return Err(error);
        },
    };
    let value_type = match convert_type(&value.data_type) {
        Ok(own) => own,
        Err(error) => {
            return Err(error);
        },
    };
    let key_id = match required_id(key) {
        Ok(id) => id,
        Err(error) => {
            return Err(error);
        },
    };
    let value_id = match required_id(value) {
        Ok(id) => id,
        Err(error) => {
            return Err(error);
        },
    };
    let key_field = NestedField {
        id: key_id,
        name: "key".to_string(),
        required: true,
        field_type: Box::new(key_type),
    };
    let value_field = NestedField {
        id: value_id,
        name: "value".to_string(),
        required: !value.nullable,
        field_type: Box::new(value_type),
    };
    Ok(
        Type::Mapping(
            MapType { key_field: Arc::new(key_field), value_field: Arc::new(value_field) },
        ),
    )
}

/// The table fields of Arrow fields.
fn convert_fields(fields: &Vec<ArrowField>) -> (converted: Result<Vec<Arc<NestedField>>, Error>)
    ensures
        match converted {
            Ok(own) => conversion_error(fields_view(fields@)) is None && fields_convert(
                fields_view(fields@),
                own@,
            ),
            Err(error) => conversion_error(fields_view(fields@)) matches Some(reason) && reports(
                error,
                reason,
            ),
        },
    decreases fields,
{
    let ghost views = fields_view(fields@);
    proof {
        lemma_fields_view(fields@);
    }
    let mut types: Vec<Type> = Vec::new();
    let mut i: usize = 0;
    while i < fields.len()
        invariant
            i <= fields.len(),
            views == fields_view(fields@),
            views.len() == fields.len(),
            forall|j: int| 0 <= j < fields.len() ==> #[trigger] views[j] == field_view(fields@[j]),
            types.len() == i,
            types_error(views.take(i as int)) is None,
            types_convert(views, types@),
        decreases fields.len() - i,
    {
        proof {
            assert(views.take(i + 1).drop_last() =~= views.take(i as int));
            lemma_first_reasons(views, i + 1);
        }
        assert(decreases_to!(fields => fields[i as int]));
        match convert_type(&fields[i].data_type) {
            Ok(own) => {
                types.push(own);
            },
            Err(error) => {
                return Err(error);
            },
        }
        i = i + 1;
    }
    assert(views.take(i as int) =~= views);
    let mut converted: Vec<Arc<NestedField>> = Vec::new();
    let mut k: usize = 0;
    for field_type in iter: types
        invariant
            k == iter.index(),
            iter.seq().len() == fields.len(),
            views == fields_view(fields@),
            views.len() == fields.len(),
            forall|j: int| 0 <= j < fields.len() ==> #[trigger] views[j] == field_view(fields@[j]),
            types_error(views) is None,
            types_convert(views, iter.seq()),
            ids_error(views.take(k as int)) is None,
            fields_convert(views.take(k as int), converted@),
    {
        proof {
            assert(views.take(k + 1).drop_last() =~= views.take(k as int));
            lemma_first_reasons(views, k + 1);
        }
        let id = match required_id(&fields[k]) {
            Ok(id) => id,
            Err(error) => {
                return Err(error);
            },
        };
        let ghost before = converted@;
        converted.push(
            Arc::new(
                NestedField {
                    id,
                    name: fields[k].name.clone(),
                    required: !fields[k].nullable,
                    field_type: Box::new(field_type),
                },
            ),
        );
        assert(converted@.drop_last() =~= before);
        assert(type_converts(views[k as int].data_type, iter.seq()[k as int]));
        assert(part_converts(
            views[k as int],
            *converted@.last(),
            views[k as int].name,
            !views[k as int].nullable,
        ));
        k = k + 1;
    }
    assert(views.take(k as int) =~= views);
    Ok(converted)
}

/// The table schema that the fields of an Arrow schema stand for. Every field needs an id, at any
/// depth, and a type with a counterpart.
pub fn arrow_schema_to_schema(fields: &Vec<ArrowField>) -> (converted: Result<Schema, Error>)
    ensures
        match converted {
            Ok(schema) => conversion_error(fields_view(fields@)) is None && fields_convert(
                fields_view(fields@),
                schema.fields@,
            ),
            Err(error) => conversion_error(fields_view(fields@)) matches Some(reason) && reports(
                error,
                reason,
            ),
        },
{
    match convert_fields(fields) {
        Ok(own) => Ok(Schema { fields: own }),
        Err(error) => Err(error),
    }
}

/// A leaf of an Arrow field is found by its id in the table field that it stands for.
pub proof fn converted_field_has_its_leaves(
    field: ArrowFieldView,
    converted: &NestedField,
    leaf: ArrowFieldView,
    id: i32,
)
    requires
        field_id(field) == Some(converted.id),
        type_converts(field.data_type, *converted.field_type),
        leaf_fields(field).contains(leaf),
        field_id(leaf) == Some(id),
    ensures
        find_in_field(*converted, id) is Some,
    decreases field,
{
    // A dictionary stands for what its values stand for.
    if let ArrowTypeView::Dictionary { key: _, value } = field.data_type {
        assert(type_converts(*value, *converted.field_type));
    }
    match layout(field.data_type) {
        ArrowTypeView::List(_, element) => {
            if let Type::List(list) = *converted.field_type {
                assert(part_converts(
                    *element,
                    *list.element_field,
                    "element"@,
                    !element.nullable,
                ));
                converted_field_has_its_leaves(*element, &list.element_field, leaf, id);
            }
        },
        ArrowTypeView::Entries(entry, _) => {
            if let Type::Mapping(own) = *converted.field_type {
                if let ArrowTypeView::Struct(parts) = entry.data_type {
                    assert(leaf_fields(*entry) == leaf_fields_of_all(parts));
                    lemma_leaf_is_in_one(parts, leaf);
                    let k = choose|k: int|
                        0 <= k < parts.len() && leaf_fields(#[trigger] parts[k]).contains(leaf);
                    assert(part_converts(parts[0], *own.key_field, "key"@, true));
                    assert(part_converts(
                        parts[1],
                        *own.value_field,
                        "value"@,
                        !parts[1].nullable,
                    ));
                    if k == 0 {
                        converted_field_has_its_leaves(parts[0], &own.key_field, leaf, id);
                    } else {
                        converted_field_has_its_leaves(parts[1], &own.value_field, leaf, id);
                    }
                }
            }
        },
        ArrowTypeView::Struct(fields) => {
            if let Type::Struct(own) = *converted.field_type {
                converted_schema_has_its_leaves(fields, own.fields@, leaf, id);
            }
        },
        ArrowTypeView::Union { .. } => {},
        _ => {
            assert(leaf == field);
        },
    }
}

/// A leaf of all fields together is a leaf of one of them.
proof fn lemma_leaf_is_in_one(fields: Seq<ArrowFieldView>, leaf: ArrowFieldView)
    requires
        leaf_fields_of_all(fields).contains(leaf),
    ensures
        exists|k: int| 0 <= k < fields.len() && leaf_fields(#[trigger] fields[k]).contains(leaf),
    decreases fields.len(),
{
    let before = leaf_fields_of_all(fields.drop_last());
    let own = leaf_fields(fields.last());
    if own.contains(leaf) {
        assert(leaf_fields(fields[fields.len() - 1]).contains(leaf));
    } else {
        let i = choose|i: int| 0 <= i < (before + own).len() && (before + own)[i] == leaf;
        if i >= before.len() {
            assert(own[i - before.len()] == leaf);
        }
        assert(before[i] == leaf);
        lemma_leaf_is_in_one(fields.drop_last(), leaf);
        let k = choose|k: int|
            0 <= k < fields.len() - 1 && leaf_fields(#[trigger] fields.drop_last()[k]).contains(
                leaf,
            );
        assert(fields[k] == fields.drop_last()[k]);
    }
}

/// Every leaf of an Arrow schema is found by its id in the table schema that it stands for.
pub proof fn converted_schema_has_its_leaves(
    fields: Seq<ArrowFieldView>,
    converted: Seq<Arc<NestedField>>,
    leaf: ArrowFieldView,
    id: i32,
)
    requires
        fields_convert(fields, converted),
        leaf_fields_of_all(fields).contains(leaf),
        field_id(leaf) == Some(id),
    ensures
        find_in_all(converted, id) is Some,
    decreases fields,
{
    let before = leaf_fields_of_all(fields.drop_last());
    let own = leaf_fields(fields.last());
    if own.contains(leaf) {
        assert(part_converts(
            fields.last(),
            *converted.last(),
            fields.last().name,
            !fields.last().nullable,
        ));
        converted_field_has_its_leaves(fields.last(), &converted.last(), leaf, id);
    } else {
        let i = choose|i: int| 0 <= i < (before + own).len() && (before + own)[i] == leaf;
        if i >= before.len() {
            assert(own[i - before.len()] == leaf);
        }
        assert(before[i] == leaf);
        converted_schema_has_its_leaves(fields.drop_last(), converted.drop_last(), leaf, id);
    }
}

/// Whether two types read the same, and are the same where they are primitive.
pub open spec fn reads_alike(a: Type, b: Type) -> bool {
    &&& type_text(a) == type_text(b)
    &&& a is Primitive <==> b is Primitive
    &&& a is Primitive ==> a == b
}

/// Whether two searches both find a field, and fields of types that read alike, or both find none.
pub open spec fn found_alike(a: Option<NestedField>, b: Option<NestedField>) -> bool {
    &&& a is Some <==> b is Some
    &&& a is Some ==> reads_alike(*a->0.field_type, *b->0.field_type)
}

/// An Arrow type settles what the table field of that type looks like.
pub proof fn type_conversion_is_determined(
    t: ArrowTypeView,
    a: &NestedField,
    b: &NestedField,
    id: i32,
)
    requires
        a.id == b.id,
        type_converts(t, *a.field_type),
        type_converts(t, *b.field_type),
    ensures
        reads_alike(*a.field_type, *b.field_type),
        found_alike(find_in_field(*a, id), find_in_field(*b, id)),
    decreases t,
{
    match t {
        ArrowTypeView::List(_, element) => {
            if let (Type::List(own_a), Type::List(own_b)) = (*a.field_type, *b.field_type) {
                let required = !element.nullable;
                assert(part_converts(*element, *own_a.element_field, "element"@, required));
                assert(part_converts(*element, *own_b.element_field, "element"@, required));
                type_conversion_is_determined(
                    element.data_type,
                    &own_a.element_field,
                    &own_b.element_field,
                    id,
                );
            }
        },
        ArrowTypeView::Struct(fields) => {
            if let (Type::Struct(own_a), Type::Struct(own_b)) = (*a.field_type, *b.field_type) {
                schema_conversion_is_determined(fields, own_a.fields@, own_b.fields@, id);
            }
        },
        ArrowTypeView::Entries(entry, _) => {
            if let (Type::Mapping(own_a), Type::Mapping(own_b)) = (*a.field_type, *b.field_type) {
                if let ArrowTypeView::Struct(parts) = entry.data_type {
                    let required = !parts[1].nullable;
                    assert(part_converts(parts[0], *own_a.key_field, "key"@, true));
                    assert(part_converts(parts[0], *own_b.key_field, "key"@, true));
                    assert(part_converts(parts[1], *own_a.value_field, "value"@, required));
                    assert(part_converts(parts[1], *own_b.value_field, "value"@, required));
                    type_conversion_is_determined(
                        parts[0].data_type,
                        &own_a.key_field,
                        &own_b.key_field,
                        id,
                    );
                    type_conversion_is_determined(
                        parts[1].data_type,
                        &own_a.value_field,
                        &own_b.value_field,
                        id,
                    );
                }
            }
        },
        ArrowTypeView::Dictionary { key: _, value } => {
            type_conversion_is_determined(*value, a, b, id);
        },
        _ => {},
    }
}

/// An Arrow schema settles what the fields of its table schema look like.
pub proof fn schema_conversion_is_determined(
    fields: Seq<ArrowFieldView>,
    a: Seq<Arc<NestedField>>,
    b: Seq<Arc<NestedField>>,
    id: i32,
)
    requires
        fields_convert(fields, a),
        fields_convert(fields, b),
    ensures
        found_alike(find_in_all(a, id), find_in_all(b, id)),
        field_types_text(a) == field_types_text(b),
    decreases fields,
{
    if fields.len() > 0 {
        let last = fields.last();
        assert(part_converts(last, *a.last(), last.name, !last.nullable));
        assert(part_converts(last, *b.last(), last.name, !last.nullable));
        type_conversion_is_determined(last.data_type, &a.last(), &b.last(), id);
        schema_conversion_is_determined(fields.drop_last(), a.drop_last(), b.drop_last(), id);
    }
}

} // verus!
