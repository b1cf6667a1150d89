//! The types that the leaves of a file have.

use crate::arrow_convert::{
    conversion_error, fields_convert, id_error, ids_error, part_converts, plain_target, reports,
    type_converts, type_error, types_error, ConversionError,
};
use crate::arrow_tree::{
    field_id, id_text, is_leaf, layout, leaf_fields, leaf_fields_of_all, ArrowFieldView,
    ArrowTypeView, PlainType,
};
use crate::error::Error;
use crate::laws::naming::{carried_around, carried_around_all, lemma_found_within};
use crate::schema::{find_in_all, find_in_field, NestedField, PrimitiveType, Type};
use crate::text::decimal_text;
use std::sync::Arc;
use vstd::prelude::*;

verus! {

/// The least and the greatest number of an integer type.
pub open spec fn number_range(plain: PlainType) -> Option<(int, int)> {
    match plain {
        PlainType::Int8 => Some((i8::MIN as int, i8::MAX as int)),
        PlainType::Int16 => Some((i16::MIN as int, i16::MAX as int)),
        PlainType::Int32 => Some((i32::MIN as int, i32::MAX as int)),
        PlainType::Int64 => Some((i64::MIN as int, i64::MAX as int)),
        PlainType::UInt8 => Some((0, u8::MAX as int)),
        PlainType::UInt16 => Some((0, u16::MAX as int)),
        PlainType::UInt32 => Some((0, u32::MAX as int)),
        _ => None,
    }
}

/// What the plain Arrow types stand for: an integer type for the narrower of `int` and `long` that
/// has room for it, and every other type for the one table type of its kind, with the same
/// measures.
pub proof fn plain_types_keep_their_kind(plain: PlainType)
    ensures
        number_range(plain) matches Some((least, greatest)) ==> plain_target(plain) == (
        if i32::MIN <= least && greatest <= i32::MAX {
            PrimitiveType::Int
        } else {
            PrimitiveType::Long
        }),
        number_range(plain) is None ==> !(plain_target(plain) is Int) && !(plain_target(plain)
            is Long),
        plain is Boolean <==> plain_target(plain) is Boolean,
        plain is Float32 <==> plain_target(plain) is Float,
        plain is Float64 <==> plain_target(plain) is Double,
        plain is Date32 <==> plain_target(plain) is Date,
        plain is TimeMicros <==> plain_target(plain) is Time,
        plain is Utf8 || plain is LargeUtf8 || plain is Utf8View <==> plain_target(plain) is String,
        plain is Binary || plain is LargeBinary || plain is BinaryView <==> plain_target(plain)
            is Binary,
        plain matches PlainType::FixedSizeBinary(width) ==> 0 <= width ==> plain_target(plain)
            == PrimitiveType::Fixed(width as u64),
        plain matches PlainType::Decimal128 { precision, scale } ==> 0 <= scale ==> plain_target(
            plain,
        ) == (PrimitiveType::Decimal { precision: precision as u32, scale: scale as u32 }),
        type_error(ArrowTypeView::Plain(plain)) is Some <==> (plain matches PlainType::Decimal128 {
            precision,
            scale,
        } && precision > 38),
{
}

/// What a leaf of an Arrow schema stands for is of the kind of its own type, and keeps the unit of
/// a timestamp and whether it has a zone. The values of a dictionary stand for themselves.
pub proof fn leaves_keep_their_kind(t: ArrowTypeView, converted: Type)
    requires
        type_converts(t, converted),
    ensures
        t matches ArrowTypeView::Plain(plain) ==> converted == Type::Primitive(plain_target(plain)),
        t matches ArrowTypeView::Timestamp { nanos, zone, text } ==> {
            &&& converted matches Type::Primitive(primitive)
            &&& primitive is Timestamp <==> !nanos && zone is None
            &&& primitive is Timestamptz <==> !nanos && zone is Some
            &&& primitive is TimestampNs <==> nanos && zone is None
            &&& primitive is TimestamptzNs <==> nanos && zone is Some
        },
        t matches ArrowTypeView::Dictionary { key, value } ==> type_converts(*value, converted),
        !(t is Other) && !(t is Union) && !(t is RunEndEncoded),
{
}

/// Whether one of `leaves` carries the id `id` and has a type that stands for that of `found`.
pub open spec fn is_of_a_leaf(leaves: Seq<ArrowFieldView>, id: i32, found: NestedField) -> bool {
    exists|k: int|
        {
            &&& 0 <= k < leaves.len()
            &&& field_id(#[trigger] leaves[k]) == Some(id)
            &&& type_converts(leaves[k].data_type, *found.field_type)
        }
}

proof fn lemma_leaf_in_sum(
    first: Seq<ArrowFieldView>,
    second: Seq<ArrowFieldView>,
    id: i32,
    found: &NestedField,
)
    ensures
        is_of_a_leaf(first, id, *found) || is_of_a_leaf(second, id, *found) ==> is_of_a_leaf(
            first + second,
            id,
            *found,
        ),
{
    if is_of_a_leaf(first, id, *found) {
        let k = choose|k: int|
            {
                &&& 0 <= k < first.len()
                &&& field_id(#[trigger] first[k]) == Some(id)
                &&& type_converts(first[k].data_type, *found.field_type)
            };
        assert((first + second)[k] == first[k]);
    }
    if is_of_a_leaf(second, id, *found) {
        let k = choose|k: int|
            {
                &&& 0 <= k < second.len()
                &&& field_id(#[trigger] second[k]) == Some(id)
                &&& type_converts(second[k].data_type, *found.field_type)
            };
        assert((first + second)[first.len() + k] == second[k]);
    }
}

proof fn lemma_type_found_in_field(
    field: ArrowFieldView,
    converted: &NestedField,
    id: i32,
    found: &NestedField,
)
    requires
        field_id(field) == Some(converted.id),
        type_converts(field.data_type, *converted.field_type),
    ensures
        find_in_field(*converted, id) == Some(*found) ==> is_of_a_leaf(
            leaf_fields(field),
            id,
            *found,
        ) || carried_around(field, id),
    decreases field,
{
    if is_leaf(field) {
        lemma_found_within(field.data_type, converted, id);
        assert(leaf_fields(field) =~= seq![field]);
        assert(leaf_fields(field)[0] == field);
    } else {
        // A dictionary stands for what its values stand for.
        if let ArrowTypeView::Dictionary { key: _, value } = field.data_type {
            assert(type_converts(*value, *converted.field_type));
        }
        match layout(field.data_type) {
            ArrowTypeView::List(_, element) => {
                if let Type::List(list) = *converted.field_type {
                    assert(part_converts(
                        *element,
                        *list.element_field,
                        "element"@,
                        !element.nullable,
                    ));
                    lemma_type_found_in_field(*element, &list.element_field, id, found);
                }
            },
            ArrowTypeView::Struct(fields) => {
                if let Type::Struct(own) = *converted.field_type {
                    lemma_type_found_in_fields(fields, own.fields@, id, found);
                }
            },
            ArrowTypeView::Entries(entry, _) => {
                if let Type::Mapping(own) = *converted.field_type {
                    if let ArrowTypeView::Struct(parts) = entry.data_type {
                        assert(part_converts(parts[0], *own.key_field, "key"@, true));
                        assert(part_converts(
                            parts[1],
                            *own.value_field,
                            "value"@,
                            !parts[1].nullable,
                        ));
                        lemma_type_found_in_field(parts[0], &own.key_field, id, found);
                        lemma_type_found_in_field(parts[1], &own.value_field, id, found);
                        let key = parts.drop_last();
                        assert(parts.last() == parts[1]);
                        assert(key.last() == parts[0]);
                        assert(leaf_fields_of_all(key.drop_last()) =~= seq![]);
                        assert(leaf_fields_of_all(key) =~= leaf_fields(parts[0]));
                        assert(leaf_fields_of_all(parts) == leaf_fields_of_all(key) + leaf_fields(
                            parts[1],
                        ));
                        lemma_leaf_in_sum(
                            leaf_fields_of_all(key),
                            leaf_fields(parts[1]),
                            id,
                            found,
                        );
                        assert(leaf_fields(*entry) == leaf_fields_of_all(parts));
                        assert(carried_around(parts[0], id) ==> carried_around_all(key, id));
                        assert(carried_around_all(key, id) || carried_around(parts[1], id)
                            ==> carried_around_all(parts, id));
                        assert(carried_around_all(parts, id) ==> carried_around(field, id));
                        assert(leaf_fields(field) == leaf_fields_of_all(parts));
                    }
                }
            },
            _ => {},
        }
    }
}

proof fn lemma_type_found_in_fields(
    fields: Seq<ArrowFieldView>,
    converted: Seq<Arc<NestedField>>,
    id: i32,
    found: &NestedField,
)
    requires
        fields_convert(fields, converted),
    ensures
        find_in_all(converted, id) == Some(*found) ==> is_of_a_leaf(
            leaf_fields_of_all(fields),
            id,
            *found,
        ) || carried_around_all(fields, id),
    decreases fields,
{
    if fields.len() > 0 {
        let last = fields.last();
        assert(part_converts(last, *converted.last(), last.name, !last.nullable));
        lemma_type_found_in_field(last, &converted.last(), id, found);
        lemma_type_found_in_fields(fields.drop_last(), converted.drop_last(), id, found);
        lemma_leaf_in_sum(leaf_fields_of_all(fields.drop_last()), leaf_fields(last), id, found);
    }
}

/// The type under which a leaf is checked is that of a leaf that carries its id, unless a field
/// around leaves carries that id too.
pub proof fn checked_types_are_those_of_leaves(
    fields: Seq<ArrowFieldView>,
    converted: Seq<Arc<NestedField>>,
    id: i32,
    found: &NestedField,
)
    requires
        fields_convert(fields, converted),
        find_in_all(converted, id) == Some(*found),
        !carried_around_all(fields, id),
    ensures
        exists|k: int|
            {
                &&& 0 <= k < leaf_fields_of_all(fields).len()
                &&& field_id(#[trigger] leaf_fields_of_all(fields)[k]) == Some(id)
                &&& type_converts(leaf_fields_of_all(fields)[k].data_type, *found.field_type)
            },
{
    lemma_type_found_in_fields(fields, converted, id, found);
}

/// Whether a field can be converted: its type can, and it carries an id.
pub open spec fn converts(field: ArrowFieldView) -> bool {
    type_error(field.data_type) is None && field_id(field) is Some
}

/// A type can be converted exactly where everything in it can; what it is made of by itself decides
/// for the types that hold no fields.
pub proof fn types_convert_with_their_parts(t: ArrowTypeView)
    ensures
        t matches ArrowTypeView::Timestamp { nanos, zone, text } ==> (type_error(t) is None <==> (
        zone is None || zone == Some("UTC"@) || zone == Some("+00:00"@))),
        t matches ArrowTypeView::List(_, element) ==> (type_error(t) is None <==> converts(
            *element,
        )),
        t matches ArrowTypeView::Struct(fields) ==> (type_error(t) is None <==> forall|i: int|
            0 <= i < fields.len() ==> converts(#[trigger] fields[i])),
        t matches ArrowTypeView::Entries(entry, _) ==> (type_error(t) is None <==> {
            &&& entry.data_type matches ArrowTypeView::Struct(fields)
            &&& fields.len() == 2
            &&& converts(fields[0])
            &&& converts(fields[1])
        }),
        t matches ArrowTypeView::Dictionary { key, value } ==> (type_error(t) is None
            <==> type_error(*value) is None),
        t is Union || t is RunEndEncoded || t is Other ==> type_error(t) is Some,
{
    if let ArrowTypeView::Struct(fields) = t {
        schemas_convert_with_their_fields(fields);
        assert(type_error(t) is None <==> conversion_error(fields) is None);
    }
}

/// A schema can be converted exactly where each of its fields can. Where one cannot, the first type
/// that cannot be converted is the reason, and where all can, the first field without an id.
pub proof fn schemas_convert_with_their_fields(fields: Seq<ArrowFieldView>)
    ensures
        conversion_error(fields) is None <==> forall|i: int|
            0 <= i < fields.len() ==> converts(#[trigger] fields[i]),
        forall|i: int|
            0 <= i < fields.len() && type_error(#[trigger] fields[i].data_type) is Some && (forall|
                earlier: int,
            |
                0 <= earlier < i ==> type_error(#[trigger] fields[earlier].data_type) is None)
                ==> conversion_error(fields) == type_error(fields[i].data_type),
        (forall|i: int|
            0 <= i < fields.len() ==> type_error(#[trigger] fields[i].data_type) is None)
            ==> forall|i: int|
            0 <= i < fields.len() && #[trigger] field_id(fields[i]) is None && (forall|
                earlier: int,
            |
                0 <= earlier < i ==> #[trigger] field_id(fields[earlier]) is Some)
                ==> conversion_error(fields) == Some(
                if id_text(fields[i]) is None {
                    ConversionError::MissingId
                } else {
                    ConversionError::InvalidId
                },
            ),
{
    lemma_first_type(fields);
    lemma_first_id(fields);
    if forall|i: int| 0 <= i < fields.len() ==> converts(#[trigger] fields[i]) {
        assert forall|i: int| 0 <= i < fields.len() implies type_error(
            #[trigger] fields[i].data_type,
        ) is None by {
            assert(converts(fields[i]));
        }
        assert forall|i: int| 0 <= i < fields.len() implies #[trigger] field_id(fields[i])
            is Some by {
            assert(converts(fields[i]));
        }
    }
    if conversion_error(fields) is None {
        assert forall|i: int| 0 <= i < fields.len() implies converts(#[trigger] fields[i]) by {
            assert(type_error(fields[i].data_type) is None);
            assert(field_id(fields[i]) is Some);
        }
    }
}

proof fn lemma_first_type(fields: Seq<ArrowFieldView>)
    ensures
        types_error(fields) is None <==> forall|i: int|
            0 <= i < fields.len() ==> type_error(#[trigger] fields[i].data_type) is None,
        forall|i: int|
            0 <= i < fields.len() && type_error(#[trigger] fields[i].data_type) is Some && (forall|
                earlier: int,
            |
                0 <= earlier < i ==> type_error(#[trigger] fields[earlier].data_type) is None)
                ==> types_error(fields) == type_error(fields[i].data_type),
    decreases fields.len(),
{
    if fields.len() > 0 {
        let shorter = fields.drop_last();
        lemma_first_type(shorter);
        assert forall|i: int| 0 <= i < shorter.len() implies #[trigger] shorter[i]
            == fields[i] by {}
        assert(fields[fields.len() - 1] == fields.last());
        assert forall|i: int| 0 <= i < shorter.len() implies type_error(
            #[trigger] fields[i].data_type,
        ) == type_error(shorter[i].data_type) by {}
        if types_error(fields) is None {
            assert forall|i: int| 0 <= i < fields.len() implies type_error(
                #[trigger] fields[i].data_type,
            ) is None by {
                if i < shorter.len() {
                    assert(type_error(shorter[i].data_type) is None);
                }
            }
        }
        if forall|i: int|
            0 <= i < fields.len() ==> type_error(#[trigger] fields[i].data_type) is None {
            assert forall|i: int| 0 <= i < shorter.len() implies type_error(
                #[trigger] shorter[i].data_type,
            ) is None by {
                assert(type_error(fields[i].data_type) is None);
            }
            assert(type_error(fields[fields.len() - 1].data_type) is None);
        }
        assert forall|i: int|
            0 <= i < fields.len() && type_error(#[trigger] fields[i].data_type) is Some && (forall|
                earlier: int,
            |
                0 <= earlier < i ==> type_error(
                    #[trigger] fields[earlier].data_type,
                ) is None) implies types_error(fields) == type_error(fields[i].data_type) by {
            assert forall|earlier: int| 0 <= earlier < i implies type_error(
                #[trigger] shorter[earlier].data_type,
            ) is None by {
                assert(type_error(fields[earlier].data_type) is None);
            }
            if i < shorter.len() {
                assert(type_error(shorter[i].data_type) is Some);
            }
        }
    }
}

proof fn lemma_first_id(fields: Seq<ArrowFieldView>)
    ensures
        ids_error(fields) is None <==> forall|i: int|
            0 <= i < fields.len() ==> #[trigger] field_id(fields[i]) is Some,
        forall|i: int|
            0 <= i < fields.len() && #[trigger] field_id(fields[i]) is None && (forall|
                earlier: int,
            |
                0 <= earlier < i ==> #[trigger] field_id(fields[earlier]) is Some) ==> ids_error(
                fields,
            ) == id_error(fields[i]),
    decreases fields.len(),
{
    if fields.len() > 0 {
        let shorter = fields.drop_last();
        lemma_first_id(shorter);
        assert forall|i: int| 0 <= i < shorter.len() implies #[trigger] field_id(shorter[i])
            == field_id(fields[i]) by {}
        assert(fields[fields.len() - 1] == fields.last());
        if ids_error(fields) is None {
            assert forall|i: int| 0 <= i < fields.len() implies #[trigger] field_id(fields[i])
                is Some by {
                if i < shorter.len() {
                    assert(field_id(shorter[i]) is Some);
                }
            }
        }
        if forall|i: int| 0 <= i < fields.len() ==> #[trigger] field_id(fields[i]) is Some {
            assert forall|i: int| 0 <= i < shorter.len() implies #[trigger] field_id(shorter[i])
                is Some by {
                assert(field_id(fields[i]) is Some);
            }
            assert(field_id(fields[fields.len() - 1]) is Some);
        }
        assert forall|i: int|
            0 <= i < fields.len() && #[trigger] field_id(fields[i]) is None && (forall|
                earlier: int,
            |
                0 <= earlier < i ==> #[trigger] field_id(
                    fields[earlier],
                ) is Some) implies ids_error(fields) == id_error(fields[i]) by {
            assert forall|earlier: int| 0 <= earlier < i implies #[trigger] field_id(
                shorter[earlier],
            ) is Some by {
                assert(field_id(fields[earlier]) is Some);
            }
            if i < shorter.len() {
                assert(field_id(shorter[i]) is None);
            }
        }
    }
}

/// A type that cannot be converted is reported with how it reads, and a decimal with the number of
/// its digits; the data is said to be invalid whatever the reason.
pub proof fn reasons_are_reported(error: Error, reason: ConversionError)
    requires
        reports(error, reason),
    ensures
        error.kind is DataInvalid,
        reason matches ConversionError::Unsupported(text) ==> error.message@
            == "Unsupported Arrow data type: "@ + text,
        reason matches ConversionError::DecimalPrecision(digits) ==> {
            &&& error.source matches Some(source)
            &&& source.message@ == "Decimals with precision larger than 38 are not supported: "@
                + decimal_text(digits)
        },
        error.source is Some <==> reason is DecimalPrecision,
{
}

/// A converted schema has the columns of the Arrow schema, in order, under their names and ids, and
/// a column is required exactly where it cannot be null.
pub proof fn columns_keep_their_names(
    fields: Seq<ArrowFieldView>,
    converted: Seq<Arc<NestedField>>,
    position: int,
)
    requires
        fields_convert(fields, converted),
        0 <= position < fields.len(),
    ensures
        fields.len() == converted.len(),
        field_id(fields[position]) == Some(converted[position].id),
        converted[position].name@ == fields[position].name,
        converted[position].required <==> !fields[position].nullable,
        type_converts(fields[position].data_type, *converted[position].field_type),
    decreases fields.len(),
{
    if position < fields.len() - 1 {
        columns_keep_their_names(fields.drop_last(), converted.drop_last(), position);
        assert(fields.drop_last()[position] == fields[position]);
        assert(converted.drop_last()[position] == converted[position]);
    } else {
        let last = fields.last();
        assert(part_converts(last, *converted.last(), last.name, !last.nullable));
        assert(converted[position] == converted.last());
    }
}

/// A converted list, map or struct is made of what its parts stand for. A key is always required;
/// an element and a value are where they cannot be null.
pub proof fn parts_keep_their_ids(t: ArrowTypeView, converted: Type)
    requires
        type_converts(t, converted),
    ensures
        t matches ArrowTypeView::List(_, element) ==> {
            &&& converted matches Type::List(list)
            &&& field_id(*element) == Some(list.element_field.id)
            &&& list.element_field.name@ == "element"@
            &&& list.element_field.required <==> !element.nullable
            &&& type_converts(element.data_type, *list.element_field.field_type)
        },
        t matches ArrowTypeView::Struct(fields) ==> {
            &&& converted matches Type::Struct(own)
            &&& fields_convert(fields, own.fields@)
        },
        t matches ArrowTypeView::Entries(entry, _) ==> {
            &&& converted matches Type::Mapping(own)
            &&& entry.data_type matches ArrowTypeView::Struct(fields)
            &&& field_id(fields[0]) == Some(own.key_field.id)
            &&& own.key_field.name@ == "key"@
            &&& own.key_field.required
            &&& type_converts(fields[0].data_type, *own.key_field.field_type)
            &&& field_id(fields[1]) == Some(own.value_field.id)
            &&& own.value_field.name@ == "value"@
            &&& own.value_field.required <==> !fields[1].nullable
            &&& type_converts(fields[1].data_type, *own.value_field.field_type)
        },
{
    match t {
        ArrowTypeView::List(_, element) => {
            if let Type::List(list) = converted {
                assert(part_converts(
                    *element,
                    *list.element_field,
                    "element"@,
                    !element.nullable,
                ));
            }
        },
        ArrowTypeView::Entries(entry, _) => {
            if let Type::Mapping(own) = converted {
                if let ArrowTypeView::Struct(fields) = entry.data_type {
                    assert(part_converts(fields[0], *own.key_field, "key"@, true));
                    assert(part_converts(
                        fields[1],
                        *own.value_field,
                        "value"@,
                        !fields[1].nullable,
                    ));
                }
            }
        },
        _ => {},
    }
}

} // verus!
