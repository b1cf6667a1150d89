//! Arrow schemas as trees of fields.

use crate::text::{parse_i32, parsed_i32};
use std::collections::HashSet;
use vstd::prelude::*;

verus! {

/// An Arrow type that its name and a few numbers describe.
#[derive(Debug, Clone, Copy, PartialEq, Eq, Structural)]
pub enum PlainType {
    Boolean,
    Int8,
    Int16,
    Int32,
    Int64,
    UInt8,
    UInt16,
    UInt32,
    Float32,
    Float64,
    Decimal128 { precision: u8, scale: i8 },
    Date32,
    /// The time of day in microseconds.
    TimeMicros,
    Binary,
    LargeBinary,
    BinaryView,
    FixedSizeBinary(i32),
    Utf8,
    LargeUtf8,
    Utf8View,
}

/// How a list stores its lengths.
#[derive(Debug, Clone, Copy, PartialEq, Eq, Structural)]
pub enum ListKind {
    Regular,
    Large,
    FixedSize(i32),
}

/// An Arrow type. `text` is how the type reads.
#[derive(Debug)]
pub enum ArrowType {
    Plain(PlainType),
    /// A point in time, in nanoseconds or in microseconds.
    Timestamp { nanos: bool, zone: Option<String>, text: String },
    List(ListKind, Box<ArrowField>),
    Struct(Vec<ArrowField>),
    /// A map: a field whose type is a struct of key and value, and whether the keys are sorted.
    Entries(Box<ArrowField>, bool),
    /// A value of one of several fields, each with a type id. The fields lie side by side or, where
    /// the union is dense, one behind another.
    Union { dense: bool, type_ids: Vec<i8>, fields: Vec<ArrowField>, text: String },
    Dictionary { key: Box<ArrowType>, value: Box<ArrowType> },
    RunEndEncoded { run_ends: Box<ArrowField>, values: Box<ArrowField>, text: String },
    /// Any other type.
    Other { text: String },
}

/// A field of an Arrow schema. Of metadata entries with the same key the last one counts.
#[derive(Debug)]
pub struct ArrowField {
    pub name: String,
    pub data_type: ArrowType,
    pub nullable: bool,
    pub metadata: Vec<(String, String)>,
}

/// What an [`ArrowType`] says.
pub enum ArrowTypeView {
    Plain(PlainType),
    Timestamp { nanos: bool, zone: Option<Seq<char>>, text: Seq<char> },
    List(ListKind, Box<ArrowFieldView>),
    Struct(Seq<ArrowFieldView>),
    Entries(Box<ArrowFieldView>, bool),
    Union { dense: bool, type_ids: Seq<i8>, fields: Seq<ArrowFieldView>, text: Seq<char> },
    Dictionary { key: Box<ArrowTypeView>, value: Box<ArrowTypeView> },
    RunEndEncoded { run_ends: Box<ArrowFieldView>, values: Box<ArrowFieldView>, text: Seq<char> },
    Other { text: Seq<char> },
}

/// What an [`ArrowField`] says.
pub struct ArrowFieldView {
    pub name: Seq<char>,
    pub data_type: ArrowTypeView,
    pub nullable: bool,
    pub metadata: Map<Seq<char>, Seq<char>>,
}

/// What makes up a union or a run-end encoded type.
pub enum NestedParts {
    Union { dense: bool, type_ids: Seq<i8>, fields: Seq<ArrowFieldView> },
    RunEndEncoded { run_ends: ArrowFieldView, values: ArrowFieldView },
}

/// How a union or a run-end encoded type reads: `DataType::to_string` on a type of these parts.
pub uninterp spec fn nested_type_text(parts: NestedParts) -> Seq<char>;

/// The view of a string that may be missing.
pub open spec fn optional_text(s: Option<String>) -> Option<Seq<char>> {
    match s {
        Some(s) => Some(s@),
        None => None,
    }
}

/// The map that the pairs write, later ones over earlier ones.
pub open spec fn pairs_map(pairs: Seq<(String, String)>) -> Map<Seq<char>, Seq<char>>
    decreases pairs.len(),
{
    if pairs.len() == 0 {
        Map::empty()
    } else {
        pairs_map(pairs.drop_last()).insert(pairs.last().0@, pairs.last().1@)
    }
}

pub open spec fn type_view(t: ArrowType) -> ArrowTypeView
    decreases t,
{
    match t {
        ArrowType::Plain(plain) => ArrowTypeView::Plain(plain),
        ArrowType::Timestamp { nanos, zone, text } => ArrowTypeView::Timestamp {
            nanos,
            zone: optional_text(zone),
            text: text@,
        },
        ArrowType::List(kind, element) => ArrowTypeView::List(
            kind,
            Box::new(field_view(*element)),
        ),
        ArrowType::Struct(fields) => ArrowTypeView::Struct(fields_view(fields@)),
        ArrowType::Entries(entry, sorted) => ArrowTypeView::Entries(
            Box::new(field_view(*entry)),
            sorted,
        ),
        ArrowType::Union { dense, type_ids, fields, text } => ArrowTypeView::Union {
            dense,
            type_ids: type_ids@,
            fields: fields_view(fields@),
            text: text@,
        },
        ArrowType::Dictionary { key, value } => ArrowTypeView::Dictionary {
            key: Box::new(type_view(*key)),
            value: Box::new(type_view(*value)),
        },
        ArrowType::RunEndEncoded { run_ends, values, text } => ArrowTypeView::RunEndEncoded {
            run_ends: Box::new(field_view(*run_ends)),
            values: Box::new(field_view(*values)),
            text: text@,
        },
        ArrowType::Other { text } => ArrowTypeView::Other { text: text@ },
    }
}

pub open spec fn field_view(field: ArrowField) -> ArrowFieldView
    decreases field,
{
    ArrowFieldView {
        name: field.name@,
        data_type: type_view(field.data_type),
        nullable: field.nullable,
        metadata: pairs_map(field.metadata@),
    }
}

pub open spec fn fields_view(fields: Seq<ArrowField>) -> Seq<ArrowFieldView>
    decreases fields,
{
    if fields.len() == 0 {
        seq![]
    } else {
        fields_view(fields.drop_last()).push(field_view(fields.last()))
    }
}

/// The metadata key under which a field carries its id.
pub open spec fn field_id_key() -> Seq<char> {
    "PARQUET:field_id"@
}

/// The text under the field-id key.
pub open spec fn id_text(field: ArrowFieldView) -> Option<Seq<char>> {
    if field.metadata.contains_key(field_id_key()) {
        Some(field.metadata[field_id_key()])
    } else {
        None
    }
}

/// The id that a text gives, where there is a text and it is one.
pub open spec fn id_of_text(text: Option<Seq<char>>) -> Option<i32> {
    match text {
        Some(text) => parsed_i32(text),
        None => None,
    }
}

/// The id that a field carries. A text that is no number gives none.
pub open spec fn field_id(field: ArrowFieldView) -> Option<i32> {
    id_of_text(id_text(field))
}

/// The type that says which children a type has: a dictionary has those of its values, and so
/// has a run-end encoded type.
pub open spec fn layout(t: ArrowTypeView) -> ArrowTypeView {
    match t {
        ArrowTypeView::Dictionary { key: _, value } => *value,
        ArrowTypeView::RunEndEncoded { run_ends: _, values, text: _ } => values.data_type,
        _ => t,
    }
}

/// Whether a field has no children.
pub open spec fn is_leaf(field: ArrowFieldView) -> bool {
    match layout(field.data_type) {
        ArrowTypeView::List(..) | ArrowTypeView::Entries(..) | ArrowTypeView::Struct(..)
        | ArrowTypeView::Union { .. } => false,
        _ => true,
    }
}

/// The leaves of `field`, depth first. A leaf is a field without children.
pub open spec fn leaf_fields(field: ArrowFieldView) -> Seq<ArrowFieldView>
    decreases field,
{
    match layout(field.data_type) {
        ArrowTypeView::List(_, element) => leaf_fields(*element),
        ArrowTypeView::Entries(entry, _) => leaf_fields(*entry),
        ArrowTypeView::Struct(fields) => leaf_fields_of_all(fields),
        ArrowTypeView::Union { dense: _, type_ids: _, fields, text: _ } => leaf_fields_of_all(
            fields,
        ),
        _ => seq![field],
    }
}

/// The leaves of each of `fields`, in order.
pub open spec fn leaf_fields_of_all(fields: Seq<ArrowFieldView>) -> Seq<ArrowFieldView>
    decreases fields,
{
    if fields.len() == 0 {
        seq![]
    } else {
        leaf_fields_of_all(fields.drop_last()) + leaf_fields(fields.last())
    }
}

/// Whether a leaf carries one of `ids`.
pub open spec fn wanted_by(leaf: ArrowFieldView, ids: Set<i32>) -> bool {
    field_id(leaf) is Some && ids.contains(field_id(leaf)->0)
}

/// `field` with the leaves that carry one of `ids` alone; nothing where none does.
pub open spec fn pruned(field: ArrowFieldView, ids: Set<i32>) -> Option<ArrowFieldView>
    decreases field, 1nat,
{
    match layout(field.data_type) {
        ArrowTypeView::List(..) | ArrowTypeView::Entries(..) | ArrowTypeView::Struct(..)
        | ArrowTypeView::Union { .. } => match pruned_layout(field, ids) {
            Some(kept) => Some(
                ArrowFieldView { data_type: with_layout(field.data_type, kept), ..field },
            ),
            None => None,
        },
        _ => if wanted_by(field, ids) {
            Some(field)
        } else {
            None
        },
    }
}

/// The type `t` with the layout `kept`.
pub open spec fn with_layout(t: ArrowTypeView, kept: ArrowTypeView) -> ArrowTypeView {
    match t {
        ArrowTypeView::Dictionary { key, value: _ } => ArrowTypeView::Dictionary {
            key,
            value: Box::new(kept),
        },
        ArrowTypeView::RunEndEncoded { run_ends, values, text: _ } => {
            let values = ArrowFieldView { data_type: kept, ..*values };
            ArrowTypeView::RunEndEncoded {
                run_ends,
                values: Box::new(values),
                text: nested_type_text(NestedParts::RunEndEncoded { run_ends: *run_ends, values }),
            }
        },
        _ => kept,
    }
}

/// The layout of `field` with the wanted leaves alone; nothing where none is left.
pub open spec fn pruned_layout(field: ArrowFieldView, ids: Set<i32>) -> Option<ArrowTypeView>
    decreases field, 0nat,
{
    match layout(field.data_type) {
        ArrowTypeView::List(kind, element) => match pruned(*element, ids) {
            Some(kept) => Some(ArrowTypeView::List(kind, Box::new(kept))),
            None => None,
        },
        ArrowTypeView::Entries(entry, sorted) => match pruned(*entry, ids) {
            Some(kept) => Some(ArrowTypeView::Entries(Box::new(kept), sorted)),
            None => None,
        },
        ArrowTypeView::Struct(fields) => if pruned_all(fields, ids).len() == 0 {
            None
        } else {
            Some(ArrowTypeView::Struct(pruned_all(fields, ids)))
        },
        ArrowTypeView::Union { dense, type_ids, fields, text: _ } => {
            let type_ids = pruned_type_ids(type_ids, fields, ids);
            let fields = pruned_all(fields, ids);
            if fields.len() == 0 {
                None
            } else {
                Some(
                    ArrowTypeView::Union {
                        dense,
                        type_ids,
                        fields,
                        text: nested_type_text(NestedParts::Union { dense, type_ids, fields }),
                    },
                )
            }
        },
        _ => None,
    }
}

/// Those of `fields` with wanted leaves, each with its wanted leaves alone.
pub open spec fn pruned_all(fields: Seq<ArrowFieldView>, ids: Set<i32>) -> Seq<ArrowFieldView>
    decreases fields, 0nat,
{
    if fields.len() == 0 {
        seq![]
    } else {
        match pruned(fields.last(), ids) {
            Some(kept) => pruned_all(fields.drop_last(), ids).push(kept),
            None => pruned_all(fields.drop_last(), ids),
        }
    }
}

/// The type ids of those of `fields` with wanted leaves.
pub open spec fn pruned_type_ids(
    type_ids: Seq<i8>,
    fields: Seq<ArrowFieldView>,
    ids: Set<i32>,
) -> Seq<i8>
    decreases fields, 0nat,
{
    if fields.len() == 0 {
        seq![]
    } else {
        let before = pruned_type_ids(type_ids.drop_last(), fields.drop_last(), ids);
        match pruned(fields.last(), ids) {
            Some(_) => before.push(type_ids.last()),
            None => before,
        }
    }
}

/// The ids that `fields` carry, one by one.
pub open spec fn carried_ids(fields: Seq<ArrowFieldView>) -> Seq<Option<i32>> {
    fields.map_values(|field: ArrowFieldView| field_id(field))
}

/// The ids that the leaves of `fields` carry, leaf by leaf.
pub open spec fn leaf_field_ids(fields: Seq<ArrowFieldView>) -> Seq<Option<i32>> {
    carried_ids(leaf_fields_of_all(fields))
}

/// Those of `leaves` that carry one of `ids`, in order.
pub open spec fn wanted_leaves(leaves: Seq<ArrowFieldView>, ids: Set<i32>) -> Seq<ArrowFieldView>
    decreases leaves.len(),
{
    if leaves.len() == 0 {
        seq![]
    } else if wanted_by(leaves.last(), ids) {
        wanted_leaves(leaves.drop_last(), ids).push(leaves.last())
    } else {
        wanted_leaves(leaves.drop_last(), ids)
    }
}

proof fn lemma_wanted_leaves_of_sum(
    first: Seq<ArrowFieldView>,
    second: Seq<ArrowFieldView>,
    ids: Set<i32>,
)
    ensures
        wanted_leaves(first + second, ids) == wanted_leaves(first, ids) + wanted_leaves(
            second,
            ids,
        ),
    decreases second.len(),
{
    if second.len() == 0 {
        assert(first + second =~= first);
        assert(wanted_leaves(first, ids) + wanted_leaves(second, ids) =~= wanted_leaves(
            first,
            ids,
        ));
    } else {
        lemma_wanted_leaves_of_sum(first, second.drop_last(), ids);
        assert((first + second).drop_last() =~= first + second.drop_last());
        assert(wanted_leaves(first + second, ids) =~= wanted_leaves(first, ids) + wanted_leaves(
            second,
            ids,
        ));
    }
}

/// Of one field, pruning keeps the wanted leaves, and nothing of a field without any.
pub proof fn pruning_a_field_keeps_the_wanted_leaves(field: ArrowFieldView, ids: Set<i32>)
    ensures
        match pruned(field, ids) {
            Some(kept) => {
                &&& leaf_fields(kept) == wanted_leaves(leaf_fields(field), ids)
                &&& leaf_fields(kept).len() > 0
                &&& kept.name == field.name
                &&& kept.nullable == field.nullable
                &&& kept.metadata == field.metadata
            },
            None => wanted_leaves(leaf_fields(field), ids).len() == 0,
        },
    decreases field,
{
    reveal_with_fuel(pruned, 2);
    reveal_with_fuel(wanted_leaves, 2);
    match layout(field.data_type) {
        ArrowTypeView::List(_, element) => {
            pruning_a_field_keeps_the_wanted_leaves(*element, ids);
        },
        ArrowTypeView::Entries(entry, _) => {
            pruning_a_field_keeps_the_wanted_leaves(*entry, ids);
        },
        ArrowTypeView::Struct(fields) => {
            pruning_keeps_the_wanted_leaves(fields, ids);
        },
        ArrowTypeView::Union { dense: _, type_ids: _, fields, text: _ } => {
            pruning_keeps_the_wanted_leaves(fields, ids);
        },
        _ => {
            assert(leaf_fields(field).drop_last() =~= seq![]);
        },
    }
}

/// Pruning keeps the wanted leaves, each as it is, in order.
pub proof fn pruning_keeps_the_wanted_leaves(fields: Seq<ArrowFieldView>, ids: Set<i32>)
    ensures
        leaf_fields_of_all(pruned_all(fields, ids)) == wanted_leaves(
            leaf_fields_of_all(fields),
            ids,
        ),
        pruned_all(fields, ids).len() == 0 <==> leaf_fields_of_all(pruned_all(fields, ids)).len()
            == 0,
    decreases fields,
{
    if fields.len() > 0 {
        let before = fields.drop_last();
        pruning_keeps_the_wanted_leaves(before, ids);
        pruning_a_field_keeps_the_wanted_leaves(fields.last(), ids);
        lemma_wanted_leaves_of_sum(leaf_fields_of_all(before), leaf_fields(fields.last()), ids);
        match pruned(fields.last(), ids) {
            Some(kept) => {
                assert(pruned_all(fields, ids).drop_last() =~= pruned_all(before, ids));
            },
            None => {
                assert(wanted_leaves(leaf_fields_of_all(fields), ids) =~= wanted_leaves(
                    leaf_fields_of_all(before),
                    ids,
                ));
            },
        }
    }
}

/// Reads an id from the text under the field-id key.
pub fn read_field_id(text: Option<&String>) -> (id: Option<i32>)
    ensures
        id == id_of_text(
            match text {
                Some(text) => Some(text@),
                None => None,
            },
        ),
{
    match text {
        Some(text) => parse_i32(text.as_str()),
        None => None,
    }
}

/// Whether the text under the field-id key of a leaf is one of `ids`.
pub fn leaf_is_wanted(text: Option<&String>, ids: &HashSet<i32>) -> (kept: bool)
    ensures
        kept == ({
            let id = id_of_text(
                match text {
                    Some(text) => Some(text@),
                    None => None,
                },
            );
            id is Some && ids@.contains(id->0)
        }),
{
    match read_field_id(text) {
        Some(id) => ids.contains(&id),
        None => false,
    }
}

} // verus!
