//! Columns that a scan does not touch do not matter to it.

use crate::arrow_file::arrow_fields;
use crate::arrow_tree::{
    carried_ids, field_id, is_leaf, layout, leaf_field_ids, leaf_fields, leaf_fields_of_all, pruned,
    pruned_all, pruned_layout, pruned_type_ids, pruning_a_field_keeps_the_wanted_leaves, wanted_by,
    ArrowFieldView, ArrowTypeView,
};
use crate::error::Error;
use crate::laws::{lemma_nothing_wanted, lemma_same_outcome, same_answer};
use crate::projection::{expanded, names_variant};
use crate::reader::{projects, projects_with_field_ids};
use crate::schema::Schema;
use arrow_schema::Schema as ArrowSchema;
use parquet::arrow::ProjectionMask;
use parquet::schema::types::SchemaDescriptor;
use vstd::prelude::*;

verus! {

/// Whether two fields are the same but for the types of leaves that carry none of `ids`. The fields
/// around the leaves are the same on both sides; how a type reads does not count.
pub open spec fn same_but_untouched(a: ArrowFieldView, b: ArrowFieldView, ids: Set<i32>) -> bool
    decreases a, 1nat,
{
    &&& a.name == b.name
    &&& a.nullable == b.nullable
    &&& a.metadata == b.metadata
    &&& is_leaf(a) == is_leaf(b)
    &&& is_leaf(a) && wanted_by(a, ids) ==> a.data_type == b.data_type
    &&& !is_leaf(a) ==> same_type_but_untouched(a.data_type, b.data_type, ids)
}

/// Whether two types with leaves in them are the same but for the types of leaves that carry none
/// of `ids`.
pub open spec fn same_type_but_untouched(
    a: ArrowTypeView,
    b: ArrowTypeView,
    ids: Set<i32>,
) -> bool
    decreases a, 0nat,
{
    match (a, b) {
        (ArrowTypeView::List(kind, element), ArrowTypeView::List(other_kind, other_element)) => {
            &&& kind == other_kind
            &&& same_but_untouched(*element, *other_element, ids)
        },
        (
            ArrowTypeView::Entries(entry, sorted),
            ArrowTypeView::Entries(other_entry, other_sorted),
        ) => {
            &&& sorted == other_sorted
            &&& same_but_untouched(*entry, *other_entry, ids)
        },
        (ArrowTypeView::Struct(fields), ArrowTypeView::Struct(other_fields)) => {
            all_same_but_untouched(fields, other_fields, ids)
        },
        (
            ArrowTypeView::Union { dense, type_ids, fields, text: _ },
            ArrowTypeView::Union {
                dense: other_dense,
                type_ids: other_type_ids,
                fields: other_fields,
                text: _,
            },
        ) => {
            &&& dense == other_dense
            &&& type_ids == other_type_ids
            &&& all_same_but_untouched(fields, other_fields, ids)
        },
        (
            ArrowTypeView::Dictionary { key, value },
            ArrowTypeView::Dictionary { key: other_key, value: other_value },
        ) => {
            &&& key == other_key
            &&& same_type_but_untouched(*value, *other_value, ids)
        },
        (
            ArrowTypeView::RunEndEncoded { run_ends, values, text: _ },
            ArrowTypeView::RunEndEncoded {
                run_ends: other_run_ends,
                values: other_values,
                text: _,
            },
        ) => {
            &&& run_ends == other_run_ends
            &&& values.name == other_values.name
            &&& values.nullable == other_values.nullable
            &&& values.metadata == other_values.metadata
            &&& same_type_but_untouched(values.data_type, other_values.data_type, ids)
        },
        _ => false,
    }
}

/// Whether two sequences of fields are the same but for the types of leaves that carry none of
/// `ids`.
pub open spec fn all_same_but_untouched(
    a: Seq<ArrowFieldView>,
    b: Seq<ArrowFieldView>,
    ids: Set<i32>,
) -> bool
    decreases a, 0nat,
{
    &&& a.len() == b.len()
    &&& a.len() > 0 ==> {
        &&& all_same_but_untouched(a.drop_last(), b.drop_last(), ids)
        &&& same_but_untouched(a.last(), b.last(), ids)
    }
}

proof fn lemma_untouched_field(a: ArrowFieldView, b: ArrowFieldView, ids: Set<i32>)
    requires
        same_but_untouched(a, b, ids),
    ensures
        pruned(a, ids) == pruned(b, ids),
        carried_ids(leaf_fields(a)) == carried_ids(leaf_fields(b)),
    decreases a,
{
    if is_leaf(a) {
        assert(leaf_fields(a) =~= seq![a]);
        assert(leaf_fields(b) =~= seq![b]);
        assert(field_id(a) == field_id(b));
        assert(carried_ids(leaf_fields(a)) =~= carried_ids(leaf_fields(b)));
        assert(wanted_by(a, ids) ==> a == b);
    } else {
        let own = layout(a.data_type);
        let other = layout(b.data_type);
        assert(same_type_but_untouched(own, other, ids));
        match (own, other) {
            (ArrowTypeView::List(_, element), ArrowTypeView::List(_, other_element)) => {
                lemma_untouched_field(*element, *other_element, ids);
            },
            (ArrowTypeView::Entries(entry, _), ArrowTypeView::Entries(other_entry, _)) => {
                lemma_untouched_field(*entry, *other_entry, ids);
            },
            (ArrowTypeView::Struct(fields), ArrowTypeView::Struct(other_fields)) => {
                lemma_untouched_fields(fields, other_fields, seq![], ids);
            },
            (
                ArrowTypeView::Union { dense: _, type_ids, fields, text: _ },
                ArrowTypeView::Union { dense: _, type_ids: _, fields: other_fields, text: _ },
            ) => {
                lemma_untouched_fields(fields, other_fields, type_ids, ids);
            },
            _ => {},
        }
        assert(pruned_layout(a, ids) == pruned_layout(b, ids));
    }
}

proof fn lemma_untouched_fields(
    a: Seq<ArrowFieldView>,
    b: Seq<ArrowFieldView>,
    type_ids: Seq<i8>,
    ids: Set<i32>,
)
    requires
        all_same_but_untouched(a, b, ids),
    ensures
        pruned_all(a, ids) == pruned_all(b, ids),
        pruned_type_ids(type_ids, a, ids) == pruned_type_ids(type_ids, b, ids),
        carried_ids(leaf_fields_of_all(a)) == carried_ids(leaf_fields_of_all(b)),
    decreases a,
{
    if a.len() > 0 {
        lemma_untouched_fields(a.drop_last(), b.drop_last(), type_ids.drop_last(), ids);
        lemma_untouched_field(a.last(), b.last(), ids);
        assert(carried_ids(leaf_fields_of_all(a)) =~= carried_ids(
            leaf_fields_of_all(a.drop_last()),
        ) + carried_ids(leaf_fields(a.last())));
        assert(carried_ids(leaf_fields_of_all(b)) =~= carried_ids(
            leaf_fields_of_all(b.drop_last()),
        ) + carried_ids(leaf_fields(b.last())));
    } else {
        assert(a =~= b);
    }
}

/// The types of leaves that carry none of `ids`, at any depth, make no difference to what is left
/// of a schema with the leaves that carry `ids` alone, nor to the ids that its leaves carry.
pub proof fn untouched_leaves_are_not_checked(
    a: Seq<ArrowFieldView>,
    b: Seq<ArrowFieldView>,
    ids: Set<i32>,
)
    requires
        all_same_but_untouched(a, b, ids),
    ensures
        pruned_all(a, ids) == pruned_all(b, ids),
        leaf_field_ids(a) == leaf_field_ids(b),
{
    lemma_untouched_fields(a, b, seq![], ids);
}

/// The type of a leaf that is neither to be read nor to be filtered on never matters: files that
/// differ in such types alone are projected by field ids alike.
pub proof fn untouched_leaves_do_not_matter(
    first: Result<ProjectionMask, Error>,
    second: Result<ProjectionMask, Error>,
    wanted: Seq<i32>,
    predicate_ids: Seq<i32>,
    table: Schema,
    parquet_schema: SchemaDescriptor,
    first_arrow_schema: ArrowSchema,
    second_arrow_schema: ArrowSchema,
)
    requires
        projects_with_field_ids(
            first,
            wanted,
            predicate_ids,
            table,
            parquet_schema,
            first_arrow_schema,
        ),
        projects_with_field_ids(
            second,
            wanted,
            predicate_ids,
            table,
            parquet_schema,
            second_arrow_schema,
        ),
        all_same_but_untouched(
            arrow_fields(first_arrow_schema),
            arrow_fields(second_arrow_schema),
            wanted.to_set().union(predicate_ids.to_set()),
        ),
    ensures
        same_answer(first, second),
{
    untouched_leaves_are_not_checked(
        arrow_fields(first_arrow_schema),
        arrow_fields(second_arrow_schema),
        wanted.to_set().union(predicate_ids.to_set()),
    );
    lemma_same_outcome(
        first,
        second,
        wanted,
        wanted,
        predicate_ids,
        predicate_ids,
        table,
        parquet_schema,
        first_arrow_schema,
        second_arrow_schema,
    );
}

/// The type of a leaf of no field that is requested or filtered on never matters, whichever way a
/// file is projected.
pub proof fn unrequested_leaves_do_not_matter(
    first: Result<ProjectionMask, Error>,
    second: Result<ProjectionMask, Error>,
    field_ids: Seq<i32>,
    predicate_ids: Seq<i32>,
    table: Schema,
    parquet_schema: SchemaDescriptor,
    first_arrow_schema: ArrowSchema,
    second_arrow_schema: ArrowSchema,
    use_fallback: bool,
)
    requires
        projects(
            first,
            field_ids,
            predicate_ids,
            table,
            parquet_schema,
            first_arrow_schema,
            use_fallback,
        ),
        projects(
            second,
            field_ids,
            predicate_ids,
            table,
            parquet_schema,
            second_arrow_schema,
            use_fallback,
        ),
        all_same_but_untouched(
            arrow_fields(first_arrow_schema),
            arrow_fields(second_arrow_schema),
            expanded(field_ids, table).to_set().union(expanded(predicate_ids, table).to_set()),
        ),
    ensures
        same_answer(first, second),
{
    if field_ids.len() == 0 && predicate_ids.len() == 0 {
    } else if names_variant(field_ids, table) || use_fallback {
    } else {
        untouched_leaves_do_not_matter(
            first,
            second,
            expanded(field_ids, table),
            expanded(predicate_ids, table),
            table,
            parquet_schema,
            first_arrow_schema,
            second_arrow_schema,
        );
    }
}

/// Another column in place of one that a scan neither reads nor filters on, of whatever type and
/// however many leaves, leaves what is checked as it is.
pub proof fn untouched_columns_are_not_checked(
    fields: Seq<ArrowFieldView>,
    position: int,
    other: ArrowFieldView,
    ids: Set<i32>,
)
    requires
        0 <= position < fields.len(),
        forall|k: int|
            0 <= k < leaf_fields(fields[position]).len() ==> !wanted_by(
                #[trigger] leaf_fields(fields[position])[k],
                ids,
            ),
        forall|k: int|
            0 <= k < leaf_fields(other).len() ==> !wanted_by(
                #[trigger] leaf_fields(other)[k],
                ids,
            ),
    ensures
        pruned_all(fields.update(position, other), ids) == pruned_all(fields, ids),
    decreases fields.len(),
{
    let changed = fields.update(position, other);
    if position == fields.len() - 1 {
        lemma_nothing_wanted(leaf_fields(fields.last()), ids);
        lemma_nothing_wanted(leaf_fields(other), ids);
        pruning_a_field_keeps_the_wanted_leaves(fields.last(), ids);
        pruning_a_field_keeps_the_wanted_leaves(other, ids);
        assert(changed.drop_last() =~= fields.drop_last());
    } else {
        assert(fields.drop_last()[position] == fields[position]);
        untouched_columns_are_not_checked(fields.drop_last(), position, other, ids);
        assert(changed.drop_last() =~= fields.drop_last().update(position, other));
    }
}

} // verus!
