//! Which leaves the error over unreadable columns names.

use crate::arrow_convert::{fields_convert, part_converts, type_converts};
use crate::arrow_tree::{
    carried_ids, field_id, is_leaf, layout, leaf_field_ids, leaf_fields, leaf_fields_of_all,
    pruned_all, pruning_keeps_the_wanted_leaves, wanted_leaves, ArrowFieldView, ArrowTypeView,
};
use crate::laws::{every_unreadable_leaf_is_named_once, names_leaf};
use crate::projection::mismatches;
use crate::schema::{find_in_all, find_in_field, NestedField, Schema, Type};
use std::sync::Arc;
use vstd::prelude::*;

verus! {

/// Whether a field somewhere inside the type `t` carries the id `id`.
pub open spec fn carried_within(t: ArrowTypeView, id: i32) -> bool
    decreases t, 0nat,
{
    match t {
        ArrowTypeView::List(_, element) => field_id(*element) == Some(id) || carried_within(
            element.data_type,
            id,
        ),
        ArrowTypeView::Entries(entry, _) => carried_within(entry.data_type, id),
        ArrowTypeView::Struct(fields) => carried_by_one(fields, id),
        ArrowTypeView::Dictionary { key: _, value } => carried_within(*value, id),
        _ => false,
    }
}

/// Whether one of `fields`, or a field somewhere inside one, carries the id `id`.
pub open spec fn carried_by_one(fields: Seq<ArrowFieldView>, id: i32) -> bool
    decreases fields, 0nat,
{
    fields.len() > 0 && {
        ||| carried_by_one(fields.drop_last(), id)
        ||| field_id(fields.last()) == Some(id)
        ||| carried_within(fields.last().data_type, id)
    }
}

/// Whether a field around leaves carries the id `id`: `field`, where it is no leaf, or one inside
/// it. Fields inside a leaf count too; a dictionary of dictionaries is a leaf and may hold some.
/// The id of the entries of a map does not count.
pub open spec fn carried_around(field: ArrowFieldView, id: i32) -> bool
    decreases field,
{
    if is_leaf(field) {
        carried_within(field.data_type, id)
    } else {
        field_id(field) == Some(id) || match layout(field.data_type) {
            ArrowTypeView::List(_, element) => carried_around(*element, id),
            ArrowTypeView::Entries(entry, _) => match entry.data_type {
                ArrowTypeView::Struct(parts) => carried_around_all(parts, id),
                _ => false,
            },
            ArrowTypeView::Struct(fields) => carried_around_all(fields, id),
            _ => false,
        }
    }
}

/// Whether one of `fields` that is no leaf, or one inside them, carries the id `id`.
pub open spec fn carried_around_all(fields: Seq<ArrowFieldView>, id: i32) -> bool
    decreases fields,
{
    fields.len() > 0 && (carried_around_all(fields.drop_last(), id) || carried_around(
        fields.last(),
        id,
    ))
}

/// What a table field finds beside itself, the Arrow type that it stands for holds.
pub(crate) proof fn lemma_found_within(t: ArrowTypeView, converted: &NestedField, id: i32)
    requires
        type_converts(t, *converted.field_type),
    ensures
        find_in_field(*converted, id) is Some && converted.id != id ==> carried_within(t, id),
    decreases t,
{
    match t {
        ArrowTypeView::List(_, element) => {
            if let Type::List(list) = *converted.field_type {
                assert(part_converts(
                    *element,
                    *list.element_field,
                    "element"@,
                    !element.nullable,
                ));
                lemma_found_within(element.data_type, &list.element_field, id);
            }
        },
        ArrowTypeView::Struct(fields) => {
            if let Type::Struct(own) = *converted.field_type {
                lemma_found_by_one(fields, own.fields@, id);
            }
        },
        ArrowTypeView::Entries(entry, _) => {
            if let Type::Mapping(own) = *converted.field_type {
                if let ArrowTypeView::Struct(parts) = entry.data_type {
                    assert(part_converts(parts[0], *own.key_field, "key"@, true));
                    assert(part_converts(
                        parts[1],
                        *own.value_field,
                        "value"@,
                        !parts[1].nullable,
                    ));
                    lemma_found_within(parts[0].data_type, &own.key_field, id);
                    lemma_found_within(parts[1].data_type, &own.value_field, id);
                    assert(parts.last() == parts[1]);
                    assert(parts.drop_last().last() == parts[0]);
                    assert(carried_within(entry.data_type, id) == carried_by_one(parts, id));
                    assert(carried_by_one(parts.drop_last(), id) ==> carried_by_one(parts, id));
                }
            }
        },
        ArrowTypeView::Dictionary { key: _, value } => {
            lemma_found_within(*value, converted, id);
        },
        _ => {},
    }
}

proof fn lemma_found_by_one(
    fields: Seq<ArrowFieldView>,
    converted: Seq<Arc<NestedField>>,
    id: i32,
)
    requires
        fields_convert(fields, converted),
    ensures
        find_in_all(converted, id) is Some ==> carried_by_one(fields, id),
    decreases fields,
{
    if fields.len() > 0 {
        let last = fields.last();
        assert(part_converts(last, *converted.last(), last.name, !last.nullable));
        lemma_found_within(last.data_type, &converted.last(), id);
        lemma_found_by_one(fields.drop_last(), converted.drop_last(), id);
    }
}

/// Whether a leaf of `field` carries the id `id`.
spec fn carried_by_leaf(field: ArrowFieldView, id: i32) -> bool {
    carried_ids(leaf_fields(field)).contains(Some(id))
}

proof fn lemma_carried_in_sum(first: Seq<ArrowFieldView>, second: Seq<ArrowFieldView>, id: i32)
    ensures
        carried_ids(first).contains(Some(id)) || carried_ids(second).contains(Some(id))
            ==> carried_ids(first + second).contains(Some(id)),
{
    let all = carried_ids(first + second);
    if carried_ids(first).contains(Some(id)) {
        let i = choose|i: int| 0 <= i < first.len() && carried_ids(first)[i] == Some(id);
        assert(all[i] == Some(id));
    }
    if carried_ids(second).contains(Some(id)) {
        let i = choose|i: int| 0 <= i < second.len() && carried_ids(second)[i] == Some(id);
        assert(all[first.len() + i] == Some(id));
    }
}

/// What is found in a table field is carried by a leaf of its Arrow field or around one.
proof fn lemma_found_in_field(field: ArrowFieldView, converted: &NestedField, id: i32)
    requires
        field_id(field) == Some(converted.id),
        type_converts(field.data_type, *converted.field_type),
    ensures
        find_in_field(*converted, id) is Some ==> carried_by_leaf(field, id) || carried_around(
            field,
            id,
        ),
    decreases field,
{
    if is_leaf(field) {
        lemma_found_within(field.data_type, converted, id);
        assert(leaf_fields(field) =~= seq![field]);
        assert(carried_ids(leaf_fields(field))[0] == field_id(field));
    } else {
        // A dictionary stands for what its values stand for.
        if let ArrowTypeView::Dictionary { key: _, value } = field.data_type {
            assert(type_converts(*value, *converted.field_type));
        }
        match layout(field.data_type) {
            ArrowTypeView::List(_, element) => {
                if let Type::List(list) = *converted.field_type {
                    assert(part_converts(
                        *element,
                        *list.element_field,
                        "element"@,
                        !element.nullable,
                    ));
                    lemma_found_in_field(*element, &list.element_field, id);
                }
            },
            ArrowTypeView::Struct(fields) => {
                if let Type::Struct(own) = *converted.field_type {
                    lemma_found_in_fields(fields, own.fields@, id);
                }
            },
            ArrowTypeView::Entries(entry, _) => {
                if let Type::Mapping(own) = *converted.field_type {
                    if let ArrowTypeView::Struct(parts) = entry.data_type {
                        assert(part_converts(parts[0], *own.key_field, "key"@, true));
                        assert(part_converts(
                            parts[1],
                            *own.value_field,
                            "value"@,
                            !parts[1].nullable,
                        ));
                        lemma_found_in_field(parts[0], &own.key_field, id);
                        lemma_found_in_field(parts[1], &own.value_field, id);
                        let key = parts.drop_last();
                        assert(parts.last() == parts[1]);
                        assert(key.last() == parts[0]);
                        assert(leaf_fields_of_all(key.drop_last()) =~= seq![]);
                        assert(leaf_fields_of_all(key) =~= leaf_fields(parts[0]));
                        assert(leaf_fields_of_all(parts) == leaf_fields_of_all(key) + leaf_fields(
                            parts[1],
                        ));
                        lemma_carried_in_sum(
                            leaf_fields_of_all(key),
                            leaf_fields(parts[1]),
                            id,
                        );
                        assert(leaf_fields(*entry) == leaf_fields_of_all(parts));
                        assert(carried_around(parts[0], id) ==> carried_around_all(key, id));
                        assert(carried_around_all(key, id) || carried_around(parts[1], id)
                            ==> carried_around_all(parts, id));
                        assert(carried_around_all(parts, id) ==> carried_around(field, id));
                        assert(carried_by_leaf(parts[0], id) || carried_by_leaf(parts[1], id)
                            ==> carried_by_leaf(field, id));
                    }
                }
            },
            _ => {},
        }
    }
}

proof fn lemma_found_in_fields(
    fields: Seq<ArrowFieldView>,
    converted: Seq<Arc<NestedField>>,
    id: i32,
)
    requires
        fields_convert(fields, converted),
    ensures
        find_in_all(converted, id) is Some ==> carried_ids(leaf_fields_of_all(fields)).contains(
            Some(id),
        ) || carried_around_all(fields, id),
    decreases fields,
{
    if fields.len() > 0 {
        let last = fields.last();
        assert(part_converts(last, *converted.last(), last.name, !last.nullable));
        lemma_found_in_field(last, &converted.last(), id);
        lemma_found_in_fields(fields.drop_last(), converted.drop_last(), id);
        lemma_carried_in_sum(leaf_fields_of_all(fields.drop_last()), leaf_fields(last), id);
    }
}

proof fn lemma_kept_leaves_are_wanted(leaves: Seq<ArrowFieldView>, ids: Set<i32>, id: i32)
    ensures
        carried_ids(wanted_leaves(leaves, ids)).contains(Some(id)) ==> ids.contains(id),
    decreases leaves.len(),
{
    if leaves.len() > 0 {
        let before = wanted_leaves(leaves.drop_last(), ids);
        let now = wanted_leaves(leaves, ids);
        lemma_kept_leaves_are_wanted(leaves.drop_last(), ids, id);
        if carried_ids(now).contains(Some(id)) {
            let i = choose|i: int| 0 <= i < now.len() && carried_ids(now)[i] == Some(id);
            if i < before.len() {
                assert(carried_ids(before)[i] == Some(id));
            }
        }
    }
}

/// Each text in the error stands for an unreadable leaf that the scan reads or filters on, or for
/// one that carries the id of a field around such leaves.
pub proof fn named_leaves_are_checked(
    fields: Seq<ArrowFieldView>,
    checked: Set<i32>,
    table: Schema,
    file: Schema,
    text: Seq<char>,
)
    requires
        fields_convert(pruned_all(fields, checked), file.fields@),
        mismatches(leaf_field_ids(fields), table, file).contains(text),
    ensures
        exists|i: int|
            {
                &&& 0 <= i < leaf_field_ids(fields).len()
                &&& names_leaf(text, #[trigger] leaf_field_ids(fields)[i], table, file)
                &&& checked.contains(leaf_field_ids(fields)[i]->0) || carried_around_all(
                    pruned_all(fields, checked),
                    leaf_field_ids(fields)[i]->0,
                )
            },
{
    let ids = leaf_field_ids(fields);
    let kept = pruned_all(fields, checked);
    every_unreadable_leaf_is_named_once(ids, table, file);
    let i = choose|i: int|
        {
            &&& 0 <= i < ids.len()
            &&& names_leaf(text, #[trigger] ids[i], table, file)
        };
    let id = ids[i]->0;
    lemma_found_in_fields(kept, file.fields@, id);
    pruning_keeps_the_wanted_leaves(fields, checked);
    lemma_kept_leaves_are_wanted(leaf_fields_of_all(fields), checked, id);
}

/// Where no leaf of a file carries the id of a field around the leaves that a scan reads or filters
/// on, each text in the error stands for such a leaf.
pub proof fn only_checked_leaves_are_named(
    fields: Seq<ArrowFieldView>,
    checked: Set<i32>,
    table: Schema,
    file: Schema,
    text: Seq<char>,
)
    requires
        fields_convert(pruned_all(fields, checked), file.fields@),
        mismatches(leaf_field_ids(fields), table, file).contains(text),
        forall|i: int|
            0 <= i < leaf_field_ids(fields).len() && #[trigger] leaf_field_ids(fields)[i] is Some
                ==> !carried_around_all(
                pruned_all(fields, checked),
                leaf_field_ids(fields)[i]->0,
            ),
    ensures
        exists|i: int|
            {
                &&& 0 <= i < leaf_field_ids(fields).len()
                &&& names_leaf(text, #[trigger] leaf_field_ids(fields)[i], table, file)
                &&& checked.contains(leaf_field_ids(fields)[i]->0)
            },
{
    named_leaves_are_checked(fields, checked, table, file, text);
}

/// Leaves are named in the order in which they come: what the first leaves alone would be named as
/// stands at the start of the list.
pub proof fn leaves_are_named_in_order(
    ids: Seq<Option<i32>>,
    count: int,
    table: Schema,
    file: Schema,
)
    requires
        0 <= count <= ids.len(),
    ensures
        mismatches(ids.take(count), table, file).is_prefix_of(mismatches(ids, table, file)),
    decreases ids.len() - count,
{
    if count == ids.len() {
        assert(ids.take(count) =~= ids);
    } else {
        leaves_are_named_in_order(ids, count + 1, table, file);
        assert(ids.take(count + 1).drop_last() =~= ids.take(count));
    }
}

} // verus!
