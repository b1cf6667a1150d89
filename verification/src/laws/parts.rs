//! Fields by their parts: what is inside a field is reached step by step.

use crate::schema::{
    contains_variant, find_in_all, find_in_field, leaf_ids, leaf_ids_of_all,
    lemma_contains_in_sum, NestedField, Schema, Type,
};
use std::sync::Arc;
use vstd::prelude::*;

verus! {

/// A way from a field to one of its parts.
pub enum Step {
    /// To the field of a struct at a position.
    Member(int),
    /// To the element of a list.
    Element,
    /// To the key of a map.
    Key,
    /// To the value of a map.
    Value,
}

/// The part of `field` that `step` leads to, where there is one.
pub open spec fn part(field: NestedField, step: Step) -> Option<NestedField> {
    match (*field.field_type, step) {
        (Type::Struct(s), Step::Member(i)) => if 0 <= i < s.fields@.len() {
            Some(*s.fields@[i])
        } else {
            None
        },
        (Type::List(l), Step::Element) => Some(*l.element_field),
        (Type::Mapping(m), Step::Key) => Some(*m.key_field),
        (Type::Mapping(m), Step::Value) => Some(*m.value_field),
        _ => None,
    }
}

/// What `steps` lead to: `field` itself where there is no step.
pub open spec fn part_at(field: NestedField, steps: Seq<Step>) -> Option<NestedField>
    decreases steps.len(),
{
    if steps.len() == 0 {
        Some(field)
    } else {
        match part(field, steps[0]) {
            Some(inner) => part_at(inner, steps.skip(1)),
            None => None,
        }
    }
}

/// Whether `steps` lead to a field with the id `id`.
pub open spec fn has_id_at(field: NestedField, steps: Seq<Step>, id: i32) -> bool {
    part_at(field, steps) matches Some(inner) && inner.id == id
}

/// Whether `steps` lead to a field with the id `id` that has no parts: a primitive or a variant.
pub open spec fn has_leaf_at(field: NestedField, steps: Seq<Step>, id: i32) -> bool {
    &&& part_at(field, steps) matches Some(inner)
    &&& inner.id == id
    &&& *inner.field_type is Primitive || *inner.field_type is Variant
}

/// Whether `field` is, or has somewhere in it, a field with the id `id` that has no parts.
pub open spec fn has_leaf(field: NestedField, id: i32) -> bool {
    exists|steps: Seq<Step>| has_leaf_at(field, steps, id)
}

/// Whether `steps` lead to a variant.
pub open spec fn has_variant_at(field: NestedField, steps: Seq<Step>) -> bool {
    part_at(field, steps) matches Some(inner) && *inner.field_type is Variant
}

/// Whether `field` is, or has somewhere in it, a variant.
pub open spec fn has_variant(field: NestedField) -> bool {
    exists|steps: Seq<Step>| has_variant_at(field, steps)
}

/// A step and then more steps.
proof fn lemma_step(field: &NestedField, step: Step, inner: &NestedField, steps: Seq<Step>)
    requires
        part(*field, step) == Some(*inner),
    ensures
        part_at(*field, seq![step] + steps) == part_at(*inner, steps),
{
    assert((seq![step] + steps).skip(1) =~= steps);
}

proof fn lemma_leaf_through(field: &NestedField, step: Step, inner: &NestedField, id: i32)
    requires
        part(*field, step) == Some(*inner),
    ensures
        has_leaf(*inner, id) ==> has_leaf(*field, id),
{
    if has_leaf(*inner, id) {
        let steps = choose|steps: Seq<Step>| has_leaf_at(*inner, steps, id);
        lemma_step(field, step, inner, steps);
        assert(has_leaf_at(*field, seq![step] + steps, id));
    }
}

proof fn lemma_listed_leaf_is_there(field: &NestedField, id: i32)
    ensures
        leaf_ids(*field).contains(id) ==> has_leaf(*field, id),
    decreases field,
{
    lemma_contains_in_sum(id);
    match *field.field_type {
        Type::Primitive(_) => {
            assert(leaf_ids(*field).contains(id) ==> has_leaf_at(*field, seq![], id));
        },
        Type::Variant(_) => {
            assert(leaf_ids(*field).contains(id) ==> has_leaf_at(*field, seq![], id));
        },
        Type::Struct(s) => {
            lemma_listed_leaf_is_in_one(s.fields@, id);
            if leaf_ids_of_all(s.fields@).contains(id) {
                let i = choose|i: int| 0 <= i < s.fields@.len() && has_leaf(*s.fields@[i], id);
                lemma_leaf_through(field, Step::Member(i), &s.fields@[i], id);
            }
        },
        Type::List(l) => {
            lemma_listed_leaf_is_there(&l.element_field, id);
            lemma_leaf_through(field, Step::Element, &l.element_field, id);
        },
        Type::Mapping(m) => {
            lemma_listed_leaf_is_there(&m.key_field, id);
            lemma_listed_leaf_is_there(&m.value_field, id);
            lemma_leaf_through(field, Step::Key, &m.key_field, id);
            lemma_leaf_through(field, Step::Value, &m.value_field, id);
        },
    }
}

proof fn lemma_listed_leaf_is_in_one(fields: Seq<Arc<NestedField>>, id: i32)
    ensures
        leaf_ids_of_all(fields).contains(id) ==> exists|i: int|
            0 <= i < fields.len() && has_leaf(*fields[i], id),
    decreases fields,
{
    lemma_contains_in_sum(id);
    if fields.len() > 0 {
        let shorter = fields.drop_last();
        lemma_listed_leaf_is_in_one(shorter, id);
        lemma_listed_leaf_is_there(&fields.last(), id);
        if leaf_ids_of_all(shorter).contains(id) {
            let i = choose|i: int| 0 <= i < shorter.len() && has_leaf(*shorter[i], id);
            assert(has_leaf(*fields[i], id));
        } else if leaf_ids_of_all(fields).contains(id) {
            assert(has_leaf(*fields[fields.len() - 1], id));
        }
    }
}

proof fn lemma_one_of_all(fields: Seq<Arc<NestedField>>, i: int, id: i32)
    requires
        0 <= i < fields.len(),
    ensures
        leaf_ids(*fields[i]).contains(id) ==> leaf_ids_of_all(fields).contains(id),
        find_in_field(*fields[i], id) is Some ==> find_in_all(fields, id) is Some,
    decreases fields.len(),
{
    lemma_contains_in_sum(id);
    if i < fields.len() - 1 {
        lemma_one_of_all(fields.drop_last(), i, id);
    }
}

proof fn lemma_leaf_there_is_listed(field: &NestedField, steps: Seq<Step>, id: i32)
    requires
        has_leaf_at(*field, steps, id),
    ensures
        leaf_ids(*field).contains(id),
    decreases steps.len(),
{
    lemma_contains_in_sum(id);
    if steps.len() == 0 {
        assert(leaf_ids(*field)[0] == id);
    } else {
        let rest = steps.skip(1);
        match (*field.field_type, steps[0]) {
            (Type::Struct(s), Step::Member(i)) => {
                lemma_leaf_there_is_listed(&s.fields@[i], rest, id);
                lemma_one_of_all(s.fields@, i, id);
            },
            (Type::List(l), Step::Element) => {
                lemma_leaf_there_is_listed(&l.element_field, rest, id);
            },
            (Type::Mapping(m), Step::Key) => {
                lemma_leaf_there_is_listed(&m.key_field, rest, id);
            },
            (Type::Mapping(m), Step::Value) => {
                lemma_leaf_there_is_listed(&m.value_field, rest, id);
            },
            _ => {},
        }
    }
}

/// The leaves of a field are exactly the fields without parts that it has somewhere in it.
pub proof fn leaves_are_the_parts_without_parts(field: &NestedField, id: i32)
    ensures
        leaf_ids(*field).contains(id) <==> has_leaf(*field, id),
{
    lemma_listed_leaf_is_there(field, id);
    if has_leaf(*field, id) {
        let steps = choose|steps: Seq<Step>| has_leaf_at(*field, steps, id);
        lemma_leaf_there_is_listed(field, steps, id);
    }
}

/// The parts of a field, in order.
pub open spec fn parts(field: NestedField) -> Seq<NestedField> {
    match *field.field_type {
        Type::Primitive(_) => seq![],
        Type::Variant(_) => seq![],
        Type::Struct(s) => s.fields@.map_values(|inner: Arc<NestedField>| *inner),
        Type::List(l) => seq![*l.element_field],
        Type::Mapping(m) => seq![*m.key_field, *m.value_field],
    }
}

/// The leaves of a field come part by part; a field that can have no parts is its own leaf.
pub proof fn leaves_come_part_by_part(field: &NestedField)
    ensures
        *field.field_type is Primitive || *field.field_type is Variant ==> leaf_ids(*field) == seq![
            field.id,
        ],
        !(*field.field_type is Primitive || *field.field_type is Variant) ==> leaf_ids(*field)
            == parts(*field).map_values(|inner: NestedField| leaf_ids(inner)).flatten(),
{
    match *field.field_type {
        Type::Primitive(_) => {},
        Type::Variant(_) => {},
        Type::Struct(s) => {
            lemma_leaves_of_all(s.fields@);
            assert(parts(*field).map_values(|inner: NestedField| leaf_ids(inner))
                =~= s.fields@.map_values(|inner: Arc<NestedField>| leaf_ids(*inner)));
        },
        Type::List(l) => {
            let all = parts(*field).map_values(|inner: NestedField| leaf_ids(inner));
            assert(all.drop_first() =~= seq![]);
            assert(all.drop_first().flatten() =~= seq![]);
            assert(all.flatten() =~= leaf_ids(*field));
        },
        Type::Mapping(m) => {
            let all = parts(*field).map_values(|inner: NestedField| leaf_ids(inner));
            let values = all.drop_first();
            assert(values.drop_first() =~= seq![]);
            assert(values.drop_first().flatten() =~= seq![]);
            assert(values.flatten() =~= leaf_ids(*m.value_field));
            assert(all.flatten() =~= leaf_ids(*field));
        },
    }
}

proof fn lemma_leaves_of_all(fields: Seq<Arc<NestedField>>)
    ensures
        leaf_ids_of_all(fields) == fields.map_values(
            |inner: Arc<NestedField>| leaf_ids(*inner),
        ).flatten(),
    decreases fields.len(),
{
    let all = fields.map_values(|inner: Arc<NestedField>| leaf_ids(*inner));
    if fields.len() > 0 {
        let shorter = fields.drop_last();
        let before = shorter.map_values(|inner: Arc<NestedField>| leaf_ids(*inner));
        lemma_leaves_of_all(shorter);
        assert(all =~= before.push(all.last()));
        before.lemma_flatten_push(all.last());
    } else {
        assert(all.flatten() =~= seq![]);
    }
}

proof fn lemma_variant_through(field: &NestedField, step: Step, inner: &NestedField)
    requires
        part(*field, step) == Some(*inner),
    ensures
        has_variant(*inner) ==> has_variant(*field),
{
    if has_variant(*inner) {
        let steps = choose|steps: Seq<Step>| has_variant_at(*inner, steps);
        lemma_step(field, step, inner, steps);
        assert(has_variant_at(*field, seq![step] + steps));
    }
}

proof fn lemma_told_variant_is_there(field: &NestedField)
    ensures
        contains_variant(*field.field_type) ==> has_variant(*field),
    decreases field,
{
    match *field.field_type {
        Type::Primitive(_) => {},
        Type::Variant(_) => {
            assert(has_variant_at(*field, seq![]));
        },
        Type::Struct(s) => {
            if contains_variant(*field.field_type) {
                let i = choose|i: int|
                    0 <= i < s.fields@.len() && contains_variant(
                        *(#[trigger] s.fields@[i]).field_type,
                    );
                lemma_told_variant_is_there(&s.fields@[i]);
                lemma_variant_through(field, Step::Member(i), &s.fields@[i]);
            }
        },
        Type::List(l) => {
            lemma_told_variant_is_there(&l.element_field);
            lemma_variant_through(field, Step::Element, &l.element_field);
        },
        Type::Mapping(m) => {
            lemma_told_variant_is_there(&m.key_field);
            lemma_told_variant_is_there(&m.value_field);
            lemma_variant_through(field, Step::Key, &m.key_field);
            lemma_variant_through(field, Step::Value, &m.value_field);
        },
    }
}

proof fn lemma_variant_there_is_told(field: &NestedField, steps: Seq<Step>)
    requires
        has_variant_at(*field, steps),
    ensures
        contains_variant(*field.field_type),
    decreases steps.len(),
{
    if steps.len() > 0 {
        let rest = steps.skip(1);
        match (*field.field_type, steps[0]) {
            (Type::Struct(s), Step::Member(i)) => {
                lemma_variant_there_is_told(&s.fields@[i], rest);
                assert(contains_variant(*s.fields@[i].field_type));
            },
            (Type::List(l), Step::Element) => lemma_variant_there_is_told(&l.element_field, rest),
            (Type::Mapping(m), Step::Key) => lemma_variant_there_is_told(&m.key_field, rest),
            (Type::Mapping(m), Step::Value) => lemma_variant_there_is_told(&m.value_field, rest),
            _ => {},
        }
    }
}

/// The type of a field contains a variant exactly where the field is a variant or has one somewhere
/// in it.
pub proof fn variants_are_found_wherever_they_are(field: &NestedField)
    ensures
        contains_variant(*field.field_type) <==> has_variant(*field),
{
    lemma_told_variant_is_there(field);
    if has_variant(*field) {
        let steps = choose|steps: Seq<Step>| has_variant_at(*field, steps);
        lemma_variant_there_is_told(field, steps);
    }
}

/// Whether `found` is `field` or somewhere in it.
pub open spec fn is_in(found: NestedField, field: NestedField) -> bool {
    exists|steps: Seq<Step>| #[trigger] part_at(field, steps) == Some(found)
}

/// Whether `field` is, or has somewhere in it, a field with the id `id`.
pub open spec fn has_id(field: NestedField, id: i32) -> bool {
    exists|steps: Seq<Step>| has_id_at(field, steps, id)
}

proof fn lemma_in_through(
    field: &NestedField,
    step: Step,
    inner: &NestedField,
    found: &NestedField,
)
    requires
        part(*field, step) == Some(*inner),
    ensures
        is_in(*found, *inner) ==> is_in(*found, *field),
{
    if is_in(*found, *inner) {
        let steps = choose|steps: Seq<Step>| #[trigger] part_at(*inner, steps) == Some(*found);
        lemma_step(field, step, inner, steps);
        assert(part_at(*field, seq![step] + steps) == Some(*found));
    }
}

proof fn lemma_found_is_there(field: &NestedField, id: i32, found: &NestedField)
    ensures
        find_in_field(*field, id) == Some(*found) ==> found.id == id && is_in(*found, *field),
    decreases field,
{
    if field.id == id {
        assert(part_at(*field, seq![]) == Some(*field));
    } else {
        match *field.field_type {
            Type::Primitive(_) => {},
            Type::Variant(_) => {},
            Type::Struct(s) => {
                lemma_found_is_in_one(s.fields@, id, found);
                if find_in_all(s.fields@, id) == Some(*found) {
                    let i = choose|i: int|
                        0 <= i < s.fields@.len() && is_in(*found, *s.fields@[i]);
                    lemma_in_through(field, Step::Member(i), &s.fields@[i], found);
                }
            },
            Type::List(l) => {
                lemma_found_is_there(&l.element_field, id, found);
                lemma_in_through(field, Step::Element, &l.element_field, found);
            },
            Type::Mapping(m) => {
                lemma_found_is_there(&m.key_field, id, found);
                lemma_found_is_there(&m.value_field, id, found);
                lemma_in_through(field, Step::Key, &m.key_field, found);
                lemma_in_through(field, Step::Value, &m.value_field, found);
            },
        }
    }
}

proof fn lemma_found_is_in_one(fields: Seq<Arc<NestedField>>, id: i32, found: &NestedField)
    ensures
        find_in_all(fields, id) == Some(*found) ==> found.id == id && exists|i: int|
            0 <= i < fields.len() && is_in(*found, *fields[i]),
    decreases fields,
{
    if fields.len() > 0 {
        let shorter = fields.drop_last();
        lemma_found_is_there(&fields.last(), id, found);
        lemma_found_is_in_one(shorter, id, found);
        if find_in_all(fields, id) == Some(*found) {
            if find_in_all(shorter, id) == Some(*found) {
                let i = choose|i: int| 0 <= i < shorter.len() && is_in(*found, *shorter[i]);
                assert(is_in(*found, *fields[i]));
            } else {
                assert(is_in(*found, *fields[fields.len() - 1]));
            }
        }
    }
}

proof fn lemma_there_is_found(field: &NestedField, steps: Seq<Step>, id: i32)
    requires
        has_id_at(*field, steps, id),
    ensures
        find_in_field(*field, id) is Some,
    decreases steps.len(),
{
    if steps.len() > 0 {
        let rest = steps.skip(1);
        match (*field.field_type, steps[0]) {
            (Type::Struct(s), Step::Member(i)) => {
                lemma_there_is_found(&s.fields@[i], rest, id);
                lemma_one_of_all(s.fields@, i, id);
            },
            (Type::List(l), Step::Element) => lemma_there_is_found(&l.element_field, rest, id),
            (Type::Mapping(m), Step::Key) => lemma_there_is_found(&m.key_field, rest, id),
            (Type::Mapping(m), Step::Value) => lemma_there_is_found(&m.value_field, rest, id),
            _ => {},
        }
    }
}

/// Looking up an id in a schema finds a field of the schema that has the id, at whatever depth, and
/// finds none only where there is none.
pub proof fn lookups_find_what_is_there(schema: &Schema, id: i32)
    ensures
        schema.field(id) matches Some(found) ==> found.id == id && exists|i: int|
            0 <= i < schema.fields@.len() && is_in(found, *schema.fields@[i]),
        schema.field(id) is None ==> forall|i: int|
            0 <= i < schema.fields@.len() ==> !has_id(*schema.fields@[i], id),
{
    if let Some(found) = schema.field(id) {
        lemma_found_is_in_one(schema.fields@, id, &found);
    } else {
        assert forall|i: int| 0 <= i < schema.fields@.len() implies !has_id(
            *schema.fields@[i],
            id,
        ) by {
            lemma_id_there_is_found(&schema.fields@[i], id);
            lemma_one_of_all(schema.fields@, i, id);
        }
    }
}

proof fn lemma_id_there_is_found(field: &NestedField, id: i32)
    ensures
        has_id(*field, id) ==> find_in_field(*field, id) is Some,
{
    if has_id(*field, id) {
        let steps = choose|steps: Seq<Step>| has_id_at(*field, steps, id);
        lemma_there_is_found(field, steps, id);
    }
}

/// A field of a schema is found by its id where no other field of the schema has that id.
pub proof fn a_field_with_an_id_of_its_own_is_found(
    schema: &Schema,
    position: int,
    steps: Seq<Step>,
    field: &NestedField,
)
    requires
        0 <= position < schema.fields@.len(),
        part_at(*schema.fields@[position], steps) == Some(*field),
        forall|i: int, other: NestedField|
            0 <= i < schema.fields@.len() && is_in(other, *schema.fields@[i]) && other.id
                == field.id ==> other == *field,
    ensures
        schema.field(field.id) == Some(*field),
{
    lookups_find_what_is_there(schema, field.id);
    assert(has_id_at(*schema.fields@[position], steps, field.id));
    assert(has_id(*schema.fields@[position], field.id));
}

} // verus!
