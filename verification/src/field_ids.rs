//! Field ids for the Arrow schemas of files that carry none.

use crate::arrow_file::{
    arrow_field, arrow_field_views, arrow_fields, arrow_metadata, field_id_meta_key,
    field_metadata, field_with_metadata, owned_field_views, schema_fields, schema_with_fields,
};
use crate::arrow_tree::{field_id, field_id_key, ArrowFieldView};
use crate::error::Error;
use crate::name_mapping::{mapped_id, NameMapping};
use crate::text::{decimal_text, decimal_text_reads_back, integer_text, texts};
use arrow_schema::{Field, Schema as ArrowSchema};
use std::sync::Arc;
use vstd::prelude::*;

verus! {

/// `field` with `id` written under its field-id key; as it is where there is no id.
pub open spec fn with_id(field: ArrowFieldView, id: Option<i32>) -> ArrowFieldView {
    match id {
        Some(id) => ArrowFieldView {
            metadata: field.metadata.insert(field_id_key(), decimal_text(id as int)),
            ..field
        },
        None => field,
    }
}

/// `fields`, each with its id from `ids` where there is one.
pub open spec fn with_ids(fields: Seq<ArrowFieldView>, ids: Seq<Option<i32>>) -> Seq<
    ArrowFieldView,
> {
    Seq::new(fields.len(), |i: int| with_id(fields[i], ids[i]))
}

/// The ids that `mapping` gives to columns of the names `names`.
pub open spec fn mapped_ids(mapping: NameMapping, names: Seq<Seq<char>>) -> Seq<Option<i32>> {
    names.map_values(|name: Seq<char>| mapped_id(mapping.fields@, name))
}

/// The ids that `count` columns get by their positions, from one on.
pub open spec fn positional_ids(count: nat) -> Seq<Option<i32>> {
    Seq::new(count, |i: int| Some((i + 1) as i32))
}

/// The names of fields.
pub open spec fn names_of(fields: Seq<ArrowFieldView>) -> Seq<Seq<char>> {
    fields.map_values(|field: ArrowFieldView| field.name)
}

/// An id that is written to a field reads back as that id. The rest of the field stays as it is.
pub proof fn written_ids_read_back(field: ArrowFieldView, id: i32)
    ensures
        field_id(with_id(field, Some(id))) == Some(id),
        with_id(field, Some(id)).name == field.name,
        with_id(field, Some(id)).data_type == field.data_type,
        with_id(field, Some(id)).nullable == field.nullable,
        with_id(field, Some(id)).metadata.remove(field_id_key()) == field.metadata.remove(
            field_id_key(),
        ),
{
    decimal_text_reads_back(id);
    assert(with_id(field, Some(id)).metadata.remove(field_id_key()) =~= field.metadata.remove(
        field_id_key(),
    ));
}

/// Columns that a name mapping lists with an id carry that id afterwards; the other columns stay as
/// they are. No column is moved, renamed, added or dropped.
pub proof fn name_mapping_gives_ids_by_name(
    fields: Seq<ArrowFieldView>,
    mapping: NameMapping,
    position: int,
)
    requires
        0 <= position < fields.len(),
    ensures
        ({
            let mapped = with_ids(fields, mapped_ids(mapping, names_of(fields)));
            &&& mapped.len() == fields.len()
            &&& names_of(mapped) == names_of(fields)
            &&& match mapped_id(mapping.fields@, fields[position].name) {
                Some(id) => field_id(mapped[position]) == Some(id),
                None => mapped[position] == fields[position],
            }
        }),
{
    let mapped = with_ids(fields, mapped_ids(mapping, names_of(fields)));
    assert(names_of(mapped) =~= names_of(fields));
    if let Some(id) = mapped_id(mapping.fields@, fields[position].name) {
        written_ids_read_back(fields[position], id);
    }
}

/// Looks up the ids of columns by their names. A name that the mapping does not list gets none.
pub fn mapped_field_ids(name_mapping: &NameMapping, names: &Vec<String>) -> (ids: Vec<Option<i32>>)
    ensures
        ids@ == mapped_ids(*name_mapping, texts(names@)),
{
    let mut ids: Vec<Option<i32>> = Vec::new();
    let mut i: usize = 0;
    while i < names.len()
        invariant
            i <= names.len(),
            ids@ =~= mapped_ids(*name_mapping, texts(names@)).take(i as int),
        decreases names.len() - i,
    {
        ids.push(name_mapping.field_id_of(&names[i]));
        i = i + 1;
    }
    assert(ids@ =~= mapped_ids(*name_mapping, texts(names@)));
    ids
}

/// Numbers `count` columns from one on.
pub fn positional_field_ids(count: usize) -> (ids: Vec<Option<i32>>)
    ensures
        ids@ == positional_ids(count as nat),
{
    let mut ids: Vec<Option<i32>> = Vec::new();
    let mut i: usize = 0;
    while i < count
        invariant
            i <= count,
            ids@ =~= positional_ids(count as nat).take(i as int),
        decreases count - i,
    {
        ids.push(Some((i + 1) as i32));
        i = i + 1;
    }
    assert(ids@ =~= positional_ids(count as nat));
    ids
}

/// A copy of `field` with `id` written under its field-id key.
fn field_with_id(field: &Field, id: Option<i32>) -> (new: Field)
    ensures
        arrow_field(new) == with_id(arrow_field(*field), id),
{
    let mut metadata = field_metadata(field);
    match id {
        Some(id) => {
            let ghost before = metadata@;
            metadata.push((field_id_meta_key(), integer_text(id as i128)));
            assert(metadata@.drop_last() =~= before);
        },
        None => {},
    }
    field_with_metadata(field, metadata)
}

/// A copy of `schema` with `ids` written to its top-level fields.
fn schema_with_ids(schema: &ArrowSchema, fields: &Vec<Arc<Field>>, ids: &Vec<Option<i32>>) -> (new:
    ArrowSchema)
    requires
        arrow_field_views(fields@) == arrow_fields(*schema),
        ids@.len() == fields@.len(),
    ensures
        arrow_fields(new) == with_ids(arrow_fields(*schema), ids@),
        arrow_metadata(new) == arrow_metadata(*schema),
{
    let mut copies: Vec<Field> = Vec::new();
    let ghost wanted = with_ids(arrow_fields(*schema), ids@);
    let mut i: usize = 0;
    while i < fields.len()
        invariant
            i <= fields.len(),
            ids@.len() == fields@.len(),
            arrow_field_views(fields@) == arrow_fields(*schema),
            wanted == with_ids(arrow_fields(*schema), ids@),
            owned_field_views(copies@) =~= wanted.take(i as int),
        decreases fields.len() - i,
    {
        let copy = field_with_id(&fields[i], ids[i]);
        assert(arrow_field_views(fields@)[i as int] == arrow_field(*fields@[i as int]));
        let ghost before = copies@;
        copies.push(copy);
        assert(owned_field_views(copies@) =~= owned_field_views(before).push(arrow_field(copy)));
        i = i + 1;
    }
    assert(owned_field_views(copies@) =~= wanted);
    schema_with_fields(schema, copies)
}

/// Gives the top-level columns of a file without field ids the ids that `name_mapping` has for
/// their names. A column that the mapping does not list, or lists without an id, stays as it is;
/// it has no id then, and projection passes it over.
pub fn apply_name_mapping_to_arrow_schema(
    arrow_schema: Arc<ArrowSchema>,
    name_mapping: &NameMapping,
) -> (result: Result<Arc<ArrowSchema>, Error>)
    ensures
        result is Ok,
        arrow_fields(*result->Ok_0) == with_ids(
            arrow_fields(*arrow_schema),
            mapped_ids(*name_mapping, names_of(arrow_fields(*arrow_schema))),
        ),
        arrow_metadata(*result->Ok_0) == arrow_metadata(*arrow_schema),
{
    let fields = schema_fields(&arrow_schema);
    let mut names: Vec<String> = Vec::new();
    let mut i: usize = 0;
    while i < fields.len()
        invariant
            i <= fields.len(),
            arrow_field_views(fields@) == arrow_fields(*arrow_schema),
            texts(names@) =~= names_of(arrow_fields(*arrow_schema)).take(i as int),
        decreases fields.len() - i,
    {
        assert(arrow_field_views(fields@)[i as int] == arrow_field(*fields@[i as int]));
        let ghost before = names@;
        let name = fields[i].name().clone();
        names.push(name);
        assert(texts(names@) =~= texts(before).push(name@));
        i = i + 1;
    }
    assert(texts(names@) =~= names_of(arrow_fields(*arrow_schema)));
    let ids = mapped_field_ids(name_mapping, &names);
    Ok(Arc::new(schema_with_ids(&arrow_schema, &fields, &ids)))
}

/// Gives the top-level columns of a file without field ids their positions, from one on, as ids.
/// Columns inside them get none: a nested column is projected with its top-level column.
pub fn add_fallback_field_ids_to_arrow_schema(arrow_schema: &Arc<ArrowSchema>) -> (new: Arc<
    ArrowSchema,
>)
    ensures
        arrow_fields(*new) == with_ids(
            arrow_fields(**arrow_schema),
            positional_ids(arrow_fields(**arrow_schema).len()),
        ),
        arrow_metadata(*new) == arrow_metadata(**arrow_schema),
{
    let fields = schema_fields(arrow_schema);
    let ids = positional_field_ids(fields.len());
    Arc::new(schema_with_ids(arrow_schema, &fields, &ids))
}

} // verus!
