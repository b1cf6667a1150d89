//! Files without field ids: names and positions lead to the columns that they stand for.

use crate::arrow_tree::{
    field_id, is_leaf, leaf_field_ids, leaf_fields, leaf_fields_of_all, ArrowFieldView,
};
use crate::field_ids::{
    mapped_ids, names_of, positional_ids, with_id, with_ids, written_ids_read_back,
};
use crate::field_map::{
    fallback_map, fallback_map_is_by_position, lemma_position_map_push, position_map,
};
use crate::laws::fallback_selects_by_position;
use crate::name_mapping::{lists_name, mapped_id, MappedField, NameMapping};
use crate::parquet_file::{column_ids, column_ids_of_all, root_flags, ParquetNodeView};
use crate::projection::fallback_positions;
use crate::text::{parsed_i32, texts};
use vstd::prelude::*;

verus! {

/// Whether the top-level fields of an Arrow schema line up with the top-level nodes of a file, and
/// no nested leaf carries an id.
pub open spec fn lines_up(fields: Seq<ArrowFieldView>, roots: Seq<ParquetNodeView>) -> bool {
    &&& fields.len() == roots.len()
    &&& forall|i: int|
        0 <= i < fields.len() ==> {
            &&& leaf_fields(#[trigger] fields[i]).len() == column_ids(roots[i]).len()
            &&& roots[i] is Primitive <==> is_leaf(fields[i])
        }
    &&& forall|i: int, k: int|
        0 <= i < fields.len() && !is_leaf(fields[i]) && 0 <= k < leaf_fields(fields[i]).len()
            ==> field_id(#[trigger] leaf_fields(fields[i])[k]) is None
}

/// The ids that the fallback writes to an Arrow schema lead to the same columns as the fallback map
/// of its file.
pub proof fn fallback_ids_and_map_agree(
    fields: Seq<ArrowFieldView>,
    roots: Seq<ParquetNodeView>,
)
    requires
        lines_up(fields, roots),
        column_ids_of_all(roots).len() <= usize::MAX,
    ensures
        position_map(leaf_field_ids(with_ids(fields, positional_ids(fields.len()))))
            == fallback_map(roots),
        leaf_field_ids(with_ids(fields, positional_ids(fields.len()))).len() == column_ids_of_all(
            roots,
        ).len(),
    decreases fields.len(),
{
    let numbered = with_ids(fields, positional_ids(fields.len()));
    let ids = leaf_field_ids(numbered);
    if fields.len() == 0 {
        assert(ids =~= seq![]);
        lemma_position_map_push(seq![], None);
    } else {
        let before = fields.drop_last();
        let last = fields.last();
        let count = fields.len() as int;
        assert(lines_up(before, roots.drop_last())) by {
            assert forall|i: int| 0 <= i < before.len() implies #[trigger] before[i]
                == fields[i] by {}
        }
        fallback_ids_and_map_agree(before, roots.drop_last());
        let numbered_before = with_ids(before, positional_ids(before.len()));
        assert(numbered.drop_last() =~= numbered_before);
        let own = with_id(last, Some(count as i32));
        assert(numbered.last() == own);
        written_ids_read_back(last, count as i32);
        let ids_before = leaf_field_ids(numbered_before);
        assert(leaf_fields(fields[count - 1]).len() == column_ids(roots[count - 1]).len());
        if is_leaf(last) {
            assert(leaf_fields(own) =~= seq![own]);
            assert(leaf_fields(last) =~= seq![last]);
            assert(ids =~= ids_before.push(Some(count as i32)));
            lemma_position_map_push(ids_before, Some(count as i32));
        } else {
            assert(leaf_fields(own) == leaf_fields(last));
            let more = Seq::new(leaf_fields(last).len(), |k: int| None::<i32>);
            assert forall|k: int| 0 <= k < more.len() implies field_id(
                #[trigger] leaf_fields(last)[k],
            ) is None by {
                assert(leaf_fields(fields[count - 1])[k] == leaf_fields(last)[k]);
            }
            assert(ids =~= ids_before + more);
            lemma_no_more_ids(ids_before, more);
        }
    }
}

proof fn lemma_no_more_ids(ids: Seq<Option<i32>>, more: Seq<Option<i32>>)
    requires
        forall|k: int| 0 <= k < more.len() ==> #[trigger] more[k] is None,
    ensures
        position_map(ids + more) == position_map(ids),
    decreases more.len(),
{
    if more.len() == 0 {
        assert(ids + more =~= ids);
    } else {
        lemma_no_more_ids(ids, more.drop_last());
        assert((ids + more).drop_last() =~= ids + more.drop_last());
        assert(more[more.len() - 1] is None);
        assert(position_map(ids + more) =~= position_map(ids + more.drop_last()));
    }
}

/// A file without field ids: a mask by position selects, for each requested id, the column to which
/// the fallback map takes that id.
pub proof fn fallback_mask_and_map_agree(roots: Seq<ParquetNodeView>, ids: Seq<i32>, id: i32)
    requires
        roots.len() <= i32::MAX,
        column_ids_of_all(roots).len() <= usize::MAX,
        ids.contains(id),
        fallback_map(roots).contains_key(id),
    ensures
        root_flags(roots, fallback_positions(ids, roots.len()))[fallback_map(roots)[id] as int],
{
    fallback_map_is_by_position(roots, id);
    fallback_selects_by_position(ids, roots.len(), (id - 1) as usize);
    let k = choose|k: int| 0 <= k < ids.len() && ids[k] == id;
    assert(ids[k] == (id - 1) as usize + 1);
}

/// Ids do not move leaves: a column without children stays the leaf that it was.
proof fn lemma_leaves_stay(fields: Seq<ArrowFieldView>, ids: Seq<Option<i32>>, position: int)
    requires
        ids.len() == fields.len(),
        0 <= position < fields.len(),
    ensures
        leaf_fields_of_all(with_ids(fields, ids)).len() == leaf_fields_of_all(fields).len(),
        is_leaf(fields[position]) ==> {
            let leaf = leaf_fields_of_all(fields.take(position)).len() as int;
            &&& leaf < leaf_fields_of_all(fields).len()
            &&& leaf_fields_of_all(with_ids(fields, ids))[leaf] == with_id(
                fields[position],
                ids[position],
            )
        },
    decreases fields.len(),
{
    let before = fields.drop_last();
    let ids_before = ids.drop_last();
    assert(with_ids(fields, ids).drop_last() =~= with_ids(before, ids_before));
    let last = fields.last();
    let own = with_id(last, ids.last());
    assert(with_ids(fields, ids).last() == own);
    if is_leaf(last) {
        assert(leaf_fields(own) =~= seq![own]);
        assert(leaf_fields(last) =~= seq![last]);
    } else {
        assert(leaf_fields(own) == leaf_fields(last));
    }
    if before.len() == 0 {
        assert(with_ids(before, ids_before) =~= before);
        assert(fields.take(position) =~= before);
    } else {
        let inner = if position < before.len() {
            position
        } else {
            0
        };
        lemma_leaves_stay(before, ids_before, inner);
        if position < before.len() {
            assert(before.take(position) =~= fields.take(position));
            assert(before[position] == fields[position]);
            assert(ids_before[position] == ids[position]);
        } else {
            assert(fields.take(position) =~= before);
        }
    }
}

/// A column that a name mapping lists is the leaf that carries the id of its name, wherever in the
/// file it stands. Columns are not taken for one another by position.
pub proof fn mapped_ids_lead_to_named_columns(
    fields: Seq<ArrowFieldView>,
    mapping: NameMapping,
    position: int,
    id: i32,
)
    requires
        0 <= position < fields.len(),
        is_leaf(fields[position]),
        mapped_id(mapping.fields@, fields[position].name) == Some(id),
    ensures
        ({
            let ids = leaf_field_ids(with_ids(fields, mapped_ids(mapping, names_of(fields))));
            let leaf = leaf_fields_of_all(fields.take(position)).len() as int;
            &&& ids.len() == leaf_fields_of_all(fields).len()
            &&& leaf < ids.len()
            &&& ids[leaf] == Some(id)
        }),
{
    lemma_leaves_stay(fields, mapped_ids(mapping, names_of(fields)), position);
    written_ids_read_back(fields[position], id);
}

/// Whether the mapped field at `position` has `name` among its names, and none before it has.
pub open spec fn is_first_with_name(
    fields: Seq<MappedField>,
    position: int,
    name: Seq<char>,
) -> bool {
    &&& 0 <= position < fields.len()
    &&& texts(fields[position].names@).contains(name)
    &&& forall|earlier: int|
        0 <= earlier < position ==> !texts(#[trigger] fields[earlier].names@).contains(name)
}

proof fn lemma_lists_name(field: MappedField, name: Seq<char>)
    ensures
        lists_name(field, name) <==> texts(field.names@).contains(name),
{
    if lists_name(field, name) {
        let k = choose|k: int| 0 <= k < field.names@.len() && (#[trigger] field.names@[k])@ == name;
        assert(texts(field.names@)[k] == name);
    }
    if texts(field.names@).contains(name) {
        let k = choose|k: int|
            0 <= k < texts(field.names@).len() && texts(field.names@)[k] == name;
        assert(field.names@[k]@ == name);
    }
}

/// A name has the id of the first top-level mapped field that has the name, whatever fields are
/// nested in it or in those before it; and none where no top-level mapped field has the name.
pub proof fn names_are_looked_up_at_the_top(fields: Seq<MappedField>, name: Seq<char>)
    ensures
        forall|position: int| #[trigger]
            is_first_with_name(fields, position, name) ==> mapped_id(fields, name)
                == fields[position].field_id,
        (forall|k: int|
            0 <= k < fields.len() ==> !texts(#[trigger] fields[k].names@).contains(name))
            ==> mapped_id(fields, name) is None,
        mapped_id(fields, name) is Some ==> exists|position: int| #[trigger]
            is_first_with_name(fields, position, name),
    decreases fields.len(),
{
    if fields.len() > 0 {
        let rest = fields.skip(1);
        names_are_looked_up_at_the_top(rest, name);
        lemma_lists_name(fields[0], name);
        assert forall|k: int| 0 <= k < rest.len() implies #[trigger] rest[k] == fields[k + 1] by {}
        assert forall|position: int| #[trigger]
            is_first_with_name(fields, position, name) implies mapped_id(fields, name)
            == fields[position].field_id by {
            if position > 0 {
                assert(!texts(fields[0].names@).contains(name));
                assert(is_first_with_name(rest, position - 1, name)) by {
                    assert(rest[position - 1] == fields[position]);
                    assert forall|earlier: int| 0 <= earlier < position - 1 implies !texts(
                        #[trigger] rest[earlier].names@,
                    ).contains(name) by {
                        assert(!texts(fields[earlier + 1].names@).contains(name));
                    }
                }
            }
        }
        if lists_name(fields[0], name) {
            assert(is_first_with_name(fields, 0, name));
        } else {
            if forall|k: int|
                0 <= k < fields.len() ==> !texts(#[trigger] fields[k].names@).contains(name) {
                assert forall|k: int| 0 <= k < rest.len() implies !texts(
                    #[trigger] rest[k].names@,
                ).contains(name) by {
                    assert(!texts(fields[k + 1].names@).contains(name));
                }
            }
            if mapped_id(fields, name) is Some {
                let position = choose|position: int| #[trigger]
                    is_first_with_name(rest, position, name);
                assert(is_first_with_name(fields, position + 1, name)) by {
                    assert(rest[position] == fields[position + 1]);
                    assert forall|earlier: int| 0 <= earlier < position + 1 implies !texts(
                        #[trigger] fields[earlier].names@,
                    ).contains(name) by {
                        if earlier > 0 {
                            assert(rest[earlier - 1] == fields[earlier]);
                        }
                    }
                }
            }
        }
    }
}

/// The fields nested in mapped fields make no difference to a top-level column.
pub proof fn nested_mappings_do_not_matter(
    first: Seq<MappedField>,
    second: Seq<MappedField>,
    name: Seq<char>,
)
    requires
        first.len() == second.len(),
        forall|k: int|
            0 <= k < first.len() ==> (#[trigger] first[k]).field_id == second[k].field_id
                && texts(first[k].names@) == texts(second[k].names@),
    ensures
        mapped_id(first, name) == mapped_id(second, name),
{
    names_are_looked_up_at_the_top(first, name);
    names_are_looked_up_at_the_top(second, name);
    if mapped_id(first, name) is Some {
        let position = choose|position: int| #[trigger] is_first_with_name(first, position, name);
        assert(is_first_with_name(second, position, name)) by {
            assert(first[position].field_id == second[position].field_id);
            assert forall|earlier: int| 0 <= earlier < position implies !texts(
                #[trigger] second[earlier].names@,
            ).contains(name) by {
                assert(!texts(first[earlier].names@).contains(name));
            }
        }
        assert(first[position].field_id == second[position].field_id);
    }
    if mapped_id(second, name) is Some {
        let position = choose|position: int| #[trigger] is_first_with_name(second, position, name);
        assert(is_first_with_name(first, position, name)) by {
            assert(first[position].field_id == second[position].field_id);
            assert forall|earlier: int| 0 <= earlier < position implies !texts(
                #[trigger] first[earlier].names@,
            ).contains(name) by {
                assert(!texts(second[earlier].names@).contains(name));
            }
        }
        assert(first[position].field_id == second[position].field_id);
    }
}

/// Whether `after` is `before` but for the id that it carries.
pub open spec fn same_but_for_its_id(before: ArrowFieldView, after: ArrowFieldView) -> bool {
    &&& after.name == before.name
    &&& after.data_type == before.data_type
    &&& after.nullable == before.nullable
    &&& after.metadata.remove("PARQUET:field_id"@) == before.metadata.remove("PARQUET:field_id"@)
}

/// What a name mapping does to the columns of a file: a column whose name the first top-level
/// mapped field with that name has an id for carries that id afterwards; every other column is as
/// it was. Names, types, nullability, other metadata and the order of columns stay.
pub proof fn columns_get_the_ids_of_their_names(
    before: Seq<ArrowFieldView>,
    after: Seq<ArrowFieldView>,
    mapping: NameMapping,
    position: int,
)
    requires
        after == with_ids(before, mapped_ids(mapping, names_of(before))),
        0 <= position < before.len(),
    ensures
        after.len() == before.len(),
        same_but_for_its_id(before[position], after[position]),
        forall|k: int| #[trigger]
            is_first_with_name(mapping.fields@, k, before[position].name) ==> match mapping.fields@[
                k
            ].field_id {
                Some(id) => field_id(after[position]) == Some(id),
                None => after[position] == before[position],
            },
        (forall|k: int|
            0 <= k < mapping.fields@.len() ==> !texts(
                #[trigger] mapping.fields@[k].names@,
            ).contains(before[position].name)) ==> after[position] == before[position],
{
    let name = before[position].name;
    names_are_looked_up_at_the_top(mapping.fields@, name);
    assert(names_of(before)[position] == name);
    let id = mapped_id(mapping.fields@, name);
    assert(after[position] == with_id(before[position], id));
    if let Some(id) = id {
        written_ids_read_back(before[position], id);
    }
}

/// What the fallback does to the columns of a file: each carries its position, counted from one,
/// and stays as it was otherwise.
pub proof fn columns_get_the_ids_of_their_positions(
    before: Seq<ArrowFieldView>,
    after: Seq<ArrowFieldView>,
    position: int,
)
    requires
        after == with_ids(before, positional_ids(before.len())),
        0 <= position < before.len(),
        position < i32::MAX,
    ensures
        after.len() == before.len(),
        same_but_for_its_id(before[position], after[position]),
        field_id(after[position]) == Some((position + 1) as i32),
{
    let id = (position + 1) as i32;
    assert(after[position] == with_id(before[position], Some(id)));
    written_ids_read_back(before[position], id);
}

/// A field carries an id exactly where it has a text under the key for ids, and the text is a
/// number that an id can be.
pub proof fn ids_are_numbers_in_metadata(field: ArrowFieldView)
    ensures
        field_id(field) is Some ==> field.metadata.contains_key("PARQUET:field_id"@),
        field.metadata.contains_key("PARQUET:field_id"@) ==> field_id(field) == parsed_i32(
            field.metadata["PARQUET:field_id"@],
        ),
{
}

} // verus!
