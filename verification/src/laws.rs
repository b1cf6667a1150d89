//! What holds of projections as a whole.

use crate::arrow_convert::{
    conversion_error, converted_schema_has_its_leaves, fields_convert, found_alike,
    schema_conversion_is_determined,
};
use crate::arrow_file::arrow_fields;
use crate::arrow_tree::{
    field_id, leaf_field_ids, leaf_fields_of_all, pruned_all, pruning_keeps_the_wanted_leaves,
    wanted_by, wanted_leaves, ArrowFieldView,
};
use crate::error::{error_text, Error};
use crate::field_map::{last_position, last_position_is_the_last};
use crate::parquet_file::{leaf_flags, mask_flags, parquet_roots, root_flags, ParquetNodeView};
use crate::projection::{
    expanded, fallback_positions, is_readable, is_shared, is_unpromotable_error, is_variant_error,
    mismatch_text, mismatches, names_variant, positions_of, readable_ids,
};
use crate::reader::{
    checked_fields, column_count, projects, projects_by_ids, projects_with_field_ids,
    selected_leaves, selected_roots,
};
use crate::schema::{contains_variant, leaf_ids, leaves_are_fields, lemma_contains_in_sum, Schema};
use arrow_schema::Schema as ArrowSchema;
use parquet::arrow::ProjectionMask;
use parquet::schema::types::SchemaDescriptor;
use vstd::prelude::*;

pub mod columns;
pub mod file_types;
pub mod filters;
pub mod naming;
pub mod outcome;
pub mod parts;
pub mod untouched;
pub mod without_ids;

verus! {

/// Whether `text` names a leaf with the id `id`, if any, that cannot be read as the table has it.
pub open spec fn names_leaf(text: Seq<char>, id: Option<i32>, table: Schema, file: Schema) -> bool {
    &&& is_shared(id, table, file)
    &&& !is_readable(id, table, file)
    &&& text == mismatch_text(id->0, table.field(id->0)->0, file.field(id->0)->0)
}

/// A leaf that cannot be read as the table has it is named in the error, whichever it is, and no
/// text stands there twice. Nothing else is named.
pub proof fn every_unreadable_leaf_is_named_once(
    ids: Seq<Option<i32>>,
    table: Schema,
    file: Schema,
)
    ensures
        mismatches(ids, table, file).no_duplicates(),
        forall|i: int|
            0 <= i < ids.len() && is_shared(#[trigger] ids[i], table, file) && !is_readable(
                ids[i],
                table,
                file,
            ) ==> mismatches(ids, table, file).contains(
                mismatch_text(
                    ids[i]->0,
                    table.field(ids[i]->0)->0,
                    file.field(ids[i]->0)->0,
                ),
            ),
        forall|text: Seq<char>| #[trigger]
            mismatches(ids, table, file).contains(text) ==> exists|i: int|
                {
                    &&& 0 <= i < ids.len()
                    &&& names_leaf(text, #[trigger] ids[i], table, file)
                },
    decreases ids.len(),
{
    if ids.len() > 0 {
        let shorter = ids.drop_last();
        every_unreadable_leaf_is_named_once(shorter, table, file);
        let before = mismatches(shorter, table, file);
        let now = mismatches(ids, table, file);
        assert forall|i: int|
            0 <= i < ids.len() && is_shared(#[trigger] ids[i], table, file) && !is_readable(
                ids[i],
                table,
                file,
            ) implies now.contains(
            mismatch_text(ids[i]->0, table.field(ids[i]->0)->0, file.field(ids[i]->0)->0),
        ) by {
            let text = mismatch_text(
                ids[i]->0,
                table.field(ids[i]->0)->0,
                file.field(ids[i]->0)->0,
            );
            if i < shorter.len() {
                assert(shorter[i] == ids[i]);
                let k = choose|k: int| 0 <= k < before.len() && before[k] == text;
                assert(now[k] == text);
            } else if !before.contains(text) {
                assert(now[before.len() as int] == text);
            }
        }
        assert forall|text: Seq<char>| #[trigger] now.contains(text) implies exists|i: int|
            {
                &&& 0 <= i < ids.len()
                &&& names_leaf(text, #[trigger] ids[i], table, file)
            } by {
            if before.contains(text) {
                let i = choose|i: int|
                    {
                        &&& 0 <= i < shorter.len()
                        &&& names_leaf(text, #[trigger] shorter[i], table, file)
                    };
                assert(ids[i] == shorter[i]);
            } else {
                let k = choose|k: int| 0 <= k < now.len() && now[k] == text;
                if k < before.len() {
                    assert(before[k] == text);
                }
                assert(is_shared(ids[ids.len() - 1], table, file));
            }
        }
    }
}

/// A column is selected exactly where it carries a wanted id and no later column does.
pub proof fn selection_is_by_id(wanted: Seq<i32>, ids: Seq<Option<i32>>, position: int)
    requires
        ids.len() <= usize::MAX,
        0 <= position < ids.len(),
    ensures
        positions_of(wanted, ids).contains(position as usize) <==> {
            &&& ids[position] is Some
            &&& wanted.contains(ids[position]->0)
            &&& forall|later: int|
                position < later < ids.len() ==> #[trigger] ids[later] != ids[position]
        },
    decreases wanted.len(),
{
    if wanted.len() > 0 {
        selection_is_by_id(wanted.drop_last(), ids, position);
        last_position_is_the_last(ids, wanted.last());
        let before = positions_of(wanted.drop_last(), ids);
        let now = positions_of(wanted, ids);
        let own = ids[position];
        if own is Some && wanted.contains(own->0) && !wanted.drop_last().contains(own->0) {
            let k = choose|k: int| 0 <= k < wanted.len() && wanted[k] == own->0;
            if k < wanted.len() - 1 {
                assert(wanted.drop_last()[k] == own->0);
            }
            assert(wanted.last() == own->0);
        }
        if own is Some && wanted.drop_last().contains(own->0) {
            let k = choose|k: int|
                0 <= k < wanted.len() - 1 && wanted.drop_last()[k] == own->0;
            assert(wanted[k] == own->0);
        }
        if before.contains(position as usize) {
            let k = choose|k: int| 0 <= k < before.len() && before[k] == position as usize;
            assert(now[k] == position as usize);
        }
        if now.contains(position as usize) && !before.contains(position as usize) {
            let k = choose|k: int| 0 <= k < now.len() && now[k] == position as usize;
            if k < before.len() {
                assert(before[k] == position as usize);
            }
            assert(last_position(ids, wanted.last()) == Some(position));
            assert(wanted[wanted.len() - 1] == own->0);
        }
        if last_position(ids, wanted.last()) == Some(position) {
            assert(now[before.len() as int] == position as usize);
        }
    }
}

/// A position comes out exactly where a wanted id leads to it.
pub(crate) proof fn lemma_selected(wanted: Seq<i32>, ids: Seq<Option<i32>>, position: usize)
    ensures
        positions_of(wanted, ids).contains(position) <==> exists|k: int|
            {
                &&& 0 <= k < wanted.len()
                &&& last_position(ids, #[trigger] wanted[k]) is Some
                &&& last_position(ids, wanted[k])->0 as usize == position
            },
        positions_of(wanted, ids).len() == 0 <==> forall|k: int|
            0 <= k < wanted.len() ==> last_position(ids, #[trigger] wanted[k]) is None,
    decreases wanted.len(),
{
    if wanted.len() > 0 {
        let shorter = wanted.drop_last();
        lemma_selected(shorter, ids, position);
        let before = positions_of(shorter, ids);
        let now = positions_of(wanted, ids);
        assert forall|k: int| 0 <= k < shorter.len() implies #[trigger] shorter[k] == wanted[k] by {
        }
        assert forall|k: int| 0 <= k < shorter.len() implies shorter[k] == #[trigger] wanted[k] by {
        }
        assert(wanted[wanted.len() - 1] == wanted.last());
        if before.contains(position) {
            let k = choose|k: int| 0 <= k < before.len() && before[k] == position;
            assert(now[k] == position);
        }
        if now.contains(position) && !before.contains(position) {
            let k = choose|k: int| 0 <= k < now.len() && now[k] == position;
            if k < before.len() {
                assert(before[k] == position);
            }
        }
        if last_position(ids, wanted.last()) is Some {
            assert(now[before.len() as int] == last_position(ids, wanted.last())->0 as usize);
        }
    }
}

/// Two requests that lead to the same positions for the same ids select the same columns.
proof fn lemma_same_selection(
    first: Seq<i32>,
    first_ids: Seq<Option<i32>>,
    second: Seq<i32>,
    second_ids: Seq<Option<i32>>,
    count: nat,
)
    requires
        first.to_set() == second.to_set(),
        forall|id: i32| #[trigger]
            first.contains(id) ==> last_position(first_ids, id) == last_position(second_ids, id),
    ensures
        selected_leaves(count, positions_of(first, first_ids)) == selected_leaves(
            count,
            positions_of(second, second_ids),
        ),
{
    assert forall|id: i32| first.contains(id) <==> #[trigger] second.contains(id) by {
        assert(first.contains(id) <==> first.to_set().contains(id));
        assert(second.contains(id) <==> second.to_set().contains(id));
    }
    let one = positions_of(first, first_ids);
    let other = positions_of(second, second_ids);
    assert forall|position: usize| one.contains(position) <==> other.contains(position) by {
        lemma_selected(first, first_ids, position);
        lemma_selected(second, second_ids, position);
        if one.contains(position) {
            let k = choose|k: int|
                {
                    &&& 0 <= k < first.len()
                    &&& last_position(first_ids, #[trigger] first[k]) is Some
                    &&& last_position(first_ids, first[k])->0 as usize == position
                };
            assert(first.contains(first[k]));
            assert(second.contains(first[k]));
            let j = choose|j: int| 0 <= j < second.len() && second[j] == first[k];
            assert(last_position(second_ids, second[j]) is Some);
        }
        if other.contains(position) {
            let k = choose|k: int|
                {
                    &&& 0 <= k < second.len()
                    &&& last_position(second_ids, #[trigger] second[k]) is Some
                    &&& last_position(second_ids, second[k])->0 as usize == position
                };
            assert(second.contains(second[k]));
            assert(first.contains(second[k]));
            let j = choose|j: int| 0 <= j < first.len() && first[j] == second[k];
            assert(last_position(first_ids, first[j]) is Some);
        }
    }
    if one.len() > 0 {
        assert(one.contains(one[0]));
    }
    if other.len() > 0 {
        assert(other.contains(other[0]));
    }
    assert(leaf_flags(count, one) =~= leaf_flags(count, other));
}

/// Where two sequences hold an id at the same positions, they hold it last at the same one.
proof fn lemma_same_last_position(first: Seq<Option<i32>>, second: Seq<Option<i32>>, id: i32)
    requires
        first.len() == second.len(),
        forall|i: int|
            0 <= i < first.len() ==> (#[trigger] first[i] == Some(id) <==> second[i] == Some(id)),
    ensures
        last_position(first, id) == last_position(second, id),
    decreases first.len(),
{
    if first.len() > 0 {
        assert forall|i: int| 0 <= i < first.len() - 1 implies (#[trigger] first.drop_last()[i]
            == Some(id) <==> second.drop_last()[i] == Some(id)) by {
            assert(first.drop_last()[i] == first[i]);
        }
        assert(first[first.len() - 1] == first.last());
        lemma_same_last_position(first.drop_last(), second.drop_last(), id);
    }
}

proof fn lemma_wanted_leaf_is_kept(
    leaves: Seq<ArrowFieldView>,
    ids: Set<i32>,
    leaf: ArrowFieldView,
)
    requires
        leaves.contains(leaf),
        wanted_by(leaf, ids),
    ensures
        wanted_leaves(leaves, ids).contains(leaf),
    decreases leaves.len(),
{
    let before = wanted_leaves(leaves.drop_last(), ids);
    let now = wanted_leaves(leaves, ids);
    if leaves.last() == leaf {
        assert(now[before.len() as int] == leaf);
    } else {
        let k = choose|k: int| 0 <= k < leaves.len() && leaves[k] == leaf;
        assert(leaves.drop_last()[k] == leaf);
        lemma_wanted_leaf_is_kept(leaves.drop_last(), ids, leaf);
        let j = choose|j: int| 0 <= j < before.len() && before[j] == leaf;
        assert(now[j] == leaf);
    }
}

/// A leaf that a scan reads or filters on is in the schema by which its type is checked.
pub proof fn checked_leaves_have_types(
    fields: Seq<ArrowFieldView>,
    checked: Set<i32>,
    file: &Schema,
    position: int,
    id: i32,
)
    requires
        fields_convert(pruned_all(fields, checked), file.fields@),
        0 <= position < leaf_field_ids(fields).len(),
        leaf_field_ids(fields)[position] == Some(id),
        checked.contains(id),
    ensures
        file.field(id) is Some,
{
    let leaves = leaf_fields_of_all(fields);
    let leaf = leaves[position];
    assert(leaves.contains(leaf));
    lemma_wanted_leaf_is_kept(leaves, checked, leaf);
    pruning_keeps_the_wanted_leaves(fields, checked);
    converted_schema_has_its_leaves(pruned_all(fields, checked), file.fields@, leaf, id);
}

/// Whether a leaf that a scan reads or filters on is in the file at a type at which it can be read.
/// A field that is no field of the table does not count.
pub open spec fn checked_leaves_are_readable(
    ids: Seq<Option<i32>>,
    checked: Set<i32>,
    table: Schema,
    file: Schema,
) -> bool {
    forall|i: int|
        0 <= i < ids.len() && #[trigger] ids[i] is Some && checked.contains(ids[i]->0)
            && table.field(ids[i]->0) is Some ==> is_readable(ids[i], table, file)
}

/// Without mismatches every checked leaf is readable.
pub(crate) proof fn lemma_no_mismatch(
    fields: Seq<ArrowFieldView>,
    checked: Set<i32>,
    table: Schema,
    file: Schema,
)
    requires
        fields_convert(pruned_all(fields, checked), file.fields@),
        mismatches(leaf_field_ids(fields), table, file).len() == 0,
    ensures
        checked_leaves_are_readable(leaf_field_ids(fields), checked, table, file),
{
    let ids = leaf_field_ids(fields);
    every_unreadable_leaf_is_named_once(ids, table, file);
    assert forall|i: int|
        0 <= i < ids.len() && #[trigger] ids[i] is Some && checked.contains(ids[i]->0)
            && table.field(ids[i]->0) is Some implies is_readable(ids[i], table, file) by {
        checked_leaves_have_types(fields, checked, &file, i, ids[i]->0);
    }
}

/// A projection by field ids that succeeds has checked every leaf that it reads and every leaf that
/// the filter reads: each is in the file at a type at which the table can read it, or it is not in
/// the file at all.
pub proof fn success_means_readable(
    mask: ProjectionMask,
    wanted: Seq<i32>,
    predicate_ids: Seq<i32>,
    table: Schema,
    parquet_schema: SchemaDescriptor,
    arrow_schema: ArrowSchema,
)
    requires
        projects_with_field_ids(
            Ok(mask),
            wanted,
            predicate_ids,
            table,
            parquet_schema,
            arrow_schema,
        ),
    ensures
        exists|file: Schema|
            {
                &&& #[trigger] fields_convert(
                    checked_fields(arrow_fields(arrow_schema), wanted, predicate_ids),
                    file.fields@,
                )
                &&& checked_leaves_are_readable(
                    leaf_field_ids(arrow_fields(arrow_schema)),
                    wanted.to_set().union(predicate_ids.to_set()),
                    table,
                    file,
                )
            },
{
    let fields = arrow_fields(arrow_schema);
    let checked = checked_fields(fields, wanted, predicate_ids);
    let file = choose|file: Schema|
        {
            &&& #[trigger] fields_convert(checked, file.fields@)
            &&& projects_by_ids(
                Ok(mask),
                wanted,
                leaf_field_ids(fields),
                table,
                file,
                column_count(parquet_schema),
            )
        };
    lemma_no_mismatch(fields, wanted.to_set().union(predicate_ids.to_set()), table, file);
}

/// A leaf that is in the file at a type at which the table cannot read it makes the projection
/// fail, and the error names it, whether the leaf is to be read or only to be filtered on. It is
/// never taken for a missing column.
pub proof fn unreadable_leaves_are_refused(
    result: Result<ProjectionMask, Error>,
    wanted: Seq<i32>,
    predicate_ids: Seq<i32>,
    table: Schema,
    parquet_schema: SchemaDescriptor,
    arrow_schema: ArrowSchema,
    file: Schema,
    position: int,
)
    requires
        projects_with_field_ids(
            result,
            wanted,
            predicate_ids,
            table,
            parquet_schema,
            arrow_schema,
        ),
        ({
            let checked = checked_fields(arrow_fields(arrow_schema), wanted, predicate_ids);
            &&& conversion_error(checked) is None
            &&& fields_convert(checked, file.fields@)
        }),
        ({
            let ids = leaf_field_ids(arrow_fields(arrow_schema));
            &&& 0 <= position < ids.len()
            &&& ids[position] is Some
            &&& wanted.contains(ids[position]->0) || predicate_ids.contains(ids[position]->0)
            &&& table.field(ids[position]->0) is Some
            &&& !is_readable(ids[position], table, file)
        }),
    ensures
        ({
            let ids = leaf_field_ids(arrow_fields(arrow_schema));
            let id = ids[position]->0;
            let bad = mismatches(ids, table, file);
            &&& result matches Err(error)
            &&& is_unpromotable_error(error, bad)
            &&& bad.contains(mismatch_text(id, table.field(id)->0, file.field(id)->0))
        }),
{
    let fields = arrow_fields(arrow_schema);
    let checked = checked_fields(fields, wanted, predicate_ids);
    let ids = leaf_field_ids(fields);
    let id = ids[position]->0;
    let all = wanted.to_set().union(predicate_ids.to_set());
    assert(all.contains(id));
    checked_leaves_have_types(fields, all, &file, position, id);
    every_unreadable_leaf_is_named_once(ids, table, file);
    let own = choose|own: Schema|
        {
            &&& #[trigger] fields_convert(checked, own.fields@)
            &&& projects_by_ids(
                result,
                wanted,
                ids,
                table,
                own,
                column_count(parquet_schema),
            )
        };
    lemma_alike_files(checked, ids, table, own, file);
}

/// Two schemas for the same Arrow fields make no difference to a projection.
pub(crate) proof fn lemma_alike_files(
    checked: Seq<ArrowFieldView>,
    ids: Seq<Option<i32>>,
    table: Schema,
    first: Schema,
    second: Schema,
)
    requires
        fields_convert(checked, first.fields@),
        fields_convert(checked, second.fields@),
    ensures
        mismatches(ids, table, first) == mismatches(ids, table, second),
        readable_ids(ids, table, first) == readable_ids(ids, table, second),
{
    assert forall|id: i32| found_alike(#[trigger] first.field(id), second.field(id)) by {
        schema_conversion_is_determined(checked, first.fields@, second.fields@, id);
    }
    assert forall|id: Option<i32>| #[trigger]
        is_readable(id, table, first) == is_readable(id, table, second) by {
        if id is Some {
            assert(found_alike(first.field(id->0), second.field(id->0)));
        }
    }
    lemma_alike_mismatches(ids, table, first, second);
    assert(readable_ids(ids, table, first) =~= readable_ids(ids, table, second));
}

proof fn lemma_alike_mismatches(
    ids: Seq<Option<i32>>,
    table: Schema,
    first: Schema,
    second: Schema,
)
    requires
        forall|id: i32| found_alike(#[trigger] first.field(id), second.field(id)),
    ensures
        mismatches(ids, table, first) == mismatches(ids, table, second),
    decreases ids.len(),
{
    if ids.len() > 0 {
        lemma_alike_mismatches(ids.drop_last(), table, first, second);
        if ids.last() is Some {
            assert(found_alike(first.field(ids.last()->0), second.field(ids.last()->0)));
        }
    }
}

/// A leaf is requested exactly where it is a leaf of a field that is requested.
pub(crate) proof fn lemma_requested(ids: Seq<i32>, table: &Schema, leaf: i32)
    ensures
        expanded(ids, *table).contains(leaf) <==> exists|k: int|
            {
                &&& 0 <= k < ids.len()
                &&& table.field(#[trigger] ids[k]) is Some
                &&& leaf_ids(table.field(ids[k])->0).contains(leaf)
            },
    decreases ids.len(),
{
    if ids.len() > 0 {
        let shorter = ids.drop_last();
        lemma_requested(shorter, table, leaf);
        assert forall|k: int| 0 <= k < shorter.len() implies #[trigger] shorter[k] == ids[k] by {}
        assert forall|k: int| 0 <= k < shorter.len() implies shorter[k] == #[trigger] ids[k] by {}
        assert(ids[ids.len() - 1] == ids.last());
        lemma_contains_in_sum(leaf);
    }
}

/// Every leaf that a request comes to is a field of the table.
pub proof fn requested_leaves_are_fields(ids: Seq<i32>, table: &Schema, leaf: i32)
    requires
        expanded(ids, *table).contains(leaf),
    ensures
        table.field(leaf) is Some,
{
    lemma_requested(ids, table, leaf);
    let k = choose|k: int|
        {
            &&& 0 <= k < ids.len()
            &&& table.field(#[trigger] ids[k]) is Some
            &&& leaf_ids(table.field(ids[k])->0).contains(leaf)
        };
    leaves_are_fields(table, ids[k], leaf);
}

/// A projection that succeeds selects, of the requested leaves, exactly those that the file has,
/// and every column where it has none of them.
pub proof fn success_selects_what_is_there(
    mask: ProjectionMask,
    field_ids: Seq<i32>,
    predicate_ids: Seq<i32>,
    table: Schema,
    parquet_schema: SchemaDescriptor,
    arrow_schema: ArrowSchema,
)
    requires
        projects(Ok(mask), field_ids, predicate_ids, table, parquet_schema, arrow_schema, false),
    ensures
        mask_flags(mask) == selected_leaves(
            column_count(parquet_schema),
            positions_of(
                expanded(field_ids, table),
                leaf_field_ids(arrow_fields(arrow_schema)),
            ),
        ),
{
    if field_ids.len() > 0 || predicate_ids.len() > 0 {
        let wanted = expanded(field_ids, table);
        let filtered = expanded(predicate_ids, table);
        let fields = arrow_fields(arrow_schema);
        let ids = leaf_field_ids(fields);
        let all = wanted.to_set().union(filtered.to_set());
        let file = choose|file: Schema|
            {
                &&& #[trigger] fields_convert(
                    checked_fields(fields, wanted, filtered),
                    file.fields@,
                )
                &&& projects_by_ids(
                    Ok(mask),
                    wanted,
                    ids,
                    table,
                    file,
                    column_count(parquet_schema),
                )
            };
        lemma_no_mismatch(fields, all, table, file);
        let good = readable_ids(ids, table, file);
        assert forall|id: i32| #[trigger] wanted.contains(id) implies last_position(good, id)
            == last_position(ids, id) by {
            assert(wanted.to_set().contains(id));
            requested_leaves_are_fields(field_ids, &table, id);
            assert forall|i: int| 0 <= i < good.len() implies (#[trigger] good[i] == Some(id)
                <==> ids[i] == Some(id)) by {
                assert(ids[i] == Some(id) ==> is_readable(ids[i], table, file));
            }
            lemma_same_last_position(good, ids, id);
        }
        lemma_same_selection(wanted, good, wanted, ids, column_count(parquet_schema));
    }
}

/// What a filter reads makes no difference to the columns that a projection selects.
pub proof fn filters_do_not_select(
    first: ProjectionMask,
    second: ProjectionMask,
    field_ids: Seq<i32>,
    first_predicate_ids: Seq<i32>,
    second_predicate_ids: Seq<i32>,
    table: Schema,
    parquet_schema: SchemaDescriptor,
    arrow_schema: ArrowSchema,
    use_fallback: bool,
)
    requires
        projects(
            Ok(first),
            field_ids,
            first_predicate_ids,
            table,
            parquet_schema,
            arrow_schema,
            use_fallback,
        ),
        projects(
            Ok(second),
            field_ids,
            second_predicate_ids,
            table,
            parquet_schema,
            arrow_schema,
            use_fallback,
        ),
    ensures
        mask_flags(first) == mask_flags(second),
{
    if !use_fallback {
        success_selects_what_is_there(
            first,
            field_ids,
            first_predicate_ids,
            table,
            parquet_schema,
            arrow_schema,
        );
        success_selects_what_is_there(
            second,
            field_ids,
            second_predicate_ids,
            table,
            parquet_schema,
            arrow_schema,
        );
    }
}

/// A projection onto a variant, or onto a field with a variant somewhere in it, is refused,
/// whatever the file, the filter and the way of projecting. Nothing else is refused that way; a
/// filter may read a variant.
pub proof fn variants_are_refused(
    result: Result<ProjectionMask, Error>,
    field_ids: Seq<i32>,
    predicate_ids: Seq<i32>,
    table: Schema,
    parquet_schema: SchemaDescriptor,
    arrow_schema: ArrowSchema,
    use_fallback: bool,
)
    requires
        projects(
            result,
            field_ids,
            predicate_ids,
            table,
            parquet_schema,
            arrow_schema,
            use_fallback,
        ),
    ensures
        names_variant(field_ids, table) <==> (result matches Err(error) && is_variant_error(error)),
{
    reveal_strlit("Reading variant columns is not supported yet");
    reveal_strlit("Parquet file column types cannot be promoted to the projected schema types: ");
    if !names_variant(field_ids, table) {
        if let Err(error) = result {
            if is_variant_error(error) {
                assert(error.message@[0] == 'R');
            }
        }
    }
}

/// Where a file has none of the leaves of the fields that are requested or filtered on, the
/// projection succeeds and reads every column.
pub proof fn absent_columns_are_no_error(
    result: Result<ProjectionMask, Error>,
    field_ids: Seq<i32>,
    predicate_ids: Seq<i32>,
    table: Schema,
    parquet_schema: SchemaDescriptor,
    arrow_schema: ArrowSchema,
)
    requires
        projects(
            result,
            field_ids,
            predicate_ids,
            table,
            parquet_schema,
            arrow_schema,
            false,
        ),
        !names_variant(field_ids, table),
        forall|i: int|
            0 <= i < leaf_field_ids(arrow_fields(arrow_schema)).len()
                && #[trigger] leaf_field_ids(arrow_fields(arrow_schema))[i] is Some ==> {
                let id = leaf_field_ids(arrow_fields(arrow_schema))[i]->0;
                &&& !expanded(field_ids, table).contains(id)
                &&& !expanded(predicate_ids, table).contains(id)
            },
    ensures
        result is Ok,
        mask_flags(result->Ok_0) is None,
{
    let wanted = expanded(field_ids, table);
    let filtered = expanded(predicate_ids, table);
    let fields = arrow_fields(arrow_schema);
    let ids = leaf_field_ids(fields);
    let all = wanted.to_set().union(filtered.to_set());
    let checked = pruned_all(fields, all);
    pruning_keeps_the_wanted_leaves(fields, all);
    assert forall|i: int| 0 <= i < ids.len() implies !wanted_by(
        #[trigger] leaf_fields_of_all(fields)[i],
        all,
    ) by {
        assert(ids[i] == field_id(leaf_fields_of_all(fields)[i]));
    }
    lemma_nothing_wanted(leaf_fields_of_all(fields), all);
    if field_ids.len() > 0 || predicate_ids.len() > 0 {
        assert(conversion_error(checked) is None);
        let file = choose|file: Schema|
            {
                &&& #[trigger] fields_convert(checked, file.fields@)
                &&& projects_by_ids(
                    result,
                    wanted,
                    ids,
                    table,
                    file,
                    column_count(parquet_schema),
                )
            };
        assert forall|id: i32| #[trigger] file.field(id) is None by {
            assert(file.fields@.len() == 0);
        }
        every_unreadable_leaf_is_named_once(ids, table, file);
        if mismatches(ids, table, file).len() > 0 {
            assert(mismatches(ids, table, file).contains(mismatches(ids, table, file)[0]));
        }
        let good = readable_ids(ids, table, file);
        assert forall|k: int| 0 <= k < wanted.len() implies last_position(
            good,
            #[trigger] wanted[k],
        ) is None by {
            last_position_is_the_last(good, wanted[k]);
        }
        lemma_selected(wanted, good, 0);
    }
}

pub(crate) proof fn lemma_nothing_wanted(leaves: Seq<ArrowFieldView>, ids: Set<i32>)
    requires
        forall|i: int| 0 <= i < leaves.len() ==> !wanted_by(#[trigger] leaves[i], ids),
    ensures
        wanted_leaves(leaves, ids).len() == 0,
    decreases leaves.len(),
{
    if leaves.len() > 0 {
        assert(!wanted_by(leaves[leaves.len() - 1], ids));
        assert forall|i: int| 0 <= i < leaves.len() - 1 implies !wanted_by(
            #[trigger] leaves.drop_last()[i],
            ids,
        ) by {
            assert(leaves.drop_last()[i] == leaves[i]);
        }
        lemma_nothing_wanted(leaves.drop_last(), ids);
    }
}

/// Whether two projections came to the same: masks of the same columns, or errors of the same kind
/// that read the same.
pub open spec fn same_answer(
    first: Result<ProjectionMask, Error>,
    second: Result<ProjectionMask, Error>,
) -> bool {
    match (first, second) {
        (Ok(one), Ok(other)) => mask_flags(one) == mask_flags(other),
        (Err(one), Err(other)) => {
            &&& one.kind == other.kind
            &&& one.message@ == other.message@
            &&& error_text(one) == error_text(other)
        },
        _ => false,
    }
}

/// The order in which fields are requested or filtered on does not matter, nor how often.
pub proof fn order_and_repetition_do_not_matter(
    first: Result<ProjectionMask, Error>,
    second: Result<ProjectionMask, Error>,
    first_ids: Seq<i32>,
    second_ids: Seq<i32>,
    first_predicate_ids: Seq<i32>,
    second_predicate_ids: Seq<i32>,
    table: Schema,
    parquet_schema: SchemaDescriptor,
    arrow_schema: ArrowSchema,
    use_fallback: bool,
)
    requires
        first_ids.to_set() == second_ids.to_set(),
        first_predicate_ids.to_set() == second_predicate_ids.to_set(),
        projects(
            first,
            first_ids,
            first_predicate_ids,
            table,
            parquet_schema,
            arrow_schema,
            use_fallback,
        ),
        projects(
            second,
            second_ids,
            second_predicate_ids,
            table,
            parquet_schema,
            arrow_schema,
            use_fallback,
        ),
    ensures
        same_answer(first, second),
{
    lemma_same_members(first_ids, second_ids);
    lemma_same_members(first_predicate_ids, second_predicate_ids);
    lemma_same_variants(first_ids, second_ids, table);
    lemma_same_variants(second_ids, first_ids, table);
    let roots = parquet_roots(parquet_schema);
    let fields = arrow_fields(arrow_schema);
    if first_ids.len() == 0 && first_predicate_ids.len() == 0 {
    } else if names_variant(first_ids, table) {
    } else if use_fallback {
        lemma_same_fallback(first_ids, second_ids, roots);
    } else {
        let wanted = expanded(first_ids, table);
        let other_wanted = expanded(second_ids, table);
        let filtered = expanded(first_predicate_ids, table);
        let other_filtered = expanded(second_predicate_ids, table);
        lemma_same_leaves(first_ids, second_ids, &table);
        lemma_same_leaves(first_predicate_ids, second_predicate_ids, &table);
        assert(checked_fields(fields, wanted, filtered) == checked_fields(
            fields,
            other_wanted,
            other_filtered,
        ));
        lemma_same_outcome(
            first,
            second,
            wanted,
            other_wanted,
            filtered,
            other_filtered,
            table,
            parquet_schema,
            arrow_schema,
            arrow_schema,
        );
    }
}

/// Projections that want the same leaves, check the same fields and find the same ids come to the
/// same.
pub(crate) proof fn lemma_same_outcome(
    first: Result<ProjectionMask, Error>,
    second: Result<ProjectionMask, Error>,
    wanted: Seq<i32>,
    other_wanted: Seq<i32>,
    filtered: Seq<i32>,
    other_filtered: Seq<i32>,
    table: Schema,
    parquet_schema: SchemaDescriptor,
    arrow_schema: ArrowSchema,
    other_arrow_schema: ArrowSchema,
)
    requires
        projects_with_field_ids(first, wanted, filtered, table, parquet_schema, arrow_schema),
        projects_with_field_ids(
            second,
            other_wanted,
            other_filtered,
            table,
            parquet_schema,
            other_arrow_schema,
        ),
        wanted.to_set() == other_wanted.to_set(),
        checked_fields(arrow_fields(arrow_schema), wanted, filtered) == checked_fields(
            arrow_fields(other_arrow_schema),
            other_wanted,
            other_filtered,
        ),
        leaf_field_ids(arrow_fields(arrow_schema)) == leaf_field_ids(
            arrow_fields(other_arrow_schema),
        ),
    ensures
        same_answer(first, second),
{
    reveal_with_fuel(error_text, 2);
    let checked = checked_fields(arrow_fields(arrow_schema), wanted, filtered);
    let ids = leaf_field_ids(arrow_fields(arrow_schema));
    let count = column_count(parquet_schema);
    if conversion_error(checked) is None {
        let file = choose|file: Schema|
            {
                &&& #[trigger] fields_convert(checked, file.fields@)
                &&& projects_by_ids(first, wanted, ids, table, file, count)
            };
        let other_file = choose|file: Schema|
            {
                &&& #[trigger] fields_convert(checked, file.fields@)
                &&& projects_by_ids(second, other_wanted, ids, table, file, count)
            };
        lemma_alike_files(checked, ids, table, file, other_file);
        let good = readable_ids(ids, table, file);
        lemma_same_selection(wanted, good, other_wanted, good, count);
    }
}

proof fn lemma_same_members(first: Seq<i32>, second: Seq<i32>)
    requires
        first.to_set() == second.to_set(),
    ensures
        forall|id: i32| #[trigger] first.contains(id) <==> second.contains(id),
        forall|id: i32| first.contains(id) <==> #[trigger] second.contains(id),
        first.len() == 0 <==> second.len() == 0,
{
    assert forall|id: i32| #[trigger] first.contains(id) <==> second.contains(id) by {
        assert(first.contains(id) <==> first.to_set().contains(id));
        assert(second.contains(id) <==> second.to_set().contains(id));
    }
    if first.len() > 0 {
        assert(first.contains(first[0]));
        assert(second.contains(first[0]));
    }
    if second.len() > 0 {
        assert(second.contains(second[0]));
        assert(first.contains(second[0]));
    }
}

proof fn lemma_same_variants(first: Seq<i32>, second: Seq<i32>, table: Schema)
    requires
        forall|id: i32| #[trigger] first.contains(id) ==> second.contains(id),
    ensures
        names_variant(first, table) ==> names_variant(second, table),
{
    if names_variant(first, table) {
        let i = choose|i: int|
            0 <= i < first.len() && table.field(#[trigger] first[i]) is Some && contains_variant(
                *table.field(first[i])->0.field_type,
            );
        assert(first.contains(first[i]));
        let k = choose|k: int| 0 <= k < second.len() && second[k] == first[i];
        assert(table.field(second[k]) is Some);
    }
}

proof fn lemma_same_leaves(first: Seq<i32>, second: Seq<i32>, table: &Schema)
    requires
        forall|id: i32| #[trigger] first.contains(id) <==> second.contains(id),
        forall|id: i32| first.contains(id) <==> #[trigger] second.contains(id),
    ensures
        expanded(first, *table).to_set() == expanded(second, *table).to_set(),
{
    assert forall|leaf: i32| expanded(first, *table).contains(leaf) <==> #[trigger] expanded(
        second,
        *table,
    ).contains(leaf) by {
        lemma_requested(first, table, leaf);
        lemma_requested(second, table, leaf);
        if expanded(first, *table).contains(leaf) {
            let i = choose|i: int|
                {
                    &&& 0 <= i < first.len()
                    &&& table.field(#[trigger] first[i]) is Some
                    &&& leaf_ids(table.field(first[i])->0).contains(leaf)
                };
            assert(first.contains(first[i]));
            let k = choose|k: int| 0 <= k < second.len() && second[k] == first[i];
            assert(table.field(second[k]) is Some);
        }
        if expanded(second, *table).contains(leaf) {
            let i = choose|i: int|
                {
                    &&& 0 <= i < second.len()
                    &&& table.field(#[trigger] second[i]) is Some
                    &&& leaf_ids(table.field(second[i])->0).contains(leaf)
                };
            assert(second.contains(second[i]));
            let k = choose|k: int| 0 <= k < first.len() && first[k] == second[i];
            assert(table.field(first[k]) is Some);
        }
    }
    assert(expanded(first, *table).to_set() =~= expanded(second, *table).to_set());
}

/// By position, a top-level column is selected exactly where the id after its position is
/// requested.
pub proof fn fallback_selects_by_position(ids: Seq<i32>, count: nat, position: usize)
    ensures
        fallback_positions(ids, count).contains(position) <==> position < count && exists|k: int|
            0 <= k < ids.len() && #[trigger] ids[k] == position + 1,
    decreases ids.len(),
{
    if ids.len() > 0 {
        let shorter = ids.drop_last();
        fallback_selects_by_position(shorter, count, position);
        let before = fallback_positions(shorter, count);
        let now = fallback_positions(ids, count);
        assert forall|k: int| 0 <= k < shorter.len() implies #[trigger] shorter[k] == ids[k] by {}
        assert forall|k: int| 0 <= k < shorter.len() implies shorter[k] == #[trigger] ids[k] by {}
        assert(ids[ids.len() - 1] == ids.last());
        if before.contains(position) {
            let k = choose|k: int| 0 <= k < before.len() && before[k] == position;
            assert(now[k] == position);
        }
        if now.contains(position) && !before.contains(position) {
            let k = choose|k: int| 0 <= k < now.len() && now[k] == position;
            if k < before.len() {
                assert(before[k] == position);
            }
        }
        if position < count && ids.last() == position + 1 {
            assert(now[before.len() as int] == position);
        }
    }
}

proof fn lemma_same_fallback(first: Seq<i32>, second: Seq<i32>, roots: Seq<ParquetNodeView>)
    requires
        forall|id: i32| #[trigger] first.contains(id) <==> second.contains(id),
        forall|id: i32| first.contains(id) <==> #[trigger] second.contains(id),
    ensures
        selected_roots(roots, fallback_positions(first, roots.len())) == selected_roots(
            roots,
            fallback_positions(second, roots.len()),
        ),
{
    let one = fallback_positions(first, roots.len());
    let other = fallback_positions(second, roots.len());
    assert forall|position: usize| one.contains(position) <==> other.contains(position) by {
        fallback_selects_by_position(first, roots.len(), position);
        fallback_selects_by_position(second, roots.len(), position);
        if one.contains(position) {
            let k = choose|k: int| 0 <= k < first.len() && #[trigger] first[k] == position + 1;
            assert(first.contains(first[k]));
            let j = choose|j: int| 0 <= j < second.len() && second[j] == first[k];
            assert(second[j] == position + 1);
        }
        if other.contains(position) {
            let k = choose|k: int| 0 <= k < second.len() && #[trigger] second[k] == position + 1;
            assert(second.contains(second[k]));
            let j = choose|j: int| 0 <= j < first.len() && first[j] == second[k];
            assert(first[j] == position + 1);
        }
    }
    if one.len() > 0 {
        assert(one.contains(one[0]));
    }
    if other.len() > 0 {
        assert(other.contains(other[0]));
    }
    assert(root_flags(roots, one) =~= root_flags(roots, other));
}

} // verus!
