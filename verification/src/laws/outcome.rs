//! What comes of a projection, in terms of what is requested, what the table has and what the file
//! has.

use crate::arrow_convert::{conversion_error, fields_convert, reports};
use crate::arrow_file::arrow_fields;
use crate::arrow_tree::{leaf_field_ids, pruned_all};
use crate::error::Error;
use crate::field_map::{holds_last, last_position_is_the_last};
use crate::laws::naming::{carried_around_all, named_leaves_are_checked};
use crate::laws::parts::{
    has_leaf, has_variant, leaves_are_the_parts_without_parts, variants_are_found_wherever_they_are,
};
use crate::laws::{
    checked_leaves_have_types, every_unreadable_leaf_is_named_once, fallback_selects_by_position,
    lemma_alike_files, lemma_no_mismatch, lemma_requested, lemma_selected, names_leaf,
    requested_leaves_are_fields, selection_is_by_id, success_selects_what_is_there,
    variants_are_refused,
};
use crate::parquet_file::{
    column_ids_of_all, mask_flags, parquet_roots, root_of_column, ParquetNodeView,
};
use crate::projection::{
    expanded, fallback_positions, is_readable, is_shared, mismatch_text, mismatches, names_variant,
    positions_are_in_range, positions_of, readable_ids,
};
use crate::promotion::promotable;
use crate::reader::{
    checked_fields, column_count, projects, projects_by_ids, projects_with_field_ids,
};
use crate::schema::{contains_variant, leaf_ids, type_text, PrimitiveType, Schema, Type};
use crate::text::{decimal_text, joined};
use arrow_schema::Schema as ArrowSchema;
use parquet::arrow::ProjectionMask;
use parquet::schema::types::SchemaDescriptor;
use vstd::prelude::*;

verus! {

/// Whether a column of the type `file` is read as the type `table`: as its own type, an `int` as a
/// `long`, a `float` as a `double`, a decimal as one of the same scale and no fewer digits, and
/// sixteen bytes as a uuid.
pub open spec fn reads_as(file: Type, table: Type) -> bool {
    match (file, table) {
        (Type::Primitive(file), Type::Primitive(table)) => match table {
            PrimitiveType::Long => file is Long || file is Int,
            PrimitiveType::Double => file is Double || file is Float,
            PrimitiveType::Decimal { precision, scale } => match file {
                PrimitiveType::Decimal { precision: digits, scale: own } => {
                    own == scale && digits <= precision
                },
                _ => false,
            },
            PrimitiveType::Uuid => file is Uuid || file == PrimitiveType::Fixed(16),
            _ => file == table,
        },
        _ => false,
    }
}

/// Promotion, by what each table type can be read from.
pub proof fn promotions_are_the_listed_ones(file: PrimitiveType, table: PrimitiveType)
    ensures
        promotable(file, table) <==> reads_as(Type::Primitive(file), Type::Primitive(table)),
{
}

/// Whether one of the fields that `ids` name in `table` is, or has somewhere in it, a field without
/// parts that has the id `leaf`.
pub open spec fn asks_for(ids: Seq<i32>, table: Schema, leaf: i32) -> bool {
    exists|k: int|
        {
            &&& 0 <= k < ids.len()
            &&& table.field(#[trigger] ids[k]) matches Some(field)
            &&& has_leaf(field, leaf)
        }
}

/// A request comes to exactly the leaves of the fields that it names.
pub proof fn requests_come_to_leaves(ids: Seq<i32>, table: &Schema, leaf: i32)
    ensures
        expanded(ids, *table).contains(leaf) <==> asks_for(ids, *table, leaf),
{
    lemma_requested(ids, table, leaf);
    if expanded(ids, *table).contains(leaf) {
        let k = choose|k: int|
            {
                &&& 0 <= k < ids.len()
                &&& table.field(#[trigger] ids[k]) is Some
                &&& leaf_ids(table.field(ids[k])->0).contains(leaf)
            };
        leaves_are_the_parts_without_parts(&table.field(ids[k])->0, leaf);
    }
    if asks_for(ids, *table, leaf) {
        let k = choose|k: int|
            {
                &&& 0 <= k < ids.len()
                &&& table.field(#[trigger] ids[k]) matches Some(field)
                &&& has_leaf(field, leaf)
            };
        leaves_are_the_parts_without_parts(&table.field(ids[k])->0, leaf);
    }
}

/// Requests made one after another come to the leaves of the one and then those of the other.
pub proof fn requests_add_up(first: Seq<i32>, second: Seq<i32>, table: &Schema)
    ensures
        expanded(first + second, *table) == expanded(first, *table) + expanded(second, *table),
    decreases second.len(),
{
    if second.len() == 0 {
        assert(first + second =~= first);
        assert(expanded(first, *table) + expanded(second, *table) =~= expanded(first, *table));
    } else {
        requests_add_up(first, second.drop_last(), table);
        assert((first + second).drop_last() =~= first + second.drop_last());
        assert(expanded(first + second, *table) =~= expanded(first, *table) + expanded(
            second,
            *table,
        ));
    }
}

/// A request for one field comes to the leaves of that field, and to nothing where the table has no
/// such field.
pub proof fn a_request_comes_to_the_leaves_of_its_field(id: i32, table: &Schema)
    ensures
        expanded(seq![id], *table) == (match table.field(id) {
            Some(field) => leaf_ids(field),
            None => seq![],
        }),
{
    assert(seq![id].drop_last() =~= seq![]);
    assert(expanded(seq![id].drop_last(), *table) =~= seq![]);
}

/// The ids of the leaves that a scan touches: those that it reads and those that it filters on.
pub open spec fn touched(field_ids: Seq<i32>, predicate_ids: Seq<i32>, table: Schema) -> Set<i32> {
    Set::new(|id: i32| asks_for(field_ids, table, id) || asks_for(predicate_ids, table, id))
}

proof fn lemma_touched(field_ids: Seq<i32>, predicate_ids: Seq<i32>, table: &Schema)
    ensures
        touched(field_ids, predicate_ids, *table) == expanded(field_ids, *table).to_set().union(
            expanded(predicate_ids, *table).to_set(),
        ),
{
    let wanted = expanded(field_ids, *table);
    let filtered = expanded(predicate_ids, *table);
    let all = wanted.to_set().union(filtered.to_set());
    assert forall|id: i32| touched(field_ids, predicate_ids, *table).contains(id) <==> #[trigger]
        all.contains(id) by {
        requests_come_to_leaves(field_ids, table, id);
        requests_come_to_leaves(predicate_ids, table, id);
    }
    assert(touched(field_ids, predicate_ids, *table) =~= all);
}

/// Where nothing is requested and nothing filtered on, every column is read.
pub proof fn no_request_reads_everything(
    result: Result<ProjectionMask, Error>,
    table: Schema,
    parquet_schema: SchemaDescriptor,
    arrow_schema: ArrowSchema,
    use_fallback: bool,
)
    requires
        projects(result, seq![], seq![], table, parquet_schema, arrow_schema, use_fallback),
    ensures
        result is Ok,
        mask_flags(result->Ok_0) is None,
{
}

/// A projection is refused for a variant exactly where a requested field is a variant or has one
/// somewhere in it.
pub proof fn requests_for_variants_are_refused(
    result: Result<ProjectionMask, Error>,
    field_ids: Seq<i32>,
    predicate_ids: Seq<i32>,
    table: Schema,
    parquet_schema: SchemaDescriptor,
    arrow_schema: ArrowSchema,
    use_fallback: bool,
)
    requires
        projects(
            result,
            field_ids,
            predicate_ids,
            table,
            parquet_schema,
            arrow_schema,
            use_fallback,
        ),
    ensures
        (exists|k: int|
            {
                &&& 0 <= k < field_ids.len()
                &&& table.field(#[trigger] field_ids[k]) matches Some(field)
                &&& has_variant(field)
            }) <==> {
            &&& result matches Err(error)
            &&& error.kind is FeatureUnsupported
            &&& error.message@ == "Reading variant columns is not supported yet"@
            &&& error.source is None
        },
{
    variants_are_refused(
        result,
        field_ids,
        predicate_ids,
        table,
        parquet_schema,
        arrow_schema,
        use_fallback,
    );
    lemma_variants_requested(field_ids, table);
}

/// Whether one of the fields that `ids` name in `table` is, or has somewhere in it, a variant.
pub open spec fn asks_for_variant(ids: Seq<i32>, table: Schema) -> bool {
    exists|k: int|
        {
            &&& 0 <= k < ids.len()
            &&& table.field(#[trigger] ids[k]) matches Some(field)
            &&& has_variant(field)
        }
}

proof fn lemma_variants_requested(ids: Seq<i32>, table: Schema)
    ensures
        names_variant(ids, table) <==> asks_for_variant(ids, table),
{
    if names_variant(ids, table) {
        let k = choose|k: int|
            0 <= k < ids.len() && table.field(#[trigger] ids[k]) is Some && contains_variant(
                *table.field(ids[k])->0.field_type,
            );
        variants_are_found_wherever_they_are(&table.field(ids[k])->0);
    }
    if asks_for_variant(ids, table) {
        let k = choose|k: int|
            {
                &&& 0 <= k < ids.len()
                &&& table.field(#[trigger] ids[k]) matches Some(field)
                &&& has_variant(field)
            };
        variants_are_found_wherever_they_are(&table.field(ids[k])->0);
    }
}

/// Where a projection by field ids succeeds, each leaf of the file that the scan touches is a field
/// of the table, and has in the file a type that is read as the type in the table, whatever else is
/// true of the two fields.
pub proof fn success_reads_each_leaf_as_the_table_has_it(
    mask: ProjectionMask,
    field_ids: Seq<i32>,
    predicate_ids: Seq<i32>,
    table: Schema,
    parquet_schema: SchemaDescriptor,
    arrow_schema: ArrowSchema,
    file: Schema,
    position: int,
    id: i32,
)
    requires
        projects(Ok(mask), field_ids, predicate_ids, table, parquet_schema, arrow_schema, false),
        fields_convert(
            pruned_all(arrow_fields(arrow_schema), touched(field_ids, predicate_ids, table)),
            file.fields@,
        ),
        0 <= position < leaf_field_ids(arrow_fields(arrow_schema)).len(),
        leaf_field_ids(arrow_fields(arrow_schema))[position] == Some(id),
        asks_for(field_ids, table, id) || asks_for(predicate_ids, table, id),
    ensures
        file.field(id) is Some,
        table.field(id) is Some,
        reads_as(*file.field(id)->0.field_type, *table.field(id)->0.field_type),
{
    let fields = arrow_fields(arrow_schema);
    let ids = leaf_field_ids(fields);
    let wanted = expanded(field_ids, table);
    let filtered = expanded(predicate_ids, table);
    let all = touched(field_ids, predicate_ids, table);
    lemma_touched(field_ids, predicate_ids, &table);
    requests_come_to_leaves(field_ids, &table, id);
    requests_come_to_leaves(predicate_ids, &table, id);
    assert(all.contains(id));
    checked_leaves_have_types(fields, all, &file, position, id);
    if wanted.contains(id) {
        requested_leaves_are_fields(field_ids, &table, id);
    } else {
        requested_leaves_are_fields(predicate_ids, &table, id);
    }
    let checked = checked_fields(fields, wanted, filtered);
    let own = choose|own: Schema|
        {
            &&& #[trigger] fields_convert(checked, own.fields@)
            &&& projects_by_ids(
                Ok(mask),
                wanted,
                ids,
                table,
                own,
                column_count(parquet_schema),
            )
        };
    lemma_alike_files(checked, ids, table, own, file);
    lemma_no_mismatch(fields, all, table, file);
    assert(is_readable(ids[position], table, file));
}

/// Whether `message` has `text` somewhere in it.
pub open spec fn says(message: Seq<char>, text: Seq<char>) -> bool {
    exists|at: int|
        0 <= at <= message.len() - text.len() && #[trigger] message.subrange(at, at + text.len())
            == text
}

proof fn lemma_joined_says(pieces: Seq<Seq<char>>, separator: Seq<char>, k: int)
    requires
        0 <= k < pieces.len(),
    ensures
        says(joined(pieces, separator), pieces[k]),
    decreases pieces.len(),
{
    let message = joined(pieces, separator);
    let text = pieces[k];
    if pieces.len() == 1 {
        assert(message.subrange(0int, 0int + text.len()) =~= text);
    } else {
        let before = joined(pieces.drop_last(), separator);
        if k < pieces.len() - 1 {
            lemma_joined_says(pieces.drop_last(), separator, k);
            let at = choose|at: int|
                0 <= at <= before.len() - text.len() && #[trigger] before.subrange(
                    at,
                    at + text.len(),
                ) == text;
            assert(message.subrange(at, at + text.len()) =~= text);
        } else {
            let at = (before + separator).len() as int;
            assert(message.subrange(at, at + text.len()) =~= text);
        }
    }
}

/// Texts that are joined read as the first of them joined, a separator, and the rest joined.
pub proof fn joined_texts_read_one_after_another(
    first: Seq<Seq<char>>,
    second: Seq<Seq<char>>,
    separator: Seq<char>,
)
    requires
        first.len() > 0,
        second.len() > 0,
    ensures
        first.len() == 1 ==> joined(first, separator) == first[0],
        joined(first + second, separator) == joined(first, separator) + separator + joined(
            second,
            separator,
        ),
    decreases second.len(),
{
    assert((first + second).last() == second.last());
    if second.len() == 1 {
        assert((first + second).drop_last() =~= first);
        assert(second[0] == second.last());
    } else {
        joined_texts_read_one_after_another(first, second.drop_last(), separator);
        assert((first + second).drop_last() =~= first + second.drop_last());
        assert(joined(first + second, separator) =~= joined(first, separator) + separator + joined(
            second,
            separator,
        ));
    }
}

/// Where a leaf of the file that the scan touches has in the file a type that is not read as the
/// type in the table, the projection fails, and the message says of that leaf its id, the name in
/// the table and both types.
pub proof fn a_leaf_that_cannot_be_read_is_refused(
    result: Result<ProjectionMask, Error>,
    field_ids: Seq<i32>,
    predicate_ids: Seq<i32>,
    table: Schema,
    parquet_schema: SchemaDescriptor,
    arrow_schema: ArrowSchema,
    file: Schema,
    position: int,
    id: i32,
)
    requires
        projects(result, field_ids, predicate_ids, table, parquet_schema, arrow_schema, false),
        !asks_for_variant(field_ids, table),
        ({
            let checked = pruned_all(
                arrow_fields(arrow_schema),
                touched(field_ids, predicate_ids, table),
            );
            &&& conversion_error(checked) is None
            &&& fields_convert(checked, file.fields@)
        }),
        0 <= position < leaf_field_ids(arrow_fields(arrow_schema)).len(),
        leaf_field_ids(arrow_fields(arrow_schema))[position] == Some(id),
        asks_for(field_ids, table, id) || asks_for(predicate_ids, table, id),
        !reads_as(*file.field(id)->0.field_type, *table.field(id)->0.field_type),
    ensures
        result matches Err(error) && {
            &&& error.kind is FeatureUnsupported
            &&& says(
                error.message@,
                "Parquet file column types cannot be promoted to the projected schema types: "@,
            )
            &&& says(
                error.message@,
                "field "@ + decimal_text(id as int) + " ("@ + table.field(id)->0.name@
                    + "): file type "@ + type_text(*file.field(id)->0.field_type)
                    + ", projected type "@ + type_text(*table.field(id)->0.field_type),
            )
        },
{
    let fields = arrow_fields(arrow_schema);
    let ids = leaf_field_ids(fields);
    let wanted = expanded(field_ids, table);
    let filtered = expanded(predicate_ids, table);
    let all = touched(field_ids, predicate_ids, table);
    lemma_touched(field_ids, predicate_ids, &table);
    lemma_variants_requested(field_ids, table);
    requests_come_to_leaves(field_ids, &table, id);
    requests_come_to_leaves(predicate_ids, &table, id);
    assert(all.contains(id));
    checked_leaves_have_types(fields, all, &file, position, id);
    if wanted.contains(id) {
        requested_leaves_are_fields(field_ids, &table, id);
    } else {
        requested_leaves_are_fields(predicate_ids, &table, id);
    }
    let checked = checked_fields(fields, wanted, filtered);
    let own = choose|own: Schema|
        {
            &&& #[trigger] fields_convert(checked, own.fields@)
            &&& projects_by_ids(result, wanted, ids, table, own, column_count(parquet_schema))
        };
    lemma_alike_files(checked, ids, table, own, file);
    every_unreadable_leaf_is_named_once(ids, table, file);
    let bad = mismatches(ids, table, file);
    assert(is_shared(ids[position], table, file));
    let text = mismatch_text(id, table.field(id)->0, file.field(id)->0);
    assert(bad.contains(text));
    let k = choose|k: int| 0 <= k < bad.len() && bad[k] == text;
    lemma_joined_says(bad, "; "@, k);
    if let Err(error) = result {
        let start = "Parquet file column types cannot be promoted to the projected schema types: "@;
        let list = joined(bad, "; "@);
        assert(error.message@ == start + list);
        assert(error.message@.subrange(0int, 0int + start.len()) =~= start);
        let at = choose|at: int|
            0 <= at <= list.len() - text.len() && #[trigger] list.subrange(at, at + text.len())
                == text;
        assert(error.message@.subrange(start.len() + at, start.len() + at + text.len()) =~= text);
    }
}

/// Where no requested field holds a variant and the touched leaves can be converted, a projection
/// by field ids succeeds if each leaf that the scan touches is read as the type in the table, and
/// no leaf shares an id with a field around the touched leaves.
pub proof fn what_can_be_read_is_not_refused(
    result: Result<ProjectionMask, Error>,
    field_ids: Seq<i32>,
    predicate_ids: Seq<i32>,
    table: Schema,
    parquet_schema: SchemaDescriptor,
    arrow_schema: ArrowSchema,
    file: Schema,
)
    requires
        projects(result, field_ids, predicate_ids, table, parquet_schema, arrow_schema, false),
        !asks_for_variant(field_ids, table),
        ({
            let checked = pruned_all(
                arrow_fields(arrow_schema),
                touched(field_ids, predicate_ids, table),
            );
            &&& conversion_error(checked) is None
            &&& fields_convert(checked, file.fields@)
        }),
        forall|i: int|
            0 <= i < leaf_field_ids(arrow_fields(arrow_schema)).len()
                && #[trigger] leaf_field_ids(arrow_fields(arrow_schema))[i] is Some ==> {
                let id = leaf_field_ids(arrow_fields(arrow_schema))[i]->0;
                &&& asks_for(field_ids, table, id) || asks_for(predicate_ids, table, id)
                    ==> reads_as(*file.field(id)->0.field_type, *table.field(id)->0.field_type)
                &&& !carried_around_all(
                    pruned_all(
                        arrow_fields(arrow_schema),
                        touched(field_ids, predicate_ids, table),
                    ),
                    id,
                )
            },
    ensures
        result is Ok,
{
    let fields = arrow_fields(arrow_schema);
    let ids = leaf_field_ids(fields);
    let all = touched(field_ids, predicate_ids, table);
    lemma_touched(field_ids, predicate_ids, &table);
    lemma_variants_requested(field_ids, table);
    if field_ids.len() > 0 || predicate_ids.len() > 0 {
        let wanted = expanded(field_ids, table);
        let filtered = expanded(predicate_ids, table);
        let checked = checked_fields(fields, wanted, filtered);
        let own = choose|own: Schema|
            {
                &&& #[trigger] fields_convert(checked, own.fields@)
                &&& projects_by_ids(result, wanted, ids, table, own, column_count(parquet_schema))
            };
        lemma_alike_files(checked, ids, table, own, file);
        let bad = mismatches(ids, table, file);
        if bad.len() > 0 {
            assert(bad.contains(bad[0]));
            named_leaves_are_checked(fields, all, table, file, bad[0]);
            let i = choose|i: int|
                {
                    &&& 0 <= i < leaf_field_ids(fields).len()
                    &&& names_leaf(bad[0], #[trigger] leaf_field_ids(fields)[i], table, file)
                    &&& all.contains(leaf_field_ids(fields)[i]->0) || carried_around_all(
                        pruned_all(fields, all),
                        leaf_field_ids(fields)[i]->0,
                    )
                };
        }
    }
}

/// Where the touched leaves of a file cannot be converted, a projection by field ids reports why.
pub proof fn what_cannot_be_converted_is_refused(
    result: Result<ProjectionMask, Error>,
    field_ids: Seq<i32>,
    predicate_ids: Seq<i32>,
    table: Schema,
    parquet_schema: SchemaDescriptor,
    arrow_schema: ArrowSchema,
)
    requires
        projects(result, field_ids, predicate_ids, table, parquet_schema, arrow_schema, false),
        field_ids.len() > 0 || predicate_ids.len() > 0,
        !asks_for_variant(field_ids, table),
    ensures
        conversion_error(
            pruned_all(arrow_fields(arrow_schema), touched(field_ids, predicate_ids, table)),
        ) matches Some(reason) ==> (result matches Err(error) && reports(error, reason)),
{
    lemma_touched(field_ids, predicate_ids, &table);
    lemma_variants_requested(field_ids, table);
}

/// Whether the leaf at `column` is to be read: a requested leaf has its id, and no later leaf
/// carries that id.
pub open spec fn is_to_be_read(
    ids: Seq<Option<i32>>,
    field_ids: Seq<i32>,
    table: Schema,
    column: int,
) -> bool {
    &&& 0 <= column < ids.len()
    &&& ids[column] matches Some(id)
    &&& asks_for(field_ids, table, id)
    &&& holds_last(ids, id, column)
}

/// The mask of a projection by field ids, column by column. What the filter reads is not in it.
/// Where the file has no requested leaf, the mask selects every column.
pub proof fn the_mask_selects_requested_leaves(
    mask: ProjectionMask,
    field_ids: Seq<i32>,
    predicate_ids: Seq<i32>,
    table: Schema,
    parquet_schema: SchemaDescriptor,
    arrow_schema: ArrowSchema,
)
    requires
        projects(Ok(mask), field_ids, predicate_ids, table, parquet_schema, arrow_schema, false),
        leaf_field_ids(arrow_fields(arrow_schema)).len() <= usize::MAX,
        column_count(parquet_schema) <= usize::MAX,
    ensures
        ({
            let ids = leaf_field_ids(arrow_fields(arrow_schema));
            match mask_flags(mask) {
                None => forall|i: int|
                    0 <= i < ids.len() && #[trigger] ids[i] is Some ==> !asks_for(
                        field_ids,
                        table,
                        ids[i]->0,
                    ),
                Some(flags) => {
                    &&& flags.len() == column_count(parquet_schema)
                    &&& forall|column: int|
                        0 <= column < flags.len() ==> (#[trigger] flags[column] <==> is_to_be_read(
                            ids,
                            field_ids,
                            table,
                            column,
                        ))
                    &&& exists|i: int|
                        0 <= i < ids.len() && #[trigger] ids[i] is Some && asks_for(
                            field_ids,
                            table,
                            ids[i]->0,
                        )
                },
            }
        }),
{
    let ids = leaf_field_ids(arrow_fields(arrow_schema));
    let wanted = expanded(field_ids, table);
    let positions = positions_of(wanted, ids);
    success_selects_what_is_there(
        mask,
        field_ids,
        predicate_ids,
        table,
        parquet_schema,
        arrow_schema,
    );
    assert forall|id: i32| #[trigger] wanted.contains(id) <==> asks_for(field_ids, table, id) by {
        requests_come_to_leaves(field_ids, &table, id);
    }
    assert forall|i: int| 0 <= i < ids.len() && #[trigger] ids[i] is Some implies (wanted.contains(
        ids[i]->0,
    ) <==> asks_for(field_ids, table, ids[i]->0)) by {}
    positions_are_in_range(wanted, ids);
    lemma_selected(wanted, ids, 0);
    if positions.len() == 0 {
        assert forall|i: int| 0 <= i < ids.len() && #[trigger] ids[i] is Some implies !asks_for(
            field_ids,
            table,
            ids[i]->0,
        ) by {
            if wanted.contains(ids[i]->0) {
                let k = choose|k: int| 0 <= k < wanted.len() && wanted[k] == ids[i]->0;
                last_position_is_the_last(ids, wanted[k]);
                assert(ids.contains(Some(wanted[k])));
            }
        }
    } else {
        let flags = mask_flags(mask)->0;
        assert forall|column: int| 0 <= column < flags.len() implies (#[trigger] flags[column]
            <==> is_to_be_read(ids, field_ids, table, column)) by {
            if column < ids.len() {
                selection_is_by_id(wanted, ids, column);
            } else if positions.contains(column as usize) {
                let k = choose|k: int| 0 <= k < positions.len() && positions[k] == column as usize;
                assert(positions[k] < ids.len());
            }
        }
        let first = positions[0] as int;
        assert(positions.contains(positions[0]));
        selection_is_by_id(wanted, ids, first);
        assert(ids[first] is Some && asks_for(field_ids, table, ids[first]->0));
    }
}

/// Whether the column `column` stands under the top-level node at `position`.
pub open spec fn stands_under(roots: Seq<ParquetNodeView>, position: int, column: int) -> bool {
    &&& 0 <= position < roots.len()
    &&& column_ids_of_all(roots.take(position)).len() <= column
    &&& column < column_ids_of_all(roots.take(position + 1)).len()
}

proof fn lemma_stands_under(roots: Seq<ParquetNodeView>, position: int, column: int)
    requires
        stands_under(roots, position, column),
    ensures
        root_of_column(roots, column) == position,
        column < column_ids_of_all(roots).len(),
    decreases roots.len(),
{
    let before = roots.drop_last();
    if position == roots.len() - 1 {
        assert(roots.take(position) =~= before);
        assert(roots.take(position + 1) =~= roots);
    } else {
        assert(before.take(position) =~= roots.take(position));
        assert(before.take(position + 1) =~= roots.take(position + 1));
        lemma_stands_under(before, position, column);
    }
}

/// A projection by position fails for a variant alone, whatever the types in the file and the
/// table. It selects the columns under each top-level node whose position, counted from one, is
/// requested; and every column where there is no such node.
pub proof fn the_mask_selects_requested_positions(
    result: Result<ProjectionMask, Error>,
    field_ids: Seq<i32>,
    predicate_ids: Seq<i32>,
    table: Schema,
    parquet_schema: SchemaDescriptor,
    arrow_schema: ArrowSchema,
)
    requires
        projects(result, field_ids, predicate_ids, table, parquet_schema, arrow_schema, true),
        !asks_for_variant(field_ids, table),
        parquet_roots(parquet_schema).len() <= usize::MAX,
    ensures
        result is Ok,
        ({
            let roots = parquet_roots(parquet_schema);
            match mask_flags(result->Ok_0) {
                None => forall|k: int|
                    0 <= k < field_ids.len() ==> !(1 <= #[trigger] field_ids[k] <= roots.len()),
                Some(flags) => {
                    &&& flags.len() == column_count(parquet_schema)
                    &&& forall|position: int, column: int| #[trigger]
                        stands_under(roots, position, column) ==> (flags[column] <==> exists|k: int|
                            0 <= k < field_ids.len() && #[trigger] field_ids[k] == position + 1)
                    &&& exists|k: int|
                        0 <= k < field_ids.len() && 1 <= #[trigger] field_ids[k] <= roots.len()
                },
            }
        }),
{
    lemma_variants_requested(field_ids, table);
    let roots = parquet_roots(parquet_schema);
    let positions = fallback_positions(field_ids, roots.len());
    if positions.len() == 0 {
        assert forall|k: int| 0 <= k < field_ids.len() implies !(1 <= #[trigger] field_ids[k]
            <= roots.len()) by {
            if 1 <= field_ids[k] <= roots.len() {
                let position = (field_ids[k] - 1) as usize;
                fallback_selects_by_position(field_ids, roots.len(), position);
                assert(field_ids[k] == position + 1);
                assert(positions.contains(position));
            }
        }
    } else {
        let flags = mask_flags(result->Ok_0)->0;
        assert forall|position: int, column: int| #[trigger]
            stands_under(roots, position, column) implies (flags[column] <==> exists|k: int|
            0 <= k < field_ids.len() && #[trigger] field_ids[k] == position + 1) by {
            lemma_stands_under(roots, position, column);
            fallback_selects_by_position(field_ids, roots.len(), position as usize);
        }
        assert(positions.contains(positions[0]));
        fallback_selects_by_position(field_ids, roots.len(), positions[0]);
    }
}

/// Ids that are requested by position one after another select what the one selects and then what
/// the other selects.
pub proof fn positions_add_up(first: Seq<i32>, second: Seq<i32>, count: nat)
    ensures
        fallback_positions(first + second, count) == fallback_positions(first, count)
            + fallback_positions(second, count),
    decreases second.len(),
{
    if second.len() == 0 {
        assert(first + second =~= first);
        assert(fallback_positions(first, count) + fallback_positions(second, count)
            =~= fallback_positions(first, count));
    } else {
        positions_add_up(first, second.drop_last(), count);
        assert((first + second).drop_last() =~= first + second.drop_last());
        assert(fallback_positions(first + second, count) =~= fallback_positions(first, count)
            + fallback_positions(second, count));
    }
}

/// How an unreadable leaf is spoken of: by its id, its name in the table, and its types in the file
/// and in the table.
pub open spec fn complaint(id: i32, table: Schema, file: Schema) -> Seq<char> {
    "field "@ + decimal_text(id as int) + " ("@ + table.field(id)->0.name@ + "): file type "@
        + type_text(*file.field(id)->0.field_type) + ", projected type "@ + type_text(
        *table.field(id)->0.field_type,
    )
}

/// Whether a leaf with the id `id` is in the file and in the table at types that do not go
/// together.
pub open spec fn clashes(id: i32, table: Schema, file: Schema) -> bool {
    &&& table.field(id) matches Some(projected)
    &&& file.field(id) matches Some(own)
    &&& !reads_as(*own.field_type, *projected.field_type)
}

/// Leaves are checked one by one: there is a complaint about each leaf whose types clash, and about
/// no other; and a leaf that is in the file and in the table counts as readable exactly where its
/// types do not clash.
pub proof fn leaves_are_checked_one_by_one(ids: Seq<Option<i32>>, table: Schema, file: Schema)
    ensures
        forall|i: int|
            0 <= i < ids.len() && #[trigger] ids[i] is Some && clashes(ids[i]->0, table, file)
                ==> mismatches(ids, table, file).contains(complaint(ids[i]->0, table, file)),
        forall|text: Seq<char>| #[trigger]
            mismatches(ids, table, file).contains(text) ==> exists|i: int|
                {
                    &&& 0 <= i < ids.len()
                    &&& #[trigger] ids[i] is Some
                    &&& clashes(ids[i]->0, table, file)
                    &&& text == complaint(ids[i]->0, table, file)
                },
        readable_ids(ids, table, file).len() == ids.len(),
        forall|i: int|
            0 <= i < ids.len() ==> #[trigger] readable_ids(ids, table, file)[i] == (if ids[i]
                is Some && table.field(ids[i]->0) is Some && file.field(ids[i]->0) is Some
                && !clashes(ids[i]->0, table, file) {
                ids[i]
            } else {
                None
            }),
{
    every_unreadable_leaf_is_named_once(ids, table, file);
    assert forall|i: int|
        0 <= i < ids.len() && #[trigger] ids[i] is Some && clashes(
            ids[i]->0,
            table,
            file,
        ) implies mismatches(ids, table, file).contains(complaint(ids[i]->0, table, file)) by {
        assert(is_shared(ids[i], table, file));
        assert(complaint(ids[i]->0, table, file) == mismatch_text(
            ids[i]->0,
            table.field(ids[i]->0)->0,
            file.field(ids[i]->0)->0,
        ));
    }
    assert forall|text: Seq<char>| #[trigger]
        mismatches(ids, table, file).contains(text) implies exists|i: int|
        {
            &&& 0 <= i < ids.len()
            &&& #[trigger] ids[i] is Some
            &&& clashes(ids[i]->0, table, file)
            &&& text == complaint(ids[i]->0, table, file)
        } by {
        let i = choose|i: int|
            0 <= i < ids.len() && names_leaf(text, #[trigger] ids[i], table, file);
        assert(clashes(ids[i]->0, table, file));
    }
}

/// A projection by field ids onto given leaves succeeds exactly where no leaf of the file clashes
/// with the table, given that what it touches can be converted.
pub proof fn clashes_alone_are_refused(
    result: Result<ProjectionMask, Error>,
    wanted: Seq<i32>,
    predicate_ids: Seq<i32>,
    table: Schema,
    parquet_schema: SchemaDescriptor,
    arrow_schema: ArrowSchema,
    file: Schema,
)
    requires
        projects_with_field_ids(
            result,
            wanted,
            predicate_ids,
            table,
            parquet_schema,
            arrow_schema,
        ),
        ({
            let checked = pruned_all(
                arrow_fields(arrow_schema),
                Set::new(|id: i32| wanted.contains(id) || predicate_ids.contains(id)),
            );
            &&& conversion_error(checked) is None
            &&& fields_convert(checked, file.fields@)
        }),
    ensures
        result is Ok <==> forall|i: int|
            0 <= i < leaf_field_ids(arrow_fields(arrow_schema)).len()
                && #[trigger] leaf_field_ids(arrow_fields(arrow_schema))[i] is Some ==> !clashes(
                leaf_field_ids(arrow_fields(arrow_schema))[i]->0,
                table,
                file,
            ),
        result matches Err(error) ==> {
            &&& error.kind is FeatureUnsupported
            &&& error.source is None
            &&& error.message@
                == "Parquet file column types cannot be promoted to the projected schema types: "@
                + joined(
                mismatches(leaf_field_ids(arrow_fields(arrow_schema)), table, file),
                "; "@,
            )
        },
        result matches Err(error) ==> forall|i: int|
            0 <= i < leaf_field_ids(arrow_fields(arrow_schema)).len()
                && #[trigger] leaf_field_ids(arrow_fields(arrow_schema))[i] is Some && clashes(
                leaf_field_ids(arrow_fields(arrow_schema))[i]->0,
                table,
                file,
            ) ==> says(
                error.message@,
                complaint(leaf_field_ids(arrow_fields(arrow_schema))[i]->0, table, file),
            ),
{
    let fields = arrow_fields(arrow_schema);
    let ids = leaf_field_ids(fields);
    let all = Set::new(|id: i32| wanted.contains(id) || predicate_ids.contains(id));
    assert(all =~= wanted.to_set().union(predicate_ids.to_set()));
    let checked = checked_fields(fields, wanted, predicate_ids);
    let own = choose|own: Schema|
        {
            &&& #[trigger] fields_convert(checked, own.fields@)
            &&& projects_by_ids(result, wanted, ids, table, own, column_count(parquet_schema))
        };
    lemma_alike_files(checked, ids, table, own, file);
    leaves_are_checked_one_by_one(ids, table, file);
    let bad = mismatches(ids, table, file);
    if bad.len() > 0 {
        assert(bad.contains(bad[0]));
    }
    if let Err(error) = result {
        assert forall|i: int|
            0 <= i < ids.len() && #[trigger] ids[i] is Some && clashes(
                ids[i]->0,
                table,
                file,
            ) implies says(error.message@, complaint(ids[i]->0, table, file)) by {
            let text = complaint(ids[i]->0, table, file);
            let k = choose|k: int| 0 <= k < bad.len() && bad[k] == text;
            lemma_joined_says(bad, "; "@, k);
            let start =
                "Parquet file column types cannot be promoted to the projected schema types: "@;
            let list = joined(bad, "; "@);
            assert(error.message@ == start + list);
            let at = choose|at: int|
                0 <= at <= list.len() - text.len() && #[trigger] list.subrange(
                    at,
                    at + text.len(),
                ) == text;
            assert(error.message@.subrange(start.len() + at, start.len() + at + text.len())
                =~= text);
        }
    }
}

/// The mask of a projection by field ids onto given leaves, column by column: a column is selected
/// exactly where it carries a wanted id that is a field of the table, and no later leaf carries it.
/// Where there is no such column, the mask selects every one.
pub proof fn the_mask_selects_wanted_leaves(
    mask: ProjectionMask,
    wanted: Seq<i32>,
    predicate_ids: Seq<i32>,
    table: Schema,
    parquet_schema: SchemaDescriptor,
    arrow_schema: ArrowSchema,
)
    requires
        projects_with_field_ids(
            Ok(mask),
            wanted,
            predicate_ids,
            table,
            parquet_schema,
            arrow_schema,
        ),
        leaf_field_ids(arrow_fields(arrow_schema)).len() <= usize::MAX,
        column_count(parquet_schema) <= usize::MAX,
    ensures
        ({
            let ids = leaf_field_ids(arrow_fields(arrow_schema));
            match mask_flags(mask) {
                None => forall|i: int|
                    0 <= i < ids.len() ==> !is_wanted(#[trigger] ids[i], wanted, table),
                Some(flags) => {
                    &&& flags.len() == column_count(parquet_schema)
                    &&& forall|column: int|
                        0 <= column < flags.len() ==> (#[trigger] flags[column] <==> {
                            &&& column < ids.len()
                            &&& is_wanted(ids[column], wanted, table)
                            &&& holds_last(ids, ids[column]->0, column)
                        })
                    &&& exists|i: int|
                        0 <= i < ids.len() && is_wanted(#[trigger] ids[i], wanted, table)
                },
            }
        }),
{
    let fields = arrow_fields(arrow_schema);
    let ids = leaf_field_ids(fields);
    let all = wanted.to_set().union(predicate_ids.to_set());
    let checked = checked_fields(fields, wanted, predicate_ids);
    let file = choose|file: Schema|
        {
            &&& #[trigger] fields_convert(checked, file.fields@)
            &&& projects_by_ids(Ok(mask), wanted, ids, table, file, column_count(parquet_schema))
        };
    lemma_no_mismatch(fields, all, table, file);
    let good = readable_ids(ids, table, file);
    let positions = positions_of(wanted, good);
    assert forall|i: int|
        0 <= i < ids.len() && is_wanted(#[trigger] ids[i], wanted, table) implies good[i]
        == ids[i] by {
        assert(wanted.to_set().contains(ids[i]->0));
        assert(is_readable(ids[i], table, file));
    }
    assert forall|i: int| 0 <= i < ids.len() && #[trigger] good[i] is Some implies good[i] == ids[i]
        && table.field(ids[i]->0) is Some by {}
    positions_are_in_range(wanted, good);
    lemma_selected(wanted, good, 0);
    if positions.len() == 0 {
        assert forall|i: int| 0 <= i < ids.len() implies !is_wanted(
            #[trigger] ids[i],
            wanted,
            table,
        ) by {
            if is_wanted(ids[i], wanted, table) {
                assert(good[i] == ids[i]);
                let k = choose|k: int| 0 <= k < wanted.len() && wanted[k] == ids[i]->0;
                last_position_is_the_last(good, wanted[k]);
                assert(good.contains(Some(wanted[k])));
            }
        }
    } else {
        let flags = mask_flags(mask)->0;
        assert forall|column: int|
            0 <= column < flags.len() implies (#[trigger] flags[column] <==> {
            &&& column < ids.len()
            &&& is_wanted(ids[column], wanted, table)
            &&& holds_last(ids, ids[column]->0, column)
        }) by {
            if column < ids.len() {
                selection_is_by_id(wanted, good, column);
                if is_wanted(ids[column], wanted, table) {
                    assert(good[column] == ids[column]);
                    assert forall|later: int| column < later < ids.len() implies (
                    #[trigger] ids[later] == ids[column] <==> good[later] == ids[column]) by {
                        if ids[later] == ids[column] {
                            assert(is_wanted(ids[later], wanted, table));
                        }
                    }
                }
            } else if positions.contains(column as usize) {
                let k = choose|k: int| 0 <= k < positions.len() && positions[k] == column as usize;
                assert(positions[k] < good.len());
            }
        }
        let first = positions[0] as int;
        assert(positions.contains(positions[0]));
        selection_is_by_id(wanted, good, first);
        assert(is_wanted(ids[first], wanted, table));
    }
}

/// Whether a leaf carries an id that is wanted and is that of a field of the table.
pub open spec fn is_wanted(id: Option<i32>, wanted: Seq<i32>, table: Schema) -> bool {
    id is Some && wanted.contains(id->0) && table.field(id->0) is Some
}

/// Leaves that are wanted one after another stand at the positions of the one and then of the
/// other.
pub proof fn wanted_leaves_add_up(first: Seq<i32>, second: Seq<i32>, ids: Seq<Option<i32>>)
    ensures
        positions_of(first + second, ids) == positions_of(first, ids) + positions_of(second, ids),
    decreases second.len(),
{
    if second.len() == 0 {
        assert(first + second =~= first);
        assert(positions_of(first, ids) + positions_of(second, ids) =~= positions_of(first, ids));
    } else {
        wanted_leaves_add_up(first, second.drop_last(), ids);
        assert((first + second).drop_last() =~= first + second.drop_last());
        assert(positions_of(first + second, ids) =~= positions_of(first, ids) + positions_of(
            second,
            ids,
        ));
    }
}

} // verus!
