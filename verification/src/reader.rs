//! Reads data files: which of their columns, and by which field ids.

use crate::arrow_convert::{arrow_schema_to_schema, conversion_error, fields_convert, reports};
use crate::arrow_file::{arrow_fields, read_arrow_fields, read_leaf_ids, retain_leaves};
use crate::arrow_tree::{leaf_field_ids, pruned_all, ArrowFieldView};
use crate::error::Error;
use crate::field_map::{
    build_fallback_field_id_map, build_field_id_map, build_field_id_map_from_arrow_schema,
    fallback_map, position_map, takes_ids_to_last_positions, takes_positions_to_columns,
};
use crate::laws::filters::{filters_read_what_they_test, tests_field};
use crate::parquet_file::{
    column_ids_of_all, leaf_flags, mask_flags, mask_of_leaves, mask_of_roots, parquet_roots,
    root_fields, root_flags, ParquetNodeView,
};
use crate::predicate::{referenced_ids, set_to_vec, BoundPredicate, CollectFieldIdVisitor};
use crate::projection::{
    expanded, fallback_positions, fallback_positions_are_in_range, fallback_projection,
    is_unpromotable_error, is_variant_error, leaves_of, mismatches, names_variant,
    positions_are_in_range, positions_of, project_leaves, readable_ids, reject_variants,
    Projection,
};
use crate::schema::{leaf_ids, leaf_ids_of_all, NestedField, Schema, Type};
use arrow_schema::Schema as ArrowSchema;
use parquet::arrow::ProjectionMask;
use parquet::schema::types::SchemaDescriptor;
use std::collections::{HashMap, HashSet};
use std::sync::Arc;
use vstd::prelude::*;

verus! {

/// Reads data files into Arrow.
pub struct ArrowReader;

/// The number of columns of a file.
pub open spec fn column_count(parquet_schema: SchemaDescriptor) -> nat {
    column_ids_of_all(parquet_roots(parquet_schema)).len()
}

/// Of the fields of a file, those parts whose types matter to a scan: the leaves to read and the
/// leaves to filter on.
pub open spec fn checked_fields(
    fields: Seq<ArrowFieldView>,
    leaf_field_ids: Seq<i32>,
    predicate_leaf_field_ids: Seq<i32>,
) -> Seq<ArrowFieldView> {
    pruned_all(fields, leaf_field_ids.to_set().union(predicate_leaf_field_ids.to_set()))
}

/// The flags of a mask over `count` columns that selects those at `positions`, and every column
/// where there is no position.
pub open spec fn selected_leaves(count: nat, positions: Seq<usize>) -> Option<Seq<bool>> {
    if positions.len() == 0 {
        None
    } else {
        Some(leaf_flags(count, positions))
    }
}

/// The flags of a mask that selects what stands under the top-level types at `positions`, and every
/// column where there is no position.
pub open spec fn selected_roots(roots: Seq<ParquetNodeView>, positions: Seq<usize>) -> Option<
    Seq<bool>,
> {
    if positions.len() == 0 {
        None
    } else {
        Some(root_flags(roots, positions))
    }
}

/// Whether `result` is what projecting a file by field ids gives, where the file has `count`
/// columns, its leaves carry `ids`, and `file` is the schema of the leaves whose types matter.
pub open spec fn projects_by_ids(
    result: Result<ProjectionMask, Error>,
    wanted: Seq<i32>,
    ids: Seq<Option<i32>>,
    table: Schema,
    file: Schema,
    count: nat,
) -> bool {
    let bad = mismatches(ids, table, file);
    match result {
        Ok(mask) => bad.len() == 0 && mask_flags(mask) == selected_leaves(
            count,
            positions_of(wanted, readable_ids(ids, table, file)),
        ),
        Err(error) => bad.len() > 0 && is_unpromotable_error(error, bad),
    }
}

/// Whether `result` is what projecting a file by field ids gives.
pub open spec fn projects_with_field_ids(
    result: Result<ProjectionMask, Error>,
    wanted: Seq<i32>,
    predicate_ids: Seq<i32>,
    table: Schema,
    parquet_schema: SchemaDescriptor,
    arrow_schema: ArrowSchema,
) -> bool {
    let fields = arrow_fields(arrow_schema);
    let checked = checked_fields(fields, wanted, predicate_ids);
    match conversion_error(checked) {
        Some(reason) => result matches Err(error) && reports(error, reason),
        None => exists|file: Schema|
            {
                &&& #[trigger] fields_convert(checked, file.fields@)
                &&& projects_by_ids(
                    result,
                    wanted,
                    leaf_field_ids(fields),
                    table,
                    file,
                    column_count(parquet_schema),
                )
            },
    }
}

/// Whether each leaf that a projection by field ids selects is one of `count` columns.
pub open spec fn selects_columns(
    wanted: Seq<i32>,
    predicate_ids: Seq<i32>,
    table: Schema,
    fields: Seq<ArrowFieldView>,
    count: nat,
) -> bool {
    forall|file: Schema|
        #![trigger fields_convert(checked_fields(fields, wanted, predicate_ids), file.fields@)]
        fields_convert(checked_fields(fields, wanted, predicate_ids), file.fields@) && mismatches(
            leaf_field_ids(fields),
            table,
            file,
        ).len() == 0 ==> in_range(
            positions_of(wanted, readable_ids(leaf_field_ids(fields), table, file)),
            count,
        )
}

/// Whether each position is below `count`.
pub open spec fn in_range(positions: Seq<usize>, count: nat) -> bool {
    forall|k: int| 0 <= k < positions.len() ==> #[trigger] positions[k] < count
}

/// Whether `result` is the projection of a file onto the fields `field_ids`, with a filter over the
/// fields `predicate_field_ids`.
pub open spec fn projects(
    result: Result<ProjectionMask, Error>,
    field_ids: Seq<i32>,
    predicate_field_ids: Seq<i32>,
    table: Schema,
    parquet_schema: SchemaDescriptor,
    arrow_schema: ArrowSchema,
    use_fallback: bool,
) -> bool {
    if field_ids.len() == 0 && predicate_field_ids.len() == 0 {
        result is Ok && mask_flags(result->Ok_0) is None
    } else if names_variant(field_ids, table) {
        result matches Err(error) && is_variant_error(error)
    } else if use_fallback {
        result is Ok && mask_flags(result->Ok_0) == selected_roots(
            parquet_roots(parquet_schema),
            fallback_positions(field_ids, parquet_roots(parquet_schema).len()),
        )
    } else {
        projects_with_field_ids(
            result,
            expanded(field_ids, table),
            expanded(predicate_field_ids, table),
            table,
            parquet_schema,
            arrow_schema,
        )
    }
}

/// The columns of a file by field id.
pub open spec fn column_map(
    roots: Seq<ParquetNodeView>,
    fields: Seq<ArrowFieldView>,
    use_position_fallback: bool,
) -> Map<i32, usize> {
    if !column_ids_of_all(roots).contains(None) {
        position_map(column_ids_of_all(roots))
    } else if use_position_fallback {
        fallback_map(roots)
    } else {
        position_map(leaf_field_ids(fields))
    }
}

/// Whether `map` resolves the columns of a file by field id, entry by entry: by the ids in the file
/// where every column has one; else by position where `use_position_fallback` is set; else,
/// whatever groups the file has, by the ids that the leaves of the Arrow schema carry.
pub open spec fn resolves_columns(
    map: Map<i32, usize>,
    roots: Seq<ParquetNodeView>,
    fields: Seq<ArrowFieldView>,
    use_position_fallback: bool,
) -> bool {
    let ids = column_ids_of_all(roots);
    &&& (forall|column: int| 0 <= column < ids.len() ==> #[trigger] ids[column] is Some)
        ==> takes_ids_to_last_positions(map, ids)
    &&& (exists|column: int| 0 <= column < ids.len() && #[trigger] ids[column] is None)
        && use_position_fallback && roots.len() <= i32::MAX ==> takes_positions_to_columns(
        map,
        roots,
    )
    &&& (exists|column: int| 0 <= column < ids.len() && #[trigger] ids[column] is None)
        && !use_position_fallback ==> takes_ids_to_last_positions(map, leaf_field_ids(fields))
}

/// The ids in `first` and in `second`.
fn union_of(first: &[i32], second: &[i32]) -> (ids: HashSet<i32>)
    ensures
        ids@ == first@.to_set().union(second@.to_set()),
{
    let mut ids: HashSet<i32> = HashSet::new();
    let mut i: usize = 0;
    while i < first.len()
        invariant
            i <= first.len(),
            ids@ =~= first@.take(i as int).to_set(),
        decreases first.len() - i,
    {
        proof {
            let before = first@.take(i as int);
            assert(first@.take(i + 1) =~= before.push(first@[i as int]));
            before.lemma_push_to_set_commute(first@[i as int]);
        }
        ids.insert(first[i]);
        i = i + 1;
    }
    assert(first@.take(i as int) =~= first@);
    let mut k: usize = 0;
    while k < second.len()
        invariant
            k <= second.len(),
            ids@ =~= first@.to_set().union(second@.take(k as int).to_set()),
        decreases second.len() - k,
    {
        proof {
            let before = second@.take(k as int);
            assert(second@.take(k + 1) =~= before.push(second@[k as int]));
            before.lemma_push_to_set_commute(second@[k as int]);
        }
        ids.insert(second[k]);
        k = k + 1;
    }
    assert(second@.take(k as int) =~= second@);
    ids
}

/// The mask of a projection.
fn mask_of(projection: Projection, parquet_schema: &SchemaDescriptor) -> (mask: ProjectionMask)
    requires
        projection matches Projection::Leaves(positions) ==> in_range(
            positions@,
            column_count(*parquet_schema),
        ),
        projection matches Projection::Roots(positions) ==> in_range(
            positions@,
            parquet_roots(*parquet_schema).len(),
        ),
    ensures
        mask_flags(mask) == (match projection {
            Projection::All => None,
            Projection::Leaves(positions) => Some(
                leaf_flags(column_count(*parquet_schema), positions@),
            ),
            Projection::Roots(positions) => Some(
                root_flags(parquet_roots(*parquet_schema), positions@),
            ),
        }),
{
    match projection {
        Projection::All => ProjectionMask::all(),
        Projection::Leaves(positions) => mask_of_leaves(parquet_schema, positions),
        Projection::Roots(positions) => mask_of_roots(parquet_schema, positions),
    }
}

impl ArrowReader {
    /// The ids of the fields that a scan's filter reads, each once, in no particular order.
    pub fn collect_predicate_field_ids(predicate: &BoundPredicate) -> (result: Result<
        Vec<i32>,
        Error,
    >)
        ensures
            result is Ok,
            result->Ok_0@.no_duplicates(),
            result->Ok_0@.to_set() == referenced_ids(*predicate),
            forall|id: i32| #[trigger]
                result->Ok_0@.contains(id) <==> tests_field(*predicate, id),
    {
        let mut collector = CollectFieldIdVisitor::new();
        collector.visit(predicate);
        let ids = set_to_vec(&collector.field_ids);
        assert(collector.field_ids@ =~= referenced_ids(*predicate));
        proof {
            assert forall|id: i32| #[trigger] ids@.contains(id) <==> tests_field(
                *predicate,
                id,
            ) by {
                assert(ids@.contains(id) <==> ids@.to_set().contains(id));
                filters_read_what_they_test(*predicate, id);
            }
        }
        Ok(ids)
    }

    /// Adds the ids of the leaves of `field`. A file is projected leaf by leaf, and structs, lists
    /// and maps are no leaves.
    pub fn include_leaf_field_id(field: &NestedField, field_ids: &mut Vec<i32>)
        ensures
            final(field_ids)@ == old(field_ids)@ + leaf_ids(*field),
        decreases field,
    {
        match &*field.field_type {
            Type::Primitive(_) => {
                field_ids.push(field.id);
            },
            // A projection onto a variant is refused earlier. In a filter it counts as a leaf.
            Type::Variant(_) => {
                field_ids.push(field.id);
            },
            Type::Struct(struct_type) => {
                let mut i: usize = 0;
                while i < struct_type.fields.len()
                    invariant
                        i <= struct_type.fields.len(),
                        decreases_to!(field => struct_type.fields),
                        field_ids@ == old(field_ids)@ + leaf_ids_of_all(
                            struct_type.fields@.take(i as int),
                        ),
                    decreases struct_type.fields.len() - i,
                {
                    Self::include_leaf_field_id(&struct_type.fields[i], field_ids);
                    assert(struct_type.fields@.take(i + 1).drop_last()
                        =~= struct_type.fields@.take(i as int));
                    assert(field_ids@ =~= old(field_ids)@ + leaf_ids_of_all(
                        struct_type.fields@.take(i + 1),
                    ));
                    i = i + 1;
                }
                assert(struct_type.fields@.take(i as int) =~= struct_type.fields@);
            },
            Type::List(list_type) => {
                Self::include_leaf_field_id(&list_type.element_field, field_ids);
            },
            Type::Mapping(map_type) => {
                Self::include_leaf_field_id(&map_type.key_field, field_ids);
                Self::include_leaf_field_id(&map_type.value_field, field_ids);
            },
        }
        assert(field_ids@ =~= old(field_ids)@ + leaf_ids(*field));
    }

    /// Projects a file by the field ids that its leaves carry. The leaves in
    /// `predicate_leaf_field_ids` are checked and not selected. Where no wanted leaf is in the file
    /// every column is read, so that there are rows to add the missing columns to.
    pub fn get_arrow_projection_mask_with_field_ids(
        leaf_field_ids: &[i32],
        predicate_leaf_field_ids: &[i32],
        iceberg_schema_of_task: &Schema,
        parquet_schema: &SchemaDescriptor,
        arrow_schema: &Arc<ArrowSchema>,
    ) -> (result: Result<ProjectionMask, Error>)
        requires
            selects_columns(
                leaf_field_ids@,
                predicate_leaf_field_ids@,
                *iceberg_schema_of_task,
                arrow_fields(**arrow_schema),
                column_count(*parquet_schema),
            ),
        ensures
            projects_with_field_ids(
                result,
                leaf_field_ids@,
                predicate_leaf_field_ids@,
                *iceberg_schema_of_task,
                *parquet_schema,
                **arrow_schema,
            ),
    {
        let checked = union_of(leaf_field_ids, predicate_leaf_field_ids);
        let projected_leaf_ids = read_leaf_ids(arrow_schema);
        let projected_arrow_schema = retain_leaves(arrow_schema, &checked);
        let fields = read_arrow_fields(&projected_arrow_schema);
        let file = match arrow_schema_to_schema(&fields) {
            Ok(file) => file,
            Err(error) => {
                return Err(error);
            },
        };
        match project_leaves(leaf_field_ids, &projected_leaf_ids, iceberg_schema_of_task, &file) {
            Ok(projection) => Ok(mask_of(projection, parquet_schema)),
            Err(error) => Err(error),
        }
    }

    /// Projects a file without field ids by position: the id `n` stands for the `n`th top-level
    /// column, and selects all of it. No type is checked. Where no id is in the file every column
    /// is read.
    pub fn get_arrow_projection_mask_fallback(
        field_ids: &[i32],
        parquet_schema: &SchemaDescriptor,
    ) -> (result: Result<ProjectionMask, Error>)
        ensures
            result is Ok,
            mask_flags(result->Ok_0) == selected_roots(
                parquet_roots(*parquet_schema),
                fallback_positions(field_ids@, parquet_roots(*parquet_schema).len()),
            ),
    {
        let root_count = root_fields(parquet_schema).len();
        let projection = fallback_projection(field_ids, root_count);
        proof {
            fallback_positions_are_in_range(field_ids@, root_count as nat);
        }
        Ok(mask_of(projection, parquet_schema))
    }

    /// The columns of a file to read for the fields `field_ids`, where the filter of the scan reads
    /// the fields `predicate_field_ids`. Those are no part of the output and are not selected on
    /// their own account, but they are read, so their types must be readable too. With
    /// `use_fallback`, for a file without field ids that no name mapping gave any, the projection
    /// goes by position and no type is checked.
    pub fn get_arrow_projection_mask(
        field_ids: &[i32],
        predicate_field_ids: &[i32],
        iceberg_schema_of_task: &Schema,
        parquet_schema: &SchemaDescriptor,
        arrow_schema: &Arc<ArrowSchema>,
        use_fallback: bool,
    ) -> (result: Result<ProjectionMask, Error>)
        requires
            use_fallback || names_variant(field_ids@, *iceberg_schema_of_task) || selects_columns(
                expanded(field_ids@, *iceberg_schema_of_task),
                expanded(predicate_field_ids@, *iceberg_schema_of_task),
                *iceberg_schema_of_task,
                arrow_fields(**arrow_schema),
                column_count(*parquet_schema),
            ),
        ensures
            projects(
                result,
                field_ids@,
                predicate_field_ids@,
                *iceberg_schema_of_task,
                *parquet_schema,
                **arrow_schema,
                use_fallback,
            ),
    {
        if field_ids.len() == 0 && predicate_field_ids.len() == 0 {
            return Ok(ProjectionMask::all());
        }
        // A scan that touches a variant would give wrong or incomplete rows.
        if let Err(error) = reject_variants(field_ids, iceberg_schema_of_task) {
            return Err(error);
        }
        if use_fallback {
            Self::get_arrow_projection_mask_fallback(field_ids, parquet_schema)
        } else {
            Self::get_arrow_projection_mask_with_field_ids(
                leaves_of(field_ids, iceberg_schema_of_task).as_slice(),
                leaves_of(predicate_field_ids, iceberg_schema_of_task).as_slice(),
                iceberg_schema_of_task,
                parquet_schema,
                arrow_schema,
            )
        }
    }

    /// As [`ArrowReader::get_arrow_projection_mask`], for schemas that may not belong to one file:
    /// `None` where the Arrow schema has more leaves than the file has columns.
    pub fn get_arrow_projection_mask_checked(
        field_ids: &[i32],
        predicate_field_ids: &[i32],
        iceberg_schema_of_task: &Schema,
        parquet_schema: &SchemaDescriptor,
        arrow_schema: &Arc<ArrowSchema>,
        use_fallback: bool,
    ) -> (result: Option<Result<ProjectionMask, Error>>)
        ensures
            result is None <==> leaf_field_ids(arrow_fields(**arrow_schema)).len() > column_count(
                *parquet_schema,
            ),
            result is Some ==> projects(
                result->0,
                field_ids@,
                predicate_field_ids@,
                *iceberg_schema_of_task,
                *parquet_schema,
                **arrow_schema,
                use_fallback,
            ),
    {
        let projected_leaf_ids = read_leaf_ids(arrow_schema);
        if projected_leaf_ids.len() > parquet_schema.num_columns() {
            return None;
        }
        proof {
            let wanted = expanded(field_ids@, *iceberg_schema_of_task);
            let ids = projected_leaf_ids@;
            assert forall|file: Schema| in_range(
                positions_of(wanted, #[trigger] readable_ids(ids, *iceberg_schema_of_task, file)),
                column_count(*parquet_schema),
            ) by {
                positions_are_in_range(wanted, readable_ids(ids, *iceberg_schema_of_task, file));
            }
        }
        Some(
            Self::get_arrow_projection_mask(
                field_ids,
                predicate_field_ids,
                iceberg_schema_of_task,
                parquet_schema,
                arrow_schema,
                use_fallback,
            ),
        )
    }

    /// The ids of the fields that a scan's filter reads, and the columns of the file by field id:
    /// by the ids in the file, where every column has one; else by position, where
    /// `use_position_fallback` asks for it; else by the ids that a name mapping gave to the Arrow
    /// schema.
    pub fn build_field_id_set_and_map(
        parquet_schema: &SchemaDescriptor,
        arrow_schema: &Arc<ArrowSchema>,
        predicate: &BoundPredicate,
        use_position_fallback: bool,
    ) -> (result: Result<(HashSet<i32>, HashMap<i32, usize>), Error>)
        ensures
            result is Ok,
            result->Ok_0.0@ == referenced_ids(*predicate),
            result->Ok_0.1@ == column_map(
                parquet_roots(*parquet_schema),
                arrow_fields(**arrow_schema),
                use_position_fallback,
            ),
            forall|id: i32| #[trigger]
                result->Ok_0.0@.contains(id) <==> tests_field(*predicate, id),
            resolves_columns(
                result->Ok_0.1@,
                parquet_roots(*parquet_schema),
                arrow_fields(**arrow_schema),
                use_position_fallback,
            ),
    {
        let mut collector = CollectFieldIdVisitor::new();
        collector.visit(predicate);
        assert(collector.field_ids@ =~= referenced_ids(*predicate));
        proof {
            assert forall|id: i32| #[trigger] collector.field_ids@.contains(id) <==> tests_field(
                *predicate,
                id,
            ) by {
                filters_read_what_they_test(*predicate, id);
            }
        }
        let field_id_map = match build_field_id_map(parquet_schema) {
            Ok(Some(map)) => map,
            Ok(None) => if use_position_fallback {
                build_fallback_field_id_map(parquet_schema)
            } else {
                build_field_id_map_from_arrow_schema(arrow_schema)
            },
            Err(error) => {
                return Err(error);
            },
        };
        Ok((collector.field_ids, field_id_map))
    }
}

} // verus!
