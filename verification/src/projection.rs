//! Which columns of a file a scan reads.

use crate::error::{Error, ErrorKind};
use crate::field_map::{
    last_position, last_position_is_the_last, lemma_position_map_push, position_map,
};
use crate::promotion::{
    promotable, type_promotion_is_valid, unpromotable_column_types_error, unpromotable_text,
};
use crate::reader::ArrowReader;
use crate::schema::{
    contains_variant, leaf_ids, type_contains_variant, type_text, NestedField, Schema, Type,
};
use crate::text::{decimal_text, integer_text, texts};
use std::collections::HashMap;
use vstd::prelude::*;
use vstd::string::StringExecFns;

verus! {

/// The columns of a file to read.
#[derive(Debug)]
pub enum Projection {
    All,
    /// The leaf columns at these positions.
    Leaves(Vec<usize>),
    /// All that stands under the top-level columns at these positions.
    Roots(Vec<usize>),
}

/// The leaves of the fields of `schema` that `ids` name. An id that no field has names none.
pub open spec fn expanded(ids: Seq<i32>, schema: Schema) -> Seq<i32>
    decreases ids.len(),
{
    if ids.len() == 0 {
        seq![]
    } else {
        let before = expanded(ids.drop_last(), schema);
        match schema.field(ids.last()) {
            Some(field) => before + leaf_ids(field),
            None => before,
        }
    }
}

/// Whether one of `ids` names a field of `schema` that is, or contains, a variant.
pub open spec fn names_variant(ids: Seq<i32>, schema: Schema) -> bool {
    exists|i: int|
        0 <= i < ids.len() && schema.field(#[trigger] ids[i]) is Some && contains_variant(
            *schema.field(ids[i])->0.field_type,
        )
}

/// Whether a column of the file type can be read as the table type.
pub open spec fn readable(file_type: Type, projected_type: Type) -> bool {
    &&& file_type matches Type::Primitive(file)
    &&& projected_type matches Type::Primitive(projected)
    &&& promotable(file, projected)
}

/// How an unreadable column is named.
pub open spec fn mismatch_text(id: i32, projected: NestedField, file: NestedField) -> Seq<char> {
    "field "@ + decimal_text(id as int) + " ("@ + projected.name@ + "): file type "@ + type_text(
        *file.field_type,
    ) + ", projected type "@ + type_text(*projected.field_type)
}

/// Whether a leaf with the id `id`, if any, is a field of the table and of what is read of the
/// file.
pub open spec fn is_shared(id: Option<i32>, table: Schema, file: Schema) -> bool {
    id is Some && table.field(id->0) is Some && file.field(id->0) is Some
}

/// Whether such a leaf can be read as the table has it.
pub open spec fn is_readable(id: Option<i32>, table: Schema, file: Schema) -> bool {
    is_shared(id, table, file) && readable(
        *file.field(id->0)->0.field_type,
        *table.field(id->0)->0.field_type,
    )
}

/// The leaves that cannot be read as the table has them, each named once, in order.
pub open spec fn mismatches(ids: Seq<Option<i32>>, table: Schema, file: Schema) -> Seq<Seq<char>>
    decreases ids.len(),
{
    if ids.len() == 0 {
        seq![]
    } else {
        let before = mismatches(ids.drop_last(), table, file);
        let id = ids.last();
        if is_shared(id, table, file) && !is_readable(id, table, file) {
            let text = mismatch_text(id->0, table.field(id->0)->0, file.field(id->0)->0);
            if before.contains(text) {
                before
            } else {
                before.push(text)
            }
        } else {
            before
        }
    }
}

/// The ids of the leaves that can be read as the table has them, leaf by leaf.
pub open spec fn readable_ids(ids: Seq<Option<i32>>, table: Schema, file: Schema) -> Seq<
    Option<i32>,
> {
    ids.map_values(
        |id: Option<i32>|
            if is_readable(id, table, file) {
                id
            } else {
                None
            },
    )
}

/// The positions of the leaves that carry `wanted`, in the order of `wanted`: of the leaves with
/// one id the last. An id that no leaf carries has no position.
pub open spec fn positions_of(wanted: Seq<i32>, ids: Seq<Option<i32>>) -> Seq<usize>
    decreases wanted.len(),
{
    if wanted.len() == 0 {
        seq![]
    } else {
        let before = positions_of(wanted.drop_last(), ids);
        match last_position(ids, wanted.last()) {
            Some(position) => before.push(position as usize),
            None => before,
        }
    }
}

/// No position lies past the last leaf.
pub proof fn positions_are_in_range(wanted: Seq<i32>, ids: Seq<Option<i32>>)
    requires
        ids.len() <= usize::MAX,
    ensures
        forall|k: int|
            0 <= k < positions_of(wanted, ids).len() ==> #[trigger] positions_of(wanted, ids)[k]
                < ids.len(),
    decreases wanted.len(),
{
    if wanted.len() > 0 {
        positions_are_in_range(wanted.drop_last(), ids);
        last_position_is_the_last(ids, wanted.last());
        let before = positions_of(wanted.drop_last(), ids);
        let now = positions_of(wanted, ids);
        assert forall|k: int| 0 <= k < now.len() implies #[trigger] now[k] < ids.len() by {
            if k < before.len() {
                assert(now[k] == before[k]);
            }
        }
    }
}

/// Whether `projection` reads the leaf columns at `positions`, and everything where there is none.
pub open spec fn reads_leaves(projection: Projection, positions: Seq<usize>) -> bool {
    if positions.len() == 0 {
        projection is All
    } else {
        projection matches Projection::Leaves(own) && own@ == positions
    }
}

/// Whether `projection` reads the top-level columns at `positions`, and everything where there is
/// none.
pub open spec fn reads_roots(projection: Projection, positions: Seq<usize>) -> bool {
    if positions.len() == 0 {
        projection is All
    } else {
        projection matches Projection::Roots(own) && own@ == positions
    }
}

/// Whether `error` names the unreadable columns `bad`.
pub open spec fn is_unpromotable_error(error: Error, bad: Seq<Seq<char>>) -> bool {
    &&& error.kind is FeatureUnsupported
    &&& error.message@ == unpromotable_text(bad)
    &&& error.source is None
}

/// The top-level positions that ids stand for where a file carries none: an id stands for the
/// position before it. An id outside `1..=count` stands for none.
pub open spec fn fallback_positions(ids: Seq<i32>, count: nat) -> Seq<usize>
    decreases ids.len(),
{
    if ids.len() == 0 {
        seq![]
    } else {
        let before = fallback_positions(ids.drop_last(), count);
        if 1 <= ids.last() <= count {
            before.push((ids.last() - 1) as usize)
        } else {
            before
        }
    }
}

/// The error for a projection that touches a variant.
pub open spec fn is_variant_error(error: Error) -> bool {
    &&& error.kind is FeatureUnsupported
    &&& error.message@ == "Reading variant columns is not supported yet"@
    &&& error.source is None
}

/// Refuses a projection that touches a variant.
pub fn reject_variants(field_ids: &[i32], schema: &Schema) -> (result: Result<(), Error>)
    ensures
        match result {
            Ok(()) => !names_variant(field_ids@, *schema),
            Err(error) => names_variant(field_ids@, *schema) && is_variant_error(error),
        },
{
    let mut i: usize = 0;
    while i < field_ids.len()
        invariant
            i <= field_ids.len(),
            forall|j: int|
                0 <= j < i ==> !(schema.field(#[trigger] field_ids@[j]) is Some
                    && contains_variant(*schema.field(field_ids@[j])->0.field_type)),
        decreases field_ids.len() - i,
    {
        if let Some(field) = schema.field_by_id(field_ids[i]) {
            if type_contains_variant(&field.field_type) {
                assert(schema.field(field_ids@[i as int]) is Some);
                return Err(
                    Error::new(
                        ErrorKind::FeatureUnsupported,
                        "Reading variant columns is not supported yet".to_string(),
                    ),
                );
            }
        }
        i = i + 1;
    }
    Ok(())
}

/// The leaves of the fields that `ids` name.
pub fn leaves_of(ids: &[i32], schema: &Schema) -> (leaves: Vec<i32>)
    ensures
        leaves@ == expanded(ids@, *schema),
{
    let mut leaves: Vec<i32> = Vec::new();
    let mut i: usize = 0;
    while i < ids.len()
        invariant
            i <= ids.len(),
            leaves@ == expanded(ids@.take(i as int), *schema),
        decreases ids.len() - i,
    {
        assert(ids@.take(i + 1).drop_last() =~= ids@.take(i as int));
        if let Some(field) = schema.field_by_id(ids[i]) {
            ArrowReader::include_leaf_field_id(field, &mut leaves);
        }
        i = i + 1;
    }
    assert(ids@.take(i as int) =~= ids@);
    leaves
}

/// The projection of a file without field ids: by position, whole top-level columns at a time, and
/// without a look at any type.
pub fn fallback_projection(field_ids: &[i32], root_count: usize) -> (projection: Projection)
    ensures
        reads_roots(projection, fallback_positions(field_ids@, root_count as nat)),
{
    let mut positions: Vec<usize> = Vec::new();
    let mut i: usize = 0;
    while i < field_ids.len()
        invariant
            i <= field_ids.len(),
            positions@ == fallback_positions(field_ids@.take(i as int), root_count as nat),
        decreases field_ids.len() - i,
    {
        assert(field_ids@.take(i + 1).drop_last() =~= field_ids@.take(i as int));
        let field_id = field_ids[i];
        if field_id >= 1 {
            let position = (field_id - 1) as usize;
            if position < root_count {
                positions.push(position);
            }
        }
        i = i + 1;
    }
    assert(field_ids@.take(i as int) =~= field_ids@);
    if positions.len() == 0 {
        Projection::All
    } else {
        Projection::Roots(positions)
    }
}

/// The fallback never selects past the last top-level column.
pub proof fn fallback_positions_are_in_range(ids: Seq<i32>, count: nat)
    ensures
        forall|k: int|
            0 <= k < fallback_positions(ids, count).len() ==> #[trigger] fallback_positions(
                ids,
                count,
            )[k] < count,
    decreases ids.len(),
{
    if ids.len() > 0 {
        fallback_positions_are_in_range(ids.drop_last(), count);
        let before = fallback_positions(ids.drop_last(), count);
        let now = fallback_positions(ids, count);
        assert forall|k: int| 0 <= k < now.len() implies #[trigger] now[k] < count by {
            if k < before.len() {
                assert(now[k] == before[k]);
            }
        }
    }
}

/// Names an unreadable column.
fn describe_mismatch(id: i32, projected: &NestedField, file: &NestedField) -> (text: String)
    ensures
        text@ == mismatch_text(id, *projected, *file),
{
    let mut text = String::new();
    text.append("field ");
    text.append(integer_text(id as i128).as_str());
    text.append(" (");
    text.append(projected.name.as_str());
    text.append("): file type ");
    text.append(file.field_type.to_string().as_str());
    text.append(", projected type ");
    text.append(projected.field_type.to_string().as_str());
    assert(text@ =~= mismatch_text(id, *projected, *file));
    text
}

/// Adds `text` to `all` unless it is there.
fn push_once(all: &mut Vec<String>, text: String)
    ensures
        texts(final(all)@) == (if texts(old(all)@).contains(text@) {
            texts(old(all)@)
        } else {
            texts(old(all)@).push(text@)
        }),
{
    let mut i: usize = 0;
    while i < all.len()
        invariant
            i <= all.len(),
            *all == *old(all),
            forall|j: int| 0 <= j < i ==> (#[trigger] all@[j])@ != text@,
        decreases all.len() - i,
    {
        if all[i] == text {
            assert(texts(all@)[i as int] == text@);
            return;
        }
        i = i + 1;
    }
    assert(!texts(all@).contains(text@)) by {
        if texts(all@).contains(text@) {
            let j = choose|j: int| 0 <= j < texts(all@).len() && texts(all@)[j] == text@;
            assert(all@[j]@ == text@);
        }
    }
    all.push(text);
    assert(texts(all@) =~= texts(old(all)@).push(text@));
}

/// The projection of a file with field ids. `leaf_field_ids` are the leaves to read,
/// `projected_leaf_ids` the ids of the leaves of the file, `table` the schema of the scan and
/// `file` that of the leaves whose types matter: those to read and those to filter on. A leaf whose
/// file type cannot be promoted to the table type is an error, and not a missing column.
pub fn project_leaves(
    leaf_field_ids: &[i32],
    projected_leaf_ids: &Vec<Option<i32>>,
    table: &Schema,
    file: &Schema,
) -> (result: Result<Projection, Error>)
    ensures
        ({
            let bad = mismatches(projected_leaf_ids@, *table, *file);
            match result {
                Ok(projection) => bad.len() == 0 && reads_leaves(
                    projection,
                    positions_of(
                        leaf_field_ids@,
                        readable_ids(projected_leaf_ids@, *table, *file),
                    ),
                ),
                Err(error) => bad.len() > 0 && is_unpromotable_error(error, bad),
            }
        }),
{
    let mut column_map: HashMap<i32, usize> = HashMap::new();
    let mut type_mismatches: Vec<String> = Vec::new();
    let ghost ids = projected_leaf_ids@;
    let ghost good = readable_ids(ids, *table, *file);
    let mut idx: usize = 0;
    proof {
        lemma_position_map_push(seq![], None);
        assert(good.take(0) =~= seq![]);
    }
    assert(texts(type_mismatches@) =~= mismatches(ids.take(0), *table, *file));
    while idx < projected_leaf_ids.len()
        invariant
            idx <= projected_leaf_ids.len(),
            ids == projected_leaf_ids@,
            good == readable_ids(ids, *table, *file),
            column_map@ == position_map(good.take(idx as int)),
            texts(type_mismatches@) == mismatches(ids.take(idx as int), *table, *file),
        decreases projected_leaf_ids.len() - idx,
    {
        proof {
            assert(ids.take(idx + 1).drop_last() =~= ids.take(idx as int));
            assert(good.take(idx + 1) =~= good.take(idx as int).push(good[idx as int]));
            lemma_position_map_push(good.take(idx as int), good[idx as int]);
        }
        if let Some(field_id) = projected_leaf_ids[idx] {
            if let Some(projected) = table.field_by_id(field_id) {
                if let Some(own) = file.field_by_id(field_id) {
                    if type_promotion_is_valid(
                        own.field_type.as_primitive_type(),
                        projected.field_type.as_primitive_type(),
                    ) {
                        column_map.insert(field_id, idx);
                    } else {
                        let text = describe_mismatch(field_id, projected, own);
                        push_once(&mut type_mismatches, text);
                    }
                }
            }
        }
        idx = idx + 1;
    }
    assert(ids.take(idx as int) =~= ids);
    assert(good.take(idx as int) =~= good);
    if type_mismatches.len() > 0 {
        return Err(unpromotable_column_types_error(type_mismatches.as_slice()));
    }
    let mut positions: Vec<usize> = Vec::new();
    let mut i: usize = 0;
    while i < leaf_field_ids.len()
        invariant
            i <= leaf_field_ids.len(),
            column_map@ == position_map(good),
            positions@ == positions_of(leaf_field_ids@.take(i as int), good),
        decreases leaf_field_ids.len() - i,
    {
        assert(leaf_field_ids@.take(i + 1).drop_last() =~= leaf_field_ids@.take(i as int));
        if let Some(position) = column_map.get(&leaf_field_ids[i]) {
            positions.push(*position);
        }
        i = i + 1;
    }
    assert(leaf_field_ids@.take(i as int) =~= leaf_field_ids@);
    if positions.len() == 0 {
        Ok(Projection::All)
    } else {
        Ok(Projection::Leaves(positions))
    }
}

} // verus!
