//! Columns by field id, entry by entry.

use crate::arrow_tree::{leaf_field_ids, ArrowFieldView};
use crate::field_map::{
    fallback_map_is_by_position, position_map, position_maps_take_ids_to_last_positions,
};
use crate::parquet_file::{column_ids, column_ids_of_all, ParquetNodeView};
use crate::reader::column_map;
use vstd::prelude::*;

verus! {

/// The columns of a file that all carry ids are found by those ids alone: an id leads to a column
/// exactly where the column carries it and no later column does. It makes no difference what the
/// Arrow schema says or whether positions may be used.
pub proof fn embedded_ids_come_first(
    roots: Seq<ParquetNodeView>,
    fields: Seq<ArrowFieldView>,
    use_position_fallback: bool,
    id: i32,
    column: usize,
)
    requires
        column_ids_of_all(roots).len() <= usize::MAX,
        forall|k: int|
            0 <= k < column_ids_of_all(roots).len() ==> #[trigger] column_ids_of_all(roots)[k]
                is Some,
    ensures
        ({
            let map = column_map(roots, fields, use_position_fallback);
            map.contains_key(id) && map[id] == column
        }) <==> {
            &&& column < column_ids_of_all(roots).len()
            &&& column_ids_of_all(roots)[column as int] == Some(id)
            &&& forall|later: int|
                column < later < column_ids_of_all(roots).len() ==> #[trigger] column_ids_of_all(
                    roots,
                )[later] != Some(id)
        },
{
    let ids = column_ids_of_all(roots);
    position_maps_take_ids_to_last_positions(ids);
    lemma_entry(ids, id, column);
}

/// Where a column carries no id and positions may not be used, an id leads to a column exactly
/// where the leaf of the Arrow schema there carries it and no later leaf does, however the columns
/// of the file are grouped.
pub proof fn mapped_ids_stand_in_for_embedded_ones(
    roots: Seq<ParquetNodeView>,
    fields: Seq<ArrowFieldView>,
    bare: int,
    id: i32,
    column: usize,
)
    requires
        leaf_field_ids(fields).len() <= usize::MAX,
        0 <= bare < column_ids_of_all(roots).len(),
        column_ids_of_all(roots)[bare] is None,
    ensures
        ({
            let map = column_map(roots, fields, false);
            map.contains_key(id) && map[id] == column
        }) <==> {
            &&& column < leaf_field_ids(fields).len()
            &&& leaf_field_ids(fields)[column as int] == Some(id)
            &&& forall|later: int|
                column < later < leaf_field_ids(fields).len() ==> #[trigger] leaf_field_ids(
                    fields,
                )[later] != Some(id)
        },
{
    let ids = leaf_field_ids(fields);
    assert(column_ids_of_all(roots).contains(None));
    position_maps_take_ids_to_last_positions(ids);
    lemma_entry(ids, id, column);
}

proof fn lemma_entry(ids: Seq<Option<i32>>, id: i32, column: usize)
    requires
        ids.len() <= usize::MAX,
    ensures
        position_map(ids).contains_key(id) && position_map(ids)[id] == column <==> {
            &&& column < ids.len()
            &&& ids[column as int] == Some(id)
            &&& forall|later: int| column < later < ids.len() ==> #[trigger] ids[later] != Some(id)
        },
{
    position_maps_take_ids_to_last_positions(ids);
    let map = position_map(ids);
    if column < ids.len() && ids[column as int] == Some(id) {
        assert(ids.contains(Some(id)));
        assert(map.contains_key(id));
        assert(ids[map[id] as int] == Some(id));
    }
}

/// Where a column carries no id and positions may be used, an id leads to a column exactly where
/// the top-level node at the position before the id is that column, whatever the Arrow schema says.
pub proof fn positions_stand_in_for_ids(
    roots: Seq<ParquetNodeView>,
    fields: Seq<ArrowFieldView>,
    bare: int,
    id: i32,
    column: usize,
)
    requires
        roots.len() <= i32::MAX,
        column_ids_of_all(roots).len() <= usize::MAX,
        0 <= bare < column_ids_of_all(roots).len(),
        column_ids_of_all(roots)[bare] is None,
    ensures
        ({
            let map = column_map(roots, fields, true);
            map.contains_key(id) && map[id] == column
        }) <==> {
            &&& 1 <= id <= roots.len()
            &&& roots[id - 1] is Primitive
            &&& column == column_ids_of_all(roots.take(id - 1)).len()
        },
{
    assert(column_ids_of_all(roots).contains(None));
    fallback_map_is_by_position(roots, id);
}

/// The columns of a file come node by node: a column is one, and a group has those of its fields.
pub proof fn columns_come_node_by_node(node: ParquetNodeView, roots: Seq<ParquetNodeView>)
    ensures
        node matches ParquetNodeView::Primitive { id } ==> column_ids(node) == seq![id],
        node matches ParquetNodeView::Group { fields } ==> column_ids(node) == fields.map_values(
            |inner: ParquetNodeView| column_ids(inner),
        ).flatten(),
        column_ids_of_all(roots) == roots.map_values(
            |inner: ParquetNodeView| column_ids(inner),
        ).flatten(),
{
    lemma_columns_of_all(roots);
    if let ParquetNodeView::Group { fields } = node {
        lemma_columns_of_all(fields);
    }
}

proof fn lemma_columns_of_all(nodes: Seq<ParquetNodeView>)
    ensures
        column_ids_of_all(nodes) == nodes.map_values(
            |inner: ParquetNodeView| column_ids(inner),
        ).flatten(),
    decreases nodes.len(),
{
    let all = nodes.map_values(|inner: ParquetNodeView| column_ids(inner));
    if nodes.len() > 0 {
        let shorter = nodes.drop_last();
        let before = shorter.map_values(|inner: ParquetNodeView| column_ids(inner));
        lemma_columns_of_all(shorter);
        assert(all =~= before.push(all.last()));
        before.lemma_flatten_push(all.last());
    } else {
        assert(all.flatten() =~= seq![]);
    }
}

} // verus!
