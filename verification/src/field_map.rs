//! Maps from field ids to the leaf columns of a file.

use crate::arrow_file::{arrow_fields, read_leaf_ids};
use crate::arrow_tree::leaf_field_ids;
use crate::error::{Error, ErrorKind};
use crate::parquet_file::{
    column_ids, column_ids_of_all, leaf_columns, node_view, nodes_view, parquet_roots,
    read_parquet_roots, root_of_column, LeafColumn, ParquetNode, ParquetNodeView,
};
use arrow_schema::Schema as ArrowSchema;
use parquet::schema::types::SchemaDescriptor;
use std::collections::HashMap;
use std::sync::Arc;
use vstd::prelude::*;
use vstd::string::StringExecFns;

verus! {

/// The last position at which `ids` holds `id`.
pub open spec fn last_position(ids: Seq<Option<i32>>, id: i32) -> Option<int>
    decreases ids.len(),
{
    if ids.len() == 0 {
        None
    } else if ids.last() == Some(id) {
        Some(ids.len() - 1)
    } else {
        last_position(ids.drop_last(), id)
    }
}

/// The first position at which `ids` holds `id`.
pub open spec fn first_position(ids: Seq<Option<i32>>, id: i32) -> Option<int>
    decreases ids.len(),
{
    if ids.len() == 0 {
        None
    } else {
        match first_position(ids.drop_last(), id) {
            Some(position) => Some(position),
            None => if ids.last() == Some(id) {
                Some(ids.len() - 1)
            } else {
                None
            },
        }
    }
}

/// The map from each id in `ids` to the last position that holds it.
pub open spec fn position_map(ids: Seq<Option<i32>>) -> Map<i32, usize> {
    Map::new(
        |id: i32| last_position(ids, id) is Some,
        |id: i32| last_position(ids, id)->0 as usize,
    )
}

/// Whether `ids` holds `id` at `position`, and at no later position.
pub open spec fn holds_last(ids: Seq<Option<i32>>, id: i32, position: int) -> bool {
    &&& 0 <= position < ids.len()
    &&& ids[position] == Some(id)
    &&& forall|later: int| position < later < ids.len() ==> #[trigger] ids[later] != Some(id)
}

/// Whether `map` takes each id in `ids` to the last position that holds it, and no other id
/// anywhere.
pub open spec fn takes_ids_to_last_positions(map: Map<i32, usize>, ids: Seq<Option<i32>>) -> bool {
    &&& forall|id: i32| #[trigger] map.contains_key(id) <==> ids.contains(Some(id))
    &&& forall|id: i32| #[trigger] map.contains_key(id) ==> holds_last(ids, id, map[id] as int)
}

/// Whether `found` is the first position at which `ids` holds `id`, and nothing where none does.
pub open spec fn finds_first(found: Option<usize>, ids: Seq<Option<i32>>, id: i32) -> bool {
    match found {
        Some(position) => {
            &&& position < ids.len()
            &&& ids[position as int] == Some(id)
            &&& forall|earlier: int| 0 <= earlier < position ==> #[trigger] ids[earlier] != Some(id)
        },
        None => !ids.contains(Some(id)),
    }
}

/// A position map by its entries.
pub proof fn position_maps_take_ids_to_last_positions(ids: Seq<Option<i32>>)
    requires
        ids.len() <= usize::MAX,
    ensures
        takes_ids_to_last_positions(position_map(ids), ids),
{
    let map = position_map(ids);
    assert forall|id: i32| #[trigger] map.contains_key(id) <==> ids.contains(Some(id)) by {
        last_position_is_the_last(ids, id);
    }
    assert forall|id: i32| #[trigger] map.contains_key(id) implies holds_last(
        ids,
        id,
        map[id] as int,
    ) by {
        last_position_is_the_last(ids, id);
    }
}

/// The ids that `columns` carry.
pub open spec fn ids_of_columns(columns: Seq<LeafColumn>) -> Seq<Option<i32>> {
    columns.map_values(|column: LeafColumn| match column {
        LeafColumn::Primitive { id } => id,
        LeafColumn::Group { .. } => None,
    })
}

/// Whether `column` is a primitive column that carries an id.
pub open spec fn carries_id(column: LeafColumn) -> bool {
    column matches LeafColumn::Primitive { id } && id is Some
}

/// The error for a leaf column that is a group.
pub open spec fn is_group_leaf_error(error: Error, column: LeafColumn) -> bool {
    &&& column matches LeafColumn::Group { debug }
    &&& error.kind is DataInvalid
    &&& error.message@ == "Leaf column in schema should be primitive type but got "@ + debug@
    &&& error.source is None
}

/// The position map of no ids, and what one more id does to a position map.
pub(crate) proof fn lemma_position_map_push(ids: Seq<Option<i32>>, more: Option<i32>)
    requires
        ids.len() < usize::MAX,
    ensures
        position_map(Seq::<Option<i32>>::empty()) =~= Map::<i32, usize>::empty(),
        position_map(ids.push(more)) =~= (match more {
            Some(id) => position_map(ids).insert(id, ids.len() as usize),
            None => position_map(ids),
        }),
{
    assert(ids.push(more).drop_last() =~= ids);
}

/// A position lies within the ids and holds the id, and no later one does.
pub proof fn last_position_is_the_last(ids: Seq<Option<i32>>, id: i32)
    ensures
        match last_position(ids, id) {
            Some(position) => {
                &&& 0 <= position < ids.len()
                &&& ids[position] == Some(id)
                &&& forall|later: int|
                    position < later < ids.len() ==> #[trigger] ids[later] != Some(id)
            },
            None => !ids.contains(Some(id)),
        },
    decreases ids.len(),
{
    if ids.len() > 0 && ids.last() != Some(id) {
        last_position_is_the_last(ids.drop_last(), id);
        assert forall|k: int| 0 <= k < ids.len() - 1 implies ids.drop_last()[k]
            == #[trigger] ids[k] by {}
        if last_position(ids, id) is None {
            assert forall|k: int| 0 <= k < ids.len() implies ids[k] != Some(id) by {
                if k < ids.len() - 1 {
                    assert(ids.drop_last()[k] == ids[k]);
                }
            }
        }
    }
}

/// A first position lies within the ids and holds the id, and no earlier one does.
pub proof fn first_position_is_the_first(ids: Seq<Option<i32>>, id: i32)
    ensures
        match first_position(ids, id) {
            Some(position) => {
                &&& 0 <= position < ids.len()
                &&& ids[position] == Some(id)
                &&& forall|earlier: int|
                    0 <= earlier < position ==> #[trigger] ids[earlier] != Some(id)
            },
            None => !ids.contains(Some(id)),
        },
    decreases ids.len(),
{
    if ids.len() > 0 {
        first_position_is_the_first(ids.drop_last(), id);
        assert forall|k: int| 0 <= k < ids.len() - 1 implies ids.drop_last()[k] == ids[k] by {}
        if first_position(ids.drop_last(), id) is None {
            assert forall|k: int| 0 <= k < ids.len() - 1 implies ids[k] != Some(id) by {
                assert(ids.drop_last()[k] == ids[k]);
            }
        }
    }
}

/// The map from field id to column, for a file all of whose columns carry ids. `None` where one
/// does not, as in a migrated table; an error where a leaf is no primitive column.
pub fn field_id_map_of_columns(columns: &Vec<LeafColumn>) -> (result: Result<
    Option<HashMap<i32, usize>>,
    Error,
>)
    ensures
        match result {
            Ok(Some(map)) => {
                &&& forall|i: int| 0 <= i < columns@.len() ==> carries_id(#[trigger] columns@[i])
                &&& map@ == position_map(ids_of_columns(columns@))
                &&& takes_ids_to_last_positions(map@, ids_of_columns(columns@))
            },
            Ok(None) => exists|i: int|
                {
                    &&& 0 <= i < columns@.len()
                    &&& #[trigger] columns@[i] == (LeafColumn::Primitive { id: None })
                    &&& forall|j: int| 0 <= j < i ==> carries_id(#[trigger] columns@[j])
                },
            Err(error) => exists|i: int|
                {
                    &&& 0 <= i < columns@.len()
                    &&& is_group_leaf_error(error, #[trigger] columns@[i])
                    &&& forall|j: int| 0 <= j < i ==> carries_id(#[trigger] columns@[j])
                },
        },
{
    let mut map: HashMap<i32, usize> = HashMap::new();
    let mut i: usize = 0;
    proof {
        lemma_position_map_push(seq![], None);
        assert(ids_of_columns(columns@).take(0) =~= seq![]);
    }
    while i < columns.len()
        invariant
            i <= columns.len(),
            forall|j: int| 0 <= j < i ==> carries_id(#[trigger] columns@[j]),
            map@ == position_map(ids_of_columns(columns@).take(i as int)),
        decreases columns.len() - i,
    {
        match &columns[i] {
            LeafColumn::Primitive { id } => {
                match id {
                    Some(id) => {
                        proof {
                            let ids = ids_of_columns(columns@);
                            lemma_position_map_push(ids.take(i as int), Some(*id));
                            assert(ids.take(i + 1) =~= ids.take(i as int).push(Some(*id)));
                        }
                        map.insert(*id, i);
                    },
                    None => {
                        return Ok(None);
                    },
                }
            },
            LeafColumn::Group { debug } => {
                let mut message = String::new();
                message.append("Leaf column in schema should be primitive type but got ");
                message.append(debug.as_str());
                let error = Error::new(ErrorKind::DataInvalid, message);
                assert(error.message@
                    =~= "Leaf column in schema should be primitive type but got "@ + debug@);
                assert(is_group_leaf_error(error, columns@[i as int]));
                return Err(error);
            },
        }
        i = i + 1;
    }
    assert(ids_of_columns(columns@).take(i as int) =~= ids_of_columns(columns@));
    proof {
        position_maps_take_ids_to_last_positions(ids_of_columns(columns@));
    }
    Ok(Some(map))
}

/// The first column that carries `field_id`. Columns without an id, and groups, are passed over.
pub fn find_column_by_field_id(columns: &Vec<LeafColumn>, field_id: i32) -> (found: Option<usize>)
    ensures
        found is Some <==> first_position(ids_of_columns(columns@), field_id) is Some,
        found is Some ==> found->0 == first_position(ids_of_columns(columns@), field_id)->0,
        finds_first(found, ids_of_columns(columns@), field_id),
{
    let mut i: usize = 0;
    let ghost ids = ids_of_columns(columns@);
    proof {
        first_position_is_the_first(ids, field_id);
    }
    while i < columns.len()
        invariant
            i <= columns.len(),
            ids == ids_of_columns(columns@),
            forall|j: int| 0 <= j < i ==> #[trigger] ids[j] != Some(field_id),
            match first_position(ids, field_id) {
                Some(position) => {
                    &&& 0 <= position < ids.len()
                    &&& ids[position] == Some(field_id)
                    &&& forall|earlier: int|
                        0 <= earlier < position ==> #[trigger] ids[earlier] != Some(field_id)
                },
                None => !ids.contains(Some(field_id)),
            },
        decreases columns.len() - i,
    {
        match &columns[i] {
            LeafColumn::Primitive { id } => {
                match id {
                    Some(own) => {
                        if *own == field_id {
                            assert(ids[i as int] == Some(field_id));
                            return Some(i);
                        }
                    },
                    None => {},
                }
            },
            LeafColumn::Group { .. } => {},
        }
        i = i + 1;
    }
    None
}

/// The number of columns in `node`.
pub fn leaf_count(node: &ParquetNode) -> (count: usize)
    requires
        column_ids(node_view(*node)).len() <= usize::MAX,
    ensures
        count == column_ids(node_view(*node)).len(),
    decreases node,
{
    match node {
        ParquetNode::Primitive { .. } => 1,
        ParquetNode::Group { fields } => {
            let mut count: usize = 0;
            let mut i: usize = 0;
            while i < fields.len()
                invariant
                    i <= fields.len(),
                    decreases_to!(node => fields),
                    column_ids_of_all(nodes_view(fields@)).len() <= usize::MAX,
                    count == column_ids_of_all(nodes_view(fields@.take(i as int))).len(),
                decreases fields.len() - i,
            {
                proof {
                    lemma_columns_of_prefix(fields@, i as int);
                }
                count = count + leaf_count(&fields[i]);
                i = i + 1;
            }
            assert(fields@.take(i as int) =~= fields@);
            count
        },
    }
}

/// The columns of a prefix of `nodes` grow by those of the next node, and are no more than those
/// of all nodes.
proof fn lemma_columns_of_prefix(nodes: Seq<ParquetNode>, i: int)
    requires
        0 <= i < nodes.len(),
    ensures
        nodes_view(nodes.take(i + 1)) == nodes_view(nodes.take(i)).push(node_view(nodes[i])),
        column_ids_of_all(nodes_view(nodes.take(i + 1))) == column_ids_of_all(
            nodes_view(nodes.take(i)),
        ) + column_ids(node_view(nodes[i])),
        column_ids_of_all(nodes_view(nodes.take(i + 1))).len() <= column_ids_of_all(
            nodes_view(nodes),
        ).len(),
    decreases nodes.len() - i,
{
    assert(nodes.take(i + 1).drop_last() =~= nodes.take(i));
    let views = nodes_view(nodes.take(i)).push(node_view(nodes[i]));
    assert(views.drop_last() =~= nodes_view(nodes.take(i)));
    if i + 1 < nodes.len() {
        lemma_columns_of_prefix(nodes, i + 1);
    } else {
        assert(nodes.take(i + 1) =~= nodes);
    }
}

/// The map that stands in for field ids where a file carries none: the top-level column at
/// position `n` answers to the id `n + 1`. Groups answer to none.
pub open spec fn fallback_map(roots: Seq<ParquetNodeView>) -> Map<i32, usize>
    decreases roots.len(),
{
    if roots.len() == 0 {
        Map::empty()
    } else {
        let before = fallback_map(roots.drop_last());
        if roots.last() is Primitive {
            before.insert(
                roots.len() as i32,
                column_ids_of_all(roots.drop_last()).len() as usize,
            )
        } else {
            before
        }
    }
}

/// The fallback map by its entries: an id is in it exactly where the top-level node before that
/// position is a column, and leads to that very column.
pub proof fn fallback_map_is_by_position(roots: Seq<ParquetNodeView>, id: i32)
    requires
        roots.len() <= i32::MAX,
        column_ids_of_all(roots).len() <= usize::MAX,
    ensures
        fallback_map(roots).contains_key(id) <==> 1 <= id <= roots.len() && roots[id - 1]
            is Primitive,
        fallback_map(roots).contains_key(id) ==> {
            let column = fallback_map(roots)[id] as int;
            &&& column == column_ids_of_all(roots.take(id - 1)).len()
            &&& column < column_ids_of_all(roots).len()
            &&& column_ids_of_all(roots)[column] == roots[id - 1]->id
            &&& root_of_column(roots, column) == id - 1
        },
    decreases roots.len(),
{
    if roots.len() > 0 {
        let before = roots.drop_last();
        fallback_map_is_by_position(before, id);
        if 1 <= id < roots.len() {
            assert(before[id - 1] == roots[id - 1]);
            assert(before.take(id - 1) =~= roots.take(id - 1));
        }
        assert(roots.take(roots.len() - 1) =~= before);
        assert(roots.last() is Primitive ==> column_ids(roots.last()).len() == 1);
        assert(column_ids_of_all(roots) == column_ids_of_all(before) + column_ids(roots.last()));
    }
}

/// Whether `map` takes the id after the position of each top-level column of `roots` to that
/// column, and no other id anywhere.
pub open spec fn takes_positions_to_columns(
    map: Map<i32, usize>,
    roots: Seq<ParquetNodeView>,
) -> bool {
    &&& forall|id: i32| #[trigger]
        map.contains_key(id) <==> 1 <= id <= roots.len() && roots[id - 1] is Primitive
    &&& forall|id: i32| #[trigger]
        map.contains_key(id) ==> map[id] == column_ids_of_all(roots.take(id - 1)).len()
}

proof fn lemma_fallback_entries(roots: Seq<ParquetNodeView>)
    requires
        roots.len() <= i32::MAX,
        column_ids_of_all(roots).len() <= usize::MAX,
    ensures
        takes_positions_to_columns(fallback_map(roots), roots),
{
    let map = fallback_map(roots);
    assert forall|id: i32| #[trigger] map.contains_key(id) <==> 1 <= id <= roots.len() && roots[id
        - 1] is Primitive by {
        fallback_map_is_by_position(roots, id);
    }
    assert forall|id: i32| #[trigger] map.contains_key(id) implies map[id] == column_ids_of_all(
        roots.take(id - 1),
    ).len() by {
        fallback_map_is_by_position(roots, id);
    }
}

/// Searching for an id and looking it up come to the same where no two columns carry the id. In any
/// case either both find a column or neither does.
pub proof fn search_and_map_agree(ids: Seq<Option<i32>>, id: i32)
    ensures
        first_position(ids, id) is Some <==> last_position(ids, id) is Some,
        (forall|i: int, j: int|
            0 <= i < j < ids.len() ==> !(#[trigger] ids[i] == Some(id) && #[trigger] ids[j] == Some(
                id,
            ))) ==> first_position(ids, id) == last_position(ids, id),
{
    first_position_is_the_first(ids, id);
    last_position_is_the_last(ids, id);
    if let Some(first) = first_position(ids, id) {
        assert(ids.contains(Some(id)));
    }
    if let Some(last) = last_position(ids, id) {
        assert(ids.contains(Some(id)));
    }
}

/// The fallback map of the top-level nodes `roots`.
pub fn fallback_field_id_map(roots: &Vec<ParquetNode>) -> (map: HashMap<i32, usize>)
    requires
        column_ids_of_all(nodes_view(roots@)).len() <= usize::MAX,
    ensures
        map@ == fallback_map(nodes_view(roots@)),
        nodes_view(roots@).len() <= i32::MAX ==> takes_positions_to_columns(
            map@,
            nodes_view(roots@),
        ),
{
    let mut map: HashMap<i32, usize> = HashMap::new();
    let mut leaf_index: usize = 0;
    let mut position: usize = 0;
    while position < roots.len()
        invariant
            position <= roots.len(),
            column_ids_of_all(nodes_view(roots@)).len() <= usize::MAX,
            leaf_index == column_ids_of_all(nodes_view(roots@.take(position as int))).len(),
            nodes_view(roots@.take(position as int)).len() == position,
            map@ == fallback_map(nodes_view(roots@.take(position as int))),
        decreases roots.len() - position,
    {
        let field_id = (position + 1) as i32;
        proof {
            lemma_columns_of_prefix(roots@, position as int);
            let before = nodes_view(roots@.take(position as int));
            assert(before.push(node_view(roots@[position as int])).drop_last() =~= before);
        }
        match &roots[position] {
            ParquetNode::Primitive { .. } => {
                map.insert(field_id, leaf_index);
            },
            ParquetNode::Group { .. } => {},
        }
        leaf_index = leaf_index + leaf_count(&roots[position]);
        position = position + 1;
    }
    assert(roots@.take(position as int) =~= roots@);
    proof {
        if nodes_view(roots@).len() <= i32::MAX {
            lemma_fallback_entries(nodes_view(roots@));
        }
    }
    map
}

/// The map from each id in `ids` to the last position that holds it.
pub fn field_id_map_of_leaves(ids: &Vec<Option<i32>>) -> (map: HashMap<i32, usize>)
    ensures
        map@ == position_map(ids@),
        takes_ids_to_last_positions(map@, ids@),
{
    let mut map: HashMap<i32, usize> = HashMap::new();
    let mut i: usize = 0;
    proof {
        lemma_position_map_push(seq![], None);
        assert(ids@.take(0) =~= seq![]);
    }
    while i < ids.len()
        invariant
            i <= ids.len(),
            map@ == position_map(ids@.take(i as int)),
        decreases ids.len() - i,
    {
        proof {
            lemma_position_map_push(ids@.take(i as int), ids@[i as int]);
            assert(ids@.take(i + 1) =~= ids@.take(i as int).push(ids@[i as int]));
        }
        if let Some(field_id) = ids[i] {
            map.insert(field_id, i);
        }
        i = i + 1;
    }
    assert(ids@.take(i as int) =~= ids@);
    proof {
        position_maps_take_ids_to_last_positions(ids@);
    }
    map
}

/// Builds the map from field id to column of a Parquet file. `None` where a column of the file
/// carries no id.
pub fn build_field_id_map(parquet_schema: &SchemaDescriptor) -> (result: Result<
    Option<HashMap<i32, usize>>,
    Error,
>)
    ensures
        result is Ok,
        result->Ok_0 is None <==> column_ids_of_all(parquet_roots(*parquet_schema)).contains(None),
        result->Ok_0 is Some ==> result->Ok_0->0@ == position_map(
            column_ids_of_all(parquet_roots(*parquet_schema)),
        ),
        result->Ok_0 is Some ==> takes_ids_to_last_positions(
            result->Ok_0->0@,
            column_ids_of_all(parquet_roots(*parquet_schema)),
        ),
{
    let columns = leaf_columns(parquet_schema);
    let result = field_id_map_of_columns(&columns);
    proof {
        let ids = column_ids_of_all(parquet_roots(*parquet_schema));
        assert(ids_of_columns(columns@) =~= ids);
        assert forall|i: int| 0 <= i < columns@.len() implies !(#[trigger] columns@[i]
            is Group) by {}
        if result matches Ok(None) {
            let i = choose|i: int|
                0 <= i < columns@.len() && #[trigger] columns@[i] == (LeafColumn::Primitive {
                    id: None,
                });
            assert(ids[i] is None);
        }
        if result matches Ok(Some(_)) {
            assert forall|i: int| 0 <= i < ids.len() implies ids[i] is Some by {
                assert(carries_id(columns@[i]));
            }
        }
    }
    result
}

/// Finds the first column of a Parquet file that carries `field_id`, whether or not the other
/// columns carry ids.
pub fn find_leaf_by_field_id(parquet_schema: &SchemaDescriptor, field_id: i32) -> (found: Option<
    usize,
>)
    ensures
        ({
            let ids = column_ids_of_all(parquet_roots(*parquet_schema));
            &&& found is Some <==> first_position(ids, field_id) is Some
            &&& found is Some ==> found->0 == first_position(ids, field_id)->0
            &&& finds_first(found, ids, field_id)
        }),
{
    let columns = leaf_columns(parquet_schema);
    assert(ids_of_columns(columns@) =~= column_ids_of_all(parquet_roots(*parquet_schema)));
    find_column_by_field_id(&columns, field_id)
}

/// Builds the fallback map of a Parquet file whose columns carry no ids. It goes by top-level
/// positions, not by columns: a group may hold several columns and still takes one id.
pub fn build_fallback_field_id_map(parquet_schema: &SchemaDescriptor) -> (map: HashMap<i32, usize>)
    ensures
        map@ == fallback_map(parquet_roots(*parquet_schema)),
        parquet_roots(*parquet_schema).len() <= i32::MAX ==> takes_positions_to_columns(
            map@,
            parquet_roots(*parquet_schema),
        ),
{
    let roots = read_parquet_roots(parquet_schema);
    // The number of columns is a `usize`, and so is every count of some of them.
    let _column_count = parquet_schema.num_columns();
    fallback_field_id_map(&roots)
}

/// Builds the map from field id to column out of the ids that an Arrow schema carries. The leaves
/// of an Arrow schema come in the order of the columns of its file. A leaf without an id is not in
/// the map.
pub fn build_field_id_map_from_arrow_schema(arrow_schema: &Arc<ArrowSchema>) -> (map: HashMap<
    i32,
    usize,
>)
    ensures
        map@ == position_map(leaf_field_ids(arrow_fields(**arrow_schema))),
        takes_ids_to_last_positions(map@, leaf_field_ids(arrow_fields(**arrow_schema))),
{
    field_id_map_of_leaves(&read_leaf_ids(arrow_schema))
}

} // verus!
