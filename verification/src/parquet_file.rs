//! The schema of a Parquet file, and masks over its columns.

use parquet::arrow::ProjectionMask;
use parquet::schema::types::{SchemaDescriptor, Type as ParquetType};
use std::sync::Arc;
use vstd::prelude::*;

verus! {

/// A node of a file's schema: a column, or a group of nodes.
#[derive(Debug)]
pub enum ParquetNode {
    Primitive { id: Option<i32> },
    Group { fields: Vec<ParquetNode> },
}

/// What a [`ParquetNode`] says.
pub enum ParquetNodeView {
    Primitive { id: Option<i32> },
    Group { fields: Seq<ParquetNodeView> },
}

/// The type of a leaf column. A file whose leaf is a group is malformed; `debug` describes it.
#[derive(Debug)]
pub enum LeafColumn {
    Primitive { id: Option<i32> },
    Group { debug: String },
}

pub open spec fn node_view(node: ParquetNode) -> ParquetNodeView
    decreases node,
{
    match node {
        ParquetNode::Primitive { id } => ParquetNodeView::Primitive { id },
        ParquetNode::Group { fields } => ParquetNodeView::Group { fields: nodes_view(fields@) },
    }
}

pub open spec fn nodes_view(nodes: Seq<ParquetNode>) -> Seq<ParquetNodeView>
    decreases nodes,
{
    if nodes.len() == 0 {
        seq![]
    } else {
        nodes_view(nodes.drop_last()).push(node_view(nodes.last()))
    }
}

/// The field ids of the columns of `node`, depth first; `None` for a column without one.
pub open spec fn column_ids(node: ParquetNodeView) -> Seq<Option<i32>>
    decreases node,
{
    match node {
        ParquetNodeView::Primitive { id } => seq![id],
        ParquetNodeView::Group { fields } => column_ids_of_all(fields),
    }
}

/// The field ids of the columns of each of `nodes`, in order.
pub open spec fn column_ids_of_all(nodes: Seq<ParquetNodeView>) -> Seq<Option<i32>>
    decreases nodes,
{
    if nodes.len() == 0 {
        seq![]
    } else {
        column_ids_of_all(nodes.drop_last()) + column_ids(nodes.last())
    }
}

/// The position of the top-level node under which the column `column` stands.
pub open spec fn root_of_column(roots: Seq<ParquetNodeView>, column: int) -> int
    decreases roots.len(),
{
    if roots.len() == 0 {
        -1
    } else if column >= column_ids_of_all(roots.drop_last()).len() {
        roots.len() - 1
    } else {
        root_of_column(roots.drop_last(), column)
    }
}

#[verifier::external_type_specification]
#[verifier::external_body]
pub struct ExSchemaDescriptor(SchemaDescriptor);

#[verifier::external_type_specification]
#[verifier::external_body]
pub struct ExParquetType(ParquetType);

#[verifier::external_type_specification]
#[verifier::external_body]
pub struct ExProjectionMask(ProjectionMask);

/// What a Parquet type holds: a column with its field id, or the types of a group's fields.
pub uninterp spec fn parquet_type(ty: ParquetType) -> ParquetNodeView;

/// The top-level types of a Parquet schema.
pub uninterp spec fn parquet_roots(schema: SchemaDescriptor) -> Seq<ParquetNodeView>;

/// The columns that a mask selects, one flag for each; `None` where it selects every column of
/// whatever file it is applied to.
pub uninterp spec fn mask_flags(mask: ProjectionMask) -> Option<Seq<bool>>;

/// `Type::is_primitive` tells columns from groups.
pub assume_specification[ ParquetType::is_primitive ](ty: &ParquetType) -> (primitive: bool)
    ensures
        primitive == (parquet_type(*ty) is Primitive),
;

/// `Type::get_fields`: the types of a group's fields, in order. It panics on a column.
#[verifier::external_body]
fn group_fields(ty: &ParquetType) -> (fields: Vec<Arc<ParquetType>>)
    requires
        parquet_type(*ty) is Group,
    ensures
        fields@.len() == parquet_type(*ty)->fields.len(),
        forall|i: int|
            0 <= i < fields@.len() ==> parquet_type(*#[trigger] fields@[i]) == parquet_type(
                *ty,
            )->fields[i],
{
    ty.get_fields().to_vec()
}

/// `BasicTypeInfo::has_id` and `BasicTypeInfo::id` on the `Type::get_basic_info` of a column: its
/// field id, where it has one. `id` panics where `has_id` is false.
#[verifier::external_body]
fn primitive_id(ty: &ParquetType) -> (id: Option<i32>)
    requires
        parquet_type(*ty) is Primitive,
    ensures
        parquet_type(*ty)->id == id,
{
    let info = ty.get_basic_info();
    if info.has_id() {
        Some(info.id())
    } else {
        None
    }
}

/// `SchemaDescriptor::root_schema` and then `Type::get_fields`: the top-level types, in order. The
/// root of a descriptor is always a group.
#[verifier::external_body]
pub(crate) fn root_fields(schema: &SchemaDescriptor) -> (fields: Vec<Arc<ParquetType>>)
    ensures
        fields@.len() == parquet_roots(*schema).len(),
        forall|i: int|
            0 <= i < fields@.len() ==> parquet_type(*#[trigger] fields@[i]) == parquet_roots(
                *schema,
            )[i],
{
    schema.root_schema().get_fields().to_vec()
}

/// `SchemaDescriptor::columns`, each by its `ColumnDescriptor::self_type`: one entry for every
/// column below the root, depth first. A descriptor makes entries of columns alone, so none is a
/// group.
#[verifier::external_body]
pub(crate) fn leaf_columns(schema: &SchemaDescriptor) -> (columns: Vec<LeafColumn>)
    ensures
        columns@.len() == column_ids_of_all(parquet_roots(*schema)).len(),
        forall|i: int|
            0 <= i < columns@.len() ==> #[trigger] columns@[i] == (LeafColumn::Primitive {
                id: column_ids_of_all(parquet_roots(*schema))[i],
            }),
{
    schema.columns().iter().map(|column| match column.self_type() {
        ParquetType::PrimitiveType { basic_info, .. } => LeafColumn::Primitive {
            id: if basic_info.has_id() { Some(basic_info.id()) } else { None },
        },
        group => LeafColumn::Group { debug: format!("{group:?}") },
    }).collect()
}

/// `SchemaDescriptor::num_columns` counts the columns below the root.
pub assume_specification[ SchemaDescriptor::num_columns ](schema: &SchemaDescriptor) -> (count:
    usize)
    ensures
        count == column_ids_of_all(parquet_roots(*schema)).len(),
;

/// `ProjectionMask::all` selects every column.
pub assume_specification[ ProjectionMask::all ]() -> (mask: ProjectionMask)
    ensures
        mask_flags(mask) is None,
;

/// `ProjectionMask::leaves` selects the columns at the given positions; repetition and order do
/// not matter. It panics on a position past the last column.
#[verifier::external_body]
pub(crate) fn mask_of_leaves(schema: &SchemaDescriptor, indices: Vec<usize>) -> (mask:
    ProjectionMask)
    requires
        forall|k: int|
            0 <= k < indices@.len() ==> #[trigger] indices@[k] < column_ids_of_all(
                parquet_roots(*schema),
            ).len(),
    ensures
        mask_flags(mask) == Some(
            leaf_flags(column_ids_of_all(parquet_roots(*schema)).len(), indices@),
        ),
{
    ProjectionMask::leaves(schema, indices)
}

/// `ProjectionMask::roots` selects every column under the top-level types at the given positions;
/// repetition and order do not matter. It panics on a position past the last top-level type.
#[verifier::external_body]
pub(crate) fn mask_of_roots(schema: &SchemaDescriptor, indices: Vec<usize>) -> (mask:
    ProjectionMask)
    requires
        forall|k: int|
            0 <= k < indices@.len() ==> #[trigger] indices@[k] < parquet_roots(*schema).len(),
    ensures
        mask_flags(mask) == Some(root_flags(parquet_roots(*schema), indices@)),
{
    ProjectionMask::roots(schema, indices)
}

/// The flags of `count` columns, set at `indices`.
pub open spec fn leaf_flags(count: nat, indices: Seq<usize>) -> Seq<bool> {
    Seq::new(count, |column: int| indices.contains(column as usize))
}

/// The flags of the columns below `roots`, set under the top-level types at `indices`.
pub open spec fn root_flags(roots: Seq<ParquetNodeView>, indices: Seq<usize>) -> Seq<bool> {
    Seq::new(
        column_ids_of_all(roots).len(),
        |column: int| indices.contains(root_of_column(roots, column) as usize),
    )
}

/// Reads a Parquet type.
fn read_parquet_type(ty: &ParquetType) -> (node: ParquetNode)
    ensures
        node_view(node) == parquet_type(*ty),
    decreases parquet_type(*ty),
{
    if ty.is_primitive() {
        ParquetNode::Primitive { id: primitive_id(ty) }
    } else {
        let children = group_fields(ty);
        let mut fields: Vec<ParquetNode> = Vec::new();
        let ghost wanted = parquet_type(*ty)->fields;
        let mut i: usize = 0;
        while i < children.len()
            invariant
                i <= children.len(),
                parquet_type(*ty) is Group,
                wanted == parquet_type(*ty)->fields,
                children@.len() == wanted.len(),
                forall|j: int|
                    0 <= j < children@.len() ==> parquet_type(*#[trigger] children@[j])
                        == wanted[j],
                nodes_view(fields@) =~= wanted.take(i as int),
            decreases children.len() - i,
        {
            let node = read_parquet_type(&children[i]);
            let ghost before = fields@;
            fields.push(node);
            assert(fields@.drop_last() =~= before);
            i = i + 1;
        }
        assert(nodes_view(fields@) =~= wanted);
        ParquetNode::Group { fields }
    }
}

/// Reads the top-level types of a Parquet schema.
pub fn read_parquet_roots(schema: &SchemaDescriptor) -> (roots: Vec<ParquetNode>)
    ensures
        nodes_view(roots@) == parquet_roots(*schema),
{
    let children = root_fields(schema);
    let mut roots: Vec<ParquetNode> = Vec::new();
    let ghost wanted = parquet_roots(*schema);
    let mut i: usize = 0;
    while i < children.len()
        invariant
            i <= children.len(),
            children@.len() == wanted.len(),
            forall|j: int|
                0 <= j < children@.len() ==> parquet_type(*#[trigger] children@[j]) == wanted[j],
            nodes_view(roots@) =~= wanted.take(i as int),
        decreases children.len() - i,
    {
        let node = read_parquet_type(&children[i]);
        let ghost before = roots@;
        roots.push(node);
        assert(roots@.drop_last() =~= before);
        i = i + 1;
    }
    assert(nodes_view(roots@) =~= wanted);
    roots
}

} // verus!
