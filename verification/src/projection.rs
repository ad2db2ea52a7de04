//! Parquet's projection masks: which columns of a file are read.
use parquet::arrow::ProjectionMask;
use parquet::schema::types::SchemaDescriptor;
use vstd::prelude::*;

verus! {

/// Parquet's set of the leaf columns to read.
#[verifier::external_type_specification]
#[verifier::external_body]
pub struct ExProjectionMask(ProjectionMask);

/// Parquet's schema of a file.
#[verifier::external_type_specification]
#[verifier::external_body]
pub struct ExSchemaDescriptor(SchemaDescriptor);

/// For each leaf column, whether a mask includes it. `None` includes all.
pub uninterp spec fn mask_leaves(mask: ProjectionMask) -> Option<Seq<bool>>;

/// For each leaf column of a file, the position of the root column that it
/// belongs to.
pub uninterp spec fn leaf_roots(schema: SchemaDescriptor) -> Seq<usize>;

/// The number of root columns of a file.
pub uninterp spec fn root_count(schema: SchemaDescriptor) -> nat;

/// The mask that includes the leaves of some root columns and no others, where
/// each leaf belongs to the root in `leaf_roots`.
pub open spec fn leaves_of_roots(leaf_roots: Seq<usize>, roots: Set<usize>) -> Seq<bool> {
    Seq::new(leaf_roots.len(), |leaf: int| roots.contains(leaf_roots[leaf]))
}

/// `ProjectionMask::roots`: the mask of the leaves of the root columns at
/// `indices`. It panics on an index beyond the root columns.
#[verifier::external_body]
pub(crate) fn roots(schema: &SchemaDescriptor, indices: &Vec<usize>) -> (mask: ProjectionMask)
    requires
        forall|i: int| 0 <= i < indices@.len() ==> #[trigger] indices@[i] < root_count(*schema),
    ensures
        mask_leaves(mask) == Some(leaves_of_roots(leaf_roots(*schema), indices@.to_set())),
{
    ProjectionMask::roots(schema, indices.iter().copied())
}

/// The number of fields of `SchemaDescriptor::root_schema`: how many root
/// columns a file has.
#[verifier::external_body]
pub(crate) fn num_roots(schema: &SchemaDescriptor) -> (count: usize)
    ensures
        count == root_count(*schema),
{
    schema.root_schema().get_fields().len()
}

/// A mask of root columns includes a leaf exactly if it belongs to one of them.
pub proof fn law_leaves_of_roots(leaf_roots: Seq<usize>, roots: Set<usize>)
    ensures
        leaves_of_roots(leaf_roots, roots).len() == leaf_roots.len(),
        forall|leaf: int|
            0 <= leaf < leaf_roots.len() ==> (#[trigger] leaves_of_roots(leaf_roots, roots)[leaf]
                <==> roots.contains(leaf_roots[leaf])),
{
}

} // verus!
