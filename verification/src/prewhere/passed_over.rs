//! Filters that are passed over for want of a column, so that a scan can warn of
//! them.
use crate::columnar::{batch_fields, column_with_name, Batch};
use crate::filter::{
    ColumnPredicate, MaybeFilter, PhysicalFilterContext, PhysicalPredicate, SimpleFilterContext,
};
use crate::prewhere::apply::{is_run, skips, FilterStep};
use crate::read_format::{ColumnId, ReadFormat, RegionMetadata, SemanticType};
use crate::search::lemma_first_index;
use crate::tag_decode::{PrimaryKeyCodec, TagDecodeView};
use vstd::prelude::*;

verus! {

/// The positions of the filters that a batch has no column for.
#[derive(Debug)]
pub struct PassedOver {
    /// Simple filters on columns other than tags.
    pub filters: Vec<usize>,
    /// Simple filters on tags that are no tags of the region.
    pub tag_filters: Vec<usize>,
    /// Physical filters.
    pub physical_filters: Vec<usize>,
}

/// Whether a region has a tag column to decode under an id.
pub open spec fn has_tag_column(metadata: RegionMetadata, column_id: ColumnId) -> bool {
    metadata.primary_key@.contains(column_id) && metadata.column_ids().contains(column_id)
}

/// Whether a filter has to be evaluated and there is no column for it: the batch
/// has none of that name, and it is no tag that could be decoded.
pub open spec fn lacks_column<T>(
    filter: MaybeFilter<T>,
    column_id: ColumnId,
    semantic_type: SemanticType,
    name: Seq<char>,
    batch: Batch,
    metadata: RegionMetadata,
    skip_fields: bool,
) -> bool {
    &&& filter is Filter
    &&& !skips(skip_fields, semantic_type)
    &&& !batch_fields(batch).contains(name)
    &&& semantic_type == SemanticType::Tag ==> !has_tag_column(metadata, column_id)
}

/// Whether there is no column for a simple filter.
pub open spec fn simple_lacks_column<F>(
    filter: SimpleFilterContext<F>,
    batch: Batch,
    metadata: RegionMetadata,
    skip_fields: bool,
) -> bool {
    lacks_column(
        filter.filter,
        filter.column_id,
        filter.semantic_type,
        filter.filter->Filter_0.column_name@,
        batch,
        metadata,
        skip_fields,
    )
}

/// Whether there is no column for a physical filter.
pub open spec fn physical_lacks_column<P>(
    filter: PhysicalFilterContext<P>,
    batch: Batch,
    metadata: RegionMetadata,
    skip_fields: bool,
) -> bool {
    lacks_column(
        filter.filter,
        filter.column_id,
        filter.semantic_type,
        filter.column_name@,
        batch,
        metadata,
        skip_fields,
    )
}

/// Whether none of the first `n` simple filters is known to match no row, so that
/// what comes after them is looked at.
pub open spec fn none_pruned<F>(filters: Seq<SimpleFilterContext<F>>, n: int) -> bool {
    forall|i: int| 0 <= i < n ==> !((#[trigger] filters[i]).filter is Pruned)
}

/// Whether none of the first `n` physical filters is known to match no row.
pub open spec fn no_physical_pruned<P>(filters: Seq<PhysicalFilterContext<P>>, n: int) -> bool {
    forall|i: int| 0 <= i < n ==> !((#[trigger] filters[i]).filter is Pruned)
}

/// Whether a list holds just the positions below `n` with a property, in order.
pub open spec fn lists_positions(
    positions: Seq<usize>,
    n: int,
    property: spec_fn(int) -> bool,
) -> bool {
    &&& forall|i: int, j: int| 0 <= i < j < positions.len() ==> positions[i] < positions[j]
    &&& forall|p: usize| #[trigger] positions.contains(p) <==> p < n && property(p as int)
}

/// A list of positions up to `n` is one up to `n + 1` where the position `n` is
/// added if it has the property.
proof fn lemma_next_position(
    before: Seq<usize>,
    after: Seq<usize>,
    n: usize,
    property: spec_fn(int) -> bool,
)
    requires
        lists_positions(before, n as int, property),
        after == if property(n as int) {
            before.push(n)
        } else {
            before
        },
    ensures
        lists_positions(after, n + 1, property),
{
    assert forall|p: usize| #[trigger] after.contains(p) <==> p < n + 1 && property(p as int) by {
        if before.contains(p) {
            let i = choose|i: int| 0 <= i < before.len() && before[i] == p;
            assert(after[i] == p);
        }
        if property(n as int) {
            assert(after[before.len() as int] == n);
        }
        if after.contains(p) {
            let i = choose|i: int| 0 <= i < after.len() && after[i] == p;
            if i < before.len() {
                assert(before[i] == p);
                assert(before.contains(p));
            }
        }
    }
    assert forall|i: int, j: int| 0 <= i < j < after.len() implies after[i] < after[j] by {
        assert(before.contains(before[i]));
    }
}

/// Returns whether there is no column for a filter that has to be evaluated.
fn is_without_column(
    column_id: ColumnId,
    semantic_type: SemanticType,
    name: &str,
    batch: &Batch,
    metadata: &RegionMetadata,
    skip_fields: bool,
) -> (lacking: bool)
    ensures
        lacking == {
            &&& !skips(skip_fields, semantic_type)
            &&& !batch_fields(*batch).contains(name@)
            &&& semantic_type == SemanticType::Tag ==> !has_tag_column(*metadata, column_id)
        },
{
    if skip_fields && semantic_type == SemanticType::Field {
        return false;
    }
    proof {
        lemma_first_index(batch_fields(*batch), name@);
        lemma_first_index(metadata.primary_key@, column_id);
        lemma_first_index(metadata.column_ids(), column_id);
    }
    if column_with_name(&batch.schema(), name).is_some() {
        return false;
    }
    semantic_type != SemanticType::Tag || metadata.primary_key_index(column_id).is_none()
        || metadata.column_index_by_id(column_id).is_none()
}

/// Finds the filters that are passed over because there is no column for them, up
/// to the first filter that is known to match no row.
pub fn passed_over_filters<F, P>(
    batch: &Batch,
    filters: &[SimpleFilterContext<F>],
    physical_filters: &[PhysicalFilterContext<P>],
    read_format: &ReadFormat,
    skip_fields: bool,
) -> (passed: PassedOver)
    ensures
        lists_positions(
            passed.filters@,
            filters@.len() as int,
            |i: int|
                none_pruned(filters@, i) && filters@[i].semantic_type != SemanticType::Tag
                    && simple_lacks_column(
                    filters@[i],
                    *batch,
                    read_format.spec_metadata(),
                    skip_fields,
                ),
        ),
        lists_positions(
            passed.tag_filters@,
            filters@.len() as int,
            |i: int|
                none_pruned(filters@, i) && filters@[i].semantic_type == SemanticType::Tag
                    && simple_lacks_column(
                    filters@[i],
                    *batch,
                    read_format.spec_metadata(),
                    skip_fields,
                ),
        ),
        lists_positions(
            passed.physical_filters@,
            physical_filters@.len() as int,
            |i: int|
                none_pruned(filters@, filters@.len() as int) && no_physical_pruned(
                    physical_filters@,
                    i,
                ) && physical_lacks_column(
                    physical_filters@[i],
                    *batch,
                    read_format.spec_metadata(),
                    skip_fields,
                ),
        ),
        forall|p: usize| #[trigger]
            passed.filters@.contains(p) <==> {
                &&& p < filters@.len()
                &&& filters@[p as int].filter is Filter
                &&& filters@[p as int].semantic_type != SemanticType::Tag
                &&& !(skip_fields && filters@[p as int].semantic_type == SemanticType::Field)
                &&& !batch_fields(*batch).contains(filters@[p as int].filter->Filter_0.column_name@)
                &&& filters@[p as int].semantic_type == SemanticType::Tag ==> !(
                read_format.spec_metadata().primary_key@.contains(filters@[p as int].column_id)
                    && read_format.spec_metadata().column_ids().contains(
                    filters@[p as int].column_id,
                ))
                &&& forall|k: int|
                    0 <= k < p ==> !((#[trigger] filters@[k]).filter is Pruned)
            },
        forall|p: usize| #[trigger]
            passed.tag_filters@.contains(p) <==> {
                &&& p < filters@.len()
                &&& filters@[p as int].filter is Filter
                &&& filters@[p as int].semantic_type == SemanticType::Tag
                &&& !(skip_fields && filters@[p as int].semantic_type == SemanticType::Field)
                &&& !batch_fields(*batch).contains(filters@[p as int].filter->Filter_0.column_name@)
                &&& filters@[p as int].semantic_type == SemanticType::Tag ==> !(
                read_format.spec_metadata().primary_key@.contains(filters@[p as int].column_id)
                    && read_format.spec_metadata().column_ids().contains(
                    filters@[p as int].column_id,
                ))
                &&& forall|k: int|
                    0 <= k < p ==> !((#[trigger] filters@[k]).filter is Pruned)
            },
        forall|p: usize| #[trigger]
            passed.physical_filters@.contains(p) <==> {
                &&& p < physical_filters@.len()
                &&& physical_filters@[p as int].filter is Filter
                &&& !(skip_fields && physical_filters@[p as int].semantic_type == SemanticType::Field)
                &&& !batch_fields(*batch).contains(physical_filters@[p as int].column_name@)
                &&& physical_filters@[p as int].semantic_type == SemanticType::Tag ==> !(
                read_format.spec_metadata().primary_key@.contains(physical_filters@[p as int].column_id)
                    && read_format.spec_metadata().column_ids().contains(
                    physical_filters@[p as int].column_id,
                ))
                &&& forall|k: int|
                    0 <= k < p ==> !((#[trigger] physical_filters@[k]).filter is Pruned)
                &&& forall|k: int|
                    0 <= k < filters@.len() ==> !((#[trigger] filters@[k]).filter is Pruned)
            },
        forall|i: int, j: int|
            0 <= i < j < passed.filters@.len() ==> passed.filters@[i] < passed.filters@[j],
        forall|i: int, j: int|
            0 <= i < j < passed.tag_filters@.len() ==> passed.tag_filters@[i] < passed.tag_filters@[j],
        forall|i: int, j: int|
            0 <= i < j < passed.physical_filters@.len() ==> passed.physical_filters@[i] < passed.physical_filters@[j],
{
    let metadata = read_format.metadata();
    let ghost others_lack = |i: int|
        none_pruned(filters@, i) && filters@[i].semantic_type != SemanticType::Tag
            && simple_lacks_column(filters@[i], *batch, read_format.spec_metadata(), skip_fields);
    let ghost tags_lack = |i: int|
        none_pruned(filters@, i) && filters@[i].semantic_type == SemanticType::Tag
            && simple_lacks_column(filters@[i], *batch, read_format.spec_metadata(), skip_fields);
    let ghost physical_lack = |i: int|
        none_pruned(filters@, filters@.len() as int) && no_physical_pruned(physical_filters@, i)
            && physical_lacks_column(
            physical_filters@[i],
            *batch,
            read_format.spec_metadata(),
            skip_fields,
        );
    let mut others: Vec<usize> = Vec::new();
    let mut tags: Vec<usize> = Vec::new();
    let mut physical: Vec<usize> = Vec::new();
    let mut pruned = false;

    let mut i: usize = 0;
    while i < filters.len()
        invariant
            i <= filters@.len(),
            *metadata == read_format.spec_metadata(),
            pruned == !none_pruned(filters@, i as int),
            others_lack == |i: int|
                none_pruned(filters@, i) && filters@[i].semantic_type != SemanticType::Tag
                    && simple_lacks_column(
                    filters@[i],
                    *batch,
                    read_format.spec_metadata(),
                    skip_fields,
                ),
            tags_lack == |i: int|
                none_pruned(filters@, i) && filters@[i].semantic_type == SemanticType::Tag
                    && simple_lacks_column(
                    filters@[i],
                    *batch,
                    read_format.spec_metadata(),
                    skip_fields,
                ),
            lists_positions(others@, i as int, others_lack),
            lists_positions(tags@, i as int, tags_lack),
        decreases filters@.len() - i,
    {
        let filter_ctx = &filters[i];
        let ghost before = others@;
        let ghost tags_before = tags@;
        let ghost was_pruned = pruned;
        match &filter_ctx.filter {
            MaybeFilter::Filter(filter) => {
                if !pruned && is_without_column(
                    filter_ctx.column_id,
                    filter_ctx.semantic_type,
                    filter.column_name.as_str(),
                    batch,
                    metadata,
                    skip_fields,
                ) {
                    if filter_ctx.semantic_type == SemanticType::Tag {
                        tags.push(i);
                    } else {
                        others.push(i);
                    }
                }
            },
            MaybeFilter::Matched => {},
            MaybeFilter::Pruned => {
                pruned = true;
            },
        }
        proof {
            lemma_next_position(before, others@, i, others_lack);
            lemma_next_position(tags_before, tags@, i, tags_lack);
            assert(filters@[i as int] == *filter_ctx);
            assert(pruned == !none_pruned(filters@, i + 1));
        }
        i += 1;
    }

    let ghost any_pruned = pruned;
    let mut k: usize = 0;
    while k < physical_filters.len()
        invariant
            k <= physical_filters@.len(),
            *metadata == read_format.spec_metadata(),
            any_pruned == !none_pruned(filters@, filters@.len() as int),
            pruned == (any_pruned || !no_physical_pruned(physical_filters@, k as int)),
            physical_lack == |i: int|
                none_pruned(filters@, filters@.len() as int) && no_physical_pruned(
                    physical_filters@,
                    i,
                ) && physical_lacks_column(
                    physical_filters@[i],
                    *batch,
                    read_format.spec_metadata(),
                    skip_fields,
                ),
            lists_positions(physical@, k as int, physical_lack),
        decreases physical_filters@.len() - k,
    {
        let filter_ctx = &physical_filters[k];
        let ghost before = physical@;
        match &filter_ctx.filter {
            MaybeFilter::Filter(_) => {
                if !pruned && is_without_column(
                    filter_ctx.column_id,
                    filter_ctx.semantic_type,
                    filter_ctx.column_name.as_str(),
                    batch,
                    metadata,
                    skip_fields,
                ) {
                    physical.push(k);
                }
            },
            MaybeFilter::Matched => {},
            MaybeFilter::Pruned => {
                pruned = true;
            },
        }
        proof {
            lemma_next_position(before, physical@, k, physical_lack);
            assert(physical_filters@[k as int] == *filter_ctx);
            assert(pruned == (any_pruned || !no_physical_pruned(physical_filters@, k + 1)));
        }
        k += 1;
    }
    PassedOver { filters: others, tag_filters: tags, physical_filters: physical }
}

/// A simple filter that has to be evaluated and did not fail kept every row
/// unseen exactly if there is no column for it.
pub proof fn law_simple_without_column_is_skipped<
    E,
    F: ColumnPredicate<E>,
    P: PhysicalPredicate<E>,
    C: PrimaryKeyCodec<E>,
>(
    batch: &Batch,
    filters: Seq<SimpleFilterContext<F>>,
    physical_filters: Seq<PhysicalFilterContext<P>>,
    metadata: &RegionMetadata,
    codec: &C,
    skip_fields: bool,
    steps: Seq<FilterStep<E>>,
    states: Seq<TagDecodeView<C::Decoded>>,
    index: int,
)
    requires
        is_run(
            batch,
            filters,
            physical_filters,
            metadata,
            codec,
            skip_fields,
            steps,
            states,
        ),
        0 <= index < steps.len(),
        index < filters.len(),
        filters[index].filter is Filter,
        !skips(skip_fields, filters[index].semantic_type),
        !(steps[index] is Fail),
    ensures
        steps[index] is Skip <==> simple_lacks_column(
            filters[index],
            *batch,
            *metadata,
            skip_fields,
        ),
{
    let filter = filters[index];
    lemma_first_index(batch_fields(*batch), filter.filter->Filter_0.column_name@);
    lemma_first_index(metadata.primary_key@, filter.column_id);
    lemma_first_index(metadata.column_ids(), filter.column_id);
    lemma_no_unknown_columns(
        batch,
        filters,
        physical_filters,
        metadata,
        codec,
        skip_fields,
        steps,
        states,
        index,
    );
    let step = steps[index];
}

/// A physical filter that has to be evaluated and did not fail kept every row
/// unseen exactly if there is no column for it.
pub proof fn law_physical_without_column_is_skipped<
    E,
    F: ColumnPredicate<E>,
    P: PhysicalPredicate<E>,
    C: PrimaryKeyCodec<E>,
>(
    batch: &Batch,
    filters: Seq<SimpleFilterContext<F>>,
    physical_filters: Seq<PhysicalFilterContext<P>>,
    metadata: &RegionMetadata,
    codec: &C,
    skip_fields: bool,
    steps: Seq<FilterStep<E>>,
    states: Seq<TagDecodeView<C::Decoded>>,
    index: int,
)
    requires
        is_run(
            batch,
            filters,
            physical_filters,
            metadata,
            codec,
            skip_fields,
            steps,
            states,
        ),
        0 <= index < physical_filters.len(),
        filters.len() + index < steps.len(),
        physical_filters[index].filter is Filter,
        !skips(skip_fields, physical_filters[index].semantic_type),
        !(steps[filters.len() + index] is Fail),
    ensures
        steps[filters.len() + index] is Skip <==> physical_lacks_column(
            physical_filters[index],
            *batch,
            *metadata,
            skip_fields,
        ),
{
    let filter = physical_filters[index];
    lemma_first_index(batch_fields(*batch), filter.column_name@);
    lemma_first_index(metadata.primary_key@, filter.column_id);
    lemma_first_index(metadata.column_ids(), filter.column_id);
    lemma_no_unknown_columns(
        batch,
        filters,
        physical_filters,
        metadata,
        codec,
        skip_fields,
        steps,
        states,
        filters.len() + index,
    );
    let step = steps[filters.len() + index];
}

/// Only tag columns of the region are ever decoded.
proof fn lemma_no_unknown_columns<
    E,
    F: ColumnPredicate<E>,
    P: PhysicalPredicate<E>,
    C: PrimaryKeyCodec<E>,
>(
    batch: &Batch,
    filters: Seq<SimpleFilterContext<F>>,
    physical_filters: Seq<PhysicalFilterContext<P>>,
    metadata: &RegionMetadata,
    codec: &C,
    skip_fields: bool,
    steps: Seq<FilterStep<E>>,
    states: Seq<TagDecodeView<C::Decoded>>,
    n: int,
)
    requires
        is_run(
            batch,
            filters,
            physical_filters,
            metadata,
            codec,
            skip_fields,
            steps,
            states,
        ),
        0 <= n <= steps.len(),
    ensures
        forall|id: ColumnId| #[trigger]
            states[n].columns.contains_key(id) ==> has_tag_column(*metadata, id),
    decreases n,
{
    if n > 0 {
        lemma_no_unknown_columns(
            batch,
            filters,
            physical_filters,
            metadata,
            codec,
            skip_fields,
            steps,
            states,
            n - 1,
        );
        let step = steps[n - 1];
        let column_id = if n - 1 < filters.len() {
            filters[n - 1].column_id
        } else {
            physical_filters[n - 1 - filters.len()].column_id
        };
        lemma_first_index(metadata.primary_key@, column_id);
        lemma_first_index(metadata.column_ids(), column_id);
    }
}

} // verus!
