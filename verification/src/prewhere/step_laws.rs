//! What each filter does to a batch, in terms of the calls that are made to its
//! predicate and to the primary key codec.
use crate::columnar::{
    batch_columns, batch_fields, batch_rows, boolean_values, buffer_bits, column_misfit,
    column_rows, lemma_count_set_zero, schema_fields, Batch, Column,
};
use crate::filter::{
    ColumnPredicate, PhysicalFilterContext, PhysicalPredicate, SimpleFilterContext,
};
use crate::prewhere::apply::{
    applies_at, combined_mask, filters_give, is_run, run_gives, FilterStep, PrewhereError,
};
use crate::read_format::{RegionMetadata, SemanticType};
use crate::search::law_first_index;
use crate::tag_decode::{decodes_tag, PrimaryKeyCodec, TagDecodeView};
use arrow::buffer::BooleanBuffer;
use std::sync::Arc;
use vstd::prelude::*;

verus! {

/// The step of a filter in a run is one that the filter could make.
proof fn lemma_step<
    E,
    F: ColumnPredicate<E>,
    P: PhysicalPredicate<E>,
    C: PrimaryKeyCodec<E>,
>(
    batch: &Batch,
    filters: Seq<SimpleFilterContext<F>>,
    physical_filters: Seq<PhysicalFilterContext<P>>,
    metadata: &RegionMetadata,
    codec: &C,
    skip_fields: bool,
    steps: Seq<FilterStep<E>>,
    states: Seq<TagDecodeView<C::Decoded>>,
    i: int,
)
    requires
        is_run(
            batch,
            filters,
            physical_filters,
            metadata,
            codec,
            skip_fields,
            steps,
            states,
        ),
        0 <= i < steps.len(),
    ensures
        applies_at(
            batch,
            filters,
            physical_filters,
            metadata,
            codec,
            skip_fields,
            i,
            states[i],
            states[i + 1],
            steps[i],
        ),
{
    let step = steps[i];
}

/// What the filters give comes of a run of them.
pub proof fn law_filters_are_run<
    E,
    F: ColumnPredicate<E>,
    P: PhysicalPredicate<E>,
    C: PrimaryKeyCodec<E>,
>(
    batch: &Batch,
    filters: Seq<SimpleFilterContext<F>>,
    physical_filters: Seq<PhysicalFilterContext<P>>,
    metadata: &RegionMetadata,
    codec: &C,
    skip_fields: bool,
    result: Result<Option<BooleanBuffer>, PrewhereError<E>>,
)
    requires
        filters_give(batch, filters, physical_filters, metadata, codec, skip_fields, result),
    ensures
        exists|steps: Seq<FilterStep<E>>, states: Seq<TagDecodeView<C::Decoded>>|
            #[trigger] is_run(
                batch,
                filters,
                physical_filters,
                metadata,
                codec,
                skip_fields,
                steps,
                states,
            ) && run_gives(batch_rows(*batch), steps, result),
{
}

/// A run starts with nothing decoded and makes one step for each filter, the
/// simple ones first. It ends early only at a filter that drops every row or
/// fails. Each mask has one bit for each row.
pub proof fn law_run_makes_a_step_for_each_filter<
    E,
    F: ColumnPredicate<E>,
    P: PhysicalPredicate<E>,
    C: PrimaryKeyCodec<E>,
>(
    batch: &Batch,
    filters: Seq<SimpleFilterContext<F>>,
    physical_filters: Seq<PhysicalFilterContext<P>>,
    metadata: &RegionMetadata,
    codec: &C,
    skip_fields: bool,
    steps: Seq<FilterStep<E>>,
    states: Seq<TagDecodeView<C::Decoded>>,
)
    requires
        is_run(
            batch,
            filters,
            physical_filters,
            metadata,
            codec,
            skip_fields,
            steps,
            states,
        ),
    ensures
        states.len() == steps.len() + 1,
        states[0].decoded is None,
        states[0].columns == Map::<u32, Arc<Column>>::empty(),
        steps.len() == filters.len() + physical_filters.len() || steps.len() < filters.len()
            + physical_filters.len() && steps.len() > 0 && (steps.last() is Prune
            || steps.last() is Fail),
        forall|i: int|
            0 <= i < steps.len() - 1 ==> !(#[trigger] steps[i] is Prune) && !(steps[i] is Fail),
        forall|i: int|
            0 <= i < steps.len() ==> ((#[trigger] steps[i]) matches FilterStep::Mask(buffer)
                ==> buffer_bits(buffer).len() == batch_rows(*batch)),
{
    assert forall|i: int| 0 <= i < steps.len() - 1 implies !(#[trigger] steps[i] is Prune)
        && !(steps[i] is Fail) by {
        assert(!steps[i].stops());
    }
    assert forall|i: int| 0 <= i < steps.len() implies ((
    #[trigger] steps[i]) matches FilterStep::Mask(buffer) ==> buffer_bits(buffer).len()
        == batch_rows(*batch)) by {
        assert(steps[i].fits(batch_rows(*batch)));
    }
}

/// A run that leaves a mask came to its end, and the mask has the bit of a row
/// set exactly if every mask of a step has it set. It has at least one bit set.
pub proof fn law_mask_is_the_conjunction<
    E,
    F: ColumnPredicate<E>,
    P: PhysicalPredicate<E>,
    C: PrimaryKeyCodec<E>,
>(
    batch: &Batch,
    filters: Seq<SimpleFilterContext<F>>,
    physical_filters: Seq<PhysicalFilterContext<P>>,
    metadata: &RegionMetadata,
    codec: &C,
    skip_fields: bool,
    steps: Seq<FilterStep<E>>,
    states: Seq<TagDecodeView<C::Decoded>>,
    mask: BooleanBuffer,
)
    requires
        is_run(
            batch,
            filters,
            physical_filters,
            metadata,
            codec,
            skip_fields,
            steps,
            states,
        ),
        run_gives(
            batch_rows(*batch),
            steps,
            Ok::<Option<BooleanBuffer>, PrewhereError<E>>(Some(mask)),
        ),
    ensures
        steps.len() == filters.len() + physical_filters.len(),
        forall|i: int|
            0 <= i < steps.len() ==> !(#[trigger] steps[i] is Prune) && !(steps[i] is Fail),
        buffer_bits(mask).len() == batch_rows(*batch),
        forall|row: int|
            0 <= row < batch_rows(*batch) ==> (#[trigger] buffer_bits(mask)[row] <==> forall|i: int|
                0 <= i < steps.len() ==> ((#[trigger] steps[i]) matches FilterStep::Mask(buffer)
                    ==> buffer_bits(buffer)[row])),
        exists|row: int| 0 <= row < batch_rows(*batch) && #[trigger] buffer_bits(mask)[row],
{
    let rows = batch_rows(*batch);
    law_run_makes_a_step_for_each_filter(
        batch,
        filters,
        physical_filters,
        metadata,
        codec,
        skip_fields,
        steps,
        states,
    );
    lemma_count_set_zero(buffer_bits(mask));
    assert forall|i: int| 0 <= i < steps.len() implies !(#[trigger] steps[i] is Prune) && !(
    steps[i] is Fail) by {
        if i == steps.len() - 1 {
            assert(steps[i] == steps.last());
        }
    }
    assert forall|row: int| 0 <= row < rows implies (#[trigger] buffer_bits(mask)[row]
        <==> forall|i: int|
        0 <= i < steps.len() ==> ((#[trigger] steps[i]) matches FilterStep::Mask(buffer)
            ==> buffer_bits(buffer)[row])) by {
        if buffer_bits(mask)[row] {
            assert(combined_mask(rows, steps)[row]);
            assert forall|i: int| 0 <= i < steps.len() implies ((
            #[trigger] steps[i]) matches FilterStep::Mask(buffer) ==> buffer_bits(
                buffer,
            )[row]) by {
                assert(steps[i].passes(row));
            }
        } else {
            assert(!combined_mask(rows, steps)[row]);
            let i = choose|i: int| 0 <= i < steps.len() && !(#[trigger] steps[i]).passes(row);
            assert(steps[i] is Mask);
        }
    }
}

/// A run that leaves nothing ended at a filter that drops every row, or it came
/// to its end and each row is one that the mask of some step does not have set.
pub proof fn law_nothing_is_left_only_if_nothing_passes<
    E,
    F: ColumnPredicate<E>,
    P: PhysicalPredicate<E>,
    C: PrimaryKeyCodec<E>,
>(
    batch: &Batch,
    filters: Seq<SimpleFilterContext<F>>,
    physical_filters: Seq<PhysicalFilterContext<P>>,
    metadata: &RegionMetadata,
    codec: &C,
    skip_fields: bool,
    steps: Seq<FilterStep<E>>,
    states: Seq<TagDecodeView<C::Decoded>>,
    row: int,
)
    requires
        is_run(
            batch,
            filters,
            physical_filters,
            metadata,
            codec,
            skip_fields,
            steps,
            states,
        ),
        run_gives(
            batch_rows(*batch),
            steps,
            Ok::<Option<BooleanBuffer>, PrewhereError<E>>(None),
        ),
        0 <= row < batch_rows(*batch),
    ensures
        steps.len() > 0 && steps.last() is Prune || steps.len() == filters.len()
            + physical_filters.len() && exists|i: int|
            0 <= i < steps.len() && ((#[trigger] steps[i]) matches FilterStep::Mask(buffer)
                && !buffer_bits(buffer)[row]),
{
    let rows = batch_rows(*batch);
    lemma_count_set_zero(combined_mask(rows, steps));
    if !(steps.len() > 0 && steps.last() is Prune) {
        assert(!combined_mask(rows, steps)[row]);
        let i = choose|i: int| 0 <= i < steps.len() && !(#[trigger] steps[i]).passes(row);
        assert(steps[i] is Mask);
    }
}

/// A run that fails does so with the error of its last step.
pub proof fn law_error_is_the_last_steps<E>(
    rows: nat,
    steps: Seq<FilterStep<E>>,
    error: PrewhereError<E>,
)
    requires
        run_gives(rows, steps, Err::<Option<BooleanBuffer>, PrewhereError<E>>(error)),
    ensures
        steps.len() > 0,
        steps.last() == FilterStep::Fail(error),
{
}

/// A filter that is known to match every row keeps every row, one that is known
/// to match none drops every row, and a field filter that is passed over keeps
/// every row. None of them decodes anything.
pub proof fn law_known_simple_filter<
    E,
    F: ColumnPredicate<E>,
    P: PhysicalPredicate<E>,
    C: PrimaryKeyCodec<E>,
>(
    batch: &Batch,
    filters: Seq<SimpleFilterContext<F>>,
    physical_filters: Seq<PhysicalFilterContext<P>>,
    metadata: &RegionMetadata,
    codec: &C,
    skip_fields: bool,
    steps: Seq<FilterStep<E>>,
    states: Seq<TagDecodeView<C::Decoded>>,
    i: int,
)
    requires
        is_run(
            batch,
            filters,
            physical_filters,
            metadata,
            codec,
            skip_fields,
            steps,
            states,
        ),
        0 <= i < steps.len(),
        i < filters.len(),
    ensures
        filters[i].filter is Matched ==> steps[i] is Skip && states[i + 1] == states[i],
        filters[i].filter is Pruned ==> steps[i] is Prune && states[i + 1] == states[i],
        filters[i].filter is Filter && skip_fields && filters[i].semantic_type
            == SemanticType::Field ==> steps[i] is Skip && states[i + 1] == states[i],
        steps[i] is Prune ==> filters[i].filter is Pruned,
{
    lemma_step(batch, filters, physical_filters, metadata, codec, skip_fields, steps, states, i);
}

/// The same of a physical filter.
pub proof fn law_known_physical_filter<
    E,
    F: ColumnPredicate<E>,
    P: PhysicalPredicate<E>,
    C: PrimaryKeyCodec<E>,
>(
    batch: &Batch,
    filters: Seq<SimpleFilterContext<F>>,
    physical_filters: Seq<PhysicalFilterContext<P>>,
    metadata: &RegionMetadata,
    codec: &C,
    skip_fields: bool,
    steps: Seq<FilterStep<E>>,
    states: Seq<TagDecodeView<C::Decoded>>,
    i: int,
)
    requires
        is_run(
            batch,
            filters,
            physical_filters,
            metadata,
            codec,
            skip_fields,
            steps,
            states,
        ),
        0 <= i < physical_filters.len(),
        filters.len() + i < steps.len(),
    ensures
        ({
            let at = filters.len() + i;
            let filter = physical_filters[i];
            &&& filter.filter is Matched ==> steps[at] is Skip && states[at + 1] == states[at]
            &&& filter.filter is Pruned ==> steps[at] is Prune && states[at + 1] == states[at]
            &&& filter.filter is Filter && skip_fields && filter.semantic_type
                == SemanticType::Field ==> steps[at] is Skip && states[at + 1] == states[at]
            &&& steps[at] is Prune ==> filter.filter is Pruned
        }),
{
    let at = filters.len() + i;
    lemma_step(batch, filters, physical_filters, metadata, codec, skip_fields, steps, states, at);
}

/// A simple filter that has to be evaluated and whose column the batch has is
/// evaluated on the first column of that name, whatever kind of column it is:
/// its step is the predicate's answer. Nothing is decoded for it.
pub proof fn law_simple_filter_reads_its_column<
    E,
    F: ColumnPredicate<E>,
    P: PhysicalPredicate<E>,
    C: PrimaryKeyCodec<E>,
>(
    batch: &Batch,
    filters: Seq<SimpleFilterContext<F>>,
    physical_filters: Seq<PhysicalFilterContext<P>>,
    metadata: &RegionMetadata,
    codec: &C,
    skip_fields: bool,
    steps: Seq<FilterStep<E>>,
    states: Seq<TagDecodeView<C::Decoded>>,
    i: int,
    j: int,
)
    requires
        is_run(
            batch,
            filters,
            physical_filters,
            metadata,
            codec,
            skip_fields,
            steps,
            states,
        ),
        0 <= i < steps.len(),
        i < filters.len(),
        filters[i].filter is Filter,
        !(skip_fields && filters[i].semantic_type == SemanticType::Field),
        0 <= j < batch_fields(*batch).len(),
        batch_fields(*batch)[j] == filters[i].filter->Filter_0.column_name@,
        forall|k: int| 0 <= k < j ==> batch_fields(*batch)[k] != filters[i].filter->Filter_0.column_name@,
    ensures
        states[i + 1] == states[i],
        exists|answer: Result<BooleanBuffer, E>|
            {
                &&& #[trigger] call_ensures(
                    F::evaluate_array,
                    (&filters[i].filter->Filter_0.predicate, &batch_columns(*batch)[j]),
                    answer,
                )
                &&& answer matches Ok(buffer) ==> steps[i] == FilterStep::<E>::Mask(buffer)
                &&& answer matches Err(source) ==> steps[i] == FilterStep::Fail(
                    PrewhereError::RecordBatch { source },
                )
            },
{
    lemma_step(batch, filters, physical_filters, metadata, codec, skip_fields, steps, states, i);
    law_first_index(batch_fields(*batch), filters[i].filter->Filter_0.column_name@);
}

/// A simple filter that has to be evaluated on a tag that the batch has no column
/// for is evaluated on what a look-up of the tag gives; it keeps every row where
/// that is nothing, and fails where that fails.
pub proof fn law_simple_filter_reads_its_tag<
    E,
    F: ColumnPredicate<E>,
    P: PhysicalPredicate<E>,
    C: PrimaryKeyCodec<E>,
>(
    batch: &Batch,
    filters: Seq<SimpleFilterContext<F>>,
    physical_filters: Seq<PhysicalFilterContext<P>>,
    metadata: &RegionMetadata,
    codec: &C,
    skip_fields: bool,
    steps: Seq<FilterStep<E>>,
    states: Seq<TagDecodeView<C::Decoded>>,
    i: int,
)
    requires
        is_run(
            batch,
            filters,
            physical_filters,
            metadata,
            codec,
            skip_fields,
            steps,
            states,
        ),
        0 <= i < steps.len(),
        i < filters.len(),
        filters[i].filter is Filter,
        filters[i].semantic_type == SemanticType::Tag,
        !batch_fields(*batch).contains(filters[i].filter->Filter_0.column_name@),
    ensures
        exists|tag: Result<Option<Arc<Column>>, E>|
            {
                &&& #[trigger] decodes_tag(
                    metadata,
                    filters[i].column_id,
                    batch,
                    codec,
                    states[i],
                    states[i + 1],
                    tag,
                )
                &&& tag matches Ok(Some(found)) ==> exists|answer: Result<BooleanBuffer, E>|
                    {
                        &&& #[trigger] call_ensures(
                            F::evaluate_array,
                            (&filters[i].filter->Filter_0.predicate, &*found),
                            answer,
                        )
                        &&& answer matches Ok(buffer) ==> steps[i] == FilterStep::<E>::Mask(buffer)
                        &&& answer matches Err(source) ==> steps[i] == FilterStep::Fail(
                            PrewhereError::RecordBatch { source },
                        )
                    }
                &&& tag matches Ok(None) ==> steps[i] is Skip
                &&& tag matches Err(source) ==> steps[i] == FilterStep::Fail(
                    PrewhereError::DecodeTag { source },
                )
            },
{
    lemma_step(batch, filters, physical_filters, metadata, codec, skip_fields, steps, states, i);
    law_first_index(batch_fields(*batch), filters[i].filter->Filter_0.column_name@);
}

/// A filter that has to be evaluated on a column that is no tag and that the
/// batch does not have keeps every row and decodes nothing.
pub proof fn law_missing_column_keeps_every_row<
    E,
    F: ColumnPredicate<E>,
    P: PhysicalPredicate<E>,
    C: PrimaryKeyCodec<E>,
>(
    batch: &Batch,
    filters: Seq<SimpleFilterContext<F>>,
    physical_filters: Seq<PhysicalFilterContext<P>>,
    metadata: &RegionMetadata,
    codec: &C,
    skip_fields: bool,
    steps: Seq<FilterStep<E>>,
    states: Seq<TagDecodeView<C::Decoded>>,
    i: int,
)
    requires
        is_run(
            batch,
            filters,
            physical_filters,
            metadata,
            codec,
            skip_fields,
            steps,
            states,
        ),
        0 <= i < steps.len(),
    ensures
        i < filters.len() && filters[i].filter is Filter && filters[i].semantic_type
            != SemanticType::Tag && !batch_fields(*batch).contains(
            filters[i].filter->Filter_0.column_name@,
        ) ==> steps[i] is Skip && states[i + 1] == states[i],
        i >= filters.len() ==> ({
            let filter = physical_filters[i - filters.len()];
            filter.filter is Filter && filter.semantic_type != SemanticType::Tag && !batch_fields(
                *batch,
            ).contains(filter.column_name@) ==> steps[i] is Skip && states[i + 1] == states[i]
        }),
{
    lemma_step(batch, filters, physical_filters, metadata, codec, skip_fields, steps, states, i);
    if i < filters.len() {
        law_first_index(batch_fields(*batch), filters[i].filter->Filter_0.column_name@);
    } else {
        law_first_index(batch_fields(*batch), physical_filters[i - filters.len()].column_name@);
    }
}

/// A physical filter that has to be evaluated and whose column the batch has is
/// evaluated on a batch of just the first column of that name, under the
/// filter's own schema, which the column has to fit. Its answer has to be a
/// boolean column, whose values are its mask.
pub proof fn law_physical_filter_reads_its_column<
    E,
    F: ColumnPredicate<E>,
    P: PhysicalPredicate<E>,
    C: PrimaryKeyCodec<E>,
>(
    batch: &Batch,
    filters: Seq<SimpleFilterContext<F>>,
    physical_filters: Seq<PhysicalFilterContext<P>>,
    metadata: &RegionMetadata,
    codec: &C,
    skip_fields: bool,
    steps: Seq<FilterStep<E>>,
    states: Seq<TagDecodeView<C::Decoded>>,
    i: int,
    j: int,
)
    requires
        is_run(
            batch,
            filters,
            physical_filters,
            metadata,
            codec,
            skip_fields,
            steps,
            states,
        ),
        0 <= i < physical_filters.len(),
        filters.len() + i < steps.len(),
        physical_filters[i].filter is Filter,
        !(skip_fields && physical_filters[i].semantic_type == SemanticType::Field),
        0 <= j < batch_fields(*batch).len(),
        batch_fields(*batch)[j] == physical_filters[i].column_name@,
        forall|k: int| 0 <= k < j ==> batch_fields(*batch)[k] != physical_filters[i].column_name@,
    ensures
        states[filters.len() + i + 1] == states[filters.len() + i],
        match column_misfit(*physical_filters[i].schema, batch_columns(*batch)[j]) {
            Some(error) => steps[filters.len() + i] == FilterStep::Fail(
                PrewhereError::<E>::NewRecordBatch { error },
            ),
            None => exists|one: &Batch, answer: Result<Column, E>|
                {
                    &&& #[trigger] call_ensures(
                        P::evaluate,
                        (&physical_filters[i].filter->Filter_0, one),
                        answer,
                    )
                    &&& batch_fields(*one) == schema_fields(*physical_filters[i].schema)
                    &&& batch_columns(*one) == seq![batch_columns(*batch)[j]]
                    &&& batch_rows(*one) == column_rows(batch_columns(*batch)[j])
                    &&& answer matches Err(source) ==> steps[filters.len() + i]
                        == FilterStep::Fail(PrewhereError::EvalPartitionFilter { source })
                    &&& answer matches Ok(values) ==> match boolean_values(values) {
                        Some(bits) => steps[filters.len() + i] matches FilterStep::Mask(buffer)
                            && buffer_bits(buffer) == bits,
                        None => steps[filters.len() + i] matches FilterStep::Fail(
                            PrewhereError::Unexpected { reason },
                        ) && reason@
                            == "Failed to downcast physical filter result to BooleanArray"@,
                    }
                },
        },
{
    let at = filters.len() + i;
    lemma_step(batch, filters, physical_filters, metadata, codec, skip_fields, steps, states, at);
    law_first_index(batch_fields(*batch), physical_filters[i].column_name@);
}

/// A physical filter that has to be evaluated on a tag that the batch has no
/// column for is evaluated in the same way on what a look-up of the tag gives; it
/// keeps every row where that is nothing, and fails where that fails.
pub proof fn law_physical_filter_reads_its_tag<
    E,
    F: ColumnPredicate<E>,
    P: PhysicalPredicate<E>,
    C: PrimaryKeyCodec<E>,
>(
    batch: &Batch,
    filters: Seq<SimpleFilterContext<F>>,
    physical_filters: Seq<PhysicalFilterContext<P>>,
    metadata: &RegionMetadata,
    codec: &C,
    skip_fields: bool,
    steps: Seq<FilterStep<E>>,
    states: Seq<TagDecodeView<C::Decoded>>,
    i: int,
)
    requires
        is_run(
            batch,
            filters,
            physical_filters,
            metadata,
            codec,
            skip_fields,
            steps,
            states,
        ),
        0 <= i < physical_filters.len(),
        filters.len() + i < steps.len(),
        physical_filters[i].filter is Filter,
        physical_filters[i].semantic_type == SemanticType::Tag,
        !batch_fields(*batch).contains(physical_filters[i].column_name@),
    ensures
        exists|tag: Result<Option<Arc<Column>>, E>|
            {
                &&& #[trigger] decodes_tag(
                    metadata,
                    physical_filters[i].column_id,
                    batch,
                    codec,
                    states[filters.len() + i],
                    states[filters.len() + i + 1],
                    tag,
                )
                &&& tag matches Ok(Some(found)) ==> match column_misfit(*physical_filters[i].schema, *found) {
                    Some(error) => steps[filters.len() + i] == FilterStep::Fail(
                        PrewhereError::<E>::NewRecordBatch { error },
                    ),
                    None => exists|one: &Batch, answer: Result<Column, E>|
                        {
                            &&& #[trigger] call_ensures(
                                P::evaluate,
                                (&physical_filters[i].filter->Filter_0, one),
                                answer,
                            )
                            &&& batch_fields(*one) == schema_fields(*physical_filters[i].schema)
                            &&& batch_columns(*one) == seq![*found]
                            &&& batch_rows(*one) == column_rows(*found)
                            &&& answer matches Err(source) ==> steps[filters.len() + i]
                                == FilterStep::Fail(PrewhereError::EvalPartitionFilter { source })
                            &&& answer matches Ok(values) ==> match boolean_values(values) {
                                Some(bits) => steps[filters.len() + i] matches FilterStep::Mask(buffer)
                                    && buffer_bits(buffer) == bits,
                                None => steps[filters.len() + i] matches FilterStep::Fail(
                                    PrewhereError::Unexpected { reason },
                                ) && reason@
                                    == "Failed to downcast physical filter result to BooleanArray"@,
                            }
                        },
                }
                &&& tag matches Ok(None) ==> steps[filters.len() + i] is Skip
                &&& tag matches Err(source) ==> steps[filters.len() + i] == FilterStep::Fail(
                    PrewhereError::DecodeTag { source },
                )
            },
{
    let at = filters.len() + i;
    lemma_step(batch, filters, physical_filters, metadata, codec, skip_fields, steps, states, at);
    law_first_index(batch_fields(*batch), physical_filters[i].column_name@);
}

} // verus!
