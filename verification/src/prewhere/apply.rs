//! Filters applied to one batch.
use crate::columnar::{
    and_bits, batch_columns, batch_fields, batch_rows, bitand, boolean_values, buffer_bits,
    column_misfit, column_rows, column_with_name, count_set, lemma_count_set_zero, schema_fields,
    uniform_bits, Batch, Column,
};
use crate::filter::{
    ColumnPredicate, MaybeFilter, PhysicalFilterContext, PhysicalPredicate, SimpleFilterContext,
};
use crate::read_format::{ReadFormat, RegionMetadata, SemanticType};
use crate::search::{first_index, lemma_first_index};
use crate::tag_decode::{
    decodes_tag, law_keeps_decoded, maybe_decode_tag_column, PrimaryKeyCodec, TagDecodeState, TagDecodeView,
};
use arrow::buffer::BooleanBuffer;
use arrow::datatypes::Schema;
use arrow::error::ArrowError;
use std::sync::Arc;
use vstd::prelude::*;

verus! {

/// Why the prewhere phase failed. `E` is the error of the predicates, of the
/// primary key codec and of the reader.
#[derive(Debug)]
pub enum PrewhereError<E> {
    /// A predicate could not be evaluated on a column.
    RecordBatch { source: E },
    /// A column does not fit the schema of its physical filter.
    NewRecordBatch { error: ArrowError },
    /// A physical filter could not be evaluated.
    EvalPartitionFilter { source: E },
    /// Something that should not happen.
    Unexpected { reason: String },
    /// A tag column could not be decoded.
    DecodeTag { source: E },
    /// The file could not be read.
    ReadParquet { path: String, source: E },
}

/// What one filter does to the rows of a batch.
#[derive(Debug)]
pub enum FilterStep<E> {
    /// It keeps every row.
    Skip,
    /// It drops every row.
    Prune,
    /// It keeps the rows whose bit is set.
    Mask(BooleanBuffer),
    /// It could not be applied.
    Fail(PrewhereError<E>),
}

impl<E> FilterStep<E> {
    /// Whether the filters that follow are not looked at.
    pub open spec fn stops(self) -> bool {
        self is Prune || self is Fail
    }

    /// Whether the filter, if it was applied, keeps a row.
    pub open spec fn passes(self, row: int) -> bool {
        match self {
            FilterStep::Mask(buffer) => buffer_bits(buffer)[row],
            _ => true,
        }
    }

    /// Whether a mask of this step has one bit for each of `rows` rows.
    pub open spec fn fits(self, rows: nat) -> bool {
        self matches FilterStep::Mask(buffer) ==> buffer_bits(buffer).len() == rows
    }
}

/// Whether a predicate gives one bit for each value of a column.
pub open spec fn predicate_is_row_wise<E, F: ColumnPredicate<E>>(predicate: &F) -> bool {
    forall|column: &Column, buffer: BooleanBuffer| #[trigger]
        call_ensures(F::evaluate_array, (predicate, column), Ok::<BooleanBuffer, E>(buffer))
            ==> buffer_bits(buffer).len() == column_rows(*column)
}

/// Whether an expression gives one value for each row of a batch.
pub open spec fn expression_is_row_wise<E, P: PhysicalPredicate<E>>(predicate: &P) -> bool {
    forall|batch: &Batch, column: Column| #[trigger]
        call_ensures(P::evaluate, (predicate, batch), Ok::<Column, E>(column)) ==> column_rows(
            column,
        ) == batch_rows(*batch)
}

/// Whether a simple filter, if it is evaluated, gives one bit for each value.
pub open spec fn simple_is_row_wise<E, F: ColumnPredicate<E>>(
    filter: SimpleFilterContext<F>,
) -> bool {
    filter.filter matches MaybeFilter::Filter(simple) ==> predicate_is_row_wise::<E, F>(
        &simple.predicate,
    )
}

/// Whether a physical filter, if it is evaluated, gives one value for each row.
pub open spec fn physical_is_row_wise<E, P: PhysicalPredicate<E>>(
    filter: PhysicalFilterContext<P>,
) -> bool {
    filter.filter matches MaybeFilter::Filter(predicate) ==> expression_is_row_wise::<E, P>(
        &predicate,
    )
}

/// Whether filters give one value for each row.
pub open spec fn filters_are_row_wise<E, F: ColumnPredicate<E>, P: PhysicalPredicate<E>>(
    filters: Seq<SimpleFilterContext<F>>,
    physical_filters: Seq<PhysicalFilterContext<P>>,
) -> bool {
    &&& forall|i: int|
        0 <= i < filters.len() ==> simple_is_row_wise::<E, F>(#[trigger] filters[i])
    &&& forall|i: int|
        0 <= i < physical_filters.len() ==> physical_is_row_wise::<E, P>(
            #[trigger] physical_filters[i],
        )
}

/// Whether a codec gives tag columns with one value for each row of a batch.
pub open spec fn codec_is_row_wise<E, C: PrimaryKeyCodec<E>>(codec: &C, batch: &Batch) -> bool {
    forall|
        decoded: C::Decoded,
        column_id: u32,
        position: Option<usize>,
        data_type: &arrow::datatypes::DataType,
        column: Arc<Column>,
    |
        call_ensures(C::decode_primary_keys, (codec, batch), Ok::<C::Decoded, E>(decoded))
            && #[trigger] call_ensures(
            C::get_tag_column,
            (codec, &decoded, column_id, position, data_type),
            Ok::<Arc<Column>, E>(column),
        ) ==> column_rows(*column) == batch_rows(*batch)
}

/// Whether what was decoded comes from a batch, with one value for each row.
pub open spec fn decoded_fits<E, C: PrimaryKeyCodec<E>>(
    codec: &C,
    batch: &Batch,
    state: TagDecodeView<C::Decoded>,
) -> bool {
    &&& state.decoded matches Some(decoded) ==> call_ensures(
        C::decode_primary_keys,
        (codec, batch),
        Ok::<C::Decoded, E>(decoded),
    )
    &&& forall|id: u32| #[trigger]
        state.columns.contains_key(id) ==> column_rows(*state.columns[id]) == batch_rows(*batch)
}

/// What a predicate's answer does to the rows.
pub open spec fn predicate_step<E>(answer: Result<BooleanBuffer, E>) -> FilterStep<E> {
    match answer {
        Ok(buffer) => FilterStep::Mask(buffer),
        Err(source) => FilterStep::Fail(PrewhereError::RecordBatch { source }),
    }
}

/// Whether `step` is what a physical filter's answer does to the rows: its
/// answer has to be a boolean column.
pub open spec fn is_expression_step<E>(answer: Result<Column, E>, step: FilterStep<E>) -> bool {
    match answer {
        Err(source) => step == FilterStep::Fail(PrewhereError::EvalPartitionFilter { source }),
        Ok(column) => match boolean_values(column) {
            Some(values) => step matches FilterStep::Mask(buffer) && buffer_bits(buffer) == values,
            None => step matches FilterStep::Fail(PrewhereError::Unexpected { reason }) && reason@
                == "Failed to downcast physical filter result to BooleanArray"@,
        },
    }
}

/// Whether `step` is what a predicate makes of a column.
pub open spec fn evaluates<E, F: ColumnPredicate<E>>(
    predicate: &F,
    column: &Column,
    step: FilterStep<E>,
) -> bool {
    exists|answer: Result<BooleanBuffer, E>| #[trigger]
        call_ensures(F::evaluate_array, (predicate, column), answer) && step == predicate_step(
            answer,
        )
}

/// Whether `batch` holds one column under a schema.
pub open spec fn is_column_batch(batch: Batch, schema: Schema, column: Column) -> bool {
    &&& batch_fields(batch) == schema_fields(schema)
    &&& batch_columns(batch) == seq![column]
    &&& batch_rows(batch) == column_rows(column)
}

/// Whether `step` is what a physical filter makes of a column: the column has
/// to fit the filter's schema, and the filter sees it as a batch of its own.
pub open spec fn evaluates_expression<E, P: PhysicalPredicate<E>>(
    predicate: &P,
    schema: Schema,
    column: &Column,
    step: FilterStep<E>,
) -> bool {
    match column_misfit(schema, *column) {
        Some(error) => step == FilterStep::Fail(PrewhereError::<E>::NewRecordBatch { error }),
        None => exists|batch: &Batch, answer: Result<Column, E>|
            {
                &&& is_column_batch(*batch, schema, *column)
                &&& #[trigger] call_ensures(P::evaluate, (predicate, batch), answer)
                &&& is_expression_step(answer, step)
            },
    }
}

/// Whether a filter on a column of that kind is passed over.
pub open spec fn skips(skip_fields: bool, semantic_type: SemanticType) -> bool {
    skip_fields && semantic_type == SemanticType::Field
}

/// Whether applying a simple filter to a batch takes what is decoded of the
/// batch from `pre` to `post` and does `step` to its rows.
pub open spec fn applies_simple<E, F: ColumnPredicate<E>, C: PrimaryKeyCodec<E>>(
    batch: &Batch,
    filter: SimpleFilterContext<F>,
    metadata: &RegionMetadata,
    codec: &C,
    skip_fields: bool,
    pre: TagDecodeView<C::Decoded>,
    post: TagDecodeView<C::Decoded>,
    step: FilterStep<E>,
) -> bool {
    match filter.filter {
        MaybeFilter::Matched => post == pre && step == FilterStep::<E>::Skip,
        MaybeFilter::Pruned => post == pre && step == FilterStep::<E>::Prune,
        MaybeFilter::Filter(simple) => if skips(skip_fields, filter.semantic_type) {
            post == pre && step == FilterStep::<E>::Skip
        } else {
            match first_index(batch_fields(*batch), simple.column_name@) {
                Some(index) => post == pre && evaluates(
                    &simple.predicate,
                    &batch_columns(*batch)[index],
                    step,
                ),
                None => if filter.semantic_type == SemanticType::Tag {
                    exists|tag: Result<Option<Arc<Column>>, E>|
                        {
                            &&& #[trigger] decodes_tag(
                                metadata,
                                filter.column_id,
                                batch,
                                codec,
                                pre,
                                post,
                                tag,
                            )
                            &&& match tag {
                                Ok(Some(column)) => evaluates(&simple.predicate, &*column, step),
                                Ok(None) => step == FilterStep::<E>::Skip,
                                Err(source) => step == FilterStep::Fail(PrewhereError::DecodeTag { source }),
                            }
                        }
                } else {
                    post == pre && step == FilterStep::<E>::Skip
                },
            }
        },
    }
}

/// Whether applying a physical filter to a batch takes what is decoded of the
/// batch from `pre` to `post` and does `step` to its rows.
pub open spec fn applies_physical<E, P: PhysicalPredicate<E>, C: PrimaryKeyCodec<E>>(
    batch: &Batch,
    filter: PhysicalFilterContext<P>,
    metadata: &RegionMetadata,
    codec: &C,
    skip_fields: bool,
    pre: TagDecodeView<C::Decoded>,
    post: TagDecodeView<C::Decoded>,
    step: FilterStep<E>,
) -> bool {
    match filter.filter {
        MaybeFilter::Matched => post == pre && step == FilterStep::<E>::Skip,
        MaybeFilter::Pruned => post == pre && step == FilterStep::<E>::Prune,
        MaybeFilter::Filter(predicate) => if skips(skip_fields, filter.semantic_type) {
            post == pre && step == FilterStep::<E>::Skip
        } else {
            match first_index(batch_fields(*batch), filter.column_name@) {
                Some(index) => post == pre && evaluates_expression(
                    &predicate,
                    *filter.schema,
                    &batch_columns(*batch)[index],
                    step,
                ),
                None => if filter.semantic_type == SemanticType::Tag {
                    exists|tag: Result<Option<Arc<Column>>, E>|
                        {
                            &&& #[trigger] decodes_tag(
                                metadata,
                                filter.column_id,
                                batch,
                                codec,
                                pre,
                                post,
                                tag,
                            )
                            &&& match tag {
                                Ok(Some(column)) => evaluates_expression(
                                    &predicate,
                                    *filter.schema,
                                    &*column,
                                    step,
                                ),
                                Ok(None) => step == FilterStep::<E>::Skip,
                                Err(source) => step == FilterStep::Fail(PrewhereError::DecodeTag { source }),
                            }
                        }
                } else {
                    post == pre && step == FilterStep::<E>::Skip
                },
            }
        },
    }
}

/// What a predicate's answer does to the rows.
pub fn step_of_predicate<E>(answer: Result<BooleanBuffer, E>) -> (step: FilterStep<E>)
    ensures
        step == predicate_step(answer),
        answer matches Ok(buffer) ==> step == FilterStep::<E>::Mask(buffer),
        answer matches Err(source) ==> step == FilterStep::Fail(
            PrewhereError::RecordBatch { source },
        ),
{
    match answer {
        Ok(buffer) => FilterStep::Mask(buffer),
        Err(source) => FilterStep::Fail(PrewhereError::RecordBatch { source }),
    }
}

/// What a physical filter's answer does to the rows.
pub fn step_of_expression<E>(answer: Result<Column, E>) -> (step: FilterStep<E>)
    ensures
        is_expression_step(answer, step),
        answer matches Ok(column) ==> step.fits(column_rows(column)),
        answer matches Err(source) ==> step == FilterStep::Fail(
            PrewhereError::EvalPartitionFilter { source },
        ),
        answer matches Ok(column) ==> (boolean_values(column) matches Some(values) ==> (
        step matches FilterStep::Mask(buffer) && buffer_bits(buffer) == values)),
        answer matches Ok(column) ==> (boolean_values(column) is None ==> (
        step matches FilterStep::Fail(PrewhereError::Unexpected { reason }) && reason@
            == "Failed to downcast physical filter result to BooleanArray"@)),
{
    match answer {
        Ok(column) => match column.boolean_buffer() {
            Some(buffer) => FilterStep::Mask(buffer),
            None => FilterStep::Fail(
                PrewhereError::Unexpected {
                    reason:
                        "Failed to downcast physical filter result to BooleanArray".to_owned(),
                },
            ),
        },
        Err(source) => FilterStep::Fail(PrewhereError::EvalPartitionFilter { source }),
    }
}

/// Narrows a mask by one filter: `None` if the filter drops every row.
pub fn narrow<E>(mask: BooleanBuffer, step: FilterStep<E>) -> (narrowed: Result<
    Option<BooleanBuffer>,
    PrewhereError<E>,
>)
    requires
        step.fits(buffer_bits(mask).len()),
    ensures
        match step {
            FilterStep::Skip => narrowed == Ok::<Option<BooleanBuffer>, PrewhereError<E>>(Some(mask)),
            FilterStep::Prune => narrowed == Ok::<Option<BooleanBuffer>, PrewhereError<E>>(None),
            FilterStep::Mask(buffer) => narrowed matches Ok(Some(m)) && buffer_bits(m) == and_bits(
                buffer_bits(mask),
                buffer_bits(buffer),
            ),
            FilterStep::Fail(error) => narrowed == Err::<Option<BooleanBuffer>, PrewhereError<E>>(error),
        },
        step matches FilterStep::Mask(buffer) ==> (narrowed matches Ok(Some(m)) && buffer_bits(
            m,
        ).len() == buffer_bits(mask).len() && forall|row: int|
            0 <= row < buffer_bits(mask).len() ==> (#[trigger] buffer_bits(m)[row]
                <==> buffer_bits(mask)[row] && buffer_bits(buffer)[row])),
{
    match step {
        FilterStep::Skip => Ok(Some(mask)),
        FilterStep::Prune => Ok(None),
        FilterStep::Mask(buffer) => Ok(Some(bitand(&mask, &buffer))),
        FilterStep::Fail(error) => Err(error),
    }
}

/// What is decoded of a batch stays the batch's own.
proof fn lemma_decoded_fits<E, C: PrimaryKeyCodec<E>>(
    metadata: &RegionMetadata,
    column_id: u32,
    batch: &Batch,
    codec: &C,
    pre: TagDecodeView<C::Decoded>,
    post: TagDecodeView<C::Decoded>,
    tag: Result<Option<Arc<Column>>, E>,
)
    requires
        codec_is_row_wise::<E, C>(codec, batch),
        decoded_fits::<E, C>(codec, batch, pre),
        decodes_tag(metadata, column_id, batch, codec, pre, post, tag),
    ensures
        decoded_fits::<E, C>(codec, batch, post),
        tag matches Ok(Some(column)) ==> column_rows(*column) == batch_rows(*batch),
{
}

/// Applies a predicate to a column.
fn evaluate_predicate<E, F: ColumnPredicate<E>>(predicate: &F, column: &Column) -> (step:
    FilterStep<E>)
    requires
        predicate_is_row_wise::<E, F>(predicate),
    ensures
        evaluates(predicate, column, step),
        step.fits(column_rows(*column)),
{
    let answer = predicate.evaluate_array(column);
    assert(call_ensures(F::evaluate_array, (predicate, column), answer));
    step_of_predicate(answer)
}

/// Applies a physical filter to a column.
fn evaluate_physical<E, P: PhysicalPredicate<E>>(
    predicate: &P,
    schema: &Arc<Schema>,
    column: &Arc<Column>,
) -> (step: FilterStep<E>)
    requires
        expression_is_row_wise::<E, P>(predicate),
    ensures
        evaluates_expression(predicate, **schema, &**column, step),
        step.fits(column_rows(**column)),
{
    match Batch::try_new(schema, column) {
        Ok(batch) => {
            let answer = predicate.evaluate(&batch);
            assert(is_column_batch(batch, **schema, **column));
            assert(call_ensures(P::evaluate, (predicate, &batch), answer));
            step_of_expression(answer)
        },
        Err(error) => FilterStep::Fail(PrewhereError::NewRecordBatch { error }),
    }
}

/// Applies one simple filter to a batch.
fn apply_simple<E, F: ColumnPredicate<E>, C: PrimaryKeyCodec<E>>(
    batch: &Batch,
    filter_ctx: &SimpleFilterContext<F>,
    metadata: &RegionMetadata,
    codec: &C,
    skip_fields: bool,
    state: &mut TagDecodeState<C::Decoded>,
) -> (step: FilterStep<E>)
    requires
        simple_is_row_wise::<E, F>(*filter_ctx),
        codec_is_row_wise::<E, C>(codec, batch),
        decoded_fits::<E, C>(codec, batch, old(state)@),
    ensures
        applies_simple(
            batch,
            *filter_ctx,
            metadata,
            codec,
            skip_fields,
            old(state)@,
            final(state)@,
            step,
        ),
        decoded_fits::<E, C>(codec, batch, final(state)@),
        step.fits(batch_rows(*batch)),
{
    let ghost pre = state@;
    let filter = match &filter_ctx.filter {
        MaybeFilter::Filter(filter) => filter,
        MaybeFilter::Matched => {
            return FilterStep::Skip;
        },
        MaybeFilter::Pruned => {
            return FilterStep::Prune;
        },
    };

    // Skip field filters if requested.
    if skip_fields && filter_ctx.semantic_type == SemanticType::Field {
        return FilterStep::Skip;
    }
    // Find the column in the batch by name.

    let schema = batch.schema();
    proof {
        lemma_first_index(batch_fields(*batch), filter.column_name@);
    }
    if let Some(index) = column_with_name(&schema, filter.column_name.as_str()) {
        let column = batch.column(index);
        return evaluate_predicate(&filter.predicate, &column);
    }
    if filter_ctx.semantic_type == SemanticType::Tag {
        let tag = maybe_decode_tag_column(metadata, filter_ctx.column_id, batch, state, codec);
        proof {
            lemma_decoded_fits(metadata, filter_ctx.column_id, batch, codec, pre, state@, tag);
        }
        match tag {
            Ok(Some(tag_column)) => evaluate_predicate(&filter.predicate, &tag_column),
            Ok(None) => FilterStep::Skip,
            Err(source) => FilterStep::Fail(PrewhereError::DecodeTag { source }),
        }
    } else {
        FilterStep::Skip
    }
}

/// Applies one physical filter to a batch.
fn apply_physical<E, P: PhysicalPredicate<E>, C: PrimaryKeyCodec<E>>(
    batch: &Batch,
    filter_ctx: &PhysicalFilterContext<P>,
    metadata: &RegionMetadata,
    codec: &C,
    skip_fields: bool,
    state: &mut TagDecodeState<C::Decoded>,
) -> (step: FilterStep<E>)
    requires
        physical_is_row_wise::<E, P>(*filter_ctx),
        codec_is_row_wise::<E, C>(codec, batch),
        decoded_fits::<E, C>(codec, batch, old(state)@),
    ensures
        applies_physical(
            batch,
            *filter_ctx,
            metadata,
            codec,
            skip_fields,
            old(state)@,
            final(state)@,
            step,
        ),
        decoded_fits::<E, C>(codec, batch, final(state)@),
        step.fits(batch_rows(*batch)),
{
    let ghost pre = state@;
    let filter = match &filter_ctx.filter {
        MaybeFilter::Filter(filter) => filter,
        MaybeFilter::Matched => {
            return FilterStep::Skip;
        },
        MaybeFilter::Pruned => {
            return FilterStep::Prune;
        },
    };

    // Skip field filters if requested.
    if skip_fields && filter_ctx.semantic_type == SemanticType::Field {
        return FilterStep::Skip;
    }
    let schema = batch.schema();
    proof {
        lemma_first_index(batch_fields(*batch), filter_ctx.column_name@);
    }
    if let Some(index) = column_with_name(&schema, filter_ctx.column_name.as_str()) {
        let column = batch.column(index);
        return evaluate_physical(filter, &filter_ctx.schema, &column);
    }
    if filter_ctx.semantic_type == SemanticType::Tag {
        let tag = maybe_decode_tag_column(metadata, filter_ctx.column_id, batch, state, codec);
        proof {
            lemma_decoded_fits(metadata, filter_ctx.column_id, batch, codec, pre, state@, tag);
        }
        match tag {
            Ok(Some(tag_column)) => evaluate_physical(filter, &filter_ctx.schema, &tag_column),
            Ok(None) => FilterStep::Skip,
            Err(source) => FilterStep::Fail(PrewhereError::DecodeTag { source }),
        }
    } else {
        FilterStep::Skip
    }
}

/// Whether applying the filter at `index`, the simple filters coming before the
/// physical ones, takes what is decoded of the batch from `pre` to `post` and
/// does `step` to its rows.
pub open spec fn applies_at<E, F: ColumnPredicate<E>, P: PhysicalPredicate<E>, C: PrimaryKeyCodec<E>>(
    batch: &Batch,
    filters: Seq<SimpleFilterContext<F>>,
    physical_filters: Seq<PhysicalFilterContext<P>>,
    metadata: &RegionMetadata,
    codec: &C,
    skip_fields: bool,
    index: int,
    pre: TagDecodeView<C::Decoded>,
    post: TagDecodeView<C::Decoded>,
    step: FilterStep<E>,
) -> bool {
    if index < filters.len() {
        applies_simple(batch, filters[index], metadata, codec, skip_fields, pre, post, step)
    } else {
        applies_physical(
            batch,
            physical_filters[index - filters.len()],
            metadata,
            codec,
            skip_fields,
            pre,
            post,
            step,
        )
    }
}

/// Whether `steps` are what the first filters do to a batch, one after the
/// other, where `states` is what is decoded of the batch before, between and
/// after them.
pub open spec fn is_partial_run<
    E,
    F: ColumnPredicate<E>,
    P: PhysicalPredicate<E>,
    C: PrimaryKeyCodec<E>,
>(
    batch: &Batch,
    filters: Seq<SimpleFilterContext<F>>,
    physical_filters: Seq<PhysicalFilterContext<P>>,
    metadata: &RegionMetadata,
    codec: &C,
    skip_fields: bool,
    steps: Seq<FilterStep<E>>,
    states: Seq<TagDecodeView<C::Decoded>>,
) -> bool {
    &&& steps.len() <= filters.len() + physical_filters.len()
    &&& states.len() == steps.len() + 1
    &&& states[0] == TagDecodeView::<C::Decoded>::empty()
    &&& forall|i: int|
        #![trigger steps[i]]
        0 <= i < steps.len() ==> applies_at(
            batch,
            filters,
            physical_filters,
            metadata,
            codec,
            skip_fields,
            i,
            states[i],
            states[i + 1],
            steps[i],
        )
    &&& forall|i: int| 0 <= i < steps.len() ==> (#[trigger] steps[i]).fits(batch_rows(*batch))
    &&& forall|i: int| 0 <= i < steps.len() - 1 ==> !(#[trigger] steps[i]).stops()
}

/// Whether `steps` are what the filters do to a batch: all of them, or up to
/// the first that stops the run.
pub open spec fn is_run<E, F: ColumnPredicate<E>, P: PhysicalPredicate<E>, C: PrimaryKeyCodec<E>>(
    batch: &Batch,
    filters: Seq<SimpleFilterContext<F>>,
    physical_filters: Seq<PhysicalFilterContext<P>>,
    metadata: &RegionMetadata,
    codec: &C,
    skip_fields: bool,
    steps: Seq<FilterStep<E>>,
    states: Seq<TagDecodeView<C::Decoded>>,
) -> bool {
    &&& is_partial_run(
        batch,
        filters,
        physical_filters,
        metadata,
        codec,
        skip_fields,
        steps,
        states,
    )
    &&& steps.len() == filters.len() + physical_filters.len() || (steps.len() > 0
        && steps.last().stops())
}

/// The mask of the rows that every step keeps.
pub open spec fn combined_mask<E>(rows: nat, steps: Seq<FilterStep<E>>) -> Seq<bool> {
    Seq::new(
        rows,
        |row: int| forall|i: int| 0 <= i < steps.len() ==> (#[trigger] steps[i]).passes(row),
    )
}

/// Whether `result` is what a run of filters over `rows` rows leaves: nothing
/// where a filter drops every row or no row passes them all, the error of the
/// filter that fails, and otherwise the mask of the rows that pass.
pub open spec fn run_gives<E>(
    rows: nat,
    steps: Seq<FilterStep<E>>,
    result: Result<Option<BooleanBuffer>, PrewhereError<E>>,
) -> bool {
    if steps.len() > 0 && steps.last() is Prune {
        result == Ok::<Option<BooleanBuffer>, PrewhereError<E>>(None)
    } else if steps.len() > 0 && steps.last() is Fail {
        result == Err::<Option<BooleanBuffer>, PrewhereError<E>>(steps.last()->Fail_0)
    } else if count_set(combined_mask(rows, steps)) == 0 {
        result == Ok::<Option<BooleanBuffer>, PrewhereError<E>>(None)
    } else {
        result matches Ok(Some(mask)) && buffer_bits(mask) == combined_mask(rows, steps)
    }
}

/// The filter bits of a batch with a filter mask, `None` if the entire batch is
/// filtered out.
pub open spec fn mask_bits(mask: Option<BooleanBuffer>, rows: nat) -> Seq<bool> {
    match mask {
        Some(mask) => buffer_bits(mask),
        None => uniform_bits(rows, false),
    }
}

/// Whether `result` is what the filters leave of a batch.
pub open spec fn filters_give<
    E,
    F: ColumnPredicate<E>,
    P: PhysicalPredicate<E>,
    C: PrimaryKeyCodec<E>,
>(
    batch: &Batch,
    filters: Seq<SimpleFilterContext<F>>,
    physical_filters: Seq<PhysicalFilterContext<P>>,
    metadata: &RegionMetadata,
    codec: &C,
    skip_fields: bool,
    result: Result<Option<BooleanBuffer>, PrewhereError<E>>,
) -> bool {
    exists|steps: Seq<FilterStep<E>>, states: Seq<TagDecodeView<C::Decoded>>|
        {
            &&& #[trigger] is_run(
                batch,
                filters,
                physical_filters,
                metadata,
                codec,
                skip_fields,
                steps,
                states,
            )
            &&& run_gives(batch_rows(*batch), steps, result)
        }
}

/// One more step narrows the combined mask by that step.
proof fn lemma_combined_push<E>(rows: nat, steps: Seq<FilterStep<E>>, step: FilterStep<E>)
    ensures
        combined_mask(rows, steps.push(step)) == Seq::new(
            rows,
            |row: int| combined_mask(rows, steps)[row] && step.passes(row),
        ),
{
    let longer = steps.push(step);
    assert forall|row: int| 0 <= row < rows implies combined_mask(rows, longer)[row] == (
    combined_mask(rows, steps)[row] && step.passes(row)) by {
        if combined_mask(rows, longer)[row] {
            assert(longer[steps.len() as int].passes(row));
            assert forall|i: int| 0 <= i < steps.len() implies (#[trigger] steps[i]).passes(
                row,
            ) by {
                assert(longer[i].passes(row));
            }
        }
    }
    assert(combined_mask(rows, longer) =~= Seq::new(
        rows,
        |row: int| combined_mask(rows, steps)[row] && step.passes(row),
    ));
}

/// Applies filters to a record batch and returns the combined filter mask.
///
/// Returns `None` if the entire batch is filtered out.
pub fn apply_filters_to_batch<
    E,
    F: ColumnPredicate<E>,
    P: PhysicalPredicate<E>,
    C: PrimaryKeyCodec<E>,
>(
    batch: &Batch,
    filters: &[SimpleFilterContext<F>],
    physical_filters: &[PhysicalFilterContext<P>],
    read_format: &ReadFormat,
    codec: &C,
    skip_fields: bool,
) -> (result: Result<Option<BooleanBuffer>, PrewhereError<E>>)
    requires
        filters_are_row_wise::<E, F, P>(filters@, physical_filters@),
        codec_is_row_wise::<E, C>(codec, batch),
    ensures
        filters_give(
            batch,
            filters@,
            physical_filters@,
            &read_format.spec_metadata(),
            codec,
            skip_fields,
            result,
        ),
        result matches Ok(Some(mask)) ==> {
            &&& buffer_bits(mask).len() == batch_rows(*batch)
            &&& count_set(buffer_bits(mask)) > 0
        },
{
    let mut mask = BooleanBuffer::new_set(batch.num_rows());
    let metadata = read_format.metadata();
    let mut tag_decode_state = TagDecodeState::<C::Decoded>::new();
    let ghost mut steps: Seq<FilterStep<E>> = Seq::empty();
    let ghost mut states: Seq<TagDecodeView<C::Decoded>> = seq![tag_decode_state@];
    assert(combined_mask(batch_rows(*batch), steps) =~= uniform_bits(batch_rows(*batch), true));

    let mut i: usize = 0;
    while i < filters.len()
        invariant
            i <= filters@.len(),
            i == steps.len(),
            *metadata == read_format.spec_metadata(),
            filters_are_row_wise::<E, F, P>(filters@, physical_filters@),
            codec_is_row_wise::<E, C>(codec, batch),
            decoded_fits::<E, C>(codec, batch, tag_decode_state@),
            is_partial_run(
                batch,
                filters@,
                physical_filters@,
                metadata,
                codec,
                skip_fields,
                steps,
                states,
            ),
            states.last() == tag_decode_state@,
            forall|j: int| 0 <= j < steps.len() ==> !(#[trigger] steps[j]).stops(),
            buffer_bits(mask) == combined_mask(batch_rows(*batch), steps),
        decreases filters@.len() - i,
    {
        let step = apply_simple(
            batch,
            &filters[i],
            metadata,
            codec,
            skip_fields,
            &mut tag_decode_state,
        );
        proof {
            lemma_combined_push(batch_rows(*batch), steps, step);
            steps = steps.push(step);
            states = states.push(tag_decode_state@);
            assert(is_partial_run(
                batch,
                filters@,
                physical_filters@,
                metadata,
                codec,
                skip_fields,
                steps,
                states,
            ));
            assert(step.stops() ==> is_run(
                batch,
                filters@,
                physical_filters@,
                metadata,
                codec,
                skip_fields,
                steps,
                states,
            ));
        }
        mask =
        match narrow(mask, step) {
            Ok(Some(mask)) => mask,
            Ok(None) => {
                return Ok(None);
            },
            Err(error) => {
                return Err(error);
            },
        };
        i += 1;
    }

    let mut k: usize = 0;
    while k < physical_filters.len()
        invariant
            k <= physical_filters@.len(),
            filters@.len() + k == steps.len(),
            *metadata == read_format.spec_metadata(),
            filters_are_row_wise::<E, F, P>(filters@, physical_filters@),
            codec_is_row_wise::<E, C>(codec, batch),
            decoded_fits::<E, C>(codec, batch, tag_decode_state@),
            is_partial_run(
                batch,
                filters@,
                physical_filters@,
                metadata,
                codec,
                skip_fields,
                steps,
                states,
            ),
            states.last() == tag_decode_state@,
            forall|j: int| 0 <= j < steps.len() ==> !(#[trigger] steps[j]).stops(),
            buffer_bits(mask) == combined_mask(batch_rows(*batch), steps),
        decreases physical_filters@.len() - k,
    {
        let step = apply_physical(
            batch,
            &physical_filters[k],
            metadata,
            codec,
            skip_fields,
            &mut tag_decode_state,
        );
        proof {
            lemma_combined_push(batch_rows(*batch), steps, step);
            steps = steps.push(step);
            states = states.push(tag_decode_state@);
            assert(is_partial_run(
                batch,
                filters@,
                physical_filters@,
                metadata,
                codec,
                skip_fields,
                steps,
                states,
            ));
            assert(step.stops() ==> is_run(
                batch,
                filters@,
                physical_filters@,
                metadata,
                codec,
                skip_fields,
                steps,
                states,
            ));
        }
        mask =
        match narrow(mask, step) {
            Ok(Some(mask)) => mask,
            Ok(None) => {
                return Ok(None);
            },
            Err(error) => {
                return Err(error);
            },
        };
        k += 1;
    }

    assert(is_run(
        batch,
        filters@,
        physical_filters@,
        metadata,
        codec,
        skip_fields,
        steps,
        states,
    ));
    if mask.count_set_bits() == 0 {
        return Ok(None);
    }
    Ok(Some(mask))
}

/// A mask that the filters leave has the bit of a row set exactly if every
/// filter keeps the row, and it has a bit set.
pub proof fn law_mask_is_what_all_keep<E>(
    rows: nat,
    steps: Seq<FilterStep<E>>,
    mask: BooleanBuffer,
)
    requires
        run_gives(rows, steps, Ok::<Option<BooleanBuffer>, PrewhereError<E>>(Some(mask))),
    ensures
        buffer_bits(mask).len() == rows,
        forall|row: int|
            0 <= row < rows ==> (#[trigger] buffer_bits(mask)[row] <==> forall|i: int|
                0 <= i < steps.len() ==> (#[trigger] steps[i]).passes(row)),
        exists|row: int| 0 <= row < rows && #[trigger] buffer_bits(mask)[row],
{
    lemma_count_set_zero(buffer_bits(mask));
}

/// Whether one of the steps drops a row.
pub open spec fn is_dropped<E>(steps: Seq<FilterStep<E>>, row: int) -> bool {
    exists|i: int| 0 <= i < steps.len() && !(#[trigger] steps[i]).passes(row)
}

/// Where the filters leave nothing of a batch, one of them drops every row, or
/// each row is dropped by one of them.
pub proof fn law_nothing_left<E>(rows: nat, steps: Seq<FilterStep<E>>)
    requires
        run_gives(rows, steps, Ok::<Option<BooleanBuffer>, PrewhereError<E>>(None)),
    ensures
        steps.len() > 0 && steps.last() is Prune || forall|row: int|
            0 <= row < rows ==> #[trigger] is_dropped(steps, row),
{
    lemma_count_set_zero(combined_mask(rows, steps));
    if !(steps.len() > 0 && steps.last() is Prune) {
        assert forall|row: int| 0 <= row < rows implies #[trigger] is_dropped(steps, row) by {
            assert(!combined_mask(rows, steps)[row]);
        }
    }
}

/// A further filter keeps no row that the filters before it drop.
pub proof fn law_filters_only_narrow<E>(
    rows: nat,
    steps: Seq<FilterStep<E>>,
    step: FilterStep<E>,
    before: BooleanBuffer,
    after: BooleanBuffer,
)
    requires
        run_gives(rows, steps, Ok::<Option<BooleanBuffer>, PrewhereError<E>>(Some(before))),
        run_gives(rows, steps.push(step), Ok::<Option<BooleanBuffer>, PrewhereError<E>>(Some(after))),
    ensures
        forall|row: int|
            0 <= row < rows && #[trigger] buffer_bits(after)[row] ==> buffer_bits(before)[row],
{
    lemma_combined_push(rows, steps, step);
}

/// Whether the filter at `index`, the simple filters coming before the physical
/// ones, is known to match no row.
pub open spec fn is_pruned_at<F, P>(
    filters: Seq<SimpleFilterContext<F>>,
    physical_filters: Seq<PhysicalFilterContext<P>>,
    index: int,
) -> bool {
    if index < filters.len() {
        filters[index].filter is Pruned
    } else {
        physical_filters[index - filters.len()].filter is Pruned
    }
}

/// Whether the filter at `index`, the simple filters coming before the physical
/// ones, is known to match every row or is passed over.
pub open spec fn is_idle_at<F, P>(
    filters: Seq<SimpleFilterContext<F>>,
    physical_filters: Seq<PhysicalFilterContext<P>>,
    skip_fields: bool,
    index: int,
) -> bool {
    if index < filters.len() {
        let filter = filters[index];
        filter.filter is Matched || filter.filter is Filter && skips(
            skip_fields,
            filter.semantic_type,
        )
    } else {
        let filter = physical_filters[index - filters.len()];
        filter.filter is Matched || filter.filter is Filter && skips(
            skip_fields,
            filter.semantic_type,
        )
    }
}

/// Where a filter is known to match no row, the filters leave no mask.
pub proof fn law_pruned_leaves_nothing<
    E,
    F: ColumnPredicate<E>,
    P: PhysicalPredicate<E>,
    C: PrimaryKeyCodec<E>,
>(
    batch: &Batch,
    filters: Seq<SimpleFilterContext<F>>,
    physical_filters: Seq<PhysicalFilterContext<P>>,
    metadata: &RegionMetadata,
    codec: &C,
    skip_fields: bool,
    index: int,
    result: Result<Option<BooleanBuffer>, PrewhereError<E>>,
)
    requires
        0 <= index < filters.len() + physical_filters.len(),
        is_pruned_at(filters, physical_filters, index),
        filters_give(batch, filters, physical_filters, metadata, codec, skip_fields, result),
    ensures
        result is Err || result == Ok::<Option<BooleanBuffer>, PrewhereError<E>>(None),
{
    let (steps, states) = choose|
        steps: Seq<FilterStep<E>>,
        states: Seq<TagDecodeView<C::Decoded>>,
    |
        {
            &&& #[trigger] is_run(
                batch,
                filters,
                physical_filters,
                metadata,
                codec,
                skip_fields,
                steps,
                states,
            )
            &&& run_gives(batch_rows(*batch), steps, result)
        };
    if index < steps.len() {
        assert(steps[index] is Prune);
    }
}

/// Filters that are all known to match every row, or that are all passed over,
/// keep every row of a batch that has any.
pub proof fn law_idle_filters_keep_everything<
    E,
    F: ColumnPredicate<E>,
    P: PhysicalPredicate<E>,
    C: PrimaryKeyCodec<E>,
>(
    batch: &Batch,
    filters: Seq<SimpleFilterContext<F>>,
    physical_filters: Seq<PhysicalFilterContext<P>>,
    metadata: &RegionMetadata,
    codec: &C,
    skip_fields: bool,
    result: Result<Option<BooleanBuffer>, PrewhereError<E>>,
)
    requires
        forall|index: int|
            0 <= index < filters.len() + physical_filters.len() ==> #[trigger] is_idle_at(
                filters,
                physical_filters,
                skip_fields,
                index,
            ),
        filters_give(batch, filters, physical_filters, metadata, codec, skip_fields, result),
        batch_rows(*batch) > 0,
    ensures
        result matches Ok(Some(mask)) && buffer_bits(mask) == uniform_bits(
            batch_rows(*batch),
            true,
        ),
{
    let rows = batch_rows(*batch);
    let (steps, states) = choose|
        steps: Seq<FilterStep<E>>,
        states: Seq<TagDecodeView<C::Decoded>>,
    |
        {
            &&& #[trigger] is_run(
                batch,
                filters,
                physical_filters,
                metadata,
                codec,
                skip_fields,
                steps,
                states,
            )
            &&& run_gives(batch_rows(*batch), steps, result)
        };
    assert forall|i: int| 0 <= i < steps.len() implies #[trigger] steps[i] is Skip by {
        assert(is_idle_at(filters, physical_filters, skip_fields, i));
    }
    if steps.len() > 0 {
        assert(steps[steps.len() - 1] is Skip);
    }
    assert(combined_mask(rows, steps) =~= uniform_bits(rows, true)) by {
        assert forall|row: int| 0 <= row < rows implies combined_mask(rows, steps)[row] by {}
    }
    lemma_count_set_zero(combined_mask(rows, steps));
    assert(combined_mask(rows, steps)[0]);
}

/// One filter keeps what was decoded before it.
proof fn lemma_step_keeps_decoded<
    E,
    F: ColumnPredicate<E>,
    P: PhysicalPredicate<E>,
    C: PrimaryKeyCodec<E>,
>(
    batch: &Batch,
    filters: Seq<SimpleFilterContext<F>>,
    physical_filters: Seq<PhysicalFilterContext<P>>,
    metadata: &RegionMetadata,
    codec: &C,
    skip_fields: bool,
    index: int,
    pre: TagDecodeView<C::Decoded>,
    post: TagDecodeView<C::Decoded>,
    step: FilterStep<E>,
)
    requires
        applies_at(
            batch,
            filters,
            physical_filters,
            metadata,
            codec,
            skip_fields,
            index,
            pre,
            post,
            step,
        ),
    ensures
        pre.decoded is Some ==> post.decoded == pre.decoded,
        forall|id: u32| #[trigger]
            pre.columns.contains_key(id) ==> post.columns.contains_key(id) && post.columns[id]
                == pre.columns[id],
{
    if post != pre {
        let column_id = if index < filters.len() {
            filters[index].column_id
        } else {
            physical_filters[index - filters.len()].column_id
        };
        let tag = choose|tag: Result<Option<Arc<Column>>, E>| #[trigger]
            decodes_tag(metadata, column_id, batch, codec, pre, post, tag);
        law_keeps_decoded(metadata, column_id, batch, codec, pre, post, tag);
    }
}

/// The primary keys of a batch are decoded once for all filters, and so is each
/// tag column: what one filter decoded is what every later filter finds.
pub proof fn law_filters_share_what_is_decoded<
    E,
    F: ColumnPredicate<E>,
    P: PhysicalPredicate<E>,
    C: PrimaryKeyCodec<E>,
>(
    batch: &Batch,
    filters: Seq<SimpleFilterContext<F>>,
    physical_filters: Seq<PhysicalFilterContext<P>>,
    metadata: &RegionMetadata,
    codec: &C,
    skip_fields: bool,
    steps: Seq<FilterStep<E>>,
    states: Seq<TagDecodeView<C::Decoded>>,
    earlier: int,
    later: int,
)
    requires
        is_run(
            batch,
            filters,
            physical_filters,
            metadata,
            codec,
            skip_fields,
            steps,
            states,
        ),
        0 <= earlier <= later <= steps.len(),
    ensures
        states[earlier].decoded is Some ==> states[later].decoded == states[earlier].decoded,
        forall|id: u32| #[trigger]
            states[earlier].columns.contains_key(id) ==> states[later].columns.contains_key(id)
                && states[later].columns[id] == states[earlier].columns[id],
    decreases later - earlier,
{
    if earlier < later {
        law_filters_share_what_is_decoded(
            batch,
            filters,
            physical_filters,
            metadata,
            codec,
            skip_fields,
            steps,
            states,
            earlier,
            later - 1,
        );
        let step = steps[later - 1];
        lemma_step_keeps_decoded(
            batch,
            filters,
            physical_filters,
            metadata,
            codec,
            skip_fields,
            later - 1,
            states[later - 1],
            states[later],
            step,
        );
    }
}

} // verus!
