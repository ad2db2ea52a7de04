//! The prewhere phase of a scan: from the batches of the filter columns to a
//! refined row selection.
use crate::columnar::{
    batch_rows, buffer_bits, count_set, law_count_set_before, law_count_set_counts_positions,
    law_unset_bits, lemma_count_set_bound, lemma_count_set_concat, lemma_count_set_zero,
    uniform_bits, Batch,
};
use crate::filter::{
    ColumnPredicate, PhysicalFilterContext, PhysicalPredicate, SimpleFilterContext,
};
use crate::prewhere::apply::{
    apply_filters_to_batch, codec_is_row_wise, filters_are_row_wise, filters_give, mask_bits,
    PrewhereError,
};
use crate::read_format::{ReadFormat, RegionMetadata};
use crate::row_selection::{
    array_bits, arrays_bits, boolean_array, concat_masks, count_runs,
    empty_selection, law_concat_is_flatten, law_refining_by_all_changes_nothing, law_refining_narrows, lemma_concat_push,
    lemma_count_before, lemma_count_set_uniform, null_free, refine_mask, selection_mask, selectors,
};
use crate::tag_decode::PrimaryKeyCodec;
use arrow::array::BooleanArray;
use arrow::buffer::BooleanBuffer;
use parquet::arrow::arrow_reader::RowSelection;
use vstd::prelude::*;

verus! {

/// Result of the prewhere phase.
///
/// Contains the refined row selection after applying filters.
#[derive(Debug)]
pub struct PrewhereResult {
    /// Refined row selection after applying filters.
    refined_selection: RowSelection,
    /// Number of rows filtered out by prewhere.
    filtered_rows: usize,
}

impl PrewhereResult {
    /// The refined row selection.
    pub closed spec fn selection(self) -> RowSelection {
        self.refined_selection
    }

    /// The number of rows filtered out.
    pub closed spec fn filtered(self) -> usize {
        self.filtered_rows
    }

    /// Creates a new prewhere result.
    pub fn new(refined_selection: RowSelection, filtered_rows: usize) -> (result: Self)
        ensures
            result.selection() == refined_selection,
            result.filtered() == filtered_rows,
    {
        PrewhereResult { refined_selection, filtered_rows }
    }

    /// Returns the refined row selection.
    pub fn refined_selection(&self) -> (selection: &RowSelection)
        ensures
            *selection == self.selection(),
    {
        &self.refined_selection
    }

    /// Returns the number of rows filtered out by prewhere.
    pub fn filtered_rows(&self) -> (rows: usize)
        ensures
            rows == self.filtered(),
    {
        self.filtered_rows
    }
}

/// Whether a selection, if there is one, selects `rows` rows.
pub open spec fn selection_fits(row_selection: Option<RowSelection>, rows: nat) -> bool {
    row_selection matches Some(selection) ==> {
        &&& selection_mask(selection).len() <= usize::MAX
        &&& count_set(selection_mask(selection)) == rows
    }
}

/// The mask of the rows that a refined selection selects, where `mask` has a
/// bit for each row that was read: no row at all where no bit is set, and
/// otherwise the rows of the set bits, counted among those that the selection
/// before selects.
pub open spec fn refined_mask(row_selection: Option<RowSelection>, mask: Seq<bool>) -> Seq<bool> {
    if count_set(mask) == 0 {
        Seq::empty()
    } else {
        match row_selection {
            Some(original) => refine_mask(selection_mask(original), mask),
            None => mask,
        }
    }
}

/// Whether `result` is the outcome of a prewhere phase that read rows with the
/// filter bits `mask`.
pub open spec fn is_outcome(
    row_selection: Option<RowSelection>,
    mask: Seq<bool>,
    result: PrewhereResult,
) -> bool {
    &&& selection_mask(result.selection()) == refined_mask(row_selection, mask)
    &&& result.filtered() == mask.len() - count_set(mask)
}

/// A prewhere phase under way: the filter bits of the rows read so far.
#[derive(Debug)]
pub struct PrewhereRun {
    filter_arrays: Vec<BooleanArray>,
    rows_before_filter: usize,
    rows_selected: usize,
}

impl PrewhereRun {
    #[verifier::type_invariant]
    spec fn well_formed(self) -> bool {
        &&& forall|i: int|
            0 <= i < self.filter_arrays@.len() ==> null_free(#[trigger] self.filter_arrays@[i])
        &&& self.rows_before_filter == self.mask().len()
        &&& self.rows_selected == count_set(self.mask())
    }

    /// The filter bits of the rows read so far.
    pub closed spec fn mask(self) -> Seq<bool> {
        concat_masks(arrays_bits(self.filter_arrays@))
    }

    /// Starts a phase that has read nothing.
    pub fn new() -> (run: Self)
        ensures
            run.mask() == Seq::<bool>::empty(),
    {
        let filter_arrays: Vec<BooleanArray> = Vec::new();
        assert(arrays_bits(filter_arrays@).len() == 0);
        PrewhereRun { filter_arrays, rows_before_filter: 0, rows_selected: 0 }
    }

    /// Takes in a batch of `num_rows` rows with its filter mask, `None` if the
    /// entire batch is filtered out.
    pub fn push(self, num_rows: usize, batch_mask: Option<BooleanBuffer>) -> (next: Self)
        requires
            batch_mask matches Some(mask) ==> buffer_bits(mask).len() == num_rows,
            self.mask().len() + num_rows <= usize::MAX,
        ensures
            next.mask() == self.mask() + mask_bits(batch_mask, num_rows as nat),
            next.mask().len() == self.mask().len() + num_rows,
            next.mask().take(self.mask().len() as int) == self.mask(),
            batch_mask matches Some(mask) ==> next.mask().skip(self.mask().len() as int)
                == buffer_bits(mask),
            batch_mask is None ==> forall|row: int|
                self.mask().len() <= row < next.mask().len() ==> !#[trigger] next.mask()[row],
    {
        proof {
            use_type_invariant(&self);
        }
        let PrewhereRun { mut filter_arrays, rows_before_filter, rows_selected } = self;
        let ghost old_arrays = filter_arrays@;
        if num_rows == 0 {
            assert(mask_bits(batch_mask, num_rows as nat) =~= Seq::<bool>::empty());
            assert(self.mask() + Seq::<bool>::empty() =~= self.mask());
            assert(self.mask().take(self.mask().len() as int) =~= self.mask());
            assert(self.mask().skip(self.mask().len() as int) =~= Seq::<bool>::empty());
            return PrewhereRun { filter_arrays, rows_before_filter, rows_selected };
        }
        let batch_mask = match batch_mask {
            Some(mask) => mask,
            None => BooleanBuffer::new_unset(num_rows),
        };
        let ghost bits = buffer_bits(batch_mask);
        proof {
            lemma_count_set_concat(self.mask(), bits);
            lemma_count_set_bound(self.mask() + bits);
        }
        let set_bits = batch_mask.count_set_bits();
        let array = boolean_array(batch_mask);
        filter_arrays.push(array);
        proof {
            assert(array_bits(array) =~= bits);
            assert(arrays_bits(filter_arrays@) =~= arrays_bits(old_arrays).push(bits));
            lemma_concat_push(arrays_bits(old_arrays), bits);
            assert(null_free(array));
            assert((self.mask() + bits).take(self.mask().len() as int) =~= self.mask());
            assert((self.mask() + bits).skip(self.mask().len() as int) =~= bits);
        }
        PrewhereRun {
            filter_arrays,
            rows_before_filter: rows_before_filter + num_rows,
            rows_selected: rows_selected + set_bits,
        }
    }

    /// Whether `num_rows` further rows can be counted.
    pub fn has_room(&self, num_rows: usize) -> (room: bool)
        ensures
            room == (self.mask().len() + num_rows <= usize::MAX),
    {
        proof {
            use_type_invariant(self);
        }
        num_rows <= usize::MAX - self.rows_before_filter
    }

    /// Whether the phase can be finished over a selection: where any row is
    /// kept, as many rows were read as the selection selects.
    pub fn accepts(&self, row_selection: &Option<RowSelection>) -> (accepted: bool)
        ensures
            accepted == is_acceptable(*row_selection, self.mask()),
            (forall|row: int| 0 <= row < self.mask().len() ==> !#[trigger] self.mask()[row])
                ==> accepted,
            *row_selection is None ==> accepted,
            accepted && (exists|row: int|
                0 <= row < self.mask().len() && #[trigger] self.mask()[row]) ==> (
            *row_selection matches Some(selection) ==> Set::new(
                |i: int| 0 <= i < selection_mask(selection).len() && selection_mask(selection)[i],
            ).len() == self.mask().len()),
            !accepted ==> (*row_selection matches Some(selection) && (Set::new(
                |i: int| 0 <= i < selection_mask(selection).len() && selection_mask(selection)[i],
            ).len() != self.mask().len() || selection_mask(selection).len() > usize::MAX)),
    {
        proof {
            use_type_invariant(self);
            lemma_count_set_zero(self.mask());
            if *row_selection is Some {
                law_count_set_counts_positions(selection_mask(row_selection->0));
            }
        }
        if self.rows_selected == 0 {
            return true;
        }
        match row_selection {
            Some(selection) => match count_runs(&selectors(selection)) {
                Some(counts) => counts.1 == self.rows_before_filter,
                None => false,
            },
            None => true,
        }
    }

    /// Ends the phase: refines the selection that the rows were read with.
    pub fn finish(self, row_selection: Option<RowSelection>) -> (result: PrewhereResult)
        requires
            is_acceptable(row_selection, self.mask()),
        ensures
            is_outcome(row_selection, self.mask(), result),
            result.filtered() == Set::new(
                |row: int| 0 <= row < self.mask().len() && !self.mask()[row],
            ).len(),
            row_selection is None ==> forall|row: int|
                0 <= row < self.mask().len() ==> (row < selection_mask(result.selection()).len()
                    && selection_mask(result.selection())[row] <==> #[trigger] self.mask()[row]),
            row_selection matches Some(original) ==> forall|row: int|
                0 <= row < selection_mask(original).len() && selection_fits(
                    row_selection,
                    self.mask().len(),
                ) ==> (row < selection_mask(result.selection()).len() && selection_mask(
                    result.selection(),
                )[row] <==> #[trigger] selection_mask(original)[row] && self.mask()[Set::new(
                    |i: int| 0 <= i < row && selection_mask(original)[i],
                ).len() as int]),
    {
        proof {
            use_type_invariant(&self);
            lemma_count_set_bound(self.mask());
        }
        let PrewhereRun { filter_arrays, rows_before_filter, rows_selected } = self;
        let filtered_rows = rows_before_filter - rows_selected;
        let refined_selection = if filter_arrays.len() == 0 || rows_selected == 0 {
            empty_selection()
        } else {
            // Convert the filter mask to a row selection.
            let prewhere_selection = RowSelection::from_filters(filter_arrays.as_slice());

            // Intersect with the original row selection if present.
            match &row_selection {
                Some(original) => original.and_then(&prewhere_selection),
                None => prewhere_selection,
            }
        };
        let ghost mask = self.mask();
        let result = PrewhereResult::new(refined_selection, filtered_rows);
        proof {
            law_unset_bits(mask);
            if row_selection is None {
                assert forall|row: int| 0 <= row < mask.len() implies (row < selection_mask(
                    result.selection(),
                ).len() && selection_mask(result.selection())[row] <==> #[trigger] mask[row]) by {
                    law_selects_just_what_passes_of_all(mask, result, row);
                }
            }
            if row_selection is Some {
                let original = row_selection->0;
                assert forall|row: int|
                    0 <= row < selection_mask(original).len() && selection_fits(
                        row_selection,
                        mask.len(),
                    ) implies (row < selection_mask(result.selection()).len() && selection_mask(
                    result.selection(),
                )[row] <==> #[trigger] selection_mask(original)[row] && mask[Set::new(
                    |i: int| 0 <= i < row && selection_mask(original)[i],
                ).len() as int]) by {
                    law_selects_just_what_passes(original, mask, result, row);
                    law_count_set_before(selection_mask(original), row);
                }
            }
        }
        result
    }
}

/// Whether `bits` are the filter bits of the rows of a batch: those of the mask
/// that the filters leave, all unset where they leave none. An empty batch is
/// not looked at.
pub open spec fn batch_keeps<E, F: ColumnPredicate<E>, P: PhysicalPredicate<E>, C: PrimaryKeyCodec<E>>(
    batch: &Batch,
    filters: Seq<SimpleFilterContext<F>>,
    physical_filters: Seq<PhysicalFilterContext<P>>,
    metadata: &RegionMetadata,
    codec: &C,
    skip_fields: bool,
    bits: Seq<bool>,
) -> bool {
    if batch_rows(*batch) == 0 {
        bits == Seq::<bool>::empty()
    } else {
        exists|mask: Option<BooleanBuffer>|
            {
                &&& #[trigger] filters_give(
                    batch,
                    filters,
                    physical_filters,
                    metadata,
                    codec,
                    skip_fields,
                    Ok::<Option<BooleanBuffer>, PrewhereError<E>>(mask),
                )
                &&& bits == mask_bits(mask, batch_rows(*batch))
            }
    }
}

/// Whether the filters fail on a batch with `error`.
pub open spec fn batch_fails<E, F: ColumnPredicate<E>, P: PhysicalPredicate<E>, C: PrimaryKeyCodec<E>>(
    batch: &Batch,
    filters: Seq<SimpleFilterContext<F>>,
    physical_filters: Seq<PhysicalFilterContext<P>>,
    metadata: &RegionMetadata,
    codec: &C,
    skip_fields: bool,
    error: PrewhereError<E>,
) -> bool {
    batch_rows(*batch) > 0 && filters_give(
        batch,
        filters,
        physical_filters,
        metadata,
        codec,
        skip_fields,
        Err::<Option<BooleanBuffer>, PrewhereError<E>>(error),
    )
}

impl PrewhereRun {
    /// Takes in a batch: applies the filters to it and keeps its filter bits.
    pub fn on_batch<E, F: ColumnPredicate<E>, P: PhysicalPredicate<E>, C: PrimaryKeyCodec<E>>(
        self,
        batch: &Batch,
        filters: &[SimpleFilterContext<F>],
        physical_filters: &[PhysicalFilterContext<P>],
        read_format: &ReadFormat,
        codec: &C,
        skip_fields: bool,
    ) -> (next: Result<Self, PrewhereError<E>>)
        requires
            filters_are_row_wise::<E, F, P>(filters@, physical_filters@),
            codec_is_row_wise::<E, C>(codec, batch),
            self.mask().len() + batch_rows(*batch) <= usize::MAX,
        ensures
            match next {
                Ok(run) => {
                    &&& run.mask().len() == self.mask().len() + batch_rows(*batch)
                    &&& run.mask().take(self.mask().len() as int) == self.mask()
                    &&& batch_keeps::<E, F, P, C>(
                        batch,
                        filters@,
                        physical_filters@,
                        &read_format.spec_metadata(),
                        codec,
                        skip_fields,
                        run.mask().skip(self.mask().len() as int),
                    )
                },
                Err(error) => batch_fails(
                    batch,
                    filters@,
                    physical_filters@,
                    &read_format.spec_metadata(),
                    codec,
                    skip_fields,
                    error,
                ),
            },
    {
        let num_rows = batch.num_rows();
        let ghost before = self.mask();
        if num_rows == 0 {
            assert(before.take(before.len() as int) =~= before);
            assert(before.skip(before.len() as int) =~= Seq::<bool>::empty());
            return Ok(self);
        }
        // Apply filters to get the mask for this batch

        let batch_mask = match apply_filters_to_batch(
            batch,
            filters,
            physical_filters,
            read_format,
            codec,
            skip_fields,
        ) {
            Ok(batch_mask) => batch_mask,
            Err(error) => {
                return Err(error);
            },
        };
        let ghost bits = mask_bits(batch_mask, num_rows as nat);
        assert(batch_keeps::<E, F, P, C>(
            batch,
            filters@,
            physical_filters@,
            &read_format.spec_metadata(),
            codec,
            skip_fields,
            bits,
        ));
        let next = self.push(num_rows, batch_mask);
        assert(next.mask().take(before.len() as int) =~= before);
        assert(next.mask().skip(before.len() as int) =~= bits);
        Ok(next)
    }
}

/// The rows of the batches that could be read.
pub open spec fn total_rows<E>(batches: Seq<Result<Batch, E>>) -> nat
    decreases batches.len(),
{
    if batches.len() == 0 {
        0
    } else {
        total_rows(batches.drop_last()) + match batches.last() {
            Ok(batch) => batch_rows(batch),
            Err(_) => 0,
        }
    }
}

/// Whether a codec gives tag columns with one value for each row of each batch.
pub open spec fn codec_reads<E, C: PrimaryKeyCodec<E>>(
    codec: &C,
    batches: Seq<Result<Batch, E>>,
) -> bool {
    forall|i: int|
        0 <= i < batches.len() && #[trigger] batches[i] is Ok ==> codec_is_row_wise::<E, C>(
            codec,
            &batches[i]->Ok_0,
        )
}

/// Whether `masks` are the filter bits of the batches, all of which could be
/// read and filtered.
pub open spec fn batches_keep<E, F: ColumnPredicate<E>, P: PhysicalPredicate<E>, C: PrimaryKeyCodec<E>>(
    batches: Seq<Result<Batch, E>>,
    filters: Seq<SimpleFilterContext<F>>,
    physical_filters: Seq<PhysicalFilterContext<P>>,
    metadata: &RegionMetadata,
    codec: &C,
    skip_fields: bool,
    masks: Seq<Seq<bool>>,
) -> bool {
    &&& masks.len() == batches.len()
    &&& forall|i: int|
        #![trigger masks[i]]
        #![trigger batches[i]]
        0 <= i < masks.len() ==> {
            &&& batches[i] is Ok
            &&& batch_keeps::<E, F, P, C>(
                &batches[i]->Ok_0,
                filters,
                physical_filters,
                metadata,
                codec,
                skip_fields,
                masks[i],
            )
        }
}

/// Whether the batch at `at` is the one that fails, with `error`: it could not
/// be read, or the filters fail on it.
pub open spec fn fails_at<E, F: ColumnPredicate<E>, P: PhysicalPredicate<E>, C: PrimaryKeyCodec<E>>(
    batches: Seq<Result<Batch, E>>,
    file_path: Seq<char>,
    filters: Seq<SimpleFilterContext<F>>,
    physical_filters: Seq<PhysicalFilterContext<P>>,
    metadata: &RegionMetadata,
    codec: &C,
    skip_fields: bool,
    at: int,
    error: PrewhereError<E>,
) -> bool {
    &&& 0 <= at < batches.len()
    &&& match batches[at] {
        Err(cause) => error matches PrewhereError::ReadParquet { path, source } && path@ == file_path
            && source == cause,
        Ok(batch) => batch_fails(
            &batch,
            filters,
            physical_filters,
            metadata,
            codec,
            skip_fields,
            error,
        ),
    }
}

/// Whether `result` is what the prewhere phase comes to: the outcome of the
/// filter bits of all batches, or the error of the first batch that fails.
pub open spec fn is_prewhere_result<
    E,
    F: ColumnPredicate<E>,
    P: PhysicalPredicate<E>,
    C: PrimaryKeyCodec<E>,
>(
    batches: Seq<Result<Batch, E>>,
    file_path: Seq<char>,
    row_selection: Option<RowSelection>,
    filters: Seq<SimpleFilterContext<F>>,
    physical_filters: Seq<PhysicalFilterContext<P>>,
    metadata: &RegionMetadata,
    codec: &C,
    skip_fields: bool,
    result: Result<PrewhereResult, PrewhereError<E>>,
) -> bool {
    match result {
        Ok(outcome) => exists|masks: Seq<Seq<bool>>|
            {
                &&& #[trigger] batches_keep::<E, F, P, C>(
                    batches,
                    filters,
                    physical_filters,
                    metadata,
                    codec,
                    skip_fields,
                    masks,
                )
                &&& is_outcome(row_selection, concat_masks(masks), outcome)
            },
        Err(error) => exists|masks: Seq<Seq<bool>>|
            {
                &&& masks.len() < batches.len()
                &&& #[trigger] batches_keep::<E, F, P, C>(
                    batches.take(masks.len() as int),
                    filters,
                    physical_filters,
                    metadata,
                    codec,
                    skip_fields,
                    masks,
                )
                &&& fails_at(
                    batches,
                    file_path,
                    filters,
                    physical_filters,
                    metadata,
                    codec,
                    skip_fields,
                    masks.len() as int,
                    error,
                )
            },
    }
}

/// Whether filter bits `mask` can be made a selection: where any is set, there
/// is one for each row that the selection before selects.
pub open spec fn is_acceptable(row_selection: Option<RowSelection>, mask: Seq<bool>) -> bool {
    count_set(mask) > 0 ==> selection_fits(row_selection, mask.len())
}

/// Executes the prewhere phase like [`execute_prewhere`], and gives `None` where
/// the rows of the batches are too many to count, or where any row is kept and
/// the batches do not hold just the rows that `row_selection` selects.
pub fn try_execute_prewhere<E, F: ColumnPredicate<E>, P: PhysicalPredicate<E>, C: PrimaryKeyCodec<E>>(
    batches: Vec<Result<Batch, E>>,
    file_path: &str,
    row_selection: Option<RowSelection>,
    filters: &[SimpleFilterContext<F>],
    physical_filters: &[PhysicalFilterContext<P>],
    read_format: &ReadFormat,
    codec: &C,
    skip_fields: bool,
) -> (result: Option<Result<PrewhereResult, PrewhereError<E>>>)
    requires
        filters_are_row_wise::<E, F, P>(filters@, physical_filters@),
        codec_reads::<E, C>(codec, batches@),
    ensures
        match result {
            Some(result) => is_prewhere_result::<E, F, P, C>(
                batches@,
                file_path@,
                row_selection,
                filters@,
                physical_filters@,
                &read_format.spec_metadata(),
                codec,
                skip_fields,
                result,
            ),
            None => total_rows(batches@) > usize::MAX || exists|masks: Seq<Seq<bool>>| #[trigger]
                batches_keep::<E, F, P, C>(
                    batches@,
                    filters@,
                    physical_filters@,
                    &read_format.spec_metadata(),
                    codec,
                    skip_fields,
                    masks,
                ) && !is_acceptable(row_selection, concat_masks(masks)),
        },
{
    let ghost all = batches@;
    let ghost metadata = read_format.spec_metadata();
    let ghost mut masks: Seq<Seq<bool>> = Seq::empty();
    let mut run = PrewhereRun::new();
    for batch_result in reader: batches.into_iter()
        invariant
            reader.seq() == all,
            metadata == read_format.spec_metadata(),
            filters_are_row_wise::<E, F, P>(filters@, physical_filters@),
            codec_reads::<E, C>(codec, all),
            masks.len() == reader.index(),
            batches_keep::<E, F, P, C>(
                all.take(reader.index()),
                filters@,
                physical_filters@,
                &metadata,
                codec,
                skip_fields,
                masks,
            ),
            run.mask() == concat_masks(masks),
            run.mask().len() == total_rows(all.take(reader.index())),
    {
        let ghost at = reader.index();
        let ghost before = run.mask();
        proof {
            assert(all.take(at + 1).drop_last() =~= all.take(at));
            lemma_total_grows(all, at + 1);
            assert(all[at] == batch_result);
        }
        let batch = match batch_result {
            Ok(batch) => batch,
            Err(source) => {
                let error = PrewhereError::ReadParquet { path: file_path.to_owned(), source };
                assert(fails_at(
                    all,
                    file_path@,
                    filters@,
                    physical_filters@,
                    &metadata,
                    codec,
                    skip_fields,
                    masks.len() as int,
                    error,
                ));
                return Some(Err(error));
            },
        };
        if !run.has_room(batch.num_rows()) {
            return None;
        }
        run =
        match run.on_batch(&batch, filters, physical_filters, read_format, codec, skip_fields) {
            Ok(next) => next,
            Err(error) => {
                assert(fails_at(
                    all,
                    file_path@,
                    filters@,
                    physical_filters@,
                    &metadata,
                    codec,
                    skip_fields,
                    masks.len() as int,
                    error,
                ));
                return Some(Err(error));
            },
        };
        proof {
            let bits = run.mask().skip(before.len() as int);
            lemma_concat_push(masks, bits);
            assert(before + bits =~= run.mask());
            let old_masks = masks;
            masks = masks.push(bits);
            let read = all.take(at + 1);
            assert forall|i: int|
                #![trigger read[i]]
                0 <= i < masks.len() implies read[i] is Ok && batch_keeps::<E, F, P, C>(
                &read[i]->Ok_0,
                filters@,
                physical_filters@,
                &metadata,
                codec,
                skip_fields,
                masks[i],
            ) by {
                if i < at {
                    assert(masks[i] == old_masks[i]);
                    assert(read[i] == all.take(at)[i]);
                }
            }
            assert(batches_keep::<E, F, P, C>(
                read,
                filters@,
                physical_filters@,
                &metadata,
                codec,
                skip_fields,
                masks,
            ));
        }
    }
    assert(all.take(all.len() as int) =~= all);
    if !run.accepts(&row_selection) {
        return None;
    }
    Some(Ok(run.finish(row_selection)))
}

/// Executes the prewhere phase on the batches of the prewhere columns: applies
/// filters to compute a refined row selection for reading remaining columns.
///
/// The batches hold the rows that `row_selection` selects, in order, and the
/// phase ends at the first of them that cannot be read or filtered.
pub fn execute_prewhere<E, F: ColumnPredicate<E>, P: PhysicalPredicate<E>, C: PrimaryKeyCodec<E>>(
    batches: Vec<Result<Batch, E>>,
    file_path: &str,
    row_selection: Option<RowSelection>,
    filters: &[SimpleFilterContext<F>],
    physical_filters: &[PhysicalFilterContext<P>],
    read_format: &ReadFormat,
    codec: &C,
    skip_fields: bool,
) -> (result: Result<PrewhereResult, PrewhereError<E>>)
    requires
        filters_are_row_wise::<E, F, P>(filters@, physical_filters@),
        codec_reads::<E, C>(codec, batches@),
        total_rows(batches@) <= usize::MAX,
        forall|masks: Seq<Seq<bool>>| #[trigger]
            batches_keep::<E, F, P, C>(
                batches@,
                filters@,
                physical_filters@,
                &read_format.spec_metadata(),
                codec,
                skip_fields,
                masks,
            ) ==> is_acceptable(row_selection, concat_masks(masks)),
    ensures
        is_prewhere_result::<E, F, P, C>(
            batches@,
            file_path@,
            row_selection,
            filters@,
            physical_filters@,
            &read_format.spec_metadata(),
            codec,
            skip_fields,
            result,
        ),
{
    try_execute_prewhere(
        batches,
        file_path,
        row_selection,
        filters,
        physical_filters,
        read_format,
        codec,
        skip_fields,
    ).unwrap()
}

/// Batches hold at least the rows of the first of them.
proof fn lemma_total_grows<E>(batches: Seq<Result<Batch, E>>, n: int)
    requires
        0 <= n <= batches.len(),
    ensures
        total_rows(batches.take(n)) <= total_rows(batches),
    decreases batches.len() - n,
{
    if n < batches.len() {
        lemma_total_grows(batches, n + 1);
        assert(batches.take(n + 1).drop_last() =~= batches.take(n));
    } else {
        assert(batches.take(n) =~= batches);
    }
}

/// The rows that the refined selection selects and the rows that are filtered
/// out are together the rows that were read.
pub proof fn law_rows_add_up(
    row_selection: Option<RowSelection>,
    mask: Seq<bool>,
    result: PrewhereResult,
)
    requires
        is_acceptable(row_selection, mask),
        is_outcome(row_selection, mask, result),
    ensures
        count_set(selection_mask(result.selection())) + result.filtered() == mask.len(),
{
    if let Some(original) = row_selection {
        if count_set(mask) > 0 {
            law_refining_narrows(selection_mask(original), mask);
        }
    }
}

/// The refined selection selects no row that the selection before it does not.
pub proof fn law_selection_is_refined(
    original: RowSelection,
    mask: Seq<bool>,
    result: PrewhereResult,
)
    requires
        is_acceptable(Some(original), mask),
        is_outcome(Some(original), mask, result),
    ensures
        selection_mask(result.selection()).len() <= selection_mask(original).len(),
        forall|row: int|
            0 <= row < selection_mask(result.selection()).len() ==> #[trigger] selection_mask(
                result.selection(),
            )[row] ==> selection_mask(original)[row],
{
    if count_set(mask) > 0 {
        law_refining_narrows(selection_mask(original), mask);
    }
}

/// Of the rows that the selection before selects, the refined selection selects
/// just those that pass: the row that was read as the `n`-th is selected if the
/// `n`-th filter bit is set.
pub proof fn law_selects_just_what_passes(
    original: RowSelection,
    mask: Seq<bool>,
    result: PrewhereResult,
    row: int,
)
    requires
        selection_fits(Some(original), mask.len()),
        is_outcome(Some(original), mask, result),
        0 <= row < selection_mask(original).len(),
    ensures
        ({
            let before = selection_mask(original);
            let after = selection_mask(result.selection());
            row < after.len() && after[row] <==> before[row] && mask[count_set(
                before.take(row),
            ) as int]
        }),
{
    lemma_count_set_zero(mask);
    if selection_mask(original)[row] {
        lemma_count_before(selection_mask(original), row);
    }
}

/// Without a selection before it, the refined selection selects just the rows
/// that pass: the row that was read as the `n`-th is selected exactly if the
/// `n`-th filter bit is set.
pub proof fn law_selects_just_what_passes_of_all(
    mask: Seq<bool>,
    result: PrewhereResult,
    row: int,
)
    requires
        is_outcome(None, mask, result),
        0 <= row < mask.len(),
    ensures
        row < selection_mask(result.selection()).len() && selection_mask(result.selection())[row]
            <==> mask[row],
{
    lemma_count_set_zero(mask);
}

/// The refined selection speaks of no other rows than the selection before it,
/// or than the rows that were read where there was none.
pub proof fn law_selects_no_other_rows(
    row_selection: Option<RowSelection>,
    mask: Seq<bool>,
    result: PrewhereResult,
)
    requires
        is_outcome(row_selection, mask, result),
    ensures
        (exists|row: int| 0 <= row < mask.len() && #[trigger] mask[row]) ==> selection_mask(
            result.selection(),
        ).len() == match row_selection {
            Some(original) => selection_mask(original).len(),
            None => mask.len(),
        },
        (forall|row: int| 0 <= row < mask.len() ==> !#[trigger] mask[row]) ==> selection_mask(
            result.selection(),
        ).len() == 0,
{
    lemma_count_set_zero(mask);
}

/// The row that is the `n`-th of those that the selection before selects is
/// selected exactly if the `n`-th filter bit is set; it is the `n`-th if `n` rows
/// before it are selected.
pub proof fn law_selected_row_is_the_nth_read(
    original: RowSelection,
    mask: Seq<bool>,
    result: PrewhereResult,
    row: int,
)
    requires
        selection_fits(Some(original), mask.len()),
        is_outcome(Some(original), mask, result),
        0 <= row < selection_mask(original).len(),
    ensures
        row < selection_mask(result.selection()).len() && selection_mask(result.selection())[row]
            <==> selection_mask(original)[row] && mask[Set::new(
            |i: int| 0 <= i < row && selection_mask(original)[i],
        ).len() as int],
{
    law_selects_just_what_passes(original, mask, result, row);
    law_count_set_before(selection_mask(original), row);
}

/// As many rows are filtered out as filter bits are not set.
pub proof fn law_filtered_rows_are_those_that_fail(
    row_selection: Option<RowSelection>,
    mask: Seq<bool>,
    result: PrewhereResult,
)
    requires
        is_outcome(row_selection, mask, result),
    ensures
        result.filtered() == Set::new(|row: int| 0 <= row < mask.len() && !mask[row]).len(),
{
    law_unset_bits(mask);
}

/// The filter bits of a batch are those of the mask that its filters leave, all
/// unset where they leave none, and there are none for an empty batch.
pub proof fn law_filter_bits_of_a_batch<
    E,
    F: ColumnPredicate<E>,
    P: PhysicalPredicate<E>,
    C: PrimaryKeyCodec<E>,
>(
    batch: &Batch,
    filters: Seq<SimpleFilterContext<F>>,
    physical_filters: Seq<PhysicalFilterContext<P>>,
    metadata: &RegionMetadata,
    codec: &C,
    skip_fields: bool,
    bits: Seq<bool>,
)
    requires
        batch_keeps::<E, F, P, C>(
            batch,
            filters,
            physical_filters,
            metadata,
            codec,
            skip_fields,
            bits,
        ),
    ensures
        batch_rows(*batch) == 0 ==> bits.len() == 0,
        batch_rows(*batch) > 0 ==> exists|mask: Option<BooleanBuffer>|
            {
                &&& #[trigger] filters_give(
                    batch,
                    filters,
                    physical_filters,
                    metadata,
                    codec,
                    skip_fields,
                    Ok::<Option<BooleanBuffer>, PrewhereError<E>>(mask),
                )
                &&& mask matches Some(mask) ==> bits == buffer_bits(mask)
                &&& mask is None ==> bits.len() == batch_rows(*batch) && forall|row: int|
                    0 <= row < bits.len() ==> !#[trigger] bits[row]
            },
{
}

/// The phase that succeeds could read and filter every batch, and what it comes
/// to is the outcome of the filter bits of the batches, one after the other.
pub proof fn law_phase_takes_in_every_batch<
    E,
    F: ColumnPredicate<E>,
    P: PhysicalPredicate<E>,
    C: PrimaryKeyCodec<E>,
>(
    batches: Seq<Result<Batch, E>>,
    file_path: Seq<char>,
    row_selection: Option<RowSelection>,
    filters: Seq<SimpleFilterContext<F>>,
    physical_filters: Seq<PhysicalFilterContext<P>>,
    metadata: &RegionMetadata,
    codec: &C,
    skip_fields: bool,
    outcome: PrewhereResult,
)
    requires
        is_prewhere_result::<E, F, P, C>(
            batches,
            file_path,
            row_selection,
            filters,
            physical_filters,
            metadata,
            codec,
            skip_fields,
            Ok::<PrewhereResult, PrewhereError<E>>(outcome),
        ),
    ensures
        exists|masks: Seq<Seq<bool>>|
            {
                &&& #[trigger] is_outcome(row_selection, masks.flatten(), outcome)
                &&& masks.len() == batches.len()
                &&& forall|i: int|
                    0 <= i < batches.len() ==> (#[trigger] batches[i]) is Ok && batch_keeps::<
                        E,
                        F,
                        P,
                        C,
                    >(
                        &batches[i]->Ok_0,
                        filters,
                        physical_filters,
                        metadata,
                        codec,
                        skip_fields,
                        masks[i],
                    )
            },
{
    let masks = choose|masks: Seq<Seq<bool>>|
        {
            &&& #[trigger] batches_keep::<E, F, P, C>(
                batches,
                filters,
                physical_filters,
                metadata,
                codec,
                skip_fields,
                masks,
            )
            &&& is_outcome(row_selection, concat_masks(masks), outcome)
        };
    law_concat_is_flatten(masks);
    assert(is_outcome(row_selection, masks.flatten(), outcome));
}

/// The phase that fails does so at the first batch that could not be read, with
/// the path of the file and the reader's error, or that the filters fail on, with
/// their error. All batches before could be read and filtered.
pub proof fn law_phase_fails_at_the_first_bad_batch<
    E,
    F: ColumnPredicate<E>,
    P: PhysicalPredicate<E>,
    C: PrimaryKeyCodec<E>,
>(
    batches: Seq<Result<Batch, E>>,
    file_path: Seq<char>,
    row_selection: Option<RowSelection>,
    filters: Seq<SimpleFilterContext<F>>,
    physical_filters: Seq<PhysicalFilterContext<P>>,
    metadata: &RegionMetadata,
    codec: &C,
    skip_fields: bool,
    error: PrewhereError<E>,
)
    requires
        is_prewhere_result::<E, F, P, C>(
            batches,
            file_path,
            row_selection,
            filters,
            physical_filters,
            metadata,
            codec,
            skip_fields,
            Err::<PrewhereResult, PrewhereError<E>>(error),
        ),
    ensures
        exists|at: int|
            {
                &&& 0 <= at < batches.len()
                &&& forall|i: int|
                    0 <= i < at ==> (#[trigger] batches[i]) is Ok && exists|bits: Seq<bool>|
                        #[trigger] batch_keeps::<E, F, P, C>(
                            &batches[i]->Ok_0,
                            filters,
                            physical_filters,
                            metadata,
                            codec,
                            skip_fields,
                            bits,
                        )
                &&& #[trigger] batches[at] matches Err(cause) ==> (
                error matches PrewhereError::ReadParquet { path, source } && path@ == file_path
                    && source == cause)
                &&& batches[at] matches Ok(batch) ==> batch_rows(batch) > 0 && filters_give(
                    &batch,
                    filters,
                    physical_filters,
                    metadata,
                    codec,
                    skip_fields,
                    Err::<Option<BooleanBuffer>, PrewhereError<E>>(error),
                )
            },
{
    let masks = choose|masks: Seq<Seq<bool>>|
        {
            &&& masks.len() < batches.len()
            &&& #[trigger] batches_keep::<E, F, P, C>(
                batches.take(masks.len() as int),
                filters,
                physical_filters,
                metadata,
                codec,
                skip_fields,
                masks,
            )
            &&& fails_at(
                batches,
                file_path,
                filters,
                physical_filters,
                metadata,
                codec,
                skip_fields,
                masks.len() as int,
                error,
            )
        };
    let at = masks.len() as int;
    let read = batches.take(at);
    assert forall|i: int| 0 <= i < at implies (#[trigger] batches[i]) is Ok && exists|
        bits: Seq<bool>,
    | #[trigger]
        batch_keeps::<E, F, P, C>(
            &batches[i]->Ok_0,
            filters,
            physical_filters,
            metadata,
            codec,
            skip_fields,
            bits,
        ) by {
        assert(read[i] == batches[i]);
        assert(batch_keeps::<E, F, P, C>(
            &batches[i]->Ok_0,
            filters,
            physical_filters,
            metadata,
            codec,
            skip_fields,
            masks[i],
        ));
    }
    let failed = batches[at];
}

/// Batches hold the rows of those that could be read: none if there are none, and
/// with a further batch its rows more.
pub proof fn law_rows_of_batches<E>(batches: Seq<Result<Batch, E>>, batch: Batch, error: E)
    ensures
        total_rows(Seq::<Result<Batch, E>>::empty()) == 0,
        total_rows(batches.push(Ok(batch))) == total_rows(batches) + batch_rows(batch),
        total_rows(batches.push(Err(error))) == total_rows(batches),
{
    assert(batches.push(Ok(batch)).drop_last() =~= batches);
    assert(batches.push(Err(error)).drop_last() =~= batches);
}

/// Filter bits can be made a selection exactly if none is set, or if they are as
/// many as the rows that the selection before selects, of which there can be no
/// more than can be counted.
pub proof fn law_acceptable_masks(selection: RowSelection, mask: Seq<bool>)
    ensures
        is_acceptable(None, mask),
        is_acceptable(Some(selection), mask) <==> {
            ||| forall|row: int| 0 <= row < mask.len() ==> !#[trigger] mask[row]
            ||| selection_mask(selection).len() <= usize::MAX && Set::new(
                |i: int| 0 <= i < selection_mask(selection).len() && selection_mask(selection)[i],
            ).len() == mask.len()
        },
{
    lemma_count_set_zero(mask);
    law_count_set_counts_positions(selection_mask(selection));
}

/// Where no row passes, the refined selection selects nothing and every row
/// that was read is filtered out.
pub proof fn law_nothing_passes(
    row_selection: Option<RowSelection>,
    mask: Seq<bool>,
    result: PrewhereResult,
)
    requires
        forall|row: int| 0 <= row < mask.len() ==> !mask[row],
        is_outcome(row_selection, mask, result),
    ensures
        selection_mask(result.selection()) == Seq::<bool>::empty(),
        result.filtered() == mask.len(),
{
    lemma_count_set_zero(mask);
}

/// Where every row passes, the refined selection selects the rows that were
/// selected before, or all where there was no selection, and no row is filtered
/// out.
pub proof fn law_everything_passes(
    row_selection: Option<RowSelection>,
    rows: nat,
    result: PrewhereResult,
)
    requires
        rows > 0,
        selection_fits(row_selection, rows),
        is_outcome(row_selection, uniform_bits(rows, true), result),
    ensures
        selection_mask(result.selection()) == match row_selection {
            Some(original) => selection_mask(original),
            None => uniform_bits(rows, true),
        },
        result.filtered() == 0,
{
    let mask = uniform_bits(rows, true);
    lemma_count_set_uniform(mask, true);
    if let Some(original) = row_selection {
        law_refining_by_all_changes_nothing(selection_mask(original));
    }
}

/// There is a filter bit for each row of the batches.
proof fn lemma_masks_cover<E, F: ColumnPredicate<E>, P: PhysicalPredicate<E>, C: PrimaryKeyCodec<E>>(
    batches: Seq<Result<Batch, E>>,
    filters: Seq<SimpleFilterContext<F>>,
    physical_filters: Seq<PhysicalFilterContext<P>>,
    metadata: &RegionMetadata,
    codec: &C,
    skip_fields: bool,
    masks: Seq<Seq<bool>>,
)
    requires
        batches_keep::<E, F, P, C>(
            batches,
            filters,
            physical_filters,
            metadata,
            codec,
            skip_fields,
            masks,
        ),
    ensures
        concat_masks(masks).len() == total_rows(batches),
    decreases batches.len(),
{
    if batches.len() > 0 {
        let last = batches.len() - 1;
        assert(batches[last] is Ok);
        let batch = batches[last]->Ok_0;
        assert(batch_keeps::<E, F, P, C>(
            &batch,
            filters,
            physical_filters,
            metadata,
            codec,
            skip_fields,
            masks[last],
        ));
        assert forall|i: int|
            #![trigger batches.drop_last()[i]]
            0 <= i < masks.drop_last().len() implies batches.drop_last()[i] is Ok
            && batch_keeps::<E, F, P, C>(
            &batches.drop_last()[i]->Ok_0,
            filters,
            physical_filters,
            metadata,
            codec,
            skip_fields,
            masks.drop_last()[i],
        ) by {
            assert(batches[i] is Ok);
        }
        lemma_masks_cover::<E, F, P, C>(
            batches.drop_last(),
            filters,
            physical_filters,
            metadata,
            codec,
            skip_fields,
            masks.drop_last(),
        );
    }
}

/// A prewhere phase that succeeds accounts for every row of its batches: the
/// refined selection selects it, or it is filtered out.
pub proof fn law_phase_accounts_for_every_row<
    E,
    F: ColumnPredicate<E>,
    P: PhysicalPredicate<E>,
    C: PrimaryKeyCodec<E>,
>(
    batches: Seq<Result<Batch, E>>,
    file_path: Seq<char>,
    row_selection: Option<RowSelection>,
    filters: Seq<SimpleFilterContext<F>>,
    physical_filters: Seq<PhysicalFilterContext<P>>,
    metadata: &RegionMetadata,
    codec: &C,
    skip_fields: bool,
    outcome: PrewhereResult,
)
    requires
        selection_fits(row_selection, total_rows(batches)),
        is_prewhere_result::<E, F, P, C>(
            batches,
            file_path,
            row_selection,
            filters,
            physical_filters,
            metadata,
            codec,
            skip_fields,
            Ok::<PrewhereResult, PrewhereError<E>>(outcome),
        ),
    ensures
        count_set(selection_mask(outcome.selection())) + outcome.filtered() == total_rows(batches),
{
    let masks = choose|masks: Seq<Seq<bool>>|
        {
            &&& #[trigger] batches_keep::<E, F, P, C>(
                batches,
                filters,
                physical_filters,
                metadata,
                codec,
                skip_fields,
                masks,
            )
            &&& is_outcome(row_selection, concat_masks(masks), outcome)
        };
    lemma_masks_cover::<E, F, P, C>(
        batches,
        filters,
        physical_filters,
        metadata,
        codec,
        skip_fields,
        masks,
    );
    law_rows_add_up(row_selection, concat_masks(masks), outcome);
}

} // verus!
