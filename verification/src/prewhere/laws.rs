//! What holds of lists of filters: which filters can be left out, and how lists
//! combine.
use crate::columnar::{
    and_bits, batch_columns, batch_fields, batch_rows, boolean_values, buffer_bits,
    lemma_count_set_zero, Batch, Column,
};
use crate::filter::{
    ColumnPredicate, MaybeFilter, PhysicalFilterContext, PhysicalPredicate, SimpleFilterContext,
};
use crate::prewhere::apply::{
    applies_at, applies_physical, applies_simple, combined_mask, evaluates, evaluates_expression,
    filters_give, is_run, mask_bits, run_gives, FilterStep, PrewhereError,
};
use crate::read_format::{RegionMetadata, SemanticType};
use crate::search::{first_index, lemma_first_index};
use crate::tag_decode::{
    decodes_tag, fetches_column, keys_of, PrimaryKeyCodec, PrimaryKeyEncoding, TagDecodeView,
};
use arrow::buffer::BooleanBuffer;
use arrow::datatypes::DataType;
use std::sync::Arc;
use vstd::prelude::*;

verus! {

/// Lists of filters without the filter at `index`, the simple filters coming
/// before the physical ones.
pub open spec fn without<F, P>(
    filters: Seq<SimpleFilterContext<F>>,
    physical_filters: Seq<PhysicalFilterContext<P>>,
    index: int,
) -> (Seq<SimpleFilterContext<F>>, Seq<PhysicalFilterContext<P>>) {
    if index < filters.len() {
        (filters.remove(index), physical_filters)
    } else {
        (filters, physical_filters.remove(index - filters.len()))
    }
}

/// Whether the filter at `index` keeps every row and decodes nothing.
spec fn is_inert_at<E, F: ColumnPredicate<E>, P: PhysicalPredicate<E>, C: PrimaryKeyCodec<E>>(
    batch: &Batch,
    filters: Seq<SimpleFilterContext<F>>,
    physical_filters: Seq<PhysicalFilterContext<P>>,
    metadata: &RegionMetadata,
    codec: &C,
    skip_fields: bool,
    index: int,
) -> bool {
    forall|
        pre: TagDecodeView<C::Decoded>,
        post: TagDecodeView<C::Decoded>,
        step: FilterStep<E>,
    | #[trigger]
        applies_at(
            batch,
            filters,
            physical_filters,
            metadata,
            codec,
            skip_fields,
            index,
            pre,
            post,
            step,
        ) <==> post == pre && step == FilterStep::<E>::Skip
}

/// A step that keeps every row can be left out of the combined mask.
proof fn lemma_combined_without_skip<E>(rows: nat, steps: Seq<FilterStep<E>>, k: int)
    requires
        0 <= k < steps.len(),
        steps[k] is Skip,
    ensures
        combined_mask(rows, steps) == combined_mask(rows, steps.remove(k)),
{
    let fewer = steps.remove(k);
    assert forall|row: int| 0 <= row < rows implies combined_mask(rows, steps)[row]
        == combined_mask(rows, fewer)[row] by {
        if combined_mask(rows, steps)[row] {
            assert forall|i: int| 0 <= i < fewer.len() implies (#[trigger] fewer[i]).passes(
                row,
            ) by {
                if i < k {
                    assert(fewer[i] == steps[i]);
                } else {
                    assert(fewer[i] == steps[i + 1]);
                }
            }
        }
        if combined_mask(rows, fewer)[row] {
            assert forall|i: int| 0 <= i < steps.len() implies (#[trigger] steps[i]).passes(
                row,
            ) by {
                if i < k {
                    assert(fewer[i] == steps[i]);
                } else if i > k {
                    assert(fewer[i - 1] == steps[i]);
                }
            }
        }
    }
    assert(combined_mask(rows, steps) =~= combined_mask(rows, fewer));
}

/// What a filter does does not depend on an inert filter before or after it.
proof fn lemma_applies_without<
    E,
    F: ColumnPredicate<E>,
    P: PhysicalPredicate<E>,
    C: PrimaryKeyCodec<E>,
>(
    batch: &Batch,
    filters: Seq<SimpleFilterContext<F>>,
    physical_filters: Seq<PhysicalFilterContext<P>>,
    metadata: &RegionMetadata,
    codec: &C,
    skip_fields: bool,
    k: int,
    i: int,
    pre: TagDecodeView<C::Decoded>,
    post: TagDecodeView<C::Decoded>,
    step: FilterStep<E>,
)
    requires
        0 <= k < filters.len() + physical_filters.len(),
        0 <= i < filters.len() + physical_filters.len() - 1,
    ensures
        ({
            let fewer = without(filters, physical_filters, k);
            let at = if i < k {
                i
            } else {
                i + 1
            };
            applies_at(
                batch,
                fewer.0,
                fewer.1,
                metadata,
                codec,
                skip_fields,
                i,
                pre,
                post,
                step,
            ) <==> applies_at(
                batch,
                filters,
                physical_filters,
                metadata,
                codec,
                skip_fields,
                at,
                pre,
                post,
                step,
            )
        }),
{
}

/// A run of filters gives a run of the filters without an inert one.
proof fn lemma_run_without<E, F: ColumnPredicate<E>, P: PhysicalPredicate<E>, C: PrimaryKeyCodec<E>>(
    batch: &Batch,
    filters: Seq<SimpleFilterContext<F>>,
    physical_filters: Seq<PhysicalFilterContext<P>>,
    metadata: &RegionMetadata,
    codec: &C,
    skip_fields: bool,
    k: int,
    steps: Seq<FilterStep<E>>,
    states: Seq<TagDecodeView<C::Decoded>>,
    result: Result<Option<BooleanBuffer>, PrewhereError<E>>,
)
    requires
        0 <= k < filters.len() + physical_filters.len(),
        is_inert_at::<E, F, P, C>(
            batch,
            filters,
            physical_filters,
            metadata,
            codec,
            skip_fields,
            k,
        ),
        is_run(
            batch,
            filters,
            physical_filters,
            metadata,
            codec,
            skip_fields,
            steps,
            states,
        ),
        run_gives(batch_rows(*batch), steps, result),
    ensures
        filters_give(
            batch,
            without(filters, physical_filters, k).0,
            without(filters, physical_filters, k).1,
            metadata,
            codec,
            skip_fields,
            result,
        ),
{
    let fewer = without(filters, physical_filters, k);
    let total = filters.len() + physical_filters.len();
    assert(fewer.0.len() + fewer.1.len() == total - 1);
    let (new_steps, new_states) = if k < steps.len() {
        (steps.remove(k), states.remove(k))
    } else {
        (steps, states)
    };
    if k < steps.len() {
        assert(steps[k] is Skip && states[k + 1] == states[k]);
        lemma_combined_without_skip(batch_rows(*batch), steps, k);
    }
    assert forall|i: int|
        #![trigger new_steps[i]]
        0 <= i < new_steps.len() implies applies_at(
        batch,
        fewer.0,
        fewer.1,
        metadata,
        codec,
        skip_fields,
        i,
        new_states[i],
        new_states[i + 1],
        new_steps[i],
    ) && new_steps[i].fits(batch_rows(*batch)) && (i < new_steps.len() - 1
        ==> !new_steps[i].stops()) by {
        let at = if i < k {
            i
        } else {
            i + 1
        };
        assert(new_steps[i] == steps[at]);
        assert(new_states[i] == states[at]);
        assert(new_states[i + 1] == states[at + 1]);
        lemma_applies_without::<E, F, P, C>(
            batch,
            filters,
            physical_filters,
            metadata,
            codec,
            skip_fields,
            k,
            i,
            new_states[i],
            new_states[i + 1],
            new_steps[i],
        );
    }
    if k < steps.len() {
        if k == steps.len() - 1 {
            assert(steps.len() == total);
            if new_steps.len() > 0 {
                assert(new_steps.last() == steps[k - 1]);
                assert(!steps[k - 1].stops());
            }
        } else {
            assert(new_steps.last() == steps.last());
        }
    }
    assert(new_states[0] == states[0]);
    assert(is_run(
        batch,
        fewer.0,
        fewer.1,
        metadata,
        codec,
        skip_fields,
        new_steps,
        new_states,
    ));
    assert(run_gives(batch_rows(*batch), new_steps, result));
}

/// A run of the filters without an inert one gives a run of the filters.
proof fn lemma_run_with<E, F: ColumnPredicate<E>, P: PhysicalPredicate<E>, C: PrimaryKeyCodec<E>>(
    batch: &Batch,
    filters: Seq<SimpleFilterContext<F>>,
    physical_filters: Seq<PhysicalFilterContext<P>>,
    metadata: &RegionMetadata,
    codec: &C,
    skip_fields: bool,
    k: int,
    steps: Seq<FilterStep<E>>,
    states: Seq<TagDecodeView<C::Decoded>>,
    result: Result<Option<BooleanBuffer>, PrewhereError<E>>,
)
    requires
        0 <= k < filters.len() + physical_filters.len(),
        is_inert_at::<E, F, P, C>(
            batch,
            filters,
            physical_filters,
            metadata,
            codec,
            skip_fields,
            k,
        ),
        is_run(
            batch,
            without(filters, physical_filters, k).0,
            without(filters, physical_filters, k).1,
            metadata,
            codec,
            skip_fields,
            steps,
            states,
        ),
        run_gives(batch_rows(*batch), steps, result),
    ensures
        filters_give(
            batch,
            filters,
            physical_filters,
            metadata,
            codec,
            skip_fields,
            result,
        ),
{
    let fewer = without(filters, physical_filters, k);
    let total = filters.len() + physical_filters.len();
    assert(fewer.0.len() + fewer.1.len() == total - 1);
    let reached = steps.len() > k || steps.len() == k && (k == 0 || !steps.last().stops());
    let (new_steps, new_states) = if reached {
        (steps.insert(k, FilterStep::<E>::Skip), states.insert(k, states[k]))
    } else {
        (steps, states)
    };
    if reached {
        assert(new_steps[k] == FilterStep::<E>::Skip);
        assert(new_steps.remove(k) =~= steps);
        lemma_combined_without_skip(batch_rows(*batch), new_steps, k);
    }
    assert forall|i: int|
        #![trigger new_steps[i]]
        0 <= i < new_steps.len() implies applies_at(
        batch,
        filters,
        physical_filters,
        metadata,
        codec,
        skip_fields,
        i,
        new_states[i],
        new_states[i + 1],
        new_steps[i],
    ) && new_steps[i].fits(batch_rows(*batch)) && (i < new_steps.len() - 1
        ==> !new_steps[i].stops()) by {
        if reached && i == k {
            assert(new_states[i + 1] == new_states[i]);
        } else {
            let from = if i < k {
                i
            } else {
                i - 1
            };
            assert(new_steps[i] == steps[from]);
            assert(new_states[i] == states[from]);
            assert(new_states[i + 1] == states[from + 1]);
            lemma_applies_without::<E, F, P, C>(
                batch,
                filters,
                physical_filters,
                metadata,
                codec,
                skip_fields,
                k,
                from,
                new_states[i],
                new_states[i + 1],
                new_steps[i],
            );
        }
    }
    if reached && steps.len() > k {
        assert(new_steps.last() == steps.last());
    }
    assert(new_states[0] == states[0]);
    assert(is_run(
        batch,
        filters,
        physical_filters,
        metadata,
        codec,
        skip_fields,
        new_steps,
        new_states,
    ));
    assert(run_gives(batch_rows(*batch), new_steps, result));
}

/// An inert filter can be left out.
proof fn lemma_inert_can_go<
    E,
    F: ColumnPredicate<E>,
    P: PhysicalPredicate<E>,
    C: PrimaryKeyCodec<E>,
>(
    batch: &Batch,
    filters: Seq<SimpleFilterContext<F>>,
    physical_filters: Seq<PhysicalFilterContext<P>>,
    metadata: &RegionMetadata,
    codec: &C,
    skip_fields: bool,
    k: int,
    result: Result<Option<BooleanBuffer>, PrewhereError<E>>,
)
    requires
        0 <= k < filters.len() + physical_filters.len(),
        is_inert_at::<E, F, P, C>(
            batch,
            filters,
            physical_filters,
            metadata,
            codec,
            skip_fields,
            k,
        ),
    ensures
        filters_give(
            batch,
            filters,
            physical_filters,
            metadata,
            codec,
            skip_fields,
            result,
        ) <==> filters_give(
            batch,
            without(filters, physical_filters, k).0,
            without(filters, physical_filters, k).1,
            metadata,
            codec,
            skip_fields,
            result,
        ),
{
    let fewer = without(filters, physical_filters, k);
    let rows = batch_rows(*batch);
    if filters_give(batch, filters, physical_filters, metadata, codec, skip_fields, result) {
        let (steps, states) = choose|
            steps: Seq<FilterStep<E>>,
            states: Seq<TagDecodeView<C::Decoded>>,
        |
            #[trigger] is_run(
                batch,
                filters,
                physical_filters,
                metadata,
                codec,
                skip_fields,
                steps,
                states,
            ) && run_gives(rows, steps, result);
        lemma_run_without(
            batch,
            filters,
            physical_filters,
            metadata,
            codec,
            skip_fields,
            k,
            steps,
            states,
            result,
        );
    }
    if filters_give(batch, fewer.0, fewer.1, metadata, codec, skip_fields, result) {
        let (steps, states) = choose|
            steps: Seq<FilterStep<E>>,
            states: Seq<TagDecodeView<C::Decoded>>,
        |
            #[trigger] is_run(
                batch,
                fewer.0,
                fewer.1,
                metadata,
                codec,
                skip_fields,
                steps,
                states,
            ) && run_gives(rows, steps, result);
        lemma_run_with(
            batch,
            filters,
            physical_filters,
            metadata,
            codec,
            skip_fields,
            k,
            steps,
            states,
            result,
        );
    }
}

/// Whether the filter at `index`, the simple filters coming before the physical
/// ones, has to be evaluated on a column that is no tag and that the batch does
/// not have.
pub open spec fn misses_field_at<F, P>(
    batch: &Batch,
    filters: Seq<SimpleFilterContext<F>>,
    physical_filters: Seq<PhysicalFilterContext<P>>,
    index: int,
) -> bool {
    if index < filters.len() {
        let filter = filters[index];
        &&& filter.filter matches MaybeFilter::Filter(simple)
        &&& filter.semantic_type != SemanticType::Tag
        &&& !batch_fields(*batch).contains(simple.column_name@)
    } else {
        let filter = physical_filters[index - filters.len()];
        &&& filter.filter is Filter
        &&& filter.semantic_type != SemanticType::Tag
        &&& !batch_fields(*batch).contains(filter.column_name@)
    }
}

/// A filter on a column that is no tag and that the batch does not have is
/// passed over: the filters give just what they give without it. It drops no
/// row and does not fail.
pub proof fn law_missing_field_is_passed_over<
    E,
    F: ColumnPredicate<E>,
    P: PhysicalPredicate<E>,
    C: PrimaryKeyCodec<E>,
>(
    batch: &Batch,
    filters: Seq<SimpleFilterContext<F>>,
    physical_filters: Seq<PhysicalFilterContext<P>>,
    metadata: &RegionMetadata,
    codec: &C,
    skip_fields: bool,
    index: int,
    result: Result<Option<BooleanBuffer>, PrewhereError<E>>,
)
    requires
        0 <= index < filters.len() + physical_filters.len(),
        misses_field_at(batch, filters, physical_filters, index),
    ensures
        filters_give(
            batch,
            filters,
            physical_filters,
            metadata,
            codec,
            skip_fields,
            result,
        ) <==> filters_give(
            batch,
            without(filters, physical_filters, index).0,
            without(filters, physical_filters, index).1,
            metadata,
            codec,
            skip_fields,
            result,
        ),
{
    let name = if index < filters.len() {
        filters[index].filter->Filter_0.column_name@
    } else {
        physical_filters[index - filters.len()].column_name@
    };
    lemma_first_index(batch_fields(*batch), name);
    lemma_inert_can_go(
        batch,
        filters,
        physical_filters,
        metadata,
        codec,
        skip_fields,
        index,
        result,
    );
}

/// Whether a filter on a column of that kind stays when field filters are
/// dropped: it does unless it is about a field and has to be evaluated.
pub open spec fn stays<T>(filter: MaybeFilter<T>, semantic_type: SemanticType) -> bool {
    !(filter is Filter && semantic_type == SemanticType::Field)
}

/// Simple filters without those on fields that have to be evaluated.
pub open spec fn without_field_filters<F>(filters: Seq<SimpleFilterContext<F>>) -> Seq<
    SimpleFilterContext<F>,
> {
    filters.filter(|filter: SimpleFilterContext<F>| stays(filter.filter, filter.semantic_type))
}

/// Physical filters without those on fields that have to be evaluated.
pub open spec fn without_physical_field_filters<P>(
    filters: Seq<PhysicalFilterContext<P>>,
) -> Seq<PhysicalFilterContext<P>> {
    filters.filter(|filter: PhysicalFilterContext<P>| stays(filter.filter, filter.semantic_type))
}

/// Where field filters are passed over, simple ones can be dropped.
proof fn lemma_drop_simple<E, F: ColumnPredicate<E>, P: PhysicalPredicate<E>, C: PrimaryKeyCodec<E>>(
    batch: &Batch,
    first: Seq<SimpleFilterContext<F>>,
    rest: Seq<SimpleFilterContext<F>>,
    physical_filters: Seq<PhysicalFilterContext<P>>,
    metadata: &RegionMetadata,
    codec: &C,
    result: Result<Option<BooleanBuffer>, PrewhereError<E>>,
)
    ensures
        filters_give(
            batch,
            first + rest,
            physical_filters,
            metadata,
            codec,
            true,
            result,
        ) <==> filters_give(
            batch,
            without_field_filters(first) + rest,
            physical_filters,
            metadata,
            codec,
            true,
            result,
        ),
    decreases first.len(),
{
    reveal(Seq::filter);
    if first.len() > 0 {
        let before = first.drop_last();
        let last = first.last();
        if stays(last.filter, last.semantic_type) {
            lemma_drop_simple(
                batch,
                before,
                seq![last] + rest,
                physical_filters,
                metadata,
                codec,
                result,
            );
            assert(before + (seq![last] + rest) =~= first + rest);
            assert(without_field_filters(before) + (seq![last] + rest) =~= without_field_filters(
                first,
            ) + rest);
        } else {
            let k = before.len() as int;
            assert((first + rest)[k] == last);
            lemma_inert_can_go(
                batch,
                first + rest,
                physical_filters,
                metadata,
                codec,
                true,
                k,
                result,
            );
            assert((first + rest).remove(k) =~= before + rest);
            lemma_drop_simple(batch, before, rest, physical_filters, metadata, codec, result);
        }
    } else {
        assert(without_field_filters(first) =~= first);
    }
}

/// Where field filters are passed over, physical ones can be dropped.
proof fn lemma_drop_physical<
    E,
    F: ColumnPredicate<E>,
    P: PhysicalPredicate<E>,
    C: PrimaryKeyCodec<E>,
>(
    batch: &Batch,
    filters: Seq<SimpleFilterContext<F>>,
    first: Seq<PhysicalFilterContext<P>>,
    rest: Seq<PhysicalFilterContext<P>>,
    metadata: &RegionMetadata,
    codec: &C,
    result: Result<Option<BooleanBuffer>, PrewhereError<E>>,
)
    ensures
        filters_give(
            batch,
            filters,
            first + rest,
            metadata,
            codec,
            true,
            result,
        ) <==> filters_give(
            batch,
            filters,
            without_physical_field_filters(first) + rest,
            metadata,
            codec,
            true,
            result,
        ),
    decreases first.len(),
{
    reveal(Seq::filter);
    if first.len() > 0 {
        let before = first.drop_last();
        let last = first.last();
        if stays(last.filter, last.semantic_type) {
            lemma_drop_physical(
                batch,
                filters,
                before,
                seq![last] + rest,
                metadata,
                codec,
                result,
            );
            assert(before + (seq![last] + rest) =~= first + rest);
            assert(without_physical_field_filters(before) + (seq![last] + rest)
                =~= without_physical_field_filters(first) + rest);
        } else {
            let k = before.len() as int;
            assert((first + rest)[k] == last);
            lemma_inert_can_go(
                batch,
                filters,
                first + rest,
                metadata,
                codec,
                true,
                filters.len() + k,
                result,
            );
            assert((first + rest).remove(k) =~= before + rest);
            lemma_drop_physical(batch, filters, before, rest, metadata, codec, result);
        }
    } else {
        assert(without_physical_field_filters(first) =~= first);
    }
}

/// A run of filters that all stay is a run whether or not field filters are
/// passed over.
proof fn lemma_same_run<E, F: ColumnPredicate<E>, P: PhysicalPredicate<E>, C: PrimaryKeyCodec<E>>(
    batch: &Batch,
    filters: Seq<SimpleFilterContext<F>>,
    physical_filters: Seq<PhysicalFilterContext<P>>,
    metadata: &RegionMetadata,
    codec: &C,
    from: bool,
    to: bool,
    result: Result<Option<BooleanBuffer>, PrewhereError<E>>,
)
    requires
        forall|i: int|
            0 <= i < filters.len() ==> stays(
                (#[trigger] filters[i]).filter,
                filters[i].semantic_type,
            ),
        forall|i: int|
            0 <= i < physical_filters.len() ==> stays(
                (#[trigger] physical_filters[i]).filter,
                physical_filters[i].semantic_type,
            ),
        filters_give(batch, filters, physical_filters, metadata, codec, from, result),
    ensures
        filters_give(batch, filters, physical_filters, metadata, codec, to, result),
{
    let (steps, states) = choose|
        steps: Seq<FilterStep<E>>,
        states: Seq<TagDecodeView<C::Decoded>>,
    |
        #[trigger] is_run(
            batch,
            filters,
            physical_filters,
            metadata,
            codec,
            from,
            steps,
            states,
        ) && run_gives(batch_rows(*batch), steps, result);
    assert forall|i: int| #![trigger steps[i]] 0 <= i < steps.len() implies applies_at(
        batch,
        filters,
        physical_filters,
        metadata,
        codec,
        to,
        i,
        states[i],
        states[i + 1],
        steps[i],
    ) by {
        assert(applies_at(
            batch,
            filters,
            physical_filters,
            metadata,
            codec,
            from,
            i,
            states[i],
            states[i + 1],
            steps[i],
        ));
        if i < filters.len() {
            assert(stays(filters[i].filter, filters[i].semantic_type));
        } else {
            let physical = physical_filters[i - filters.len()];
            assert(stays(physical.filter, physical.semantic_type));
        }
    }
    assert(is_run(batch, filters, physical_filters, metadata, codec, to, steps, states));
}

/// Passing over field filters is dropping them from the lists: the filters give
/// the same, be it a mask, nothing or an error. Filters on fields that are known
/// to match every row or none stay.
pub proof fn law_passing_over_fields_is_dropping_them<
    E,
    F: ColumnPredicate<E>,
    P: PhysicalPredicate<E>,
    C: PrimaryKeyCodec<E>,
>(
    batch: &Batch,
    filters: Seq<SimpleFilterContext<F>>,
    physical_filters: Seq<PhysicalFilterContext<P>>,
    metadata: &RegionMetadata,
    codec: &C,
    result: Result<Option<BooleanBuffer>, PrewhereError<E>>,
)
    ensures
        filters_give(
            batch,
            filters,
            physical_filters,
            metadata,
            codec,
            true,
            result,
        ) <==> filters_give(
            batch,
            without_field_filters(filters),
            without_physical_field_filters(physical_filters),
            metadata,
            codec,
            false,
            result,
        ),
{
    let simple = without_field_filters(filters);
    let physical = without_physical_field_filters(physical_filters);
    let none = Seq::<SimpleFilterContext<F>>::empty();
    let no_physical = Seq::<PhysicalFilterContext<P>>::empty();
    lemma_drop_simple(batch, filters, none, physical_filters, metadata, codec, result);
    lemma_drop_physical(batch, simple, physical_filters, no_physical, metadata, codec, result);
    assert(filters + none =~= filters);
    assert(simple + none =~= simple);
    assert(physical_filters + no_physical =~= physical_filters);
    assert(physical + no_physical =~= physical);
    assert forall|i: int| 0 <= i < simple.len() implies stays(
        (#[trigger] simple[i]).filter,
        simple[i].semantic_type,
    ) by {
        filters.lemma_filter_pred(
            |filter: SimpleFilterContext<F>| stays(filter.filter, filter.semantic_type),
            i,
        );
    }
    assert forall|i: int| 0 <= i < physical.len() implies stays(
        (#[trigger] physical[i]).filter,
        physical[i].semantic_type,
    ) by {
        physical_filters.lemma_filter_pred(
            |filter: PhysicalFilterContext<P>| stays(filter.filter, filter.semantic_type),
            i,
        );
    }
    if filters_give(batch, simple, physical, metadata, codec, true, result) {
        lemma_same_run(batch, simple, physical, metadata, codec, true, false, result);
    }
    if filters_give(batch, simple, physical, metadata, codec, false, result) {
        lemma_same_run(batch, simple, physical, metadata, codec, false, true, result);
    }
}

/// The rows that steps keep one after the other are those that both parts keep.
pub proof fn law_steps_are_a_conjunction<E>(
    rows: nat,
    a: Seq<FilterStep<E>>,
    b: Seq<FilterStep<E>>,
)
    ensures
        combined_mask(rows, a + b) == and_bits(combined_mask(rows, a), combined_mask(rows, b)),
{
    let all = a + b;
    assert forall|row: int| 0 <= row < rows implies combined_mask(rows, all)[row] == (
    combined_mask(rows, a)[row] && combined_mask(rows, b)[row]) by {
        if combined_mask(rows, all)[row] {
            assert forall|i: int| 0 <= i < a.len() implies (#[trigger] a[i]).passes(row) by {
                assert(all[i] == a[i]);
            }
            assert forall|i: int| 0 <= i < b.len() implies (#[trigger] b[i]).passes(row) by {
                assert(all[a.len() + i] == b[i]);
            }
        }
    }
    assert(combined_mask(rows, all) =~= and_bits(combined_mask(rows, a), combined_mask(rows, b)));
}

/// In which order steps come does not matter, nor how often.
pub proof fn law_step_order_does_not_matter<E>(
    rows: nat,
    a: Seq<FilterStep<E>>,
    b: Seq<FilterStep<E>>,
)
    requires
        forall|step: FilterStep<E>| #[trigger] a.contains(step) <==> b.contains(step),
    ensures
        combined_mask(rows, a) == combined_mask(rows, b),
{
    assert forall|row: int| 0 <= row < rows implies combined_mask(rows, a)[row]
        == combined_mask(rows, b)[row] by {
        if combined_mask(rows, a)[row] {
            assert forall|i: int| 0 <= i < b.len() implies (#[trigger] b[i]).passes(row) by {
                assert(b.contains(b[i]));
                assert(a.contains(b[i]));
            }
        }
        if combined_mask(rows, b)[row] {
            assert forall|i: int| 0 <= i < a.len() implies (#[trigger] a[i]).passes(row) by {
                assert(a.contains(a[i]));
                assert(b.contains(a[i]));
            }
        }
    }
    assert(combined_mask(rows, a) =~= combined_mask(rows, b));
}

/// Whether a predicate answers the same each time it is asked about a column.
pub open spec fn predicate_repeats<E, F: ColumnPredicate<E>>(predicate: &F) -> bool {
    forall|column: &Column, a: Result<BooleanBuffer, E>, b: Result<BooleanBuffer, E>|
        #[trigger] call_ensures(F::evaluate_array, (predicate, column), a)
            && #[trigger] call_ensures(F::evaluate_array, (predicate, column), b) ==> match (a, b) {
            (Ok(a), Ok(b)) => buffer_bits(a) == buffer_bits(b),
            (Err(_), Err(_)) => true,
            _ => false,
        }
}

/// Whether an expression answers the same each time it is asked about the same
/// columns.
pub open spec fn expression_repeats<E, P: PhysicalPredicate<E>>(predicate: &P) -> bool {
    forall|x: &Batch, y: &Batch, a: Result<Column, E>, b: Result<Column, E>|
        {
            &&& #[trigger] call_ensures(P::evaluate, (predicate, x), a)
            &&& #[trigger] call_ensures(P::evaluate, (predicate, y), b)
            &&& batch_fields(*x) == batch_fields(*y)
            &&& batch_columns(*x) == batch_columns(*y)
            &&& batch_rows(*x) == batch_rows(*y)
        } ==> match (a, b) {
            (Ok(a), Ok(b)) => boolean_values(a) == boolean_values(b),
            (Err(_), Err(_)) => true,
            _ => false,
        }
}

/// Whether the filters that have to be evaluated answer the same each time.
pub open spec fn filters_repeat<E, F: ColumnPredicate<E>, P: PhysicalPredicate<E>>(
    filters: Seq<SimpleFilterContext<F>>,
    physical_filters: Seq<PhysicalFilterContext<P>>,
) -> bool {
    &&& forall|i: int|
        0 <= i < filters.len() ==> ((#[trigger] filters[i]).filter matches MaybeFilter::Filter(
            simple,
        ) ==> predicate_repeats::<E, F>(&simple.predicate))
    &&& forall|i: int|
        0 <= i < physical_filters.len() ==> ((
        #[trigger] physical_filters[i]).filter matches MaybeFilter::Filter(predicate)
            ==> expression_repeats::<E, P>(&predicate))
}

/// Whether a codec answers the same each time it is asked about a batch.
pub open spec fn codec_repeats<E, C: PrimaryKeyCodec<E>>(codec: &C, batch: &Batch) -> bool {
    &&& forall|a: Result<C::Decoded, E>, b: Result<C::Decoded, E>|
        #[trigger] call_ensures(C::decode_primary_keys, (codec, batch), a)
            && #[trigger] call_ensures(C::decode_primary_keys, (codec, batch), b) ==> match (a, b) {
            (Ok(a), Ok(b)) => a == b,
            (Err(_), Err(_)) => true,
            _ => false,
        }
    &&& forall|a: PrimaryKeyEncoding, b: PrimaryKeyEncoding|
        #[trigger] call_ensures(C::encoding, (codec,), a) && #[trigger] call_ensures(
            C::encoding,
            (codec,),
            b,
        ) ==> a == b
    &&& forall|
        decoded: &C::Decoded,
        column_id: u32,
        position: Option<usize>,
        data_type: &DataType,
        a: Result<Arc<Column>, E>,
        b: Result<Arc<Column>, E>,
    |
        #[trigger] call_ensures(
            C::get_tag_column,
            (codec, decoded, column_id, position, data_type),
            a,
        ) && #[trigger] call_ensures(
            C::get_tag_column,
            (codec, decoded, column_id, position, data_type),
            b,
        ) ==> match (a, b) {
            (Ok(a), Ok(b)) => a == b,
            (Err(_), Err(_)) => true,
            _ => false,
        }
}

/// Whether `tag` is what a look-up of a tag column gives where nothing is
/// decoded yet.
spec fn is_tag<E, C: PrimaryKeyCodec<E>>(
    metadata: &RegionMetadata,
    column_id: u32,
    batch: &Batch,
    codec: &C,
    tag: Result<Option<Arc<Column>>, E>,
) -> bool {
    exists|post: TagDecodeView<C::Decoded>| #[trigger]
        decodes_tag(
            metadata,
            column_id,
            batch,
            codec,
            TagDecodeView::<C::Decoded>::empty(),
            post,
            tag,
        )
}

/// Whether what is decoded is what decoding a batch anew could give.
spec fn is_faithful<E, C: PrimaryKeyCodec<E>>(
    metadata: &RegionMetadata,
    batch: &Batch,
    codec: &C,
    state: TagDecodeView<C::Decoded>,
) -> bool {
    &&& state.decoded matches Some(decoded) ==> call_ensures(
        C::decode_primary_keys,
        (codec, batch),
        Ok::<C::Decoded, E>(decoded),
    )
    &&& forall|id: u32| #[trigger]
        state.columns.contains_key(id) ==> is_tag(
            metadata,
            id,
            batch,
            codec,
            Ok::<Option<Arc<Column>>, E>(Some(state.columns[id])),
        )
}

/// A look-up in what is decoded gives what a look-up with nothing decoded could
/// give.
proof fn lemma_look_up_alone<E, C: PrimaryKeyCodec<E>>(
    metadata: &RegionMetadata,
    column_id: u32,
    batch: &Batch,
    codec: &C,
    pre: TagDecodeView<C::Decoded>,
    post: TagDecodeView<C::Decoded>,
    tag: Result<Option<Arc<Column>>, E>,
)
    requires
        is_faithful::<E, C>(metadata, batch, codec, pre),
        decodes_tag(metadata, column_id, batch, codec, pre, post, tag),
    ensures
        is_faithful::<E, C>(metadata, batch, codec, post),
        is_tag(metadata, column_id, batch, codec, tag),
{
    let empty = TagDecodeView::<C::Decoded>::empty();
    match first_index(metadata.primary_key@, column_id) {
        None => {
            assert(decodes_tag(metadata, column_id, batch, codec, empty, empty, tag));
        },
        Some(pk_index) => {
            if !pre.columns.contains_key(column_id) {
                let keys = choose|keys: Result<C::Decoded, E>|
                    {
                        &&& #[trigger] keys_of(codec, batch, pre, keys)
                        &&& match keys {
                            Err(e) => post == pre && tag == Err::<Option<Arc<Column>>, E>(e),
                            Ok(decoded) => fetches_column(
                                metadata,
                                column_id,
                                pk_index,
                                codec,
                                decoded,
                                pre.columns,
                                post,
                                tag,
                            ),
                        }
                    };
                assert(keys_of(codec, batch, empty, keys));
                match keys {
                    Err(_) => {
                        assert(decodes_tag(metadata, column_id, batch, codec, empty, empty, tag));
                    },
                    Ok(decoded) => {
                        let anew = TagDecodeView {
                            decoded: Some(decoded),
                            columns: match tag {
                                Ok(Some(column)) => empty.columns.insert(column_id, column),
                                _ => empty.columns,
                            },
                        };
                        assert(fetches_column(
                            metadata,
                            column_id,
                            pk_index,
                            codec,
                            decoded,
                            empty.columns,
                            anew,
                            tag,
                        ));
                        assert(decodes_tag(metadata, column_id, batch, codec, empty, anew, tag));
                    },
                }
            }
        },
    }
}

/// With a codec that answers the same each time, a look-up with nothing decoded
/// gives the same each time.
proof fn lemma_tag_repeats<E, C: PrimaryKeyCodec<E>>(
    metadata: &RegionMetadata,
    column_id: u32,
    batch: &Batch,
    codec: &C,
    a: Result<Option<Arc<Column>>, E>,
    b: Result<Option<Arc<Column>>, E>,
)
    requires
        codec_repeats::<E, C>(codec, batch),
        is_tag(metadata, column_id, batch, codec, a),
        is_tag(metadata, column_id, batch, codec, b),
    ensures
        match (a, b) {
            (Ok(a), Ok(b)) => a == b,
            (Err(_), Err(_)) => true,
            _ => false,
        },
{
}

/// Whether `step` is what a simple filter makes of a look-up of its tag column.
spec fn simple_tag_step<E, F: ColumnPredicate<E>>(
    filter: SimpleFilterContext<F>,
    tag: Result<Option<Arc<Column>>, E>,
    step: FilterStep<E>,
) -> bool {
    match tag {
        Ok(Some(column)) => evaluates(&filter.filter->Filter_0.predicate, &*column, step),
        Ok(None) => step == FilterStep::<E>::Skip,
        Err(source) => step == FilterStep::Fail(PrewhereError::DecodeTag { source }),
    }
}

/// Whether `step` is what a physical filter makes of a look-up of its tag column.
spec fn physical_tag_step<E, P: PhysicalPredicate<E>>(
    filter: PhysicalFilterContext<P>,
    tag: Result<Option<Arc<Column>>, E>,
    step: FilterStep<E>,
) -> bool {
    match tag {
        Ok(Some(column)) => evaluates_expression(
            &filter.filter->Filter_0,
            *filter.schema,
            &*column,
            step,
        ),
        Ok(None) => step == FilterStep::<E>::Skip,
        Err(source) => step == FilterStep::Fail(PrewhereError::DecodeTag { source }),
    }
}

/// Whether `step` is what a simple filter could do to a batch of which nothing is
/// decoded yet.
spec fn simple_alone<E, F: ColumnPredicate<E>, C: PrimaryKeyCodec<E>>(
    batch: &Batch,
    filter: SimpleFilterContext<F>,
    metadata: &RegionMetadata,
    codec: &C,
    skip_fields: bool,
    step: FilterStep<E>,
) -> bool {
    exists|post: TagDecodeView<C::Decoded>| #[trigger]
        applies_simple(
            batch,
            filter,
            metadata,
            codec,
            skip_fields,
            TagDecodeView::<C::Decoded>::empty(),
            post,
            step,
        )
}

/// What a simple filter does does not depend on what is decoded.
proof fn lemma_simple_alone<E, F: ColumnPredicate<E>, C: PrimaryKeyCodec<E>>(
    batch: &Batch,
    filter: SimpleFilterContext<F>,
    metadata: &RegionMetadata,
    codec: &C,
    skip_fields: bool,
    pre: TagDecodeView<C::Decoded>,
    post: TagDecodeView<C::Decoded>,
    step: FilterStep<E>,
)
    requires
        is_faithful::<E, C>(metadata, batch, codec, pre),
        applies_simple(batch, filter, metadata, codec, skip_fields, pre, post, step),
    ensures
        is_faithful::<E, C>(metadata, batch, codec, post),
        simple_alone(batch, filter, metadata, codec, skip_fields, step),
{
    let empty = TagDecodeView::<C::Decoded>::empty();
    if !applies_simple(batch, filter, metadata, codec, skip_fields, empty, empty, step) {
        let tag = choose|tag: Result<Option<Arc<Column>>, E>|
            {
                &&& #[trigger] decodes_tag(
                    metadata,
                    filter.column_id,
                    batch,
                    codec,
                    pre,
                    post,
                    tag,
                )
                &&& simple_tag_step(filter, tag, step)
            };
        lemma_look_up_alone(metadata, filter.column_id, batch, codec, pre, post, tag);
        let anew = choose|anew: TagDecodeView<C::Decoded>| #[trigger]
            decodes_tag(metadata, filter.column_id, batch, codec, empty, anew, tag);
        assert(applies_simple(
            batch,
            filter,
            metadata,
            codec,
            skip_fields,
            empty,
            anew,
            step,
        ));
    } else if post != pre {
        let tag = choose|tag: Result<Option<Arc<Column>>, E>| #[trigger]
            decodes_tag(metadata, filter.column_id, batch, codec, pre, post, tag);
        lemma_look_up_alone(metadata, filter.column_id, batch, codec, pre, post, tag);
    }
}

/// Whether `step` is what a physical filter could do to a batch of which nothing is
/// decoded yet.
spec fn physical_alone<E, P: PhysicalPredicate<E>, C: PrimaryKeyCodec<E>>(
    batch: &Batch,
    filter: PhysicalFilterContext<P>,
    metadata: &RegionMetadata,
    codec: &C,
    skip_fields: bool,
    step: FilterStep<E>,
) -> bool {
    exists|post: TagDecodeView<C::Decoded>| #[trigger]
        applies_physical(
            batch,
            filter,
            metadata,
            codec,
            skip_fields,
            TagDecodeView::<C::Decoded>::empty(),
            post,
            step,
        )
}

/// What a physical filter does does not depend on what is decoded.
proof fn lemma_physical_alone<E, P: PhysicalPredicate<E>, C: PrimaryKeyCodec<E>>(
    batch: &Batch,
    filter: PhysicalFilterContext<P>,
    metadata: &RegionMetadata,
    codec: &C,
    skip_fields: bool,
    pre: TagDecodeView<C::Decoded>,
    post: TagDecodeView<C::Decoded>,
    step: FilterStep<E>,
)
    requires
        is_faithful::<E, C>(metadata, batch, codec, pre),
        applies_physical(batch, filter, metadata, codec, skip_fields, pre, post, step),
    ensures
        is_faithful::<E, C>(metadata, batch, codec, post),
        physical_alone(batch, filter, metadata, codec, skip_fields, step),
{
    let empty = TagDecodeView::<C::Decoded>::empty();
    if !applies_physical(batch, filter, metadata, codec, skip_fields, empty, empty, step) {
        let tag = choose|tag: Result<Option<Arc<Column>>, E>|
            {
                &&& #[trigger] decodes_tag(
                    metadata,
                    filter.column_id,
                    batch,
                    codec,
                    pre,
                    post,
                    tag,
                )
                &&& physical_tag_step(filter, tag, step)
            };
        lemma_look_up_alone(metadata, filter.column_id, batch, codec, pre, post, tag);
        let anew = choose|anew: TagDecodeView<C::Decoded>| #[trigger]
            decodes_tag(metadata, filter.column_id, batch, codec, empty, anew, tag);
        assert(applies_physical(
            batch,
            filter,
            metadata,
            codec,
            skip_fields,
            empty,
            anew,
            step,
        ));
    } else if post != pre {
        let tag = choose|tag: Result<Option<Arc<Column>>, E>| #[trigger]
            decodes_tag(metadata, filter.column_id, batch, codec, pre, post, tag);
        lemma_look_up_alone(metadata, filter.column_id, batch, codec, pre, post, tag);
    }
}

/// Whether a step keeps a row.
spec fn keeps<E>(step: FilterStep<E>, row: int) -> bool {
    !step.stops() && step.passes(row)
}

/// Whether a step drops a row.
spec fn drops<E>(step: FilterStep<E>, row: int) -> bool {
    step is Prune || !step.passes(row)
}

/// Whether a simple filter could keep a row.
spec fn simple_keeps<E, F: ColumnPredicate<E>, C: PrimaryKeyCodec<E>>(
    batch: &Batch,
    filter: SimpleFilterContext<F>,
    metadata: &RegionMetadata,
    codec: &C,
    skip_fields: bool,
    row: int,
) -> bool {
    exists|step: FilterStep<E>| #[trigger]
        simple_alone(batch, filter, metadata, codec, skip_fields, step) && keeps(step, row)
}

/// Whether a simple filter could drop a row.
spec fn simple_drops<E, F: ColumnPredicate<E>, C: PrimaryKeyCodec<E>>(
    batch: &Batch,
    filter: SimpleFilterContext<F>,
    metadata: &RegionMetadata,
    codec: &C,
    skip_fields: bool,
    row: int,
) -> bool {
    exists|step: FilterStep<E>| #[trigger]
        simple_alone(batch, filter, metadata, codec, skip_fields, step) && drops(step, row)
}

/// A simple filter that answers the same each time does not both keep and drop a
/// row.
proof fn lemma_simple_decides<E, F: ColumnPredicate<E>, C: PrimaryKeyCodec<E>>(
    batch: &Batch,
    filter: SimpleFilterContext<F>,
    metadata: &RegionMetadata,
    codec: &C,
    skip_fields: bool,
    row: int,
)
    requires
        codec_repeats::<E, C>(codec, batch),
        filter.filter matches MaybeFilter::Filter(simple) ==> predicate_repeats::<E, F>(
            &simple.predicate,
        ),
    ensures
        !(simple_keeps::<E, F, C>(batch, filter, metadata, codec, skip_fields, row)
            && simple_drops::<E, F, C>(batch, filter, metadata, codec, skip_fields, row)),
{
    if simple_keeps::<E, F, C>(batch, filter, metadata, codec, skip_fields, row)
        && simple_drops::<E, F, C>(batch, filter, metadata, codec, skip_fields, row) {
        let a = choose|step: FilterStep<E>| #[trigger]
            simple_alone(batch, filter, metadata, codec, skip_fields, step) && keeps(step, row);
        let b = choose|step: FilterStep<E>| #[trigger]
            simple_alone(batch, filter, metadata, codec, skip_fields, step) && drops(step, row);
        let empty = TagDecodeView::<C::Decoded>::empty();
        if !(applies_simple(batch, filter, metadata, codec, skip_fields, empty, empty, a)
            && applies_simple(batch, filter, metadata, codec, skip_fields, empty, empty, b)) {
            let x = choose|x: TagDecodeView<C::Decoded>| #[trigger]
                applies_simple(batch, filter, metadata, codec, skip_fields, empty, x, a);
            let y = choose|y: TagDecodeView<C::Decoded>| #[trigger]
                applies_simple(batch, filter, metadata, codec, skip_fields, empty, y, b);
            let tag_a = choose|tag: Result<Option<Arc<Column>>, E>|
                {
                    &&& #[trigger] decodes_tag(
                        metadata,
                        filter.column_id,
                        batch,
                        codec,
                        empty,
                        x,
                        tag,
                    )
                    &&& simple_tag_step(filter, tag, a)
                };
            let tag_b = choose|tag: Result<Option<Arc<Column>>, E>|
                {
                    &&& #[trigger] decodes_tag(
                        metadata,
                        filter.column_id,
                        batch,
                        codec,
                        empty,
                        y,
                        tag,
                    )
                    &&& simple_tag_step(filter, tag, b)
                };
            lemma_tag_repeats(metadata, filter.column_id, batch, codec, tag_a, tag_b);
        }
    }
}

/// Whether a physical filter could keep a row.
spec fn physical_keeps<E, P: PhysicalPredicate<E>, C: PrimaryKeyCodec<E>>(
    batch: &Batch,
    filter: PhysicalFilterContext<P>,
    metadata: &RegionMetadata,
    codec: &C,
    skip_fields: bool,
    row: int,
) -> bool {
    exists|step: FilterStep<E>| #[trigger]
        physical_alone(batch, filter, metadata, codec, skip_fields, step) && keeps(step, row)
}

/// Whether a physical filter could drop a row.
spec fn physical_drops<E, P: PhysicalPredicate<E>, C: PrimaryKeyCodec<E>>(
    batch: &Batch,
    filter: PhysicalFilterContext<P>,
    metadata: &RegionMetadata,
    codec: &C,
    skip_fields: bool,
    row: int,
) -> bool {
    exists|step: FilterStep<E>| #[trigger]
        physical_alone(batch, filter, metadata, codec, skip_fields, step) && drops(step, row)
}

/// A physical filter that answers the same each time does not both keep and drop a
/// row.
proof fn lemma_physical_decides<E, P: PhysicalPredicate<E>, C: PrimaryKeyCodec<E>>(
    batch: &Batch,
    filter: PhysicalFilterContext<P>,
    metadata: &RegionMetadata,
    codec: &C,
    skip_fields: bool,
    row: int,
)
    requires
        codec_repeats::<E, C>(codec, batch),
        filter.filter matches MaybeFilter::Filter(predicate) ==> expression_repeats::<E, P>(
            &predicate,
        ),
    ensures
        !(physical_keeps::<E, P, C>(batch, filter, metadata, codec, skip_fields, row)
            && physical_drops::<E, P, C>(batch, filter, metadata, codec, skip_fields, row)),
{
    if physical_keeps::<E, P, C>(batch, filter, metadata, codec, skip_fields, row)
        && physical_drops::<E, P, C>(batch, filter, metadata, codec, skip_fields, row) {
        let a = choose|step: FilterStep<E>| #[trigger]
            physical_alone(batch, filter, metadata, codec, skip_fields, step) && keeps(step, row);
        let b = choose|step: FilterStep<E>| #[trigger]
            physical_alone(batch, filter, metadata, codec, skip_fields, step) && drops(step, row);
        let empty = TagDecodeView::<C::Decoded>::empty();
        if !(applies_physical(batch, filter, metadata, codec, skip_fields, empty, empty, a)
            && applies_physical(batch, filter, metadata, codec, skip_fields, empty, empty, b)) {
            let x = choose|x: TagDecodeView<C::Decoded>| #[trigger]
                applies_physical(batch, filter, metadata, codec, skip_fields, empty, x, a);
            let y = choose|y: TagDecodeView<C::Decoded>| #[trigger]
                applies_physical(batch, filter, metadata, codec, skip_fields, empty, y, b);
            let tag_a = choose|tag: Result<Option<Arc<Column>>, E>|
                {
                    &&& #[trigger] decodes_tag(
                        metadata,
                        filter.column_id,
                        batch,
                        codec,
                        empty,
                        x,
                        tag,
                    )
                    &&& physical_tag_step(filter, tag, a)
                };
            let tag_b = choose|tag: Result<Option<Arc<Column>>, E>|
                {
                    &&& #[trigger] decodes_tag(
                        metadata,
                        filter.column_id,
                        batch,
                        codec,
                        empty,
                        y,
                        tag,
                    )
                    &&& physical_tag_step(filter, tag, b)
                };
            lemma_tag_repeats(metadata, filter.column_id, batch, codec, tag_a, tag_b);
        }
    }
}

/// Each step of a run is what its filter could do on its own.
proof fn lemma_steps_alone<
    E,
    F: ColumnPredicate<E>,
    P: PhysicalPredicate<E>,
    C: PrimaryKeyCodec<E>,
>(
    batch: &Batch,
    filters: Seq<SimpleFilterContext<F>>,
    physical_filters: Seq<PhysicalFilterContext<P>>,
    metadata: &RegionMetadata,
    codec: &C,
    skip_fields: bool,
    steps: Seq<FilterStep<E>>,
    states: Seq<TagDecodeView<C::Decoded>>,
    n: int,
)
    requires
        is_run(
            batch,
            filters,
            physical_filters,
            metadata,
            codec,
            skip_fields,
            steps,
            states,
        ),
        0 <= n <= steps.len(),
    ensures
        is_faithful::<E, C>(metadata, batch, codec, states[n]),
        forall|i: int|
            0 <= i < n && i < filters.len() ==> simple_alone(
                batch,
                filters[i],
                metadata,
                codec,
                skip_fields,
                #[trigger] steps[i],
            ),
        forall|i: int|
            filters.len() <= i < n ==> physical_alone(
                batch,
                physical_filters[i - filters.len()],
                metadata,
                codec,
                skip_fields,
                #[trigger] steps[i],
            ),
    decreases n,
{
    if n > 0 {
        let i = n - 1;
        lemma_steps_alone(
            batch,
            filters,
            physical_filters,
            metadata,
            codec,
            skip_fields,
            steps,
            states,
            i,
        );
        let step = steps[i];
        if i < filters.len() {
            lemma_simple_alone(
                batch,
                filters[i],
                metadata,
                codec,
                skip_fields,
                states[i],
                states[n],
                step,
            );
        } else {
            lemma_physical_alone(
                batch,
                physical_filters[i - filters.len()],
                metadata,
                codec,
                skip_fields,
                states[i],
                states[n],
                step,
            );
        }
    }
}

/// Where the filters give a mask or nothing, a row that they keep is one that
/// each could keep, and a row that they drop is one that some filter could drop.
proof fn lemma_kept_rows<
    E,
    F: ColumnPredicate<E>,
    P: PhysicalPredicate<E>,
    C: PrimaryKeyCodec<E>,
>(
    batch: &Batch,
    filters: Seq<SimpleFilterContext<F>>,
    physical_filters: Seq<PhysicalFilterContext<P>>,
    metadata: &RegionMetadata,
    codec: &C,
    skip_fields: bool,
    mask: Option<BooleanBuffer>,
    row: int,
)
    requires
        filters_give(
            batch,
            filters,
            physical_filters,
            metadata,
            codec,
            skip_fields,
            Ok::<Option<BooleanBuffer>, PrewhereError<E>>(mask),
        ),
        0 <= row < batch_rows(*batch),
    ensures
        mask_bits(mask, batch_rows(*batch)).len() == batch_rows(*batch),
        mask_bits(mask, batch_rows(*batch))[row] ==> {
            &&& forall|i: int|
                0 <= i < filters.len() ==> simple_keeps::<E, F, C>(
                    batch,
                    #[trigger] filters[i],
                    metadata,
                    codec,
                    skip_fields,
                    row,
                )
            &&& forall|i: int|
                0 <= i < physical_filters.len() ==> physical_keeps::<E, P, C>(
                    batch,
                    #[trigger] physical_filters[i],
                    metadata,
                    codec,
                    skip_fields,
                    row,
                )
        },
        !mask_bits(mask, batch_rows(*batch))[row] ==> {
            ||| exists|i: int|
                0 <= i < filters.len() && simple_drops::<E, F, C>(
                    batch,
                    #[trigger] filters[i],
                    metadata,
                    codec,
                    skip_fields,
                    row,
                )
            ||| exists|i: int|
                0 <= i < physical_filters.len() && physical_drops::<E, P, C>(
                    batch,
                    #[trigger] physical_filters[i],
                    metadata,
                    codec,
                    skip_fields,
                    row,
                )
        },
{
    let rows = batch_rows(*batch);
    let result = Ok::<Option<BooleanBuffer>, PrewhereError<E>>(mask);
    let (steps, states) = choose|
        steps: Seq<FilterStep<E>>,
        states: Seq<TagDecodeView<C::Decoded>>,
    |
        #[trigger] is_run(
            batch,
            filters,
            physical_filters,
            metadata,
            codec,
            skip_fields,
            steps,
            states,
        ) && run_gives(rows, steps, result);
    lemma_steps_alone(
        batch,
        filters,
        physical_filters,
        metadata,
        codec,
        skip_fields,
        steps,
        states,
        steps.len() as int,
    );
    lemma_count_set_zero(combined_mask(rows, steps));
    let pruned = steps.len() > 0 && steps.last() is Prune;
    if mask_bits(mask, rows)[row] {
        assert(!pruned);
        assert(steps.len() == filters.len() + physical_filters.len());
        assert(combined_mask(rows, steps)[row]);
        assert forall|i: int| 0 <= i < steps.len() implies keeps(#[trigger] steps[i], row) by {
            assert(steps[i].passes(row));
            if i == steps.len() - 1 {
                assert(steps[i] == steps.last());
            }
        }
        assert forall|i: int| 0 <= i < filters.len() implies simple_keeps::<E, F, C>(
            batch,
            #[trigger] filters[i],
            metadata,
            codec,
            skip_fields,
            row,
        ) by {
            assert(keeps(steps[i], row));
        }
        assert forall|i: int| 0 <= i < physical_filters.len() implies physical_keeps::<E, P, C>(
            batch,
            #[trigger] physical_filters[i],
            metadata,
            codec,
            skip_fields,
            row,
        ) by {
            let at = filters.len() + i;
            assert(keeps(steps[at], row));
        }
    } else {
        let at = if pruned {
            steps.len() - 1
        } else {
            assert(!combined_mask(rows, steps)[row]);
            choose|i: int| 0 <= i < steps.len() && !(#[trigger] steps[i]).passes(row)
        };
        assert(drops(steps[at], row));
        if at < filters.len() {
            assert(simple_drops::<E, F, C>(
                batch,
                filters[at],
                metadata,
                codec,
                skip_fields,
                row,
            ));
        } else {
            assert(physical_drops::<E, P, C>(
                batch,
                physical_filters[at - filters.len()],
                metadata,
                codec,
                skip_fields,
                row,
            ));
        }
    }
}

/// Whether each filter of the lists `of` is in the lists `a` or `b`.
spec fn are_among<F, P>(
    of: (Seq<SimpleFilterContext<F>>, Seq<PhysicalFilterContext<P>>),
    a: (Seq<SimpleFilterContext<F>>, Seq<PhysicalFilterContext<P>>),
    b: (Seq<SimpleFilterContext<F>>, Seq<PhysicalFilterContext<P>>),
) -> bool {
    &&& forall|i: int|
        0 <= i < of.0.len() ==> a.0.contains(#[trigger] of.0[i]) || b.0.contains(of.0[i])
    &&& forall|i: int|
        0 <= i < of.1.len() ==> a.1.contains(#[trigger] of.1[i]) || b.1.contains(of.1[i])
}

/// A row that two pairs of lists keep is kept by lists all of whose filters are
/// among theirs.
proof fn lemma_kept_by_fewer<
    E,
    F: ColumnPredicate<E>,
    P: PhysicalPredicate<E>,
    C: PrimaryKeyCodec<E>,
>(
    batch: &Batch,
    of: (Seq<SimpleFilterContext<F>>, Seq<PhysicalFilterContext<P>>),
    a: (Seq<SimpleFilterContext<F>>, Seq<PhysicalFilterContext<P>>),
    b: (Seq<SimpleFilterContext<F>>, Seq<PhysicalFilterContext<P>>),
    metadata: &RegionMetadata,
    codec: &C,
    skip_fields: bool,
    mask: Option<BooleanBuffer>,
    mask_a: Option<BooleanBuffer>,
    mask_b: Option<BooleanBuffer>,
    row: int,
)
    requires
        are_among(of, a, b),
        filters_repeat::<E, F, P>(of.0, of.1),
        codec_repeats::<E, C>(codec, batch),
        filters_give(
            batch,
            of.0,
            of.1,
            metadata,
            codec,
            skip_fields,
            Ok::<Option<BooleanBuffer>, PrewhereError<E>>(mask),
        ),
        filters_give(
            batch,
            a.0,
            a.1,
            metadata,
            codec,
            skip_fields,
            Ok::<Option<BooleanBuffer>, PrewhereError<E>>(mask_a),
        ),
        filters_give(
            batch,
            b.0,
            b.1,
            metadata,
            codec,
            skip_fields,
            Ok::<Option<BooleanBuffer>, PrewhereError<E>>(mask_b),
        ),
        0 <= row < batch_rows(*batch),
        mask_bits(mask_a, batch_rows(*batch))[row],
        mask_bits(mask_b, batch_rows(*batch))[row],
    ensures
        mask_bits(mask, batch_rows(*batch))[row],
{
    lemma_kept_rows::<E, F, P, C>(batch, of.0, of.1, metadata, codec, skip_fields, mask, row);
    lemma_kept_rows::<E, F, P, C>(batch, a.0, a.1, metadata, codec, skip_fields, mask_a, row);
    lemma_kept_rows::<E, F, P, C>(batch, b.0, b.1, metadata, codec, skip_fields, mask_b, row);
    if !mask_bits(mask, batch_rows(*batch))[row] {
        if exists|i: int|
            0 <= i < of.0.len() && simple_drops::<E, F, C>(
                batch,
                #[trigger] of.0[i],
                metadata,
                codec,
                skip_fields,
                row,
            ) {
            let i = choose|i: int|
                0 <= i < of.0.len() && simple_drops::<E, F, C>(
                    batch,
                    #[trigger] of.0[i],
                    metadata,
                    codec,
                    skip_fields,
                    row,
                );
            lemma_simple_decides::<E, F, C>(
                batch,
                of.0[i],
                metadata,
                codec,
                skip_fields,
                row,
            );
            if a.0.contains(of.0[i]) {
                let j = choose|j: int| 0 <= j < a.0.len() && a.0[j] == of.0[i];
                assert(a.0[j] == of.0[i]);
            } else {
                let j = choose|j: int| 0 <= j < b.0.len() && b.0[j] == of.0[i];
                assert(b.0[j] == of.0[i]);
            }
        } else {
            let i = choose|i: int|
                0 <= i < of.1.len() && physical_drops::<E, P, C>(
                    batch,
                    #[trigger] of.1[i],
                    metadata,
                    codec,
                    skip_fields,
                    row,
                );
            lemma_physical_decides::<E, P, C>(
                batch,
                of.1[i],
                metadata,
                codec,
                skip_fields,
                row,
            );
            if a.1.contains(of.1[i]) {
                let j = choose|j: int| 0 <= j < a.1.len() && a.1[j] == of.1[i];
                assert(a.1[j] == of.1[i]);
            } else {
                let j = choose|j: int| 0 <= j < b.1.len() && b.1[j] == of.1[i];
                assert(b.1[j] == of.1[i]);
            }
        }
    }
}

/// A further filter never lets another row through: where each filter of a pair
/// of lists is also in another pair, and filters and codec answer the same each
/// time, the other pair keeps no row that the first drops.
pub proof fn law_more_filters_keep_no_more<
    E,
    F: ColumnPredicate<E>,
    P: PhysicalPredicate<E>,
    C: PrimaryKeyCodec<E>,
>(
    batch: &Batch,
    filters: Seq<SimpleFilterContext<F>>,
    physical_filters: Seq<PhysicalFilterContext<P>>,
    more_filters: Seq<SimpleFilterContext<F>>,
    more_physical_filters: Seq<PhysicalFilterContext<P>>,
    metadata: &RegionMetadata,
    codec: &C,
    skip_fields: bool,
    mask: Option<BooleanBuffer>,
    more_mask: Option<BooleanBuffer>,
)
    requires
        forall|i: int| 0 <= i < filters.len() ==> more_filters.contains(#[trigger] filters[i]),
        forall|i: int|
            0 <= i < physical_filters.len() ==> more_physical_filters.contains(
                #[trigger] physical_filters[i],
            ),
        filters_repeat::<E, F, P>(filters, physical_filters),
        codec_repeats::<E, C>(codec, batch),
        filters_give(
            batch,
            filters,
            physical_filters,
            metadata,
            codec,
            skip_fields,
            Ok::<Option<BooleanBuffer>, PrewhereError<E>>(mask),
        ),
        filters_give(
            batch,
            more_filters,
            more_physical_filters,
            metadata,
            codec,
            skip_fields,
            Ok::<Option<BooleanBuffer>, PrewhereError<E>>(more_mask),
        ),
    ensures
        forall|row: int|
            0 <= row < batch_rows(*batch) && #[trigger] mask_bits(
                more_mask,
                batch_rows(*batch),
            )[row] ==> mask_bits(mask, batch_rows(*batch))[row],
{
    let more = (more_filters, more_physical_filters);
    assert forall|row: int|
        0 <= row < batch_rows(*batch) && #[trigger] mask_bits(
            more_mask,
            batch_rows(*batch),
        )[row] implies mask_bits(mask, batch_rows(*batch))[row] by {
        lemma_kept_by_fewer::<E, F, P, C>(
            batch,
            (filters, physical_filters),
            more,
            more,
            metadata,
            codec,
            skip_fields,
            mask,
            more_mask,
            more_mask,
            row,
        );
    }
}

/// In which order filters come does not matter, nor how often: where filters and
/// codec answer the same each time, lists of the same filters keep the same rows.
pub proof fn law_filter_order_does_not_matter<
    E,
    F: ColumnPredicate<E>,
    P: PhysicalPredicate<E>,
    C: PrimaryKeyCodec<E>,
>(
    batch: &Batch,
    filters: Seq<SimpleFilterContext<F>>,
    physical_filters: Seq<PhysicalFilterContext<P>>,
    other_filters: Seq<SimpleFilterContext<F>>,
    other_physical_filters: Seq<PhysicalFilterContext<P>>,
    metadata: &RegionMetadata,
    codec: &C,
    skip_fields: bool,
    mask: Option<BooleanBuffer>,
    other_mask: Option<BooleanBuffer>,
)
    requires
        forall|filter: SimpleFilterContext<F>| #[trigger]
            filters.contains(filter) <==> other_filters.contains(filter),
        forall|filter: PhysicalFilterContext<P>| #[trigger]
            physical_filters.contains(filter) <==> other_physical_filters.contains(filter),
        filters_repeat::<E, F, P>(filters, physical_filters),
        codec_repeats::<E, C>(codec, batch),
        filters_give(
            batch,
            filters,
            physical_filters,
            metadata,
            codec,
            skip_fields,
            Ok::<Option<BooleanBuffer>, PrewhereError<E>>(mask),
        ),
        filters_give(
            batch,
            other_filters,
            other_physical_filters,
            metadata,
            codec,
            skip_fields,
            Ok::<Option<BooleanBuffer>, PrewhereError<E>>(other_mask),
        ),
    ensures
        mask_bits(mask, batch_rows(*batch)) == mask_bits(other_mask, batch_rows(*batch)),
{
    let rows = batch_rows(*batch);
    lemma_same_members(filters, physical_filters, other_filters, other_physical_filters);
    lemma_repeat_members::<E, F, P>(
        filters,
        physical_filters,
        other_filters,
        other_physical_filters,
    );
    law_more_filters_keep_no_more::<E, F, P, C>(
        batch,
        filters,
        physical_filters,
        other_filters,
        other_physical_filters,
        metadata,
        codec,
        skip_fields,
        mask,
        other_mask,
    );
    law_more_filters_keep_no_more::<E, F, P, C>(
        batch,
        other_filters,
        other_physical_filters,
        filters,
        physical_filters,
        metadata,
        codec,
        skip_fields,
        other_mask,
        mask,
    );
    lemma_mask_len::<E, F, P, C>(
        batch,
        filters,
        physical_filters,
        metadata,
        codec,
        skip_fields,
        mask,
    );
    lemma_mask_len::<E, F, P, C>(
        batch,
        other_filters,
        other_physical_filters,
        metadata,
        codec,
        skip_fields,
        other_mask,
    );
    assert(mask_bits(mask, rows) =~= mask_bits(other_mask, rows));
}

/// Lists of the same filters hold each other's filters.
proof fn lemma_same_members<F, P>(
    filters: Seq<SimpleFilterContext<F>>,
    physical_filters: Seq<PhysicalFilterContext<P>>,
    other_filters: Seq<SimpleFilterContext<F>>,
    other_physical_filters: Seq<PhysicalFilterContext<P>>,
)
    requires
        forall|filter: SimpleFilterContext<F>| #[trigger]
            filters.contains(filter) <==> other_filters.contains(filter),
        forall|filter: PhysicalFilterContext<P>| #[trigger]
            physical_filters.contains(filter) <==> other_physical_filters.contains(filter),
    ensures
        forall|i: int| 0 <= i < filters.len() ==> other_filters.contains(#[trigger] filters[i]),
        forall|i: int| 0 <= i < other_filters.len() ==> filters.contains(#[trigger] other_filters[i]),
        forall|i: int|
            0 <= i < physical_filters.len() ==> other_physical_filters.contains(
                #[trigger] physical_filters[i],
            ),
        forall|i: int|
            0 <= i < other_physical_filters.len() ==> physical_filters.contains(
                #[trigger] other_physical_filters[i],
            ),
{
    assert forall|i: int| 0 <= i < filters.len() implies other_filters.contains(
        #[trigger] filters[i],
    ) by {
        assert(filters.contains(filters[i]));
    }
    assert forall|i: int| 0 <= i < other_filters.len() implies filters.contains(
        #[trigger] other_filters[i],
    ) by {
        assert(other_filters.contains(other_filters[i]));
    }
    assert forall|i: int| 0 <= i < physical_filters.len() implies other_physical_filters.contains(
        #[trigger] physical_filters[i],
    ) by {
        assert(physical_filters.contains(physical_filters[i]));
    }
    assert forall|i: int| 0 <= i < other_physical_filters.len() implies physical_filters.contains(
        #[trigger] other_physical_filters[i],
    ) by {
        assert(other_physical_filters.contains(other_physical_filters[i]));
    }
}

/// Filters that are among filters that answer the same each time do so too.
proof fn lemma_repeat_members<E, F: ColumnPredicate<E>, P: PhysicalPredicate<E>>(
    filters: Seq<SimpleFilterContext<F>>,
    physical_filters: Seq<PhysicalFilterContext<P>>,
    some_filters: Seq<SimpleFilterContext<F>>,
    some_physical_filters: Seq<PhysicalFilterContext<P>>,
)
    requires
        filters_repeat::<E, F, P>(filters, physical_filters),
        forall|i: int| 0 <= i < some_filters.len() ==> filters.contains(#[trigger] some_filters[i]),
        forall|i: int|
            0 <= i < some_physical_filters.len() ==> physical_filters.contains(
                #[trigger] some_physical_filters[i],
            ),
    ensures
        filters_repeat::<E, F, P>(some_filters, some_physical_filters),
{
    assert forall|i: int| 0 <= i < some_filters.len() implies ((
    #[trigger] some_filters[i]).filter matches MaybeFilter::Filter(simple) ==> predicate_repeats::<
        E,
        F,
    >(&simple.predicate)) by {
        let j = choose|j: int| 0 <= j < filters.len() && filters[j] == some_filters[i];
        assert(filters[j] == some_filters[i]);
    }
    assert forall|i: int| 0 <= i < some_physical_filters.len() implies ((
    #[trigger] some_physical_filters[i]).filter matches MaybeFilter::Filter(predicate)
        ==> expression_repeats::<E, P>(&predicate)) by {
        let j = choose|j: int|
            0 <= j < physical_filters.len() && physical_filters[j] == some_physical_filters[i];
        assert(physical_filters[j] == some_physical_filters[i]);
    }
}

/// A mask that filters give has a bit for each row.
proof fn lemma_mask_len<
    E,
    F: ColumnPredicate<E>,
    P: PhysicalPredicate<E>,
    C: PrimaryKeyCodec<E>,
>(
    batch: &Batch,
    filters: Seq<SimpleFilterContext<F>>,
    physical_filters: Seq<PhysicalFilterContext<P>>,
    metadata: &RegionMetadata,
    codec: &C,
    skip_fields: bool,
    mask: Option<BooleanBuffer>,
)
    requires
        filters_give(
            batch,
            filters,
            physical_filters,
            metadata,
            codec,
            skip_fields,
            Ok::<Option<BooleanBuffer>, PrewhereError<E>>(mask),
        ),
    ensures
        mask_bits(mask, batch_rows(*batch)).len() == batch_rows(*batch),
{
}

/// Filters are a conjunction: where filters and codec answer the same each time,
/// two pairs of lists together keep just the rows that both keep.
pub proof fn law_filters_are_a_conjunction<
    E,
    F: ColumnPredicate<E>,
    P: PhysicalPredicate<E>,
    C: PrimaryKeyCodec<E>,
>(
    batch: &Batch,
    filters: Seq<SimpleFilterContext<F>>,
    physical_filters: Seq<PhysicalFilterContext<P>>,
    more_filters: Seq<SimpleFilterContext<F>>,
    more_physical_filters: Seq<PhysicalFilterContext<P>>,
    metadata: &RegionMetadata,
    codec: &C,
    skip_fields: bool,
    mask: Option<BooleanBuffer>,
    more_mask: Option<BooleanBuffer>,
    both_mask: Option<BooleanBuffer>,
)
    requires
        filters_repeat::<E, F, P>(filters + more_filters, physical_filters + more_physical_filters),
        codec_repeats::<E, C>(codec, batch),
        filters_give(
            batch,
            filters,
            physical_filters,
            metadata,
            codec,
            skip_fields,
            Ok::<Option<BooleanBuffer>, PrewhereError<E>>(mask),
        ),
        filters_give(
            batch,
            more_filters,
            more_physical_filters,
            metadata,
            codec,
            skip_fields,
            Ok::<Option<BooleanBuffer>, PrewhereError<E>>(more_mask),
        ),
        filters_give(
            batch,
            filters + more_filters,
            physical_filters + more_physical_filters,
            metadata,
            codec,
            skip_fields,
            Ok::<Option<BooleanBuffer>, PrewhereError<E>>(both_mask),
        ),
    ensures
        mask_bits(both_mask, batch_rows(*batch)) == and_bits(
            mask_bits(mask, batch_rows(*batch)),
            mask_bits(more_mask, batch_rows(*batch)),
        ),
{
    let rows = batch_rows(*batch);
    let all = filters + more_filters;
    let all_physical = physical_filters + more_physical_filters;
    assert forall|i: int| 0 <= i < filters.len() implies all.contains(#[trigger] filters[i]) by {
        assert(all[i] == filters[i]);
    }
    assert forall|i: int| 0 <= i < more_filters.len() implies all.contains(
        #[trigger] more_filters[i],
    ) by {
        assert(all[filters.len() + i] == more_filters[i]);
    }
    assert forall|i: int| 0 <= i < physical_filters.len() implies all_physical.contains(
        #[trigger] physical_filters[i],
    ) by {
        assert(all_physical[i] == physical_filters[i]);
    }
    assert forall|i: int| 0 <= i < more_physical_filters.len() implies all_physical.contains(
        #[trigger] more_physical_filters[i],
    ) by {
        assert(all_physical[physical_filters.len() + i] == more_physical_filters[i]);
    }
    assert(are_among(
        (all, all_physical),
        (filters, physical_filters),
        (more_filters, more_physical_filters),
    )) by {
        assert forall|i: int| 0 <= i < all.len() implies filters.contains(#[trigger] all[i])
            || more_filters.contains(all[i]) by {
            if i < filters.len() {
                assert(filters[i] == all[i]);
            } else {
                assert(more_filters[i - filters.len()] == all[i]);
            }
        }
        assert forall|i: int| 0 <= i < all_physical.len() implies physical_filters.contains(
            #[trigger] all_physical[i],
        ) || more_physical_filters.contains(all_physical[i]) by {
            if i < physical_filters.len() {
                assert(physical_filters[i] == all_physical[i]);
            } else {
                assert(more_physical_filters[i - physical_filters.len()] == all_physical[i]);
            }
        }
    }
    lemma_repeat_members::<E, F, P>(all, all_physical, filters, physical_filters);
    lemma_repeat_members::<E, F, P>(all, all_physical, more_filters, more_physical_filters);
    law_more_filters_keep_no_more::<E, F, P, C>(
        batch,
        filters,
        physical_filters,
        all,
        all_physical,
        metadata,
        codec,
        skip_fields,
        mask,
        both_mask,
    );
    law_more_filters_keep_no_more::<E, F, P, C>(
        batch,
        more_filters,
        more_physical_filters,
        all,
        all_physical,
        metadata,
        codec,
        skip_fields,
        more_mask,
        both_mask,
    );
    assert forall|row: int| 0 <= row < rows implies #[trigger] mask_bits(both_mask, rows)[row] == (
    mask_bits(mask, rows)[row] && mask_bits(more_mask, rows)[row]) by {
        if mask_bits(mask, rows)[row] && mask_bits(more_mask, rows)[row] {
            lemma_kept_by_fewer::<E, F, P, C>(
                batch,
                (all, all_physical),
                (filters, physical_filters),
                (more_filters, more_physical_filters),
                metadata,
                codec,
                skip_fields,
                both_mask,
                mask,
                more_mask,
                row,
            );
        }
    }
    lemma_mask_len::<E, F, P, C>(
        batch,
        filters,
        physical_filters,
        metadata,
        codec,
        skip_fields,
        mask,
    );
    lemma_mask_len::<E, F, P, C>(
        batch,
        all,
        all_physical,
        metadata,
        codec,
        skip_fields,
        both_mask,
    );
    assert(mask_bits(both_mask, rows) =~= and_bits(
        mask_bits(mask, rows),
        mask_bits(more_mask, rows),
    ));
}

} // verus!
