//! Parquet's row selections: which rows of a row group are read.
use crate::columnar::{
    buffer_bits, count_set, law_count_set_before, lemma_count_set_bound, lemma_count_set_concat, uniform_bits,
};
use arrow::array::BooleanArray;
use arrow::buffer::BooleanBuffer;
use parquet::arrow::arrow_reader::{RowSelection, RowSelector};
use vstd::prelude::*;

verus! {

/// Parquet's selection of rows, a list of runs of selected or skipped rows.
#[verifier::external_type_specification]
#[verifier::external_body]
pub struct ExRowSelection(RowSelection);

/// Arrow's array of booleans.
#[verifier::external_type_specification]
#[verifier::external_body]
pub struct ExBooleanArray(BooleanArray);

/// The runs of a selection in order: how many rows, and whether they are
/// selected.
pub uninterp spec fn selection_runs(selection: RowSelection) -> Seq<(usize, bool)>;

/// The values of a boolean array, `None` for a null.
pub uninterp spec fn array_values(array: BooleanArray) -> Seq<Option<bool>>;

/// For each row that runs speak of, whether it is selected.
pub open spec fn expand_runs(runs: Seq<(usize, bool)>) -> Seq<bool>
    decreases runs.len(),
{
    if runs.len() == 0 {
        Seq::empty()
    } else {
        expand_runs(runs.drop_last()) + Seq::new(runs.last().0 as nat, |i: int| runs.last().1)
    }
}

/// For each row that a selection speaks of, whether it is selected.
pub open spec fn selection_mask(selection: RowSelection) -> Seq<bool> {
    expand_runs(selection_runs(selection))
}

/// The masks of `masks` one after the other.
pub open spec fn concat_masks(masks: Seq<Seq<bool>>) -> Seq<bool>
    decreases masks.len(),
{
    if masks.len() == 0 {
        Seq::empty()
    } else {
        concat_masks(masks.drop_last()) + masks.last()
    }
}

/// The mask that keeps of the rows that `outer` selects those whose bit in
/// `inner` is set, where `inner` has one bit for each selected row of `outer`.
pub open spec fn refine_mask(outer: Seq<bool>, inner: Seq<bool>) -> Seq<bool> {
    Seq::new(outer.len(), |i: int| outer[i] && inner[count_set(outer.take(i)) as int])
}

/// The values of an array without nulls.
pub open spec fn array_bits(array: BooleanArray) -> Seq<bool> {
    array_values(array).map_values(|value: Option<bool>| value == Some(true))
}

/// The values of arrays without nulls.
pub open spec fn arrays_bits(arrays: Seq<BooleanArray>) -> Seq<Seq<bool>> {
    arrays.map_values(|array: BooleanArray| array_bits(array))
}

/// Whether an array holds no null.
pub open spec fn null_free(array: BooleanArray) -> bool {
    !array_values(array).contains(None)
}

/// `BooleanArray::from`: the array of the buffer's bits, without nulls.
#[verifier::external_body]
pub(crate) fn boolean_array(buffer: BooleanBuffer) -> (array: BooleanArray)
    ensures
        array_values(array) == buffer_bits(buffer).map_values(|bit: bool| Some(bit)),
{
    BooleanArray::from(buffer)
}

/// `RowSelection::from` on no run: the selection that speaks of no row.
#[verifier::external_body]
pub(crate) fn empty_selection() -> (selection: RowSelection)
    ensures
        selection_runs(selection) == Seq::<(usize, bool)>::empty(),
{
    RowSelection::from(Vec::<RowSelector>::new())
}

/// `RowSelection::from_filters`: the selection of the rows whose value is
/// `true` in the arrays, one after the other. It panics on a null, and where the
/// number of rows overflows.
pub assume_specification[ RowSelection::from_filters ](filters: &[BooleanArray]) -> (selection:
    RowSelection)
    requires
        forall|i: int| 0 <= i < filters@.len() ==> null_free(#[trigger] filters@[i]),
        concat_masks(arrays_bits(filters@)).len() <= usize::MAX,
    ensures
        selection_mask(selection) == concat_masks(arrays_bits(filters@)),
;

/// `RowSelection::and_then`: of the rows that `selection` selects, those that
/// `other` selects, where `other` speaks of just these rows. It panics where
/// `other` speaks of another number of rows, where the number of rows overflows,
/// and where `selection` has no run while `other` has runs of no rows.
pub assume_specification[ RowSelection::and_then ](
    selection: &RowSelection,
    other: &RowSelection,
) -> (refined: RowSelection)
    requires
        selection_mask(*other).len() == count_set(selection_mask(*selection)),
        count_set(selection_mask(*selection)) > 0,
        selection_mask(*selection).len() <= usize::MAX,
    ensures
        selection_mask(refined) == refine_mask(selection_mask(*selection), selection_mask(*other)),
;

/// `RowSelection::iter`: the runs of a selection in order.
#[verifier::external_body]
pub(crate) fn selectors(selection: &RowSelection) -> (runs: Vec<(usize, bool)>)
    ensures
        runs@ == selection_runs(*selection),
{
    selection.iter().map(|run| (run.row_count, !run.skip)).collect()
}

/// The rows of runs, and how many of them are selected, or `None` if the rows
/// are too many to count.
pub(crate) fn count_runs(runs: &Vec<(usize, bool)>) -> (counts: Option<(usize, usize)>)
    ensures
        match counts {
            Some((total, selected)) => {
                &&& total == expand_runs(runs@).len()
                &&& selected == count_set(expand_runs(runs@))
            },
            None => expand_runs(runs@).len() > usize::MAX,
        },
{
    let mut total: usize = 0;
    let mut selected: usize = 0;
    let mut i: usize = 0;
    while i < runs.len()
        invariant
            i <= runs@.len(),
            total == expand_runs(runs@.take(i as int)).len(),
            selected == count_set(expand_runs(runs@.take(i as int))),
        decreases runs@.len() - i,
    {
        let (rows, kept) = runs[i];
        let ghost before = expand_runs(runs@.take(i as int));
        let ghost run = Seq::new(rows as nat, |j: int| kept);
        proof {
            assert(runs@.take(i + 1).drop_last() =~= runs@.take(i as int));
            assert(expand_runs(runs@.take(i + 1)) =~= before + run);
            lemma_count_set_concat(before, run);
            lemma_count_set_uniform(run, kept);
            lemma_count_set_bound(before + run);
        }
        if rows > usize::MAX - total {
            proof {
                lemma_expand_grows(runs@, i + 1);
            }
            return None;
        }
        total = total + rows;
        if kept {
            selected = selected + rows;
        }
        i += 1;
    }
    assert(runs@.take(runs@.len() as int) =~= runs@);
    Some((total, selected))
}

/// Runs speak of at least the rows of their first runs.
proof fn lemma_expand_grows(runs: Seq<(usize, bool)>, n: int)
    requires
        0 <= n <= runs.len(),
    ensures
        expand_runs(runs.take(n)).len() <= expand_runs(runs).len(),
    decreases runs.len() - n,
{
    if n < runs.len() {
        lemma_expand_grows(runs, n + 1);
        assert(runs.take(n + 1).drop_last() =~= runs.take(n));
    } else {
        assert(runs.take(n) =~= runs);
    }
}

/// A mask of equal bits has all of them set or none.
pub proof fn lemma_count_set_uniform(bits: Seq<bool>, bit: bool)
    requires
        forall|i: int| 0 <= i < bits.len() ==> bits[i] == bit,
    ensures
        count_set(bits) == if bit {
            bits.len()
        } else {
            0
        },
    decreases bits.len(),
{
    if bits.len() > 0 {
        lemma_count_set_uniform(bits.drop_last(), bit);
    }
}

/// The set bits before a set bit are fewer than all of them.
pub proof fn lemma_count_before(bits: Seq<bool>, i: int)
    requires
        0 <= i < bits.len(),
        bits[i],
    ensures
        count_set(bits.take(i)) < count_set(bits),
    decreases bits.len(),
{
    let rest = bits.drop_last();
    if i < rest.len() {
        lemma_count_before(rest, i);
        assert(rest.take(i) =~= bits.take(i));
    } else {
        assert(bits.take(i) =~= rest);
    }
}

/// A refined selection speaks of the same rows and selects none that was not
/// selected before, and it selects as many rows as have their bit set.
pub proof fn law_refining_narrows(outer: Seq<bool>, inner: Seq<bool>)
    requires
        inner.len() == count_set(outer),
    ensures
        refine_mask(outer, inner).len() == outer.len(),
        forall|row: int|
            0 <= row < outer.len() ==> #[trigger] refine_mask(outer, inner)[row] ==> outer[row],
        count_set(refine_mask(outer, inner)) == count_set(inner),
    decreases outer.len(),
{
    if outer.len() > 0 {
        let rest = outer.drop_last();
        let refined = refine_mask(outer, inner);
        let kept = if outer.last() {
            inner.drop_last()
        } else {
            inner
        };
        law_refining_narrows(rest, kept);
        assert forall|i: int| 0 <= i < rest.len() implies #[trigger] refined[i] == refine_mask(
            rest,
            kept,
        )[i] by {
            assert(rest.take(i) =~= outer.take(i));
            if rest[i] {
                lemma_count_before(rest, i);
            }
        }
        assert(refined.drop_last() =~= refine_mask(rest, kept));
        assert(outer.take(outer.len() - 1) =~= rest);
        lemma_count_set_bound(rest);
    }
}

/// Refining by a mask of set bits changes nothing.
pub proof fn law_refining_by_all_changes_nothing(outer: Seq<bool>)
    ensures
        refine_mask(outer, uniform_bits(count_set(outer), true)) == outer,
{
    let inner = uniform_bits(count_set(outer), true);
    assert forall|i: int| 0 <= i < outer.len() implies #[trigger] refine_mask(outer, inner)[i]
        == outer[i] by {
        if outer[i] {
            lemma_count_before(outer, i);
        }
    }
    assert(refine_mask(outer, inner) =~= outer);
}

/// One more mask comes after the masks before it.
pub proof fn lemma_concat_push(masks: Seq<Seq<bool>>, mask: Seq<bool>)
    ensures
        concat_masks(masks.push(mask)) == concat_masks(masks) + mask,
{
    assert(masks.push(mask).drop_last() =~= masks);
}

/// A selection without runs speaks of no row, and a further run speaks of its
/// rows after those of the runs before it, all of them selected or none.
pub proof fn law_runs_expand_in_order(runs: Seq<(usize, bool)>, run: (usize, bool))
    ensures
        expand_runs(Seq::<(usize, bool)>::empty()) == Seq::<bool>::empty(),
        expand_runs(runs.push(run)).len() == expand_runs(runs).len() + run.0,
        expand_runs(runs.push(run)).take(expand_runs(runs).len() as int) == expand_runs(runs),
        forall|k: int|
            0 <= k < run.0 ==> #[trigger] expand_runs(runs.push(run)).skip(
                expand_runs(runs).len() as int,
            )[k] == run.1,
{
    assert(runs.push(run).drop_last() =~= runs);
    assert(expand_runs(runs.push(run)).take(expand_runs(runs).len() as int) =~= expand_runs(runs));
}

/// The mask of a selection says of each row of each of its runs, in order,
/// whether it is selected.
pub proof fn law_mask_of_selection(selection: RowSelection, i: int, k: int)
    requires
        0 <= i < selection_runs(selection).len(),
        0 <= k < selection_runs(selection)[i].0,
    ensures
        ({
            let runs = selection_runs(selection);
            let before = expand_runs(runs.take(i)).len();
            &&& before + k < selection_mask(selection).len()
            &&& selection_mask(selection)[before + k] == runs[i].1
        }),
{
    lemma_mask_of_runs(selection_runs(selection), i, k);
}

/// Runs say of each of their rows, in order, whether it is selected.
proof fn lemma_mask_of_runs(runs: Seq<(usize, bool)>, i: int, k: int)
    requires
        0 <= i < runs.len(),
        0 <= k < runs[i].0,
    ensures
        expand_runs(runs.take(i)).len() + k < expand_runs(runs).len(),
        expand_runs(runs)[expand_runs(runs.take(i)).len() + k] == runs[i].1,
    decreases runs.len(),
{
    let rest = runs.drop_last();
    if i < rest.len() {
        lemma_mask_of_runs(rest, i, k);
        assert(rest.take(i) =~= runs.take(i));
    } else {
        assert(runs.take(i) =~= rest);
    }
}

/// Masks one after the other are one mask that holds each in its place.
pub proof fn law_concat_is_flatten(masks: Seq<Seq<bool>>)
    ensures
        concat_masks(masks) == masks.flatten(),
    decreases masks.len(),
{
    if masks.len() == 0 {
        assert(masks.flatten() =~= Seq::<bool>::empty());
    } else {
        law_concat_is_flatten(masks.drop_last());
        masks.lemma_flatten_and_flatten_alt_are_equivalent();
        masks.drop_last().lemma_flatten_and_flatten_alt_are_equivalent();
    }
}

/// The bits of arrays are their values, set where the value is `true`.
pub proof fn law_bits_are_values(arrays: Seq<BooleanArray>, i: int, k: int)
    requires
        0 <= i < arrays.len(),
        0 <= k < array_values(arrays[i]).len(),
    ensures
        arrays_bits(arrays).len() == arrays.len(),
        arrays_bits(arrays)[i].len() == array_values(arrays[i]).len(),
        arrays_bits(arrays)[i][k] <==> array_values(arrays[i])[k] == Some(true),
{
}

/// A refined mask selects a row exactly if the row was selected and, of the
/// selected rows, the bit of as many rows on as were selected before it is set.
pub proof fn law_refined_bit(outer: Seq<bool>, inner: Seq<bool>, row: int)
    requires
        0 <= row < outer.len(),
    ensures
        refine_mask(outer, inner).len() == outer.len(),
        refine_mask(outer, inner)[row] <==> outer[row] && inner[Set::new(
            |i: int| 0 <= i < row && outer[i],
        ).len() as int],
{
    law_count_set_before(outer, row);
}

} // verus!
