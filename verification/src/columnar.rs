//! The Arrow values that filters work on: batches, columns and bit masks.
//!
//! The values themselves are Arrow's. What they hold is given a name here
//! (`batch_*`, `column_*`, `buffer_bits`, `schema_fields`), and the contracts of
//! the Arrow functions in this file are stated over those names.
use crate::search::first_index;
use arrow::array::{Array, ArrayRef, BooleanArray};
use arrow::buffer::BooleanBuffer;
use arrow::datatypes::{DataType, Schema};
use arrow::error::ArrowError;
use arrow::record_batch::RecordBatch;
use std::sync::Arc;
use vstd::prelude::*;

verus! {

/// Arrow's bit-packed sequence of booleans.
#[verifier::external_type_specification]
#[verifier::external_body]
pub struct ExBooleanBuffer(BooleanBuffer);

/// Arrow's schema: the fields of a batch, in order.
#[verifier::external_type_specification]
#[verifier::external_body]
pub struct ExSchema(Schema);

/// Arrow's data type of a column.
#[verifier::external_type_specification]
#[verifier::external_body]
pub struct ExDataType(DataType);

/// Arrow's error.
#[verifier::external_type_specification]
#[verifier::external_body]
pub struct ExArrowError(ArrowError);

/// A record batch: equally long columns under the fields of a schema.
#[verifier::external_body]
#[derive(Debug)]
pub struct Batch {
    pub batch: RecordBatch,
}

/// A column of values.
#[verifier::external_body]
#[derive(Debug)]
pub struct Column {
    pub array: ArrayRef,
}

/// The bits that a buffer holds.
pub uninterp spec fn buffer_bits(buffer: BooleanBuffer) -> Seq<bool>;

/// The names of the fields of a schema, in order.
pub uninterp spec fn schema_fields(schema: Schema) -> Seq<Seq<char>>;

/// The names of the fields of a batch, in order.
pub uninterp spec fn batch_fields(batch: Batch) -> Seq<Seq<char>>;

/// The columns of a batch, in the order of its fields.
pub uninterp spec fn batch_columns(batch: Batch) -> Seq<Column>;

/// The number of rows of a batch.
pub uninterp spec fn batch_rows(batch: Batch) -> nat;

/// The number of values of a column.
pub uninterp spec fn column_rows(column: Column) -> nat;

/// The values of a boolean column, whatever its validity bits say, or `None`
/// for a column of another type.
pub uninterp spec fn boolean_values(column: Column) -> Option<Seq<bool>>;

/// Why a column cannot make up a batch of its own under a schema: the schema
/// has other than one field, the field is of another type than the column, or
/// the field is not nullable and the column holds a null. `None` if it can.
pub uninterp spec fn column_misfit(schema: Schema, column: Column) -> Option<ArrowError>;

/// The number of set bits.
pub open spec fn count_set(bits: Seq<bool>) -> nat
    decreases bits.len(),
{
    if bits.len() == 0 {
        0
    } else {
        count_set(bits.drop_last()) + if bits.last() {
            1nat
        } else {
            0nat
        }
    }
}

/// The bit-wise conjunction of two masks of one length.
pub open spec fn and_bits(a: Seq<bool>, b: Seq<bool>) -> Seq<bool> {
    Seq::new(a.len(), |i: int| a[i] && b[i])
}

/// A mask of `len` bits, all of them `bit`.
pub open spec fn uniform_bits(len: nat, bit: bool) -> Seq<bool> {
    Seq::new(len, |i: int| bit)
}

/// `BooleanBuffer::new_set`: a buffer of `length` set bits.
pub assume_specification[ BooleanBuffer::new_set ](length: usize) -> (buffer: BooleanBuffer)
    ensures
        buffer_bits(buffer) == uniform_bits(length as nat, true),
;

/// `BooleanBuffer::new_unset`: a buffer of `length` unset bits.
pub assume_specification[ BooleanBuffer::new_unset ](length: usize) -> (buffer: BooleanBuffer)
    ensures
        buffer_bits(buffer) == uniform_bits(length as nat, false),
;

/// `BooleanBuffer::count_set_bits`: how many bits of the buffer are set.
pub assume_specification[ BooleanBuffer::count_set_bits ](buffer: &BooleanBuffer) -> (count: usize)
    ensures
        count == count_set(buffer_bits(*buffer)),
;

/// `&BooleanBuffer & &BooleanBuffer`: the bit-wise conjunction of two buffers
/// of one length. It panics where the lengths differ.
#[verifier::external_body]
pub(crate) fn bitand(left: &BooleanBuffer, right: &BooleanBuffer) -> (buffer: BooleanBuffer)
    requires
        buffer_bits(*left).len() == buffer_bits(*right).len(),
    ensures
        buffer_bits(buffer) == and_bits(buffer_bits(*left), buffer_bits(*right)),
{
    left & right
}

/// `Schema::column_with_name`: the position of the first field of that name.
#[verifier::external_body]
pub(crate) fn column_with_name(schema: &Schema, name: &str) -> (index: Option<usize>)
    ensures
        match index {
            Some(i) => first_index(schema_fields(*schema), name@) == Some(i as int),
            None => first_index(schema_fields(*schema), name@) is None,
        },
{
    schema.column_with_name(name).map(|found| found.0)
}

impl Batch {
    /// `RecordBatch::num_rows`: the number of rows.
    #[verifier::external_body]
    pub(crate) fn num_rows(&self) -> (rows: usize)
        ensures
            rows == batch_rows(*self),
    {
        self.batch.num_rows()
    }

    /// `RecordBatch::schema`: the schema of the batch, which has one field for
    /// each column.
    #[verifier::external_body]
    pub(crate) fn schema(&self) -> (schema: Arc<Schema>)
        ensures
            schema_fields(*schema) == batch_fields(*self),
            schema_fields(*schema).len() == batch_columns(*self).len(),
    {
        self.batch.schema()
    }

    /// `RecordBatch::column`: the column at `index`, as long as the batch. It
    /// panics on an index beyond the columns.
    #[verifier::external_body]
    pub(crate) fn column(&self, index: usize) -> (column: Arc<Column>)
        requires
            index < batch_columns(*self).len(),
        ensures
            *column == batch_columns(*self)[index as int],
            column_rows(*column) == batch_rows(*self),
    {
        Arc::new(Column { array: self.batch.column(index).clone() })
    }

    /// `RecordBatch::try_new` with a single column: the batch of that column
    /// under `schema`, or an error where the column does not fit the schema.
    #[verifier::external_body]
    pub(crate) fn try_new(schema: &Arc<Schema>, column: &Arc<Column>) -> (batch: Result<
        Batch,
        ArrowError,
    >)
        ensures
            match batch {
                Ok(b) => {
                    &&& column_misfit(**schema, **column) is None
                    &&& batch_fields(b) == schema_fields(**schema)
                    &&& batch_columns(b) == seq![**column]
                    &&& batch_rows(b) == column_rows(**column)
                },
                Err(error) => column_misfit(**schema, **column) == Some(error),
            },
    {
        RecordBatch::try_new(schema.clone(), vec![column.array.clone()]).map(|batch| Batch { batch })
    }
}

impl Column {
    /// `downcast_ref::<BooleanArray>` and `BooleanArray::values`: the values
    /// of a boolean column, one for each row, or `None` for a column of
    /// another type.
    #[verifier::external_body]
    pub(crate) fn boolean_buffer(&self) -> (values: Option<BooleanBuffer>)
        ensures
            match values {
                Some(buffer) => {
                    &&& boolean_values(*self) == Some(buffer_bits(buffer))
                    &&& buffer_bits(buffer).len() == column_rows(*self)
                },
                None => boolean_values(*self) is None,
            },
    {
        let array = self.array.as_any().downcast_ref::<BooleanArray>();
        array.map(|array| array.values().clone())
    }
}

/// A mask has no more set bits than bits.
pub proof fn lemma_count_set_bound(bits: Seq<bool>)
    ensures
        count_set(bits) <= bits.len(),
    decreases bits.len(),
{
    if bits.len() > 0 {
        lemma_count_set_bound(bits.drop_last());
    }
}

/// A mask has no set bit exactly if its count is zero.
pub proof fn lemma_count_set_zero(bits: Seq<bool>)
    ensures
        count_set(bits) == 0 <==> forall|i: int| 0 <= i < bits.len() ==> !bits[i],
    decreases bits.len(),
{
    if bits.len() > 0 {
        let rest = bits.drop_last();
        lemma_count_set_zero(rest);
        assert(forall|i: int| 0 <= i < rest.len() ==> rest[i] == bits[i]);
        if forall|i: int| 0 <= i < rest.len() ==> !rest[i] {
            if !bits.last() {
                assert forall|i: int| 0 <= i < bits.len() implies !bits[i] by {
                    if i < rest.len() {
                        assert(!rest[i]);
                    }
                }
            } else {
                assert(bits[bits.len() - 1]);
            }
        }
    }
}

/// The set bits of two masks in a row are those of the first and the second.
pub proof fn lemma_count_set_concat(a: Seq<bool>, b: Seq<bool>)
    ensures
        count_set(a + b) == count_set(a) + count_set(b),
    decreases b.len(),
{
    if b.len() == 0 {
        assert(a + b =~= a);
    } else {
        assert((a + b).drop_last() =~= a + b.drop_last());
        lemma_count_set_concat(a, b.drop_last());
    }
}

/// The number of set bits is the number of positions at which a bit is set.
pub proof fn law_count_set_counts_positions(bits: Seq<bool>)
    ensures
        Set::new(|i: int| 0 <= i < bits.len() && bits[i]).finite(),
        count_set(bits) == Set::new(|i: int| 0 <= i < bits.len() && bits[i]).len(),
    decreases bits.len(),
{
    let set = Set::new(|i: int| 0 <= i < bits.len() && bits[i]);
    if bits.len() == 0 {
        assert(set =~= Set::<int>::empty());
    } else {
        let rest = bits.drop_last();
        let fewer = Set::new(|i: int| 0 <= i < rest.len() && rest[i]);
        law_count_set_counts_positions(rest);
        if bits.last() {
            assert(set =~= fewer.insert(bits.len() - 1));
        } else {
            assert(set =~= fewer);
        }
    }
}

/// The set bits among the first bits are as many as the positions before that at
/// which a bit is set.
pub proof fn law_count_set_before(bits: Seq<bool>, n: int)
    requires
        0 <= n <= bits.len(),
    ensures
        Set::new(|i: int| 0 <= i < n && bits[i]).finite(),
        count_set(bits.take(n)) == Set::new(|i: int| 0 <= i < n && bits[i]).len(),
{
    let first = bits.take(n);
    law_count_set_counts_positions(first);
    assert(Set::new(|i: int| 0 <= i < first.len() && first[i]) =~= Set::new(
        |i: int| 0 <= i < n && bits[i],
    ));
}

/// A mask has as many unset bits as it has bits that are not set.
pub proof fn law_unset_bits(bits: Seq<bool>)
    ensures
        Set::new(|i: int| 0 <= i < bits.len() && !bits[i]).finite(),
        bits.len() - count_set(bits) == Set::new(|i: int| 0 <= i < bits.len() && !bits[i]).len(),
    decreases bits.len(),
{
    let set = Set::new(|i: int| 0 <= i < bits.len() && !bits[i]);
    if bits.len() == 0 {
        assert(set =~= Set::<int>::empty());
    } else {
        let rest = bits.drop_last();
        let fewer = Set::new(|i: int| 0 <= i < rest.len() && !rest[i]);
        law_unset_bits(rest);
        if bits.last() {
            assert(set =~= fewer);
        } else {
            assert(set =~= fewer.insert(bits.len() - 1));
        }
    }
}

} // verus!
