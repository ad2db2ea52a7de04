//! Filters pushed down to a scan, with what is known of them before the scan.
use crate::columnar::{Batch, Column};
use crate::read_format::{ColumnId, SemanticType};
use arrow::buffer::BooleanBuffer;
use arrow::datatypes::Schema;
use std::sync::Arc;
use vstd::prelude::*;

verus! {

/// A predicate on the values of one column.
pub trait ColumnPredicate<E> {
    /// Evaluates the predicate on each value of `column`.
    fn evaluate_array(&self, column: &Column) -> Result<BooleanBuffer, E>;
}

/// A compiled expression over a batch.
pub trait PhysicalPredicate<E> {
    /// Evaluates the expression on each row of `batch`.
    fn evaluate(&self, batch: &Batch) -> Result<Column, E>;
}

/// What is left to do of a filter for one file.
#[derive(Debug)]
pub enum MaybeFilter<F> {
    /// The filter has to be evaluated.
    Filter(F),
    /// Every row matches.
    Matched,
    /// No row matches.
    Pruned,
}

/// A predicate together with the column that it is about.
#[derive(Debug)]
pub struct SimpleFilter<F> {
    /// The name of the column.
    pub column_name: String,
    /// The predicate on the column.
    pub predicate: F,
}

/// A filter on one column, as a scan of one file applies it.
#[derive(Debug)]
pub struct SimpleFilterContext<F> {
    /// The filter.
    pub filter: MaybeFilter<SimpleFilter<F>>,
    /// The column that the filter is about.
    pub column_id: ColumnId,
    /// What that column is in its region.
    pub semantic_type: SemanticType,
}

/// An expression on one column, as a scan of one file applies it.
#[derive(Debug)]
pub struct PhysicalFilterContext<P> {
    /// The expression.
    pub filter: MaybeFilter<P>,
    /// The column that the expression is about.
    pub column_id: ColumnId,
    /// What that column is in its region.
    pub semantic_type: SemanticType,
    /// The name of the column.
    pub column_name: String,
    /// The schema of the one-column batch that the expression reads.
    pub schema: Arc<Schema>,
}

} // verus!
