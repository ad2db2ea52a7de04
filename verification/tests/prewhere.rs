use arrow::array::{Array, ArrayRef, BooleanArray, Int64Array, StringArray};
use arrow::buffer::{BooleanBuffer, NullBuffer};
use arrow::datatypes::{DataType, Field, Fields, Schema};
use arrow::record_batch::RecordBatch;
use greptime_verified::columnar::{Batch, Column};
use greptime_verified::config::{ColumnRatio, PrewhereConfig};
use greptime_verified::filter::{
    ColumnPredicate, MaybeFilter, PhysicalFilterContext, PhysicalPredicate, SimpleFilter,
    SimpleFilterContext,
};
use greptime_verified::prewhere::apply::{narrow, step_of_expression, step_of_predicate};
use greptime_verified::prewhere::context::projection_fits;
use greptime_verified::prewhere::{
    apply_filters_to_batch, compute_projection_mask, execute_prewhere, passed_over_filters,
    should_use_prewhere, try_execute_prewhere, FilterStep, PrewhereContext, PrewhereError, PrewhereResult, PrewhereRun,
};
use greptime_verified::read_format::{
    ColumnMetadata, FlatReadFormat, PrimaryKeyReadFormat, ReadFormat, RegionMetadata, SemanticType,
};
use greptime_verified::tag_decode::{
    maybe_decode_tag_column, PrimaryKeyCodec, PrimaryKeyEncoding, TagDecodeState,
};
use parquet::arrow::arrow_reader::{RowSelection, RowSelector};
use parquet::arrow::ArrowSchemaConverter;
use parquet::schema::types::SchemaDescriptor;
use std::cell::Cell;
use std::collections::HashMap;
use std::sync::Arc;

const HOST: u32 = 1;
const CPU: u32 = 2;
const MEM: u32 = 3;
const TS: u32 = 4;

/// Keeps the values above a bound, and fails on columns of other types.
struct Above(i64);

impl ColumnPredicate<String> for Above {
    fn evaluate_array(&self, column: &Column) -> Result<BooleanBuffer, String> {
        match column.array.as_any().downcast_ref::<Int64Array>() {
            Some(values) => Ok(values.iter().map(|v| v.is_some_and(|v| v > self.0)).collect()),
            None => Err("not an integer column".to_string()),
        }
    }
}

/// What a physical filter answers.
enum Expr {
    Even,
    NotBoolean,
    Fails,
    HalfNull,
}

impl PhysicalPredicate<String> for Expr {
    fn evaluate(&self, batch: &Batch) -> Result<Column, String> {
        let column = batch.batch.column(0);
        let array: ArrayRef = match self {
            Expr::Even => {
                let values = column.as_any().downcast_ref::<Int64Array>().unwrap();
                Arc::new(BooleanArray::from_iter(
                    values.iter().map(|v| v.map(|v| v % 2 == 0)),
                ))
            }
            Expr::NotBoolean => column.clone(),
            Expr::Fails => return Err("cannot evaluate".to_string()),
            Expr::HalfNull => {
                let len = column.len();
                Arc::new(BooleanArray::new(
                    BooleanBuffer::new_set(len),
                    Some(NullBuffer::new_null(len)),
                ))
            }
        };
        Ok(Column { array })
    }
}

/// Finds the tag in decoded keys by its position, or by its id.
struct Codec {
    encoding: PrimaryKeyEncoding,
    fails: bool,
    decodes: Cell<usize>,
    asked: Cell<Option<Option<usize>>>,
}

impl Codec {
    fn new(encoding: PrimaryKeyEncoding) -> Self {
        Codec { encoding, fails: false, decodes: Cell::new(0), asked: Cell::new(None) }
    }

    fn dense() -> Self {
        Codec::new(PrimaryKeyEncoding::Dense)
    }
}

impl PrimaryKeyCodec<String> for Codec {
    type Decoded = usize;

    fn encoding(&self) -> PrimaryKeyEncoding {
        self.encoding
    }

    fn decode_primary_keys(&self, input: &Batch) -> Result<usize, String> {
        self.decodes.set(self.decodes.get() + 1);
        if self.fails {
            return Err("bad key".to_string());
        }
        Ok(input.batch.num_rows())
    }

    fn get_tag_column(
        &self,
        decoded: &usize,
        _column_id: u32,
        pk_index: Option<usize>,
        data_type: &DataType,
    ) -> Result<Arc<Column>, String> {
        self.asked.set(Some(pk_index));
        if *data_type != DataType::Int64 {
            return Err("unknown type".to_string());
        }
        Ok(column((0..*decoded as i64).collect()))
    }
}

fn column(values: Vec<i64>) -> Arc<Column> {
    Arc::new(Column { array: Arc::new(Int64Array::from(values)) })
}

fn batch(columns: &[(&str, Vec<i64>)]) -> Batch {
    let fields: Vec<Field> = columns
        .iter()
        .map(|(name, _)| Field::new(*name, DataType::Int64, true))
        .collect();
    let arrays: Vec<ArrayRef> = columns
        .iter()
        .map(|(_, values)| Arc::new(Int64Array::from(values.clone())) as ArrayRef)
        .collect();
    Batch { batch: RecordBatch::try_new(Arc::new(Schema::new(fields)), arrays).unwrap() }
}

fn metadata() -> RegionMetadata {
    let column = |column_id, semantic_type, data_type| ColumnMetadata {
        column_id,
        semantic_type,
        data_type,
    };
    RegionMetadata {
        column_metadatas: vec![
            column(HOST, SemanticType::Tag, DataType::Int64),
            column(CPU, SemanticType::Field, DataType::Int64),
            column(MEM, SemanticType::Field, DataType::Int64),
            column(TS, SemanticType::Timestamp, DataType::Int64),
        ],
        primary_key: vec![9, HOST],
    }
}

fn schema(names: &[&str]) -> Arc<Schema> {
    Arc::new(Schema::new(
        names
            .iter()
            .map(|name| Field::new(*name, DataType::Int64, true))
            .collect::<Vec<_>>(),
    ))
}

fn parquet(schema: &Schema) -> SchemaDescriptor {
    ArrowSchemaConverter::new().convert(schema).unwrap()
}

fn flat(names: &[&str], reads: usize, returns: &[u32]) -> ReadFormat {
    ReadFormat::Flat(FlatReadFormat {
        metadata: Arc::new(metadata()),
        arrow_schema: schema(names),
        projection_indices: (0..reads).collect(),
        column_id_to_projected_index: returns.iter().enumerate().map(|(i, id)| (*id, i)).collect(),
    })
}

fn any_format() -> ReadFormat {
    flat(&["host", "cpu", "mem", "ts"], 4, &[HOST, CPU, MEM, TS])
}

fn above(name: &str, column_id: u32, semantic_type: SemanticType, bound: i64) -> SimpleFilterContext<Above> {
    SimpleFilterContext {
        filter: MaybeFilter::Filter(SimpleFilter {
            column_name: name.to_string(),
            predicate: Above(bound),
        }),
        column_id,
        semantic_type,
    }
}

fn cpu_above(bound: i64) -> SimpleFilterContext<Above> {
    above("cpu", CPU, SemanticType::Field, bound)
}

fn known(filter: MaybeFilter<SimpleFilter<Above>>) -> SimpleFilterContext<Above> {
    SimpleFilterContext { filter, column_id: CPU, semantic_type: SemanticType::Field }
}

fn physical(name: &str, semantic_type: SemanticType, filter: MaybeFilter<Expr>) -> PhysicalFilterContext<Expr> {
    PhysicalFilterContext {
        filter,
        column_id: if semantic_type == SemanticType::Tag { HOST } else { CPU },
        semantic_type,
        column_name: name.to_string(),
        schema: schema(&[name]),
    }
}

fn apply(
    batch: &Batch,
    filters: &[SimpleFilterContext<Above>],
    physical_filters: &[PhysicalFilterContext<Expr>],
) -> Result<Option<Vec<bool>>, PrewhereError<String>> {
    apply_filters_to_batch(batch, filters, physical_filters, &any_format(), &Codec::dense(), false)
        .map(|mask| mask.map(|mask| mask.iter().collect()))
}

fn data() -> Batch {
    batch(&[("cpu", vec![1, 2, 3, 4]), ("mem", vec![4, 3, 2, 1])])
}

#[test]
fn test_should_use_prewhere() {
    let config = PrewhereConfig::default();

    // Should use: 1 prewhere column, 5 remaining, 6 total.
    assert!(should_use_prewhere(1, 5, 6, &config));

    // Should not use: 0 remaining columns.
    assert!(!should_use_prewhere(1, 0, 1, &config));

    // Should not use: less than min_remaining_columns.
    assert!(!should_use_prewhere(4, 1, 5, &config));

    // Should not use: ratio exceeds threshold.
    assert!(!should_use_prewhere(4, 3, 6, &config));

    // Should use: exactly at threshold.
    assert!(should_use_prewhere(3, 3, 6, &config));
}

#[test]
fn test_should_use_prewhere_disabled() {
    let config = PrewhereConfig {
        enable: false,
        ..Default::default()
    };

    // Even good conditions should return false when disabled.
    assert!(!config.enable);
}

#[test]
fn prewhere_is_never_used_when_switched_off() {
    let config = PrewhereConfig {
        enable: false,
        ..Default::default()
    };
    assert!(!should_use_prewhere(1, 5, 6, &config));
    assert!(!should_use_prewhere(3, 3, 6, &config));
}

#[test]
fn a_ratio_is_compared_exactly() {
    let third = ColumnRatio::new(1, 3);
    assert!(third.admits(1, 3));
    assert!(third.admits(333, 1000));
    assert!(!third.admits(334, 1000));
    assert!(!third.admits(0, 0));
    assert!(ColumnRatio::new(u64::MAX, 1).admits(usize::MAX, usize::MAX));
    assert!(!ColumnRatio::new(1, u64::MAX).admits(usize::MAX, usize::MAX - 1));
    assert_eq!(2, PrewhereConfig::default().min_remaining_columns);
    assert!(PrewhereConfig::default().column_ratio_threshold().admits(1, 2));
}

#[test]
fn a_filter_keeps_the_rows_that_match() {
    assert_eq!(
        Some(vec![false, false, true, true]),
        apply(&data(), &[cpu_above(2)], &[]).unwrap()
    );
}

#[test]
fn filters_are_combined() {
    let filters = [cpu_above(1), above("mem", MEM, SemanticType::Field, 1)];
    assert_eq!(Some(vec![false, true, true, false]), apply(&data(), &filters, &[]).unwrap());
    let even = physical("cpu", SemanticType::Field, MaybeFilter::Filter(Expr::Even));
    assert_eq!(Some(vec![false, true, false, false]), apply(&data(), &filters, &[even]).unwrap());
}

#[test]
fn no_filter_keeps_every_row() {
    assert_eq!(Some(vec![true; 4]), apply(&data(), &[], &[]).unwrap());
    assert_eq!(None, apply(&batch(&[("cpu", vec![])]), &[], &[]).unwrap());
}

#[test]
fn a_batch_without_a_matching_row_is_filtered_out() {
    assert_eq!(None, apply(&data(), &[cpu_above(4)], &[]).unwrap());
}

#[test]
fn a_matched_filter_keeps_every_row() {
    let matched = physical("cpu", SemanticType::Field, MaybeFilter::Matched);
    assert_eq!(
        Some(vec![true; 4]),
        apply(&data(), &[known(MaybeFilter::Matched)], &[matched]).unwrap()
    );
}

#[test]
fn a_pruned_filter_drops_every_row() {
    assert_eq!(None, apply(&data(), &[known(MaybeFilter::Pruned)], &[]).unwrap());
    let pruned = physical("cpu", SemanticType::Field, MaybeFilter::Pruned);
    let fails = physical("cpu", SemanticType::Field, MaybeFilter::Filter(Expr::Fails));
    assert_eq!(None, apply(&data(), &[cpu_above(0)], &[pruned, fails]).unwrap());
}

#[test]
fn field_filters_can_be_passed_over() {
    let format = any_format();
    let filters = [cpu_above(4), known(MaybeFilter::Matched)];
    let even = [physical("cpu", SemanticType::Field, MaybeFilter::Filter(Expr::Fails))];
    let mask = apply_filters_to_batch(&data(), &filters, &even, &format, &Codec::dense(), true);
    assert_eq!(BooleanBuffer::new_set(4), mask.unwrap().unwrap());
}

#[test]
fn a_filter_on_a_missing_field_is_skipped() {
    let filters = [above("disk", MEM, SemanticType::Field, 100)];
    let missing = physical("disk", SemanticType::Field, MaybeFilter::Filter(Expr::Even));
    assert_eq!(Some(vec![true; 4]), apply(&data(), &filters, &[missing]).unwrap());
}

#[test]
fn a_missing_field_is_as_if_it_had_no_filter() {
    let missing = || above("disk", MEM, SemanticType::Field, 100);
    let even = || physical("cpu", SemanticType::Field, MaybeFilter::Filter(Expr::Even));
    let gone = || physical("disk", SemanticType::Timestamp, MaybeFilter::Filter(Expr::Fails));
    assert_eq!(
        apply(&data(), &[cpu_above(1)], &[even()]).unwrap(),
        apply(&data(), &[missing(), cpu_above(1)], &[gone(), even()]).unwrap()
    );
}

#[test]
fn passing_over_fields_is_dropping_them() {
    let format = any_format();
    let run = |filters: &[SimpleFilterContext<Above>], skip_fields: bool| {
        let none: [PhysicalFilterContext<Expr>; 0] = [];
        apply_filters_to_batch(&data(), filters, &none, &format, &Codec::dense(), skip_fields)
            .unwrap()
            .map(|mask| mask.iter().collect::<Vec<bool>>())
    };
    let tag = || above("host", HOST, SemanticType::Tag, 1);
    let expected = Some(vec![false, false, true, true]);
    assert_eq!(expected, run(&[cpu_above(3), tag(), cpu_above(9)], true));
    assert_eq!(expected, run(&[tag()], false));
    // What is known of a field filter counts all the same.
    assert_eq!(None, run(&[tag(), known(MaybeFilter::Pruned)], true));
    assert_eq!(None, run(&[tag(), known(MaybeFilter::Pruned)], false));
}

#[test]
fn filters_keep_what_each_keeps_in_any_order() {
    let low = || cpu_above(1);
    let high = || above("mem", MEM, SemanticType::Field, 1);
    let rows = |filters: &[SimpleFilterContext<Above>]| {
        apply(&data(), filters, &[]).unwrap().unwrap_or(vec![false; 4])
    };
    let both: Vec<bool> =
        rows(&[low()]).iter().zip(rows(&[high()])).map(|(a, b)| *a && b).collect();
    assert_eq!(vec![false, true, true, false], both);
    assert_eq!(both, rows(&[low(), high()]));
    assert_eq!(both, rows(&[high(), low()]));
    assert_eq!(both, rows(&[high(), low(), high()]));
    // One of them drops everything.
    assert_eq!(vec![false; 4], rows(&[low(), cpu_above(9)]));
    assert_eq!(vec![false; 4], rows(&[known(MaybeFilter::Pruned), low()]));
}

#[test]
fn filters_without_a_column_are_reported() {
    let format = any_format();
    let filters = [
        above("disk", MEM, SemanticType::Field, 0),
        cpu_above(0),
        above("host", HOST, SemanticType::Tag, 0),
        above("rack", TS, SemanticType::Tag, 0),
        above("disk", TS, SemanticType::Timestamp, 0),
        known(MaybeFilter::Matched),
    ];
    let mut no_tag = physical("rack", SemanticType::Tag, MaybeFilter::Filter(Expr::Even));
    no_tag.column_id = 9;
    let physical_filters = [
        physical("disk", SemanticType::Field, MaybeFilter::Filter(Expr::Even)),
        physical("cpu", SemanticType::Field, MaybeFilter::Filter(Expr::Even)),
        no_tag,
        physical("disk", SemanticType::Field, MaybeFilter::Pruned),
        physical("disk", SemanticType::Field, MaybeFilter::Filter(Expr::Even)),
    ];
    let passed = passed_over_filters(&data(), &filters, &physical_filters, &format, false);
    assert_eq!(vec![0, 4], passed.filters);
    assert_eq!(vec![3], passed.tag_filters);
    assert_eq!(vec![0, 2], passed.physical_filters);

    let passed = passed_over_filters(&data(), &filters, &physical_filters, &format, true);
    assert_eq!(vec![4], passed.filters);
    assert_eq!(vec![3], passed.tag_filters);
    assert_eq!(vec![2], passed.physical_filters);

    let pruned = [known(MaybeFilter::Pruned), above("disk", MEM, SemanticType::Field, 0)];
    let passed = passed_over_filters(&data(), &pruned, &physical_filters, &format, false);
    assert!(passed.filters.is_empty() && passed.physical_filters.is_empty());
}

#[test]
fn a_physical_filter_reads_values_whatever_their_validity() {
    let nulls = physical("cpu", SemanticType::Field, MaybeFilter::Filter(Expr::HalfNull));
    assert_eq!(Some(vec![true; 4]), apply(&data(), &[], &[nulls]).unwrap());
}

#[test]
fn a_missing_tag_is_decoded_once() {
    let format = any_format();
    let codec = Codec::dense();
    let filters = [
        above("host", HOST, SemanticType::Tag, 0),
        above("host", HOST, SemanticType::Tag, 1),
    ];
    let even = [physical("host", SemanticType::Tag, MaybeFilter::Filter(Expr::Even))];
    let mask = apply_filters_to_batch(&data(), &filters, &even, &format, &codec, false)
        .unwrap()
        .unwrap();
    assert_eq!(vec![false, false, true, false], mask.iter().collect::<Vec<_>>());
    assert_eq!(1, codec.decodes.get());
    assert_eq!(Some(Some(1)), codec.asked.get());
}

#[test]
fn a_tag_that_is_no_tag_of_the_region_is_skipped() {
    let filters = [above("disk", TS, SemanticType::Tag, 100)];
    assert_eq!(Some(vec![true; 4]), apply(&data(), &filters, &[]).unwrap());
}

#[test]
fn filters_fail_with_their_errors() {
    let strings: ArrayRef = Arc::new(StringArray::from(vec!["a"]));
    let fields = vec![Field::new("cpu", DataType::Utf8, true)];
    let text = Batch {
        batch: RecordBatch::try_new(Arc::new(Schema::new(fields)), vec![strings]).unwrap(),
    };
    assert!(matches!(
        apply(&text, &[cpu_above(0)], &[]),
        Err(PrewhereError::RecordBatch { source }) if source == "not an integer column"
    ));

    let expr = |expr| [physical("cpu", SemanticType::Field, MaybeFilter::Filter(expr))];
    assert!(matches!(
        apply(&text, &[], &expr(Expr::Even)),
        Err(PrewhereError::NewRecordBatch { .. })
    ));
    assert!(matches!(
        apply(&data(), &[], &expr(Expr::Fails)),
        Err(PrewhereError::EvalPartitionFilter { source }) if source == "cannot evaluate"
    ));
    assert!(matches!(
        apply(&data(), &[], &expr(Expr::NotBoolean)),
        Err(PrewhereError::Unexpected { reason })
            if reason == "Failed to downcast physical filter result to BooleanArray"
    ));

    let codec = Codec { fails: true, ..Codec::dense() };
    let tag = [above("host", HOST, SemanticType::Tag, 0)];
    let none: [PhysicalFilterContext<Expr>; 0] = [];
    assert!(matches!(
        apply_filters_to_batch(&data(), &tag, &none, &any_format(), &codec, false),
        Err(PrewhereError::DecodeTag { source }) if source == "bad key"
    ));
}

#[test]
fn a_schema_with_other_fields_does_not_fit() {
    let mut filter = physical("cpu", SemanticType::Field, MaybeFilter::Filter(Expr::Even));
    filter.schema = schema(&["cpu", "mem"]);
    assert!(matches!(
        apply(&data(), &[], &[filter]),
        Err(PrewhereError::NewRecordBatch { .. })
    ));
}

#[test]
fn steps_of_answers() {
    let bits = BooleanBuffer::from_iter([true, false]);
    assert!(matches!(
        step_of_predicate::<String>(Ok(bits.clone())),
        FilterStep::Mask(mask) if mask == bits
    ));
    assert!(matches!(
        step_of_predicate(Err("no")),
        FilterStep::Fail(PrewhereError::RecordBatch { source: "no" })
    ));
    let answer: ArrayRef = Arc::new(BooleanArray::from(vec![true, false]));
    assert!(matches!(
        step_of_expression::<String>(Ok(Column { array: answer })),
        FilterStep::Mask(mask) if mask == bits
    ));
    assert!(matches!(
        step_of_expression(Err("no")),
        FilterStep::Fail(PrewhereError::EvalPartitionFilter { source: "no" })
    ));

    let mask = BooleanBuffer::from_iter([true, true]);
    assert_eq!(Some(bits.clone()), narrow::<String>(mask.clone(), FilterStep::Mask(bits)).unwrap());
    assert_eq!(Some(mask.clone()), narrow::<String>(mask.clone(), FilterStep::Skip).unwrap());
    assert_eq!(None, narrow::<String>(mask, FilterStep::Prune).unwrap());
}

#[test]
fn tags_are_decoded_and_kept() {
    let metadata = metadata();
    let codec = Codec::new(PrimaryKeyEncoding::Sparse);
    let mut state = TagDecodeState::new();
    let first = maybe_decode_tag_column(&metadata, HOST, &data(), &mut state, &codec).unwrap();
    let first = first.unwrap();
    assert_eq!(4, first.array.len());
    assert_eq!(Some(None), codec.asked.get());
    let again = maybe_decode_tag_column(&metadata, HOST, &data(), &mut state, &codec).unwrap();
    assert!(Arc::ptr_eq(&first, &again.unwrap()));
    assert_eq!(1, codec.decodes.get());
    let field = maybe_decode_tag_column(&metadata, CPU, &data(), &mut state, &codec).unwrap();
    assert!(field.is_none());
}

#[test]
fn a_tag_without_metadata_is_none() {
    let codec = Codec::dense();
    let mut state = TagDecodeState::new();
    let found = maybe_decode_tag_column(&metadata(), 9, &data(), &mut state, &codec).unwrap();
    assert!(found.is_none());
    assert_eq!(1, codec.decodes.get());
}

#[test]
fn a_tag_that_cannot_be_found_is_an_error() {
    let mut metadata = metadata();
    metadata.column_metadatas[0].data_type = DataType::Utf8;
    let codec = Codec::dense();
    let mut state = TagDecodeState::new();
    for _ in 0..2 {
        let found = maybe_decode_tag_column(&metadata, HOST, &data(), &mut state, &codec);
        assert_eq!("unknown type", found.unwrap_err());
    }
    assert_eq!(1, codec.decodes.get());
}

#[test]
fn columns_are_found_by_id() {
    let metadata = metadata();
    assert_eq!(Some(2), metadata.column_index_by_id(MEM));
    assert_eq!(None, metadata.column_index_by_id(9));
    assert_eq!(SemanticType::Timestamp, metadata.column_by_id(TS).unwrap().semantic_type);
    assert!(metadata.column_by_id(9).is_none());
    assert_eq!(Some(1), metadata.primary_key_index(HOST));
    assert_eq!(None, metadata.primary_key_index(CPU));
}

fn leaves(context: &PrewhereContext, count: usize) -> Vec<bool> {
    (0..count).map(|i| context.prewhere_projection_mask().leaf_included(i)).collect()
}

fn compute(
    filters: &[SimpleFilterContext<Above>],
    physical_filters: &[PhysicalFilterContext<Expr>],
    format: &ReadFormat,
    config: &PrewhereConfig,
    skip_fields: bool,
) -> Option<PrewhereContext> {
    let file = parquet(format.arrow_schema());
    PrewhereContext::compute(filters, physical_filters, format, &file, config, skip_fields)
}

#[test]
fn filter_columns_are_read_first() {
    let config = PrewhereConfig::default();
    let context = compute(&[cpu_above(0)], &[], &any_format(), &config, false).unwrap();
    assert_eq!(vec![false, true, false, false], leaves(&context, 4));

    let filters = [cpu_above(0), cpu_above(1)];
    let host = [physical("host", SemanticType::Tag, MaybeFilter::Filter(Expr::Even))];
    let context = compute(&filters, &host, &any_format(), &config, false).unwrap();
    assert_eq!(vec![true, true, false, false], leaves(&context, 4));
}

#[test]
fn prewhere_is_not_used_when_it_does_not_pay_off() {
    let config = PrewhereConfig::default();
    let off = PrewhereConfig { enable: false, ..config };
    let format = any_format();
    assert!(compute(&[cpu_above(0)], &[], &format, &off, false).is_none());
    assert!(compute(&[], &[], &format, &config, false).is_none());
    assert!(compute(&[known(MaybeFilter::Matched)], &[], &format, &config, false).is_none());
    assert!(compute(&[cpu_above(0)], &[], &format, &config, true).is_none());
    let unknown = above("cpu", 9, SemanticType::Field, 0);
    assert!(compute(&[unknown], &[], &format, &config, false).is_none());

    // All columns are filter columns.
    let filters = [cpu_above(0)];
    assert!(compute(&filters, &[], &flat(&["cpu"], 1, &[CPU]), &config, false).is_none());

    // Too few columns are left.
    let picky = PrewhereConfig { min_remaining_columns: 4, ..config };
    assert!(compute(&filters, &[], &format, &picky, false).is_none());

    // Too large a share is read first.
    let strict = PrewhereConfig { column_ratio_threshold: ColumnRatio::new(1, 5), ..config };
    assert!(compute(&filters, &[], &format, &strict, false).is_none());
}

#[test]
fn a_tag_without_a_column_needs_the_primary_key() {
    let format = ReadFormat::PrimaryKey(PrimaryKeyReadFormat {
        metadata: Arc::new(metadata()),
        arrow_schema: schema(&["cpu", "mem", "ts", "__primary_key"]),
        projection_indices: vec![0, 1, 2, 3],
        field_id_to_projected_index: HashMap::from([(CPU, 0), (MEM, 1)]),
    });
    let config = PrewhereConfig::default();
    let tag = [above("host", HOST, SemanticType::Tag, 0)];
    let context = compute(&tag, &[], &format, &config, false).unwrap();
    assert_eq!(vec![false, false, false, true], leaves(&context, 4));
    let context = compute(&tag, &[], &format, &config, true).unwrap();
    assert_eq!(vec![false, false, false, true], leaves(&context, 4));
    assert_eq!(4, format.projection_indices().len());
    assert_eq!(2, format.output_columns().len());
}

#[test]
fn a_nested_column_is_read_with_all_its_leaves() {
    let point = DataType::Struct(Fields::from(vec![
        Field::new("x", DataType::Int64, true),
        Field::new("y", DataType::Int64, true),
    ]));
    let schema = Schema::new(vec![
        Field::new("a", DataType::Int64, true),
        Field::new("point", point, true),
        Field::new("b", DataType::Int64, true),
    ]);
    let file = parquet(&schema);
    let names = vec!["b".to_string(), "point".to_string(), "b".to_string(), "c".to_string()];
    let (mask, count) = compute_projection_mask(&names, &schema, &file);
    assert_eq!(2, count);
    let included: Vec<bool> = (0..4).map(|i| mask.leaf_included(i)).collect();
    assert_eq!(vec![false, true, true, true], included);
}

#[test]
fn columns_that_the_file_lacks_are_refused() {
    let format = any_format();
    let config = PrewhereConfig::default();
    let off = PrewhereConfig { enable: false, ..config };
    let filters = [cpu_above(0)];
    let none: [PhysicalFilterContext<Expr>; 0] = [];
    let attempt = |names: &[&str], config: &PrewhereConfig| {
        let file = parquet(&schema(names));
        PrewhereContext::try_compute(&filters, &none, &format, &file, config, false)
    };
    // The filter column is not in the file.
    assert!(attempt(&["host"], &config).is_none());
    // It is, though others are not.
    let context = attempt(&["host", "cpu"], &config).unwrap().unwrap();
    assert_eq!(vec![false, true], leaves(&context, 2));
    // Nothing is looked at with prewhere switched off.
    assert!(attempt(&["host"], &off).unwrap().is_none());

    let names = vec!["cpu".to_string()];
    assert!(!projection_fits(&names, format.arrow_schema(), &parquet(&schema(&["host"]))));
    assert!(projection_fits(&names, format.arrow_schema(), &parquet(&schema(&["host", "cpu"]))));
}

fn runs(result: &PrewhereResult) -> Vec<(usize, bool)> {
    result.refined_selection().iter().map(|run| (run.row_count, !run.skip)).collect()
}

fn execute(
    batches: Vec<Result<Batch, String>>,
    selection: Option<RowSelection>,
    filters: &[SimpleFilterContext<Above>],
) -> Result<PrewhereResult, PrewhereError<String>> {
    let none: [PhysicalFilterContext<Expr>; 0] = [];
    execute_prewhere(
        batches,
        "file.parquet",
        selection,
        filters,
        &none,
        &any_format(),
        &Codec::dense(),
        false,
    )
}

fn cpu(values: Vec<i64>) -> Result<Batch, String> {
    Ok(batch(&[("cpu", values)]))
}

#[test]
fn batches_become_a_selection() {
    let batches = vec![cpu(vec![1, 5, 6]), cpu(vec![]), cpu(vec![1, 1]), cpu(vec![7, 1])];
    let result = execute(batches, None, &[cpu_above(4)]).unwrap();
    assert_eq!(vec![(1, false), (2, true), (2, false), (1, true), (1, false)], runs(&result));
    assert_eq!(4, result.filtered_rows());
}

#[test]
fn a_selection_is_refined() {
    let selection = RowSelection::from(vec![
        RowSelector::skip(10),
        RowSelector::select(2),
        RowSelector::skip(5),
        RowSelector::select(2),
        RowSelector::skip(1),
    ]);
    let batches = vec![cpu(vec![9, 1, 9, 9])];
    let result = execute(batches, Some(selection), &[cpu_above(4)]).unwrap();
    assert_eq!(vec![(10, false), (1, true), (6, false), (2, true), (1, false)], runs(&result));
    assert_eq!(1, result.filtered_rows());
    let selected = result.refined_selection().row_count();
    assert_eq!(4, selected + result.filtered_rows());
}

#[test]
fn where_every_row_passes_the_selection_stays() {
    let selection = RowSelection::from(vec![RowSelector::skip(3), RowSelector::select(2)]);
    let result = execute(vec![cpu(vec![8, 9])], Some(selection), &[cpu_above(4)]).unwrap();
    assert_eq!(vec![(3, false), (2, true)], runs(&result));
    assert_eq!(0, result.filtered_rows());
    let result = execute(vec![cpu(vec![8, 9])], None, &[cpu_above(4)]).unwrap();
    assert_eq!(vec![(2, true)], runs(&result));
}

#[test]
fn where_no_row_passes_nothing_is_selected() {
    let selection = RowSelection::from(vec![RowSelector::skip(3), RowSelector::select(2)]);
    let result = execute(vec![cpu(vec![1, 2])], Some(selection), &[cpu_above(4)]).unwrap();
    assert!(runs(&result).is_empty());
    assert_eq!(2, result.filtered_rows());
    let result = execute(vec![], None, &[cpu_above(4)]).unwrap();
    assert!(runs(&result).is_empty());
    assert_eq!(0, result.filtered_rows());
}

#[test]
fn the_first_failing_batch_ends_the_phase() {
    let batches = vec![cpu(vec![5]), Err("torn page".to_string()), cpu(vec![5])];
    assert!(matches!(
        execute(batches, None, &[cpu_above(4)]),
        Err(PrewhereError::ReadParquet { path, source })
            if path == "file.parquet" && source == "torn page"
    ));
    let strings: ArrayRef = Arc::new(StringArray::from(vec!["a"]));
    let fields = vec![Field::new("cpu", DataType::Utf8, true)];
    let text = Batch {
        batch: RecordBatch::try_new(Arc::new(Schema::new(fields)), vec![strings]).unwrap(),
    };
    let batches = vec![cpu(vec![5]), Ok(text), Err("torn page".to_string())];
    assert!(matches!(
        execute(batches, None, &[cpu_above(4)]),
        Err(PrewhereError::RecordBatch { .. })
    ));
}

#[test]
fn a_selection_of_other_rows_is_refused() {
    let none: [PhysicalFilterContext<Expr>; 0] = [];
    let attempt = |rows: usize, values: Vec<i64>| {
        try_execute_prewhere(
            vec![cpu(values)],
            "file.parquet",
            Some(RowSelection::from(vec![RowSelector::select(rows)])),
            &[cpu_above(4)],
            &none,
            &any_format(),
            &Codec::dense(),
            false,
        )
    };
    assert!(attempt(3, vec![5, 5]).is_none());
    assert!(attempt(1, vec![5, 5]).is_none());
    assert_eq!(1, attempt(2, vec![5, 1]).unwrap().unwrap().filtered_rows());
    assert_eq!(2, attempt(3, vec![1, 1]).unwrap().unwrap().filtered_rows());
}

#[test]
fn a_run_counts_its_rows() {
    let run = PrewhereRun::new().push(3, Some(BooleanBuffer::from_iter([true, false, true])));
    let run = run.push(0, None).push(2, None);
    assert!(run.has_room(usize::MAX - 5));
    assert!(!run.has_room(usize::MAX - 4));
    assert!(run.accepts(&None));
    assert!(run.accepts(&Some(RowSelection::from(vec![RowSelector::select(5)]))));
    assert!(!run.accepts(&Some(RowSelection::from(vec![RowSelector::select(4)]))));
    let result = run.finish(None);
    assert_eq!(3, result.filtered_rows());
    assert_eq!(vec![(1, true), (1, false), (1, true), (2, false)], runs(&result));
}

#[test]
fn a_run_takes_in_batches() {
    let format = any_format();
    let none: [PhysicalFilterContext<Expr>; 0] = [];
    let filters = [cpu_above(2)];
    let codec = Codec::dense();
    let run = PrewhereRun::new()
        .on_batch(&data(), &filters, &none, &format, &codec, false)
        .unwrap();
    let result = run.finish(None);
    assert_eq!(vec![(2, false), (2, true)], runs(&result));
}

#[test]
fn results_hold_what_they_are_made_of() {
    let result = PrewhereResult::new(RowSelection::from(vec![RowSelector::select(2)]), 7);
    assert_eq!(7, result.filtered_rows());
    assert_eq!(vec![(2, true)], runs(&result));
}
