//! The decision whether to read filter columns first, and which columns these are.
use crate::columnar::{column_with_name, schema_fields};
use crate::config::PrewhereConfig;
use crate::filter::{MaybeFilter, PhysicalFilterContext, SimpleFilterContext};
use crate::prewhere::apply::skips;
use crate::projection::{leaf_roots, leaves_of_roots, mask_leaves, num_roots, root_count, roots};
use crate::read_format::{ColumnId, ReadFormat, RegionMetadata, SemanticType};
use crate::search::{first_index, law_first_index, lemma_first_index};
use arrow::datatypes::Schema;
use parquet::arrow::ProjectionMask;
use parquet::schema::types::SchemaDescriptor;
use std::collections::HashMap;
use std::collections::HashSet;
use vstd::prelude::*;

verus! {

broadcast use vstd::std_specs::hash::group_hash_axioms;

/// The column that holds the encoded primary key.
pub const PRIMARY_KEY_COLUMN_NAME: &'static str = "__primary_key";

/// A column that a filter reads.
pub struct FilterColumn {
    pub column_id: ColumnId,
    pub semantic_type: SemanticType,
    pub name: Seq<char>,
}

/// The column that a filter reads, if it has to be evaluated at all: it is
/// neither matched nor pruned nor passed over, and the region has the column.
pub open spec fn column_of<F>(
    filter: MaybeFilter<F>,
    column_id: ColumnId,
    semantic_type: SemanticType,
    name: Seq<char>,
    metadata: RegionMetadata,
    skip_fields: bool,
) -> Option<FilterColumn> {
    if filter is Filter && !skips(skip_fields, semantic_type) && metadata.column_ids().contains(
        column_id,
    ) {
        Some(FilterColumn { column_id, semantic_type, name })
    } else {
        None
    }
}

/// The column that a simple filter reads.
pub open spec fn simple_column<F>(
    filter: SimpleFilterContext<F>,
    metadata: RegionMetadata,
    skip_fields: bool,
) -> Option<FilterColumn> {
    column_of(
        filter.filter,
        filter.column_id,
        filter.semantic_type,
        filter.filter->Filter_0.column_name@,
        metadata,
        skip_fields,
    )
}

/// The column that a physical filter reads.
pub open spec fn physical_column<P>(
    filter: PhysicalFilterContext<P>,
    metadata: RegionMetadata,
    skip_fields: bool,
) -> Option<FilterColumn> {
    column_of(
        filter.filter,
        filter.column_id,
        filter.semantic_type,
        filter.column_name@,
        metadata,
        skip_fields,
    )
}

/// The columns that filters read.
pub open spec fn filter_columns<F, P>(
    filters: Seq<SimpleFilterContext<F>>,
    physical_filters: Seq<PhysicalFilterContext<P>>,
    metadata: RegionMetadata,
    skip_fields: bool,
) -> Set<FilterColumn> {
    Set::new(
        |column: FilterColumn|
            {
                ||| exists|i: int|
                    0 <= i < filters.len() && #[trigger] simple_column(
                        filters[i],
                        metadata,
                        skip_fields,
                    ) == Some(column)
                ||| exists|i: int|
                    0 <= i < physical_filters.len() && #[trigger] physical_column(
                        physical_filters[i],
                        metadata,
                        skip_fields,
                    ) == Some(column)
            },
    )
}

/// The ids of filter columns.
pub open spec fn ids_of(columns: Set<FilterColumn>) -> Set<ColumnId> {
    Set::new(
        |id: ColumnId|
            exists|column: FilterColumn| #[trigger]
                columns.contains(column) && column.column_id == id,
    )
}

/// Whether the encoded primary key is needed: a filter reads a tag that the
/// file has no column for.
pub open spec fn needs_primary_key(columns: Set<FilterColumn>, fields: Seq<Seq<char>>) -> bool {
    exists|column: FilterColumn| #[trigger]
        columns.contains(column) && column.semantic_type == SemanticType::Tag && !fields.contains(
            column.name,
        )
}

/// The names of the columns to read for filter columns.
pub open spec fn names_of(columns: Set<FilterColumn>, fields: Seq<Seq<char>>) -> Set<Seq<char>> {
    Set::new(
        |name: Seq<char>|
            {
                ||| exists|column: FilterColumn| #[trigger]
                    columns.contains(column) && column.name == name
                ||| needs_primary_key(columns, fields) && name == PRIMARY_KEY_COLUMN_NAME@
            },
    )
}

/// The positions of the first field of each name.
pub open spec fn positions_of(names: Set<Seq<char>>, fields: Seq<Seq<char>>) -> Set<usize> {
    Set::new(
        |i: usize|
            i < fields.len() && names.contains(fields[i as int]) && first_index(
                fields,
                fields[i as int],
            ) == Some(i as int),
    )
}

/// The names in a list.
pub open spec fn name_set(names: Seq<String>) -> Set<Seq<char>> {
    Set::new(|name: Seq<char>| exists|i: int| 0 <= i < names.len() && #[trigger] names[i]@ == name)
}

/// The positions in the file of the columns that the prewhere phase reads.
pub open spec fn prewhere_positions<F, P>(
    filters: Seq<SimpleFilterContext<F>>,
    physical_filters: Seq<PhysicalFilterContext<P>>,
    read_format: ReadFormat,
    skip_fields: bool,
) -> Set<usize> {
    let fields = schema_fields(read_format.spec_arrow_schema());
    let columns = filter_columns(
        filters,
        physical_filters,
        read_format.spec_metadata(),
        skip_fields,
    );
    positions_of(names_of(columns, fields), fields)
}

/// The number of columns that are left to read after the prewhere phase: those
/// that the scan reads, without the filter columns that it returns.
pub open spec fn remaining_columns<F, P>(
    filters: Seq<SimpleFilterContext<F>>,
    physical_filters: Seq<PhysicalFilterContext<P>>,
    read_format: ReadFormat,
    skip_fields: bool,
) -> nat {
    let columns = filter_columns(
        filters,
        physical_filters,
        read_format.spec_metadata(),
        skip_fields,
    );
    let total = read_format.spec_projection_indices().len();
    let repeated = read_format.spec_output_columns().dom().intersect(ids_of(columns)).len();
    if repeated <= total {
        (total - repeated) as nat
    } else {
        0
    }
}

/// Whether prewhere pays off: it is switched on, columns are left to read, at
/// least as many as configured, and the columns to read first are a small enough
/// share.
pub open spec fn pays_off(
    prewhere_count: nat,
    remaining_count: nat,
    total_count: nat,
    config: PrewhereConfig,
) -> bool {
    &&& config.enable
    &&& remaining_count > 0
    &&& remaining_count >= config.min_remaining_columns
    &&& config.column_ratio_threshold.spec_admits(prewhere_count, total_count)
}

/// Whether a scan uses the prewhere phase.
pub open spec fn uses_prewhere<F, P>(
    filters: Seq<SimpleFilterContext<F>>,
    physical_filters: Seq<PhysicalFilterContext<P>>,
    read_format: ReadFormat,
    config: PrewhereConfig,
    skip_fields: bool,
) -> bool {
    let count = prewhere_positions(filters, physical_filters, read_format, skip_fields).len();
    &&& count > 0
    &&& pays_off(
        count,
        remaining_columns(filters, physical_filters, read_format, skip_fields),
        read_format.spec_projection_indices().len(),
        config,
    )
}

/// Determines whether prewhere optimization should be used based on heuristics.
pub fn should_use_prewhere(
    prewhere_count: usize,
    remaining_count: usize,
    total_count: usize,
    config: &PrewhereConfig,
) -> (used: bool)
    ensures
        used == pays_off(
            prewhere_count as nat,
            remaining_count as nat,
            total_count as nat,
            *config,
        ),
        used <==> config.enable && remaining_count > 0 && remaining_count
            >= config.min_remaining_columns && total_count > 0 && prewhere_count
            * config.column_ratio_threshold.spec_denominator()
            <= config.column_ratio_threshold.spec_numerator() * total_count,
{
    // Must be switched on.
    if !config.enable {
        return false;
    }
    // Must have remaining columns.

    if remaining_count == 0 {
        return false;
    }
    // Check minimum remaining columns threshold.

    if remaining_count < config.min_remaining_columns {
        return false;
    }
    // Check column ratio threshold.

    config.column_ratio_threshold().admits(prewhere_count, total_count)
}

/// Whether a list of positions holds a position.
fn holds(positions: &Vec<usize>, position: usize) -> (held: bool)
    ensures
        held == positions@.contains(position),
{
    let mut i: usize = 0;
    while i < positions.len()
        invariant
            i <= positions@.len(),
            forall|j: int| 0 <= j < i ==> positions@[j] != position,
        decreases positions@.len() - i,
    {
        if positions[i] == position {
            return true;
        }
        i += 1;
    }
    false
}

/// Finds the positions of columns by their names.
fn column_positions(column_names: &Vec<String>, arrow_schema: &Schema) -> (indices: Vec<usize>)
    ensures
        indices@.no_duplicates(),
        indices@.to_set() == positions_of(name_set(column_names@), schema_fields(*arrow_schema)),
{
    let ghost fields = schema_fields(*arrow_schema);
    let ghost all = name_set(column_names@);
    let mut indices: Vec<usize> = Vec::new();
    let mut i: usize = 0;
    while i < column_names.len()
        invariant
            i <= column_names@.len(),
            fields == schema_fields(*arrow_schema),
            indices@.no_duplicates(),
            forall|p: usize| #[trigger]
                indices@.contains(p) <==> positions_of(
                    name_set(column_names@.take(i as int)),
                    fields,
                ).contains(p),
        decreases column_names@.len() - i,
    {
        let ghost before = name_set(column_names@.take(i as int));
        let ghost after = name_set(column_names@.take(i + 1));
        let ghost name = column_names@[i as int]@;
        let ghost old_indices = indices@;
        proof {
            lemma_first_index(fields, name);
            assert forall|n: Seq<char>| #[trigger] after.contains(n) <==> before.contains(n) || n
                == name by {
                let shorter = column_names@.take(i as int);
                let longer = column_names@.take(i + 1);
                if before.contains(n) {
                    let j = choose|j: int| 0 <= j < shorter.len() && #[trigger] shorter[j]@ == n;
                    assert(longer[j]@ == n);
                }
                if n == name {
                    assert(longer[i as int]@ == n);
                }
                if after.contains(n) && n != name {
                    let j = choose|j: int| 0 <= j < longer.len() && #[trigger] longer[j]@ == n;
                    assert(shorter[j]@ == n);
                }
            }
        }
        if let Some(index) = column_with_name(arrow_schema, column_names[i].as_str()) {
            if !holds(&indices, index) {
                indices.push(index);
                proof {
                    assert forall|p: usize| #[trigger] indices@.contains(p) <==> (
                    old_indices.contains(p) || p == index) by {
                        if old_indices.contains(p) {
                            let j = choose|j: int| 0 <= j < old_indices.len() && old_indices[j] == p;
                            assert(indices@[j] == p);
                        }
                        assert(indices@[old_indices.len() as int] == index);
                    }
                }
            }
            assert(fields[index as int] == name);
        }
        proof {
            assert forall|p: usize| #[trigger] indices@.contains(p) <==> positions_of(
                after,
                fields,
            ).contains(p) by {
                assert(old_indices.contains(p) <==> positions_of(before, fields).contains(p));
                if p < fields.len() {
                    let n = fields[p as int];
                    assert(after.contains(n) <==> before.contains(n) || n == name);
                    assert(fields.contains(n));
                }
            }
        }
        i += 1;
    }
    proof {
        assert(column_names@.take(column_names@.len() as int) =~= column_names@);
        assert(indices@.to_set() =~= positions_of(all, fields));
    }
    indices
}

/// Whether a set of positions lies within the root columns of a file.
pub open spec fn positions_fit(positions: Set<usize>, roots: nat) -> bool {
    forall|i: usize| #[trigger] positions.contains(i) ==> i < roots
}

/// Returns whether the columns of given names are root columns of the file.
pub fn projection_fits(
    column_names: &Vec<String>,
    arrow_schema: &Schema,
    parquet_schema: &SchemaDescriptor,
) -> (fits: bool)
    ensures
        fits == positions_fit(
            positions_of(name_set(column_names@), schema_fields(*arrow_schema)),
            root_count(*parquet_schema),
        ),
        !fits <==> exists|p: usize| #[trigger]
            positions_of(name_set(column_names@), schema_fields(*arrow_schema)).contains(p) && p
                >= root_count(*parquet_schema),
{
    let indices = column_positions(column_names, arrow_schema);
    let count = num_roots(parquet_schema);
    let mut i: usize = 0;
    while i < indices.len()
        invariant
            i <= indices@.len(),
            indices@.to_set() == positions_of(
                name_set(column_names@),
                schema_fields(*arrow_schema),
            ),
            count == root_count(*parquet_schema),
            forall|j: int| 0 <= j < i ==> #[trigger] indices@[j] < count,
        decreases indices@.len() - i,
    {
        if indices[i] >= count {
            assert(indices@.to_set().contains(indices@[i as int]));
            return false;
        }
        i += 1;
    }
    proof {
        assert forall|p: usize| #[trigger] indices@.to_set().contains(p) implies p < count by {
            let j = choose|j: int| 0 <= j < indices@.len() && indices@[j] == p;
            assert(indices@[j] < count);
        }
    }
    true
}

/// Computes the projection mask and the number of columns for given column names.
pub fn compute_projection_mask(
    column_names: &Vec<String>,
    arrow_schema: &Schema,
    parquet_schema: &SchemaDescriptor,
) -> (projection: (ProjectionMask, usize))
    requires
        positions_fit(
            positions_of(name_set(column_names@), schema_fields(*arrow_schema)),
            root_count(*parquet_schema),
        ),
    ensures
        mask_leaves(projection.0) == Some(
            leaves_of_roots(
                leaf_roots(*parquet_schema),
                positions_of(name_set(column_names@), schema_fields(*arrow_schema)),
            ),
        ),
        projection.1 == positions_of(
            name_set(column_names@),
            schema_fields(*arrow_schema),
        ).len(),
        mask_leaves(projection.0) matches Some(leaves) && leaves.len() == leaf_roots(
            *parquet_schema,
        ).len() && forall|leaf: int|
            0 <= leaf < leaves.len() ==> (#[trigger] leaves[leaf] <==> positions_of(
                name_set(column_names@),
                schema_fields(*arrow_schema),
            ).contains(leaf_roots(*parquet_schema)[leaf])),
{
    let indices = column_positions(column_names, arrow_schema);
    proof {
        indices@.unique_seq_to_set();
        assert forall|j: int| 0 <= j < indices@.len() implies #[trigger] indices@[j] < root_count(
            *parquet_schema,
        ) by {
            assert(indices@.to_set().contains(indices@[j]));
        }
    }
    (roots(parquet_schema, &indices), indices.len())
}

/// Counts the columns that are among `ids`.
fn count_among(columns: &HashMap<ColumnId, usize>, ids: &HashSet<ColumnId>) -> (count: usize)
    ensures
        count == columns@.dom().intersect(ids@).len(),
{
    let len = columns.len();
    let mut count: usize = 0;
    let ghost mut seen: Set<ColumnId> = Set::empty();
    assert(seen.intersect(ids@) =~= Set::empty());
    for id in keys: columns.keys()
        invariant
            count == seen.intersect(ids@).len(),
            count <= keys.index(),
            keys.seq().len() == len,
            len == columns@.dom().len(),
            keys.seq().no_duplicates(),
            keys.seq().unref().to_set() == columns@.dom(),
            seen.finite(),
            seen.len() == keys.index(),
            seen.subset_of(columns@.dom()),
            forall|k: ColumnId| #[trigger]
                seen.contains(k) ==> exists|j: int|
                    0 <= j < keys.index() && *(#[trigger] keys.seq()[j]) == k,
    {
        assert(keys.seq().unref()[keys.index()] == *id);
        assert(keys.seq().unref().to_set().contains(*id));
        if ids.contains(id) {
            assert(seen.insert(*id).intersect(ids@) =~= seen.intersect(ids@).insert(*id));
            count += 1;
        } else {
            assert(seen.insert(*id).intersect(ids@) =~= seen.intersect(ids@));
        }
        proof {
            seen = seen.insert(*id);
        }
    }
    proof {
        vstd::set_lib::lemma_subset_equality(seen, columns@.dom());
    }
    count
}

/// What the filters looked at so far read.
struct PrewhereColumns {
    ids: HashSet<ColumnId>,
    names: Vec<String>,
    needs_primary_key: bool,
}

impl PrewhereColumns {
    /// Whether this is what a set of filter columns comes to.
    spec fn describes(self, columns: Set<FilterColumn>, fields: Seq<Seq<char>>) -> bool {
        &&& self.ids@ == ids_of(columns)
        &&& forall|name: Seq<char>| #[trigger]
            name_set(self.names@).contains(name) <==> exists|column: FilterColumn| #[trigger]
                columns.contains(column) && column.name == name
        &&& self.needs_primary_key == needs_primary_key(columns, fields)
    }

    fn new() -> (columns: Self)
        ensures
            forall|fields: Seq<Seq<char>>| #[trigger]
                columns.describes(Set::empty(), fields),
    {
        let columns = PrewhereColumns {
            ids: HashSet::new(),
            names: Vec::new(),
            needs_primary_key: false,
        };
        assert(columns.ids@ =~= ids_of(Set::empty()));
        columns
    }

    /// Adds a filter column.
    fn add_column(
        &mut self,
        column_id: ColumnId,
        semantic_type: SemanticType,
        name: &str,
        arrow_schema: &Schema,
        Ghost(columns): Ghost<Set<FilterColumn>>,
    )
        requires
            old(self).describes(columns, schema_fields(*arrow_schema)),
        ensures
            final(self).describes(
                columns.insert(FilterColumn { column_id, semantic_type, name: name@ }),
                schema_fields(*arrow_schema),
            ),
    {
        let ghost fields = schema_fields(*arrow_schema);
        let ghost column = FilterColumn { column_id, semantic_type, name: name@ };
        let ghost longer = columns.insert(column);
        let ghost old_names = self.names@;
        let ghost old_ids = self.ids@;
        let ghost old_needs = self.needs_primary_key;
        self.ids.insert(column_id);
        self.names.push(name.to_owned());
        proof {
            lemma_first_index(fields, name@);
            assert(longer.contains(column));
            assert forall|c: FilterColumn| #[trigger] columns.contains(c) implies longer.contains(
                c,
            ) by {}
            assert forall|id: ColumnId| #[trigger] self.ids@.contains(id) <==> ids_of(
                longer,
            ).contains(id) by {
                if old_ids.contains(id) {
                    assert(ids_of(columns).contains(id));
                    let c = choose|c: FilterColumn| #[trigger]
                        columns.contains(c) && c.column_id == id;
                    assert(longer.contains(c));
                }
                if ids_of(longer).contains(id) && id != column_id {
                    let c = choose|c: FilterColumn| #[trigger]
                        longer.contains(c) && c.column_id == id;
                    assert(columns.contains(c));
                    assert(ids_of(columns).contains(id));
                }
            }
            assert(self.ids@ =~= ids_of(longer));
            assert forall|n: Seq<char>| #[trigger]
                name_set(self.names@).contains(n) <==> exists|c: FilterColumn| #[trigger]
                    longer.contains(c) && c.name == n by {
                if name_set(self.names@).contains(n) {
                    let j = choose|j: int| 0 <= j < self.names@.len() && #[trigger] self.names@[j]@
                        == n;
                    if j < old_names.len() {
                        assert(old_names[j]@ == n);
                        assert(name_set(old_names).contains(n));
                        let c = choose|c: FilterColumn| #[trigger]
                            columns.contains(c) && c.name == n;
                        assert(longer.contains(c));
                    }
                }
                if exists|c: FilterColumn| #[trigger] longer.contains(c) && c.name == n {
                    let c = choose|c: FilterColumn| #[trigger] longer.contains(c) && c.name == n;
                    if c == column {
                        assert(self.names@[old_names.len() as int]@ == n);
                    } else {
                        assert(columns.contains(c));
                        assert(name_set(old_names).contains(n));
                        let j = choose|j: int| 0 <= j < old_names.len() && #[trigger] old_names[j]@
                            == n;
                        assert(self.names@[j]@ == n);
                    }
                }
            }
        }
        if semantic_type == SemanticType::Tag && column_with_name(arrow_schema, name).is_none() {
            self.needs_primary_key = true;
        }
        proof {
            if needs_primary_key(longer, fields) {
                let c = choose|c: FilterColumn| #[trigger]
                    longer.contains(c) && c.semantic_type == SemanticType::Tag && !fields.contains(
                        c.name,
                    );
                if c != column {
                    assert(columns.contains(c));
                }
            }
        }
    }
}

/// The columns that the first filters of a list read.
spec fn simple_prefix<F>(
    filters: Seq<SimpleFilterContext<F>>,
    metadata: RegionMetadata,
    skip_fields: bool,
    n: int,
    column: FilterColumn,
) -> bool {
    exists|i: int|
        0 <= i < n && #[trigger] simple_column(filters[i], metadata, skip_fields) == Some(column)
}

/// The columns that the first physical filters of a list read.
spec fn physical_prefix<P>(
    filters: Seq<PhysicalFilterContext<P>>,
    metadata: RegionMetadata,
    skip_fields: bool,
    n: int,
    column: FilterColumn,
) -> bool {
    exists|i: int|
        0 <= i < n && #[trigger] physical_column(filters[i], metadata, skip_fields) == Some(column)
}

/// Context for prewhere optimization.
///
/// Contains information about which columns are needed for filtering (prewhere).
#[derive(Debug)]
pub struct PrewhereContext {
    /// Projection mask for reading prewhere columns.
    prewhere_projection_mask: ProjectionMask,
}

impl PrewhereContext {
    /// The mask of the columns that the prewhere phase reads.
    pub closed spec fn mask(self) -> ProjectionMask {
        self.prewhere_projection_mask
    }

    /// Computes the prewhere context like [`PrewhereContext::compute`], and
    /// gives `None` where prewhere is switched on and one of the columns to read
    /// first is no root column of the parquet schema.
    pub fn try_compute<F, P>(
        filters: &[SimpleFilterContext<F>],
        physical_filters: &[PhysicalFilterContext<P>],
        read_format: &ReadFormat,
        parquet_schema: &SchemaDescriptor,
        config: &PrewhereConfig,
        skip_fields: bool,
    ) -> (context: Option<Option<Self>>)
        ensures
            context is None <==> config.enable && !positions_fit(
                prewhere_positions(filters@, physical_filters@, *read_format, skip_fields),
                root_count(*parquet_schema),
            ),
            context is None <==> config.enable && exists|p: usize| #[trigger]
                prewhere_positions(
                    filters@,
                    physical_filters@,
                    *read_format,
                    skip_fields,
                ).contains(p) && p >= root_count(*parquet_schema),
            context matches Some(context) ==> {
                &&& context is Some <==> uses_prewhere(
                    filters@,
                    physical_filters@,
                    *read_format,
                    *config,
                    skip_fields,
                )
                &&& context matches Some(c) ==> mask_leaves(c.mask()) == Some(
                    leaves_of_roots(
                        leaf_roots(*parquet_schema),
                        prewhere_positions(filters@, physical_filters@, *read_format, skip_fields),
                    ),
                )
            },
    {
        if !config.enable {
            return Some(None);
        }
        // Collect column IDs and names that are used in filters.

        let metadata = read_format.metadata();
        let arrow_schema = read_format.arrow_schema();
        let ghost fields = schema_fields(read_format.spec_arrow_schema());
        let ghost mut columns: Set<FilterColumn> = Set::empty();
        let mut prewhere_columns = PrewhereColumns::new();

        let mut i: usize = 0;
        while i < filters.len()
            invariant
                i <= filters@.len(),
                *metadata == read_format.spec_metadata(),
                fields == schema_fields(**arrow_schema),
                prewhere_columns.describes(columns, fields),
                forall|column: FilterColumn| #[trigger]
                    columns.contains(column) <==> simple_prefix(
                        filters@,
                        *metadata,
                        skip_fields,
                        i as int,
                        column,
                    ),
            decreases filters@.len() - i,
        {
            let filter_ctx = &filters[i];
            let ghost before = columns;
            if let MaybeFilter::Filter(filter) = &filter_ctx.filter {
                if !(skip_fields && filter_ctx.semantic_type == SemanticType::Field)
                    && metadata.column_by_id(filter_ctx.column_id).is_some() {
                    prewhere_columns.add_column(
                        filter_ctx.column_id,
                        filter_ctx.semantic_type,
                        filter.column_name.as_str(),
                        arrow_schema,
                        Ghost(columns),
                    );
                    proof {
                        columns =
                        columns.insert(
                            FilterColumn {
                                column_id: filter_ctx.column_id,
                                semantic_type: filter_ctx.semantic_type,
                                name: filter.column_name@,
                            },
                        );
                    }
                }
            }
            proof {
                let added = simple_column(filters@[i as int], *metadata, skip_fields);
                assert forall|column: FilterColumn| #[trigger]
                    columns.contains(column) <==> simple_prefix(
                        filters@,
                        *metadata,
                        skip_fields,
                        i + 1,
                        column,
                    ) by {
                    assert(before.contains(column) <==> simple_prefix(
                        filters@,
                        *metadata,
                        skip_fields,
                        i as int,
                        column,
                    ));
                    if added == Some(column) {
                        assert(simple_column(filters@[i as int], *metadata, skip_fields) == Some(
                            column,
                        ));
                    }
                }
            }
            i += 1;
        }

        let mut k: usize = 0;
        while k < physical_filters.len()
            invariant
                k <= physical_filters@.len(),
                *metadata == read_format.spec_metadata(),
                fields == schema_fields(**arrow_schema),
                prewhere_columns.describes(columns, fields),
                forall|column: FilterColumn| #[trigger]
                    columns.contains(column) <==> simple_prefix(
                        filters@,
                        *metadata,
                        skip_fields,
                        filters@.len() as int,
                        column,
                    ) || physical_prefix(
                        physical_filters@,
                        *metadata,
                        skip_fields,
                        k as int,
                        column,
                    ),
            decreases physical_filters@.len() - k,
        {
            let filter_ctx = &physical_filters[k];
            let ghost before = columns;
            if let MaybeFilter::Filter(_) = &filter_ctx.filter {
                if !(skip_fields && filter_ctx.semantic_type == SemanticType::Field)
                    && metadata.column_by_id(filter_ctx.column_id).is_some() {
                    prewhere_columns.add_column(
                        filter_ctx.column_id,
                        filter_ctx.semantic_type,
                        filter_ctx.column_name.as_str(),
                        arrow_schema,
                        Ghost(columns),
                    );
                    proof {
                        columns =
                        columns.insert(
                            FilterColumn {
                                column_id: filter_ctx.column_id,
                                semantic_type: filter_ctx.semantic_type,
                                name: filter_ctx.column_name@,
                            },
                        );
                    }
                }
            }
            proof {
                let added = physical_column(physical_filters@[k as int], *metadata, skip_fields);
                assert forall|column: FilterColumn| #[trigger]
                    columns.contains(column) <==> simple_prefix(
                        filters@,
                        *metadata,
                        skip_fields,
                        filters@.len() as int,
                        column,
                    ) || physical_prefix(
                        physical_filters@,
                        *metadata,
                        skip_fields,
                        k + 1,
                        column,
                    ) by {
                    assert(before.contains(column) <==> simple_prefix(
                        filters@,
                        *metadata,
                        skip_fields,
                        filters@.len() as int,
                        column,
                    ) || physical_prefix(
                        physical_filters@,
                        *metadata,
                        skip_fields,
                        k as int,
                        column,
                    ));
                    if added == Some(column) {
                        assert(physical_column(
                            physical_filters@[k as int],
                            *metadata,
                            skip_fields,
                        ) == Some(column));
                    }
                }
            }
            k += 1;
        }
        assert(columns =~= filter_columns(filters@, physical_filters@, *metadata, skip_fields));

        let PrewhereColumns { ids: prewhere_column_ids, names, needs_primary_key } =
            prewhere_columns;
        let mut prewhere_column_names = names;
        let ghost filter_names = prewhere_column_names@;
        if needs_primary_key {
            prewhere_column_names.push(PRIMARY_KEY_COLUMN_NAME.to_owned());
        }
        proof {
            let all = name_set(prewhere_column_names@);
            assert forall|name: Seq<char>| #[trigger] all.contains(name) <==> names_of(
                columns,
                fields,
            ).contains(name) by {
                if name_set(filter_names).contains(name) {
                    let j = choose|j: int|
                        0 <= j < filter_names.len() && #[trigger] filter_names[j]@ == name;
                    assert(prewhere_column_names@[j]@ == name);
                }
                if needs_primary_key {
                    assert(prewhere_column_names@[filter_names.len() as int]@
                        == PRIMARY_KEY_COLUMN_NAME@);
                }
                if all.contains(name) {
                    let j = choose|j: int|
                        0 <= j < prewhere_column_names@.len()
                            && #[trigger] prewhere_column_names@[j]@ == name;
                    if j < filter_names.len() {
                        assert(filter_names[j]@ == name);
                        assert(name_set(filter_names).contains(name));
                    }
                }
            }
            assert(all =~= names_of(columns, fields));
            assert(positions_of(all, fields) == prewhere_positions(
                filters@,
                physical_filters@,
                *read_format,
                skip_fields,
            ));
        }
        let repeat_read_count = count_among(read_format.output_columns(), &prewhere_column_ids);
        if !projection_fits(&prewhere_column_names, arrow_schema, parquet_schema) {
            return None;
        }
        let (prewhere_projection_mask, prewhere_count) = compute_projection_mask(
            &prewhere_column_names,
            arrow_schema,
            parquet_schema,
        );

        if prewhere_count == 0 {
            return Some(None);
        }
        // Apply heuristics to decide if prewhere is beneficial.

        let total_count = read_format.projection_indices().len();
        let remaining_count = if repeat_read_count <= total_count {
            total_count - repeat_read_count
        } else {
            0
        };
        if !should_use_prewhere(prewhere_count, remaining_count, total_count, config) {
            return Some(None);
        }
        Some(Some(PrewhereContext { prewhere_projection_mask }))
    }

    /// Computes the prewhere context from filters and read format.
    ///
    /// Returns `None` if prewhere optimization should not be used (e.g., no filters,
    /// all columns are filter columns, or heuristics suggest it's not beneficial).
    pub fn compute<F, P>(
        filters: &[SimpleFilterContext<F>],
        physical_filters: &[PhysicalFilterContext<P>],
        read_format: &ReadFormat,
        parquet_schema: &SchemaDescriptor,
        config: &PrewhereConfig,
        skip_fields: bool,
    ) -> (context: Option<Self>)
        requires
            config.enable ==> positions_fit(
                prewhere_positions(filters@, physical_filters@, *read_format, skip_fields),
                root_count(*parquet_schema),
            ),
        ensures
            context is Some <==> uses_prewhere(
                filters@,
                physical_filters@,
                *read_format,
                *config,
                skip_fields,
            ),
            context matches Some(c) ==> mask_leaves(c.mask()) == Some(
                leaves_of_roots(
                    leaf_roots(*parquet_schema),
                    prewhere_positions(filters@, physical_filters@, *read_format, skip_fields),
                ),
            ),
            context matches Some(c) ==> (mask_leaves(c.mask()) matches Some(leaves) && leaves.len()
                == leaf_roots(*parquet_schema).len() && forall|leaf: int|
                0 <= leaf < leaves.len() ==> (#[trigger] leaves[leaf] <==> prewhere_positions(
                    filters@,
                    physical_filters@,
                    *read_format,
                    skip_fields,
                ).contains(leaf_roots(*parquet_schema)[leaf]))),
    {
        PrewhereContext::try_compute(
            filters,
            physical_filters,
            read_format,
            parquet_schema,
            config,
            skip_fields,
        ).unwrap()
    }

    /// Returns the projection mask for prewhere columns.
    pub fn prewhere_projection_mask(&self) -> (mask: &ProjectionMask)
        ensures
            *mask == self.mask(),
    {
        &self.prewhere_projection_mask
    }
}

/// A scan with prewhere switched off does not use it.
pub proof fn law_disabled_is_not_used<F, P>(
    filters: Seq<SimpleFilterContext<F>>,
    physical_filters: Seq<PhysicalFilterContext<P>>,
    read_format: ReadFormat,
    config: PrewhereConfig,
    skip_fields: bool,
)
    requires
        !config.enable,
    ensures
        !uses_prewhere(filters, physical_filters, read_format, config, skip_fields),
{
}

/// A scan without filters does not use prewhere.
pub proof fn law_no_filters_no_prewhere<F, P>(
    filters: Seq<SimpleFilterContext<F>>,
    physical_filters: Seq<PhysicalFilterContext<P>>,
    read_format: ReadFormat,
    config: PrewhereConfig,
    skip_fields: bool,
)
    requires
        filters.len() == 0,
        physical_filters.len() == 0,
    ensures
        !uses_prewhere(filters, physical_filters, read_format, config, skip_fields),
{
    let fields = schema_fields(read_format.spec_arrow_schema());
    let columns = filter_columns(
        filters,
        physical_filters,
        read_format.spec_metadata(),
        skip_fields,
    );
    assert(columns =~= Set::<FilterColumn>::empty());
    assert(names_of(columns, fields) =~= Set::<Seq<char>>::empty());
    assert(prewhere_positions(filters, physical_filters, read_format, skip_fields) =~= Set::<
        usize,
    >::empty());
}

/// A scan that reads no other columns than filter columns, which it returns,
/// does not use prewhere.
pub proof fn law_all_filter_columns_no_prewhere<F, P>(
    filters: Seq<SimpleFilterContext<F>>,
    physical_filters: Seq<PhysicalFilterContext<P>>,
    read_format: ReadFormat,
    config: PrewhereConfig,
    skip_fields: bool,
)
    requires
        read_format.spec_output_columns().dom().subset_of(
            ids_of(
                filter_columns(
                    filters,
                    physical_filters,
                    read_format.spec_metadata(),
                    skip_fields,
                ),
            ),
        ),
        read_format.spec_projection_indices().len() <= read_format.spec_output_columns().dom().len(),
    ensures
        remaining_columns(filters, physical_filters, read_format, skip_fields) == 0,
        !uses_prewhere(filters, physical_filters, read_format, config, skip_fields),
{
    let ids = ids_of(
        filter_columns(filters, physical_filters, read_format.spec_metadata(), skip_fields),
    );
    let output = read_format.spec_output_columns().dom();
    assert(output.intersect(ids) =~= output);
}

/// The prewhere phase reads every column that its filters read and that the
/// file has, and for a tag that the file has no column for the encoded primary
/// key.
pub proof fn law_reads_what_filters_need<F, P>(
    filters: Seq<SimpleFilterContext<F>>,
    physical_filters: Seq<PhysicalFilterContext<P>>,
    read_format: ReadFormat,
    skip_fields: bool,
    column: FilterColumn,
)
    requires
        filter_columns(
            filters,
            physical_filters,
            read_format.spec_metadata(),
            skip_fields,
        ).contains(column),
        schema_fields(read_format.spec_arrow_schema()).len() <= usize::MAX,
    ensures
        ({
            let fields = schema_fields(read_format.spec_arrow_schema());
            let positions = prewhere_positions(filters, physical_filters, read_format, skip_fields);
            let needed = if fields.contains(column.name) || column.semantic_type
                != SemanticType::Tag {
                column.name
            } else {
                PRIMARY_KEY_COLUMN_NAME@
            };
            fields.contains(needed) ==> exists|position: usize| #[trigger]
                positions.contains(position) && fields[position as int] == needed
        }),
{
    let fields = schema_fields(read_format.spec_arrow_schema());
    let columns = filter_columns(
        filters,
        physical_filters,
        read_format.spec_metadata(),
        skip_fields,
    );
    let positions = prewhere_positions(filters, physical_filters, read_format, skip_fields);
    let needed = if fields.contains(column.name) || column.semantic_type != SemanticType::Tag {
        column.name
    } else {
        PRIMARY_KEY_COLUMN_NAME@
    };
    if fields.contains(needed) {
        lemma_first_index(fields, needed);
        let position = first_index(fields, needed)->0 as usize;
        assert(columns.contains(column));
        assert(names_of(columns, fields).contains(needed));
        assert(positions.contains(position));
    }
}

/// Reading fewer columns first, or leaving more to read, never makes prewhere
/// pay off less.
pub proof fn law_fewer_columns_pay_off(
    prewhere_count: nat,
    remaining_count: nat,
    total_count: nat,
    config: PrewhereConfig,
    fewer: nat,
    more: nat,
)
    requires
        pays_off(prewhere_count, remaining_count, total_count, config),
        fewer <= prewhere_count,
        more >= remaining_count,
    ensures
        pays_off(fewer, more, total_count, config),
{
    let denominator = config.column_ratio_threshold.spec_denominator();
    assert(fewer * denominator <= prewhere_count * denominator) by (nonlinear_arith)
        requires
            fewer <= prewhere_count,
    ;
}

/// The positions of columns of given names are those of the first field of each
/// name.
pub proof fn law_positions_of_names(names: Seq<String>, fields: Seq<Seq<char>>, p: usize)
    ensures
        positions_of(name_set(names), fields).contains(p) <==> {
            &&& p < fields.len()
            &&& forall|q: int| 0 <= q < p ==> fields[q] != fields[p as int]
            &&& exists|i: int| 0 <= i < names.len() && #[trigger] names[i]@ == fields[p as int]
        },
{
    if p < fields.len() {
        law_first_index(fields, fields[p as int]);
    }
}

/// The columns that a scan returns and that filters read: those whose id is that
/// of a filter that has to be evaluated, is not passed over, and is about a
/// column that the region knows.
pub proof fn law_columns_that_filters_read<F, P>(
    filters: Seq<SimpleFilterContext<F>>,
    physical_filters: Seq<PhysicalFilterContext<P>>,
    read_format: ReadFormat,
    skip_fields: bool,
    id: ColumnId,
)
    ensures
        ids_of(
            filter_columns(filters, physical_filters, read_format.spec_metadata(), skip_fields),
        ).contains(id) <==> {
            &&& exists|k: int|
                0 <= k < read_format.spec_metadata().column_metadatas@.len() && (
                #[trigger] read_format.spec_metadata().column_metadatas@[k]).column_id == id
            &&& {
                ||| exists|i: int|
                    0 <= i < filters.len() && (#[trigger] filters[i]).column_id == id
                        && filters[i].filter is Filter && !(skip_fields && filters[i].semantic_type
                        == SemanticType::Field)
                ||| exists|i: int|
                    0 <= i < physical_filters.len() && (#[trigger] physical_filters[i]).column_id
                        == id && physical_filters[i].filter is Filter && !(skip_fields
                        && physical_filters[i].semantic_type == SemanticType::Field)
            }
        },
{
    let metadata = read_format.spec_metadata();
    let columns = filter_columns(filters, physical_filters, metadata, skip_fields);
    law_known_column(metadata, id);
    if ids_of(columns).contains(id) {
        let column = choose|column: FilterColumn| #[trigger]
            columns.contains(column) && column.column_id == id;
        if exists|i: int|
            0 <= i < filters.len() && #[trigger] simple_column(filters[i], metadata, skip_fields)
                == Some(column) {
            let i = choose|i: int|
                0 <= i < filters.len() && #[trigger] simple_column(
                    filters[i],
                    metadata,
                    skip_fields,
                ) == Some(column);
            assert(filters[i].column_id == id);
        } else {
            let i = choose|i: int|
                0 <= i < physical_filters.len() && #[trigger] physical_column(
                    physical_filters[i],
                    metadata,
                    skip_fields,
                ) == Some(column);
            assert(physical_filters[i].column_id == id);
        }
    }
    if metadata.column_ids().contains(id) {
        assert forall|i: int|
            0 <= i < filters.len() && (#[trigger] filters[i]).column_id == id
                && filters[i].filter is Filter && !(skip_fields && filters[i].semantic_type
                == SemanticType::Field) implies ids_of(columns).contains(id) by {
            let column = simple_column(filters[i], metadata, skip_fields)->0;
            assert(simple_column(filters[i], metadata, skip_fields) == Some(column));
            assert(columns.contains(column));
        }
        assert forall|i: int|
            0 <= i < physical_filters.len() && (#[trigger] physical_filters[i]).column_id == id
                && physical_filters[i].filter is Filter && !(skip_fields
                && physical_filters[i].semantic_type == SemanticType::Field) implies ids_of(
            columns,
        ).contains(id) by {
            let column = physical_column(physical_filters[i], metadata, skip_fields)->0;
            assert(physical_column(physical_filters[i], metadata, skip_fields) == Some(column));
            assert(columns.contains(column));
        }
    }
}

/// An id is among those of a region exactly if a column has it.
pub proof fn law_known_column(metadata: RegionMetadata, id: ColumnId)
    ensures
        metadata.column_ids().contains(id) <==> exists|k: int|
            0 <= k < metadata.column_metadatas@.len() && (
            #[trigger] metadata.column_metadatas@[k]).column_id == id,
{
    if metadata.column_ids().contains(id) {
        let k = choose|k: int| 0 <= k < metadata.column_ids().len() && metadata.column_ids()[k] == id;
        assert(metadata.column_metadatas@[k].column_id == id);
    }
    if exists|k: int|
        0 <= k < metadata.column_metadatas@.len() && (
        #[trigger] metadata.column_metadatas@[k]).column_id == id {
        let k = choose|k: int|
            0 <= k < metadata.column_metadatas@.len() && (
            #[trigger] metadata.column_metadatas@[k]).column_id == id;
        assert(metadata.column_ids()[k] == id);
    }
}

/// The prewhere phase reads the first column of each name that a filter is
/// about, if the filter has to be evaluated, is not passed over, and is about a
/// column that the region knows. If that is a tag and there is no column of its
/// name, the phase reads the encoded primary key.
pub proof fn law_filter_column_is_read<F, P>(
    filters: Seq<SimpleFilterContext<F>>,
    physical_filters: Seq<PhysicalFilterContext<P>>,
    read_format: ReadFormat,
    skip_fields: bool,
    i: int,
    p: usize,
)
    requires
        0 <= i < filters.len() + physical_filters.len(),
        ({
            let metadata = read_format.spec_metadata();
            let fields = schema_fields(read_format.spec_arrow_schema());
            let simple = i < filters.len();
            let filter = filters[i];
            let physical = physical_filters[i - filters.len()];
            let semantic_type = if simple {
                filter.semantic_type
            } else {
                physical.semantic_type
            };
            let id = if simple {
                filter.column_id
            } else {
                physical.column_id
            };
            let name = if simple {
                filter.filter->Filter_0.column_name@
            } else {
                physical.column_name@
            };
            &&& if simple {
                filter.filter is Filter
            } else {
                physical.filter is Filter
            }
            &&& !(skip_fields && semantic_type == SemanticType::Field)
            &&& exists|k: int|
                0 <= k < metadata.column_metadatas@.len() && (
                #[trigger] metadata.column_metadatas@[k]).column_id == id
            &&& p < fields.len()
            &&& forall|q: int| 0 <= q < p ==> fields[q] != fields[p as int]
            &&& fields[p as int] == name || semantic_type == SemanticType::Tag && !fields.contains(
                name,
            ) && fields[p as int] == "__primary_key"@
        }),
    ensures
        prewhere_positions(filters, physical_filters, read_format, skip_fields).contains(p),
{
    let metadata = read_format.spec_metadata();
    let fields = schema_fields(read_format.spec_arrow_schema());
    let columns = filter_columns(filters, physical_filters, metadata, skip_fields);
    law_first_index(fields, fields[p as int]);
    let column = if i < filters.len() {
        law_known_column(metadata, filters[i].column_id);
        simple_column(filters[i], metadata, skip_fields)->0
    } else {
        law_known_column(metadata, physical_filters[i - filters.len()].column_id);
        physical_column(physical_filters[i - filters.len()], metadata, skip_fields)->0
    };
    if i < filters.len() {
        assert(simple_column(filters[i], metadata, skip_fields) == Some(column));
    } else {
        let physical = physical_filters[i - filters.len()];
        assert(physical_column(physical, metadata, skip_fields) == Some(column));
    }
    assert(columns.contains(column));
    assert(names_of(columns, fields).contains(fields[p as int]));
}

/// The prewhere phase reads no other columns: each is the first of its name, and
/// either a filter is about it that has to be evaluated, is not passed over, and
/// is about a column that the region knows, or it is the encoded primary key and
/// such a filter is about a tag that there is no column for.
pub proof fn law_nothing_else_is_read<F, P>(
    filters: Seq<SimpleFilterContext<F>>,
    physical_filters: Seq<PhysicalFilterContext<P>>,
    read_format: ReadFormat,
    skip_fields: bool,
    p: usize,
)
    requires
        prewhere_positions(filters, physical_filters, read_format, skip_fields).contains(p),
    ensures
        ({
            let metadata = read_format.spec_metadata();
            let fields = schema_fields(read_format.spec_arrow_schema());
            &&& p < fields.len()
            &&& forall|q: int| 0 <= q < p ==> fields[q] != fields[p as int]
            &&& {
                ||| exists|i: int|
                    {
                        &&& 0 <= i < filters.len()
                        &&& (#[trigger] filters[i]).filter is Filter
                        &&& !(skip_fields && filters[i].semantic_type == SemanticType::Field)
                        &&& metadata.column_ids().contains(filters[i].column_id)
                        &&& filters[i].filter->Filter_0.column_name@ == fields[p as int]
                            || filters[i].semantic_type == SemanticType::Tag && !fields.contains(
                            filters[i].filter->Filter_0.column_name@,
                        ) && fields[p as int] == "__primary_key"@
                    }
                ||| exists|i: int|
                    {
                        &&& 0 <= i < physical_filters.len()
                        &&& (#[trigger] physical_filters[i]).filter is Filter
                        &&& !(skip_fields && physical_filters[i].semantic_type
                            == SemanticType::Field)
                        &&& metadata.column_ids().contains(physical_filters[i].column_id)
                        &&& physical_filters[i].column_name@ == fields[p as int]
                            || physical_filters[i].semantic_type == SemanticType::Tag
                            && !fields.contains(physical_filters[i].column_name@)
                            && fields[p as int] == "__primary_key"@
                    }
            }
        }),
{
    let metadata = read_format.spec_metadata();
    let fields = schema_fields(read_format.spec_arrow_schema());
    let columns = filter_columns(filters, physical_filters, metadata, skip_fields);
    let name = fields[p as int];
    law_first_index(fields, name);
    let column = if exists|column: FilterColumn| #[trigger]
        columns.contains(column) && column.name == name {
        choose|column: FilterColumn| #[trigger] columns.contains(column) && column.name == name
    } else {
        choose|column: FilterColumn| #[trigger]
            columns.contains(column) && column.semantic_type == SemanticType::Tag
                && !fields.contains(column.name)
    };
    assert(columns.contains(column));
    if exists|i: int|
        0 <= i < filters.len() && #[trigger] simple_column(filters[i], metadata, skip_fields)
            == Some(column) {
        let i = choose|i: int|
            0 <= i < filters.len() && #[trigger] simple_column(filters[i], metadata, skip_fields)
                == Some(column);
        assert(filters[i].filter is Filter);
    } else {
        let i = choose|i: int|
            0 <= i < physical_filters.len() && #[trigger] physical_column(
                physical_filters[i],
                metadata,
                skip_fields,
            ) == Some(column);
        assert(physical_filters[i].filter is Filter);
    }
}

/// The columns that are left to read are those that the scan reads, less those
/// that it returns and that filters read, and none where these are more.
pub proof fn law_columns_left_to_read<F, P>(
    filters: Seq<SimpleFilterContext<F>>,
    physical_filters: Seq<PhysicalFilterContext<P>>,
    read_format: ReadFormat,
    skip_fields: bool,
)
    ensures
        ({
            let total = read_format.spec_projection_indices().len();
            let repeated = Set::new(
                |id: ColumnId|
                    read_format.spec_output_columns().contains_key(id) && ids_of(
                        filter_columns(
                            filters,
                            physical_filters,
                            read_format.spec_metadata(),
                            skip_fields,
                        ),
                    ).contains(id),
            ).len();
            let left = remaining_columns(filters, physical_filters, read_format, skip_fields);
            &&& total >= repeated ==> left == total - repeated
            &&& total <= repeated ==> left == 0
        }),
{
    let ids = ids_of(
        filter_columns(filters, physical_filters, read_format.spec_metadata(), skip_fields),
    );
    let output = read_format.spec_output_columns();
    assert(output.dom().intersect(ids) =~= Set::new(
        |id: ColumnId| output.contains_key(id) && ids.contains(id),
    ));
}

/// A scan uses prewhere exactly if it is switched on, there are columns to read
/// first, columns are left to read after them, at least as many as configured,
/// and those to read first are at most the configured share of all.
pub proof fn law_when_prewhere_is_used<F, P>(
    filters: Seq<SimpleFilterContext<F>>,
    physical_filters: Seq<PhysicalFilterContext<P>>,
    read_format: ReadFormat,
    skip_fields: bool,
    config: PrewhereConfig,
)
    ensures
        ({
            let first = prewhere_positions(
                filters,
                physical_filters,
                read_format,
                skip_fields,
            ).len();
            let left = remaining_columns(filters, physical_filters, read_format, skip_fields);
            let total = read_format.spec_projection_indices().len();
            uses_prewhere(filters, physical_filters, read_format, config, skip_fields) <==> {
                &&& config.enable
                &&& first > 0
                &&& left > 0
                &&& left >= config.min_remaining_columns
                &&& total > 0
                &&& first * config.column_ratio_threshold.spec_denominator()
                    <= config.column_ratio_threshold.spec_numerator() * total
            }
        }),
{
}

} // verus!
