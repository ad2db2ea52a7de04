//! What a scan knows of the region and of the file that it reads.
use crate::search::{first_index, is_first_index, lemma_first_index};
use arrow::datatypes::{DataType, Schema};
use std::collections::HashMap;
use std::sync::Arc;
use vstd::prelude::*;

verus! {

broadcast use vstd::std_specs::hash::group_hash_axioms;

/// Identifies a column of a region.
pub type ColumnId = u32;

/// What a column is in its region.
#[derive(Debug, Clone, Copy, PartialEq, Eq, Structural)]
pub enum SemanticType {
    /// Part of the primary key.
    Tag,
    /// A measured value.
    Field,
    /// The time index.
    Timestamp,
}

/// A column of a region.
#[derive(Debug)]
pub struct ColumnMetadata {
    /// Identifies the column.
    pub column_id: ColumnId,
    /// What the column is.
    pub semantic_type: SemanticType,
    /// The type of its values.
    pub data_type: DataType,
}

/// The columns of a region, each under an id of its own.
#[derive(Debug)]
pub struct RegionMetadata {
    /// The columns.
    pub column_metadatas: Vec<ColumnMetadata>,
    /// The ids of the columns that make up the primary key, in order.
    pub primary_key: Vec<ColumnId>,
}

impl RegionMetadata {
    /// The ids of the columns.
    pub open spec fn column_ids(self) -> Seq<ColumnId> {
        self.column_metadatas@.map_values(|column: ColumnMetadata| column.column_id)
    }

    /// Returns the position of the column with that id.
    pub fn column_index_by_id(&self, column_id: ColumnId) -> (index: Option<usize>)
        ensures
            match index {
                Some(i) => first_index(self.column_ids(), column_id) == Some(i as int),
                None => first_index(self.column_ids(), column_id) is None,
            },
            index matches Some(i) ==> i < self.column_metadatas@.len(),
            match index {
                Some(i) => {
                    &&& i < self.column_metadatas@.len()
                    &&& self.column_metadatas@[i as int].column_id == column_id
                    &&& forall|j: int|
                        0 <= j < i ==> (#[trigger] self.column_metadatas@[j]).column_id != column_id
                },
                None => forall|j: int|
                    0 <= j < self.column_metadatas@.len() ==> (
                    #[trigger] self.column_metadatas@[j]).column_id != column_id,
            },
    {
        proof {
            lemma_first_index(self.column_ids(), column_id);
        }

        let mut i: usize = 0;
        while i < self.column_metadatas.len()
            invariant
                i <= self.column_metadatas@.len(),
                forall|j: int| 0 <= j < i ==> self.column_ids()[j] != column_id,
                forall|j: int|
                    0 <= j < i ==> (#[trigger] self.column_metadatas@[j]).column_id != column_id,
            decreases self.column_metadatas@.len() - i,
        {
            if self.column_metadatas[i].column_id == column_id {
                proof {
                    lemma_first_index(self.column_ids(), column_id);
                    assert(is_first_index(self.column_ids(), column_id, i as int));
                }
                return Some(i);
            }
            i += 1;
        }
        None
    }

    /// Returns the column with that id.
    pub fn column_by_id(&self, column_id: ColumnId) -> (column: Option<&ColumnMetadata>)
        ensures
            match column {
                Some(c) => first_index(self.column_ids(), column_id) matches Some(i)
                    && *c == self.column_metadatas@[i],
                None => first_index(self.column_ids(), column_id) is None,
            },
            column is Some <==> self.column_ids().contains(column_id),
            match column {
                Some(c) => c.column_id == column_id && self.column_metadatas@.contains(*c),
                None => forall|j: int|
                    0 <= j < self.column_metadatas@.len() ==> (
                    #[trigger] self.column_metadatas@[j]).column_id != column_id,
            },
    {
        proof {
            lemma_first_index(self.column_ids(), column_id);
        }

        match self.column_index_by_id(column_id) {
            Some(i) => Some(&self.column_metadatas[i]),
            None => None,
        }
    }

    /// Returns the position of the column in the primary key, or `None` if it
    /// is not part of it.
    pub fn primary_key_index(&self, column_id: ColumnId) -> (index: Option<usize>)
        ensures
            match index {
                Some(i) => first_index(self.primary_key@, column_id) == Some(i as int),
                None => first_index(self.primary_key@, column_id) is None,
            },
            match index {
                Some(i) => {
                    &&& i < self.primary_key@.len()
                    &&& self.primary_key@[i as int] == column_id
                    &&& forall|j: int| 0 <= j < i ==> self.primary_key@[j] != column_id
                },
                None => forall|j: int|
                    0 <= j < self.primary_key@.len() ==> self.primary_key@[j] != column_id,
            },
    {
        proof {
            lemma_first_index(self.primary_key@, column_id);
        }

        let mut i: usize = 0;
        while i < self.primary_key.len()
            invariant
                i <= self.primary_key@.len(),
                forall|j: int| 0 <= j < i ==> self.primary_key@[j] != column_id,
            decreases self.primary_key@.len() - i,
        {
            if self.primary_key[i] == column_id {
                proof {
                    lemma_first_index(self.primary_key@, column_id);
                    assert(is_first_index(self.primary_key@, column_id, i as int));
                }
                return Some(i);
            }
            i += 1;
        }
        None
    }
}

/// A file whose tags are columns of their own.
#[derive(Debug)]
pub struct FlatReadFormat {
    /// The region of the file.
    pub metadata: Arc<RegionMetadata>,
    /// The schema of the file.
    pub arrow_schema: Arc<Schema>,
    /// The columns of the file that the scan reads.
    pub projection_indices: Vec<usize>,
    /// Where each column that the scan returns stands in its output.
    pub column_id_to_projected_index: HashMap<ColumnId, usize>,
}

/// A file that holds its tags only in an encoded primary key.
#[derive(Debug)]
pub struct PrimaryKeyReadFormat {
    /// The region of the file.
    pub metadata: Arc<RegionMetadata>,
    /// The schema of the file.
    pub arrow_schema: Arc<Schema>,
    /// The columns of the file that the scan reads.
    pub projection_indices: Vec<usize>,
    /// Where each field that the scan returns stands in its output.
    pub field_id_to_projected_index: HashMap<ColumnId, usize>,
}

/// How a scan reads a file.
#[derive(Debug)]
pub enum ReadFormat {
    /// Tags are columns of their own.
    Flat(FlatReadFormat),
    /// Tags are encoded in the primary key.
    PrimaryKey(PrimaryKeyReadFormat),
}

impl ReadFormat {
    /// The region of the file.
    pub open spec fn spec_metadata(self) -> RegionMetadata {
        match self {
            ReadFormat::Flat(flat) => *flat.metadata,
            ReadFormat::PrimaryKey(pk) => *pk.metadata,
        }
    }

    /// The schema of the file.
    pub open spec fn spec_arrow_schema(self) -> Schema {
        match self {
            ReadFormat::Flat(flat) => *flat.arrow_schema,
            ReadFormat::PrimaryKey(pk) => *pk.arrow_schema,
        }
    }

    /// The columns of the file that the scan reads.
    pub open spec fn spec_projection_indices(self) -> Seq<usize> {
        match self {
            ReadFormat::Flat(flat) => flat.projection_indices@,
            ReadFormat::PrimaryKey(pk) => pk.projection_indices@,
        }
    }

    /// Where each column that the scan returns stands in its output.
    pub open spec fn spec_output_columns(self) -> Map<ColumnId, usize> {
        match self {
            ReadFormat::Flat(flat) => flat.column_id_to_projected_index@,
            ReadFormat::PrimaryKey(pk) => pk.field_id_to_projected_index@,
        }
    }

    /// Returns the region of the file.
    pub fn metadata(&self) -> (metadata: &RegionMetadata)
        ensures
            *metadata == self.spec_metadata(),
            match *self {
                ReadFormat::Flat(flat) => *metadata == *flat.metadata,
                ReadFormat::PrimaryKey(pk) => *metadata == *pk.metadata,
            },
    {
        match self {
            ReadFormat::Flat(flat) => &flat.metadata,
            ReadFormat::PrimaryKey(pk) => &pk.metadata,
        }
    }

    /// Returns the schema of the file.
    pub fn arrow_schema(&self) -> (schema: &Arc<Schema>)
        ensures
            **schema == self.spec_arrow_schema(),
            match *self {
                ReadFormat::Flat(flat) => **schema == *flat.arrow_schema,
                ReadFormat::PrimaryKey(pk) => **schema == *pk.arrow_schema,
            },
    {
        match self {
            ReadFormat::Flat(flat) => &flat.arrow_schema,
            ReadFormat::PrimaryKey(pk) => &pk.arrow_schema,
        }
    }

    /// Returns the columns of the file that the scan reads.
    pub fn projection_indices(&self) -> (indices: &Vec<usize>)
        ensures
            indices@ == self.spec_projection_indices(),
            match *self {
                ReadFormat::Flat(flat) => indices@ == flat.projection_indices@,
                ReadFormat::PrimaryKey(pk) => indices@ == pk.projection_indices@,
            },
    {
        match self {
            ReadFormat::Flat(flat) => &flat.projection_indices,
            ReadFormat::PrimaryKey(pk) => &pk.projection_indices,
        }
    }

    /// Returns where each column that the scan returns stands in its output.
    pub fn output_columns(&self) -> (columns: &HashMap<ColumnId, usize>)
        ensures
            columns@ == self.spec_output_columns(),
            match *self {
                ReadFormat::Flat(flat) => columns@ == flat.column_id_to_projected_index@,
                ReadFormat::PrimaryKey(pk) => columns@ == pk.field_id_to_projected_index@,
            },
    {
        match self {
            ReadFormat::Flat(flat) => &flat.column_id_to_projected_index,
            ReadFormat::PrimaryKey(pk) => &pk.field_id_to_projected_index,
        }
    }
}

} // verus!
