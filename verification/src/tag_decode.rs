//! Decoding of tag columns out of encoded primary keys.
use crate::columnar::{Batch, Column};
use crate::read_format::{ColumnId, RegionMetadata};
use crate::search::{first_index, law_first_index};
use arrow::datatypes::DataType;
use std::collections::HashMap;
use std::sync::Arc;
use vstd::prelude::*;

verus! {

broadcast use vstd::std_specs::hash::group_hash_axioms;

/// How a primary key is laid out.
#[derive(Debug, Clone, Copy, PartialEq, Eq, Structural)]
pub enum PrimaryKeyEncoding {
    /// Every tag is there, in the order of the primary key.
    Dense,
    /// Tags are there under their column ids.
    Sparse,
}

/// Decodes the primary keys of a region.
pub trait PrimaryKeyCodec<E> {
    /// The primary keys of a batch, decoded.
    type Decoded;

    /// Returns how primary keys are laid out.
    fn encoding(&self) -> PrimaryKeyEncoding;

    /// Decodes the primary keys of `input`.
    fn decode_primary_keys(&self, input: &Batch) -> Result<Self::Decoded, E>;

    /// Returns the values of one tag in decoded keys. A dense layout finds the
    /// tag by its position in the primary key, `pk_index`.
    fn get_tag_column(
        &self,
        decoded: &Self::Decoded,
        column_id: ColumnId,
        pk_index: Option<usize>,
        data_type: &DataType,
    ) -> Result<Arc<Column>, E>;
}

/// What has been decoded of one batch so far.
#[verifier::ext_equal]
pub struct TagDecodeView<D> {
    /// The decoded primary keys.
    pub decoded: Option<D>,
    /// The tag columns by their ids.
    pub columns: Map<ColumnId, Arc<Column>>,
}

/// Keeps what has been decoded of one batch, so that nothing is decoded twice.
#[derive(Debug)]
pub struct TagDecodeState<D> {
    decoded_pks: Option<D>,
    decoded_tag_cache: HashMap<ColumnId, Arc<Column>>,
}

impl<D> View for TagDecodeState<D> {
    type V = TagDecodeView<D>;

    closed spec fn view(&self) -> TagDecodeView<D> {
        TagDecodeView { decoded: self.decoded_pks, columns: self.decoded_tag_cache@ }
    }
}

impl<D> TagDecodeView<D> {
    /// Nothing decoded.
    pub open spec fn empty() -> Self {
        TagDecodeView { decoded: None, columns: Map::empty() }
    }
}

impl<D> TagDecodeState<D> {
    /// Creates a state in which nothing is decoded.
    pub fn new() -> (state: Self)
        ensures
            state@ == TagDecodeView::<D>::empty(),
    {
        TagDecodeState { decoded_pks: None, decoded_tag_cache: HashMap::new() }
    }
}

/// Whether `keys` are the decoded primary keys of `input`: those at hand, or
/// else what the codec made of the batch.
pub open spec fn keys_of<E, C: PrimaryKeyCodec<E>>(
    codec: &C,
    input: &Batch,
    pre: TagDecodeView<C::Decoded>,
    keys: Result<C::Decoded, E>,
) -> bool {
    match pre.decoded {
        Some(decoded) => keys == Ok::<C::Decoded, E>(decoded),
        None => call_ensures(C::decode_primary_keys, (codec, input), keys),
    }
}

/// Whether `column` is what the codec found under a tag in decoded keys. The
/// position of the tag is handed over unless the layout is sparse.
pub open spec fn tag_of<E, C: PrimaryKeyCodec<E>>(
    codec: &C,
    decoded: C::Decoded,
    column_id: ColumnId,
    pk_index: int,
    data_type: DataType,
    encoding: PrimaryKeyEncoding,
    column: Result<Arc<Column>, E>,
) -> bool {
    let position = if encoding == PrimaryKeyEncoding::Sparse {
        None
    } else {
        Some(pk_index as usize)
    };
    &&& call_ensures(C::encoding, (codec,), encoding)
    &&& call_ensures(
        C::get_tag_column,
        (codec, &decoded, column_id, position, &data_type),
        column,
    )
}

/// Whether looking up a tag column that is not at hand, in decoded keys, takes
/// the state to `post` and gives `result`.
pub open spec fn fetches_column<E, C: PrimaryKeyCodec<E>>(
    metadata: &RegionMetadata,
    column_id: ColumnId,
    pk_index: int,
    codec: &C,
    decoded: C::Decoded,
    columns: Map<ColumnId, Arc<Column>>,
    post: TagDecodeView<C::Decoded>,
    result: Result<Option<Arc<Column>>, E>,
) -> bool {
    match first_index(metadata.column_ids(), column_id) {
        None => {
            &&& post == TagDecodeView { decoded: Some(decoded), columns }
            &&& result == Ok::<Option<Arc<Column>>, E>(None)
        },
        Some(index) => exists|encoding: PrimaryKeyEncoding, column: Result<Arc<Column>, E>|
            {
                &&& #[trigger] tag_of(
                    codec,
                    decoded,
                    column_id,
                    pk_index,
                    metadata.column_metadatas@[index].data_type,
                    encoding,
                    column,
                )
                &&& match column {
                    Ok(c) => {
                        &&& post == TagDecodeView {
                            decoded: Some(decoded),
                            columns: columns.insert(column_id, c),
                        }
                        &&& result == Ok::<Option<Arc<Column>>, E>(Some(c))
                    },
                    Err(e) => {
                        &&& post == TagDecodeView { decoded: Some(decoded), columns }
                        &&& result == Err::<Option<Arc<Column>>, E>(e)
                    },
                }
            },
    }
}

/// Whether a look-up of the tag column `column_id` takes the state from `pre`
/// to `post` and gives `result`.
pub open spec fn decodes_tag<E, C: PrimaryKeyCodec<E>>(
    metadata: &RegionMetadata,
    column_id: ColumnId,
    input: &Batch,
    codec: &C,
    pre: TagDecodeView<C::Decoded>,
    post: TagDecodeView<C::Decoded>,
    result: Result<Option<Arc<Column>>, E>,
) -> bool {
    match first_index(metadata.primary_key@, column_id) {
        None => post == pre && result == Ok::<Option<Arc<Column>>, E>(None),
        Some(pk_index) => if pre.columns.contains_key(column_id) {
            post == pre && result == Ok::<Option<Arc<Column>>, E>(Some(pre.columns[column_id]))
        } else {
            exists|keys: Result<C::Decoded, E>|
                {
                    &&& #[trigger] keys_of(codec, input, pre, keys)
                    &&& match keys {
                        Err(e) => post == pre && result == Err::<Option<Arc<Column>>, E>(e),
                        Ok(decoded) => fetches_column(
                            metadata,
                            column_id,
                            pk_index,
                            codec,
                            decoded,
                            pre.columns,
                            post,
                            result,
                        ),
                    }
                }
        },
    }
}

/// Returns the decoded tag column for `column_id`, or `None` if it's not a tag.
pub fn maybe_decode_tag_column<E, C: PrimaryKeyCodec<E>>(
    metadata: &RegionMetadata,
    column_id: ColumnId,
    input: &Batch,
    tag_decode_state: &mut TagDecodeState<C::Decoded>,
    codec: &C,
) -> (result: Result<Option<Arc<Column>>, E>)
    ensures
        decodes_tag(
            metadata,
            column_id,
            input,
            codec,
            old(tag_decode_state)@,
            final(tag_decode_state)@,
            result,
        ),
{
    let ghost pre = tag_decode_state@;
    let pk_index = match metadata.primary_key_index(column_id) {
        Some(pk_index) => pk_index,
        None => {
            return Ok(None);
        },
    };

    if let Some(cached_column) = tag_decode_state.decoded_tag_cache.get(&column_id) {
        return Ok(Some(Arc::clone(cached_column)));
    }
    if tag_decode_state.decoded_pks.is_none() {
        match codec.decode_primary_keys(input) {
            Ok(decoded) => {
                tag_decode_state.decoded_pks = Some(decoded);
            },
            Err(e) => {
                assert(keys_of(codec, input, pre, Err::<C::Decoded, E>(e)));
                return Err(e);
            },
        }
    }
    let encoding = codec.encoding();
    let position = if encoding == PrimaryKeyEncoding::Sparse {
        None
    } else {
        Some(pk_index)
    };

    let decoded = match &tag_decode_state.decoded_pks {
        Some(decoded) => decoded,
        None => {
            return Ok(None);
        },
    };
    assert(keys_of(codec, input, pre, Ok::<C::Decoded, E>(*decoded)));
    let column_index = match metadata.column_index_by_id(column_id) {
        Some(column_index) => column_index,
        None => {
            return Ok(None);
        },
    };

    let column_metadata = &metadata.column_metadatas[column_index];
    let found = codec.get_tag_column(decoded, column_id, position, &column_metadata.data_type);
    assert(tag_of(
        codec,
        *decoded,
        column_id,
        pk_index as int,
        column_metadata.data_type,
        encoding,
        found,
    ));
    match found {
        Ok(tag_column) => {
            tag_decode_state.decoded_tag_cache.insert(column_id, Arc::clone(&tag_column));
            Ok(Some(tag_column))
        },
        Err(e) => Err(e),
    }
}

/// A tag column that was found once is found again without decoding anything:
/// every later look-up gives that column and leaves the state alone.
pub proof fn law_decoded_once<E, C: PrimaryKeyCodec<E>>(
    metadata: &RegionMetadata,
    column_id: ColumnId,
    input: &Batch,
    codec: &C,
    pre: TagDecodeView<C::Decoded>,
    post: TagDecodeView<C::Decoded>,
    column: Arc<Column>,
    later_input: &Batch,
    later_codec: &C,
    later: TagDecodeView<C::Decoded>,
    later_result: Result<Option<Arc<Column>>, E>,
)
    requires
        decodes_tag(
            metadata,
            column_id,
            input,
            codec,
            pre,
            post,
            Ok::<Option<Arc<Column>>, E>(Some(column)),
        ),
        decodes_tag(
            metadata,
            column_id,
            later_input,
            later_codec,
            post,
            later,
            later_result,
        ),
    ensures
        later == post,
        later_result == Ok::<Option<Arc<Column>>, E>(Some(column)),
{
}

/// What is at hand stays at hand: a look-up keeps the decoded keys and every
/// decoded column, and adds at most the column it was asked for.
pub proof fn law_keeps_decoded<E, C: PrimaryKeyCodec<E>>(
    metadata: &RegionMetadata,
    column_id: ColumnId,
    input: &Batch,
    codec: &C,
    pre: TagDecodeView<C::Decoded>,
    post: TagDecodeView<C::Decoded>,
    result: Result<Option<Arc<Column>>, E>,
)
    requires
        decodes_tag(metadata, column_id, input, codec, pre, post, result),
    ensures
        pre.decoded is Some ==> post.decoded == pre.decoded,
        forall|id: ColumnId| #[trigger]
            pre.columns.contains_key(id) ==> post.columns.contains_key(id) && post.columns[id]
                == pre.columns[id],
        forall|id: ColumnId| #[trigger]
            post.columns.contains_key(id) ==> pre.columns.contains_key(id) || id == column_id,
{
}

/// A column outside the primary key has no tag column, and one inside that the
/// region knows has one unless the codec fails.
pub proof fn law_none_exactly_if_not_a_tag<E, C: PrimaryKeyCodec<E>>(
    metadata: &RegionMetadata,
    column_id: ColumnId,
    input: &Batch,
    codec: &C,
    pre: TagDecodeView<C::Decoded>,
    post: TagDecodeView<C::Decoded>,
    result: Result<Option<Arc<Column>>, E>,
)
    requires
        decodes_tag(metadata, column_id, input, codec, pre, post, result),
        metadata.primary_key@.contains(column_id) ==> metadata.column_ids().contains(column_id),
    ensures
        !metadata.primary_key@.contains(column_id) ==> result == Ok::<Option<Arc<Column>>, E>(None),
        metadata.primary_key@.contains(column_id) ==> result != Ok::<Option<Arc<Column>>, E>(None),
{
    crate::search::lemma_first_index(metadata.primary_key@, column_id);
    crate::search::lemma_first_index(metadata.column_ids(), column_id);
}

/// A tag column that is not at hand and is found is what the codec finds under
/// the id that was asked for: in the decoded keys at hand, or else in those that
/// it makes of the batch, at no position in the sparse layout and otherwise at
/// the id's first position in the primary key, with the type of the column of
/// that id. Keys and column are then at hand.
pub proof fn law_found_under_the_asked_id<E, C: PrimaryKeyCodec<E>>(
    metadata: &RegionMetadata,
    column_id: ColumnId,
    input: &Batch,
    codec: &C,
    pre: TagDecodeView<C::Decoded>,
    post: TagDecodeView<C::Decoded>,
    column: Arc<Column>,
)
    requires
        decodes_tag(
            metadata,
            column_id,
            input,
            codec,
            pre,
            post,
            Ok::<Option<Arc<Column>>, E>(Some(column)),
        ),
        !pre.columns.contains_key(column_id),
    ensures
        exists|
            decoded: C::Decoded,
            encoding: PrimaryKeyEncoding,
            position: Option<usize>,
            k: int,
        |
            {
                &&& pre.decoded matches Some(at_hand) ==> decoded == at_hand
                &&& pre.decoded is None ==> call_ensures(
                    C::decode_primary_keys,
                    (codec, input),
                    Ok::<C::Decoded, E>(decoded),
                )
                &&& #[trigger] call_ensures(C::encoding, (codec,), encoding)
                &&& position is None <==> encoding == PrimaryKeyEncoding::Sparse
                &&& position matches Some(p) ==> p < metadata.primary_key@.len()
                    && metadata.primary_key@[p as int] == column_id && forall|j: int|
                    0 <= j < p ==> metadata.primary_key@[j] != column_id
                &&& 0 <= k < metadata.column_metadatas@.len()
                &&& metadata.column_metadatas@[k].column_id == column_id
                &&& forall|j: int|
                    0 <= j < k ==> (#[trigger] metadata.column_metadatas@[j]).column_id != column_id
                &&& #[trigger] call_ensures(
                    C::get_tag_column,
                    (
                        codec,
                        &decoded,
                        column_id,
                        position,
                        &metadata.column_metadatas@[k].data_type,
                    ),
                    Ok::<Arc<Column>, E>(column),
                )
                &&& post.decoded == Some(decoded)
                &&& post.columns == pre.columns.insert(column_id, column)
            },
{
    let result = Ok::<Option<Arc<Column>>, E>(Some(column));
    law_first_index(metadata.primary_key@, column_id);
    law_first_index(metadata.column_ids(), column_id);
    assert(metadata.primary_key@.len() == metadata.primary_key.len());
    let pk_index = first_index(metadata.primary_key@, column_id)->0;
    let keys = choose|keys: Result<C::Decoded, E>|
        {
            &&& #[trigger] keys_of(codec, input, pre, keys)
            &&& match keys {
                Err(e) => post == pre && result == Err::<Option<Arc<Column>>, E>(e),
                Ok(decoded) => fetches_column(
                    metadata,
                    column_id,
                    pk_index,
                    codec,
                    decoded,
                    pre.columns,
                    post,
                    result,
                ),
            }
        };
    if let Ok(decoded) = keys {
        let k = first_index(metadata.column_ids(), column_id)->0;
        assert forall|j: int| 0 <= j < k implies (
        #[trigger] metadata.column_metadatas@[j]).column_id != column_id by {
            assert(metadata.column_ids()[j] != column_id);
        }
        let (encoding, answer) = choose|
            encoding: PrimaryKeyEncoding,
            answer: Result<Arc<Column>, E>,
        |
            {
                &&& #[trigger] tag_of(
                    codec,
                    decoded,
                    column_id,
                    pk_index,
                    metadata.column_metadatas@[k].data_type,
                    encoding,
                    answer,
                )
                &&& match answer {
                    Ok(c) => {
                        &&& post == TagDecodeView {
                            decoded: Some(decoded),
                            columns: pre.columns.insert(column_id, c),
                        }
                        &&& result == Ok::<Option<Arc<Column>>, E>(Some(c))
                    },
                    Err(e) => {
                        &&& post == TagDecodeView { decoded: Some(decoded), columns: pre.columns }
                        &&& result == Err::<Option<Arc<Column>>, E>(e)
                    },
                }
            };
        let position = if encoding == PrimaryKeyEncoding::Sparse {
            None
        } else {
            Some(pk_index as usize)
        };
        assert(call_ensures(C::encoding, (codec,), encoding));
        assert(call_ensures(
            C::get_tag_column,
            (
                codec,
                &decoded,
                column_id,
                position,
                &metadata.column_metadatas@[k].data_type,
            ),
            Ok::<Arc<Column>, E>(column),
        ));
    }
}

/// A look-up fails only as the codec does: it could not decode the keys, which
/// were not at hand, and nothing changes, or it could not find the column of the
/// asked id in them, and the keys are then at hand.
pub proof fn law_fails_only_as_the_codec<E, C: PrimaryKeyCodec<E>>(
    metadata: &RegionMetadata,
    column_id: ColumnId,
    input: &Batch,
    codec: &C,
    pre: TagDecodeView<C::Decoded>,
    post: TagDecodeView<C::Decoded>,
    error: E,
)
    requires
        decodes_tag(
            metadata,
            column_id,
            input,
            codec,
            pre,
            post,
            Err::<Option<Arc<Column>>, E>(error),
        ),
    ensures
        metadata.primary_key@.contains(column_id),
        !pre.columns.contains_key(column_id),
        pre.decoded is None && post == pre && call_ensures(
            C::decode_primary_keys,
            (codec, input),
            Err::<C::Decoded, E>(error),
        ) || exists|
            decoded: C::Decoded,
            encoding: PrimaryKeyEncoding,
            position: Option<usize>,
            k: int,
        |
            {
                &&& pre.decoded matches Some(at_hand) ==> decoded == at_hand
                &&& pre.decoded is None ==> call_ensures(
                    C::decode_primary_keys,
                    (codec, input),
                    Ok::<C::Decoded, E>(decoded),
                )
                &&& #[trigger] call_ensures(C::encoding, (codec,), encoding)
                &&& position is None <==> encoding == PrimaryKeyEncoding::Sparse
                &&& position matches Some(p) ==> p < metadata.primary_key@.len()
                    && metadata.primary_key@[p as int] == column_id && forall|j: int|
                    0 <= j < p ==> metadata.primary_key@[j] != column_id
                &&& 0 <= k < metadata.column_metadatas@.len()
                &&& metadata.column_metadatas@[k].column_id == column_id
                &&& forall|j: int|
                    0 <= j < k ==> (#[trigger] metadata.column_metadatas@[j]).column_id != column_id
                &&& #[trigger] call_ensures(
                    C::get_tag_column,
                    (
                        codec,
                        &decoded,
                        column_id,
                        position,
                        &metadata.column_metadatas@[k].data_type,
                    ),
                    Err::<Arc<Column>, E>(error),
                )
                &&& post.decoded == Some(decoded)
                &&& post.columns == pre.columns
            },
{
    let result = Err::<Option<Arc<Column>>, E>(error);
    law_first_index(metadata.primary_key@, column_id);
    law_first_index(metadata.column_ids(), column_id);
    assert(metadata.primary_key@.len() == metadata.primary_key.len());
    let pk_index = first_index(metadata.primary_key@, column_id)->0;
    let keys = choose|keys: Result<C::Decoded, E>|
        {
            &&& #[trigger] keys_of(codec, input, pre, keys)
            &&& match keys {
                Err(e) => post == pre && result == Err::<Option<Arc<Column>>, E>(e),
                Ok(decoded) => fetches_column(
                    metadata,
                    column_id,
                    pk_index,
                    codec,
                    decoded,
                    pre.columns,
                    post,
                    result,
                ),
            }
        };
    if let Ok(decoded) = keys {
        let k = first_index(metadata.column_ids(), column_id)->0;
        assert forall|j: int| 0 <= j < k implies (
        #[trigger] metadata.column_metadatas@[j]).column_id != column_id by {
            assert(metadata.column_ids()[j] != column_id);
        }
        let (encoding, answer) = choose|
            encoding: PrimaryKeyEncoding,
            answer: Result<Arc<Column>, E>,
        |
            {
                &&& #[trigger] tag_of(
                    codec,
                    decoded,
                    column_id,
                    pk_index,
                    metadata.column_metadatas@[k].data_type,
                    encoding,
                    answer,
                )
                &&& match answer {
                    Ok(c) => {
                        &&& post == TagDecodeView {
                            decoded: Some(decoded),
                            columns: pre.columns.insert(column_id, c),
                        }
                        &&& result == Ok::<Option<Arc<Column>>, E>(Some(c))
                    },
                    Err(e) => {
                        &&& post == TagDecodeView { decoded: Some(decoded), columns: pre.columns }
                        &&& result == Err::<Option<Arc<Column>>, E>(e)
                    },
                }
            };
        let position = if encoding == PrimaryKeyEncoding::Sparse {
            None
        } else {
            Some(pk_index as usize)
        };
        assert(call_ensures(C::encoding, (codec,), encoding));
        assert(call_ensures(
            C::get_tag_column,
            (
                codec,
                &decoded,
                column_id,
                position,
                &metadata.column_metadatas@[k].data_type,
            ),
            Err::<Arc<Column>, E>(error),
        ));
    }
}

/// A look-up that gives no column was asked for one that is no tag: it is not in
/// the primary key, and nothing changes, or the region does not know it, and the
/// columns at hand stay the same.
pub proof fn law_no_column_only_for_no_tag<E, C: PrimaryKeyCodec<E>>(
    metadata: &RegionMetadata,
    column_id: ColumnId,
    input: &Batch,
    codec: &C,
    pre: TagDecodeView<C::Decoded>,
    post: TagDecodeView<C::Decoded>,
)
    requires
        decodes_tag(
            metadata,
            column_id,
            input,
            codec,
            pre,
            post,
            Ok::<Option<Arc<Column>>, E>(None),
        ),
    ensures
        post.columns == pre.columns,
        !metadata.primary_key@.contains(column_id) ==> post == pre,
        metadata.primary_key@.contains(column_id) ==> {
            &&& !pre.columns.contains_key(column_id)
            &&& forall|j: int|
                0 <= j < metadata.column_metadatas@.len() ==> (
                #[trigger] metadata.column_metadatas@[j]).column_id != column_id
        },
{
    law_first_index(metadata.primary_key@, column_id);
    law_first_index(metadata.column_ids(), column_id);
    if first_index(metadata.column_ids(), column_id) is None {
        assert forall|j: int| 0 <= j < metadata.column_metadatas@.len() implies (
        #[trigger] metadata.column_metadatas@[j]).column_id != column_id by {
            assert(metadata.column_ids()[j] != column_id);
        }
    }
}

/// A tag column at hand is given as it is, and nothing changes.
pub proof fn law_at_hand_is_given<E, C: PrimaryKeyCodec<E>>(
    metadata: &RegionMetadata,
    column_id: ColumnId,
    input: &Batch,
    codec: &C,
    pre: TagDecodeView<C::Decoded>,
    post: TagDecodeView<C::Decoded>,
    result: Result<Option<Arc<Column>>, E>,
)
    requires
        decodes_tag(metadata, column_id, input, codec, pre, post, result),
        metadata.primary_key@.contains(column_id),
        pre.columns.contains_key(column_id),
    ensures
        post == pre,
        result == Ok::<Option<Arc<Column>>, E>(Some(pre.columns[column_id])),
{
    law_first_index(metadata.primary_key@, column_id);
}

} // verus!
