//! The state of the chain as far as it is indexed: the watermark, and the
//! membership filter over the indexed blocks.

use std::sync::Arc;
use vstd::prelude::*;
use crate::appstate::{AppState, Tables};
use crate::error::{DecodeFailure, ReadError};
use crate::records::FilterRow;

verus! {

/// `xorf::BinaryFuse16`, the membership filter. It is carried through as
/// it is: nothing here looks inside it.
#[verifier::external_type_specification]
#[verifier::external_body]
pub struct ExBinaryFuse16(xorf::BinaryFuse16);

/// `bincode::ErrorKind`, what a failed decoding hands back. Only that the
/// decoding failed is read from it.
#[verifier::external_type_specification]
#[verifier::external_body]
pub struct ExBincodeErrorKind(bincode::ErrorKind);

/// The filter that a byte buffer is the serialized form of, if it is the
/// serialized form of one.
pub uninterp spec fn decoded_filter(bytes: Seq<u8>) -> Option<xorf::BinaryFuse16>;

/// Calls `bincode::deserialize` for a `xorf::BinaryFuse16`. The contract
/// claims only that the outcome is a function of the bytes: the same bytes
/// decode to the same filter, or fail, every time.
#[verifier::external_body]
fn deserialize_filter(bytes: &[u8]) -> (decoded: Result<xorf::BinaryFuse16, Box<bincode::ErrorKind>>)
    ensures
        match decoded {
            Ok(filter) => decoded_filter(bytes@) == Some(filter),
            Err(_) => decoded_filter(bytes@) is None,
        },
{
    bincode::deserialize::<xorf::BinaryFuse16>(bytes)
}

/// The filter of a row, tagged with the height of the row, or the failure
/// to decode it.
pub open spec fn filter_of_row(row: FilterRow) -> Result<(i32, xorf::BinaryFuse16), ReadError> {
    match decoded_filter(row.serialized_data@) {
        Some(filter) => Ok((row.block_height, filter)),
        None => Err(ReadError::Decode(DecodeFailure::Malformed)),
    }
}

/// The latest membership filter with the height that it was rebuilt at:
/// none where the store holds no filter, an error where its bytes do not
/// decode.
pub open spec fn block_index_of(tables: Tables) -> Result<
    Option<(i32, xorf::BinaryFuse16)>,
    ReadError,
> {
    match tables.block_index {
        None => Ok(None),
        Some(row) => match filter_of_row(row) {
            Ok(tagged) => Ok(Some(tagged)),
            Err(e) => Err(e),
        },
    }
}

/// Tags a decoded filter with its height. A failure to decode becomes the
/// error that tells corrupt data from missing data.
pub fn tagged_filter(
    block_height: i32,
    decoded: Result<xorf::BinaryFuse16, Box<bincode::ErrorKind>>,
) -> (tagged: Result<(i32, xorf::BinaryFuse16), ReadError>)
    ensures
        match decoded {
            Ok(filter) => tagged == Ok::<(i32, xorf::BinaryFuse16), ReadError>(
                (block_height, filter),
            ),
            Err(_) => tagged == Err::<(i32, xorf::BinaryFuse16), ReadError>(
                ReadError::Decode(DecodeFailure::Malformed),
            ),
        },
{
    match decoded {
        Ok(filter) => Ok((block_height, filter)),
        Err(_) => Err(ReadError::Decode(DecodeFailure::Malformed)),
    }
}

/// Decodes the filter of a row.
pub fn decode_block_index(row: &FilterRow) -> (tagged: Result<(i32, xorf::BinaryFuse16), ReadError>)
    ensures
        tagged == filter_of_row(*row),
{
    tagged_filter(row.block_height, deserialize_filter(row.serialized_data.as_slice()))
}

/// What the loader returns once the decoding, which runs apart from the
/// requests, has ended: its result, or the fault where it broke down
/// without one.
pub fn settle_decoding(ended: Option<Result<(i32, xorf::BinaryFuse16), ReadError>>) -> (loaded: Result<
    Option<(i32, xorf::BinaryFuse16)>,
    ReadError,
>)
    ensures
        loaded == match ended {
            None => Err::<Option<(i32, xorf::BinaryFuse16)>, ReadError>(
                ReadError::Decode(DecodeFailure::Fault),
            ),
            Some(Ok(tagged)) => Ok(Some(tagged)),
            Some(Err(e)) => Err(e),
        },
{
    match ended {
        None => Err(ReadError::Decode(DecodeFailure::Fault)),
        Some(Ok(tagged)) => Ok(Some(tagged)),
        Some(Err(e)) => Err(e),
    }
}

/// Reads the chain state.
#[derive(Clone)]
pub struct NamadaStateRepository {
    pub(crate) app_state: Arc<AppState>,
}

pub trait NamadaStateRepositoryTrait: Sized {
    /// The state that the repository reads.
    spec fn state(&self) -> AppState;

    fn new(app_state: Arc<AppState>) -> (repo: Self)
        ensures
            repo.state() == *app_state,
    ;

    /// The chain watermark: the highest block height that is fully
    /// indexed. None only where the store holds no watermark at all.
    fn get_latest_height(&self) -> (latest: Option<i32>)
        ensures
            latest == self.state().tables().chain_state,
            latest == self.state().handed_over().chain_state,
    ;

    /// The latest membership filter, decoded, with the height that it was
    /// rebuilt at.
    fn get_block_index(&self) -> (loaded: Result<Option<(i32, xorf::BinaryFuse16)>, ReadError>)
        ensures
            loaded == block_index_of(self.state().tables()),
            loaded == block_index_of(self.state().handed_over()),
    ;
}

impl NamadaStateRepositoryTrait for NamadaStateRepository {
    closed spec fn state(&self) -> AppState {
        *self.app_state
    }

    fn new(app_state: Arc<AppState>) -> (repo: Self) {
        Self { app_state }
    }

    fn get_latest_height(&self) -> (latest: Option<i32>) {
        self.app_state.get_db_connection().chain_state
    }

    fn get_block_index(&self) -> (loaded: Result<Option<(i32, xorf::BinaryFuse16)>, ReadError>) {
        match &self.app_state.get_db_connection().block_index {
            None => Ok(None),
            Some(row) => settle_decoding(Some(decode_block_index(row))),
        }
    }
}

} // verus!
