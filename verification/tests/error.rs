use masp_read_layer::error::{AcquireError, DecodeFailure, QueryContext, ReadError};
use masp_read_layer::text::{append_integer, append_natural};

fn integer(n: i32) -> String {
    let mut text = String::new();
    append_integer(&mut text, n);
    text
}

#[test]
fn integers_are_written_as_the_standard_library_writes_them() {
    for n in [0, 1, 9, 10, 11, 99, 100, 12345, i32::MAX, -1, -9, -10, -2147483647, i32::MIN] {
        assert_eq!(integer(n), format!("{n}"));
    }
    for n in [0u64, 7, 10, 4294967295, u64::MAX] {
        let mut text = String::from("n=");
        append_natural(&mut text, n);
        assert_eq!(text, format!("n={n}"));
    }
}

#[test]
fn range_error_names_the_three_heights() {
    let error = ReadError::RangeExceedsWatermark { from: 3, to: 12, watermark: Some(10) };
    assert_eq!(
        error.message(),
        "Height range 3 -- 12 of the requested txs exceeds latest block height (10)"
    );
    let unmarked = ReadError::RangeExceedsWatermark { from: -1, to: 0, watermark: None };
    assert_eq!(
        unmarked.message(),
        "Height range -1 -- 0 of the requested txs cannot be served: no latest block height is recorded"
    );
}

#[test]
fn query_errors_name_operation_and_heights() {
    assert_eq!(
        ReadError::Query(QueryContext::CommitmentTree { resolved: 20, requested: 25 }).message(),
        "Failed to fetch commitment tree from the db at height 20 (the closest to the provided height 25)"
    );
    assert_eq!(
        ReadError::Query(QueryContext::ClosestHeight { requested: -4 }).message(),
        "Failed to fetch height from the db closest to the provided height -4"
    );
    assert_eq!(
        ReadError::Query(QueryContext::NotesIndex { up_to: 77 }).message(),
        "Failed to retrieve note indices up to block height 77 from db"
    );
    assert_eq!(
        ReadError::Query(QueryContext::Witnesses { resolved: 5 }).message(),
        "Query failed for witnesses at height 5"
    );
    assert_eq!(
        ReadError::Query(QueryContext::Transactions { from: 1, to: 2 }).message(),
        "Failed to get transactions from the database in the height range 1-2"
    );
    assert_eq!(
        QueryContext::WitnessHeight.message(),
        "Query failed to find closest block height"
    );
    assert_eq!(QueryContext::LatestHeight.message(), "Query failed to get latest block height");
    assert_eq!(QueryContext::BlockIndex.message(), "Query failed to get latest block index");
    assert_eq!(
        QueryContext::Watermark.message(),
        "Failed to get the latest block height from the database"
    );
}

#[test]
fn decode_errors_differ_from_fetch_errors() {
    let malformed = ReadError::Decode(DecodeFailure::Malformed);
    let fault = ReadError::Decode(DecodeFailure::Fault);
    let fetch = ReadError::Query(QueryContext::BlockIndex);
    assert_eq!(malformed.message(), "Failed to deserialize block index data");
    assert_eq!(fault.message(), "Task for block index deserialization panicked");
    assert_ne!(malformed, fetch);
    assert_ne!(fault, fetch);
    assert_ne!(malformed, fault);
}

#[test]
fn pool_errors_are_written_out() {
    assert_eq!(
        ReadError::PoolInit { retries: 5 }.message(),
        "Failed to build the pool of db connections after 5 retries"
    );
    assert_eq!(
        ReadError::Acquire(AcquireError::Timeout).message(),
        "Failed to get db connection handle from pool of db connections: the request timed out"
    );
    assert_eq!(
        ReadError::Acquire(AcquireError::Exhausted).message(),
        "Failed to get db connection handle from pool of db connections: the pool is exhausted"
    );
}
