//! What a read can fail with. That nothing was found is a result, not an
//! error.

use vstd::prelude::*;
use vstd::string::StringExecFns;
use crate::text::{append_integer, append_natural, integer_text, natural_text};

verus! {

/// Why no connection could be had from the pool.
#[derive(Debug, Clone, Copy, PartialEq, Eq)]
pub enum AcquireError {
    /// The pool has no connection to give and makes no new one.
    Exhausted,
    /// No connection came free within the time allowed for a request.
    Timeout,
}

/// The query that the store failed to answer, with the heights it was
/// asked about.
#[derive(Debug, Clone, Copy, PartialEq, Eq)]
pub enum QueryContext {
    /// The chain watermark, read for its own sake.
    LatestHeight,
    /// The row of the membership filter.
    BlockIndex,
    /// The note positions up to a height.
    NotesIndex { up_to: i32 },
    /// The indexed height closest to the requested one, for a tree.
    ClosestHeight { requested: i32 },
    /// The commitment tree at the resolved height.
    CommitmentTree { resolved: i32, requested: i32 },
    /// The indexed height closest to the requested one, for witnesses.
    WitnessHeight,
    /// The witnesses at the resolved height.
    Witnesses { resolved: i32 },
    /// The chain watermark, read to bound a range of transactions.
    Watermark,
    /// The transactions of a range of heights.
    Transactions { from: i32, to: i32 },
}

/// Why the membership filter could not be rebuilt from its row.
#[derive(Debug, Clone, Copy, PartialEq, Eq)]
pub enum DecodeFailure {
    /// The bytes are not the serialized form of a filter.
    Malformed,
    /// The decoding itself broke down before it gave an answer.
    Fault,
}

/// The errors of the read layer.
#[derive(Debug, Clone, Copy, PartialEq, Eq)]
pub enum ReadError {
    /// The connection pool could not be built, the retries included.
    PoolInit { retries: u32 },
    /// No connection for this request.
    Acquire(AcquireError),
    /// The store failed to answer a query.
    Query(QueryContext),
    /// The membership filter was fetched but could not be decoded.
    Decode(DecodeFailure),
    /// Transactions were requested beyond the height that is known to be
    /// fully indexed. Where the store holds no watermark, no height is
    /// known to be.
    RangeExceedsWatermark { from: i32, to: i32, watermark: Option<i32> },
}

impl QueryContext {
    /// What is said of a query that failed: the operation, and the
    /// heights that it was asked about.
    pub open spec fn message_text(self) -> Seq<char> {
        match self {
            QueryContext::LatestHeight => "Query failed to get latest block height"@,
            QueryContext::BlockIndex => "Query failed to get latest block index"@,
            QueryContext::NotesIndex { up_to } => "Failed to retrieve note indices up to block height "@
                + integer_text(up_to as int) + " from db"@,
            QueryContext::ClosestHeight { requested } =>
                "Failed to fetch height from the db closest to the provided height "@
                + integer_text(requested as int),
            QueryContext::CommitmentTree { resolved, requested } =>
                "Failed to fetch commitment tree from the db at height "@ + integer_text(
                    resolved as int,
                ) + " (the closest to the provided height "@ + integer_text(requested as int)
                    + ")"@,
            QueryContext::WitnessHeight => "Query failed to find closest block height"@,
            QueryContext::Witnesses { resolved } => "Query failed for witnesses at height "@
                + integer_text(resolved as int),
            QueryContext::Watermark => "Failed to get the latest block height from the database"@,
            QueryContext::Transactions { from, to } =>
                "Failed to get transactions from the database in the height range "@
                + integer_text(from as int) + "-"@ + integer_text(to as int),
        }
    }

    /// Writes out what is said of a query that failed.
    pub fn message(&self) -> (text: String)
        ensures
            text@ == self.message_text(),
    {
        match *self {
            QueryContext::LatestHeight => String::from_str(
                "Query failed to get latest block height",
            ),
            QueryContext::BlockIndex => String::from_str("Query failed to get latest block index"),
            QueryContext::NotesIndex { up_to } => {
                let mut text = String::from_str(
                    "Failed to retrieve note indices up to block height ",
                );
                append_integer(&mut text, up_to);
                text.append(" from db");
                text
            },
            QueryContext::ClosestHeight { requested } => {
                let mut text = String::from_str(
                    "Failed to fetch height from the db closest to the provided height ",
                );
                append_integer(&mut text, requested);
                text
            },
            QueryContext::CommitmentTree { resolved, requested } => {
                let mut text = String::from_str(
                    "Failed to fetch commitment tree from the db at height ",
                );
                append_integer(&mut text, resolved);
                text.append(" (the closest to the provided height ");
                append_integer(&mut text, requested);
                text.append(")");
                text
            },
            QueryContext::WitnessHeight => String::from_str(
                "Query failed to find closest block height",
            ),
            QueryContext::Witnesses { resolved } => {
                let mut text = String::from_str("Query failed for witnesses at height ");
                append_integer(&mut text, resolved);
                text
            },
            QueryContext::Watermark => String::from_str(
                "Failed to get the latest block height from the database",
            ),
            QueryContext::Transactions { from, to } => {
                let mut text = String::from_str(
                    "Failed to get transactions from the database in the height range ",
                );
                append_integer(&mut text, from);
                text.append("-");
                append_integer(&mut text, to);
                text
            },
        }
    }
}

impl ReadError {
    /// What is said of an error: what was being done, and at which
    /// heights.
    pub open spec fn message_text(self) -> Seq<char> {
        match self {
            ReadError::PoolInit { retries } => "Failed to build the pool of db connections after "@
                + natural_text(retries as nat) + " retries"@,
            ReadError::Acquire(AcquireError::Exhausted) =>
                "Failed to get db connection handle from pool of db connections: the pool is exhausted"@,
            ReadError::Acquire(AcquireError::Timeout) =>
                "Failed to get db connection handle from pool of db connections: the request timed out"@,
            ReadError::Query(context) => context.message_text(),
            ReadError::Decode(DecodeFailure::Malformed) => "Failed to deserialize block index data"@,
            ReadError::Decode(DecodeFailure::Fault) =>
                "Task for block index deserialization panicked"@,
            ReadError::RangeExceedsWatermark { from, to, watermark: Some(latest) } =>
                "Height range "@ + integer_text(from as int) + " -- "@ + integer_text(to as int)
                + " of the requested txs exceeds latest block height ("@ + integer_text(
                latest as int,
            ) + ")"@,
            ReadError::RangeExceedsWatermark { from, to, watermark: None } => "Height range "@
                + integer_text(from as int) + " -- "@ + integer_text(to as int)
                + " of the requested txs cannot be served: no latest block height is recorded"@,
        }
    }

    /// Writes out what is said of the error.
    pub fn message(&self) -> (text: String)
        ensures
            text@ == self.message_text(),
    {
        match *self {
            ReadError::PoolInit { retries } => {
                let mut text = String::from_str(
                    "Failed to build the pool of db connections after ",
                );
                append_natural(&mut text, retries as u64);
                text.append(" retries");
                text
            },
            ReadError::Acquire(AcquireError::Exhausted) => String::from_str(
                "Failed to get db connection handle from pool of db connections: the pool is exhausted",
            ),
            ReadError::Acquire(AcquireError::Timeout) => String::from_str(
                "Failed to get db connection handle from pool of db connections: the request timed out",
            ),
            ReadError::Query(context) => context.message(),
            ReadError::Decode(DecodeFailure::Malformed) => String::from_str(
                "Failed to deserialize block index data",
            ),
            ReadError::Decode(DecodeFailure::Fault) => String::from_str(
                "Task for block index deserialization panicked",
            ),
            ReadError::RangeExceedsWatermark { from, to, watermark: Some(latest) } => {
                let mut text = String::from_str("Height range ");
                append_integer(&mut text, from);
                text.append(" -- ");
                append_integer(&mut text, to);
                text.append(" of the requested txs exceeds latest block height (");
                append_integer(&mut text, latest);
                text.append(")");
                text
            },
            ReadError::RangeExceedsWatermark { from, to, watermark: None } => {
                let mut text = String::from_str("Height range ");
                append_integer(&mut text, from);
                text.append(" -- ");
                append_integer(&mut text, to);
                text.append(
                    " of the requested txs cannot be served: no latest block height is recorded",
                );
                text
            },
        }
    }
}

} // verus!
