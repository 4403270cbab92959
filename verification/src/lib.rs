//! A verified read layer for the state of a shielded-pool indexer.
//!
//! The tables that the indexer's store holds are modelled as values, and the
//! read operations on them (snapshot resolution by closest preceding height,
//! transaction ranges bounded by the chain watermark, decoding of the
//! membership filter) are executable functions whose contracts Verus proves.
//! The schedule by which the connection pool is bootstrapped, with bounded
//! retries and exponential backoff, is part of the library as well.

pub mod appstate;
pub mod backoff;
pub mod bootstrap;
pub mod client;
pub mod error;
pub mod namada_state;
pub mod notes_index;
pub mod order;
pub mod records;
pub mod settings;
pub mod snapshot;
pub mod table;
pub mod text;
pub mod tree;
pub mod tx;
pub mod witness_map;
