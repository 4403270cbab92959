//! The shielded transactions of a range of block heights, served only as
//! far as the chain is known to be fully indexed.

use std::sync::Arc;
use vstd::prelude::*;
use vstd::slice::slice_subrange;
use crate::appstate::{AppState, TableName, Tables};
use crate::error::ReadError;
use crate::order::{
    is_sorted_form, key_before, keys_unique, lemma_sorted_form_keeps_rows,
    lemma_sorted_form_strict_iff_unique, Keyed,
};
use crate::records::{
    in_replay_order, lemma_filter_keeps_replay_order, lemma_replay_order, tx_key,
    without_duplicates, TransactionRecord,
};
use crate::table::{lemma_rows_between_members, rows_between, span_between, HeightKeyed};

verus! {

/// Whether a range of heights may be served under the watermark row of
/// the store. Where the store holds no watermark, no height is known to
/// be fully indexed, and every range is refused. A range that ends above
/// the watermark is refused as well. The refusal names the range and the
/// watermark.
pub open spec fn range_admitted(chain_state: Option<i32>, from: i32, to: i32) -> Result<
    (),
    ReadError,
> {
    match chain_state {
        None => Err(ReadError::RangeExceedsWatermark { from, to, watermark: None }),
        Some(height) => if height < to {
            Err(ReadError::RangeExceedsWatermark { from, to, watermark: Some(height) })
        } else {
            Ok(())
        },
    }
}

/// The transactions of the heights `[from, to]` in replay order, or the
/// refusal of a range that does not lie within the watermark.
pub open spec fn transactions_in_range(tables: Tables, from: i32, to: i32) -> Result<
    Seq<TransactionRecord>,
    ReadError,
> {
    match range_admitted(tables.chain_state, from, to) {
        Err(e) => Err(e),
        Ok(()) => Ok(rows_between(tables.transactions@, from as int, to as int)),
    }
}

/// Decides from the watermark row whether a range of heights may be
/// served.
pub fn check_range(chain_state: Option<i32>, from: i32, to: i32) -> (admitted: Result<
    (),
    ReadError,
>)
    ensures
        admitted == range_admitted(chain_state, from, to),
{
    match chain_state {
        None => Err(ReadError::RangeExceedsWatermark { from, to, watermark: None }),
        Some(height) => if height < to {
            Err(ReadError::RangeExceedsWatermark { from, to, watermark: Some(height) })
        } else {
            Ok(())
        },
    }
}

/// Reads shielded transactions.
#[derive(Clone)]
pub struct TxRepository {
    pub(crate) app_state: Arc<AppState>,
}

pub trait TxRepositoryTrait: Sized {
    /// The state that the repository reads.
    spec fn state(&self) -> AppState;

    fn new(app_state: Arc<AppState>) -> (repo: Self)
        ensures
            repo.state() == *app_state,
    ;

    /// The transactions of the heights `[from, to]`: all that the store
    /// handed over, in whatever order it did, each once, in replay order. A range that ends above the watermark is
    /// refused and yields no transaction, and so is every range while
    /// the store holds no watermark.
    fn get_txs(&self, from_block_height: i32, to_block_height: i32) -> (txs: Result<
        &[TransactionRecord],
        ReadError,
    >)
        ensures
            match txs {
                Ok(rows) => transactions_in_range(
                    self.state().tables(),
                    from_block_height,
                    to_block_height,
                ) == Ok::<Seq<TransactionRecord>, ReadError>(rows@),
                Err(e) => transactions_in_range(
                    self.state().tables(),
                    from_block_height,
                    to_block_height,
                ) == Err::<Seq<TransactionRecord>, ReadError>(e),
            },
            txs is Err <==> (self.state().tables().chain_state is None
                || self.state().tables().chain_state->Some_0 < to_block_height),
            txs is Ok ==> {
                let rows = txs->Ok_0@;
                &&& in_replay_order(rows)
                &&& without_duplicates(rows)
                &&& forall|i: int|
                    0 <= i < rows.len() ==> from_block_height <= (#[trigger] rows[i]).block_height
                        <= to_block_height
                &&& forall|t: TransactionRecord|
                    rows.contains(t) <==> (self.state().handed_over().transactions@.contains(t)
                        && from_block_height <= t.block_height <= to_block_height)
                &&& self.state().tables().chain_state matches Some(height) && forall|i: int|
                    0 <= i < rows.len() ==> (#[trigger] rows[i]).block_height <= height
                &&& forall|k: int|
                    0 <= k < self.state().tables().transactions@.len() && from_block_height <= (
                    #[trigger] self.state().tables().transactions@[k]).block_height
                        <= to_block_height ==> rows.contains(
                        self.state().tables().transactions@[k],
                    )
            },
    ;
}

impl TxRepositoryTrait for TxRepository {
    closed spec fn state(&self) -> AppState {
        *self.app_state
    }

    fn new(app_state: Arc<AppState>) -> (repo: Self) {
        Self { app_state }
    }

    fn get_txs(&self, from_block_height: i32, to_block_height: i32) -> (txs: Result<
        &[TransactionRecord],
        ReadError,
    >) {
        let db = self.app_state.get_db_connection();
        match check_range(db.chain_state, from_block_height, to_block_height) {
            Err(e) => Err(e),
            Ok(()) => {
                let table = db.transactions.as_slice();
                proof {
                    assert(db.table_ordered(TableName::Transactions));
                    lemma_replay_order(table@);
                }
                let span = span_between(table, from_block_height, to_block_height);
                let rows = slice_subrange(table, span.0, span.1);
                proof {
                    assert forall|i: int, j: int| 0 <= i < j < rows@.len() implies key_before(
                        tx_key(rows@[i]),
                        tx_key(rows@[j]),
                    ) by {
                        assert(rows@[i] == table@[span.0 + i]);
                        assert(rows@[j] == table@[span.0 + j]);
                    }
                    lemma_replay_order(rows@);
                    lemma_rows_between_members(
                        table@,
                        from_block_height as int,
                        to_block_height as int,
                    );
                    assert(self.state().handed_over().table_keys_unique(TableName::Transactions));
                    lemma_range_of_any_store(
                        table@,
                        self.state().handed_over().transactions@,
                        from_block_height as int,
                        to_block_height as int,
                    );
                }
                Ok(rows)
            },
        }
    }
}

/// What is served of a store does not depend on the order in which the
/// store keeps its transactions. Of the sorted form of any rows without a
/// shared key, a range of heights selects exactly the rows that came with
/// a height in the range, each once, in replay order.
pub proof fn lemma_range_of_any_store(
    sorted: Seq<TransactionRecord>,
    handed: Seq<TransactionRecord>,
    from: int,
    to: int,
)
    requires
        is_sorted_form(sorted, handed),
        keys_unique(handed),
    ensures
        in_replay_order(rows_between(sorted, from, to)),
        without_duplicates(rows_between(sorted, from, to)),
        forall|t: TransactionRecord|
            rows_between(sorted, from, to).contains(t) <==> (handed.contains(t) && from
                <= t.block_height <= to),
{
    lemma_sorted_form_strict_iff_unique(sorted, handed);
    lemma_sorted_form_keeps_rows(sorted, handed);
    assert forall|i: int, j: int| 0 <= i < j < sorted.len() implies key_before(
        tx_key(sorted[i]),
        tx_key(sorted[j]),
    ) by {
        assert(key_before(sorted[i].key(), sorted[j].key()));
    }
    let pred = |r: TransactionRecord| from <= r.height() <= to;
    lemma_filter_keeps_replay_order(sorted, pred);
    let rows = rows_between(sorted, from, to);
    lemma_replay_order(rows);
    lemma_rows_between_members(sorted, from, to);
    assert forall|t: TransactionRecord| rows.contains(t) <==> (handed.contains(t) && from
        <= t.block_height <= to) by {
        if rows.contains(t) {
            let i = choose|i: int| 0 <= i < rows.len() && rows[i] == t;
            assert(sorted.contains(rows[i]));
        }
        if handed.contains(t) && from <= t.block_height <= to {
            assert(sorted.contains(t));
            let k = choose|k: int| 0 <= k < sorted.len() && sorted[k] == t;
            assert(rows.contains(sorted[k]));
        }
    }
}

} // verus!
