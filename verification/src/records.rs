//! The rows of the store's tables.

use vstd::prelude::*;
use crate::order::{key_before, Keyed};
use crate::table::HeightKeyed;

verus! {

/// The state of the commitment tree as it stood after one block.
#[derive(Debug, Clone, PartialEq, Eq)]
pub struct TreeSnapshot {
    pub block_height: i32,
    pub tree: Vec<u8>,
}

/// The witness of one note position, valid at one block height.
#[derive(Debug, Clone, PartialEq, Eq)]
pub struct WitnessRecord {
    pub block_height: i32,
    pub witness_idx: i32,
    pub witness_bytes: Vec<u8>,
}

/// The position of one note, and where in its block the note was made.
#[derive(Debug, Clone, PartialEq, Eq)]
pub struct NoteIndexEntry {
    pub block_height: i32,
    pub block_index: i32,
    pub masp_tx_index: i32,
    pub note_position: i32,
    pub is_fee_unshielding: bool,
}

/// One shielded transaction. Its place in the chain is the triple of block
/// height, index within the block, and index among the shielded
/// transactions at that place of the block.
#[derive(Debug, Clone, PartialEq, Eq)]
pub struct TransactionRecord {
    pub block_height: i32,
    pub block_index: i32,
    pub masp_tx_index: i32,
    pub tx_bytes: Vec<u8>,
    pub is_masp_fee_payment: bool,
}

/// The membership filter as the store keeps it: the height at which it was
/// last rebuilt, and its serialized form.
#[derive(Debug, Clone, PartialEq, Eq)]
pub struct FilterRow {
    pub block_height: i32,
    pub serialized_data: Vec<u8>,
}

impl HeightKeyed for TreeSnapshot {
    open spec fn height(&self) -> int {
        self.block_height as int
    }

    fn block_height(&self) -> (h: i32) {
        self.block_height
    }
}

impl HeightKeyed for WitnessRecord {
    open spec fn height(&self) -> int {
        self.block_height as int
    }

    fn block_height(&self) -> (h: i32) {
        self.block_height
    }
}

impl HeightKeyed for NoteIndexEntry {
    open spec fn height(&self) -> int {
        self.block_height as int
    }

    fn block_height(&self) -> (h: i32) {
        self.block_height
    }
}

impl HeightKeyed for TransactionRecord {
    open spec fn height(&self) -> int {
        self.block_height as int
    }

    fn block_height(&self) -> (h: i32) {
        self.block_height
    }
}

/// The place of a transaction in the chain.
pub open spec fn tx_key(t: TransactionRecord) -> (int, int, int) {
    (t.block_height as int, t.block_index as int, t.masp_tx_index as int)
}

/// Every transaction stands before all those that are replayed after it:
/// the order is by block height, then by index in the block, then by index
/// among the shielded transactions.
pub open spec fn in_replay_order(rows: Seq<TransactionRecord>) -> bool {
    forall|i: int, j: int| 0 <= i < j < rows.len() ==> key_before(tx_key(rows[i]), tx_key(rows[j]))
}

/// No transaction occurs at two places.
pub open spec fn without_duplicates(rows: Seq<TransactionRecord>) -> bool {
    forall|i: int, j: int| 0 <= i < j < rows.len() ==> rows[i] != rows[j]
}

/// Transactions in replay order stand in the order of their heights, and
/// none of them occurs twice.
pub proof fn lemma_replay_order(rows: Seq<TransactionRecord>)
    requires
        in_replay_order(rows),
    ensures
        crate::table::ordered_by_height(rows),
        without_duplicates(rows),
{
    assert forall|i: int, j: int| 0 <= i <= j < rows.len() implies rows[i].height() <= rows[j].height() by {
        if i < j {
            assert(key_before(tx_key(rows[i]), tx_key(rows[j])));
        }
    }
    assert forall|i: int, j: int| 0 <= i < j < rows.len() implies rows[i] != rows[j] by {
        assert(key_before(tx_key(rows[i]), tx_key(rows[j])));
    }
}

/// Picking rows out of transactions in replay order leaves them in replay
/// order.
pub proof fn lemma_filter_keeps_replay_order(
    rows: Seq<TransactionRecord>,
    pred: spec_fn(TransactionRecord) -> bool,
)
    requires
        in_replay_order(rows),
    ensures
        in_replay_order(rows.filter(pred)),
    decreases rows.len(),
{
    reveal(Seq::filter);
    if rows.len() > 0 {
        let front = rows.drop_last();
        lemma_filter_keeps_replay_order(front, pred);
        let picked = front.filter(pred);
        if pred(rows.last()) {
            assert forall|i: int, j: int| 0 <= i < j < picked.len() + 1 implies key_before(
                tx_key(picked.push(rows.last())[i]),
                tx_key(picked.push(rows.last())[j]),
            ) by {
                if j == picked.len() {
                    assert(picked.contains(picked[i]));
                    front.lemma_filter_contains_rev(pred, picked[i]);
                    let k = choose|k: int| 0 <= k < front.len() && front[k] == picked[i];
                    assert(key_before(tx_key(rows[k]), tx_key(rows[rows.len() - 1])));
                }
            }
        }
    }
}

/// Transactions in replay order are known by which they are: two runs in
/// replay order that hold the same transactions are one and the same.
pub proof fn lemma_replay_order_pins(a: Seq<TransactionRecord>, b: Seq<TransactionRecord>)
    requires
        in_replay_order(a),
        in_replay_order(b),
        forall|t: TransactionRecord| a.contains(t) <==> b.contains(t),
    ensures
        a == b,
    decreases a.len(),
{
    if a.len() == 0 {
        if b.len() > 0 {
            assert(b.contains(b[0]));
        }
        assert(a =~= b);
    } else {
        let la = a.len() - 1;
        assert(a.contains(a[la]));
        let jb = choose|j: int| 0 <= j < b.len() && b[j] == a[la];
        let lb = b.len() - 1;
        assert(b.contains(b[lb]));
        let ia = choose|i: int| 0 <= i < a.len() && a[i] == b[lb];
        if jb < lb {
            assert(key_before(tx_key(b[jb]), tx_key(b[lb])));
            if ia < la {
                assert(key_before(tx_key(a[ia]), tx_key(a[la])));
            }
        }
        assert(a[la] == b[lb]);
        let fa = a.drop_last();
        let fb = b.drop_last();
        assert forall|t: TransactionRecord| fa.contains(t) <==> fb.contains(t) by {
            if fa.contains(t) {
                let i = choose|i: int| 0 <= i < fa.len() && fa[i] == t;
                assert(a[i] == t);
                assert(a.contains(t));
                let j = choose|j: int| 0 <= j < b.len() && b[j] == t;
                assert(key_before(tx_key(a[i]), tx_key(a[la])));
                assert(j < lb);
                assert(fb[j] == t);
            }
            if fb.contains(t) {
                let j = choose|j: int| 0 <= j < fb.len() && fb[j] == t;
                assert(b[j] == t);
                assert(b.contains(t));
                let i = choose|i: int| 0 <= i < a.len() && a[i] == t;
                assert(key_before(tx_key(b[j]), tx_key(b[lb])));
                assert(i < la);
                assert(fa[i] == t);
            }
        }
        lemma_replay_order_pins(fa, fb);
        assert(a =~= fa.push(a[la]));
        assert(b =~= fb.push(b[lb]));
    }
}

/// Tells whether `a` is replayed before `b`.
pub fn replayed_before(a: &TransactionRecord, b: &TransactionRecord) -> (before: bool)
    ensures
        before == key_before(tx_key(*a), tx_key(*b)),
{
    a.block_height < b.block_height || (a.block_height == b.block_height && (a.block_index
        < b.block_index || (a.block_index == b.block_index && a.masp_tx_index < b.masp_tx_index)))
}

impl Keyed for i32 {
    open spec fn key(&self) -> (int, int, int) {
        (*self as int, 0, 0)
    }

    fn precedes(&self, other: &Self) -> (before: bool) {
        *self < *other
    }
}

impl Keyed for TreeSnapshot {
    open spec fn key(&self) -> (int, int, int) {
        (self.block_height as int, 0, 0)
    }

    fn precedes(&self, other: &Self) -> (before: bool) {
        self.block_height < other.block_height
    }
}

impl Keyed for WitnessRecord {
    open spec fn key(&self) -> (int, int, int) {
        (self.block_height as int, 0, 0)
    }

    fn precedes(&self, other: &Self) -> (before: bool) {
        self.block_height < other.block_height
    }
}

impl Keyed for NoteIndexEntry {
    open spec fn key(&self) -> (int, int, int) {
        (self.block_height as int, 0, 0)
    }

    fn precedes(&self, other: &Self) -> (before: bool) {
        self.block_height < other.block_height
    }
}

impl Keyed for TransactionRecord {
    open spec fn key(&self) -> (int, int, int) {
        tx_key(*self)
    }

    fn precedes(&self, other: &Self) -> (before: bool) {
        replayed_before(self, other)
    }
}

} // verus!
