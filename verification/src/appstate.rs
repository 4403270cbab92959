//! The state that the repositories share: the tables of the store, each
//! brought into the order of its key.

use vstd::prelude::*;
use crate::order::{
    is_sorted_form, is_strictly_ordered_by_key, key_before, keys_unique,
    lemma_sorted_form_strict_iff_unique, sort_by_key, Keyed,
};
use crate::records::{
    in_replay_order, tx_key, FilterRow, NoteIndexEntry, TransactionRecord, TreeSnapshot,
    WitnessRecord,
};
use crate::table::{ordered_by_height, strictly_ordered_by_height, HeightKeyed};

verus! {

/// The tables as they are handed over, in whatever order their rows are.
#[derive(Debug, Clone, PartialEq, Eq)]
pub struct Tables {
    /// The chain watermark: the highest block height that is fully indexed.
    pub chain_state: Option<i32>,
    /// The heights at which the shielded state changed.
    pub height_index: Vec<i32>,
    /// The commitment tree after each such height.
    pub commitment_trees: Vec<TreeSnapshot>,
    /// The witnesses valid at each such height.
    pub witnesses: Vec<WitnessRecord>,
    /// The note positions, by the height that introduced them.
    pub notes_index: Vec<NoteIndexEntry>,
    /// The shielded transactions.
    pub transactions: Vec<TransactionRecord>,
    /// The membership filter.
    pub block_index: Option<FilterRow>,
}

/// The tables by name.
#[derive(Debug, Clone, Copy, PartialEq, Eq)]
pub enum TableName {
    HeightIndex,
    CommitmentTrees,
    Witnesses,
    NotesIndex,
    Transactions,
}

impl Tables {
    /// Whether the rows of one table stand in the order of its key: the
    /// height index and the trees by strictly rising height, witnesses and
    /// note positions by height, transactions in replay order.
    pub open spec fn table_ordered(&self, name: TableName) -> bool {
        match name {
            TableName::HeightIndex => strictly_ordered_by_height(self.height_index@),
            TableName::CommitmentTrees => strictly_ordered_by_height(self.commitment_trees@),
            TableName::Witnesses => ordered_by_height(self.witnesses@),
            TableName::NotesIndex => ordered_by_height(self.notes_index@),
            TableName::Transactions => in_replay_order(self.transactions@),
        }
    }

    /// Whether every table stands in the order of its key.
    pub open spec fn ordered(&self) -> bool {
        forall|name: TableName| self.table_ordered(name)
    }

    /// Whether no two rows of a table share the key that the table is
    /// keyed by: the height for the height index and the trees, the place
    /// in the chain for the transactions. Witnesses and note positions
    /// are many to a height.
    pub open spec fn table_keys_unique(&self, name: TableName) -> bool {
        match name {
            TableName::HeightIndex => keys_unique(self.height_index@),
            TableName::CommitmentTrees => keys_unique(self.commitment_trees@),
            TableName::Witnesses => true,
            TableName::NotesIndex => true,
            TableName::Transactions => keys_unique(self.transactions@),
        }
    }

    /// The first table, in the order of the names, in which two rows
    /// share a key.
    pub open spec fn first_duplicate(&self) -> Option<TableName> {
        if !self.table_keys_unique(TableName::HeightIndex) {
            Some(TableName::HeightIndex)
        } else if !self.table_keys_unique(TableName::CommitmentTrees) {
            Some(TableName::CommitmentTrees)
        } else if !self.table_keys_unique(TableName::Transactions) {
            Some(TableName::Transactions)
        } else {
            None
        }
    }

    /// Whether these are the tables `handed`, each sorted by its key: the
    /// same rows, rows of one key in the order in which they came. The
    /// watermark and the filter are as they came.
    pub open spec fn sorted_form_of(&self, handed: Tables) -> bool {
        &&& self.chain_state == handed.chain_state
        &&& self.block_index == handed.block_index
        &&& is_sorted_form(self.height_index@, handed.height_index@)
        &&& is_sorted_form(self.commitment_trees@, handed.commitment_trees@)
        &&& is_sorted_form(self.witnesses@, handed.witnesses@)
        &&& is_sorted_form(self.notes_index@, handed.notes_index@)
        &&& is_sorted_form(self.transactions@, handed.transactions@)
    }

    /// Whether a commitment tree is recorded for the height.
    pub open spec fn has_tree_at(&self, height: int) -> bool {
        exists|k: int|
            0 <= k < self.commitment_trees@.len() && (
            #[trigger] self.commitment_trees@[k]).block_height == height
    }

    /// Whether every indexed height has its commitment tree.
    pub open spec fn every_height_has_tree(&self) -> bool {
        forall|i: int|
            0 <= i < self.height_index@.len() ==> self.has_tree_at(
                #[trigger] self.height_index@[i] as int,
            )
    }
}

/// Two rows of one table share a key, so the table cannot be keyed by it.
#[derive(Debug, Clone, Copy, PartialEq, Eq)]
pub struct DuplicateKey {
    pub table: TableName,
}

/// The store as the repositories read it. Its tables are in order, and
/// nothing in this library changes them.
pub struct AppState {
    db: Tables,
    handed: Ghost<Tables>,
}

impl AppState {
    #[verifier::type_invariant]
    spec fn in_order(&self) -> bool {
        &&& self.db.ordered()
        &&& self.db.sorted_form_of(self.handed@)
        &&& self.handed@.first_duplicate() is None
    }

    /// The tables that the state holds, each in the order of its key.
    pub closed spec fn tables(&self) -> Tables {
        self.db
    }

    /// The tables as the store handed them over.
    pub closed spec fn handed_over(&self) -> Tables {
        self.handed@
    }

    /// Takes the tables over, in whatever order their rows come, and
    /// brings each into the order of its key. Tables in which two rows
    /// share the key are refused: the first of them is named.
    pub fn new(db: Tables) -> (state: Result<AppState, DuplicateKey>)
        ensures
            match state {
                Ok(s) => db.first_duplicate() is None && s.handed_over() == db
                    && s.tables().sorted_form_of(db) && s.tables().ordered(),
                Err(e) => db.first_duplicate() == Some(e.table),
            },
    {
        let ghost handed = db;
        let Tables {
            chain_state,
            height_index,
            commitment_trees,
            witnesses,
            notes_index,
            transactions,
            block_index,
        } = db;

        let height_index = sort_by_key(height_index);
        proof {
            lemma_sorted_form_strict_iff_unique(height_index@, handed.height_index@);
        }
        if !is_strictly_ordered_by_key(height_index.as_slice()) {
            return Err(DuplicateKey { table: TableName::HeightIndex });
        }
        let commitment_trees = sort_by_key(commitment_trees);
        proof {
            lemma_sorted_form_strict_iff_unique(commitment_trees@, handed.commitment_trees@);
        }
        if !is_strictly_ordered_by_key(commitment_trees.as_slice()) {
            return Err(DuplicateKey { table: TableName::CommitmentTrees });
        }
        let transactions = sort_by_key(transactions);
        proof {
            lemma_sorted_form_strict_iff_unique(transactions@, handed.transactions@);
        }
        if !is_strictly_ordered_by_key(transactions.as_slice()) {
            return Err(DuplicateKey { table: TableName::Transactions });
        }
        let witnesses = sort_by_key(witnesses);
        let notes_index = sort_by_key(notes_index);

        let sorted = Tables {
            chain_state,
            height_index,
            commitment_trees,
            witnesses,
            notes_index,
            transactions,
            block_index,
        };
        proof {
            assert forall|name: TableName| sorted.table_ordered(name) by {
                match name {
                    TableName::HeightIndex => {
                        let rows = sorted.height_index@;
                        assert forall|i: int, j: int| 0 <= i < j < rows.len() implies rows[i].height()
                            < rows[j].height() by {
                            assert(key_before(rows[i].key(), rows[j].key()));
                        }
                    },
                    TableName::CommitmentTrees => {
                        let rows = sorted.commitment_trees@;
                        assert forall|i: int, j: int| 0 <= i < j < rows.len() implies rows[i].height()
                            < rows[j].height() by {
                            assert(key_before(rows[i].key(), rows[j].key()));
                        }
                    },
                    TableName::Witnesses => {
                        let rows = sorted.witnesses@;
                        assert forall|i: int, j: int| 0 <= i <= j < rows.len() implies rows[i].height()
                            <= rows[j].height() by {
                            if i < j {
                                assert(!key_before(rows[j].key(), rows[i].key()));
                            }
                        }
                    },
                    TableName::NotesIndex => {
                        let rows = sorted.notes_index@;
                        assert forall|i: int, j: int| 0 <= i <= j < rows.len() implies rows[i].height()
                            <= rows[j].height() by {
                            if i < j {
                                assert(!key_before(rows[j].key(), rows[i].key()));
                            }
                        }
                    },
                    TableName::Transactions => {
                        let rows = sorted.transactions@;
                        assert forall|i: int, j: int| 0 <= i < j < rows.len() implies key_before(
                            tx_key(rows[i]),
                            tx_key(rows[j]),
                        ) by {
                            assert(key_before(rows[i].key(), rows[j].key()));
                        }
                    },
                }
            }
        }
        Ok(AppState { db: sorted, handed: Ghost(handed) })
    }

    /// Gives read access to the tables, in their order.
    pub fn get_db_connection(&self) -> (db: &Tables)
        ensures
            *db == self.tables(),
            db.ordered(),
            db.sorted_form_of(self.handed_over()),
            self.handed_over().first_duplicate() is None,
    {
        proof {
            use_type_invariant(self);
        }
        &self.db
    }
}

} // verus!
