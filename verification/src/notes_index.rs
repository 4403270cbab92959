//! The note positions that were introduced up to a block height.

use std::sync::Arc;
use vstd::prelude::*;
use crate::appstate::{AppState, TableName, Tables};
use crate::records::NoteIndexEntry;
use crate::order::lemma_sorted_form_keeps_rows;
use crate::table::{lemma_rows_up_to_members, ordered_by_height, rows_up_to, select_up_to};

verus! {

/// The note positions introduced at or before the height, in table order.
pub open spec fn notes_up_to(tables: Tables, block_height: i32) -> Seq<NoteIndexEntry> {
    rows_up_to(tables.notes_index@, block_height as int)
}

/// Reads note positions.
#[derive(Clone)]
pub struct NotesIndexRepository {
    pub(crate) app_state: Arc<AppState>,
}

pub trait NotesIndexRepositoryTrait: Sized {
    /// The state that the repository reads.
    spec fn state(&self) -> AppState;

    fn new(app_state: Arc<AppState>) -> (repo: Self)
        ensures
            repo.state() == *app_state,
    ;

    /// The note positions introduced at or before `block_height`: all
    /// that the store handed over, in whatever order it did, by rising
    /// height.
    fn get_notes_index(&self, block_height: i32) -> (notes: &[NoteIndexEntry])
        ensures
            notes@ == notes_up_to(self.state().tables(), block_height),
            ordered_by_height(notes@),
            forall|entry: NoteIndexEntry|
                #[trigger] notes@.contains(entry) <==> (
                self.state().handed_over().notes_index@.contains(entry) && entry.block_height
                    <= block_height),
    ;
}

impl NotesIndexRepositoryTrait for NotesIndexRepository {
    closed spec fn state(&self) -> AppState {
        *self.app_state
    }

    fn new(app_state: Arc<AppState>) -> (repo: Self) {
        Self { app_state }
    }

    fn get_notes_index(&self, block_height: i32) -> (notes: &[NoteIndexEntry]) {
        let db = self.app_state.get_db_connection();
        proof {
            assert(db.table_ordered(TableName::NotesIndex));
            lemma_rows_up_to_members(db.notes_index@, block_height as int);
            lemma_sorted_form_keeps_rows(
                db.notes_index@,
                self.state().handed_over().notes_index@,
            );
        }
        select_up_to(db.notes_index.as_slice(), block_height)
    }
}

} // verus!
