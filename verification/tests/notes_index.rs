use std::sync::Arc;

use masp_read_layer::appstate::{AppState, Tables};
use masp_read_layer::notes_index::{NotesIndexRepository, NotesIndexRepositoryTrait};
use masp_read_layer::records::NoteIndexEntry;

fn note(block_height: i32, note_position: i32) -> NoteIndexEntry {
    NoteIndexEntry {
        block_height,
        block_index: 0,
        masp_tx_index: 0,
        note_position,
        is_fee_unshielding: false,
    }
}

fn notes_repository(notes_index: Vec<NoteIndexEntry>) -> NotesIndexRepository {
    let tables = Tables {
        chain_state: None,
        height_index: vec![],
        commitment_trees: vec![],
        witnesses: vec![],
        notes_index,
        transactions: vec![],
        block_index: None,
    };
    NotesIndexRepository::new(Arc::new(AppState::new(tables).expect("keys are unique")))
}

#[test]
fn notes_up_to_a_height_are_all_those_at_or_below_it() {
    let rows = vec![note(2, 0), note(2, 1), note(5, 2), note(9, 3)];
    let repo = notes_repository(rows.clone());
    assert_eq!(repo.get_notes_index(1), &[][..]);
    assert_eq!(repo.get_notes_index(2), &rows[0..2]);
    assert_eq!(repo.get_notes_index(8), &rows[0..3]);
    assert_eq!(repo.get_notes_index(9), &rows[..]);
    assert_eq!(repo.get_notes_index(i32::MAX), &rows[..]);
}

#[test]
fn notes_kept_out_of_order_come_by_rising_height() {
    let repo = notes_repository(vec![note(9, 3), note(2, 1), note(5, 2), note(2, 0)]);
    assert_eq!(repo.get_notes_index(5), &[note(2, 1), note(2, 0), note(5, 2)][..]);
    assert_eq!(repo.get_notes_index(1), &[][..]);
}
