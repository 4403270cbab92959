use std::sync::Arc;

use masp_read_layer::appstate::{AppState, Tables};
use masp_read_layer::records::WitnessRecord;
use masp_read_layer::snapshot::Resolution;
use masp_read_layer::witness_map::{witnesses_of, WitnessMapRepository, WitnessMapRepositoryTrait};

fn witness(block_height: i32, witness_idx: i32) -> WitnessRecord {
    WitnessRecord { block_height, witness_idx, witness_bytes: vec![block_height as u8, witness_idx as u8] }
}

fn witness_repository(height_index: Vec<i32>, witnesses: Vec<WitnessRecord>) -> WitnessMapRepository {
    let tables = Tables {
        chain_state: None,
        height_index,
        commitment_trees: vec![],
        witnesses,
        notes_index: vec![],
        transactions: vec![],
        block_index: None,
    };
    WitnessMapRepository::new(Arc::new(AppState::new(tables).expect("keys are unique")))
}

#[test]
fn witnesses_come_from_the_closest_preceding_height() {
    let rows = vec![witness(10, 0), witness(10, 1), witness(20, 0), witness(20, 1), witness(20, 2)];
    let repo = witness_repository(vec![10, 20], rows.clone());
    assert_eq!(repo.get_witnesses(15), (&rows[0..2], 10));
    assert_eq!(repo.get_witnesses(10), (&rows[0..2], 10));
    assert_eq!(repo.get_witnesses(20), (&rows[2..5], 20));
    assert_eq!(repo.get_witnesses(99), (&rows[2..5], 20));
}

#[test]
fn witnesses_below_the_first_height_are_empty_under_the_requested_height() {
    let repo = witness_repository(vec![10, 20], vec![witness(10, 0), witness(20, 0)]);
    assert_eq!(repo.get_witnesses(7), (&[][..], 7));
    assert_eq!(repo.get_witnesses(-1), (&[][..], -1));
}

#[test]
fn indexed_height_without_witnesses_gives_the_empty_set_under_that_height() {
    let repo = witness_repository(vec![10, 20], vec![witness(10, 0)]);
    assert_eq!(repo.get_witnesses(30), (&[][..], 20));
}

#[test]
fn witnesses_kept_out_of_order_come_in_the_order_they_were_handed_over() {
    let rows = vec![witness(20, 2), witness(10, 1), witness(20, 0), witness(10, 0), witness(20, 1)];
    let repo = witness_repository(vec![20, 10], rows);
    assert_eq!(repo.get_witnesses(12), (&[witness(10, 1), witness(10, 0)][..], 10));
    assert_eq!(
        repo.get_witnesses(25),
        (&[witness(20, 2), witness(20, 0), witness(20, 1)][..], 20)
    );
    assert_eq!(repo.get_witnesses(5), (&[][..], 5));
}

#[test]
fn witnesses_of_falls_back_to_the_empty_set() {
    let rows = vec![witness(3, 0)];
    assert_eq!(
        witnesses_of(8, Resolution::Found { height: 3, payload: rows.clone() }, Vec::new()),
        (rows, 3)
    );
    assert_eq!(
        witnesses_of(8, Resolution::<Vec<WitnessRecord>>::NotFound, Vec::new()),
        (Vec::new(), 8)
    );
}
