use std::sync::Arc;

use masp_read_layer::appstate::{AppState, Tables};
use masp_read_layer::error::ReadError;
use masp_read_layer::records::TransactionRecord;
use masp_read_layer::tx::{check_range, TxRepository, TxRepositoryTrait};

fn tx(block_height: i32, block_index: i32, masp_tx_index: i32) -> TransactionRecord {
    TransactionRecord {
        block_height,
        block_index,
        masp_tx_index,
        tx_bytes: vec![block_height as u8, block_index as u8, masp_tx_index as u8],
        is_masp_fee_payment: false,
    }
}

fn tables(chain_state: Option<i32>, transactions: Vec<TransactionRecord>) -> Tables {
    Tables {
        chain_state,
        height_index: vec![],
        commitment_trees: vec![],
        witnesses: vec![],
        notes_index: vec![],
        transactions,
        block_index: None,
    }
}

fn repository(chain_state: Option<i32>, transactions: Vec<TransactionRecord>) -> TxRepository {
    let state = AppState::new(tables(chain_state, transactions)).expect("keys are unique");
    TxRepository::new(Arc::new(state))
}

#[test]
fn transactions_of_a_range_come_in_replay_order() {
    let rows = vec![tx(1, 0, 0), tx(2, 0, 0), tx(2, 0, 1), tx(2, 3, 0), tx(4, 1, 0), tx(7, 0, 0)];
    let repo = repository(Some(10), rows.clone());
    let found = repo.get_txs(2, 4).expect("range below the watermark");
    assert_eq!(found, &rows[1..5]);
}

#[test]
fn range_above_the_watermark_is_refused() {
    let repo = repository(Some(5), vec![tx(1, 0, 0), tx(6, 0, 0)]);
    assert_eq!(
        repo.get_txs(1, 6),
        Err(ReadError::RangeExceedsWatermark { from: 1, to: 6, watermark: Some(5) })
    );
}

#[test]
fn range_up_to_the_watermark_is_served() {
    let rows = vec![tx(1, 0, 0), tx(5, 0, 0), tx(5, 1, 0)];
    let repo = repository(Some(5), rows.clone());
    assert_eq!(repo.get_txs(5, 5), Ok(&rows[1..3]));
}

#[test]
fn store_without_watermark_serves_nothing() {
    let repo = repository(None, vec![tx(0, 0, 0)]);
    assert_eq!(
        repo.get_txs(0, 0),
        Err(ReadError::RangeExceedsWatermark { from: 0, to: 0, watermark: None })
    );
    assert_eq!(
        repo.get_txs(-5, -1),
        Err(ReadError::RangeExceedsWatermark { from: -5, to: -1, watermark: None })
    );
    assert_eq!(
        check_range(None, 0, 1),
        Err(ReadError::RangeExceedsWatermark { from: 0, to: 1, watermark: None })
    );
    assert_eq!(
        check_range(None, i32::MIN, i32::MIN),
        Err(ReadError::RangeExceedsWatermark { from: i32::MIN, to: i32::MIN, watermark: None })
    );
}

#[test]
fn watermark_bounds_the_end_of_the_range_only() {
    assert_eq!(check_range(Some(0), -3, 0), Ok(()));
    assert_eq!(check_range(Some(7), 9, 7), Ok(()));
    assert_eq!(
        check_range(Some(7), 0, 8),
        Err(ReadError::RangeExceedsWatermark { from: 0, to: 8, watermark: Some(7) })
    );
    assert_eq!(
        check_range(Some(-2), -9, -1),
        Err(ReadError::RangeExceedsWatermark { from: -9, to: -1, watermark: Some(-2) })
    );
}

#[test]
fn transactions_kept_out_of_order_are_served_in_replay_order() {
    let rows = vec![tx(5, 1, 0), tx(3, 2, 0), tx(5, 0, 1), tx(7, 0, 0), tx(5, 0, 0), tx(2, 9, 9)];
    let repo = repository(Some(10), rows);
    let expected = vec![tx(3, 2, 0), tx(5, 0, 0), tx(5, 0, 1), tx(5, 1, 0)];
    assert_eq!(repo.get_txs(3, 5), Ok(&expected[..]));
    let all = vec![tx(2, 9, 9), tx(3, 2, 0), tx(5, 0, 0), tx(5, 0, 1), tx(5, 1, 0), tx(7, 0, 0)];
    assert_eq!(repo.get_txs(i32::MIN, 10), Ok(&all[..]));
}

#[test]
fn inverted_range_is_empty() {
    let repo = repository(Some(10), vec![tx(1, 0, 0), tx(2, 0, 0), tx(3, 0, 0)]);
    assert_eq!(repo.get_txs(3, 1), Ok(&[][..]));
}
