use std::sync::Arc;

use masp_read_layer::appstate::{AppState, Tables};
use masp_read_layer::error::{DecodeFailure, ReadError};
use masp_read_layer::namada_state::{
    decode_block_index, settle_decoding, tagged_filter, NamadaStateRepository,
    NamadaStateRepositoryTrait,
};
use masp_read_layer::records::FilterRow;
use xorf::{BinaryFuse16, Filter};

fn state_repository(chain_state: Option<i32>, block_index: Option<FilterRow>) -> NamadaStateRepository {
    let tables = Tables {
        chain_state,
        height_index: vec![],
        commitment_trees: vec![],
        witnesses: vec![],
        notes_index: vec![],
        transactions: vec![],
        block_index,
    };
    NamadaStateRepository::new(Arc::new(AppState::new(tables).expect("keys are unique")))
}

fn member_keys() -> Vec<u64> {
    (0..500u64).map(|i| i * 7919 + 13).collect()
}

fn serialized_filter() -> Vec<u8> {
    let filter = BinaryFuse16::try_from(&member_keys()).expect("filter over distinct keys");
    bincode::serialize(&filter).expect("filter serializes")
}

#[test]
fn latest_height_is_the_watermark() {
    assert_eq!(state_repository(Some(42), None).get_latest_height(), Some(42));
    assert_eq!(state_repository(None, None).get_latest_height(), None);
}

#[test]
fn store_without_filter_loads_none() {
    assert!(matches!(state_repository(Some(1), None).get_block_index(), Ok(None)));
}

#[test]
fn filter_round_trip_preserves_membership() {
    let built = BinaryFuse16::try_from(&member_keys()).expect("filter over distinct keys");
    let row = FilterRow { block_height: 77, serialized_data: serialized_filter() };
    let loaded = state_repository(Some(100), Some(row)).get_block_index();
    let (height, filter) = loaded.expect("filter decodes").expect("filter is there");
    assert_eq!(height, 77);
    assert_eq!(filter.len(), built.len());
    for key in member_keys() {
        assert!(filter.contains(&key));
    }
    for candidate in [1u64, 2, 3, 1_000_000_007, u64::MAX, 0xDEAD_BEEF, 424_242] {
        assert_eq!(filter.contains(&candidate), built.contains(&candidate));
    }
}

#[test]
fn filter_height_need_not_be_the_watermark() {
    let row = FilterRow { block_height: 5, serialized_data: serialized_filter() };
    let repo = state_repository(Some(900), Some(row));
    assert_eq!(repo.get_latest_height(), Some(900));
    let (height, _) = repo.get_block_index().expect("filter decodes").expect("filter is there");
    assert_eq!(height, 5);
}

#[test]
fn corrupt_filter_bytes_are_a_decode_error() {
    let mut bytes = serialized_filter();
    bytes.truncate(bytes.len() / 2);
    let row = FilterRow { block_height: 3, serialized_data: bytes };
    let loaded = state_repository(Some(3), Some(row)).get_block_index();
    assert_eq!(loaded.err(), Some(ReadError::Decode(DecodeFailure::Malformed)));

    let empty = FilterRow { block_height: 3, serialized_data: vec![] };
    assert_eq!(
        decode_block_index(&empty).err(),
        Some(ReadError::Decode(DecodeFailure::Malformed))
    );
}

#[test]
fn tagged_filter_carries_the_height_of_the_row() {
    let decoded = bincode::deserialize::<BinaryFuse16>(&serialized_filter());
    let (height, filter) = tagged_filter(12, decoded).expect("filter decodes");
    assert_eq!(height, 12);
    assert!(filter.contains(&13));

    let failed = bincode::deserialize::<BinaryFuse16>(&[1, 2, 3]);
    assert_eq!(tagged_filter(12, failed).err(), Some(ReadError::Decode(DecodeFailure::Malformed)));
}

#[test]
fn decoding_that_broke_down_is_a_fault() {
    assert_eq!(settle_decoding(None).err(), Some(ReadError::Decode(DecodeFailure::Fault)));
    assert_eq!(
        settle_decoding(Some(Err(ReadError::Decode(DecodeFailure::Malformed)))).err(),
        Some(ReadError::Decode(DecodeFailure::Malformed))
    );
    let row = FilterRow { block_height: 8, serialized_data: serialized_filter() };
    let settled = settle_decoding(Some(decode_block_index(&row)));
    assert_eq!(settled.expect("filter decodes").expect("filter is there").0, 8);
}
