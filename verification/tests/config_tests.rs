use redstone_sol::state::{initialize, update_config, SignerAddress};
use redstone_sol::util::{make_feed_id_bytes, make_instruction_data, make_price_seed};

fn addr(seed: u8) -> SignerAddress {
    SignerAddress { bytes: vec![seed; 20] }
}

#[test]
fn initialize_sets_every_field() {
    let acc = initialize(vec![9u8; 32], vec![addr(1), addr(2)], 2, 1000, 500);
    assert_eq!(acc.owner, vec![9u8; 32]);
    assert_eq!(acc.signers.len(), 2);
    assert_eq!(acc.signer_count_threshold, 2);
    assert_eq!(acc.max_timestamp_delay_ms, 1000);
    assert_eq!(acc.max_timestamp_ahead_ms, 500);
}

#[test]
fn update_config_applies_only_given_fields() {
    let mut acc = initialize(vec![9u8; 32], vec![addr(1)], 1, 1000, 500);
    update_config(&mut acc, None, Some(3), None, Some(900));
    assert_eq!(acc.owner, vec![9u8; 32]);
    assert_eq!(acc.signers.len(), 1);
    assert_eq!(acc.signer_count_threshold, 3);
    assert_eq!(acc.max_timestamp_delay_ms, 1000);
    assert_eq!(acc.max_timestamp_ahead_ms, 900);

    update_config(&mut acc, Some(vec![addr(5), addr(6)]), None, Some(1), None);
    assert_eq!(acc.signers.len(), 2);
    assert_eq!(acc.signers[0].bytes, vec![5u8; 20]);
    assert_eq!(acc.max_timestamp_delay_ms, 1);
    assert_eq!(acc.signer_count_threshold, 3);
}

#[test]
fn feed_id_bytes_are_padded_to_32() {
    let b = make_feed_id_bytes("AVAX".to_string());
    assert_eq!(b.len(), 32);
    assert_eq!(&b[0..4], b"AVAX");
    assert!(b[4..].iter().all(|&x| x == 0));
}

#[test]
fn long_feed_names_are_truncated_to_32() {
    let long = "A".repeat(40);
    let b = make_feed_id_bytes(long);
    assert_eq!(b, vec![b'A'; 32]);
}

#[test]
fn price_seed_is_price_padded_to_32() {
    let b = make_price_seed();
    assert_eq!(b.len(), 32);
    assert_eq!(&b[0..5], b"price");
    assert!(b[5..].iter().all(|&x| x == 0));
}

#[test]
fn instruction_data_layout() {
    let payload = vec![0xaau8, 0xbb, 0xcc];
    let data = make_instruction_data("AVAX".to_string(), payload.clone());
    assert_eq!(&data[0..8], &[49, 96, 127, 141, 118, 203, 237, 178]);
    assert_eq!(&data[8..12], b"AVAX");
    assert!(data[12..40].iter().all(|&x| x == 0));
    assert_eq!(&data[40..44], &[3, 0, 0, 0]);
    assert_eq!(&data[44..], &payload[..]);
}
