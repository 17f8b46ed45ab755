use redstone_sol::crypto::recover_address;
use redstone_sol::encoder::{RedstonePayload, SignedDataPackage};
use redstone_sol::error::RedstoneError;
use redstone_sol::processor::{min_timestamp, process_redstone_payload};
use redstone_sol::state::{Config, DataPackage, DataPoint, FeedId, Payload, PriceData, U256};
use redstone_sol::util::bytes_to_hex;

/// A known recovery test vector: one signed package body for the feed
/// "BAL_sAVAX_AVAX" and its recoverable signature.
fn sample_message() -> Vec<u8> {
    vec![
        66, 65, 76, 95, 115, 65, 86, 65, 88, 95, 65, 86, 65, 88, 0, 0, 0, 0, 0, 0, 0, 0, 0, 0, 0,
        0, 0, 0, 0, 0, 0, 0, 0, 0, 0, 0, 0, 0, 0, 0, 0, 0, 0, 0, 0, 0, 0, 0, 0, 0, 0, 0, 0, 0, 0,
        0, 0, 0, 0, 0, 172, 164, 188, 52, 1, 146, 166, 216, 247, 144, 0, 0, 0, 32, 0, 0, 1,
    ]
}

fn sample_signature() -> Vec<u8> {
    vec![
        62, 70, 170, 189, 206, 18, 147, 212, 185, 107, 170, 67, 23, 8, 191, 160, 165, 172, 65,
        237, 78, 237, 132, 1, 251, 9, 11, 217, 135, 193, 97, 192, 9, 179, 221, 33, 49, 97, 126,
        103, 59, 54, 25, 253, 28, 26, 68, 198, 62, 38, 239, 210, 227, 184, 56, 5, 92, 52, 13, 37,
        49, 219, 63, 253, 28,
    ]
}

/// The signer addresses of the RedStone production data service.
fn known_signers_hex() -> Vec<&'static str> {
    vec![
        "109b4a318a4f5ddcbca6349b45f881b4137deafb",
        "12470f7aba85c8b81d63137dd5925d6ee114952b",
        "1ea62d73edf8ac05dfcea1a34b9796e937a29eff",
        "2c59617248994d12816ee1fa77ce0a64eeb456bf",
        "83cba8c619fb629b81a65c2e67fe15cf3e3c9747",
    ]
}

fn feed(name: &str) -> FeedId {
    let mut b = name.as_bytes().to_vec();
    b.resize(32, 0);
    FeedId { bytes: b }
}

fn u256_tail(tail: &[u8]) -> U256 {
    let mut b = vec![0u8; 32 - tail.len()];
    b.extend_from_slice(tail);
    U256 { bytes: b }
}

#[test]
fn test_recover_address() {
    let signature = sample_signature();
    let message = sample_message();
    let address = recover_address(&message, &signature).unwrap();
    let hex = bytes_to_hex(&address.bytes);
    assert!(
        known_signers_hex().iter().any(|&s| s == hex),
        "recovered signer {} is not a known production signer",
        hex
    );
}

#[test]
fn recovered_address_changes_when_signed_bytes_change() {
    let signature = sample_signature();
    let message = sample_message();
    let original = recover_address(&message, &signature).unwrap();
    for bit in [0usize, 7, 100, 300, 615] {
        let mut tampered = message.clone();
        tampered[bit / 8] ^= 1 << (bit % 8);
        match recover_address(&tampered, &signature) {
            Ok(other) => assert_ne!(
                other.bytes, original.bytes,
                "flipping bit {} left the recovered signer unchanged",
                bit
            ),
            Err(e) => assert_eq!(e, RedstoneError::InvalidSignature),
        }
    }
}

#[test]
fn bad_recovery_id_is_an_invalid_signature() {
    let mut signature = sample_signature();
    // A recovery byte that is neither 0..=3 nor 27..=30.
    signature[64] = 9;
    match recover_address(&sample_message(), &signature) {
        Err(e) => assert_eq!(e, RedstoneError::InvalidSignature),
        Ok(_) => panic!("a bad recovery id must not recover"),
    }
}

#[test]
fn min_timestamp_is_smallest() {
    let mk = |ts: u64| DataPackage {
        signer_address: redstone_sol::state::SignerAddress { bytes: vec![1; 20] },
        timestamp: ts,
        data_points: vec![],
    };
    let payload = Payload { data_packages: vec![mk(500), mk(200), mk(900)] };
    assert_eq!(min_timestamp(&payload), 200);
}

/// Builds a one-package payload buffer, recovers the signer that its
/// signature yields for its signed byte range, and processes it with a
/// configuration that recognizes exactly that signer.
#[test]
fn process_full_payload_end_to_end() {
    let ts: u64 = 10_000_000;
    let package = SignedDataPackage {
        signature: sample_signature(),
        timestamp: ts,
        data_points: vec![DataPoint { feed_id: feed("AVAX"), value: u256_tail(&[0x07, 0xd0]) }],
    };
    let payload_bytes = RedstonePayload::new(vec![package]).to_bytes();
    // One point of 64 bytes plus 13 header bytes form the signed range,
    // which stands first in the buffer.
    let signable = payload_bytes[0..77].to_vec();
    let signer = recover_address(&signable, &sample_signature()).unwrap();

    let config = Config {
        block_timestamp: ts,
        signer_count_threshold: 1,
        signers: vec![signer],
        feed_ids: vec![feed("AVAX")],
        max_timestamp_delay_ms: 15 * 60 * 1000,
        max_timestamp_ahead_ms: 3 * 60 * 1000,
    };
    let mut price_account = PriceData {
        feed_id: feed(""),
        value: u256_tail(&[]),
        timestamp: 0,
        write_timestamp: 77,
    };
    let r = process_redstone_payload(&feed("AVAX"), payload_bytes, &config, &mut price_account);
    assert_eq!(r, Ok(()));
    assert_eq!(price_account.feed_id.bytes, feed("AVAX").bytes);
    assert_eq!(price_account.value.bytes, u256_tail(&[0x07, 0xd0]).bytes);
    assert_eq!(price_account.timestamp, ts);
    assert_eq!(price_account.write_timestamp, 77);

    // Processing the same buffer again is gated by the stored timestamp.
    let package = SignedDataPackage {
        signature: sample_signature(),
        timestamp: ts,
        data_points: vec![DataPoint { feed_id: feed("AVAX"), value: u256_tail(&[0x07, 0xd0]) }],
    };
    let payload_bytes = RedstonePayload::new(vec![package]).to_bytes();
    let r = process_redstone_payload(&feed("AVAX"), payload_bytes, &config, &mut price_account);
    assert_eq!(r, Err(RedstoneError::TimestampTooOld));
}

#[test]
fn process_rejects_missing_marker() {
    let config = Config {
        block_timestamp: 0,
        signer_count_threshold: 1,
        signers: vec![],
        feed_ids: vec![feed("AVAX")],
        max_timestamp_delay_ms: 1000,
        max_timestamp_ahead_ms: 1000,
    };
    let mut price_account = PriceData {
        feed_id: feed(""),
        value: u256_tail(&[]),
        timestamp: 0,
        write_timestamp: 0,
    };
    let r = process_redstone_payload(
        &feed("AVAX"),
        vec![1, 2, 3, 4, 5, 6, 7, 8, 9, 10],
        &config,
        &mut price_account,
    );
    assert_eq!(r, Err(RedstoneError::InvalidRedstoneMarker));
    assert_eq!(price_account.timestamp, 0);
}

#[test]
fn process_rejects_feed_outside_the_allow_list() {
    let ts: u64 = 10_000_000;
    let package = SignedDataPackage {
        signature: sample_signature(),
        timestamp: ts,
        data_points: vec![DataPoint { feed_id: feed("SOL"), value: u256_tail(&[1]) }],
    };
    let payload_bytes = RedstonePayload::new(vec![package]).to_bytes();
    let signable = payload_bytes[0..77].to_vec();
    let signer = recover_address(&signable, &sample_signature()).unwrap();
    let config = Config {
        block_timestamp: ts,
        signer_count_threshold: 1,
        signers: vec![signer],
        feed_ids: vec![feed("AVAX")],
        max_timestamp_delay_ms: 15 * 60 * 1000,
        max_timestamp_ahead_ms: 3 * 60 * 1000,
    };
    let mut price_account = PriceData {
        feed_id: feed(""),
        value: u256_tail(&[]),
        timestamp: 0,
        write_timestamp: 0,
    };
    let r = process_redstone_payload(&feed("SOL"), payload_bytes, &config, &mut price_account);
    assert_eq!(r, Err(RedstoneError::UnsupportedFeedId));
}

#[test]
fn process_rejects_insufficient_signers() {
    let ts: u64 = 10_000_000;
    let package = SignedDataPackage {
        signature: sample_signature(),
        timestamp: ts,
        data_points: vec![DataPoint { feed_id: feed("AVAX"), value: u256_tail(&[1]) }],
    };
    let payload_bytes = RedstonePayload::new(vec![package]).to_bytes();
    // No recognized signers at threshold one.
    let config = Config {
        block_timestamp: ts,
        signer_count_threshold: 1,
        signers: vec![],
        feed_ids: vec![feed("AVAX")],
        max_timestamp_delay_ms: 15 * 60 * 1000,
        max_timestamp_ahead_ms: 3 * 60 * 1000,
    };
    let mut price_account = PriceData {
        feed_id: feed(""),
        value: u256_tail(&[]),
        timestamp: 0,
        write_timestamp: 0,
    };
    let r = process_redstone_payload(&feed("AVAX"), payload_bytes, &config, &mut price_account);
    assert_eq!(r, Err(RedstoneError::InsufficientSignerCount));
}
