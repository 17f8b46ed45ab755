use redstone_sol::error::RedstoneError;
use redstone_sol::redstone::{verify_data_packages, verify_signer_count, verify_timestamp};
use redstone_sol::state::{Config, DataPackage, FeedId, Payload, SignerAddress};

fn addr(seed: u8) -> SignerAddress {
    SignerAddress { bytes: vec![seed; 20] }
}

fn package(signer: u8, timestamp: u64) -> DataPackage {
    DataPackage {
        signer_address: addr(signer),
        timestamp,
        data_points: vec![],
    }
}

fn config(block_timestamp: u64, threshold: u8, signers: Vec<SignerAddress>) -> Config {
    Config {
        block_timestamp,
        signer_count_threshold: threshold,
        signers,
        feed_ids: vec![FeedId { bytes: vec![0; 32] }],
        max_timestamp_delay_ms: 15 * 60 * 1000,
        max_timestamp_ahead_ms: 3 * 60 * 1000,
    }
}

#[test]
fn timestamp_exactly_at_delay_bound_is_accepted() {
    let t: u64 = 10_000_000;
    let d: u64 = 15 * 60 * 1000;
    let cfg = config(t, 1, vec![addr(1)]);
    assert!(verify_timestamp(t - d, &cfg).is_ok());
}

#[test]
fn timestamp_one_past_delay_bound_is_too_old() {
    let t: u64 = 10_000_000;
    let d: u64 = 15 * 60 * 1000;
    let cfg = config(t, 1, vec![addr(1)]);
    assert_eq!(
        verify_timestamp(t - d - 1, &cfg),
        Err(RedstoneError::TimestampTooOld)
    );
}

#[test]
fn timestamp_exactly_at_ahead_bound_is_accepted() {
    let t: u64 = 10_000_000;
    let a: u64 = 3 * 60 * 1000;
    let cfg = config(t, 1, vec![addr(1)]);
    assert!(verify_timestamp(t + a, &cfg).is_ok());
}

#[test]
fn timestamp_one_past_ahead_bound_is_too_future() {
    let t: u64 = 10_000_000;
    let a: u64 = 3 * 60 * 1000;
    let cfg = config(t, 1, vec![addr(1)]);
    assert_eq!(
        verify_timestamp(t + a + 1, &cfg),
        Err(RedstoneError::TimestampTooFuture)
    );
}

#[test]
fn three_distinct_recognized_signers_meet_threshold_three() {
    let packages = vec![package(1, 100), package(2, 100), package(3, 100)];
    let signers = vec![addr(1), addr(2), addr(3), addr(4)];
    assert!(verify_signer_count(&packages, 3, &signers).is_ok());
}

#[test]
fn two_recognized_signers_fail_threshold_three() {
    let packages = vec![package(1, 100), package(2, 100)];
    let signers = vec![addr(1), addr(2), addr(3)];
    assert_eq!(
        verify_signer_count(&packages, 3, &signers),
        Err(RedstoneError::InsufficientSignerCount)
    );
}

#[test]
fn duplicate_signer_does_not_inflate_the_count() {
    // Three packages but only two distinct recognized signers.
    let packages = vec![
        package(1, 100),
        package(2, 100),
        package(1, 100),
        package(1, 100),
    ];
    let signers = vec![addr(1), addr(2), addr(3)];
    assert_eq!(
        verify_signer_count(&packages, 3, &signers),
        Err(RedstoneError::InsufficientSignerCount)
    );
}

#[test]
fn unrecognized_signers_do_not_count() {
    let packages = vec![package(1, 100), package(8, 100), package(9, 100)];
    let signers = vec![addr(1), addr(2), addr(3)];
    assert_eq!(
        verify_signer_count(&packages, 2, &signers),
        Err(RedstoneError::InsufficientSignerCount)
    );
    assert!(verify_signer_count(&packages, 1, &signers).is_ok());
}

#[test]
fn validation_is_idempotent() {
    let payload = Payload {
        data_packages: vec![package(1, 10_000_000), package(2, 10_000_000)],
    };
    let cfg = config(10_000_000, 2, vec![addr(1), addr(2)]);
    let first = verify_data_packages(&payload, &cfg);
    let second = verify_data_packages(&payload, &cfg);
    assert_eq!(first, second);
    assert!(first.is_ok());

    let strict = config(10_000_000, 3, vec![addr(1), addr(2)]);
    let first = verify_data_packages(&payload, &strict);
    let second = verify_data_packages(&payload, &strict);
    assert_eq!(first, second);
    assert_eq!(first, Err(RedstoneError::InsufficientSignerCount));
}

#[test]
fn validation_reports_first_timestamp_failure() {
    let payload = Payload {
        data_packages: vec![package(1, 10_000_000), package(2, 1)],
    };
    let cfg = config(10_000_000, 1, vec![addr(1), addr(2)]);
    assert_eq!(
        verify_data_packages(&payload, &cfg),
        Err(RedstoneError::TimestampTooOld)
    );
}
