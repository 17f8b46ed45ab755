use redstone_sol::error::RedstoneError;
use redstone_sol::median::{aggregate, avg_floor, median, u256_lt};
use redstone_sol::state::{DataPackage, DataPoint, FeedId, Payload, SignerAddress, U256};

fn u256_tail(tail: &[u8]) -> U256 {
    let mut b = vec![0u8; 32 - tail.len()];
    b.extend_from_slice(tail);
    U256 { bytes: b }
}

fn u256_max_minus(k: u8) -> U256 {
    let mut b = vec![0xffu8; 32];
    b[31] = 0xff - k;
    U256 { bytes: b }
}

fn addr(seed: u8) -> SignerAddress {
    SignerAddress { bytes: vec![seed; 20] }
}

fn feed(name: &str) -> FeedId {
    let mut b = name.as_bytes().to_vec();
    b.resize(32, 0);
    FeedId { bytes: b }
}

fn point(name: &str, value: U256) -> DataPoint {
    DataPoint { feed_id: feed(name), value }
}

#[test]
fn ordering_is_numeric() {
    assert!(u256_lt(&u256_tail(&[1]), &u256_tail(&[2])));
    assert!(!u256_lt(&u256_tail(&[2]), &u256_tail(&[1])));
    assert!(!u256_lt(&u256_tail(&[2]), &u256_tail(&[2])));
    assert!(u256_lt(&u256_tail(&[0x01, 0x00]), &u256_tail(&[0x02, 0x00])));
    assert!(u256_lt(&u256_tail(&[0xff]), &u256_tail(&[0x01, 0x00])));
}

#[test]
fn avg_of_max_values_does_not_wrap() {
    let r = avg_floor(&u256_max_minus(0), &u256_max_minus(10));
    assert_eq!(r.bytes, u256_max_minus(5).bytes);
}

#[test]
fn avg_rounds_down() {
    let r = avg_floor(&u256_tail(&[3]), &u256_tail(&[4]));
    assert_eq!(r.bytes, u256_tail(&[3]).bytes);
}

#[test]
fn median_of_extreme_values_is_exact() {
    // Median of [MAX, MAX, MAX-10, MAX-10] is MAX-5, with no wraparound.
    let values = vec![
        u256_max_minus(0),
        u256_max_minus(0),
        u256_max_minus(10),
        u256_max_minus(10),
    ];
    let r = median(&values).expect("median of four values");
    assert_eq!(r.bytes, u256_max_minus(5).bytes);
}

#[test]
fn median_of_single_value_is_that_value() {
    let values = vec![u256_tail(&[0x42])];
    let r = median(&values).expect("median of one value");
    assert_eq!(r.bytes, u256_tail(&[0x42]).bytes);
}

#[test]
fn median_of_empty_run_is_an_error_not_zero() {
    let values: Vec<U256> = vec![];
    assert!(matches!(
        median(&values),
        Err(RedstoneError::MedianCalculationError)
    ));
}

#[test]
fn median_odd_takes_middle() {
    let values = vec![u256_tail(&[9]), u256_tail(&[1]), u256_tail(&[5])];
    let r = median(&values).expect("median of three values");
    assert_eq!(r.bytes, u256_tail(&[5]).bytes);
}

#[test]
fn zero_is_a_valid_value() {
    let values = vec![u256_tail(&[0]), u256_tail(&[0]), u256_tail(&[4])];
    let r = median(&values).expect("median of three values");
    assert_eq!(r.bytes, u256_tail(&[0]).bytes);
}

#[test]
fn aggregate_filters_by_feed_and_signer() {
    let packages = vec![
        DataPackage {
            signer_address: addr(1),
            timestamp: 100,
            data_points: vec![point("ETH", u256_tail(&[10])), point("BTC", u256_tail(&[90]))],
        },
        DataPackage {
            signer_address: addr(2),
            timestamp: 100,
            data_points: vec![point("ETH", u256_tail(&[20]))],
        },
        // Unrecognized signer: its reading must not move the median.
        DataPackage {
            signer_address: addr(9),
            timestamp: 100,
            data_points: vec![point("ETH", u256_tail(&[200]))],
        },
    ];
    let payload = Payload { data_packages: packages };
    let signers = vec![addr(1), addr(2)];

    let r = aggregate(&payload, &feed("ETH"), &signers).expect("aggregates");
    // Median of [10, 20] is 15.
    assert_eq!(r.bytes, u256_tail(&[15]).bytes);

    let r = aggregate(&payload, &feed("BTC"), &signers).expect("aggregates");
    assert_eq!(r.bytes, u256_tail(&[90]).bytes);

    assert!(matches!(
        aggregate(&payload, &feed("SOL"), &signers),
        Err(RedstoneError::MedianCalculationError)
    ));
}
