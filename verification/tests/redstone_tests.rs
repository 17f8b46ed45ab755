use redstone_sol::bytes::{trim_end, vec_to_u64};
use redstone_sol::encoder::{RedstonePayload, SignedDataPackage};
use redstone_sol::error::RedstoneError;
use redstone_sol::redstone::{
    parse_raw_payload, trim_data_point_count, trim_data_point_value_size, trim_metadata,
    trim_timestamp, u256_from_slice, verify_redstone_marker,
};
use redstone_sol::state::{DataPoint, FeedId, U256};
use redstone_sol::util::{bytes_to_hex, u256_to_string};

/// A well-formed recoverable signature, from a known recovery test vector.
fn sample_signature() -> Vec<u8> {
    vec![
        62, 70, 170, 189, 206, 18, 147, 212, 185, 107, 170, 67, 23, 8, 191, 160, 165, 172, 65,
        237, 78, 237, 132, 1, 251, 9, 11, 217, 135, 193, 97, 192, 9, 179, 221, 33, 49, 97, 126,
        103, 59, 54, 25, 253, 28, 26, 68, 198, 62, 38, 239, 210, 227, 184, 56, 5, 92, 52, 13, 37,
        49, 219, 63, 253, 28,
    ]
}

fn feed_id_32(name: &str) -> Vec<u8> {
    let mut b = name.as_bytes().to_vec();
    b.resize(32, 0);
    b
}

fn value_32(tail: &[u8]) -> Vec<u8> {
    let mut b = vec![0u8; 32 - tail.len()];
    b.extend_from_slice(tail);
    b
}

fn one_point(feed: &str, tail: &[u8]) -> DataPoint {
    DataPoint {
        feed_id: FeedId { bytes: feed_id_32(feed) },
        value: U256 { bytes: value_32(tail) },
    }
}

#[test]
fn marker_accepts_valid_tail() {
    let mut bytes = vec![7u8, 7, 7];
    bytes.extend_from_slice(&[0, 0, 2, 237, 87, 1, 30, 0, 0]);
    assert!(verify_redstone_marker(&bytes).is_ok());
}

#[test]
fn marker_rejects_corrupted_tail() {
    let good = [0u8, 0, 2, 237, 87, 1, 30, 0, 0];
    for i in 0..9 {
        let mut bytes = vec![7u8, 7, 7];
        let mut marker = good;
        marker[i] ^= 0x01;
        bytes.extend_from_slice(&marker);
        assert_eq!(
            verify_redstone_marker(&bytes),
            Err(RedstoneError::InvalidRedstoneMarker)
        );
    }
}

#[test]
fn marker_rejects_short_buffer() {
    let bytes = vec![0u8, 0, 2, 237];
    assert_eq!(
        verify_redstone_marker(&bytes),
        Err(RedstoneError::InvalidRedstoneMarker)
    );
}

#[test]
fn trim_end_splits_tail() {
    let mut v = vec![1u8, 2, 3, 4, 5];
    let tail = trim_end(&mut v, 2);
    assert_eq!(tail, vec![4, 5]);
    assert_eq!(v, vec![1, 2, 3]);
    let all = trim_end(&mut v, 9);
    assert_eq!(all, vec![1, 2, 3]);
    assert!(v.is_empty());
}

#[test]
fn vec_to_u64_is_big_endian() {
    assert_eq!(vec_to_u64(&vec![]), 0);
    assert_eq!(vec_to_u64(&vec![1, 0]), 256);
    assert_eq!(vec_to_u64(&vec![0x01, 0x02, 0x03]), 0x010203);
    assert_eq!(
        vec_to_u64(&vec![0xff, 0xff, 0xff, 0xff, 0xff, 0xff]),
        0xffff_ffff_ffff
    );
}

#[test]
fn trim_header_fields_read_big_endian() {
    let mut v = vec![9u8, 9, 0, 0, 2];
    assert_eq!(trim_data_point_count(&mut v), 2);
    assert_eq!(v, vec![9, 9]);

    let mut v = vec![9u8, 0, 0, 0, 32];
    assert_eq!(trim_data_point_value_size(&mut v), 32);
    assert_eq!(v, vec![9]);

    let mut v = vec![9u8, 0x01, 0x8c, 0xba, 0x4e, 0x3c, 0x60];
    assert_eq!(trim_timestamp(&mut v), 0x018c_ba4e_3c60);
    assert_eq!(v, vec![9]);
}

#[test]
fn trim_metadata_reads_count_and_skips_metadata() {
    // ... [count hi, count lo] [metadata] [metadata size, 3 bytes]
    let mut v = vec![1u8, 2, 3, 0, 7, 0xaa, 0xbb, 0, 0, 2];
    assert_eq!(trim_metadata(&mut v), Ok(7));
    assert_eq!(v, vec![1, 2, 3]);
}

#[test]
fn trim_metadata_rejects_short_buffer() {
    let mut v = vec![0u8, 2];
    assert_eq!(trim_metadata(&mut v), Err(RedstoneError::PayloadParseError));
    let mut v = vec![0u8, 0, 9];
    assert_eq!(trim_metadata(&mut v), Err(RedstoneError::PayloadParseError));
}

#[test]
fn u256_from_slice_pads_and_truncates() {
    let r = u256_from_slice(b"ETH");
    assert_eq!(r.bytes.len(), 32);
    assert_eq!(&r.bytes[0..3], b"ETH");
    assert!(r.bytes[3..].iter().all(|&b| b == 0));

    let long = [0xabu8; 40];
    let r = u256_from_slice(&long);
    assert_eq!(r.bytes, vec![0xab; 32]);
}

#[test]
fn round_trip_one_package_two_points() {
    let points = vec![one_point("ETH", &[0x12, 0x34]), one_point("BTC", &[0x56])];
    let package = SignedDataPackage {
        signature: sample_signature(),
        timestamp: 1_700_000_000_000,
        data_points: points,
    };
    let payload = RedstonePayload::new(vec![package]);
    let mut bytes = payload.to_bytes();
    // 2 points of 64 bytes, 13 header bytes, 65 signature bytes,
    // 2 count bytes, 3 metadata-size bytes, 9 marker bytes.
    assert_eq!(bytes.len(), 128 + 13 + 65 + 2 + 3 + 9);
    assert!(verify_redstone_marker(&bytes).is_ok());

    let decoded = parse_raw_payload(&mut bytes).expect("decodes");
    assert_eq!(decoded.data_packages.len(), 1);
    let pkg = &decoded.data_packages[0];
    assert_eq!(pkg.timestamp, 1_700_000_000_000);
    assert_eq!(pkg.data_points.len(), 2);
    assert_eq!(pkg.data_points[0].feed_id.bytes, feed_id_32("ETH"));
    assert_eq!(pkg.data_points[0].value.bytes, value_32(&[0x12, 0x34]));
    assert_eq!(pkg.data_points[1].feed_id.bytes, feed_id_32("BTC"));
    assert_eq!(pkg.data_points[1].value.bytes, value_32(&[0x56]));
    assert_eq!(pkg.signer_address.bytes.len(), 20);
}

#[test]
fn round_trip_preserves_package_order() {
    let p1 = SignedDataPackage {
        signature: sample_signature(),
        timestamp: 1000,
        data_points: vec![one_point("AVAX", &[1])],
    };
    let p2 = SignedDataPackage {
        signature: sample_signature(),
        timestamp: 2000,
        data_points: vec![one_point("AVAX", &[2])],
    };
    let payload = RedstonePayload::new(vec![p1, p2]);
    let mut bytes = payload.to_bytes();
    let decoded = parse_raw_payload(&mut bytes).expect("decodes");
    assert_eq!(decoded.data_packages.len(), 2);
    assert_eq!(decoded.data_packages[0].timestamp, 1000);
    assert_eq!(decoded.data_packages[1].timestamp, 2000);
}

#[test]
fn decode_rejects_truncated_payload() {
    let points = vec![one_point("ETH", &[0x12])];
    let package = SignedDataPackage {
        signature: sample_signature(),
        timestamp: 1000,
        data_points: points,
    };
    let payload = RedstonePayload::new(vec![package]);
    let bytes = payload.to_bytes();
    // Cut bytes off the front: the trailer framing stays intact, so the
    // package's size arithmetic points past the buffer's start.
    let mut truncated = bytes[40..].to_vec();
    let r = parse_raw_payload(&mut truncated);
    assert_eq!(r.err(), Some(RedstoneError::InvalidDataPackage));
}

#[test]
fn decode_rejects_short_framing() {
    // A marker with almost nothing in front of it.
    let mut bytes = vec![0u8, 0, 0, 0, 2, 237, 87, 1, 30, 0, 0];
    let r = parse_raw_payload(&mut bytes);
    assert_eq!(r.err(), Some(RedstoneError::PayloadParseError));
}

#[test]
fn u256_to_string_reads_ascii_prefix() {
    let v = U256 { bytes: feed_id_32("AVAX") };
    assert_eq!(u256_to_string(&v), "AVAX");
    let v = U256 { bytes: vec![0u8; 32] };
    assert_eq!(u256_to_string(&v), "");
}

#[test]
fn bytes_to_hex_renders_lowercase_pairs() {
    assert_eq!(bytes_to_hex(&[]), "");
    assert_eq!(bytes_to_hex(&[0x00, 0xff, 0x1a]), "00ff1a");
    assert_eq!(bytes_to_hex(&[0xde, 0xad, 0xbe, 0xef]), "deadbeef");
}
