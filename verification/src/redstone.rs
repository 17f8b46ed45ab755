//! The payload decoder and the consensus checks.
//!
//! The wire format is trailer-encoded: the outermost framing (marker,
//! metadata, package count) stands at the end of the buffer and is read
//! first, walking backward. The specification-level decoder `dec_payload`
//! states, byte for byte, what the executable decoder returns on every
//! input, errors included.

use vstd::prelude::*;

use crate::bytes::{be_uint, bytes_eq, copy_range, pow256, trim_end, vec_to_u64};
use crate::bytes::lemma_be_uint_bound;
use crate::crypto::{recover_address, recover_spec};
use crate::error::RedstoneError;
use crate::state::{
    Config, DataPackage, DataPoint, FeedId, Payload, SignerAddress, SpecConfig, SpecDataPackage,
    SpecDataPoint, U256, view_packages, view_points,
};

verus! {

pub const REDSTONE_MARKER_BS: usize = 9;

pub const UNSIGNED_METADATA_BYTE_SIZE_BS: usize = 3;

pub const DATA_PACKAGES_COUNT_BS: usize = 2;

pub const DATA_POINTS_COUNT_BS: usize = 3;

pub const DATA_POINT_VALUE_BYTE_SIZE_BS: usize = 4;

pub const TIMESTAMP_BS: usize = 6;

pub const DATA_FEED_ID_BS: usize = 32;

pub const SIGNATURE_BS: usize = 65;

/// The fixed nine-byte RedStone marker that closes every payload.
pub open spec fn marker_seq() -> Seq<u8> {
    seq![0u8, 0u8, 2u8, 237u8, 87u8, 1u8, 30u8, 0u8, 0u8]
}

/// A raw value field widened into its 32-byte container: shorter fields
/// are zero-extended on the left, longer ones keep their low-order bytes.
pub open spec fn zero_extend32(s: Seq<u8>) -> Seq<u8> {
    if s.len() <= 32 {
        Seq::new((32 - s.len()) as nat, |i: int| 0u8) + s
    } else {
        s.skip(s.len() - 32)
    }
}

/// Decodes one data point from the tail of `s`: the last `vs` bytes are
/// the value, the 32 bytes before them the feed id.
pub open spec fn dec_point(s: Seq<u8>, vs: nat) -> (Seq<u8>, SpecDataPoint) {
    let value_raw = s.skip(s.len() - vs);
    let s1 = s.take(s.len() - vs);
    let feed = s1.skip(s1.len() - 32);
    let s2 = s1.take(s1.len() - 32);
    (s2, SpecDataPoint { feed_id: feed, value: zero_extend32(value_raw) })
}

/// Decodes `k` data points from the tail of `s`; the point nearest the
/// tail comes first in the result.
pub open spec fn dec_points(s: Seq<u8>, k: nat, vs: nat) -> (Seq<u8>, Seq<SpecDataPoint>)
    decreases k,
{
    if k == 0 {
        (s, Seq::<SpecDataPoint>::empty())
    } else {
        let (s1, pt) = dec_point(s, vs);
        let (s2, pts) = dec_points(s1, (k - 1) as nat, vs);
        (s2, seq![pt] + pts)
    }
}

/// Decodes one data package from the tail of `s`: a 65-byte signature,
/// then a 3-byte point count, a 4-byte value width and a 6-byte timestamp,
/// then the points. The signer is recovered from the signed byte range,
/// which covers the points and the three header fields but not the
/// signature itself.
pub open spec fn dec_package(s: Seq<u8>) -> Result<(Seq<u8>, SpecDataPackage), RedstoneError> {
    if s.len() < 78 {
        Err(RedstoneError::PayloadParseError)
    } else {
        let signature = s.skip(s.len() - 65);
        let r0 = s.take(s.len() - 65);
        let k = be_uint(r0.skip(r0.len() - 3));
        let r1 = r0.take(r0.len() - 3);
        let vs = be_uint(r1.skip(r1.len() - 4));
        let r2 = r1.take(r1.len() - 4);
        let ts = be_uint(r2.skip(r2.len() - 6));
        let r3 = r2.take(r2.len() - 6);
        let size = k * (vs + 32) + 13;
        if size > r0.len() {
            Err(RedstoneError::InvalidDataPackage)
        } else {
            let signable = r0.skip(r0.len() - size);
            match recover_spec(signable, signature) {
                None => Err(RedstoneError::InvalidSignature),
                Some(addr) => {
                    let (rest, pts) = dec_points(r3, k, vs);
                    Ok(
                        (
                            rest,
                            SpecDataPackage {
                                signer_address: addr,
                                timestamp: ts,
                                data_points: pts,
                            },
                        ),
                    )
                },
            }
        }
    }
}

/// Decodes `n` data packages from the tail of `s`; the package nearest
/// the tail comes first in the result.
pub open spec fn dec_packages(s: Seq<u8>, n: nat) -> Result<
    (Seq<u8>, Seq<SpecDataPackage>),
    RedstoneError,
>
    decreases n,
{
    if n == 0 {
        Ok((s, Seq::<SpecDataPackage>::empty()))
    } else {
        match dec_package(s) {
            Err(e) => Err(e),
            Ok((s1, pkg)) => match dec_packages(s1, (n - 1) as nat) {
                Err(e) => Err(e),
                Ok((s2, pkgs)) => Ok((s2, seq![pkg] + pkgs)),
            },
        }
    }
}

/// Decodes the metadata framing from the tail of `s` (the marker already
/// removed): a 3-byte metadata size, that many free-form metadata bytes,
/// then a 2-byte package count, which it returns.
pub open spec fn dec_metadata(s: Seq<u8>) -> Result<(Seq<u8>, nat), RedstoneError> {
    if s.len() < 3 {
        Err(RedstoneError::PayloadParseError)
    } else {
        let m = be_uint(s.skip(s.len() - 3));
        let r1 = s.take(s.len() - 3);
        if m + 2 > r1.len() {
            Err(RedstoneError::PayloadParseError)
        } else {
            let r2 = r1.take(r1.len() - m);
            let n = be_uint(r2.skip(r2.len() - 2));
            Ok((r2.take(r2.len() - 2), n))
        }
    }
}

/// Decodes a whole payload whose marker has already been removed.
pub open spec fn dec_trimmed_payload(s: Seq<u8>) -> Result<Seq<SpecDataPackage>, RedstoneError> {
    match dec_metadata(s) {
        Err(e) => Err(e),
        Ok((r, n)) => match dec_packages(r, n) {
            Err(e) => Err(e),
            Ok((_rest, pkgs)) => Ok(pkgs),
        },
    }
}

/// Decodes a whole raw payload: strips the nine marker bytes, then the
/// metadata framing, then the packages. The marker's content is the
/// caller's check (`verify_redstone_marker`), not the decoder's.
pub open spec fn dec_payload(s: Seq<u8>) -> Result<Seq<SpecDataPackage>, RedstoneError> {
    if s.len() < 9 {
        Err(RedstoneError::PayloadParseError)
    } else {
        dec_trimmed_payload(s.take(s.len() - 9))
    }
}

/// Accepts exactly the buffers whose trailing nine bytes are the RedStone
/// marker.
pub fn verify_redstone_marker(bytes: &Vec<u8>) -> (r: Result<(), RedstoneError>)
    ensures
        r is Ok <==> (bytes@.len() >= 9 && bytes@.skip(bytes@.len() - 9) == marker_seq()),
        r is Err ==> r->Err_0 == RedstoneError::InvalidRedstoneMarker,
{
    if bytes.len() < 9 {
        return Err(RedstoneError::InvalidRedstoneMarker);
    }
    let n = bytes.len();
    let ok = bytes[n - 9] == 0 && bytes[n - 8] == 0 && bytes[n - 7] == 2 && bytes[n - 6] == 237
        && bytes[n - 5] == 87 && bytes[n - 4] == 1 && bytes[n - 3] == 30 && bytes[n - 2] == 0
        && bytes[n - 1] == 0;
    if ok {
        proof {
            assert(bytes@.skip(bytes@.len() - 9) =~= marker_seq());
        }
        Ok(())
    } else {
        proof {
            let tail = bytes@.skip(bytes@.len() - 9);
            assert(forall|i: int| 0 <= i < 9 ==> tail[i] == bytes@[bytes@.len() - 9 + i]);
            assert(tail.len() == 9);
            if tail == marker_seq() {
                assert(bytes@[n - 9] == tail[0]);
                assert(bytes@[n - 8] == tail[1]);
                assert(bytes@[n - 7] == tail[2]);
                assert(bytes@[n - 6] == tail[3]);
                assert(bytes@[n - 5] == tail[4]);
                assert(bytes@[n - 4] == tail[5]);
                assert(bytes@[n - 3] == tail[6]);
                assert(bytes@[n - 2] == tail[7]);
                assert(bytes@[n - 1] == tail[8]);
            }
        }
        Err(RedstoneError::InvalidRedstoneMarker)
    }
}

/// Removes the nine marker bytes from the buffer's tail.
pub fn trim_redstone_marker(payload: &mut Vec<u8>) -> (r: Vec<u8>)
    requires
        old(payload)@.len() >= 9,
    ensures
        final(payload)@ == old(payload)@.take(old(payload)@.len() - 9),
        r@ == old(payload)@.skip(old(payload)@.len() - 9),
{
    trim_end(payload, REDSTONE_MARKER_BS)
}

/// Reads the 3-byte data-point count from the buffer's tail.
pub fn trim_data_point_count(payload: &mut Vec<u8>) -> (r: usize)
    requires
        old(payload)@.len() >= 3,
    ensures
        final(payload)@ == old(payload)@.take(old(payload)@.len() - 3),
        r == be_uint(old(payload)@.skip(old(payload)@.len() - 3)),
        r < 0x1000000,
{
    let v = trim_end(payload, DATA_POINTS_COUNT_BS);
    proof {
        lemma_be_uint_bound(v@);
        reveal_with_fuel(pow256, 4);
    }
    vec_to_u64(&v) as usize
}

/// Reads the 4-byte value byte-size from the buffer's tail.
pub fn trim_data_point_value_size(payload: &mut Vec<u8>) -> (r: usize)
    requires
        old(payload)@.len() >= 4,
    ensures
        final(payload)@ == old(payload)@.take(old(payload)@.len() - 4),
        r == be_uint(old(payload)@.skip(old(payload)@.len() - 4)),
        r < 0x100000000,
{
    let v = trim_end(payload, DATA_POINT_VALUE_BYTE_SIZE_BS);
    proof {
        lemma_be_uint_bound(v@);
        reveal_with_fuel(pow256, 5);
    }
    vec_to_u64(&v) as usize
}

/// Reads the 6-byte millisecond timestamp from the buffer's tail.
pub fn trim_timestamp(payload: &mut Vec<u8>) -> (r: u64)
    requires
        old(payload)@.len() >= 6,
    ensures
        final(payload)@ == old(payload)@.take(old(payload)@.len() - 6),
        r == be_uint(old(payload)@.skip(old(payload)@.len() - 6)),
        r < 0x1000000000000,
{
    let v = trim_end(payload, TIMESTAMP_BS);
    proof {
        lemma_be_uint_bound(v@);
        reveal_with_fuel(pow256, 7);
    }
    vec_to_u64(&v)
}

/// Strips the metadata framing from the buffer's tail and returns the
/// data-package count.
pub fn trim_metadata(payload: &mut Vec<u8>) -> (r: Result<usize, RedstoneError>)
    ensures
        match dec_metadata(old(payload)@) {
            Err(e) => r is Err && r->Err_0 == e,
            Ok((rest, n)) => r is Ok && r->Ok_0 == n && final(payload)@ == rest,
        },
{
    if payload.len() < 3 {
        return Err(RedstoneError::PayloadParseError);
    }
    let v = trim_end(payload, UNSIGNED_METADATA_BYTE_SIZE_BS);
    proof {
        lemma_be_uint_bound(v@);
        reveal_with_fuel(pow256, 4);
    }
    let unsigned_metadata_size = vec_to_u64(&v) as usize;
    if unsigned_metadata_size > payload.len() || payload.len() - unsigned_metadata_size < 2 {
        return Err(RedstoneError::PayloadParseError);
    }
    let _ = trim_end(payload, unsigned_metadata_size);
    let c = trim_end(payload, DATA_PACKAGES_COUNT_BS);
    proof {
        lemma_be_uint_bound(c@);
        reveal_with_fuel(pow256, 3);
    }
    Ok(vec_to_u64(&c) as usize)
}

/// A 32-byte container filled from the start of `bytes`: the left-aligned
/// form used for feed identifiers, right-padded with zeros (or truncated
/// past 32 bytes).
pub fn u256_from_slice(bytes: &[u8]) -> (r: U256)
    ensures
        r.wf(),
        r@ == crate::util::pad32(bytes@),
{
    let n = if bytes.len() > 32 {
        32
    } else {
        bytes.len()
    };
    let mut v: Vec<u8> = Vec::new();
    let mut i: usize = 0;
    while i < n
        invariant
            i <= n <= 32,
            n <= bytes@.len(),
            n == (if bytes@.len() > 32 {
                32int
            } else {
                bytes@.len() as int
            }),
            v@ =~= bytes@.take(i as int),
        decreases n - i,
    {
        v.push(bytes[i]);
        i = i + 1;
    }
    while i < 32
        invariant
            v@.len() == i,
            n <= i <= 32,
            n == (if bytes@.len() > 32 {
                32int
            } else {
                bytes@.len() as int
            }),
            v@.take(n as int) == bytes@.take(n as int),
            forall|j: int| n <= j < i ==> v@[j] == 0,
        decreases 32 - i,
    {
        v.push(0);
        i = i + 1;
        assert(v@.take(n as int) =~= bytes@.take(n as int));
    }
    assert forall|j: int| 0 <= j < n implies v@[j] == bytes@[j] by {
        assert(v@.take(n as int)[j] == bytes@.take(n as int)[j]);
    }
    assert(v@ =~= crate::util::pad32(bytes@));
    U256 { bytes: v }
}

/// Widens a raw value field into its 32-byte container.
pub fn value_to_u256(bytes: Vec<u8>) -> (r: U256)
    ensures
        r@ == zero_extend32(bytes@),
        r.wf(),
{
    let ghost bs = bytes@;
    if bytes.len() >= 32 {
        let b = copy_range(&bytes, bytes.len() - 32, bytes.len());
        assert(b@ =~= zero_extend32(bs));
        U256 { bytes: b }
    } else {
        let mut v: Vec<u8> = Vec::new();
        let pad = 32 - bytes.len();
        let mut i: usize = 0;
        while i < pad
            invariant
                i <= pad,
                v@ =~= Seq::new(i as nat, |j: int| 0u8),
            decreases pad - i,
        {
            v.push(0);
            i = i + 1;
            assert(v@ =~= Seq::new(i as nat, |j: int| 0u8));
        }
        let mut bytes = bytes;
        v.append(&mut bytes);
        assert(v@ =~= zero_extend32(bs));
        U256 { bytes: v }
    }
}

/// Decodes one data point from the buffer's tail: the value field first,
/// then the 32-byte feed id.
pub fn parse_data_point(payload: &mut Vec<u8>, value_size: usize) -> (r: DataPoint)
    requires
        old(payload)@.len() >= value_size + 32,
    ensures
        final(payload)@ == dec_point(old(payload)@, value_size as nat).0,
        r@ == dec_point(old(payload)@, value_size as nat).1,
        r.wf(),
{
    let value_raw = trim_end(payload, value_size);
    let feed_id = trim_end(payload, DATA_FEED_ID_BS);
    let value = value_to_u256(value_raw);
    DataPoint { feed_id: FeedId { bytes: feed_id }, value }
}

/// Decodes `count` data points of width `value_size` from the buffer's
/// tail, in wire order (tail-most point first).
pub fn parse_data_points(payload: &mut Vec<u8>, count: usize, value_size: usize) -> (r: Vec<
    DataPoint,
>)
    requires
        old(payload)@.len() >= count * (value_size + 32),
    ensures
        final(payload)@ == dec_points(old(payload)@, count as nat, value_size as nat).0,
        view_points(r@) == dec_points(old(payload)@, count as nat, value_size as nat).1,
        forall|i: int| 0 <= i < r@.len() ==> (#[trigger] r@[i]).wf(),
{
    let mut data_points: Vec<DataPoint> = Vec::new();
    let mut i: usize = 0;
    while i < count
        invariant
            i <= count,
            payload@.len() >= (count - i) * (value_size + 32),
            dec_points(old(payload)@, count as nat, value_size as nat).0 == dec_points(
                payload@,
                (count - i) as nat,
                value_size as nat,
            ).0,
            dec_points(old(payload)@, count as nat, value_size as nat).1 == view_points(
                data_points@,
            ) + dec_points(payload@, (count - i) as nat, value_size as nat).1,
            forall|j: int| 0 <= j < data_points@.len() ==> (#[trigger] data_points@[j]).wf(),
        decreases count - i,
    {
        let ghost p_start = payload@;
        let ghost done = view_points(data_points@);
        let ghost k = (count - i) as nat;
        proof {
            assert((count - i) * (value_size + 32) >= 1 * (value_size + 32)) by (nonlinear_arith)
                requires
                    count - i >= 1,
                    value_size + 32 >= 0,
            ;
            assert((count - i) * (value_size + 32) - (value_size + 32) == (count - i - 1) * (
            value_size + 32)) by (nonlinear_arith);
        }
        let pt = parse_data_point(payload, value_size);
        data_points.push(pt);
        i = i + 1;
        proof {
            let step = dec_point(p_start, value_size as nat);
            assert(dec_points(p_start, k, value_size as nat).0 == dec_points(
                payload@,
                (k - 1) as nat,
                value_size as nat,
            ).0);
            assert(view_points(data_points@) =~= done + seq![pt@]);
            assert(dec_points(p_start, k, value_size as nat).1 == seq![step.1] + dec_points(
                payload@,
                (k - 1) as nat,
                value_size as nat,
            ).1);
            assert(done + (seq![pt@] + dec_points(payload@, (k - 1) as nat, value_size as nat).1)
                =~= (done + seq![pt@]) + dec_points(payload@, (k - 1) as nat, value_size as nat).1);
        }
    }
    assert(view_points(data_points@) + dec_points(payload@, 0, value_size as nat).1
        =~= view_points(data_points@));
    data_points
}

/// Decodes one data package from the buffer's tail, recovering its signer
/// from the signed byte range.
pub fn trim_data_package(payload: &mut Vec<u8>) -> (r: Result<DataPackage, RedstoneError>)
    ensures
        match dec_package(old(payload)@) {
            Err(e) => r is Err && r->Err_0 == e,
            Ok((rest, pkg)) => r is Ok && r->Ok_0@ == pkg && final(payload)@ == rest
                && r->Ok_0.wf(),
        },
{
    if payload.len() < 78 {
        return Err(RedstoneError::PayloadParseError);
    }
    let signature = trim_end(payload, SIGNATURE_BS);
    let ghost r0 = payload@;
    let len0 = payload.len();
    let tmp = copy_range(payload, 0, len0);
    assert(tmp@ =~= r0);
    let data_point_count = trim_data_point_count(payload);
    let value_size = trim_data_point_value_size(payload);
    let timestamp = trim_timestamp(payload);
    proof {
        assert((data_point_count as int) * (value_size as int + 32) <= 0xffffff * 0x10000001f)
            by (nonlinear_arith)
            requires
                0 <= data_point_count < 0x1000000,
                0 <= value_size < 0x100000000,
        ;
    }
    let size64: u64 = (data_point_count as u64) * (value_size as u64 + 32) + 13;
    if size64 > len0 as u64 {
        return Err(RedstoneError::InvalidDataPackage);
    }
    let size = size64 as usize;
    let signable_bytes = copy_range(&tmp, len0 - size, len0);
    assert(signable_bytes@ =~= r0.skip(r0.len() - size));
    let signer_address = match recover_address(&signable_bytes, &signature) {
        Ok(a) => a,
        Err(e) => {
            return Err(e);
        },
    };
    let data_points = parse_data_points(payload, data_point_count, value_size);
    proof {
        reveal_with_fuel(pow256, 7);
    }
    Ok(DataPackage { signer_address, timestamp, data_points })
}

/// The decode state after consuming `done` packages: a failure stands,
/// and a success carries the remaining bytes with all packages so far.
spec fn compose_packages(
    done: Seq<SpecDataPackage>,
    r: Result<(Seq<u8>, Seq<SpecDataPackage>), RedstoneError>,
) -> Result<(Seq<u8>, Seq<SpecDataPackage>), RedstoneError> {
    match r {
        Err(e) => Err(e),
        Ok((rest, ps)) => Ok((rest, done + ps)),
    }
}

/// Decodes `count` data packages from the buffer's tail, in wire order.
pub fn trim_data_packages(payload: &mut Vec<u8>, count: usize) -> (r: Result<
    Vec<DataPackage>,
    RedstoneError,
>)
    ensures
        match dec_packages(old(payload)@, count as nat) {
            Err(e) => r is Err && r->Err_0 == e,
            Ok((rest, pkgs)) => r is Ok && view_packages(r->Ok_0@) == pkgs && final(payload)@
                == rest && (forall|i: int|
                0 <= i < r->Ok_0@.len() ==> (#[trigger] r->Ok_0@[i]).wf()),
        },
{
    let mut data_packages: Vec<DataPackage> = Vec::new();
    let mut i: usize = 0;
    proof {
        assert(Seq::<SpecDataPackage>::empty() + dec_packages(payload@, count as nat)->Ok_0.1
            =~= dec_packages(payload@, count as nat)->Ok_0.1);
    }
    while i < count
        invariant
            i <= count,
            dec_packages(old(payload)@, count as nat) == compose_packages(
                view_packages(data_packages@),
                dec_packages(payload@, (count - i) as nat),
            ),
            forall|j: int| 0 <= j < data_packages@.len() ==> (#[trigger] data_packages@[j]).wf(),
        decreases count - i,
    {
        let ghost p_start = payload@;
        let ghost done = view_packages(data_packages@);
        let ghost k = (count - i) as nat;
        let pkg = match trim_data_package(payload) {
            Ok(p) => p,
            Err(e) => {
                proof {
                    assert(dec_packages(p_start, k) == Err::<
                        (Seq<u8>, Seq<SpecDataPackage>),
                        RedstoneError,
                    >(e));
                }
                return Err(e);
            },
        };
        let ghost step = dec_package(p_start)->Ok_0;
        data_packages.push(pkg);
        i = i + 1;
        proof {
            assert(view_packages(data_packages@) =~= done + seq![pkg@]);
            if dec_packages(step.0, (k - 1) as nat) is Err {
                assert(dec_packages(p_start, k) == dec_packages(step.0, (k - 1) as nat));
            } else {
                let inner = dec_packages(step.0, (k - 1) as nat)->Ok_0;
                assert(dec_packages(p_start, k) == Ok::<_, RedstoneError>(
                    (inner.0, seq![step.1] + inner.1),
                ));
                assert(done + (seq![step.1] + inner.1) =~= (done + seq![step.1]) + inner.1);
            }
        }
    }
    proof {
        assert(view_packages(data_packages@) + Seq::<SpecDataPackage>::empty() =~= view_packages(
            data_packages@,
        ));
    }
    Ok(data_packages)
}

/// Decodes the payload that remains once the marker has been trimmed.
pub fn trim_payload(payload: &mut Vec<u8>) -> (r: Result<Payload, RedstoneError>)
    ensures
        match dec_trimmed_payload(old(payload)@) {
            Err(e) => r is Err && r->Err_0 == e,
            Ok(pkgs) => r is Ok && r->Ok_0@ == pkgs && r->Ok_0.wf(),
        },
{
    let data_packages_count = match trim_metadata(payload) {
        Ok(n) => n,
        Err(e) => {
            return Err(e);
        },
    };
    let data_packages = match trim_data_packages(payload, data_packages_count) {
        Ok(d) => d,
        Err(e) => {
            return Err(e);
        },
    };
    Ok(Payload { data_packages })
}

/// Decodes a raw payload buffer: trims the marker, then the framing, then
/// the packages. The marker's content must have been checked beforehand
/// with `verify_redstone_marker`.
pub fn parse_raw_payload(bytes: &mut Vec<u8>) -> (r: Result<Payload, RedstoneError>)
    ensures
        match dec_payload(old(bytes)@) {
            Err(e) => r is Err && r->Err_0 == e,
            Ok(pkgs) => r is Ok && r->Ok_0@ == pkgs && r->Ok_0.wf(),
        },
{
    if bytes.len() < 9 {
        return Err(RedstoneError::PayloadParseError);
    }
    let _marker = trim_redstone_marker(bytes);
    trim_payload(bytes)
}

/// A timestamp is fresh when it lies no further than the delay window
/// behind the trusted block time and no further than the ahead window in
/// front of it; both boundaries are accepted.
pub open spec fn verify_timestamp_spec(ts: nat, cfg: SpecConfig) -> Result<(), RedstoneError> {
    if ts + cfg.max_timestamp_delay_ms < cfg.block_timestamp {
        Err(RedstoneError::TimestampTooOld)
    } else if ts > cfg.block_timestamp + cfg.max_timestamp_ahead_ms {
        Err(RedstoneError::TimestampTooFuture)
    } else {
        Ok(())
    }
}

/// Checks one package timestamp against the configured freshness window.
pub fn verify_timestamp(timestamp: u64, config: &Config) -> (r: Result<(), RedstoneError>)
    ensures
        r == verify_timestamp_spec(timestamp as nat, config@),
{
    if timestamp < config.block_timestamp && config.block_timestamp - timestamp
        > config.max_timestamp_delay_ms {
        Err(RedstoneError::TimestampTooOld)
    } else if timestamp > config.block_timestamp && timestamp - config.block_timestamp
        > config.max_timestamp_ahead_ms {
        Err(RedstoneError::TimestampTooFuture)
    } else {
        Ok(())
    }
}

/// The first freshness failure among the packages, in order, if any.
pub open spec fn verify_timestamps_spec(pkgs: Seq<SpecDataPackage>, cfg: SpecConfig) -> Result<
    (),
    RedstoneError,
>
    decreases pkgs.len(),
{
    if pkgs.len() == 0 {
        Ok(())
    } else {
        match verify_timestamp_spec(pkgs.first().timestamp, cfg) {
            Err(e) => Err(e),
            Ok(()) => verify_timestamps_spec(pkgs.drop_first(), cfg),
        }
    }
}

/// The distinct signer addresses that occur in the packages and stand in
/// the allow-list. Repeated packages from one signer count once.
pub open spec fn recognized_signer_set(
    pkgs: Seq<SpecDataPackage>,
    signers: Seq<Seq<u8>>,
) -> Set<Seq<u8>> {
    pkgs.map_values(|p: SpecDataPackage| p.signer_address).to_set().filter(
        |a: Seq<u8>| signers.contains(a),
    )
}

/// Consensus holds when at least threshold-many distinct recognized
/// signers back the payload.
pub open spec fn verify_signer_count_spec(
    pkgs: Seq<SpecDataPackage>,
    threshold: nat,
    signers: Seq<Seq<u8>>,
) -> Result<(), RedstoneError> {
    if recognized_signer_set(pkgs, signers).len() >= threshold {
        Ok(())
    } else {
        Err(RedstoneError::InsufficientSignerCount)
    }
}

/// Whether `addr` occurs in the allow-list.
pub fn contains_address(signers: &Vec<SignerAddress>, addr: &SignerAddress) -> (r: bool)
    ensures
        r == signers@.map_values(|s: SignerAddress| s@).contains(addr@),
{
    let ghost views = signers@.map_values(|s: SignerAddress| s@);
    let mut i: usize = 0;
    while i < signers.len()
        invariant
            i <= signers@.len(),
            views == signers@.map_values(|s: SignerAddress| s@),
            forall|j: int| 0 <= j < i ==> views[j] != addr@,
        decreases signers@.len() - i,
    {
        if bytes_eq(&signers[i].bytes, &addr.bytes) {
            assert(views[i as int] == addr@);
            return true;
        }
        i = i + 1;
    }
    assert(forall|j: int| 0 <= j < views.len() ==> views[j] != addr@);
    false
}

/// Checks the distinct-recognized-signer threshold. Packages from
/// unrecognized signers are not errors; they simply do not count.
pub fn verify_signer_count(
    data_packages: &Vec<DataPackage>,
    threshold: u8,
    signers: &Vec<SignerAddress>,
) -> (r: Result<(), RedstoneError>)
    ensures
        r == verify_signer_count_spec(
            view_packages(data_packages@),
            threshold as nat,
            signers@.map_values(|s: SignerAddress| s@),
        ),
{
    let ghost pkg_views = view_packages(data_packages@);
    let ghost signer_views = signers@.map_values(|s: SignerAddress| s@);
    let mut seen: Vec<SignerAddress> = Vec::new();
    let mut i: usize = 0;
    proof {
        broadcast use vstd::seq_lib::seq_to_set_is_finite;

        assert(Seq::<SignerAddress>::empty().map_values(|s: SignerAddress| s@)
            =~= Seq::<Seq<u8>>::empty());
        assert(recognized_signer_set(pkg_views.take(0), signer_views) =~= Seq::<
            Seq<u8>,
        >::empty().to_set().filter(|a: Seq<u8>| signer_views.contains(a)));
        assert(Seq::<Seq<u8>>::empty().to_set().filter(|a: Seq<u8>| signer_views.contains(a))
            =~= Set::<Seq<u8>>::empty());
    }
    while i < data_packages.len()
        invariant
            i <= data_packages@.len(),
            pkg_views == view_packages(data_packages@),
            signer_views == signers@.map_values(|s: SignerAddress| s@),
            seen@.map_values(|s: SignerAddress| s@).no_duplicates(),
            seen@.map_values(|s: SignerAddress| s@).to_set() == recognized_signer_set(
                pkg_views.take(i as int),
                signer_views,
            ),
        decreases data_packages@.len() - i,
    {
        let ghost seen_views = seen@.map_values(|s: SignerAddress| s@);
        let addr = &data_packages[i].signer_address;
        assert(pkg_views.take(i + 1).map_values(|p: SpecDataPackage| p.signer_address)
            =~= pkg_views.take(i as int).map_values(|p: SpecDataPackage| p.signer_address).push(
            addr@,
        ));
        proof {
            let prev = pkg_views.take(i as int).map_values(|p: SpecDataPackage| p.signer_address);
            prev.lemma_push_to_set_commute(addr@);
        }
        let recognized = contains_address(signers, addr);
        if recognized {
            let is_seen = contains_address(&seen, addr);
            if !is_seen {
                let copy = SignerAddress { bytes: copy_range(&addr.bytes, 0, addr.bytes.len()) };
                assert(copy@ == addr@);
                seen.push(copy);
                assert(seen@.map_values(|s: SignerAddress| s@) =~= seen_views.push(addr@));
                proof {
                    seen_views.lemma_push_to_set_commute(addr@);
                }
                assert(recognized_signer_set(pkg_views.take(i + 1), signer_views)
                    =~= recognized_signer_set(pkg_views.take(i as int), signer_views).insert(
                    addr@,
                ));
            } else {
                assert(seen_views.to_set().contains(addr@));
                assert(recognized_signer_set(pkg_views.take(i + 1), signer_views)
                    =~= recognized_signer_set(pkg_views.take(i as int), signer_views));
            }
        } else {
            assert(recognized_signer_set(pkg_views.take(i + 1), signer_views)
                =~= recognized_signer_set(pkg_views.take(i as int), signer_views));
        }
        i = i + 1;
    }
    assert(pkg_views.take(pkg_views.len() as int) =~= pkg_views);
    proof {
        seen@.map_values(|s: SignerAddress| s@).unique_seq_to_set();
    }
    if seen.len() >= threshold as usize {
        Ok(())
    } else {
        Err(RedstoneError::InsufficientSignerCount)
    }
}

/// Feed scoping, a policy of the caller: when the configuration restricts
/// to specific feeds, a feed outside that list is rejected. An empty list
/// restricts nothing.
pub open spec fn verify_feed_id_spec(feed: Seq<u8>, cfg: SpecConfig) -> Result<
    (),
    RedstoneError,
> {
    if cfg.feed_ids.len() > 0 && !cfg.feed_ids.contains(feed) {
        Err(RedstoneError::UnsupportedFeedId)
    } else {
        Ok(())
    }
}

/// Checks a requested feed against the configured feed allow-list.
pub fn verify_feed_id(feed_id: &FeedId, config: &Config) -> (r: Result<(), RedstoneError>)
    ensures
        r == verify_feed_id_spec(feed_id@, config@),
{
    let ghost views = config.feed_ids@.map_values(|f: FeedId| f@);
    if config.feed_ids.len() == 0 {
        return Ok(());
    }
    let mut i: usize = 0;
    while i < config.feed_ids.len()
        invariant
            i <= config.feed_ids@.len(),
            views == config.feed_ids@.map_values(|f: FeedId| f@),
            forall|j: int| 0 <= j < i ==> views[j] != feed_id@,
        decreases config.feed_ids@.len() - i,
    {
        if bytes_eq(&config.feed_ids[i].bytes, &feed_id.bytes) {
            assert(views[i as int] == feed_id@);
            return Ok(());
        }
        i = i + 1;
    }
    assert(forall|j: int| 0 <= j < views.len() ==> views[j] != feed_id@);
    Err(RedstoneError::UnsupportedFeedId)
}

/// The whole consensus check: every package timestamp must be fresh, and
/// the distinct recognized signers must reach the threshold.
pub open spec fn verify_data_packages_spec(pkgs: Seq<SpecDataPackage>, cfg: SpecConfig) -> Result<
    (),
    RedstoneError,
> {
    match verify_timestamps_spec(pkgs, cfg) {
        Err(e) => Err(e),
        Ok(()) => verify_signer_count_spec(pkgs, cfg.signer_count_threshold, cfg.signers),
    }
}

/// Validates a decoded payload against the configuration. Pure: the
/// payload and the configuration are only read.
pub fn verify_data_packages(payload: &Payload, config: &Config) -> (r: Result<(), RedstoneError>)
    ensures
        r == verify_data_packages_spec(payload@, config@),
{
    let ghost pkg_views = payload@;
    let mut i: usize = 0;
    assert(pkg_views.skip(0) =~= pkg_views);
    while i < payload.data_packages.len()
        invariant
            i <= payload.data_packages@.len(),
            pkg_views == payload@,
            verify_timestamps_spec(pkg_views, config@) == verify_timestamps_spec(
                pkg_views.skip(i as int),
                config@,
            ),
        decreases payload.data_packages@.len() - i,
    {
        let ts = payload.data_packages[i].timestamp;
        assert(pkg_views.skip(i as int).first() == pkg_views[i as int]);
        match verify_timestamp(ts, config) {
            Ok(()) => {},
            Err(e) => {
                return Err(e);
            },
        }
        assert(pkg_views.skip(i as int).drop_first() =~= pkg_views.skip(i + 1));
        i = i + 1;
    }
    assert(pkg_views.skip(pkg_views.len() as int) =~= Seq::<SpecDataPackage>::empty());
    verify_signer_count(&payload.data_packages, config.signer_count_threshold, &config.signers)
}

/// Validating one payload twice against one configuration yields the same
/// outcome both times: the check is a function of its inputs alone, with
/// no hidden state.
pub proof fn lemma_validation_idempotent(
    pkgs: Seq<SpecDataPackage>,
    cfg: SpecConfig,
    r1: Result<(), RedstoneError>,
    r2: Result<(), RedstoneError>,
)
    requires
        r1 == verify_data_packages_spec(pkgs, cfg),
        r2 == verify_data_packages_spec(pkgs, cfg),
    ensures
        r1 == r2,
{
}

} // verus!
