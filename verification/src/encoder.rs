//! The inverse of the decoder: serializing signed data packages into the
//! trailer-encoded wire format, and the proof that decoding an encoded
//! payload reproduces it field for field, point order included.

use vstd::prelude::*;

use crate::bytes::{
    be_bytes, be_uint, lemma_be_bytes_len, lemma_be_uint_of_be_bytes, pow256, write_be,
};
use crate::crypto::recover_spec;
use crate::error::RedstoneError;
use crate::redstone::{
    dec_metadata, dec_package, dec_packages, dec_payload, dec_point, dec_points, marker_seq,
    zero_extend32,
};
use crate::state::{
    DataPoint, SpecDataPackage, SpecDataPoint, view_points, wf_spec_point,
};

verus! {

/// One provider's statement as the submission side holds it: the
/// signature itself rather than the derived signer, a timestamp, a value
/// width, and the points.
pub struct SpecSignedPackage {
    pub signature: Seq<u8>,
    pub timestamp: nat,
    pub value_size: nat,
    pub data_points: Seq<SpecDataPoint>,
}

/// A signed package the encoder can serialize: a 65-byte signature, a
/// timestamp and point count within their field widths, a value width of
/// at most 32, and 32-byte points whose bytes above the value width are
/// zero.
pub open spec fn wf_signed_package(p: SpecSignedPackage) -> bool {
    &&& p.signature.len() == 65
    &&& p.timestamp < pow256(6)
    &&& p.value_size <= 32
    &&& p.data_points.len() < pow256(3)
    &&& forall|i: int| 0 <= i < p.data_points.len() ==> wf_spec_point(#[trigger] p.data_points[i])
    &&& forall|i: int, j: int|
        0 <= i < p.data_points.len() && 0 <= j < 32 - p.value_size
            ==> #[trigger] p.data_points[i].value[j] == 0
}

/// One point on the wire: the feed id, then the low `vs` bytes of the
/// value container.
pub open spec fn enc_point(pt: SpecDataPoint, vs: nat) -> Seq<u8> {
    pt.feed_id + pt.value.skip(32 - vs)
}

/// A run of points on the wire; the first point of the run stands last,
/// nearest the tail.
pub open spec fn enc_points(pts: Seq<SpecDataPoint>, vs: nat) -> Seq<u8>
    decreases pts.len(),
{
    if pts.len() == 0 {
        Seq::<u8>::empty()
    } else {
        enc_points(pts.drop_first(), vs) + enc_point(pts.first(), vs)
    }
}

/// The byte range a package's signature covers: the points and the three
/// header fields, but not the signature itself.
pub open spec fn signable_of(p: SpecSignedPackage) -> Seq<u8> {
    enc_points(p.data_points, p.value_size) + be_bytes(p.timestamp, 6) + be_bytes(p.value_size, 4)
        + be_bytes(p.data_points.len() as nat, 3)
}

/// One package on the wire: its signed range, then its signature.
pub open spec fn enc_package(p: SpecSignedPackage) -> Seq<u8> {
    signable_of(p) + p.signature
}

/// A run of packages on the wire; the first package stands last, nearest
/// the tail.
pub open spec fn enc_packages(ps: Seq<SpecSignedPackage>) -> Seq<u8>
    decreases ps.len(),
{
    if ps.len() == 0 {
        Seq::<u8>::empty()
    } else {
        enc_packages(ps.drop_first()) + enc_package(ps.first())
    }
}

/// A whole payload on the wire: the packages, the 2-byte package count,
/// the free-form metadata with its 3-byte size, and the RedStone marker.
pub open spec fn enc_payload(ps: Seq<SpecSignedPackage>, metadata: Seq<u8>) -> Seq<u8> {
    enc_packages(ps) + be_bytes(ps.len() as nat, 2) + metadata + be_bytes(metadata.len() as nat, 3)
        + marker_seq()
}

/// The decoded form of a signed package whose recovery succeeded: the
/// derived signer in place of the signature.
pub open spec fn attach_signer(p: SpecSignedPackage) -> SpecDataPackage {
    SpecDataPackage {
        signer_address: recover_spec(signable_of(p), p.signature)->0,
        timestamp: p.timestamp,
        data_points: p.data_points,
    }
}

/// One provider's statement as the submission side builds it, ready to
/// serialize: the signature bytes, the timestamp, and the points, each
/// value carried at the full 32-byte width.
pub struct SignedDataPackage {
    pub signature: Vec<u8>,
    pub timestamp: u64,
    pub data_points: Vec<DataPoint>,
}

impl View for SignedDataPackage {
    type V = SpecSignedPackage;

    open spec fn view(&self) -> SpecSignedPackage {
        SpecSignedPackage {
            signature: self.signature@,
            timestamp: self.timestamp as nat,
            value_size: 32,
            data_points: view_points(self.data_points@),
        }
    }
}

/// The signed packages that one submission serializes.
pub struct RedstonePayload {
    pub signed_data_packages: Vec<SignedDataPackage>,
}

/// The views of a run of signed packages.
pub open spec fn view_signed(s: Seq<SignedDataPackage>) -> Seq<SpecSignedPackage> {
    s.map_values(|p: SignedDataPackage| p@)
}

/// Appends a copy of `src` to `out`.
fn append_bytes(out: &mut Vec<u8>, src: &Vec<u8>)
    ensures
        final(out)@ == old(out)@ + src@,
{
    let mut i: usize = 0;
    assert(out@ =~= old(out)@ + src@.take(0));
    while i < src.len()
        invariant
            i <= src@.len(),
            out@ == old(out)@ + src@.take(i as int),
        decreases src@.len() - i,
    {
        out.push(src[i]);
        i = i + 1;
        assert(out@ =~= old(out)@ + src@.take(i as int));
    }
    assert(out@ =~= old(out)@ + src@);
}

/// Serializes one package onto `out`: its points in reverse list order,
/// the three header fields, then the signature.
fn encode_data_package(out: &mut Vec<u8>, package: &SignedDataPackage)
    requires
        wf_signed_package(package@),
    ensures
        final(out)@ == old(out)@ + enc_package(package@),
{
    let ghost base = out@;
    let ghost pts = view_points(package.data_points@);
    let k = package.data_points.len();
    let mut j: usize = k;
    assert(pts.skip(k as int) =~= Seq::<SpecDataPoint>::empty());
    assert(out@ =~= base + enc_points(pts.skip(k as int), 32));
    while j > 0
        invariant
            j <= k == package.data_points@.len(),
            pts == view_points(package.data_points@),
            wf_signed_package(package@),
            out@ == base + enc_points(pts.skip(j as int), 32),
        decreases j,
    {
        j = j - 1;
        let pt = &package.data_points[j];
        assert(pt@ == pts[j as int]);
        assert(wf_spec_point(pts[j as int]));
        append_bytes(out, &pt.feed_id.bytes);
        append_bytes(out, &pt.value.bytes);
        proof {
            assert(pts.skip(j as int).first() == pts[j as int]);
            assert(pts.skip(j as int).drop_first() =~= pts.skip(j + 1));
            assert(pts[j as int].value.skip(0) =~= pts[j as int].value);
            assert(enc_point(pts[j as int], 32) =~= pts[j as int].feed_id + pts[j as int].value);
            assert(out@ =~= base + (enc_points(pts.skip(j + 1), 32) + enc_point(
                pts[j as int],
                32,
            )));
        }
    }
    assert(pts.skip(0) =~= pts);
    write_be(out, package.timestamp, 6);
    write_be(out, 32, 4);
    write_be(out, k as u64, 3);
    append_bytes(out, &package.signature);
    assert(out@ =~= base + enc_package(package@));
}

impl RedstonePayload {
    pub fn new(signed_data_packages: Vec<SignedDataPackage>) -> (r: Self)
        ensures
            r.signed_data_packages == signed_data_packages,
    {
        Self { signed_data_packages }
    }

    /// Serializes the payload in wire order: packages in reverse list
    /// order, the package count, an empty metadata section, the marker.
    pub fn to_bytes(&self) -> (r: Vec<u8>)
        requires
            self.signed_data_packages@.len() < 65536,
            forall|i: int|
                0 <= i < self.signed_data_packages@.len() ==> wf_signed_package(
                    (#[trigger] self.signed_data_packages@[i])@,
                ),
        ensures
            r@ == enc_payload(view_signed(self.signed_data_packages@), Seq::<u8>::empty()),
    {
        let ghost ps = view_signed(self.signed_data_packages@);
        let mut out: Vec<u8> = Vec::new();
        let n = self.signed_data_packages.len();
        let mut i: usize = n;
        assert(ps.skip(n as int) =~= Seq::<SpecSignedPackage>::empty());
        assert(out@ =~= enc_packages(ps.skip(n as int)));
        while i > 0
            invariant
                i <= n == self.signed_data_packages@.len(),
                ps == view_signed(self.signed_data_packages@),
                forall|q: int|
                    0 <= q < self.signed_data_packages@.len() ==> wf_signed_package(
                        (#[trigger] self.signed_data_packages@[q])@,
                    ),
                out@ == enc_packages(ps.skip(i as int)),
            decreases i,
        {
            i = i - 1;
            let package = &self.signed_data_packages[i];
            assert(package@ == ps[i as int]);
            encode_data_package(&mut out, package);
            proof {
                assert(ps.skip(i as int).first() == ps[i as int]);
                assert(ps.skip(i as int).drop_first() =~= ps.skip(i + 1));
            }
        }
        assert(ps.skip(0) =~= ps);
        write_be(&mut out, n as u64, 2);
        write_be(&mut out, 0, 3);
        out.push(0);
        out.push(0);
        out.push(2);
        out.push(237);
        out.push(87);
        out.push(1);
        out.push(30);
        out.push(0);
        out.push(0);
        proof {
            reveal_with_fuel(be_bytes, 4);
            assert(be_bytes(0, 3) =~= seq![0u8, 0u8, 0u8]);
            assert(out@ =~= enc_packages(ps) + be_bytes(ps.len() as nat, 2) + Seq::<u8>::empty()
                + be_bytes(0, 3) + marker_seq());
        }
        out
    }
}

/// Splitting a concatenation at the seam returns its parts.
proof fn lemma_split_tail(a: Seq<u8>, b: Seq<u8>)
    ensures
        (a + b).len() == a.len() + b.len(),
        (a + b).skip(a.len() as int) == b,
        (a + b).take(a.len() as int) == a,
{
    assert((a + b).skip(a.len() as int) =~= b);
    assert((a + b).take(a.len() as int) =~= a);
}

/// Each encoded point takes `32 + vs` bytes.
proof fn lemma_enc_points_len(pts: Seq<SpecDataPoint>, vs: nat)
    requires
        vs <= 32,
        forall|i: int| 0 <= i < pts.len() ==> wf_spec_point(#[trigger] pts[i]),
    ensures
        enc_points(pts, vs).len() == pts.len() * (32 + vs),
    decreases pts.len(),
{
    if pts.len() == 0 {
    } else {
        assert(wf_spec_point(pts[0]));
        assert(pts.first().value.skip(32 - vs).len() == vs);
        assert(forall|i: int|
            0 <= i < pts.drop_first().len() ==> wf_spec_point(#[trigger] pts.drop_first()[i]));
        lemma_enc_points_len(pts.drop_first(), vs);
        assert((pts.len() - 1) * (32 + vs) + (32 + vs) == pts.len() * (32 + vs))
            by (nonlinear_arith);
    }
}

/// Decoding a run of encoded points from the tail of a longer buffer
/// consumes exactly them and reproduces them in order.
proof fn lemma_dec_points_of_enc(x: Seq<u8>, pts: Seq<SpecDataPoint>, vs: nat)
    requires
        vs <= 32,
        forall|i: int| 0 <= i < pts.len() ==> wf_spec_point(#[trigger] pts[i]),
        forall|i: int, j: int|
            0 <= i < pts.len() && 0 <= j < 32 - vs ==> #[trigger] pts[i].value[j] == 0,
    ensures
        dec_points(x + enc_points(pts, vs), pts.len() as nat, vs) == (x, pts),
    decreases pts.len(),
{
    if pts.len() == 0 {
        assert(x + enc_points(pts, vs) =~= x);
        assert(pts =~= Seq::<SpecDataPoint>::empty());
    } else {
        let pt0 = pts.first();
        let rest = pts.drop_first();
        assert(wf_spec_point(pts[0]));
        let f = pt0.feed_id;
        let v = pt0.value.skip(32 - vs);
        let a = x + enc_points(rest, vs);
        let s = x + enc_points(pts, vs);
        assert(s =~= (a + f) + v);
        lemma_split_tail(a + f, v);
        lemma_split_tail(a, f);
        assert(v.len() == vs);
        assert(f.len() == 32);
        assert(s.len() - vs == (a + f).len());
        assert(s.skip(s.len() - vs) == v);
        assert(s.take(s.len() - vs) == a + f);
        assert((a + f).skip((a + f).len() - 32) == f);
        assert((a + f).take((a + f).len() - 32) == a);
        assert(zero_extend32(v) =~= pt0.value) by {
            assert(forall|j: int| 0 <= j < 32 - vs ==> pts[0].value[j] == 0);
        }
        assert(dec_point(s, vs) == (a, pt0));
        assert(forall|i: int| 0 <= i < rest.len() ==> wf_spec_point(#[trigger] rest[i]));
        assert(forall|i: int, j: int|
            0 <= i < rest.len() && 0 <= j < 32 - vs ==> #[trigger] rest[i].value[j] == 0) by {
            assert(forall|i: int, j: int|
                0 <= i < rest.len() && 0 <= j < 32 - vs ==> rest[i] == pts[i + 1]
                    && #[trigger] pts[i + 1].value[j] == 0);
        }
        lemma_dec_points_of_enc(x, rest, vs);
        assert(seq![pt0] + rest =~= pts);
    }
}

/// Decoding one encoded package from the tail of a longer buffer consumes
/// exactly it and, when its signature recovers, yields its fields with
/// the derived signer.
proof fn lemma_dec_package_of_enc(x: Seq<u8>, p: SpecSignedPackage)
    requires
        wf_signed_package(p),
        recover_spec(signable_of(p), p.signature) is Some,
    ensures
        dec_package(x + enc_package(p)) == Ok::<_, RedstoneError>((x, attach_signer(p))),
{
    let k = p.data_points.len() as nat;
    let vs = p.value_size;
    let ts = p.timestamp;
    let ep = enc_points(p.data_points, vs);
    let b6 = be_bytes(ts, 6);
    let b4 = be_bytes(vs, 4);
    let b3 = be_bytes(k, 3);
    lemma_be_bytes_len(ts, 6);
    lemma_be_bytes_len(vs, 4);
    lemma_be_bytes_len(k, 3);
    lemma_enc_points_len(p.data_points, vs);
    let s = x + enc_package(p);
    let r0 = x + ep + b6 + b4 + b3;
    assert(s =~= r0 + p.signature);
    lemma_split_tail(r0, p.signature);
    assert(s.len() >= 78);
    assert(s.skip(s.len() - 65) == p.signature);
    assert(s.take(s.len() - 65) == r0);
    let r1 = x + ep + b6 + b4;
    assert(r0 =~= r1 + b3);
    lemma_split_tail(r1, b3);
    assert(r0.skip(r0.len() - 3) == b3);
    assert(r0.take(r0.len() - 3) == r1);
    lemma_be_uint_of_be_bytes(k, 3);
    assert(be_uint(b3) == k);
    let r2 = x + ep + b6;
    assert(r1 =~= r2 + b4);
    lemma_split_tail(r2, b4);
    assert(r1.skip(r1.len() - 4) == b4);
    assert(r1.take(r1.len() - 4) == r2);
    assert(vs < pow256(4)) by {
        reveal_with_fuel(pow256, 5);
    }
    lemma_be_uint_of_be_bytes(vs, 4);
    assert(be_uint(b4) == vs);
    let r3 = x + ep;
    assert(r2 =~= r3 + b6);
    lemma_split_tail(r3, b6);
    assert(r2.skip(r2.len() - 6) == b6);
    assert(r2.take(r2.len() - 6) == r3);
    lemma_be_uint_of_be_bytes(ts, 6);
    assert(be_uint(b6) == ts);
    let size = k * (vs + 32) + 13;
    assert(ep.len() == k * (32 + vs));
    assert(k * (32 + vs) == k * (vs + 32)) by (nonlinear_arith);
    assert(r0.len() == x.len() + size);
    assert(size <= r0.len());
    let signable = r0.skip(r0.len() - size);
    assert(r0 =~= x + (ep + b6 + b4 + b3));
    lemma_split_tail(x, ep + b6 + b4 + b3);
    assert((ep + b6 + b4 + b3).len() == size);
    assert(signable == ep + b6 + b4 + b3);
    assert(signable == signable_of(p));
    lemma_dec_points_of_enc(x, p.data_points, vs);
    assert(dec_points(r3, k, vs) == (x, p.data_points));
    assert(dec_package(s) == Ok::<_, RedstoneError>((x, attach_signer(p))));
}

/// Decoding a run of encoded packages reproduces them all, signers
/// attached, with nothing left over.
proof fn lemma_dec_packages_of_enc(ps: Seq<SpecSignedPackage>)
    requires
        forall|i: int| 0 <= i < ps.len() ==> wf_signed_package(#[trigger] ps[i]),
        forall|i: int|
            0 <= i < ps.len() ==> recover_spec(
                signable_of(#[trigger] ps[i]),
                ps[i].signature,
            ) is Some,
    ensures
        dec_packages(enc_packages(ps), ps.len() as nat) == Ok::<_, RedstoneError>(
            (Seq::<u8>::empty(), ps.map_values(|p: SpecSignedPackage| attach_signer(p))),
        ),
    decreases ps.len(),
{
    if ps.len() == 0 {
        assert(ps.map_values(|p: SpecSignedPackage| attach_signer(p)) =~= Seq::<
            SpecDataPackage,
        >::empty());
    } else {
        let p0 = ps.first();
        let rest = ps.drop_first();
        assert(wf_signed_package(ps[0]));
        assert(enc_packages(ps) == enc_packages(rest) + enc_package(p0));
        lemma_dec_package_of_enc(enc_packages(rest), p0);
        assert(forall|i: int|
            0 <= i < rest.len() ==> rest[i] == ps[i + 1] && wf_signed_package(
                #[trigger] ps[i + 1],
            ));
        assert(forall|i: int| 0 <= i < rest.len() ==> wf_signed_package(#[trigger] rest[i]));
        assert(forall|i: int|
            0 <= i < rest.len() ==> recover_spec(
                signable_of(#[trigger] rest[i]),
                rest[i].signature,
            ) is Some) by {
            assert(forall|i: int|
                0 <= i < rest.len() ==> rest[i] == ps[i + 1] && recover_spec(
                    signable_of(#[trigger] ps[i + 1]),
                    ps[i + 1].signature,
                ) is Some);
        }
        lemma_dec_packages_of_enc(rest);
        assert(seq![attach_signer(p0)] + rest.map_values(
            |p: SpecSignedPackage| attach_signer(p),
        ) =~= ps.map_values(|p: SpecSignedPackage| attach_signer(p)));
    }
}

/// Round trip: decoding an encoded payload whose signatures all recover
/// reproduces every package field for field, point order included, with
/// the signer derived from each signature.
pub proof fn lemma_round_trip(ps: Seq<SpecSignedPackage>, metadata: Seq<u8>)
    requires
        ps.len() < pow256(2),
        metadata.len() < pow256(3),
        forall|i: int| 0 <= i < ps.len() ==> wf_signed_package(#[trigger] ps[i]),
        forall|i: int|
            0 <= i < ps.len() ==> recover_spec(
                signable_of(#[trigger] ps[i]),
                ps[i].signature,
            ) is Some,
    ensures
        dec_payload(enc_payload(ps, metadata)) == Ok::<_, RedstoneError>(
            ps.map_values(|p: SpecSignedPackage| attach_signer(p)),
        ),
{
    let n = ps.len() as nat;
    let m = metadata.len() as nat;
    let b2 = be_bytes(n, 2);
    let b3 = be_bytes(m, 3);
    lemma_be_bytes_len(n, 2);
    lemma_be_bytes_len(m, 3);
    let s = enc_payload(ps, metadata);
    let body = enc_packages(ps) + b2 + metadata + b3;
    assert(s =~= body + marker_seq());
    lemma_split_tail(body, marker_seq());
    assert(s.len() >= 9);
    assert(s.take(s.len() - 9) == body);
    let r1 = enc_packages(ps) + b2 + metadata;
    assert(body =~= r1 + b3);
    lemma_split_tail(r1, b3);
    assert(body.len() >= 3);
    assert(body.skip(body.len() - 3) == b3);
    assert(body.take(body.len() - 3) == r1);
    lemma_be_uint_of_be_bytes(m, 3);
    let r2 = enc_packages(ps) + b2;
    assert(r1 =~= r2 + metadata);
    lemma_split_tail(r2, metadata);
    assert(m + 2 <= r1.len());
    assert(r1.take(r1.len() - m) == r2);
    assert(r2 =~= enc_packages(ps) + b2);
    lemma_split_tail(enc_packages(ps), b2);
    assert(r2.skip(r2.len() - 2) == b2);
    assert(r2.take(r2.len() - 2) == enc_packages(ps));
    lemma_be_uint_of_be_bytes(n, 2);
    assert(dec_metadata(body) == Ok::<_, RedstoneError>((enc_packages(ps), n)));
    lemma_dec_packages_of_enc(ps);
}

} // verus!
