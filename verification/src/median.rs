//! Overflow-safe 256-bit median aggregation.
//!
//! Values are 32-byte big-endian unsigned integers. Lexicographic byte
//! comparison agrees with numeric comparison at this fixed width, which is
//! proved here and used to sort. The mean of the two middle values of an
//! even-sized run is taken with a carry-propagating add followed by a
//! carried right shift, so it never wraps.

use vstd::prelude::*;

use vstd::relations::{sorted_by, total_ordering};
use vstd::seq_lib::lemma_multiset_commutative;
use vstd::seq_lib::lemma_sorted_unique;

use crate::bytes::{
    be_uint, copy_range, lemma_be_uint_append, lemma_be_uint_bound, lemma_be_uint_single, pow256,
};
use crate::error::RedstoneError;
use crate::state::{FeedId, Payload, SignerAddress, SpecDataPackage, SpecDataPoint, U256};

verus! {

/// The ordering the median sorts by.
pub open spec fn nat_leq() -> spec_fn(nat, nat) -> bool {
    |a: nat, b: nat| a <= b
}

pub proof fn lemma_nat_leq_total_ordering()
    ensures
        total_ordering(nat_leq()),
{
    assert forall|a: nat| #[trigger] nat_leq()(a, a) by {}
}

/// The numbers denoted by a run of 256-bit values.
pub open spec fn u256_nats(s: Seq<U256>) -> Seq<nat> {
    s.map_values(|v: U256| v.as_nat())
}

/// The median of a run of numbers: the middle element of the sorted run
/// when the count is odd, the floor of the mean of the two middle
/// elements when it is even.
pub open spec fn median_spec(vs: Seq<nat>) -> nat
    recommends
        vs.len() > 0,
{
    let s = vs.sort_by(nat_leq());
    let mid = vs.len() as int / 2;
    if vs.len() % 2 == 1 {
        s[mid]
    } else {
        (s[mid - 1] + s[mid]) / 2
    }
}

/// At equal widths, a byte string that first differs downward denotes the
/// smaller number.
proof fn lemma_be_uint_lex(x: Seq<u8>, y: Seq<u8>, i: int)
    requires
        x.len() == y.len(),
        0 <= i < x.len(),
        forall|j: int| 0 <= j < i ==> x[j] == y[j],
        x[i] < y[i],
    ensures
        be_uint(x) < be_uint(y),
{
    let n = x.len() as int;
    let p = pow256((n - i - 1) as nat);
    assert(x =~= x.take(i + 1) + x.skip(i + 1));
    assert(y =~= y.take(i + 1) + y.skip(i + 1));
    lemma_be_uint_append(x.take(i + 1), x.skip(i + 1));
    lemma_be_uint_append(y.take(i + 1), y.skip(i + 1));
    assert(x.take(i + 1).drop_last() =~= x.take(i));
    assert(y.take(i + 1).drop_last() =~= y.take(i));
    assert(x.take(i) =~= y.take(i));
    let bx = be_uint(x.take(i + 1));
    let by = be_uint(y.take(i + 1));
    assert(bx == be_uint(x.take(i)) * 256 + x[i] as nat);
    assert(by == be_uint(y.take(i)) * 256 + y[i] as nat);
    assert(bx + 1 <= by);
    let rx = be_uint(x.skip(i + 1));
    let ry = be_uint(y.skip(i + 1));
    lemma_be_uint_bound(x.skip(i + 1));
    assert(rx < p);
    assert(be_uint(x) == bx * p + rx);
    assert(be_uint(y) == by * p + ry);
    assert(bx * p + p == (bx + 1) * p) by (nonlinear_arith);
    assert((bx + 1) * p <= by * p) by (nonlinear_arith)
        requires
            bx + 1 <= by,
            p >= 0,
    ;
}

/// Numeric strictly-less-than on two 256-bit values, by one byte scan.
pub fn u256_lt(a: &U256, b: &U256) -> (r: bool)
    requires
        a.wf(),
        b.wf(),
    ensures
        r == (a.as_nat() < b.as_nat()),
{
    let mut i: usize = 0;
    while i < 32
        invariant
            i <= 32,
            a.wf(),
            b.wf(),
            forall|j: int| 0 <= j < i ==> a@[j] == b@[j],
        decreases 32 - i,
    {
        if a.bytes[i] < b.bytes[i] {
            proof {
                lemma_be_uint_lex(a@, b@, i as int);
            }
            return true;
        }
        if a.bytes[i] > b.bytes[i] {
            proof {
                lemma_be_uint_lex(b@, a@, i as int);
            }
            return false;
        }
        i = i + 1;
    }
    assert(a@ =~= b@);
    false
}

fn clone_u256(v: &U256) -> (r: U256)
    ensures
        r@ == v@,
{
    U256 { bytes: copy_range(&v.bytes, 0, v.bytes.len()) }
}

/// Inserting an element anywhere in a run adds exactly it to the multiset.
proof fn lemma_insert_to_multiset(s: Seq<nat>, k: int, v: nat)
    requires
        0 <= k <= s.len(),
    ensures
        s.insert(k, v).to_multiset() == s.to_multiset().insert(v),
{
    broadcast use vstd::seq_lib::group_to_multiset_ensures;

    assert(s.insert(k, v) =~= s.take(k).push(v) + s.skip(k));
    lemma_multiset_commutative(s.take(k).push(v), s.skip(k));
    assert(s =~= s.take(k) + s.skip(k));
    lemma_multiset_commutative(s.take(k), s.skip(k));
    assert(s.take(k).push(v).to_multiset() =~= s.take(k).to_multiset().insert(v));
    assert(s.take(k).to_multiset().insert(v).add(s.skip(k).to_multiset()) =~= s.take(
        k,
    ).to_multiset().add(s.skip(k).to_multiset()).insert(v));
}

/// Sorts 256-bit values into ascending numeric order, by insertion.
fn sort_u256(values: &Vec<U256>) -> (r: Vec<U256>)
    requires
        forall|i: int| 0 <= i < values@.len() ==> (#[trigger] values@[i]).wf(),
    ensures
        r@.len() == values@.len(),
        forall|i: int| 0 <= i < r@.len() ==> (#[trigger] r@[i]).wf(),
        u256_nats(r@).to_multiset() == u256_nats(values@).to_multiset(),
        sorted_by(u256_nats(r@), nat_leq()),
{
    broadcast use vstd::seq_lib::group_to_multiset_ensures;

    let mut out: Vec<U256> = Vec::new();
    let mut i: usize = 0;
    assert(u256_nats(values@.take(0)) =~= Seq::<nat>::empty());
    assert(u256_nats(out@) =~= Seq::<nat>::empty());
    assert(u256_nats(out@).to_multiset() =~= u256_nats(values@.take(0)).to_multiset());
    while i < values.len()
        invariant
            i <= values@.len(),
            forall|j: int| 0 <= j < values@.len() ==> (#[trigger] values@[j]).wf(),
            forall|j: int| 0 <= j < out@.len() ==> (#[trigger] out@[j]).wf(),
            out@.len() == i,
            u256_nats(out@).to_multiset() == u256_nats(values@.take(i as int)).to_multiset(),
            sorted_by(u256_nats(out@), nat_leq()),
        decreases values@.len() - i,
    {
        let ghost out0 = out@;
        let v = clone_u256(&values[i]);
        assert(v.wf());
        let mut k: usize = 0;
        while k < out.len() && u256_lt(&out[k], &v)
            invariant
                k <= out@.len(),
                out@ == out0,
                v.wf(),
                forall|j: int| 0 <= j < out@.len() ==> (#[trigger] out@[j]).wf(),
                forall|j: int| 0 <= j < k ==> u256_nats(out@)[j] < v.as_nat(),
            decreases out@.len() - k,
        {
            assert(u256_nats(out@)[k as int] == out@[k as int].as_nat());
            k = k + 1;
        }
        proof {
            lemma_insert_to_multiset(u256_nats(out@), k as int, v.as_nat());
        }
        assert(k < out0.len() ==> v.as_nat() <= out0[k as int].as_nat());
        out.insert(k, v);
        i = i + 1;
        proof {
            assert(out@ =~= out0.insert(k as int, v));
            assert(u256_nats(out@) =~= u256_nats(out0).insert(k as int, v.as_nat()));
            let prev = u256_nats(values@.take(i - 1));
            assert(u256_nats(values@.take(i as int)) =~= prev.push(values@[i - 1].as_nat()));
            prev.to_multiset_ensures();
            assert(prev.push(values@[i - 1].as_nat()).to_multiset() =~= prev.to_multiset().insert(
                values@[i - 1].as_nat(),
            ));
            let s = u256_nats(out0);
            let t = u256_nats(out@);
            assert(t =~= s.insert(k as int, v.as_nat()));
            s.insert_ensures(k as int, v.as_nat());
            assert forall|p: int, q: int| 0 <= p < q < t.len() implies #[trigger] nat_leq()(
                t[p],
                t[q],
            ) by {
                let sorted0 = sorted_by(s, nat_leq());
                assert(sorted0);
                if q < k {
                    assert(t[p] == s[p] && t[q] == s[q]);
                } else if p > k {
                    assert(t[p] == s[p - 1] && t[q] == s[q - 1]);
                } else if p < k && q == k {
                    assert(t[p] == s[p] && t[q] == v.as_nat());
                    assert(s[p] < v.as_nat());
                } else if p == k && q > k {
                    assert(t[p] == v.as_nat() && t[q] == s[q - 1]);
                    assert(k < s.len());
                    assert(v.as_nat() <= s[k as int]);
                    if q - 1 > k {
                        assert(nat_leq()(s[k as int], s[q - 1]));
                    }
                } else if p < k && q > k {
                    assert(t[p] == s[p] && t[q] == s[q - 1]);
                    assert(s[p] < v.as_nat());
                    assert(v.as_nat() <= s[k as int]);
                    if q - 1 > k {
                        assert(nat_leq()(s[k as int], s[q - 1]));
                    }
                }
            }
        }
    }
    assert(values@.take(values@.len() as int) =~= values@);
    out
}

/// The floor of the mean of two 256-bit values, computed through a
/// carry-propagating add and a carried right shift: it never wraps.
pub fn avg_floor(a: &U256, b: &U256) -> (r: U256)
    requires
        a.wf(),
        b.wf(),
    ensures
        r.wf(),
        r.as_nat() == (a.as_nat() + b.as_nat()) / 2,
{
    let mut sum: Vec<u8> = Vec::new();
    let mut z: usize = 0;
    while z < 32
        invariant
            z <= 32,
            sum@.len() == z,
        decreases 32 - z,
    {
        sum.push(0);
        z = z + 1;
    }
    let mut carry: u8 = 0;
    let mut i: usize = 32;
    assert(a@.skip(32) =~= Seq::<u8>::empty());
    assert(b@.skip(32) =~= Seq::<u8>::empty());
    assert(sum@.skip(32) =~= Seq::<u8>::empty());
    while i > 0
        invariant
            i <= 32,
            a.wf(),
            b.wf(),
            sum@.len() == 32,
            carry <= 1,
            be_uint(a@.skip(i as int)) + be_uint(b@.skip(i as int)) == carry * pow256(
                (32 - i) as nat,
            ) + be_uint(sum@.skip(i as int)),
        decreases i,
    {
        let ghost sum0 = sum@;
        let ghost carry0 = carry;
        let j = i - 1;
        let d: u16 = a.bytes[j] as u16 + b.bytes[j] as u16 + carry as u16;
        let byte = (d % 256) as u8;
        carry = (d / 256) as u8;
        sum[j] = byte;
        i = j;
        proof {
            let p = pow256((32 - i - 1) as nat);
            assert(a@.skip(i as int) =~= seq![a@[i as int]] + a@.skip(i + 1));
            assert(b@.skip(i as int) =~= seq![b@[i as int]] + b@.skip(i + 1));
            assert(sum@.skip(i as int) =~= seq![byte] + sum0.skip(i + 1));
            lemma_be_uint_append(seq![a@[i as int]], a@.skip(i + 1));
            lemma_be_uint_append(seq![b@[i as int]], b@.skip(i + 1));
            lemma_be_uint_append(seq![byte], sum0.skip(i + 1));
            lemma_be_uint_single(a@[i as int]);
            lemma_be_uint_single(b@[i as int]);
            lemma_be_uint_single(byte);
            assert(d == a@[i as int] + b@[i as int] + carry0);
            assert(d == carry * 256 + byte);
            let sa = be_uint(a@.skip(i + 1));
            let sb = be_uint(b@.skip(i + 1));
            let ss = be_uint(sum0.skip(i + 1));
            assert(sa + sb == carry0 * p + ss);
            assert(be_uint(a@.skip(i as int)) + be_uint(b@.skip(i as int)) == (a@[i as int]
                + b@[i as int]) * p + sa + sb) by (nonlinear_arith)
                requires
                    be_uint(a@.skip(i as int)) == a@[i as int] * p + sa,
                    be_uint(b@.skip(i as int)) == b@[i as int] * p + sb,
            ;
            assert((a@[i as int] + b@[i as int]) * p + carry0 * p == (carry * 256 + byte) * p)
                by (nonlinear_arith)
                requires
                    a@[i as int] + b@[i as int] + carry0 == carry * 256 + byte,
            ;
            assert((carry * 256 + byte) * p == carry * (256 * p) + byte * p) by (nonlinear_arith);
            assert(pow256((32 - i) as nat) == 256 * p);
            assert(be_uint(sum@.skip(i as int)) == byte * p + ss);
        }
    }
    assert(a@.skip(0) =~= a@);
    assert(b@.skip(0) =~= b@);
    assert(sum@.skip(0) =~= sum@);
    let ghost total = a.as_nat() + b.as_nat();
    assert(total == carry * pow256(32) + be_uint(sum@));
    let top: u8 = carry;
    let mut out: Vec<u8> = Vec::new();
    let mut c: u8 = top;
    let mut j: usize = 0;
    assert(out@.take(0) =~= Seq::<u8>::empty());
    assert(sum@.take(0) =~= Seq::<u8>::empty());
    while j < 32
        invariant
            j <= 32,
            sum@.len() == 32,
            out@.len() == j,
            c <= 1,
            top <= 1,
            2 * be_uint(out@.take(j as int)) + c == top * pow256(j as nat) + be_uint(
                sum@.take(j as int),
            ),
        decreases 32 - j,
    {
        let ghost out0 = out@;
        let ghost c0 = c;
        let s_j = sum[j];
        let digit = c * 128 + s_j / 2;
        c = s_j % 2;
        out.push(digit);
        j = j + 1;
        proof {
            assert(out@.take(j as int) =~= out0.take(j - 1).push(digit));
            assert(out@.take(j as int).drop_last() =~= out0.take(j - 1));
            assert(sum@.take(j as int).drop_last() =~= sum@.take(j - 1));
            assert(sum@.take(j as int).last() == s_j);
            let rj = be_uint(out0.take(j - 1));
            let xj = be_uint(sum@.take(j - 1));
            assert(be_uint(out@.take(j as int)) == rj * 256 + digit as nat);
            assert(be_uint(sum@.take(j as int)) == xj * 256 + s_j as nat);
            assert(2 * (rj * 256 + c0 * 128 + s_j / 2) + s_j % 2 == (2 * rj + c0) * 256 + s_j)
                by (nonlinear_arith);
            assert((2 * rj + c0) * 256 == (top * pow256((j - 1) as nat) + xj) * 256)
                by (nonlinear_arith)
                requires
                    2 * rj + c0 == top * pow256((j - 1) as nat) + xj,
            ;
            assert((top * pow256((j - 1) as nat) + xj) * 256 == top * (256 * pow256(
                (j - 1) as nat,
            )) + xj * 256) by (nonlinear_arith);
            assert(pow256(j as nat) == 256 * pow256((j - 1) as nat));
            assert(digit as nat == c0 * 128 + s_j / 2);
        }
    }
    assert(out@.take(32) =~= out@);
    assert(sum@.take(32) =~= sum@);
    assert(2 * be_uint(out@) + c == total);
    U256 { bytes: out }
}

/// The median of a run of 256-bit values. An empty run is an error, never
/// a default; a single value is its own median.
pub fn median(values: &Vec<U256>) -> (r: Result<U256, RedstoneError>)
    requires
        forall|i: int| 0 <= i < values@.len() ==> (#[trigger] values@[i]).wf(),
    ensures
        values@.len() == 0 <==> r is Err,
        r is Err ==> r->Err_0 == RedstoneError::MedianCalculationError,
        values@.len() > 0 ==> r is Ok && r->Ok_0.wf() && r->Ok_0.as_nat() == median_spec(
            u256_nats(values@),
        ),
{
    if values.len() == 0 {
        return Err(RedstoneError::MedianCalculationError);
    }
    let sorted = sort_u256(values);
    proof {
        lemma_nat_leq_total_ordering();
        u256_nats(values@).lemma_sort_by_ensures(nat_leq());
        lemma_sorted_unique(
            u256_nats(sorted@),
            u256_nats(values@).sort_by(nat_leq()),
            nat_leq(),
        );
    }
    let n = values.len();
    assert(u256_nats(sorted@) == u256_nats(values@).sort_by(nat_leq()));
    if n % 2 == 1 {
        let m = clone_u256(&sorted[n / 2]);
        assert(m.as_nat() == u256_nats(sorted@)[n as int / 2]);
        Ok(m)
    } else {
        let lo = &sorted[n / 2 - 1];
        let hi = &sorted[n / 2];
        assert(lo.as_nat() == u256_nats(sorted@)[n as int / 2 - 1]);
        assert(hi.as_nat() == u256_nats(sorted@)[n as int / 2]);
        Ok(avg_floor(lo, hi))
    }
}

/// The views of a run of 256-bit values.
pub open spec fn bytes_views(s: Seq<U256>) -> Seq<Seq<u8>> {
    s.map_values(|v: U256| v@)
}

/// The values that a run of points contributes to one feed, in order.
pub open spec fn collect_points(pts: Seq<SpecDataPoint>, feed: Seq<u8>) -> Seq<Seq<u8>>
    decreases pts.len(),
{
    if pts.len() == 0 {
        Seq::<Seq<u8>>::empty()
    } else {
        (if pts.first().feed_id == feed {
            seq![pts.first().value]
        } else {
            Seq::<Seq<u8>>::empty()
        }) + collect_points(pts.drop_first(), feed)
    }
}

/// The values that qualify for one feed across a payload: points of that
/// feed from packages whose signer stands in the allow-list.
pub open spec fn collect_values(
    pkgs: Seq<SpecDataPackage>,
    feed: Seq<u8>,
    signers: Seq<Seq<u8>>,
) -> Seq<Seq<u8>>
    decreases pkgs.len(),
{
    if pkgs.len() == 0 {
        Seq::<Seq<u8>>::empty()
    } else {
        (if signers.contains(pkgs.first().signer_address) {
            collect_points(pkgs.first().data_points, feed)
        } else {
            Seq::<Seq<u8>>::empty()
        }) + collect_values(pkgs.drop_first(), feed, signers)
    }
}

/// Aggregates one feed across a validated payload: collects every
/// qualifying value and takes the median. A feed with no qualifying value
/// is an error, never a default of zero.
pub fn aggregate(payload: &Payload, feed_id: &FeedId, signers: &Vec<SignerAddress>) -> (r: Result<
    U256,
    RedstoneError,
>)
    requires
        payload.wf(),
    ensures
        ({
            let collected = collect_values(
                payload@,
                feed_id@,
                signers@.map_values(|s: SignerAddress| s@),
            );
            &&& (collected.len() == 0 <==> r is Err)
            &&& (r is Err ==> r->Err_0 == RedstoneError::MedianCalculationError)
            &&& (r is Ok ==> r->Ok_0.wf() && r->Ok_0.as_nat() == median_spec(
                collected.map_values(|b: Seq<u8>| be_uint(b)),
            ))
        }),
{
    let ghost pv = payload@;
    let ghost sv = signers@.map_values(|s: SignerAddress| s@);
    let ghost f = feed_id@;
    let mut values: Vec<U256> = Vec::new();
    let mut i: usize = 0;
    assert(pv.skip(0) =~= pv);
    assert(bytes_views(values@) =~= Seq::<Seq<u8>>::empty());
    while i < payload.data_packages.len()
        invariant
            i <= payload.data_packages@.len(),
            pv == payload@,
            sv == signers@.map_values(|s: SignerAddress| s@),
            f == feed_id@,
            payload.wf(),
            forall|j: int| 0 <= j < values@.len() ==> (#[trigger] values@[j]).wf(),
            collect_values(pv, f, sv) == bytes_views(values@) + collect_values(
                pv.skip(i as int),
                f,
                sv,
            ),
        decreases payload.data_packages@.len() - i,
    {
        let ghost done = bytes_views(values@);
        proof {
            assert(pv.skip(i as int).first() == pv[i as int]);
            assert(pv.skip(i as int).drop_first() =~= pv.skip(i + 1));
        }
        let pkg = &payload.data_packages[i];
        assert(pkg@ == pv[i as int]);
        let recognized = crate::redstone::contains_address(signers, &pkg.signer_address);
        if recognized {
            let ghost pts = pv[i as int].data_points;
            let mut j: usize = 0;
            assert(pts.skip(0) =~= pts);
            assert(collect_values(pv.skip(i as int), f, sv) == collect_points(pts, f)
                + collect_values(pv.skip(i + 1), f, sv));
            while j < pkg.data_points.len()
                invariant
                    j <= pkg.data_points@.len(),
                    i < pv.len(),
                    pts == pkg@.data_points,
                    pkg.wf(),
                    pkg@ == pv[i as int],
                    f == feed_id@,
                    sv == signers@.map_values(|s: SignerAddress| s@),
                    forall|q: int| 0 <= q < values@.len() ==> (#[trigger] values@[q]).wf(),
                    collect_values(pv, f, sv) == bytes_views(values@) + collect_points(
                        pts.skip(j as int),
                        f,
                    ) + collect_values(pv.skip(i + 1), f, sv),
                decreases pkg.data_points@.len() - j,
            {
                let ghost done_j = bytes_views(values@);
                proof {
                    assert(pts.skip(j as int).first() == pts[j as int]);
                    assert(pts.skip(j as int).drop_first() =~= pts.skip(j + 1));
                }
                let pt = &pkg.data_points[j];
                assert(pt@ == pts[j as int]);
                let matches_feed = crate::bytes::bytes_eq(&pt.feed_id.bytes, &feed_id.bytes);
                if matches_feed {
                    let v = clone_u256(&pt.value);
                    assert(v.wf());
                    values.push(v);
                    proof {
                        assert(bytes_views(values@) =~= done_j + seq![pts[j as int].value]);
                        assert(collect_points(pts.skip(j as int), f) == seq![pts[j as int].value]
                            + collect_points(pts.skip(j + 1), f));
                        assert((done_j + seq![pts[j as int].value]) + (collect_points(
                            pts.skip(j + 1),
                            f,
                        ) + collect_values(pv.skip(i + 1), f, sv)) =~= done_j + seq![
                            pts[j as int].value
                        ] + collect_points(pts.skip(j + 1), f) + collect_values(
                            pv.skip(i + 1),
                            f,
                        sv));
                    }
                } else {
                    proof {
                        assert(collect_points(pts.skip(j as int), f) == Seq::<Seq<u8>>::empty()
                            + collect_points(pts.skip(j + 1), f));
                        assert(Seq::<Seq<u8>>::empty() + collect_points(pts.skip(j + 1), f)
                            =~= collect_points(pts.skip(j + 1), f));
                    }
                }
                j = j + 1;
            }
            assert(pts.skip(pts.len() as int) =~= Seq::<SpecDataPoint>::empty());
            assert(collect_points(pts.skip(pts.len() as int), f) =~= Seq::<Seq<u8>>::empty());
            assert(bytes_views(values@) + Seq::<Seq<u8>>::empty() + collect_values(
                pv.skip(i + 1),
                f,
                sv,
            ) =~= bytes_views(values@) + collect_values(pv.skip(i + 1), f, sv));
        } else {
            assert(collect_values(pv.skip(i as int), f, sv) == Seq::<Seq<u8>>::empty()
                + collect_values(pv.skip(i + 1), f, sv));
            assert(Seq::<Seq<u8>>::empty() + collect_values(pv.skip(i + 1), f, sv)
                =~= collect_values(pv.skip(i + 1), f, sv));
        }
        i = i + 1;
    }
    assert(pv.skip(pv.len() as int) =~= Seq::<SpecDataPackage>::empty());
    assert(bytes_views(values@) + Seq::<Seq<u8>>::empty() =~= bytes_views(values@));
    let ghost collected = collect_values(pv, f, sv);
    assert(collected == bytes_views(values@));
    assert(collected.len() == values@.len());
    proof {
        assert(u256_nats(values@) =~= collected.map_values(|b: Seq<u8>| be_uint(b)));
    }
    median(&values)
}

/// The median does not depend on the order the values arrive in: any two
/// runs with the same values have the same median.
pub proof fn lemma_median_order_invariant(a: Seq<nat>, b: Seq<nat>)
    requires
        a.to_multiset() == b.to_multiset(),
        a.len() > 0,
    ensures
        median_spec(a) == median_spec(b),
{
    broadcast use vstd::seq_lib::group_to_multiset_ensures;

    lemma_nat_leq_total_ordering();
    a.lemma_sort_by_ensures(nat_leq());
    b.lemma_sort_by_ensures(nat_leq());
    lemma_sorted_unique(a.sort_by(nat_leq()), b.sort_by(nat_leq()), nat_leq());
    assert(a.len() == a.to_multiset().len());
    assert(b.len() == b.to_multiset().len());
}

/// The median of a single value is that value.
pub proof fn lemma_median_single(v: nat)
    ensures
        median_spec(seq![v]) == v,
{
    let s = seq![v];
    lemma_nat_leq_total_ordering();
    s.lemma_sort_by_ensures(nat_leq());
    broadcast use vstd::seq_lib::group_to_multiset_ensures;

    let sorted = s.sort_by(nat_leq());
    assert(sorted.to_multiset() =~= s.to_multiset());
    assert(s.to_multiset().len() == 1);
    assert(sorted.len() == 1);
    assert(s.to_multiset().contains(v));
    assert(sorted.to_multiset().contains(v));
    assert(sorted.contains(v));
    assert(sorted[0] == v);
}

} // verus!
