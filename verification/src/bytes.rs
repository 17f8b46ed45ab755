//! Big-endian byte-string arithmetic and tail-consuming buffer operations.
//!
//! Every multi-byte integer field of the wire format is big-endian: the
//! value of a byte string is obtained by reading its bytes left to right as
//! base-256 digits. The format is trailer-encoded, so fields are consumed
//! from the end of a shrinking buffer.

use vstd::prelude::*;

verus! {

/// The unsigned integer denoted by a big-endian byte string.
pub open spec fn be_uint(s: Seq<u8>) -> nat
    decreases s.len(),
{
    if s.len() == 0 {
        0
    } else {
        be_uint(s.drop_last()) * 256 + s.last() as nat
    }
}

/// 256 raised to the power `n`: the number of byte strings of length `n`.
pub open spec fn pow256(n: nat) -> nat
    decreases n,
{
    if n == 0 {
        1
    } else {
        256 * pow256((n - 1) as nat)
    }
}

/// A big-endian byte string of length `n` denotes a value below `256^n`.
pub proof fn lemma_be_uint_bound(s: Seq<u8>)
    ensures
        be_uint(s) < pow256(s.len()),
    decreases s.len(),
{
    if s.len() == 0 {
    } else {
        lemma_be_uint_bound(s.drop_last());
        assert(be_uint(s.drop_last()) * 256 <= (pow256((s.len() - 1) as nat) - 1) * 256)
            by (nonlinear_arith)
            requires
                be_uint(s.drop_last()) <= pow256((s.len() - 1) as nat) - 1,
        ;
    }
}

/// A single byte denotes its own value.
pub proof fn lemma_be_uint_single(x: u8)
    ensures
        be_uint(seq![x]) == x,
{
    assert(seq![x].drop_last() =~= Seq::<u8>::empty());
    assert(be_uint(Seq::<u8>::empty()) == 0);
}

/// Concatenation shifts the left part by the length of the right part.
pub proof fn lemma_be_uint_append(a: Seq<u8>, b: Seq<u8>)
    ensures
        be_uint(a + b) == be_uint(a) * pow256(b.len()) + be_uint(b),
    decreases b.len(),
{
    if b.len() == 0 {
        assert(a + b =~= a);
        assert(pow256(0) == 1);
        assert(be_uint(a) * 1 == be_uint(a)) by (nonlinear_arith);
        assert(be_uint(a + b) == be_uint(a) * pow256(b.len()) + be_uint(b));
    } else {
        lemma_be_uint_append(a, b.drop_last());
        assert((a + b).drop_last() =~= a + b.drop_last());
        assert((a + b).last() == b.last());
        let va = be_uint(a);
        let vd = be_uint(b.drop_last());
        let p = pow256((b.len() - 1) as nat);
        assert(be_uint(a + b) == (va * p + vd) * 256 + b.last() as nat);
        assert((va * p + vd) * 256 == va * (256 * p) + vd * 256) by (nonlinear_arith);
        assert(pow256(b.len()) == 256 * p);
        assert(be_uint(b) == vd * 256 + b.last() as nat);
        assert(be_uint(a + b) == va * pow256(b.len()) + be_uint(b));
    }
}

/// The big-endian byte string of width `w` denoting `v` (mod `256^w`).
pub open spec fn be_bytes(v: nat, w: nat) -> Seq<u8>
    decreases w,
{
    if w == 0 {
        Seq::<u8>::empty()
    } else {
        be_bytes(v / 256, (w - 1) as nat).push((v % 256) as u8)
    }
}

pub proof fn lemma_be_bytes_len(v: nat, w: nat)
    ensures
        be_bytes(v, w).len() == w,
    decreases w,
{
    if w > 0 {
        lemma_be_bytes_len(v / 256, (w - 1) as nat);
    }
}

/// Writing a value below `256^w` and reading it back is the identity.
pub proof fn lemma_be_uint_of_be_bytes(v: nat, w: nat)
    requires
        v < pow256(w),
    ensures
        be_uint(be_bytes(v, w)) == v,
    decreases w,
{
    if w > 0 {
        assert(v / 256 < pow256((w - 1) as nat)) by (nonlinear_arith)
            requires
                v < 256 * pow256((w - 1) as nat),
        ;
        lemma_be_uint_of_be_bytes(v / 256, (w - 1) as nat);
        let s = be_bytes(v, w);
        assert(s.drop_last() =~= be_bytes(v / 256, (w - 1) as nat));
        assert(s.last() == (v % 256) as u8);
    }
}

/// Removes and returns the last `len` bytes of `payload`, shrinking it.
/// When `len` is at least the buffer's length the whole buffer is taken
/// and `payload` is left empty.
pub fn trim_end(payload: &mut Vec<u8>, len: usize) -> (r: Vec<u8>)
    ensures
        len >= old(payload)@.len() ==> final(payload)@ =~= Seq::<u8>::empty() && r@
            == old(payload)@,
        len <= old(payload)@.len() ==> final(payload)@ == old(payload)@.take(
            old(payload)@.len() - len,
        ) && r@ == old(payload)@.skip(old(payload)@.len() - len),
{
    if len >= payload.len() {
        let r = payload.split_off(0);
        assert(r@ =~= old(payload)@);
        assert(len == old(payload)@.len() ==> r@ =~= old(payload)@.skip(0)
            && payload@ =~= old(payload)@.take(0));
        r
    } else {
        let at = payload.len() - len;
        let r = payload.split_off(at);
        assert(payload@ =~= old(payload)@.take(old(payload)@.len() - len));
        assert(r@ =~= old(payload)@.skip(old(payload)@.len() - len));
        r
    }
}

/// The big-endian integer denoted by at most eight bytes, as a `u64`.
pub fn vec_to_u64(bytes: &Vec<u8>) -> (r: u64)
    requires
        bytes@.len() <= 8,
    ensures
        r == be_uint(bytes@),
{
    proof {
        lemma_be_uint_bound(bytes@);
        reveal_with_fuel(pow256, 9);
    }
    let mut acc: u64 = 0;
    let mut i: usize = 0;
    while i < bytes.len()
        invariant
            i <= bytes@.len() <= 8,
            acc == be_uint(bytes@.take(i as int)),
        decreases bytes@.len() - i,
    {
        proof {
            lemma_be_uint_bound(bytes@.take(i as int));
            reveal_with_fuel(pow256, 9);
            assert(bytes@.take(i + 1).drop_last() =~= bytes@.take(i as int));
            assert(bytes@.take(i + 1).last() == bytes@[i as int]);
        }
        acc = acc * 256 + bytes[i] as u64;
        i = i + 1;
    }
    assert(bytes@.take(bytes@.len() as int) =~= bytes@);
    acc
}

/// Byte-exact equality of two byte strings.
pub fn bytes_eq(a: &Vec<u8>, b: &Vec<u8>) -> (r: bool)
    ensures
        r == (a@ == b@),
{
    if a.len() != b.len() {
        return false;
    }
    let mut i: usize = 0;
    while i < a.len()
        invariant
            i <= a@.len() == b@.len(),
            forall|j: int| 0 <= j < i ==> a@[j] == b@[j],
        decreases a@.len() - i,
    {
        if a[i] != b[i] {
            return false;
        }
        i = i + 1;
    }
    assert(a@ =~= b@);
    true
}

/// A copy of the bytes of `v` from `from` (inclusive) to `to` (exclusive).
pub fn copy_range(v: &Vec<u8>, from: usize, to: usize) -> (r: Vec<u8>)
    requires
        from <= to <= v@.len(),
    ensures
        r@ == v@.subrange(from as int, to as int),
{
    let mut r: Vec<u8> = Vec::new();
    let mut i: usize = from;
    while i < to
        invariant
            from <= i <= to <= v@.len(),
            r@ =~= v@.subrange(from as int, i as int),
        decreases to - i,
    {
        r.push(v[i]);
        i = i + 1;
    }
    assert(r@ =~= v@.subrange(from as int, to as int));
    r
}

/// Appends the big-endian encoding of `v` at width `w` to `out`.
pub fn write_be(out: &mut Vec<u8>, v: u64, w: usize)
    requires
        w <= 8,
    ensures
        final(out)@ == old(out)@ + be_bytes(v as nat, w as nat),
    decreases w,
{
    if w == 0 {
        assert(final(out)@ =~= old(out)@ + be_bytes(v as nat, 0));
    } else {
        write_be(out, v / 256, w - 1);
        out.push((v % 256) as u8);
        assert(final(out)@ =~= old(out)@ + be_bytes(v as nat, w as nat));
    }
}

} // verus!
