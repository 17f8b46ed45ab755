//! Small byte-formatting helpers: hex rendering and the fixed-width
//! identifier buffers that the submission side assembles.

use vstd::prelude::*;

use vstd::string::StrSliceExecFns;
use vstd::string::StringSliceAdditionalSpecFns;

use crate::bytes::copy_range;
use crate::state::U256;

verus! {

/// The ASCII code of one lowercase hex digit.
pub open spec fn hex_code(d: int) -> u8 {
    if d < 10 {
        (48 + d) as u8
    } else {
        (87 + d) as u8
    }
}

/// The ASCII codes of the lowercase hex rendering of a byte string, two
/// digits per byte.
pub open spec fn hex_bytes_of(s: Seq<u8>) -> Seq<u8>
    decreases s.len(),
{
    if s.len() == 0 {
        Seq::<u8>::empty()
    } else {
        hex_bytes_of(s.drop_last()) + seq![
            hex_code(s.last() as int / 16),
            hex_code(s.last() as int % 16),
        ]
    }
}

/// Relies on `String::from_utf8`: ASCII bytes are valid UTF-8 and decode
/// to the characters with the same code points.
#[verifier::external_body]
fn string_from_ascii(bytes: Vec<u8>) -> (r: String)
    requires
        forall|i: int| 0 <= i < bytes@.len() ==> bytes@[i] < 128,
    ensures
        r@ == bytes@.map_values(|b: u8| b as char),
{
    match String::from_utf8(bytes) {
        Ok(s) => s,
        Err(_) => String::new(),
    }
}

/// The lowercase hex rendering of a byte string, two digits per byte.
pub fn bytes_to_hex(bytes: &[u8]) -> (r: String)
    ensures
        r@ == hex_bytes_of(bytes@).map_values(|b: u8| b as char),
        r@.len() == 2 * bytes@.len(),
{
    let mut codes: Vec<u8> = Vec::new();
    let mut i: usize = 0;
    assert(bytes@.take(0) =~= Seq::<u8>::empty());
    while i < bytes.len()
        invariant
            i <= bytes@.len(),
            codes@ == hex_bytes_of(bytes@.take(i as int)),
            codes@.len() == 2 * i,
            forall|j: int| 0 <= j < codes@.len() ==> codes@[j] < 128,
        decreases bytes@.len() - i,
    {
        let b = bytes[i];
        let hi = b / 16;
        let lo = b % 16;
        let hi_code: u8 = if hi < 10 {
            48 + hi
        } else {
            87 + hi
        };
        let lo_code: u8 = if lo < 10 {
            48 + lo
        } else {
            87 + lo
        };
        codes.push(hi_code);
        codes.push(lo_code);
        i = i + 1;
        proof {
            assert(bytes@.take(i as int).drop_last() =~= bytes@.take(i - 1));
            assert(bytes@.take(i as int).last() == bytes@[i - 1]);
            assert(codes@ =~= hex_bytes_of(bytes@.take(i - 1)) + seq![
                hex_code(bytes@[i - 1] as int / 16),
                hex_code(bytes@[i - 1] as int % 16),
            ]);
        }
    }
    assert(bytes@.take(bytes@.len() as int) =~= bytes@);
    string_from_ascii(codes)
}

/// The length of the identifier a buffer starts with: the run of bytes
/// before the first zero (or the whole buffer when none is zero).
pub open spec fn name_len(s: Seq<u8>) -> nat
    decreases s.len(),
{
    if s.len() == 0 {
        0
    } else if s.first() == 0 {
        0
    } else {
        1 + name_len(s.drop_first())
    }
}

/// `name_len` is the position of the first zero byte.
proof fn lemma_name_len_at(s: Seq<u8>, i: int)
    requires
        0 <= i <= s.len(),
        forall|j: int| 0 <= j < i ==> s[j] != 0,
        i == s.len() || s[i] == 0,
    ensures
        name_len(s) == i,
    decreases s.len(),
{
    if s.len() == 0 {
    } else if i == 0 {
    } else {
        assert(s.first() != 0);
        let rest = s.drop_first();
        assert(forall|j: int| 0 <= j < i - 1 ==> rest[j] == s[j + 1] && s[j + 1] != 0);
        assert(i - 1 == rest.len() || rest[i - 1] == s[i]);
        lemma_name_len_at(rest, i - 1);
    }
}

/// The printable identifier a 256-bit container starts with: its bytes
/// before the first zero, read as characters. The identifier must be
/// ASCII, as the feed-id convention asks.
pub fn u256_to_string(u256: &U256) -> (r: String)
    requires
        forall|i: int| 0 <= i < name_len(u256@) ==> u256@[i] < 128,
    ensures
        r@ == u256@.take(name_len(u256@) as int).map_values(|b: u8| b as char),
{
    let ghost s = u256@;
    let end = u256.bytes.len();
    let mut n: usize = 0;
    while n < end && u256.bytes[n] != 0
        invariant
            n <= end == s.len(),
            s == u256@,
            forall|j: int| 0 <= j < n ==> s[j] != 0,
        decreases end - n,
    {
        n = n + 1;
    }
    proof {
        lemma_name_len_at(s, n as int);
    }
    let codes = copy_range(&u256.bytes, 0, n);
    assert(codes@ =~= s.take(n as int));
    string_from_ascii(codes)
}

/// A value padded or truncated to exactly 32 bytes with trailing zeros,
/// as the feed-id convention asks.
pub open spec fn pad32(s: Seq<u8>) -> Seq<u8> {
    if s.len() <= 32 {
        s + Seq::new((32 - s.len()) as nat, |i: int| 0u8)
    } else {
        s.take(32)
    }
}

/// The 32-byte feed-id buffer for a textual feed name: its UTF-8 bytes,
/// right-padded with zeros or truncated to 32 bytes.
pub fn make_feed_id_bytes(feed_id: String) -> (r: Vec<u8>)
    ensures
        r@.len() == 32,
        r@ == pad32(vstd::utf8::encode_utf8(feed_id@)),
{
    let b = feed_id.as_str().as_bytes_vec();
    assert(b@ == vstd::utf8::encode_utf8(feed_id@));
    resize32(b)
}

/// The fixed 32-byte seed naming the price storage namespace: the ASCII
/// bytes of "price", right-padded with zeros.
pub fn make_price_seed() -> (r: Vec<u8>)
    ensures
        r@.len() == 32,
        r@[0] == 112 && r@[1] == 114 && r@[2] == 105 && r@[3] == 99 && r@[4] == 101,
        forall|i: int| 5 <= i < 32 ==> r@[i] == 0,
{
    let mut v: Vec<u8> = Vec::new();
    v.push(112);
    v.push(114);
    v.push(105);
    v.push(99);
    v.push(101);
    let mut i: usize = 5;
    while i < 32
        invariant
            5 <= i <= 32,
            v@.len() == i,
            v@[0] == 112 && v@[1] == 114 && v@[2] == 105 && v@[3] == 99 && v@[4] == 101,
            forall|j: int| 5 <= j < i ==> v@[j] == 0,
        decreases 32 - i,
    {
        v.push(0);
        i = i + 1;
    }
    v
}

/// The eight-byte method discriminator that prefixes an instruction.
pub open spec fn discriminator_seq() -> Seq<u8> {
    seq![49u8, 96u8, 127u8, 141u8, 118u8, 203u8, 237u8, 178u8]
}

/// The little-endian four-byte encoding of a length below `2^32`.
pub open spec fn le4(n: nat) -> Seq<u8> {
    seq![
        (n % 256) as u8,
        ((n / 256) % 256) as u8,
        ((n / 65536) % 256) as u8,
        ((n / 16777216) % 256) as u8,
    ]
}

/// Assembles the instruction bytes for one submission: the method
/// discriminator, the 32-byte feed id, the little-endian payload length,
/// then the payload itself.
pub fn make_instruction_data(feed_id: String, payload: Vec<u8>) -> (r: Vec<u8>)
    requires
        payload@.len() < 0x100000000,
    ensures
        r@ == discriminator_seq() + pad32(vstd::utf8::encode_utf8(feed_id@)) + le4(
            payload@.len() as nat,
        ) + payload@,
{
    let ghost pl = payload@;
    let mut r: Vec<u8> = Vec::new();
    r.push(49);
    r.push(96);
    r.push(127);
    r.push(141);
    r.push(118);
    r.push(203);
    r.push(237);
    r.push(178);
    assert(r@ =~= discriminator_seq());
    let mut fb = make_feed_id_bytes(feed_id);
    let ghost fbv = fb@;
    r.append(&mut fb);
    let n = payload.len();
    r.push((n % 256) as u8);
    r.push(((n / 256) % 256) as u8);
    r.push(((n / 65536) % 256) as u8);
    r.push(((n / 16777216) % 256) as u8);
    let mut p = payload;
    r.append(&mut p);
    assert(r@ =~= discriminator_seq() + fbv + le4(pl.len() as nat) + pl);
    r
}

/// Pads or truncates a byte buffer to exactly 32 bytes.
fn resize32(b: Vec<u8>) -> (r: Vec<u8>)
    ensures
        r@.len() == 32,
        r@ == pad32(b@),
{
    let ghost b0 = b@;
    if b.len() > 32 {
        let r = copy_range(&b, 0, 32);
        assert(r@ =~= pad32(b0));
        r
    } else {
        let mut v = b;
        let mut i = v.len();
        while i < 32
            invariant
                i == v@.len() <= 32,
                v@.len() >= b0.len(),
                v@.take(b0.len() as int) == b0,
                forall|j: int| b0.len() <= j < i ==> v@[j] == 0,
            decreases 32 - i,
        {
            v.push(0);
            i = i + 1;
            assert(v@.take(b0.len() as int) =~= b0);
        }
        assert(v@ =~= pad32(b0));
        v
    }
}

} // verus!
