//! Signature recovery: keccak-256 hashing and secp256k1 public-key
//! recovery stand behind trusted wrappers; the address derivation around
//! them is verified.

use vstd::prelude::*;

use sha3::Digest;

use crate::bytes::copy_range;
use crate::error::RedstoneError;
use crate::state::SignerAddress;

verus! {

/// The keccak-256 digest of a byte string.
pub uninterp spec fn keccak256_of(data: Seq<u8>) -> Seq<u8>;

/// The uncompressed public key (65 SEC1 bytes, leading format byte
/// included) that secp256k1 recovery yields for a 32-byte message hash, a
/// 64-byte `(r,s)` pair and a recovery id, or nothing when recovery fails.
pub uninterp spec fn secp256k1_recovered(
    msg_hash: Seq<u8>,
    sig_rs: Seq<u8>,
    recovery_id: u8,
) -> Option<Seq<u8>>;

/// Relies on `sha3::Keccak256` through the `Digest` interface: the digest
/// depends on the input bytes alone and is 32 bytes long.
#[verifier::external_body]
pub fn keccak256(data: &[u8]) -> (r: Vec<u8>)
    ensures
        r@ == keccak256_of(data@),
        r@.len() == 32,
{
    sha3::Keccak256::digest(data).to_vec()
}

/// Relies on `libsecp256k1::recover` together with `Message::parse`,
/// `Signature::parse_standard_slice`, `RecoveryId::parse` and
/// `PublicKey::serialize`: recovery is a function of the hash, the 64
/// signature bytes and the recovery id alone; any parse or recovery
/// failure yields `None`; a recovered key serializes to 65 bytes.
#[verifier::external_body]
fn secp256k1_recover_key(msg_hash: &Vec<u8>, sig_rs: &Vec<u8>, recovery_id: u8) -> (r: Option<
    Vec<u8>,
>)
    requires
        msg_hash@.len() == 32,
        sig_rs@.len() == 64,
    ensures
        match secp256k1_recovered(msg_hash@, sig_rs@, recovery_id) {
            Some(k) => r is Some && r->0@ == k && k.len() == 65,
            None => r is None,
        },
{
    let mut h = [0u8; 32];
    h.copy_from_slice(msg_hash);
    let msg = libsecp256k1::Message::parse(&h);
    let sig = libsecp256k1::Signature::parse_standard_slice(sig_rs).ok()?;
    let rid = libsecp256k1::RecoveryId::parse(recovery_id).ok()?;
    let pk = libsecp256k1::recover(&msg, &sig, &rid).ok()?;
    Some(pk.serialize().to_vec())
}

/// The signer address that recovery derives from a message and a 65-byte
/// recoverable signature: recovery ids 27 and 28 are first normalized to 0
/// and 1, and the address is the low 20 bytes of the keccak-256 hash of
/// the recovered public key without its leading format byte.
pub open spec fn recover_spec(message: Seq<u8>, signature: Seq<u8>) -> Option<Seq<u8>> {
    let recovery_byte = signature[64];
    let rid: u8 = if recovery_byte >= 27 {
        (recovery_byte - 27) as u8
    } else {
        recovery_byte
    };
    match secp256k1_recovered(keccak256_of(message), signature.take(64), rid) {
        Some(pk) => Some(keccak256_of(pk.skip(1)).skip(12)),
        None => None,
    }
}

/// Recovers the signer address of `message` from `signature`, failing with
/// `InvalidSignature` exactly when cryptographic recovery fails.
pub fn recover_address(message: &Vec<u8>, signature: &Vec<u8>) -> (r: Result<
    SignerAddress,
    RedstoneError,
>)
    requires
        signature@.len() == 65,
    ensures
        match recover_spec(message@, signature@) {
            Some(a) => r is Ok && r->Ok_0@ == a && a.len() == 20,
            None => r is Err && r->Err_0 == RedstoneError::InvalidSignature,
        },
{
    let recovery_byte = signature[64];
    let recovery_id: u8 = if recovery_byte >= 27 {
        recovery_byte - 27
    } else {
        recovery_byte
    };
    let msg_hash = keccak256(message.as_slice());
    let sig_rs = copy_range(signature, 0, 64);
    assert(sig_rs@ =~= signature@.take(64));
    match secp256k1_recover_key(&msg_hash, &sig_rs, recovery_id) {
        Some(pubkey) => {
            let key_tail = copy_range(&pubkey, 1, pubkey.len());
            assert(key_tail@ =~= pubkey@.skip(1));
            let key_hash = keccak256(key_tail.as_slice());
            let address = copy_range(&key_hash, 12, key_hash.len());
            assert(address@ =~= key_hash@.skip(12));
            Ok(SignerAddress { bytes: address })
        },
        None => Err(RedstoneError::InvalidSignature),
    }
}

} // verus!
