//! The cryptographic primitives the library relies on. Each result is named
//! by a specification function that the rest of the library reasons about
//! without knowing how it is computed.

use vstd::prelude::*;

verus! {

/// The CKB-personalised BLAKE2b-256 digest of `data`.
pub uninterp spec fn blake2b_256_of(data: Seq<u8>) -> Seq<u8>;

/// The last 20 bytes of the Keccak-256 digest of `data`.
pub uninterp spec fn keccak160_of(data: Seq<u8>) -> Seq<u8>;

/// Keccak-256 over the Ethereum signed-message prefix followed by `message`.
pub uninterp spec fn ethereum_message_of(message: Seq<u8>) -> Seq<u8>;

/// Whether `secret` is a valid secp256k1 secret key.
pub uninterp spec fn is_valid_secret(secret: Seq<u8>) -> bool;

/// The 33-byte compressed public key of a valid secret key.
pub uninterp spec fn compressed_pubkey_of(secret: Seq<u8>) -> Seq<u8>;

/// The 64-byte uncompressed public key (without its prefix byte) of a valid secret key.
pub uninterp spec fn uncompressed_pubkey_of(secret: Seq<u8>) -> Seq<u8>;

/// The 65-byte recoverable signature of `message` under a valid secret key.
pub uninterp spec fn recoverable_signature_of(secret: Seq<u8>, message: Seq<u8>) -> [u8; 65];

/// True when every byte of `bytes` is zero.
pub open spec fn all_zero(bytes: Seq<u8>) -> bool {
    forall|i: int| 0 <= i < bytes.len() ==> bytes[i] == 0u8
}

/// Relies on ckb_hash::blake2b_256: a function of the input bytes alone.
#[verifier::external_body]
pub(crate) fn blake2b_256(data: &[u8]) -> (r: [u8; 32])
    ensures
        r@ == blake2b_256_of(data@),
{
    ckb_hash::blake2b_256(data)
}

/// Relies on ckb_sdk::util::keccak160: a function of the input bytes alone.
#[verifier::external_body]
pub(crate) fn keccak160(data: &[u8]) -> (r: [u8; 20])
    ensures
        r@ == keccak160_of(data@),
{
    ckb_sdk::util::keccak160(data).0
}

/// Relies on ckb_sdk::util::convert_keccak256_hash: the digest an Ethereum
/// wallet signs in place of `message`.
#[verifier::external_body]
pub(crate) fn ethereum_message(message: &[u8; 32]) -> (r: [u8; 32])
    ensures
        r@ == ethereum_message_of(message@),
{
    ckb_sdk::util::convert_keccak256_hash(message).0
}

/// Relies on secp256k1::SecretKey::from_slice, which accepts exactly the
/// nonzero scalars below the curve order.
#[verifier::external_body]
pub(crate) fn secret_is_valid(secret: &[u8; 32]) -> (r: bool)
    ensures
        r == is_valid_secret(secret@),
{
    secp256k1::SecretKey::from_slice(secret).is_ok()
}

/// Relies on secp256k1::PublicKey::from_secret_key, serialized in compressed form.
#[verifier::external_body]
pub(crate) fn compressed_pubkey(secret: &[u8; 32]) -> (r: [u8; 33])
    requires
        is_valid_secret(secret@),
    ensures
        r@ == compressed_pubkey_of(secret@),
{
    let key = secp256k1::SecretKey::from_slice(secret).unwrap();
    secp256k1::PublicKey::from_secret_key(&ckb_sdk::SECP256K1, &key).serialize()
}

/// Relies on ckb_crypto::secp::Pubkey::from, which keeps the 64 bytes of the
/// uncompressed public key that follow its prefix byte.
#[verifier::external_body]
pub(crate) fn uncompressed_pubkey(secret: &[u8; 32]) -> (r: [u8; 64])
    requires
        is_valid_secret(secret@),
    ensures
        r@ == uncompressed_pubkey_of(secret@),
{
    let key = secp256k1::SecretKey::from_slice(secret).unwrap();
    let point = secp256k1::PublicKey::from_secret_key(&ckb_sdk::SECP256K1, &key);
    ckb_crypto::secp::Pubkey::from(point).0
}

/// Relies on secp256k1's sign_ecdsa_recoverable (RFC 6979 nonces, so the
/// result depends on the key and message alone), laid out by
/// ckb_sdk::util::serialize_signature as r, s and the recovery id. A produced
/// signature has nonzero r and s, so it is never 65 zero bytes.
#[verifier::external_body]
pub(crate) fn sign_recoverable(secret: &[u8; 32], message: &[u8; 32]) -> (r: [u8; 65])
    requires
        is_valid_secret(secret@),
    ensures
        r == recoverable_signature_of(secret@, message@),
        !all_zero(r@),
{
    let key = secp256k1::SecretKey::from_slice(secret).unwrap();
    let msg = secp256k1::Message::from_slice(message).unwrap();
    let sig = ckb_sdk::SECP256K1.sign_ecdsa_recoverable(&msg, &key);
    ckb_sdk::util::serialize_signature(&sig)
}

/// Relies on ckb_sdk::util::zeroize_slice, which writes a zero into every
/// byte with volatile stores.
#[verifier::external_body]
pub(crate) fn zeroize_secret(secret: &mut [u8; 32])
    ensures
        final(secret)@ == Seq::new(32, |i: int| 0u8),
    opens_invariants none
    no_unwind
{
    ckb_sdk::util::zeroize_slice(secret)
}

} // verus!
