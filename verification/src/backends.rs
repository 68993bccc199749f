use vstd::prelude::*;

use chacha20poly1305::aead::Aead;
use chacha20poly1305::{AeadCore, ChaCha20Poly1305, KeyInit};
use ed25519_dalek::{Signer, Verifier};
use rand::seq::SliceRandom;
use rand::RngCore;

verus! {

use crate::b64::chars_of_bytes;
use crate::errors::CryptoError;

// ---------------------------------------------------------------------------
// String conversions
// ---------------------------------------------------------------------------
/// Relies on String::from_utf8: a sequence of ASCII bytes is valid UTF-8 and
/// decodes to exactly those characters.
#[verifier::external_body]
pub(crate) fn ascii_to_string(v: Vec<u8>) -> (r: String)
    requires
        forall|i: int| 0 <= i < v@.len() ==> v@[i] < 128,
    ensures
        r@ == chars_of_bytes(v@),
{
    match String::from_utf8(v) {
        Ok(s) => s,
        Err(_) => String::new(),
    }
}

/// What String::from_utf8_lossy returns for a byte sequence.
pub uninterp spec fn utf8_lossy(bytes: Seq<u8>) -> Seq<char>;

/// Relies on String::from_utf8_lossy: the result is a function of the bytes
/// alone, and ASCII bytes pass through unchanged.
#[verifier::external_body]
pub(crate) fn bytes_to_string_lossy(v: &Vec<u8>) -> (r: String)
    ensures
        r@ == utf8_lossy(v@),
        (forall|i: int| 0 <= i < v@.len() ==> v@[i] < 128) ==> r@ == chars_of_bytes(v@),
{
    String::from_utf8_lossy(v.as_slice()).into_owned()
}

// ---------------------------------------------------------------------------
// Blake3
// ---------------------------------------------------------------------------
/// What blake3::keyed_hash returns for a 32-byte key and a message.
pub uninterp spec fn blake3_keyed(key: Seq<u8>, msg: Seq<u8>) -> Seq<u8>;

/// Relies on blake3::keyed_hash: a 32-byte digest that depends on the key and
/// the message alone.
#[verifier::external_body]
pub(crate) fn blake3_keyed_hash(key: &[u8], msg: &[u8]) -> (r: Vec<u8>)
    requires
        key@.len() == 32,
    ensures
        r@ == blake3_keyed(key@, msg@),
        r@.len() == 32,
{
    let mut k = [0u8; 32];
    k.copy_from_slice(key);
    blake3::keyed_hash(&k, msg).as_bytes().to_vec()
}

// ---------------------------------------------------------------------------
// Ed25519
// ---------------------------------------------------------------------------
/// What ed25519_dalek signing returns for a 32-byte secret key and a message.
pub uninterp spec fn ed25519_sig(sk: Seq<u8>, msg: Seq<u8>) -> Seq<u8>;

/// The public key bytes that ed25519_dalek derives from a 32-byte secret key.
pub uninterp spec fn ed25519_pub(sk: Seq<u8>) -> Seq<u8>;

/// Whether ed25519_dalek accepts 32 bytes as the encoding of a public key.
pub uninterp spec fn ed25519_key_valid(pk: Seq<u8>) -> bool;

/// Whether ed25519_dalek verification accepts a signature for a public key
/// and a message.
pub uninterp spec fn ed25519_accepts(pk: Seq<u8>, msg: Seq<u8>, sig: Seq<u8>) -> bool;

/// An honestly produced signature: some 32-byte secret key derives this
/// public key and signs this message to exactly these bytes. Such a
/// signature is always 64 bytes long, and its public key is 32 bytes
/// encoding a valid point.
pub open spec fn ed25519_signed_by(pk: Seq<u8>, msg: Seq<u8>, sig: Seq<u8>) -> bool {
    exists|sk: Seq<u8>|
        sk.len() == 32 && pk == ed25519_pub(sk) && sig == ed25519_sig(sk, msg) && sig.len() == 64
            && pk.len() == 32 && ed25519_key_valid(pk)
}

/// Relies on ed25519_dalek::SigningKey::sign: deterministic in the secret key
/// and message, 64 bytes long, and accepted by the derived public key.
#[verifier::external_body]
pub(crate) fn ed25519_sign(sk: &[u8], msg: &[u8]) -> (r: Vec<u8>)
    requires
        sk@.len() == 32,
    ensures
        r@ == ed25519_sig(sk@, msg@),
        r@.len() == 64,
        ed25519_accepts(ed25519_pub(sk@), msg@, r@),
        ed25519_signed_by(ed25519_pub(sk@), msg@, r@),
{
    let mut k = [0u8; 32];
    k.copy_from_slice(sk);
    let key = ed25519_dalek::SigningKey::from_bytes(&k);
    key.sign(msg).to_bytes().to_vec()
}

/// Relies on ed25519_dalek::SigningKey::verifying_key: the 32 public key
/// bytes are a function of the secret key and encode a valid point.
#[verifier::external_body]
pub(crate) fn ed25519_derive_pub(sk: &[u8]) -> (r: Vec<u8>)
    requires
        sk@.len() == 32,
    ensures
        r@ == ed25519_pub(sk@),
        r@.len() == 32,
        ed25519_key_valid(r@),
{
    let mut k = [0u8; 32];
    k.copy_from_slice(sk);
    ed25519_dalek::SigningKey::from_bytes(&k).verifying_key().to_bytes().to_vec()
}

/// Relies on ed25519_dalek::VerifyingKey::from_bytes: it accepts exactly the
/// encodings of valid curve points, a function of the bytes alone.
#[verifier::external_body]
pub(crate) fn ed25519_check_key(pk: &[u8]) -> (r: bool)
    requires
        pk@.len() == 32,
    ensures
        r == ed25519_key_valid(pk@),
{
    let mut k = [0u8; 32];
    k.copy_from_slice(pk);
    ed25519_dalek::VerifyingKey::from_bytes(&k).is_ok()
}

/// Relies on ed25519_dalek::VerifyingKey::verify: acceptance is a function of
/// public key, message and signature bytes, and a signature honestly made
/// with the matching secret key is accepted.
#[verifier::external_body]
pub(crate) fn ed25519_verify_sig(pk: &[u8], msg: &[u8], sig: &[u8]) -> (r: bool)
    requires
        pk@.len() == 32,
        ed25519_key_valid(pk@),
        sig@.len() == 64,
    ensures
        r == ed25519_accepts(pk@, msg@, sig@),
        ed25519_signed_by(pk@, msg@, sig@) ==> r,
{
    let mut k = [0u8; 32];
    k.copy_from_slice(pk);
    let key = match ed25519_dalek::VerifyingKey::from_bytes(&k) {
        Ok(key) => key,
        Err(_) => {
            return false;
        },
    };
    let mut sb = [0u8; 64];
    sb.copy_from_slice(sig);
    let s = ed25519_dalek::Signature::from_bytes(&sb);
    key.verify(msg, &s).is_ok()
}

/// Relies on ed25519_dalek::SigningKey::generate: a fresh 32-byte secret key
/// drawn from the operating-system randomness source.
#[verifier::external_body]
pub(crate) fn ed25519_generate_secret() -> (r: Vec<u8>)
    ensures
        r@.len() == 32,
{
    let mut csprng = rand::rngs::OsRng;
    ed25519_dalek::SigningKey::generate(&mut csprng).to_bytes().to_vec()
}

// ---------------------------------------------------------------------------
// ChaCha20Poly1305
// ---------------------------------------------------------------------------
/// What ChaCha20Poly1305 encryption returns for a key, a nonce and a
/// plaintext.
pub uninterp spec fn chacha_seal(key: Seq<u8>, nonce: Seq<u8>, pt: Seq<u8>) -> Seq<u8>;

/// What ChaCha20Poly1305 decryption returns for a key, a nonce and a
/// ciphertext: the plaintext when the ciphertext authenticates and lies
/// within the cipher's supported size, `None` otherwise.
pub uninterp spec fn chacha_open(key: Seq<u8>, nonce: Seq<u8>, ct: Seq<u8>) -> Option<Seq<u8>>;

/// Relies on chacha20poly1305::ChaCha20Poly1305::encrypt: the ciphertext is a
/// function of key, nonce and plaintext, is 16 bytes longer than the
/// plaintext, and decrypting it under the same key and nonce yields the
/// plaintext back. The first keystream block feeds the Poly1305 key, so the
/// cipher carries a plaintext of up to 64 * (2^32 - 2) bytes; beyond that
/// the body refuses the call rather than let the cipher stack abort.
#[verifier::external_body]
pub(crate) fn chacha_encrypt(key: &[u8], nonce: &[u8], pt: &[u8]) -> (r: Result<
    Vec<u8>,
    CryptoError,
>)
    requires
        key@.len() == 32,
        nonce@.len() == 12,
    ensures
        match r {
            Ok(ct) => ct@ == chacha_seal(key@, nonce@, pt@) && ct@.len() == pt@.len() + 16
                && chacha_open(key@, nonce@, ct@) == Some(pt@),
            Err(e) => e == CryptoError::CryptoFailure,
        },
        pt@.len() <= 274877906816 ==> r is Ok,
{
    if pt.len() as u64 > 274877906816u64 {
        return Err(CryptoError::CryptoFailure);
    }
    let cipher = match ChaCha20Poly1305::new_from_slice(key) {
        Ok(c) => c,
        Err(_) => {
            return Err(CryptoError::CryptoFailure);
        },
    };
    match cipher.encrypt(chacha20poly1305::Nonce::from_slice(nonce), pt) {
        Ok(ct) => Ok(ct),
        Err(_) => Err(CryptoError::CryptoFailure),
    }
}

/// Relies on chacha20poly1305::ChaCha20Poly1305::decrypt: it returns the
/// plaintext exactly when the ciphertext authenticates under the key and
/// nonce and its payload stays within the cipher's 64 * (2^32 - 2) byte
/// bound, a function of the three alone; beyond the bound the body refuses
/// the call rather than let the cipher stack abort.
#[verifier::external_body]
pub(crate) fn chacha_decrypt(key: &[u8], nonce: &[u8], ct: &[u8]) -> (r: Result<
    Vec<u8>,
    CryptoError,
>)
    requires
        key@.len() == 32,
        nonce@.len() == 12,
    ensures
        match r {
            Ok(pt) => chacha_open(key@, nonce@, ct@) == Some(pt@),
            Err(e) => chacha_open(key@, nonce@, ct@) is None && e == CryptoError::CryptoFailure,
        },
{
    if ct.len() as u64 > 274877906832u64 {
        return Err(CryptoError::CryptoFailure);
    }
    let cipher = match ChaCha20Poly1305::new_from_slice(key) {
        Ok(c) => c,
        Err(_) => {
            return Err(CryptoError::CryptoFailure);
        },
    };
    match cipher.decrypt(chacha20poly1305::Nonce::from_slice(nonce), ct) {
        Ok(pt) => Ok(pt),
        Err(_) => Err(CryptoError::CryptoFailure),
    }
}

/// Relies on chacha20poly1305's KeyInit::generate_key: 32 fresh random bytes
/// from the operating-system randomness source.
#[verifier::external_body]
pub(crate) fn chacha_generate_key() -> (r: Vec<u8>)
    ensures
        r@.len() == 32,
{
    ChaCha20Poly1305::generate_key(&mut rand::rngs::OsRng).to_vec()
}

/// Relies on chacha20poly1305's AeadCore::generate_nonce: 12 fresh random
/// bytes from the operating-system randomness source.
#[verifier::external_body]
pub(crate) fn chacha_generate_nonce() -> (r: Vec<u8>)
    ensures
        r@.len() == 12,
{
    ChaCha20Poly1305::generate_nonce(&mut rand::rngs::OsRng).to_vec()
}

// ---------------------------------------------------------------------------
// Randomness
// ---------------------------------------------------------------------------
/// Relies on rand's OsRng through RngCore::fill_bytes: a buffer of fresh
/// random bytes of the requested length.
#[verifier::external_body]
pub(crate) fn random_bytes(n: usize) -> (r: Vec<u8>)
    ensures
        r@.len() == n,
{
    let mut v = vec![0u8; n];
    rand::rngs::OsRng.fill_bytes(&mut v);
    v
}

/// Relies on rand's SliceRandom::shuffle: a random permutation, so the
/// contents are preserved as a multiset.
#[verifier::external_body]
pub(crate) fn shuffle_bytes(v: &mut Vec<u8>)
    ensures
        final(v)@.len() == old(v)@.len(),
        final(v)@.to_multiset() == old(v)@.to_multiset(),
{
    v.shuffle(&mut rand::rngs::OsRng);
}

} // verus!
