use vstd::prelude::*;

verus! {

use vstd::utf8::encode_utf8;
use crate::b64::{
    chars_of_bytes,
    decode_b64,
    encode_b64,
    lemma_ascii_bytes_chars,
    lemma_b64_round_trip,
    lemma_encode_bytes_valid,
    spec_b64_decode,
    spec_b64_encode,
};
use crate::backends::{
    blake3_keyed,
    chacha_open,
    chacha_seal,
    ed25519_accepts,
    ed25519_key_valid,
    ed25519_pub,
    ed25519_sig,
    ed25519_signed_by,
    bytes_to_string_lossy,
    utf8_lossy,
};
use crate::engine::{
    Blake3,
    Chacha20poly1305EncryptAndDecrypt,
    Ed25519Signer,
    Ed25519Verifier,
    KeyGenerator,
    KeyLoader,
    TextDecrypt,
    TextEncrypt,
    TextSign,
    TextVerify,
};
use crate::errors::CryptoError;
use crate::format::TextSignFormat;

// ---------------------------------------------------------------------------
// What each operation returns, as a function of its inputs
// ---------------------------------------------------------------------------
/// What `process_sign` returns: the base64 text of the signature over the
/// input, or the first error on the way there.
pub open spec fn sign_spec(input: Seq<u8>, key: Seq<u8>, format: TextSignFormat) -> Result<
    Seq<char>,
    CryptoError,
> {
    match format {
        TextSignFormat::Blake3 => if key.len() < 32 {
            Err(CryptoError::KeyFormatError)
        } else {
            Ok(chars_of_bytes(spec_b64_encode(blake3_keyed(key.subrange(0, 32), input))))
        },
        TextSignFormat::Ed25519 => if key.len() != 32 {
            Err(CryptoError::KeyFormatError)
        } else {
            Ok(chars_of_bytes(spec_b64_encode(ed25519_sig(key, input))))
        },
        TextSignFormat::Chacha20poly1305 => Err(CryptoError::UnsupportedOperation),
    }
}

/// What `process_verify` returns. The unsupported family fails fast; then
/// the signature text must decode, the key material must load, and the
/// verdict is the primitive's.
pub open spec fn verify_spec(
    input: Seq<u8>,
    key: Seq<u8>,
    format: TextSignFormat,
    sig: Seq<char>,
) -> Result<bool, CryptoError> {
    match format {
        TextSignFormat::Chacha20poly1305 => Err(CryptoError::UnsupportedOperation),
        TextSignFormat::Blake3 => match spec_b64_decode(encode_utf8(sig)) {
            None => Err(CryptoError::EncodingError),
            Some(sb) => if key.len() < 32 {
                Err(CryptoError::KeyFormatError)
            } else {
                Ok(sb == blake3_keyed(key.subrange(0, 32), input))
            },
        },
        TextSignFormat::Ed25519 => match spec_b64_decode(encode_utf8(sig)) {
            None => Err(CryptoError::EncodingError),
            Some(sb) => if key.len() != 32 || !ed25519_key_valid(key) {
                Err(CryptoError::KeyFormatError)
            } else if sb.len() != 64 {
                Err(CryptoError::CryptoFailure)
            } else {
                Ok(ed25519_accepts(key, input, sb))
            },
        },
    }
}

/// What `process_decrypt` returns: the base64 text must decode, the key
/// file must hold `nonce(12) || key(32)`, the ciphertext must authenticate,
/// and the plaintext is read as text.
pub open spec fn decrypt_spec(sig: Seq<char>, key: Seq<u8>) -> Result<Seq<char>, CryptoError> {
    match spec_b64_decode(encode_utf8(sig)) {
        None => Err(CryptoError::EncodingError),
        Some(ct) => if key.len() != 44 {
            Err(CryptoError::KeyFormatError)
        } else {
            match chacha_open(key.skip(12), key.subrange(0, 12), ct) {
                None => Err(CryptoError::CryptoFailure),
                Some(pt) => Ok(utf8_lossy(pt)),
            }
        },
    }
}

// ---------------------------------------------------------------------------
// The dispatcher
// ---------------------------------------------------------------------------
/// Sign the whole input with the key material from a key file's contents and
/// return the URL-safe, unpadded base64 text of the signature.
pub fn process_sign(input: &[u8], key: &[u8], format: TextSignFormat) -> (r: Result<
    String,
    CryptoError,
>)
    ensures
        (match r {
            Ok(s) => sign_spec(input@, key@, format) == Ok::<Seq<char>, CryptoError>(s@),
            Err(e) => sign_spec(input@, key@, format) == Err::<Seq<char>, CryptoError>(e),
        }),
        (match r {
            Ok(s) => format == TextSignFormat::Ed25519 ==> spec_b64_decode(encode_utf8(s@))
                == Some(ed25519_sig(key@, input@)) && ed25519_signed_by(
                ed25519_pub(key@),
                input@,
                ed25519_sig(key@, input@),
            ),
            Err(_) => true,
        }),
        (match r {
            Ok(s) => (match spec_b64_decode(encode_utf8(s@)) {
                Some(sb) => sb.len() == (if format == TextSignFormat::Blake3 {
                    32int
                } else {
                    64int
                }),
                None => false,
            }),
            Err(_) => true,
        }),
{
    match format {
        TextSignFormat::Blake3 => {
            let signer = match Blake3::load(key) {
                Ok(s) => s,
                Err(e) => {
                    return Err(e);
                },
            };
            let sig = match signer.sign(input) {
                Ok(v) => v,
                Err(e) => {
                    return Err(e);
                },
            };
            let s = encode_b64(sig.as_slice());
            proof {
                lemma_b64_round_trip(sig@);
            }
            Ok(s)
        },
        TextSignFormat::Ed25519 => {
            let signer = match Ed25519Signer::load(key) {
                Ok(s) => s,
                Err(e) => {
                    return Err(e);
                },
            };
            let sig = match signer.sign(input) {
                Ok(v) => v,
                Err(e) => {
                    return Err(e);
                },
            };
            let s = encode_b64(sig.as_slice());
            proof {
                lemma_b64_round_trip(sig@);
            }
            Ok(s)
        },
        TextSignFormat::Chacha20poly1305 => Err(CryptoError::UnsupportedOperation),
    }
}

/// Verify base64 signature text over the whole input. A well-formed but
/// wrong signature is `Ok(false)`, never an error; an honestly produced
/// Ed25519 signature for this key and input always verifies.
pub fn process_verify(input: &[u8], key: &[u8], format: TextSignFormat, sig: &str) -> (r: Result<
    bool,
    CryptoError,
>)
    ensures
        (match r {
            Ok(b) => verify_spec(input@, key@, format, sig@) == Ok::<bool, CryptoError>(b),
            Err(e) => verify_spec(input@, key@, format, sig@) == Err::<bool, CryptoError>(e),
        }),
        (match spec_b64_decode(encode_utf8(sig@)) {
            Some(sb) => (format == TextSignFormat::Ed25519 && ed25519_signed_by(
                key@,
                input@,
                sb,
            )) ==> r == Ok::<bool, CryptoError>(true),
            None => true,
        }),
{
    match format {
        TextSignFormat::Chacha20poly1305 => Err(CryptoError::UnsupportedOperation),
        TextSignFormat::Blake3 => {
            let sb = match decode_b64(sig) {
                Ok(v) => v,
                Err(e) => {
                    return Err(e);
                },
            };
            let verifier = match Blake3::load(key) {
                Ok(v) => v,
                Err(e) => {
                    return Err(e);
                },
            };
            verifier.verify(input, sb.as_slice())
        },
        TextSignFormat::Ed25519 => {
            let sb = match decode_b64(sig) {
                Ok(v) => v,
                Err(e) => {
                    return Err(e);
                },
            };
            let verifier = match Ed25519Verifier::load(key) {
                Ok(v) => v,
                Err(e) => {
                    return Err(e);
                },
            };
            verifier.verify(input, sb.as_slice())
        },
    }
}

/// Encrypt the whole input under the key file's `nonce(12) || key(32)`
/// material and return the base64 text of the ciphertext. With a well-formed
/// key file, success is owed for every input within the cipher's size bound
/// of 64 * (2^32 - 2) bytes, and what this returns decrypts back to the
/// input: the round trip is part of the contract.
pub fn process_encrypt(input: &[u8], key: &[u8]) -> (r: Result<String, CryptoError>)
    ensures
        key@.len() != 44 ==> r == Err::<String, CryptoError>(CryptoError::KeyFormatError),
        key@.len() == 44 && input@.len() <= 274877906816 ==> r is Ok,
        key@.len() == 44 ==> (match r {
            Ok(s) => s@ == chars_of_bytes(
                spec_b64_encode(chacha_seal(key@.skip(12), key@.subrange(0, 12), input@)),
            ) && chacha_open(
                key@.skip(12),
                key@.subrange(0, 12),
                chacha_seal(key@.skip(12), key@.subrange(0, 12), input@),
            ) == Some(input@) && decrypt_spec(s@, key@) == Ok::<Seq<char>, CryptoError>(
                utf8_lossy(input@),
            ),
            Err(e) => e == CryptoError::CryptoFailure,
        }),
{
    let cipher = match Chacha20poly1305EncryptAndDecrypt::load(key) {
        Ok(c) => c,
        Err(e) => {
            return Err(e);
        },
    };
    let ct = match cipher.encrypt(input) {
        Ok(v) => v,
        Err(e) => {
            return Err(e);
        },
    };
    let s = encode_b64(ct.as_slice());
    proof {
        lemma_encode_bytes_valid(ct@);
        lemma_b64_round_trip(ct@);
    }
    Ok(s)
}

/// Decode base64 ciphertext text, authenticate and decrypt it under the key
/// file's `nonce(12) || key(32)` material, and read the plaintext as text.
/// A plaintext of ASCII bytes comes back as exactly those characters.
pub fn process_decrypt(sig: &str, key: &[u8]) -> (r: Result<String, CryptoError>)
    ensures
        (match r {
            Ok(s) => decrypt_spec(sig@, key@) == Ok::<Seq<char>, CryptoError>(s@),
            Err(e) => decrypt_spec(sig@, key@) == Err::<Seq<char>, CryptoError>(e),
        }),
        (match spec_b64_decode(encode_utf8(sig@)) {
            Some(ct) => key@.len() == 44 ==> (match chacha_open(
                key@.skip(12),
                key@.subrange(0, 12),
                ct,
            ) {
                Some(pt) => (forall|i: int| 0 <= i < pt.len() ==> pt[i] < 128) ==> (
                r matches Ok(s) && s@ == chars_of_bytes(pt)),
                None => true,
            }),
            None => true,
        }),
{
    let ct = match decode_b64(sig) {
        Ok(v) => v,
        Err(e) => {
            return Err(e);
        },
    };
    let cipher = match Chacha20poly1305EncryptAndDecrypt::load(key) {
        Ok(c) => c,
        Err(e) => {
            return Err(e);
        },
    };
    let pt = match cipher.decrypt(ct) {
        Ok(v) => v,
        Err(e) => {
            return Err(e);
        },
    };
    Ok(bytes_to_string_lossy(&pt))
}

/// Produce fresh key material for a family: Blake3 gives `[key]`, Ed25519
/// gives `[public, secret]`, ChaCha20Poly1305 gives `[nonce || key]`.
pub fn process_key_generate(format: TextSignFormat) -> (r: Result<Vec<Vec<u8>>, CryptoError>)
    ensures
        match format {
            TextSignFormat::Blake3 => <Blake3 as KeyGenerator>::generate_post(r),
            TextSignFormat::Ed25519 => <Ed25519Signer as KeyGenerator>::generate_post(r),
            TextSignFormat::Chacha20poly1305 => <Chacha20poly1305EncryptAndDecrypt as KeyGenerator>::generate_post(
                r,
            ),
        },
{
    match format {
        TextSignFormat::Blake3 => Blake3::generate(),
        TextSignFormat::Ed25519 => Ed25519Signer::generate(),
        TextSignFormat::Chacha20poly1305 => Chacha20poly1305EncryptAndDecrypt::generate(),
    }
}

// ---------------------------------------------------------------------------
// Laws of the dispatcher
// ---------------------------------------------------------------------------
/// A Blake3 signature straight from `sign` always verifies against the same
/// key and input.
pub proof fn lemma_blake3_sign_then_verify(input: Seq<u8>, key: Seq<u8>)
    requires
        key.len() >= 32,
    ensures
        sign_spec(input, key, TextSignFormat::Blake3) matches Ok(sig) && verify_spec(
            input,
            key,
            TextSignFormat::Blake3,
            sig,
        ) == Ok::<bool, CryptoError>(true),
{
    let digest = blake3_keyed(key.subrange(0, 32), input);
    let encoded = spec_b64_encode(digest);
    lemma_encode_bytes_valid(digest);
    assert(forall|i: int| 0 <= i < encoded.len() ==> #[trigger] encoded[i] < 128);
    lemma_ascii_bytes_chars(encoded);
    lemma_b64_round_trip(digest);
}

/// A Blake3 signature over one input never verifies an input whose keyed
/// digest differs: any tampering that changes the digest is caught.
pub proof fn lemma_blake3_verify_rejects(input: Seq<u8>, other: Seq<u8>, key: Seq<u8>)
    requires
        key.len() >= 32,
        blake3_keyed(key.subrange(0, 32), other) != blake3_keyed(key.subrange(0, 32), input),
    ensures
        sign_spec(input, key, TextSignFormat::Blake3) matches Ok(sig) && verify_spec(
            other,
            key,
            TextSignFormat::Blake3,
            sig,
        ) == Ok::<bool, CryptoError>(false),
{
    let digest = blake3_keyed(key.subrange(0, 32), input);
    let encoded = spec_b64_encode(digest);
    lemma_encode_bytes_valid(digest);
    assert(forall|i: int| 0 <= i < encoded.len() ==> #[trigger] encoded[i] < 128);
    lemma_ascii_bytes_chars(encoded);
    lemma_b64_round_trip(digest);
}

/// Signature text that decodes to anything but the keyed digest of the
/// input is rejected with `false`, never accepted and never an error.
pub proof fn lemma_blake3_tampered_sig(input: Seq<u8>, key: Seq<u8>, sig: Seq<char>)
    requires
        key.len() >= 32,
        (match spec_b64_decode(encode_utf8(sig)) {
            Some(sb) => sb != blake3_keyed(key.subrange(0, 32), input),
            None => false,
        }),
    ensures
        verify_spec(input, key, TextSignFormat::Blake3, sig) == Ok::<bool, CryptoError>(false),
{
}

/// Selecting the AEAD family for signing is refused outright.
pub proof fn lemma_sign_chacha_unsupported(input: Seq<u8>, key: Seq<u8>)
    ensures
        sign_spec(input, key, TextSignFormat::Chacha20poly1305) == Err::<Seq<char>, CryptoError>(
            CryptoError::UnsupportedOperation,
        ),
{
}

/// Selecting the AEAD family for verification is refused outright, whatever
/// the key and signature look like.
pub proof fn lemma_verify_chacha_unsupported(input: Seq<u8>, key: Seq<u8>, sig: Seq<char>)
    ensures
        verify_spec(input, key, TextSignFormat::Chacha20poly1305, sig) == Err::<
            bool,
            CryptoError,
        >(CryptoError::UnsupportedOperation),
{
}

/// Ciphertext text that authenticates decrypts back to the sealed plaintext,
/// through the base64 boundary included.
pub proof fn lemma_encrypt_decrypt_round_trip(input: Seq<u8>, key: Seq<u8>, ct: Seq<u8>)
    requires
        key.len() == 44,
        ct == chacha_seal(key.skip(12), key.subrange(0, 12), input),
        chacha_open(key.skip(12), key.subrange(0, 12), ct) == Some(input),
    ensures
        decrypt_spec(chars_of_bytes(spec_b64_encode(ct)), key) == Ok::<Seq<char>, CryptoError>(
            utf8_lossy(input),
        ),
{
    let encoded = spec_b64_encode(ct);
    lemma_encode_bytes_valid(ct);
    assert(forall|i: int| 0 <= i < encoded.len() ==> #[trigger] encoded[i] < 128);
    lemma_ascii_bytes_chars(encoded);
    lemma_b64_round_trip(ct);
}

} // verus!
