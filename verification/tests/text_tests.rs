use base64::engine::general_purpose::URL_SAFE_NO_PAD;
use base64::Engine;
use chacha20poly1305::aead::Aead;
use chacha20poly1305::{ChaCha20Poly1305, KeyInit, Nonce};
use ed25519_dalek::Signer;
use rcli::{
    process_decrypt, process_encrypt, process_key_generate, process_sign, process_verify,
    CryptoError, TextSignFormat,
};

#[test]
fn blake3_sign_is_deterministic_and_verifies() {
    let key = vec![0u8; 32];
    let sig1 = process_sign(b"hello world", &key, TextSignFormat::Blake3).unwrap();
    let sig2 = process_sign(b"hello world", &key, TextSignFormat::Blake3).unwrap();
    assert_eq!(sig1, sig2);
    let ok = process_verify(b"hello world", &key, TextSignFormat::Blake3, &sig1).unwrap();
    assert!(ok);
}

#[test]
fn blake3_sign_matches_reference_digest() {
    let key = [0u8; 32];
    let sig = process_sign(b"hello world", &key, TextSignFormat::Blake3).unwrap();
    let digest = blake3::keyed_hash(&key, b"hello world");
    assert_eq!(sig, URL_SAFE_NO_PAD.encode(digest.as_bytes()));
}

#[test]
fn blake3_verify_rejects_other_input() {
    let key = vec![7u8; 32];
    let sig = process_sign(b"hello world", &key, TextSignFormat::Blake3).unwrap();
    let ok = process_verify(b"hello worle", &key, TextSignFormat::Blake3, &sig).unwrap();
    assert!(!ok);
}

#[test]
fn blake3_verify_rejects_tampered_signature() {
    let key = vec![7u8; 32];
    let sig = process_sign(b"hello world", &key, TextSignFormat::Blake3).unwrap();
    // Swap the first character for a different alphabet character.
    let first = sig.chars().next().unwrap();
    let replacement = if first == 'A' { 'B' } else { 'A' };
    let tampered: String = std::iter::once(replacement).chain(sig.chars().skip(1)).collect();
    let ok = process_verify(b"hello world", &key, TextSignFormat::Blake3, &tampered).unwrap();
    assert!(!ok);
}

#[test]
fn blake3_verify_uses_first_32_key_bytes() {
    let mut long_key = vec![3u8; 32];
    long_key.extend_from_slice(&[9u8; 8]);
    let sig = process_sign(b"data", &long_key, TextSignFormat::Blake3).unwrap();
    let ok = process_verify(b"data", &[3u8; 32], TextSignFormat::Blake3, &sig).unwrap();
    assert!(ok);
}

#[test]
fn blake3_short_key_is_key_format_error() {
    let key = vec![0u8; 31];
    assert_eq!(
        process_sign(b"x", &key, TextSignFormat::Blake3),
        Err(CryptoError::KeyFormatError)
    );
    let sig = process_sign(b"x", &[0u8; 32], TextSignFormat::Blake3).unwrap();
    assert_eq!(
        process_verify(b"x", &key, TextSignFormat::Blake3, &sig),
        Err(CryptoError::KeyFormatError)
    );
}

#[test]
fn ed25519_sign_matches_reference_signature() {
    let sk = [7u8; 32];
    let sig = process_sign(b"message", &sk, TextSignFormat::Ed25519).unwrap();
    let reference = ed25519_dalek::SigningKey::from_bytes(&sk).sign(b"message");
    assert_eq!(sig, URL_SAFE_NO_PAD.encode(reference.to_bytes()));
}

#[test]
fn ed25519_generated_keypair_signs_empty_input() {
    let keys = process_key_generate(TextSignFormat::Ed25519).unwrap();
    assert_eq!(keys.len(), 2);
    let public = &keys[0];
    let secret = &keys[1];
    assert_eq!(public.len(), 32);
    assert_eq!(secret.len(), 32);
    let sig = process_sign(b"", secret, TextSignFormat::Ed25519).unwrap();
    let ok = process_verify(b"", public, TextSignFormat::Ed25519, &sig).unwrap();
    assert!(ok);
}

#[test]
fn ed25519_mismatched_keypair_fails_verification() {
    let keys1 = process_key_generate(TextSignFormat::Ed25519).unwrap();
    let keys2 = process_key_generate(TextSignFormat::Ed25519).unwrap();
    let sig = process_sign(b"payload", &keys1[1], TextSignFormat::Ed25519).unwrap();
    let ok = process_verify(b"payload", &keys2[0], TextSignFormat::Ed25519, &sig).unwrap();
    assert!(!ok);
}

#[test]
fn ed25519_tampered_signature_fails_verification() {
    let keys = process_key_generate(TextSignFormat::Ed25519).unwrap();
    let sig = process_sign(b"payload", &keys[1], TextSignFormat::Ed25519).unwrap();
    let mut raw = URL_SAFE_NO_PAD.decode(&sig).unwrap();
    raw[0] ^= 0x01;
    let tampered = URL_SAFE_NO_PAD.encode(&raw);
    let ok = process_verify(b"payload", &keys[0], TextSignFormat::Ed25519, &tampered).unwrap();
    assert!(!ok);
}

#[test]
fn ed25519_malformed_signature_is_crypto_failure() {
    let keys = process_key_generate(TextSignFormat::Ed25519).unwrap();
    let short = URL_SAFE_NO_PAD.encode([1u8; 10]);
    assert_eq!(
        process_verify(b"payload", &keys[0], TextSignFormat::Ed25519, &short),
        Err(CryptoError::CryptoFailure)
    );
}

#[test]
fn ed25519_bad_base64_is_encoding_error() {
    let keys = process_key_generate(TextSignFormat::Ed25519).unwrap();
    assert_eq!(
        process_verify(b"payload", &keys[0], TextSignFormat::Ed25519, "not base64!"),
        Err(CryptoError::EncodingError)
    );
}

#[test]
fn ed25519_wrong_key_length_is_key_format_error() {
    assert_eq!(
        process_sign(b"x", &[0u8; 31], TextSignFormat::Ed25519),
        Err(CryptoError::KeyFormatError)
    );
    assert_eq!(
        process_sign(b"x", &[0u8; 33], TextSignFormat::Ed25519),
        Err(CryptoError::KeyFormatError)
    );
}

#[test]
fn chacha_verify_is_unsupported() {
    let key = vec![0u8; 32];
    assert_eq!(
        process_verify(b"x", &key, TextSignFormat::Chacha20poly1305, "AA"),
        Err(CryptoError::UnsupportedOperation)
    );
}

#[test]
fn chacha_sign_is_unsupported() {
    let key = vec![0u8; 44];
    assert_eq!(
        process_sign(b"x", &key, TextSignFormat::Chacha20poly1305),
        Err(CryptoError::UnsupportedOperation)
    );
}

#[test]
fn chacha_round_trip() {
    let keys = process_key_generate(TextSignFormat::Chacha20poly1305).unwrap();
    assert_eq!(keys.len(), 1);
    let key_file = &keys[0];
    assert_eq!(key_file.len(), 44);
    let ct = process_encrypt(b"attack at dawn", key_file).unwrap();
    let pt = process_decrypt(&ct, key_file).unwrap();
    assert_eq!(pt, "attack at dawn");
}

#[test]
fn chacha_encrypt_matches_reference_cipher() {
    let mut key_file = vec![1u8; 12];
    key_file.extend_from_slice(&[2u8; 32]);
    let ours = process_encrypt(b"secret text", &key_file).unwrap();
    let cipher = ChaCha20Poly1305::new_from_slice(&[2u8; 32]).unwrap();
    let reference = cipher
        .encrypt(Nonce::from_slice(&[1u8; 12]), b"secret text".as_ref())
        .unwrap();
    assert_eq!(ours, URL_SAFE_NO_PAD.encode(&reference));
}

#[test]
fn chacha_tampered_ciphertext_is_crypto_failure() {
    let mut key_file = vec![1u8; 12];
    key_file.extend_from_slice(&[2u8; 32]);
    let ct = process_encrypt(b"secret text", &key_file).unwrap();
    let mut raw = URL_SAFE_NO_PAD.decode(&ct).unwrap();
    raw[0] ^= 0x80;
    let tampered = URL_SAFE_NO_PAD.encode(&raw);
    assert_eq!(
        process_decrypt(&tampered, &key_file),
        Err(CryptoError::CryptoFailure)
    );
}

#[test]
fn chacha_wrong_key_is_crypto_failure() {
    let mut key_file = vec![1u8; 12];
    key_file.extend_from_slice(&[2u8; 32]);
    let ct = process_encrypt(b"secret text", &key_file).unwrap();
    let mut other = vec![1u8; 12];
    other.extend_from_slice(&[3u8; 32]);
    assert_eq!(process_decrypt(&ct, &other), Err(CryptoError::CryptoFailure));
}

#[test]
fn chacha_bad_key_file_length_is_key_format_error() {
    assert_eq!(
        process_encrypt(b"x", &[0u8; 43]),
        Err(CryptoError::KeyFormatError)
    );
    assert_eq!(
        process_encrypt(b"x", &[0u8; 45]),
        Err(CryptoError::KeyFormatError)
    );
    let ct = process_encrypt(b"x", &[0u8; 44]).unwrap();
    assert_eq!(
        process_decrypt(&ct, &[0u8; 43]),
        Err(CryptoError::KeyFormatError)
    );
}

#[test]
fn chacha_decrypt_bad_base64_is_encoding_error() {
    assert_eq!(
        process_decrypt("?!", &[0u8; 44]),
        Err(CryptoError::EncodingError)
    );
}

#[test]
fn generated_blake3_key_is_printable_and_usable() {
    let keys = process_key_generate(TextSignFormat::Blake3).unwrap();
    assert_eq!(keys.len(), 1);
    assert_eq!(keys[0].len(), 32);
    assert!(keys[0].iter().all(|b| b.is_ascii_graphic()));
    let sig = process_sign(b"data", &keys[0], TextSignFormat::Blake3).unwrap();
    let ok = process_verify(b"data", &keys[0], TextSignFormat::Blake3, &sig).unwrap();
    assert!(ok);
}
