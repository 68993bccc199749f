use vstd::prelude::*;

verus! {

use crate::backends::{
    blake3_keyed,
    blake3_keyed_hash,
    chacha_decrypt,
    chacha_encrypt,
    chacha_generate_key,
    chacha_generate_nonce,
    chacha_open,
    chacha_seal,
    ed25519_check_key,
    ed25519_derive_pub,
    ed25519_generate_secret,
    ed25519_key_valid,
    ed25519_pub,
    ed25519_sig,
    ed25519_sign,
    ed25519_signed_by,
    ed25519_accepts,
    ed25519_verify_sig,
};
use crate::errors::CryptoError;
use crate::genpass::{in_enabled_classes, is_digit_byte, is_lower_byte, is_symbol_byte, is_upper_byte};

// ---------------------------------------------------------------------------
// Byte helpers
// ---------------------------------------------------------------------------
/// Whether two byte slices hold the same bytes.
pub(crate) fn bytes_eq(a: &[u8], b: &[u8]) -> (r: bool)
    ensures
        r == (a@ == b@),
{
    if a.len() != b.len() {
        return false;
    }
    let n = a.len();
    let mut i: usize = 0;
    while i < n
        invariant
            i <= n,
            n == a@.len(),
            n == b@.len(),
            forall|j: int| 0 <= j < i ==> a@[j] == b@[j],
        decreases n - i,
    {
        if a[i] != b[i] {
            return false;
        }
        i = i + 1;
    }
    proof {
        assert(a@ =~= b@);
    }
    true
}

/// The first `n` bytes of a slice, as an owned buffer.
pub(crate) fn bytes_prefix(data: &[u8], n: usize) -> (r: Vec<u8>)
    requires
        n <= data@.len(),
    ensures
        r@ == data@.subrange(0, n as int),
{
    let mut out: Vec<u8> = Vec::new();
    let mut i: usize = 0;
    while i < n
        invariant
            i <= n,
            n <= data@.len(),
            out@ == data@.subrange(0, i as int),
        decreases n - i,
    {
        out.push(data[i]);
        proof {
            assert(out@ =~= data@.subrange(0, i + 1));
        }
        i = i + 1;
    }
    out
}

/// Everything after the first `n` bytes of a slice, as an owned buffer.
pub(crate) fn bytes_suffix(data: &[u8], n: usize) -> (r: Vec<u8>)
    requires
        n <= data@.len(),
    ensures
        r@ == data@.skip(n as int),
{
    let len = data.len();
    let mut out: Vec<u8> = Vec::new();
    let mut i: usize = n;
    while i < len
        invariant
            n <= i <= len,
            len == data@.len(),
            out@ == data@.subrange(n as int, i as int),
        decreases len - i,
    {
        out.push(data[i]);
        proof {
            assert(out@ =~= data@.subrange(n as int, i + 1));
        }
        i = i + 1;
    }
    proof {
        assert(out@ =~= data@.skip(n as int));
    }
    out
}

// ---------------------------------------------------------------------------
// Engine traits
// ---------------------------------------------------------------------------
/// Signs a whole buffered input with key material held by the implementer.
pub trait TextSign {
    /// What this signer's `sign` returns for a given input.
    spec fn sign_post(&self, data: Seq<u8>, r: Result<Vec<u8>, CryptoError>) -> bool;

    /// Produce the raw signature bytes for the whole input.
    fn sign(&self, data: &[u8]) -> (r: Result<Vec<u8>, CryptoError>)
        ensures
            self.sign_post(data@, r),
    ;
}

/// Verifies a raw signature over a whole buffered input.
pub trait TextVerify {
    /// What this verifier's `verify` returns for a given input and signature.
    spec fn verify_post(&self, data: Seq<u8>, sig: Seq<u8>, r: Result<bool, CryptoError>) -> bool;

    /// Check the signature; a mismatch is `Ok(false)`, not an error.
    fn verify(&self, data: &[u8], sig: &[u8]) -> (r: Result<bool, CryptoError>)
        ensures
            self.verify_post(data@, sig@, r),
    ;
}

/// Encrypts a whole buffered input with key material held by the implementer.
pub trait TextEncrypt {
    /// What this cipher's `encrypt` returns for a given plaintext.
    spec fn encrypt_post(&self, data: Seq<u8>, r: Result<Vec<u8>, CryptoError>) -> bool;

    /// Produce the ciphertext for the whole input.
    fn encrypt(&self, data: &[u8]) -> (r: Result<Vec<u8>, CryptoError>)
        ensures
            self.encrypt_post(data@, r),
    ;
}

/// Decrypts and authenticates a ciphertext.
pub trait TextDecrypt {
    /// What this cipher's `decrypt` returns for a given ciphertext.
    spec fn decrypt_post(&self, data: Seq<u8>, r: Result<Vec<u8>, CryptoError>) -> bool;

    /// Recover the plaintext; an authentication failure is a hard error.
    fn decrypt(&self, data: Vec<u8>) -> (r: Result<Vec<u8>, CryptoError>)
        ensures
            self.decrypt_post(data@, r),
    ;
}

/// Builds key material from the raw contents of a key file.
pub trait KeyLoader where Self: Sized {
    /// What `load` returns for given file contents.
    spec fn load_post(contents: Seq<u8>, r: Result<Self, CryptoError>) -> bool;

    /// A pure function of the file contents; enforces the variant's length
    /// and format invariants.
    fn load(contents: &[u8]) -> (r: Result<Self, CryptoError>)
        ensures
            Self::load_post(contents@, r),
    ;
}

/// Produces fresh random key material for one variant.
pub trait KeyGenerator {
    /// What `generate` returns.
    spec fn generate_post(r: Result<Vec<Vec<u8>>, CryptoError>) -> bool;

    /// Draw fresh key material; writing it anywhere is the caller's business.
    fn generate() -> (r: Result<Vec<Vec<u8>>, CryptoError>)
        ensures
            Self::generate_post(r),
    ;
}

// ---------------------------------------------------------------------------
// Blake3 keyed hashing
// ---------------------------------------------------------------------------
/// Keyed Blake3 hashing: a 32-byte symmetric key.
pub struct Blake3 {
    key: Vec<u8>,
}

impl Blake3 {
    #[verifier::type_invariant]
    spec fn type_wf(self) -> bool {
        self.key@.len() == 32
    }

    /// The 32 key bytes.
    pub closed spec fn key_bytes(&self) -> Seq<u8> {
        self.key@
    }

    /// Build from raw key bytes: at least 32 bytes are required and the
    /// first 32 are used.
    pub fn try_new(key: &[u8]) -> (r: Result<Self, CryptoError>)
        ensures
            key@.len() >= 32 ==> (r matches Ok(b) && b.key_bytes() == key@.subrange(0, 32)),
            key@.len() < 32 ==> (r matches Err(e) && e == CryptoError::KeyFormatError),
    {
        if key.len() < 32 {
            Err(CryptoError::KeyFormatError)
        } else {
            Ok(Blake3 { key: bytes_prefix(key, 32) })
        }
    }
}

impl TextSign for Blake3 {
    open spec fn sign_post(&self, data: Seq<u8>, r: Result<Vec<u8>, CryptoError>) -> bool {
        match r {
            Ok(v) => v@ == blake3_keyed(self.key_bytes(), data) && v@.len() == 32,
            Err(_) => false,
        }
    }

    fn sign(&self, data: &[u8]) -> (r: Result<Vec<u8>, CryptoError>) {
        proof {
            use_type_invariant(&*self);
        }
        Ok(blake3_keyed_hash(self.key.as_slice(), data))
    }
}

impl TextVerify for Blake3 {
    open spec fn verify_post(&self, data: Seq<u8>, sig: Seq<u8>, r: Result<
        bool,
        CryptoError,
    >) -> bool {
        match r {
            Ok(b) => b == (sig == blake3_keyed(self.key_bytes(), data)),
            Err(_) => false,
        }
    }

    fn verify(&self, data: &[u8], sig: &[u8]) -> (r: Result<bool, CryptoError>) {
        proof {
            use_type_invariant(&*self);
        }
        let hash = blake3_keyed_hash(self.key.as_slice(), data);
        Ok(bytes_eq(sig, hash.as_slice()))
    }
}

impl KeyLoader for Blake3 {
    open spec fn load_post(contents: Seq<u8>, r: Result<Self, CryptoError>) -> bool {
        if contents.len() >= 32 {
            r matches Ok(b) && b.key_bytes() == contents.subrange(0, 32)
        } else {
            r matches Err(e) && e == CryptoError::KeyFormatError
        }
    }

    fn load(contents: &[u8]) -> (r: Result<Self, CryptoError>) {
        Self::try_new(contents)
    }
}

impl KeyGenerator for Blake3 {
    /// One buffer: the 32 bytes of a password drawn from all four character
    /// classes, with at least one letter of each case, one digit and one
    /// symbol.
    open spec fn generate_post(r: Result<Vec<Vec<u8>>, CryptoError>) -> bool {
        match r {
            Ok(v) => {
                &&& v@.len() == 1
                &&& v@[0]@.len() == 32
                &&& forall|i: int|
                    0 <= i < v@[0]@.len() ==> in_enabled_classes(
                        #[trigger] v@[0]@[i],
                        true,
                        true,
                        true,
                        true,
                    )
                &&& exists|i: int| 0 <= i < v@[0]@.len() && is_upper_byte(#[trigger] v@[0]@[i])
                &&& exists|i: int| 0 <= i < v@[0]@.len() && is_lower_byte(#[trigger] v@[0]@[i])
                &&& exists|i: int| 0 <= i < v@[0]@.len() && is_digit_byte(#[trigger] v@[0]@[i])
                &&& exists|i: int| 0 <= i < v@[0]@.len() && is_symbol_byte(#[trigger] v@[0]@[i])
            },
            Err(_) => false,
        }
    }

    fn generate() -> (r: Result<Vec<Vec<u8>>, CryptoError>) {
        let s = match crate::genpass::process_genpass(32, true, true, true, true) {
            Ok(s) => s,
            Err(_) => {
                proof {
                    assert(false);
                }
                return Err(CryptoError::CryptoFailure);
            },
        };
        proof {
            vstd::utf8::is_ascii_chars_encode_utf8(s@);
        }
        let key = vstd::slice::slice_to_vec(s.as_str().as_bytes());
        proof {
            let b = key@;
            assert forall|i: int| 0 <= i < b.len() implies in_enabled_classes(
                #[trigger] b[i],
                true,
                true,
                true,
                true,
            ) by {
                assert(b[i] == s@[i] as u8);
            }
            let ku = choose|k: int| 0 <= k < s@.len() && is_upper_byte(s@[k] as u8);
            assert(is_upper_byte(b[ku]));
            let kl = choose|k: int| 0 <= k < s@.len() && is_lower_byte(s@[k] as u8);
            assert(is_lower_byte(b[kl]));
            let kn = choose|k: int| 0 <= k < s@.len() && is_digit_byte(s@[k] as u8);
            assert(is_digit_byte(b[kn]));
            let ks = choose|k: int| 0 <= k < s@.len() && is_symbol_byte(s@[k] as u8);
            assert(is_symbol_byte(b[ks]));
        }
        let mut out: Vec<Vec<u8>> = Vec::new();
        out.push(key);
        Ok(out)
    }
}

// ---------------------------------------------------------------------------
// Ed25519 signing
// ---------------------------------------------------------------------------
/// Ed25519 signing: a 32-byte secret scalar.
pub struct Ed25519Signer {
    key: Vec<u8>,
}

impl Ed25519Signer {
    #[verifier::type_invariant]
    spec fn type_wf(self) -> bool {
        self.key@.len() == 32
    }

    /// The 32 secret key bytes.
    pub closed spec fn key_bytes(&self) -> Seq<u8> {
        self.key@
    }

    /// Wrap exactly 32 secret key bytes.
    pub fn new(key: Vec<u8>) -> (r: Self)
        requires
            key@.len() == 32,
        ensures
            r.key_bytes() == key@,
    {
        Ed25519Signer { key }
    }

    /// Build from raw key bytes; any 32 bytes form a valid secret key.
    pub fn try_new(key: &[u8]) -> (r: Result<Self, CryptoError>)
        ensures
            key@.len() == 32 ==> (r matches Ok(s) && s.key_bytes() == key@),
            key@.len() != 32 ==> (r matches Err(e) && e == CryptoError::KeyFormatError),
    {
        if key.len() != 32 {
            Err(CryptoError::KeyFormatError)
        } else {
            Ok(Ed25519Signer::new(bytes_prefix(key, 32)))
        }
    }
}

impl TextSign for Ed25519Signer {
    open spec fn sign_post(&self, data: Seq<u8>, r: Result<Vec<u8>, CryptoError>) -> bool {
        match r {
            Ok(v) => v@ == ed25519_sig(self.key_bytes(), data) && v@.len() == 64
                && ed25519_accepts(ed25519_pub(self.key_bytes()), data, v@) && ed25519_signed_by(
                ed25519_pub(self.key_bytes()),
                data,
                v@,
            ),
            Err(_) => false,
        }
    }

    fn sign(&self, data: &[u8]) -> (r: Result<Vec<u8>, CryptoError>) {
        proof {
            use_type_invariant(&*self);
        }
        Ok(ed25519_sign(self.key.as_slice(), data))
    }
}

impl KeyLoader for Ed25519Signer {
    open spec fn load_post(contents: Seq<u8>, r: Result<Self, CryptoError>) -> bool {
        if contents.len() == 32 {
            r matches Ok(s) && s.key_bytes() == contents
        } else {
            r matches Err(e) && e == CryptoError::KeyFormatError
        }
    }

    fn load(contents: &[u8]) -> (r: Result<Self, CryptoError>) {
        Self::try_new(contents)
    }
}

impl KeyGenerator for Ed25519Signer {
    open spec fn generate_post(r: Result<Vec<Vec<u8>>, CryptoError>) -> bool {
        match r {
            Ok(v) => v@.len() == 2 && v@[0]@.len() == 32 && v@[1]@.len() == 32 && v@[0]@
                == ed25519_pub(v@[1]@) && ed25519_key_valid(v@[0]@),
            Err(_) => false,
        }
    }

    fn generate() -> (r: Result<Vec<Vec<u8>>, CryptoError>) {
        let secret = ed25519_generate_secret();
        let public = ed25519_derive_pub(secret.as_slice());
        let mut out: Vec<Vec<u8>> = Vec::new();
        out.push(public);
        out.push(secret);
        Ok(out)
    }
}

// ---------------------------------------------------------------------------
// Ed25519 verification
// ---------------------------------------------------------------------------
/// Ed25519 verification: a 32-byte public key, valid by construction.
pub struct Ed25519Verifier {
    key: Vec<u8>,
}

impl Ed25519Verifier {
    #[verifier::type_invariant]
    spec fn type_wf(self) -> bool {
        self.key@.len() == 32 && ed25519_key_valid(self.key@)
    }

    /// The 32 public key bytes.
    pub closed spec fn key_bytes(&self) -> Seq<u8> {
        self.key@
    }

    /// Wrap 32 public key bytes already known to encode a valid point.
    pub fn new(key: Vec<u8>) -> (r: Self)
        requires
            key@.len() == 32,
            ed25519_key_valid(key@),
        ensures
            r.key_bytes() == key@,
    {
        Ed25519Verifier { key }
    }

    /// Build from raw key bytes: exactly 32 bytes encoding a valid point.
    pub fn try_new(key: &[u8]) -> (r: Result<Self, CryptoError>)
        ensures
            key@.len() == 32 && ed25519_key_valid(key@) ==> (r matches Ok(v) && v.key_bytes()
                == key@),
            key@.len() != 32 || !ed25519_key_valid(key@) ==> (r matches Err(e) && e
                == CryptoError::KeyFormatError),
    {
        if key.len() != 32 {
            Err(CryptoError::KeyFormatError)
        } else if !ed25519_check_key(key) {
            Err(CryptoError::KeyFormatError)
        } else {
            proof {
                assert(key@.subrange(0, 32) =~= key@);
            }
            Ok(Ed25519Verifier::new(bytes_prefix(key, 32)))
        }
    }
}

impl TextVerify for Ed25519Verifier {
    open spec fn verify_post(&self, data: Seq<u8>, sig: Seq<u8>, r: Result<
        bool,
        CryptoError,
    >) -> bool {
        if sig.len() != 64 {
            r matches Err(e) && e == CryptoError::CryptoFailure
        } else {
            match r {
                Ok(b) => b == ed25519_accepts(self.key_bytes(), data, sig) && (ed25519_signed_by(
                    self.key_bytes(),
                    data,
                    sig,
                ) ==> b),
                Err(_) => false,
            }
        }
    }

    fn verify(&self, data: &[u8], sig: &[u8]) -> (r: Result<bool, CryptoError>) {
        if sig.len() != 64 {
            return Err(CryptoError::CryptoFailure);
        }
        proof {
            use_type_invariant(&*self);
        }
        Ok(ed25519_verify_sig(self.key.as_slice(), data, sig))
    }
}

impl KeyLoader for Ed25519Verifier {
    open spec fn load_post(contents: Seq<u8>, r: Result<Self, CryptoError>) -> bool {
        if contents.len() == 32 && ed25519_key_valid(contents) {
            r matches Ok(v) && v.key_bytes() == contents
        } else {
            r matches Err(e) && e == CryptoError::KeyFormatError
        }
    }

    fn load(contents: &[u8]) -> (r: Result<Self, CryptoError>) {
        Self::try_new(contents)
    }
}

// ---------------------------------------------------------------------------
// ChaCha20Poly1305 authenticated encryption
// ---------------------------------------------------------------------------
/// ChaCha20Poly1305: a 32-byte key and the single 12-byte nonce bound to it.
///
/// The one nonce from the key file is reused for every encryption performed
/// with that key material; this mirrors the persisted `nonce || key` layout
/// and is a documented weakness of that layout, not of this implementation.
pub struct Chacha20poly1305EncryptAndDecrypt {
    key: Vec<u8>,
    nonce: Vec<u8>,
}

impl Chacha20poly1305EncryptAndDecrypt {
    #[verifier::type_invariant]
    spec fn type_wf(self) -> bool {
        self.key@.len() == 32 && self.nonce@.len() == 12
    }

    /// The 32 key bytes.
    pub closed spec fn key_bytes(&self) -> Seq<u8> {
        self.key@
    }

    /// The 12 nonce bytes bound to the key.
    pub closed spec fn nonce_bytes(&self) -> Seq<u8> {
        self.nonce@
    }

    /// Wrap a 32-byte key and a 12-byte nonce.
    pub fn new(key: Vec<u8>, nonce: Vec<u8>) -> (r: Self)
        requires
            key@.len() == 32,
            nonce@.len() == 12,
        ensures
            r.key_bytes() == key@,
            r.nonce_bytes() == nonce@,
    {
        Chacha20poly1305EncryptAndDecrypt { key, nonce }
    }

    /// Build from raw key and nonce bytes; the AEAD construction fixes both
    /// lengths.
    pub fn try_new(key: &[u8], nonce: &[u8]) -> (r: Result<Self, CryptoError>)
        ensures
            key@.len() == 32 && nonce@.len() == 12 ==> (r matches Ok(c) && c.key_bytes() == key@
                && c.nonce_bytes() == nonce@),
            key@.len() != 32 || nonce@.len() != 12 ==> (r matches Err(e) && e
                == CryptoError::KeyFormatError),
    {
        if key.len() != 32 || nonce.len() != 12 {
            Err(CryptoError::KeyFormatError)
        } else {
            Ok(
                Chacha20poly1305EncryptAndDecrypt::new(
                    bytes_prefix(key, 32),
                    bytes_prefix(nonce, 12),
                ),
            )
        }
    }
}

impl TextEncrypt for Chacha20poly1305EncryptAndDecrypt {
    /// The ciphertext is forced, 16 bytes longer than the plaintext, and
    /// opens back to it; success is owed whenever the plaintext stays
    /// within the cipher's size bound of 64 * (2^32 - 2) bytes.
    open spec fn encrypt_post(&self, data: Seq<u8>, r: Result<Vec<u8>, CryptoError>) -> bool {
        &&& match r {
            Ok(ct) => ct@ == chacha_seal(self.key_bytes(), self.nonce_bytes(), data) && ct@.len()
                == data.len() + 16 && chacha_open(self.key_bytes(), self.nonce_bytes(), ct@)
                == Some(data),
            Err(e) => e == CryptoError::CryptoFailure,
        }
        &&& data.len() <= 274877906816 ==> r is Ok
    }

    fn encrypt(&self, data: &[u8]) -> (r: Result<Vec<u8>, CryptoError>) {
        proof {
            use_type_invariant(&*self);
        }
        chacha_encrypt(self.key.as_slice(), self.nonce.as_slice(), data)
    }
}

impl TextDecrypt for Chacha20poly1305EncryptAndDecrypt {
    open spec fn decrypt_post(&self, data: Seq<u8>, r: Result<Vec<u8>, CryptoError>) -> bool {
        match r {
            Ok(pt) => chacha_open(self.key_bytes(), self.nonce_bytes(), data) == Some(pt@),
            Err(e) => chacha_open(self.key_bytes(), self.nonce_bytes(), data) is None && e
                == CryptoError::CryptoFailure,
        }
    }

    fn decrypt(&self, data: Vec<u8>) -> (r: Result<Vec<u8>, CryptoError>) {
        proof {
            use_type_invariant(&*self);
        }
        chacha_decrypt(self.key.as_slice(), self.nonce.as_slice(), data.as_slice())
    }
}

impl KeyLoader for Chacha20poly1305EncryptAndDecrypt {
    open spec fn load_post(contents: Seq<u8>, r: Result<Self, CryptoError>) -> bool {
        if contents.len() == 44 {
            r matches Ok(c) && c.nonce_bytes() == contents.subrange(0, 12) && c.key_bytes()
                == contents.skip(12)
        } else {
            r matches Err(e) && e == CryptoError::KeyFormatError
        }
    }

    fn load(contents: &[u8]) -> (r: Result<Self, CryptoError>) {
        if contents.len() < 12 {
            return Err(CryptoError::KeyFormatError);
        }
        let nonce = bytes_prefix(contents, 12);
        let key = bytes_suffix(contents, 12);
        Self::try_new(key.as_slice(), nonce.as_slice())
    }
}

impl KeyGenerator for Chacha20poly1305EncryptAndDecrypt {
    open spec fn generate_post(r: Result<Vec<Vec<u8>>, CryptoError>) -> bool {
        match r {
            Ok(v) => v@.len() == 1 && v@[0]@.len() == 44,
            Err(_) => false,
        }
    }

    fn generate() -> (r: Result<Vec<Vec<u8>>, CryptoError>) {
        let key = chacha_generate_key();
        let mut nonce_key = chacha_generate_nonce();
        let mut i: usize = 0;
        while i < key.len()
            invariant
                i <= key@.len(),
                key@.len() == 32,
                nonce_key@.len() == 12 + i,
            decreases key@.len() - i,
        {
            nonce_key.push(key[i]);
            i = i + 1;
        }
        let mut out: Vec<Vec<u8>> = Vec::new();
        out.push(nonce_key);
        Ok(out)
    }
}

} // verus!
