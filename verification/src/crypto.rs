//! AES-GCM ciphers keyed from a shared secret, behind trusted wrappers.

use aes_gcm::aead::{Aead, KeyInit};
use rand::RngCore;
use vstd::prelude::*;
use vstd::utf8::encode_utf8;

use crate::hash::{md5, md5_of, sha256, sha256_of};

verus! {

pub const NONCE_SIZE: usize = 12;

#[derive(Debug, Clone, Copy, PartialEq, Eq, Structural)]
pub enum CryptoError {
    EncryptionFailed,
    DecryptionFailed,
    InvalidKey,
    CipherNotMatch,
}

/// The AES-128-GCM ciphertext-with-tag for a key, nonce and plaintext;
/// a pure function of the three.
pub uninterp spec fn gcm128_seal(key: Seq<u8>, nonce: Seq<u8>, plain: Seq<u8>) -> Seq<u8>;

/// What AES-128-GCM decryption yields for a key, nonce and ciphertext:
/// the plaintext when the tag authenticates, nothing otherwise.
pub uninterp spec fn gcm128_open(key: Seq<u8>, nonce: Seq<u8>, cipher: Seq<u8>) -> Option<Seq<u8>>;

/// The AES-256-GCM ciphertext-with-tag for a key, nonce and plaintext.
pub uninterp spec fn gcm256_seal(key: Seq<u8>, nonce: Seq<u8>, plain: Seq<u8>) -> Seq<u8>;

/// What AES-256-GCM decryption yields for a key, nonce and ciphertext.
pub uninterp spec fn gcm256_open(key: Seq<u8>, nonce: Seq<u8>, cipher: Seq<u8>) -> Option<Seq<u8>>;

/// The 16-byte AES-128 key derived from a secret string.
pub open spec fn derived_key_128(secret: Seq<char>) -> Seq<u8> {
    md5_of(encode_utf8(secret))
}

/// The 32-byte AES-256 key derived from a secret string.
pub open spec fn derived_key_256(secret: Seq<char>) -> Seq<u8> {
    sha256_of(encode_utf8(secret))
}

/// AES-128-GCM cipher wrapper; holds the derived key bytes, from which the
/// underlying cipher is rebuilt on every call.
#[derive(Debug)]
pub struct Aes128GcmCipher {
    key_bytes: Vec<u8>,
}

impl View for Aes128GcmCipher {
    type V = Seq<u8>;

    closed spec fn view(&self) -> Seq<u8> {
        self.key_bytes@
    }
}

impl Clone for Aes128GcmCipher {
    fn clone(&self) -> (r: Self)
        ensures
            r@ == self@,
    {
        let key_bytes = self.key_bytes.clone();
        proof {
            assert(key_bytes@ =~= self.key_bytes@);
        }
        Aes128GcmCipher { key_bytes }
    }
}

impl Aes128GcmCipher {
    /// A well-formed cipher holds exactly the 16 key bytes AES-128 needs.
    pub open spec fn wf(&self) -> bool {
        self@.len() == 16
    }

    /// Create a new AES-128-GCM cipher from a key string.
    pub fn new(key: &str) -> (r: Result<Aes128GcmCipher, CryptoError>)
        ensures
            r matches Ok(c) ==> c@ == derived_key_128(key@) && c.wf(),
            r is Ok,
    {
        let key_vec = md5(key.as_bytes());
        Ok(Aes128GcmCipher { key_bytes: key_vec })
    }

    /// Encrypt data with the given nonce.
    ///
    /// Relies on `aes_gcm::Aes128Gcm`: built from the key by `new_from_slice`
    /// (infallible for a 16-byte key), its `encrypt` succeeds for any
    /// plaintext within the documented `P_MAX` bound and returns the
    /// ciphertext with the 16-byte tag appended, a pure function of key,
    /// nonce and plaintext that decrypts back to the plaintext.
    #[verifier::external_body]
    pub fn encrypt(&self, nonce: &[u8], plaintext: &[u8]) -> (r: Result<Vec<u8>, CryptoError>)
        requires
            self.wf(),
            nonce@.len() == NONCE_SIZE,
            plaintext@.len() <= 0x10_0000_0000,
        ensures
            r is Ok,
            r matches Ok(c) ==> c@ == gcm128_seal(self@, nonce@, plaintext@) && c@.len()
                == plaintext@.len() + 16 && gcm128_open(self@, nonce@, c@) == Some(plaintext@),
    {
        let cipher = aes_gcm::Aes128Gcm::new_from_slice(&self.key_bytes)
            .expect("key length is fixed by construction");
        cipher
            .encrypt(aes_gcm::Nonce::from_slice(nonce), plaintext)
            .map_err(|_| CryptoError::EncryptionFailed)
    }

    /// Decrypt data with the given nonce.
    ///
    /// Relies on `aes_gcm::Aes128Gcm`: built from the key by `new_from_slice`
    /// (infallible for a 16-byte key), its `decrypt` returns the plaintext
    /// exactly when the appended tag authenticates under this key and nonce,
    /// and fails otherwise.
    #[verifier::external_body]
    pub fn decrypt(&self, nonce: &[u8], ciphertext: &[u8]) -> (r: Result<Vec<u8>, CryptoError>)
        requires
            self.wf(),
            nonce@.len() == NONCE_SIZE,
            ciphertext@.len() <= 0x10_0000_0010,
        ensures
            r is Ok <==> gcm128_open(self@, nonce@, ciphertext@) is Some,
            r matches Ok(p) ==> p@ == gcm128_open(self@, nonce@, ciphertext@).unwrap() && p@.len()
                + 16 == ciphertext@.len(),
            r matches Err(e) ==> e == CryptoError::CipherNotMatch,
    {
        let cipher = aes_gcm::Aes128Gcm::new_from_slice(&self.key_bytes)
            .expect("key length is fixed by construction");
        cipher
            .decrypt(aes_gcm::Nonce::from_slice(nonce), ciphertext)
            .map_err(|_| CryptoError::CipherNotMatch)
    }
}

/// AES-256-GCM cipher wrapper; not used on the active wire format, kept for
/// parity with legacy peers.
#[derive(Debug)]
pub struct Aes256GcmCipher {
    key_bytes: Vec<u8>,
}

impl View for Aes256GcmCipher {
    type V = Seq<u8>;

    closed spec fn view(&self) -> Seq<u8> {
        self.key_bytes@
    }
}

impl Aes256GcmCipher {
    /// A well-formed cipher holds exactly the 32 key bytes AES-256 needs.
    pub open spec fn wf(&self) -> bool {
        self@.len() == 32
    }

    /// Create a new AES-256-GCM cipher from a key string.
    pub fn new(key: &str) -> (r: Result<Aes256GcmCipher, CryptoError>)
        ensures
            r matches Ok(c) ==> c@ == derived_key_256(key@) && c.wf(),
            r is Ok,
    {
        let key_vec = sha256(key.as_bytes());
        Ok(Aes256GcmCipher { key_bytes: key_vec })
    }

    /// Encrypt data with the given nonce.
    ///
    /// Relies on `aes_gcm::Aes256Gcm`, as the AES-128 wrapper above relies
    /// on `aes_gcm::Aes128Gcm`.
    #[verifier::external_body]
    pub fn encrypt(&self, nonce: &[u8], plaintext: &[u8]) -> (r: Result<Vec<u8>, CryptoError>)
        requires
            self.wf(),
            nonce@.len() == NONCE_SIZE,
            plaintext@.len() <= 0x10_0000_0000,
        ensures
            r is Ok,
            r matches Ok(c) ==> c@ == gcm256_seal(self@, nonce@, plaintext@) && c@.len()
                == plaintext@.len() + 16 && gcm256_open(self@, nonce@, c@) == Some(plaintext@),
    {
        let cipher = aes_gcm::Aes256Gcm::new_from_slice(&self.key_bytes)
            .expect("key length is fixed by construction");
        cipher
            .encrypt(aes_gcm::Nonce::from_slice(nonce), plaintext)
            .map_err(|_| CryptoError::EncryptionFailed)
    }

    /// Decrypt data with the given nonce.
    ///
    /// Relies on `aes_gcm::Aes256Gcm`, as the AES-128 wrapper above relies
    /// on `aes_gcm::Aes128Gcm`.
    #[verifier::external_body]
    pub fn decrypt(&self, nonce: &[u8], ciphertext: &[u8]) -> (r: Result<Vec<u8>, CryptoError>)
        requires
            self.wf(),
            nonce@.len() == NONCE_SIZE,
            ciphertext@.len() <= 0x10_0000_0010,
        ensures
            r is Ok <==> gcm256_open(self@, nonce@, ciphertext@) is Some,
            r matches Ok(p) ==> p@ == gcm256_open(self@, nonce@, ciphertext@).unwrap() && p@.len()
                + 16 == ciphertext@.len(),
            r matches Err(e) ==> e == CryptoError::CipherNotMatch,
    {
        let cipher = aes_gcm::Aes256Gcm::new_from_slice(&self.key_bytes)
            .expect("key length is fixed by construction");
        cipher
            .decrypt(aes_gcm::Nonce::from_slice(nonce), ciphertext)
            .map_err(|_| CryptoError::CipherNotMatch)
    }
}

/// Generate a random nonce.
///
/// Relies on `rand::thread_rng` and `RngCore::fill_bytes`: the bytes are
/// drawn from a cryptographically secure generator, and nothing is promised
/// of their values.
#[verifier::external_body]
pub fn generate_nonce() -> (r: [u8; NONCE_SIZE]) {
    let mut nonce = [0u8; NONCE_SIZE];
    rand::thread_rng().fill_bytes(&mut nonce);
    nonce
}

} // verus!
