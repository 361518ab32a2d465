//! The AEAD engine: AES-256-GCM over a 32-byte key, a fresh 12-byte nonce for
//! every message, and no associated data.
//!
//! The cipher itself and the operating system's random source are outside this
//! library; what is assumed of them is written on the four items at the top of
//! this file. Everything else here is proved from those statements.

use vstd::prelude::*;
use crate::error::CryptoError;
use crate::memory::copy_range;
use aes_gcm::aead::Aead;
use aes_gcm::aead::KeyInit;
use aes_gcm::Aes256Gcm;
use aes_gcm::Key;
use aes_gcm::Nonce;
use rand::rngs::OsRng;
use rand::RngCore;

verus! {

/// Length of a key in bytes.
pub const KEY_LEN: usize = 32;

/// Length of a nonce in bytes.
pub const NONCE_LEN: usize = 12;

/// Length of the authentication tag that ends every ciphertext.
pub const TAG_LEN: usize = 16;

/// The longest plaintext, in bytes, that the cipher seals as one message.
pub const MAX_PLAINTEXT_LEN: u64 = 68719476736;

/// `aes_gcm::Error`: the cipher's only failure value, which carries no detail.
#[verifier::external_type_specification]
#[verifier::external_body]
pub struct ExCipherError(aes_gcm::Error);

/// `rand::Error`: why the random source could not deliver.
#[verifier::external_type_specification]
#[verifier::external_body]
pub struct ExRandomError(rand::Error);

/// The ciphertext, tag included, that AES-256-GCM produces for `plaintext`
/// under `key` and `nonce` with no associated data.
pub uninterp spec fn aes256_gcm_seal(key: Seq<u8>, nonce: Seq<u8>, plaintext: Seq<u8>) -> Seq<u8>;

/// The plaintext that AES-256-GCM recovers from `ciphertext` under `key` and
/// `nonce`, or `None` where the tag does not verify.
pub uninterp spec fn aes256_gcm_open(key: Seq<u8>, nonce: Seq<u8>, ciphertext: Seq<u8>) -> Option<
    Seq<u8>,
>;

/// `ciphertext` is what the cipher makes of `plaintext` under `key` and
/// `nonce`: it is the plaintext's length plus one tag long, and the same key
/// and nonce open it to the plaintext again.
pub open spec fn seals(key: Seq<u8>, nonce: Seq<u8>, plaintext: Seq<u8>, ciphertext: Seq<u8>) -> bool {
    &&& key.len() == KEY_LEN
    &&& nonce.len() == NONCE_LEN
    &&& plaintext.len() <= MAX_PLAINTEXT_LEN
    &&& ciphertext == aes256_gcm_seal(key, nonce, plaintext)
    &&& ciphertext.len() == plaintext.len() + TAG_LEN
    &&& aes256_gcm_open(key, nonce, ciphertext) == Some(plaintext)
}

/// Calls `OsRng.try_fill_bytes` of the `rand` crate on a buffer of `len`
/// bytes. Assumed: on success the buffer that comes back still has `len`
/// bytes. Nothing is assumed of the bytes themselves, nor of when the source
/// fails.
#[verifier::external_body]
fn os_random(len: usize) -> (r: Result<Vec<u8>, rand::Error>)
    ensures
        r matches Ok(bytes) ==> bytes@.len() == len,
{
    let mut bytes = vec![0u8; len];
    OsRng.try_fill_bytes(&mut bytes)?;
    Ok(bytes)
}

/// Calls `Aes256Gcm::new` and `Aead::encrypt` of the `aes-gcm` crate.
/// Assumed: for a 32-byte key, a 12-byte nonce and a plaintext within the
/// cipher's limit the call succeeds; its result is a function of the three
/// inputs alone, is one tag longer than the plaintext, and is opened by the
/// same key and nonce to the plaintext.
#[verifier::external_body]
fn cipher_seal(key: &[u8], nonce: &[u8], plaintext: &[u8]) -> (r: Result<Vec<u8>, aes_gcm::Error>)
    requires
        key@.len() == KEY_LEN,
        nonce@.len() == NONCE_LEN,
        plaintext@.len() <= MAX_PLAINTEXT_LEN,
    ensures
        r is Ok,
        r matches Ok(ciphertext) ==> ciphertext@ == aes256_gcm_seal(key@, nonce@, plaintext@),
        r matches Ok(ciphertext) ==> ciphertext@.len() == plaintext@.len() + TAG_LEN,
        r matches Ok(ciphertext) ==> aes256_gcm_open(key@, nonce@, ciphertext@) == Some(plaintext@),
{
    let cipher = Aes256Gcm::new(Key::<Aes256Gcm>::from_slice(key));
    cipher.encrypt(Nonce::from_slice(nonce), plaintext)
}

/// Calls `Aes256Gcm::new` and `Aead::decrypt` of the `aes-gcm` crate.
/// Assumed: for a 32-byte key and a 12-byte nonce the outcome is a function
/// of the three inputs alone; it is an error exactly where the tag does not
/// verify, and a plaintext is one tag shorter than the ciphertext.
#[verifier::external_body]
fn cipher_open(key: &[u8], nonce: &[u8], ciphertext: &[u8]) -> (r: Result<Vec<u8>, aes_gcm::Error>)
    requires
        key@.len() == KEY_LEN,
        nonce@.len() == NONCE_LEN,
    ensures
        match r {
            Ok(plaintext) => aes256_gcm_open(key@, nonce@, ciphertext@) == Some(plaintext@)
                && plaintext@.len() + TAG_LEN == ciphertext@.len(),
            Err(_) => aes256_gcm_open(key@, nonce@, ciphertext@) is None,
        },
{
    let cipher = Aes256Gcm::new(Key::<Aes256Gcm>::from_slice(key));
    cipher.decrypt(Nonce::from_slice(nonce), ciphertext)
}

/// A 256-bit secret key: always exactly 32 bytes.
pub struct AesKey {
    bytes: Vec<u8>,
}

impl AesKey {
    #[verifier::type_invariant]
    closed spec fn full_length(self) -> bool {
        self.bytes@.len() == KEY_LEN
    }

    /// The key's bytes.
    pub closed spec fn view(&self) -> Seq<u8> {
        self.bytes@
    }

    /// Takes `bytes` as a key, and rejects them unless there are exactly 32.
    pub fn from_slice(bytes: &[u8]) -> (r: Result<AesKey, CryptoError>)
        ensures
            match r {
                Ok(key) => bytes@.len() == KEY_LEN && key@ == bytes@,
                Err(e) => bytes@.len() != KEY_LEN && e == CryptoError::InvalidKeyLength,
            },
    {
        if bytes.len() != KEY_LEN {
            return Err(CryptoError::InvalidKeyLength);
        }
        let copy = copy_range(bytes, 0, bytes.len());
        assert(bytes@.subrange(0, bytes@.len() as int) =~= bytes@);
        Ok(AesKey { bytes: copy })
    }

    /// The key's 32 bytes.
    pub fn as_slice(&self) -> (bytes: &[u8])
        ensures
            bytes@ == self@,
            bytes@.len() == KEY_LEN,
    {
        proof {
            use_type_invariant(self);
        }
        self.bytes.as_slice()
    }
}

/// Why a request to seal is refused before the cipher runs, if it is.
pub open spec fn seal_refusal(nonce_len: int, plaintext_len: int) -> Option<CryptoError> {
    if nonce_len != NONCE_LEN {
        Some(CryptoError::InvalidNonceLength)
    } else if plaintext_len > MAX_PLAINTEXT_LEN {
        Some(CryptoError::LengthLimitExceeded)
    } else {
        None
    }
}

/// What opening `ciphertext` under `key` and `nonce` gives: a nonce of the
/// wrong length is refused, a tag that does not verify is an authentication
/// failure, and otherwise the whole plaintext comes back.
pub open spec fn decrypt_spec(key: Seq<u8>, ciphertext: Seq<u8>, nonce: Seq<u8>) -> Result<
    Seq<u8>,
    CryptoError,
> {
    if nonce.len() != NONCE_LEN {
        Err(CryptoError::InvalidNonceLength)
    } else {
        match aes256_gcm_open(key, nonce, ciphertext) {
            Some(plaintext) => Ok(plaintext),
            None => Err(CryptoError::AuthenticationFailure),
        }
    }
}

/// Draws a fresh key from the operating system's random source.
pub fn generate_aes_key() -> (r: Result<AesKey, CryptoError>)
    ensures
        match r {
            Ok(key) => key@.len() == KEY_LEN,
            Err(e) => e == CryptoError::EntropyUnavailable,
        },
{
    match os_random(KEY_LEN) {
        Ok(bytes) => match AesKey::from_slice(bytes.as_slice()) {
            Ok(key) => Ok(key),
            Err(_) => Err(CryptoError::EntropyUnavailable),
        },
        Err(_) => Err(CryptoError::EntropyUnavailable),
    }
}

/// Draws a fresh nonce from the operating system's random source.
pub fn generate_nonce() -> (r: Result<Vec<u8>, CryptoError>)
    ensures
        match r {
            Ok(nonce) => nonce@.len() == NONCE_LEN,
            Err(e) => e == CryptoError::EntropyUnavailable,
        },
{
    match os_random(NONCE_LEN) {
        Ok(nonce) => Ok(nonce),
        Err(_) => Err(CryptoError::EntropyUnavailable),
    }
}

/// Seals `plaintext` under `key` and the given `nonce`, which the caller
/// must never use twice with one key.
pub fn encrypt_with_nonce(key: &AesKey, nonce: &[u8], plaintext: &[u8]) -> (r: Result<
    Vec<u8>,
    CryptoError,
>)
    ensures
        match r {
            Ok(ciphertext) => seal_refusal(nonce@.len() as int, plaintext@.len() as int) is None
                && seals(key@, nonce@, plaintext@, ciphertext@),
            Err(e) => seal_refusal(nonce@.len() as int, plaintext@.len() as int) == Some(e),
        },
{
    if nonce.len() != NONCE_LEN {
        return Err(CryptoError::InvalidNonceLength);
    }
    if plaintext.len() as u64 > MAX_PLAINTEXT_LEN {
        return Err(CryptoError::LengthLimitExceeded);
    }
    match cipher_seal(key.as_slice(), nonce, plaintext) {
        Ok(ciphertext) => Ok(ciphertext),
        Err(_) => Err(CryptoError::LengthLimitExceeded),
    }
}

/// Seals `plaintext` under `key` with a nonce drawn for this call alone, and
/// returns the nonce and the ciphertext. Both are needed to open it again.
pub fn encrypt_data(key: &AesKey, plaintext: &[u8]) -> (r: Result<(Vec<u8>, Vec<u8>), CryptoError>)
    ensures
        match r {
            Ok((nonce, ciphertext)) => seals(key@, nonce@, plaintext@, ciphertext@),
            Err(e) => if plaintext@.len() > MAX_PLAINTEXT_LEN {
                e == CryptoError::LengthLimitExceeded
            } else {
                e == CryptoError::EntropyUnavailable
            },
        },
        plaintext@.len() > MAX_PLAINTEXT_LEN ==> r is Err,
{
    if plaintext.len() as u64 > MAX_PLAINTEXT_LEN {
        return Err(CryptoError::LengthLimitExceeded);
    }
    let nonce = match generate_nonce() {
        Ok(nonce) => nonce,
        Err(e) => {
            return Err(e);
        },
    };
    match encrypt_with_nonce(key, nonce.as_slice(), plaintext) {
        Ok(ciphertext) => Ok((nonce, ciphertext)),
        Err(e) => Err(e),
    }
}

/// Verifies and opens `ciphertext` under `key` and `nonce_bytes`. It returns
/// the whole plaintext or a failure, never a part of either.
pub fn decrypt_data(key: &AesKey, ciphertext: &[u8], nonce_bytes: &[u8]) -> (r: Result<
    Vec<u8>,
    CryptoError,
>)
    ensures
        match r {
            Ok(plaintext) => decrypt_spec(key@, ciphertext@, nonce_bytes@) == Ok::<
                Seq<u8>,
                CryptoError,
            >(plaintext@) && plaintext@.len() + TAG_LEN == ciphertext@.len(),
            Err(e) => decrypt_spec(key@, ciphertext@, nonce_bytes@) == Err::<Seq<u8>, CryptoError>(e),
        },
{
    if nonce_bytes.len() != NONCE_LEN {
        return Err(CryptoError::InvalidNonceLength);
    }
    match cipher_open(key.as_slice(), nonce_bytes, ciphertext) {
        Ok(plaintext) => Ok(plaintext),
        Err(_) => Err(CryptoError::AuthenticationFailure),
    }
}

/// Round trip: whatever nonce and ciphertext a sealing of `plaintext` under
/// `key` returns, opening that ciphertext under the same key and nonce gives
/// `plaintext` back.
pub proof fn lemma_round_trip(key: Seq<u8>, plaintext: Seq<u8>, nonce: Seq<u8>, ciphertext: Seq<u8>)
    requires
        seals(key, nonce, plaintext, ciphertext),
    ensures
        decrypt_spec(key, ciphertext, nonce) == Ok::<Seq<u8>, CryptoError>(plaintext),
{
}

} // verus!
