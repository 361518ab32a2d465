//! The engine's operations for a host that can only pass `(address, length)`
//! descriptors.
//!
//! Inputs are descriptors of buffers in a [`BoundaryMemory`]; results are
//! placed in fresh buffers of the same table, which the host releases when it
//! is done with them. Every failure is a [`CryptoError`], and a call that
//! fails leaves the table exactly as it found it.

use vstd::prelude::*;
use crate::encryption::aes256_gcm_seal;
use crate::encryption::decrypt_data;
use crate::encryption::decrypt_spec;
use crate::encryption::encrypt_with_nonce;
use crate::encryption::generate_aes_key;
use crate::encryption::generate_nonce;
use crate::encryption::seal_refusal;
use crate::encryption::seals;
use crate::encryption::AesKey;
use crate::encryption::KEY_LEN;
use crate::encryption::MAX_PLAINTEXT_LEN;
use crate::encryption::NONCE_LEN;
use crate::encryption::TAG_LEN;
use crate::error::CryptoError;
use crate::memory::named_bytes;
use crate::memory::names;
use crate::memory::BoundaryMemory;

verus! {

/// Descriptors of the two buffers that hold a sealed message.
#[derive(Clone, Copy, Debug, PartialEq, Eq, Structural)]
pub struct SealedBuffers {
    pub nonce_addr: usize,
    pub nonce_len: usize,
    pub ciphertext_addr: usize,
    pub ciphertext_len: usize,
}

/// Descriptor of one buffer that holds a result.
#[derive(Clone, Copy, Debug, PartialEq, Eq, Structural)]
pub struct PlainBuffer {
    pub addr: usize,
    pub len: usize,
}

/// Why a request to encrypt is refused, if it is. A descriptor that names no
/// owned buffer comes first, then the key's length, then the nonce's and the
/// plaintext's, and last the room for the two result buffers.
pub open spec fn encrypt_refusal(
    mem: &BoundaryMemory,
    key_addr: usize,
    key_len: usize,
    plaintext_addr: usize,
    plaintext_len: usize,
    nonce_len: usize,
) -> Option<CryptoError> {
    if !names(mem@, key_addr, key_len) || !names(mem@, plaintext_addr, plaintext_len) {
        Some(CryptoError::ContractViolation)
    } else if key_len != KEY_LEN {
        Some(CryptoError::InvalidKeyLength)
    } else if seal_refusal(nonce_len as int, plaintext_len as int) is Some {
        seal_refusal(nonce_len as int, plaintext_len as int)
    } else if !mem.has_room(2, NONCE_LEN as int) || !mem.has_room(2, plaintext_len + TAG_LEN) {
        Some(CryptoError::AllocationFailure)
    } else {
        None
    }
}

/// The table `after` is the table `before` with the sealing of `plaintext`
/// under `key` and `nonce` handed over: the nonce in the first fresh buffer,
/// the ciphertext in the second, and `sealed` describing the two.
pub open spec fn delivered(
    before: &BoundaryMemory,
    after: &BoundaryMemory,
    sealed: SealedBuffers,
    key: Seq<u8>,
    plaintext: Seq<u8>,
    nonce: Seq<u8>,
) -> bool {
    &&& sealed.nonce_addr == before.frontier()
    &&& sealed.ciphertext_addr == before.frontier() + 1
    &&& after.frontier() == before.frontier() + 2
    &&& sealed.nonce_len == NONCE_LEN
    &&& sealed.ciphertext_len == plaintext.len() + TAG_LEN
    &&& seals(key, nonce, plaintext, aes256_gcm_seal(key, nonce, plaintext))
    &&& !before@.dom().contains(sealed.nonce_addr)
    &&& !before@.dom().contains(sealed.ciphertext_addr)
    &&& after@ == before@.insert(sealed.nonce_addr, nonce).insert(
        sealed.ciphertext_addr,
        aes256_gcm_seal(key, nonce, plaintext),
    )
}

/// What a request to decrypt gives: the plaintext, or why there is none.
pub open spec fn decrypt_outcome(
    mem: &BoundaryMemory,
    key_addr: usize,
    key_len: usize,
    ciphertext_addr: usize,
    ciphertext_len: usize,
    nonce_addr: usize,
    nonce_len: usize,
) -> Result<Seq<u8>, CryptoError> {
    if !names(mem@, key_addr, key_len) || !names(mem@, ciphertext_addr, ciphertext_len) || !names(
        mem@,
        nonce_addr,
        nonce_len,
    ) {
        Err(CryptoError::ContractViolation)
    } else if key_len != KEY_LEN {
        Err(CryptoError::InvalidKeyLength)
    } else {
        match decrypt_spec(
            named_bytes(mem@, key_addr, key_len),
            named_bytes(mem@, ciphertext_addr, ciphertext_len),
            named_bytes(mem@, nonce_addr, nonce_len),
        ) {
            Ok(plaintext) => if mem.has_room(1, plaintext.len() as int) {
                Ok(plaintext)
            } else {
                Err(CryptoError::AllocationFailure)
            },
            Err(e) => Err(e),
        }
    }
}

/// Reconstructs the key and the plaintext that the descriptors name and checks
/// all that can be checked before a nonce is spent.
fn check_encrypt_request<'a>(
    mem: &'a BoundaryMemory,
    key_addr: usize,
    key_len: usize,
    plaintext_addr: usize,
    plaintext_len: usize,
    nonce_len: usize,
) -> (r: Result<(AesKey, &'a [u8]), CryptoError>)
    ensures
        match r {
            Ok((key, plaintext)) => {
                &&& encrypt_refusal(mem, key_addr, key_len, plaintext_addr, plaintext_len, nonce_len)
                    is None
                &&& key@ == named_bytes(mem@, key_addr, key_len)
                &&& plaintext@ == named_bytes(mem@, plaintext_addr, plaintext_len)
            },
            Err(e) => encrypt_refusal(mem, key_addr, key_len, plaintext_addr, plaintext_len, nonce_len)
                == Some(e),
        },
{
    let key_bytes = match mem.read(key_addr, key_len) {
        Ok(bytes) => bytes,
        Err(e) => {
            return Err(e);
        },
    };
    let plaintext = match mem.read(plaintext_addr, plaintext_len) {
        Ok(bytes) => bytes,
        Err(e) => {
            return Err(e);
        },
    };
    let key = match AesKey::from_slice(key_bytes) {
        Ok(key) => key,
        Err(e) => {
            return Err(e);
        },
    };
    if nonce_len != NONCE_LEN {
        return Err(CryptoError::InvalidNonceLength);
    }
    if plaintext_len as u64 > MAX_PLAINTEXT_LEN {
        return Err(CryptoError::LengthLimitExceeded);
    }
    if plaintext_len > usize::MAX - TAG_LEN || !mem.room(2, NONCE_LEN) || !mem.room(
        2,
        plaintext_len + TAG_LEN,
    ) {
        return Err(CryptoError::AllocationFailure);
    }
    Ok((key, plaintext))
}

/// Hands a nonce and the ciphertext made with it over in two fresh buffers.
fn hand_over(mem: &mut BoundaryMemory, nonce: &[u8], ciphertext: &[u8]) -> (r: Result<
    SealedBuffers,
    CryptoError,
>)
    requires
        old(mem).has_room(2, nonce@.len() as int),
        old(mem).has_room(2, ciphertext@.len() as int),
    ensures
        final(mem).max_len() == old(mem).max_len(),
        r matches Ok(sealed) && {
            &&& sealed.nonce_addr == old(mem).frontier()
            &&& sealed.ciphertext_addr == old(mem).frontier() + 1
            &&& final(mem).frontier() == old(mem).frontier() + 2
            &&& sealed.nonce_len == nonce@.len()
            &&& sealed.ciphertext_len == ciphertext@.len()
            &&& !old(mem)@.dom().contains(sealed.nonce_addr)
            &&& !old(mem)@.dom().contains(sealed.ciphertext_addr)
            &&& final(mem)@ == old(mem)@.insert(sealed.nonce_addr, nonce@).insert(
                sealed.ciphertext_addr,
                ciphertext@,
            )
        },
{
    let nonce_addr = match mem.store(nonce) {
        Ok(addr) => addr,
        Err(e) => {
            return Err(e);
        },
    };
    let ciphertext_addr = match mem.store(ciphertext) {
        Ok(addr) => addr,
        Err(e) => {
            return Err(e);
        },
    };
    Ok(
        SealedBuffers {
            nonce_addr,
            nonce_len: nonce.len(),
            ciphertext_addr,
            ciphertext_len: ciphertext.len(),
        },
    )
}

/// Encrypts the plaintext that `(plaintext_addr, plaintext_len)` names under
/// the key that `(key_addr, key_len)` names and under the given `nonce`, and
/// hands nonce and ciphertext over in two fresh buffers.
pub fn encrypt_at_boundary(
    mem: &mut BoundaryMemory,
    key_addr: usize,
    key_len: usize,
    plaintext_addr: usize,
    plaintext_len: usize,
    nonce: &[u8],
) -> (r: Result<SealedBuffers, CryptoError>)
    ensures
        final(mem).max_len() == old(mem).max_len(),
        match r {
            Ok(sealed) => {
                &&& encrypt_refusal(
                    old(mem),
                    key_addr,
                    key_len,
                    plaintext_addr,
                    plaintext_len,
                    nonce.len(),
                ) is None
                &&& delivered(
                    old(mem),
                    final(mem),
                    sealed,
                    named_bytes(old(mem)@, key_addr, key_len),
                    named_bytes(old(mem)@, plaintext_addr, plaintext_len),
                    nonce@,
                )
            },
            Err(e) => {
                &&& encrypt_refusal(
                    old(mem),
                    key_addr,
                    key_len,
                    plaintext_addr,
                    plaintext_len,
                    nonce.len(),
                ) == Some(e)
                &&& *final(mem) == *old(mem)
            },
        },
{
    let sealing = match check_encrypt_request(
        mem,
        key_addr,
        key_len,
        plaintext_addr,
        plaintext_len,
        nonce.len(),
    ) {
        Ok((key, plaintext)) => encrypt_with_nonce(&key, nonce, plaintext),
        Err(e) => Err(e),
    };
    match sealing {
        Ok(ciphertext) => hand_over(mem, nonce, ciphertext.as_slice()),
        Err(e) => Err(e),
    }
}

/// Encrypts the plaintext that `(plaintext_addr, plaintext_len)` names under
/// the key that `(key_addr, key_len)` names, with a nonce drawn for this call
/// alone, and hands nonce and ciphertext over in two fresh buffers.
///
/// A request that can be refused is refused before a nonce is drawn. After
/// that only the random source can fail.
pub fn encrypt_data_wasm(
    mem: &mut BoundaryMemory,
    key_addr: usize,
    key_len: usize,
    plaintext_addr: usize,
    plaintext_len: usize,
) -> (r: Result<SealedBuffers, CryptoError>)
    ensures
        final(mem).max_len() == old(mem).max_len(),
        match r {
            Ok(sealed) => {
                &&& encrypt_refusal(
                    old(mem),
                    key_addr,
                    key_len,
                    plaintext_addr,
                    plaintext_len,
                    NONCE_LEN,
                ) is None
                &&& delivered(
                    old(mem),
                    final(mem),
                    sealed,
                    named_bytes(old(mem)@, key_addr, key_len),
                    named_bytes(old(mem)@, plaintext_addr, plaintext_len),
                    final(mem)@[sealed.nonce_addr],
                )
            },
            Err(e) => {
                &&& *final(mem) == *old(mem)
                &&& match encrypt_refusal(
                    old(mem),
                    key_addr,
                    key_len,
                    plaintext_addr,
                    plaintext_len,
                    NONCE_LEN,
                ) {
                    Some(refusal) => e == refusal,
                    None => e == CryptoError::EntropyUnavailable,
                }
            },
        },
{
    let (key, plaintext) = match check_encrypt_request(
        mem,
        key_addr,
        key_len,
        plaintext_addr,
        plaintext_len,
        NONCE_LEN,
    ) {
        Ok(checked) => checked,
        Err(e) => {
            return Err(e);
        },
    };
    let nonce = match generate_nonce() {
        Ok(nonce) => nonce,
        Err(e) => {
            return Err(e);
        },
    };
    let ciphertext = match encrypt_with_nonce(&key, nonce.as_slice(), plaintext) {
        Ok(ciphertext) => ciphertext,
        Err(e) => {
            return Err(e);
        },
    };
    hand_over(mem, nonce.as_slice(), ciphertext.as_slice())
}

/// Opens the ciphertext that `(ciphertext_addr, ciphertext_len)` names under
/// the key and the nonce that the other two descriptors name, and hands the
/// plaintext over in a fresh buffer.
pub fn decrypt_data_wasm(
    mem: &mut BoundaryMemory,
    key_addr: usize,
    key_len: usize,
    ciphertext_addr: usize,
    ciphertext_len: usize,
    nonce_addr: usize,
    nonce_len: usize,
) -> (r: Result<PlainBuffer, CryptoError>)
    ensures
        final(mem).max_len() == old(mem).max_len(),
        match decrypt_outcome(
            old(mem),
            key_addr,
            key_len,
            ciphertext_addr,
            ciphertext_len,
            nonce_addr,
            nonce_len,
        ) {
            Ok(plaintext) => {
                &&& r matches Ok(buffer)
                &&& buffer.addr == old(mem).frontier()
                &&& buffer.len == plaintext.len()
                &&& !old(mem)@.dom().contains(buffer.addr)
                &&& final(mem)@ == old(mem)@.insert(buffer.addr, plaintext)
                &&& final(mem).frontier() == old(mem).frontier() + 1
            },
            Err(e) => r == Err::<PlainBuffer, CryptoError>(e) && *final(mem) == *old(mem),
        },
{
    let key_bytes = match mem.read(key_addr, key_len) {
        Ok(bytes) => bytes,
        Err(e) => {
            return Err(e);
        },
    };
    let ciphertext = match mem.read(ciphertext_addr, ciphertext_len) {
        Ok(bytes) => bytes,
        Err(e) => {
            return Err(e);
        },
    };
    let nonce = match mem.read(nonce_addr, nonce_len) {
        Ok(bytes) => bytes,
        Err(e) => {
            return Err(e);
        },
    };
    let key = match AesKey::from_slice(key_bytes) {
        Ok(key) => key,
        Err(e) => {
            return Err(e);
        },
    };
    let plaintext = match decrypt_data(&key, ciphertext, nonce) {
        Ok(plaintext) => plaintext,
        Err(e) => {
            return Err(e);
        },
    };
    match mem.store(plaintext.as_slice()) {
        Ok(addr) => Ok(PlainBuffer { addr, len: plaintext.len() }),
        Err(e) => Err(e),
    }
}

/// Draws a fresh key and hands it over in a buffer of 32 bytes. The room for
/// the buffer is checked before the random source is asked.
pub fn generate_aes_key_wasm(mem: &mut BoundaryMemory) -> (r: Result<PlainBuffer, CryptoError>)
    ensures
        final(mem).max_len() == old(mem).max_len(),
        match r {
            Ok(buffer) => {
                &&& old(mem).has_room(1, KEY_LEN as int)
                &&& buffer.addr == old(mem).frontier()
                &&& buffer.len == KEY_LEN
                &&& !old(mem)@.dom().contains(buffer.addr)
                &&& final(mem)@[buffer.addr].len() == KEY_LEN
                &&& final(mem)@ == old(mem)@.insert(buffer.addr, final(mem)@[buffer.addr])
                &&& final(mem).frontier() == old(mem).frontier() + 1
            },
            Err(e) => {
                &&& *final(mem) == *old(mem)
                &&& if old(mem).has_room(1, KEY_LEN as int) {
                    e == CryptoError::EntropyUnavailable
                } else {
                    e == CryptoError::AllocationFailure
                }
            },
        },
{
    if !mem.room(1, KEY_LEN) {
        return Err(CryptoError::AllocationFailure);
    }
    let key = match generate_aes_key() {
        Ok(key) => key,
        Err(e) => {
            return Err(e);
        },
    };
    match mem.store(key.as_slice()) {
        Ok(addr) => Ok(PlainBuffer { addr, len: KEY_LEN }),
        Err(e) => Err(e),
    }
}

/// Round trip at the boundary: once a sealing of the plaintext at
/// `(plaintext_addr, plaintext_len)` under the key at `(key_addr, key_len)`
/// has been handed over as `sealed`, a request to decrypt what `sealed`
/// describes under the same key gives that plaintext back, as long as the
/// table has room for it.
pub proof fn lemma_boundary_round_trip(
    before: &BoundaryMemory,
    after: &BoundaryMemory,
    sealed: SealedBuffers,
    key_addr: usize,
    key_len: usize,
    plaintext_addr: usize,
    plaintext_len: usize,
    nonce: Seq<u8>,
)
    requires
        names(before@, key_addr, key_len),
        names(before@, plaintext_addr, plaintext_len),
        key_len == KEY_LEN,
        delivered(
            before,
            after,
            sealed,
            named_bytes(before@, key_addr, key_len),
            named_bytes(before@, plaintext_addr, plaintext_len),
            nonce,
        ),
        after.has_room(1, plaintext_len as int),
    ensures
        decrypt_outcome(
            after,
            key_addr,
            key_len,
            sealed.ciphertext_addr,
            sealed.ciphertext_len,
            sealed.nonce_addr,
            sealed.nonce_len,
        ) == Ok::<Seq<u8>, CryptoError>(named_bytes(before@, plaintext_addr, plaintext_len)),
{
    let key = named_bytes(before@, key_addr, key_len);
    let plaintext = named_bytes(before@, plaintext_addr, plaintext_len);
    let ciphertext = aes256_gcm_seal(key, nonce, plaintext);
    assert(named_bytes(after@, key_addr, key_len) == key);
    assert(named_bytes(after@, sealed.nonce_addr, sealed.nonce_len) =~= nonce);
    assert(named_bytes(after@, sealed.ciphertext_addr, sealed.ciphertext_len) =~= ciphertext);
}

} // verus!
