//! The packet in which a nonce and a ciphertext travel as text.

use vstd::prelude::*;
use base64::engine::general_purpose::STANDARD;
use base64::Engine;

verus! {

/// The standard, padded base64 text of `bytes`.
pub uninterp spec fn base64_standard(bytes: Seq<u8>) -> Seq<char>;

/// Calls `Engine::encode` on the `STANDARD` engine of the `base64` crate.
/// Assumed: the text that comes back is a function of the bytes alone. The
/// bound keeps the length of that text, four characters for every three
/// bytes, within what a buffer can hold.
#[verifier::external_body]
fn base64_encode(bytes: &[u8]) -> (text: String)
    requires
        bytes@.len() <= usize::MAX / 4,
    ensures
        text@ == base64_standard(bytes@),
{
    STANDARD.encode(bytes)
}

/// A nonce and a ciphertext, each as base64 text.
#[derive(Debug)]
pub struct EncryptedDataPacket {
    nonce: String,
    ciphertext: String,
}

impl EncryptedDataPacket {
    /// The nonce's text.
    pub closed spec fn nonce_text(&self) -> Seq<char> {
        self.nonce@
    }

    /// The ciphertext's text.
    pub closed spec fn ciphertext_text(&self) -> Seq<char> {
        self.ciphertext@
    }

    /// Packs a nonce and a ciphertext, each encoded as standard base64.
    pub fn new(nonce_bytes: &[u8], ciphertext_bytes: &[u8]) -> (packet: Self)
        requires
            nonce_bytes@.len() <= usize::MAX / 4,
            ciphertext_bytes@.len() <= usize::MAX / 4,
        ensures
            packet.nonce_text() == base64_standard(nonce_bytes@),
            packet.ciphertext_text() == base64_standard(ciphertext_bytes@),
    {
        EncryptedDataPacket {
            nonce: base64_encode(nonce_bytes),
            ciphertext: base64_encode(ciphertext_bytes),
        }
    }

    /// A packet of two texts that were encoded elsewhere, as when a packet
    /// is received. The texts are taken as they are.
    pub fn from_parts(nonce: String, ciphertext: String) -> (packet: Self)
        ensures
            packet.nonce_text() == nonce@,
            packet.ciphertext_text() == ciphertext@,
    {
        EncryptedDataPacket { nonce, ciphertext }
    }

    /// The nonce as base64 text.
    pub fn nonce(&self) -> (text: &str)
        ensures
            text@ == self.nonce_text(),
    {
        self.nonce.as_str()
    }

    /// The ciphertext as base64 text.
    pub fn ciphertext(&self) -> (text: &str)
        ensures
            text@ == self.ciphertext_text(),
    {
        self.ciphertext.as_str()
    }
}

} // verus!
