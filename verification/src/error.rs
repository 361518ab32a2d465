//! Failure values returned by the engine and by the boundary layer.

use vstd::prelude::*;

verus! {

/// Every recoverable failure of the library.
#[derive(Clone, Copy, Debug, PartialEq, Eq, Structural)]
pub enum CryptoError {
    /// The operating system's random source could not deliver bytes.
    EntropyUnavailable,
    /// A key was not exactly 32 bytes long.
    InvalidKeyLength,
    /// A nonce was not exactly 12 bytes long.
    InvalidNonceLength,
    /// The ciphertext did not authenticate under the given key and nonce.
    AuthenticationFailure,
    /// The plaintext is longer than the cipher can process in one message.
    LengthLimitExceeded,
    /// The handle table cannot hold another buffer of the requested size.
    AllocationFailure,
    /// A descriptor does not name a buffer that the table handed out, or
    /// names it with a length that the buffer does not have.
    ContractViolation,
}

impl CryptoError {
    /// The text that stands for each failure on the host's side.
    pub open spec fn message_text(self) -> Seq<char> {
        match self {
            CryptoError::EntropyUnavailable => "secure random source unavailable"@,
            CryptoError::InvalidKeyLength => "key must be 32 bytes"@,
            CryptoError::InvalidNonceLength => "nonce must be 12 bytes"@,
            CryptoError::AuthenticationFailure => "authentication failed"@,
            CryptoError::LengthLimitExceeded => "plaintext exceeds the cipher's length limit"@,
            CryptoError::AllocationFailure => "boundary buffer could not be reserved"@,
            CryptoError::ContractViolation => "descriptor does not name an owned buffer"@,
        }
    }

    /// A uniform, detail-free description of the failure.
    pub fn message(&self) -> (text: String)
        ensures
            text@ == self.message_text(),
    {
        match self {
            CryptoError::EntropyUnavailable => "secure random source unavailable".to_owned(),
            CryptoError::InvalidKeyLength => "key must be 32 bytes".to_owned(),
            CryptoError::InvalidNonceLength => "nonce must be 12 bytes".to_owned(),
            CryptoError::AuthenticationFailure => "authentication failed".to_owned(),
            CryptoError::LengthLimitExceeded => "plaintext exceeds the cipher's length limit".to_owned(),
            CryptoError::AllocationFailure => "boundary buffer could not be reserved".to_owned(),
            CryptoError::ContractViolation => "descriptor does not name an owned buffer".to_owned(),
        }
    }
}

} // verus!
