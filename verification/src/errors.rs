use vstd::prelude::*;

verus! {

/// Every failure the engine can report. Each operation surfaces exactly one
/// of these and aborts; a negative verification is the boolean `false`, never
/// an error.
#[derive(Clone, Copy, Debug, PartialEq, Eq, Structural)]
pub enum CryptoError {
    /// The input source vanished between validation and read.
    InputNotFound,
    /// A key file had the wrong length or an invalid encoding.
    KeyFormatError,
    /// The selected format does not support the requested operation.
    UnsupportedOperation,
    /// Malformed signature bytes or an authentication failure.
    CryptoFailure,
    /// Malformed text at the boundary: base64, a format name, or a
    /// duration expression.
    EncodingError,
}

impl CryptoError {
    /// A human-readable description of the failure.
    pub fn message(&self) -> (r: &'static str)
        ensures
            r@.len() > 0,
    {
        let r = match self {
            CryptoError::InputNotFound => "input not found",
            CryptoError::KeyFormatError => "invalid key format",
            CryptoError::UnsupportedOperation => "unsupported operation for this format",
            CryptoError::CryptoFailure => "cryptographic failure",
            CryptoError::EncodingError => "invalid encoding",
        };
        proof {
            reveal_strlit("input not found");
            reveal_strlit("invalid key format");
            reveal_strlit("unsupported operation for this format");
            reveal_strlit("cryptographic failure");
            reveal_strlit("invalid encoding");
        }
        r
    }
}

} // verus!
