//! The error type shared by every decrypt operation.

use vstd::prelude::*;

verus! {

/// Why a decrypt operation refused its input.
#[derive(Clone, Copy, Debug, PartialEq, Eq, Structural)]
pub enum DecryptError {
    /// The key material does not have the length the operation requires.
    InvalidKeyLength,
    /// A data buffer, initialization vector or nonce does not have the length
    /// the operation requires.
    InvalidBufferLength,
    /// The first region of an archive header did not decrypt to the expected
    /// format magic: wrong key, or an unsupported format version.
    FormatMismatch,
    /// A counter-mode read was requested on a buffer whose length is not a
    /// whole number of 16-byte blocks.
    UnsupportedOffsetAlignment,
}

} // verus!
