//! The ways in which decoding fails.
use vstd::prelude::*;

verus! {

/// Why a buffer could not be decoded.
#[derive(Debug, Clone, Copy, PartialEq, Eq, Structural)]
pub enum DecodeError {
    /// A wrong magic tag, an unsupported version, a root that is no
    /// container, or containers nested deeper than the reader follows.
    FormatError,
    /// A read would go past the end of the data.
    TruncatedData,
    /// An offset table holds fewer entries than its container declares.
    SizeMismatch,
    /// A UTF-16 string holds an unpaired surrogate.
    InvalidEncoding,
}

} // verus!
