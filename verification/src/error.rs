//! Errors that can occur while unpacking a serialized, compressed package
//! list.

use vstd::prelude::*;

verus! {

/// Relies on `miniz_oxide::inflate::DecompressError`: carried opaquely inside
/// [`UnpackError`].
#[verifier::external_type_specification]
#[verifier::external_body]
pub struct ExDecompressError(miniz_oxide::inflate::DecompressError);

/// Relies on `bincode::error::DecodeError`: carried opaquely inside
/// [`UnpackError`].
#[verifier::external_type_specification]
#[verifier::external_body]
pub struct ExDecodeError(bincode::error::DecodeError);

/// Relies on `bincode::error::EncodeError`: returned where serialization
/// itself fails.
#[verifier::external_type_specification]
#[verifier::external_body]
pub struct ExEncodeError(bincode::error::EncodeError);

/// Why a serialized, compressed package list could not be unpacked.
#[derive(Debug)]
pub enum UnpackError {
    /// The buffer does not decompress.
    DecompressError(miniz_oxide::inflate::DecompressError),
    /// The decompressed bytes do not decode.
    DecodeError(bincode::error::DecodeError),
    /// The supplied byte buffer is empty.
    Empty,
}

impl UnpackError {
    /// A short description of the failure.
    pub fn message(&self) -> &'static str {
        match self {
            UnpackError::DecompressError(_) => "Failed decompressing license data.",
            UnpackError::DecodeError(_) => "Failed decoding license data.",
            UnpackError::Empty => "Supplied buffer is empty.",
        }
    }
}

impl From<miniz_oxide::inflate::DecompressError> for UnpackError {
    fn from(value: miniz_oxide::inflate::DecompressError) -> (r: Self)
        ensures
            r == UnpackError::DecompressError(value),
    {
        UnpackError::DecompressError(value)
    }
}

impl vstd::std_specs::convert::FromSpecImpl<miniz_oxide::inflate::DecompressError> for UnpackError {
    open spec fn obeys_from_spec() -> bool {
        true
    }

    open spec fn from_spec(value: miniz_oxide::inflate::DecompressError) -> Self {
        UnpackError::DecompressError(value)
    }
}

impl From<bincode::error::DecodeError> for UnpackError {
    fn from(value: bincode::error::DecodeError) -> (r: Self)
        ensures
            r == UnpackError::DecodeError(value),
    {
        UnpackError::DecodeError(value)
    }
}

impl vstd::std_specs::convert::FromSpecImpl<bincode::error::DecodeError> for UnpackError {
    open spec fn obeys_from_spec() -> bool {
        true
    }

    open spec fn from_spec(value: bincode::error::DecodeError) -> Self {
        UnpackError::DecodeError(value)
    }
}

} // verus!
