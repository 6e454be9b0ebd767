//! The error taxonomy of the client.

use vstd::prelude::*;
use vstd::string::StringExecFns;

verus! {

/// Every failure the client reports, as a typed value.  Each variant
/// carries the offending input or a short description.
#[derive(Debug, Clone)]
pub enum RndcError {
    InvalidAlgorithm(String),
    Base64DecodeError(String),
    NetworkError(String),
    EncodingError(String),
    DecodingError(String),
    UnknownError(String),
}

impl RndcError {
    pub open spec fn describe_spec(&self) -> Seq<char> {
        match self {
            RndcError::InvalidAlgorithm(m) => "Invalid algorithm: "@ + m@,
            RndcError::Base64DecodeError(m) => "Base64 decode error: "@ + m@,
            RndcError::NetworkError(m) => "Network error: "@ + m@,
            RndcError::EncodingError(m) => "Encoding error: "@ + m@,
            RndcError::DecodingError(m) => "Decoding error: "@ + m@,
            RndcError::UnknownError(m) => "Unknown error: "@ + m@,
        }
    }

    /// A readable rendering of the error, prefix plus detail.
    pub fn describe(&self) -> (r: String)
        ensures
            r@ == self.describe_spec(),
    {
        match self {
            RndcError::InvalidAlgorithm(m) => String::from_str("Invalid algorithm: ").concat(
                m.as_str(),
            ),
            RndcError::Base64DecodeError(m) => String::from_str("Base64 decode error: ").concat(
                m.as_str(),
            ),
            RndcError::NetworkError(m) => String::from_str("Network error: ").concat(m.as_str()),
            RndcError::EncodingError(m) => String::from_str("Encoding error: ").concat(m.as_str()),
            RndcError::DecodingError(m) => String::from_str("Decoding error: ").concat(m.as_str()),
            RndcError::UnknownError(m) => String::from_str("Unknown error: ").concat(m.as_str()),
        }
    }
}

} // verus!
