//! The closed set of failures the codec reports.

use vstd::prelude::*;

verus! {

/// What went wrong. Every fallible operation of the codec fails with exactly
/// one of these kinds.
#[derive(Debug, Clone, Copy, PartialEq, Eq, Structural)]
pub enum TileErrorCode {
    InvalidMagic,
    UnsupportedVersion,
    InvalidHeaderLength,
    InvalidFieldValue,
    MissingRequiredField,
    HeaderChecksumMismatch,
    InvalidPayloadLength,
    UnsupportedCompression,
    CompressionFailed,
    DecompressionFailed,
    PayloadChecksumMismatch,
}

impl TileErrorCode {
    /// The stable upper-case identifier of the kind.
    pub open spec fn name(self) -> Seq<char> {
        match self {
            TileErrorCode::InvalidMagic => "INVALID_MAGIC"@,
            TileErrorCode::UnsupportedVersion => "UNSUPPORTED_VERSION"@,
            TileErrorCode::InvalidHeaderLength => "INVALID_HEADER_LENGTH"@,
            TileErrorCode::InvalidFieldValue => "INVALID_FIELD_VALUE"@,
            TileErrorCode::MissingRequiredField => "MISSING_REQUIRED_FIELD"@,
            TileErrorCode::HeaderChecksumMismatch => "HEADER_CHECKSUM_MISMATCH"@,
            TileErrorCode::InvalidPayloadLength => "INVALID_PAYLOAD_LENGTH"@,
            TileErrorCode::UnsupportedCompression => "UNSUPPORTED_COMPRESSION"@,
            TileErrorCode::CompressionFailed => "COMPRESSION_FAILED"@,
            TileErrorCode::DecompressionFailed => "DECOMPRESSION_FAILED"@,
            TileErrorCode::PayloadChecksumMismatch => "PAYLOAD_CHECKSUM_MISMATCH"@,
        }
    }

    /// The identifier of the kind.
    pub fn as_str(self) -> (text: &'static str)
        ensures
            text@ == self.name(),
    {
        match self {
            TileErrorCode::InvalidMagic => "INVALID_MAGIC",
            TileErrorCode::UnsupportedVersion => "UNSUPPORTED_VERSION",
            TileErrorCode::InvalidHeaderLength => "INVALID_HEADER_LENGTH",
            TileErrorCode::InvalidFieldValue => "INVALID_FIELD_VALUE",
            TileErrorCode::MissingRequiredField => "MISSING_REQUIRED_FIELD",
            TileErrorCode::HeaderChecksumMismatch => "HEADER_CHECKSUM_MISMATCH",
            TileErrorCode::InvalidPayloadLength => "INVALID_PAYLOAD_LENGTH",
            TileErrorCode::UnsupportedCompression => "UNSUPPORTED_COMPRESSION",
            TileErrorCode::CompressionFailed => "COMPRESSION_FAILED",
            TileErrorCode::DecompressionFailed => "DECOMPRESSION_FAILED",
            TileErrorCode::PayloadChecksumMismatch => "PAYLOAD_CHECKSUM_MISMATCH",
        }
    }
}

/// A failure: its kind and a message for a human reader.
#[derive(Debug, Clone, PartialEq, Eq)]
pub struct TileError {
    pub code: TileErrorCode,
    pub message: String,
}

/// What a failure says: its kind, and the characters of its message.
pub struct Failure {
    pub code: TileErrorCode,
    pub message: Seq<char>,
}

impl View for TileError {
    type V = Failure;

    open spec fn view(&self) -> Failure {
        Failure { code: self.code, message: self.message@ }
    }
}

/// The failure of kind `code` that says `message`.
pub open spec fn failure(code: TileErrorCode, message: Seq<char>) -> Failure {
    Failure { code, message }
}

/// What a fallible operation yields: the value, or what the failure says.
pub open spec fn outcome<T>(result: Result<T, TileError>) -> Result<T, Failure> {
    match result {
        Ok(value) => Ok(value),
        Err(error) => Err(error@),
    }
}

/// What an operation that gives bytes yields, with the bytes as a sequence.
pub open spec fn bytes_outcome(result: Result<Vec<u8>, TileError>) -> Result<Seq<u8>, Failure> {
    match result {
        Ok(bytes) => Ok(bytes@),
        Err(error) => Err(error@),
    }
}

impl TileError {
    /// The failure of kind `code` that says `message`.
    pub fn new(code: TileErrorCode, message: &str) -> (error: TileError)
        ensures
            error@ == failure(code, message@),
    {
        TileError { code, message: message.to_owned() }
    }

    /// The kind's identifier, a colon and the message.
    pub open spec fn rendered(self) -> Seq<char> {
        self.code.name() + ": "@ + self.message@
    }

    /// The text a reader is shown for this failure.
    pub fn describe(&self) -> (text: String)
        ensures
            text@ == self.rendered(),
    {
        let mut text = self.code.as_str().to_owned();
        text.append(": ");
        text.append(self.message.as_str());
        text
    }
}

} // verus!
