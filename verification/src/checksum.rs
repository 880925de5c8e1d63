//! The CRC-32 checksum that guards the header and the payload.

use vstd::prelude::*;
use crate::error::{failure, TileError, TileErrorCode};
use crate::text::{hex_text, push_hex};

verus! {

/// The CRC-32 (IEEE) checksum of a byte sequence.
pub uninterp spec fn crc32_of(bytes: Seq<u8>) -> u32;

/// Calls `crc32fast::hash`. Trusted: the result is the CRC-32 checksum of the
/// bytes, a function of the bytes alone. Nothing is claimed about which
/// sequences share a checksum.
#[verifier::external_body]
pub(crate) fn crc32(bytes: &[u8]) -> (checksum: u32)
    ensures
        checksum == crc32_of(bytes@),
{
    crc32fast::hash(bytes)
}

/// What a checksum mismatch says: `stem`, the checksum that was expected as
/// eight hexadecimal digits, and the one that was computed.
pub open spec fn mismatch_text(stem: Seq<char>, expected: u32, actual: u32) -> Seq<char> {
    stem + " expected="@ + hex_text(expected as nat, 8) + " actual="@ + hex_text(actual as nat, 8)
}

/// The failure of kind `code` that reports two checksums that differ.
pub fn checksum_mismatch(code: TileErrorCode, stem: &str, expected: u32, actual: u32) -> (error:
    TileError)
    ensures
        error@ == failure(code, mismatch_text(stem@, expected, actual)),
{
    let mut message: String = stem.to_owned();
    message.append(" expected=");
    push_hex(&mut message, expected as u64, 8);
    message.append(" actual=");
    push_hex(&mut message, actual as u64, 8);
    TileError { code, message }
}

} // verus!
