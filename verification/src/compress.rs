//! The payload compressor: the identity, or a raw (headerless) deflate
//! stream at the highest compression level.

use std::io::{Read, Write};
use flate2::read::DeflateDecoder;
use flate2::write::DeflateEncoder;
use flate2::Compression;
use vstd::prelude::*;
use crate::error::{bytes_outcome, failure, Failure, TileError, TileErrorCode};
use crate::model::CompressionMode;

verus! {

/// `std::io::Error`, the error that the deflate encoder and decoder report.
/// It is opaque here: it is carried from the call to the function that quotes
/// its text in a message.
#[verifier::external_type_specification]
#[verifier::external_body]
pub struct ExIoError(std::io::Error);

/// The raw deflate stream that the compressor writes for `payload` at the
/// highest level, or `None` where it reports an error.
pub uninterp spec fn deflate_raw_of(payload: Seq<u8>) -> Option<Seq<u8>>;

/// The bytes that the decompressor recovers from the raw deflate stream at
/// the start of `stored`, or `None` where it reports an error.
pub uninterp spec fn inflate_raw_of(stored: Seq<u8>) -> Option<Seq<u8>>;

/// An error of the deflate encoder, under the step that reported it: writing
/// the payload, or finishing the stream.
#[derive(Debug)]
pub enum DeflateFailure {
    Write(std::io::Error),
    Finish(std::io::Error),
}

/// Runs `flate2::write::DeflateEncoder` over a fresh vector with
/// `Compression::best()`: `write_all`, then `finish`, and hands an error on
/// under the step that reported it. Trusted: whether the encoder succeeds,
/// and the stream it returns, depend on the payload alone. Nothing is claimed
/// about the stream's contents, nor about which step fails.
#[verifier::external_body]
fn deflate_raw(payload: &[u8]) -> (result: Result<Vec<u8>, DeflateFailure>)
    ensures
        result is Ok <==> deflate_raw_of(payload@) is Some,
        result matches Ok(stored) ==> deflate_raw_of(payload@) == Some(stored@),
{
    let mut encoder = DeflateEncoder::new(Vec::new(), Compression::best());
    match encoder.write_all(payload) {
        Ok(()) => match encoder.finish() {
            Ok(stored) => Ok(stored),
            Err(cause) => Err(DeflateFailure::Finish(cause)),
        },
        Err(cause) => Err(DeflateFailure::Write(cause)),
    }
}

/// Runs `flate2::read::DeflateDecoder` over `stored` and reads it to the end.
/// Trusted: whether the decoder succeeds, and the bytes it yields, depend on
/// the stored bytes alone. Nothing is claimed about which streams decode.
#[verifier::external_body]
fn inflate_raw(stored: &[u8]) -> (result: Result<Vec<u8>, std::io::Error>)
    ensures
        result is Ok <==> inflate_raw_of(stored@) is Some,
        result matches Ok(payload) ==> inflate_raw_of(stored@) == Some(payload@),
{
    let mut decoder = DeflateDecoder::new(stored);
    let mut payload = Vec::new();
    decoder.read_to_end(&mut payload)?;
    Ok(payload)
}

/// What is stored for `payload` under `mode`, where compression succeeds.
pub open spec fn stored_form(mode: CompressionMode, payload: Seq<u8>) -> Option<Seq<u8>> {
    match mode {
        CompressionMode::Uncompressed => Some(payload),
        CompressionMode::DeflateRaw => deflate_raw_of(payload),
    }
}

/// What `stored` holds under `mode`, where decompression succeeds.
pub open spec fn restored_form(mode: CompressionMode, stored: Seq<u8>) -> Option<Seq<u8>> {
    match mode {
        CompressionMode::Uncompressed => Some(stored),
        CompressionMode::DeflateRaw => inflate_raw_of(stored),
    }
}

/// What the deflate encoder says where it fails: the step that failed, and
/// the words of its error.
pub enum EncoderReport {
    Write(Seq<char>),
    Finish(Seq<char>),
}

/// The failure of the deflate encoder: a compression failure whose message
/// names the step that failed and ends in the encoder's own words.
pub open spec fn compression_failure(report: EncoderReport) -> Failure {
    match report {
        EncoderReport::Write(detail) => failure(
            TileErrorCode::CompressionFailed,
            "Could not compress payload using deflate-raw: "@ + detail,
        ),
        EncoderReport::Finish(detail) => failure(
            TileErrorCode::CompressionFailed,
            "Could not finish deflate-raw compression: "@ + detail,
        ),
    }
}

/// The failure of the deflate decoder: a decompression failure whose message
/// ends in `detail`, the decoder's own words.
pub open spec fn decompression_failure(detail: Seq<char>) -> Failure {
    failure(
        TileErrorCode::DecompressionFailed,
        "Could not decompress payload using deflate-raw: "@ + detail,
    )
}

/// What compressing `payload` yields, where `report` stands for what the
/// encoder says of its error, should it report one.
pub open spec fn compressed(
    mode: CompressionMode,
    payload: Seq<u8>,
    report: EncoderReport,
) -> Result<Seq<u8>, Failure> {
    match stored_form(mode, payload) {
        Some(stored) => Ok(stored),
        None => Err(compression_failure(report)),
    }
}

/// What decompressing `stored` yields, where `detail` stands for what the
/// decoder says of its error, should it report one.
pub open spec fn decompressed(mode: CompressionMode, stored: Seq<u8>, detail: Seq<char>) -> Result<
    Seq<u8>,
    Failure,
> {
    match restored_form(mode, stored) {
        Some(payload) => Ok(payload),
        None => Err(decompression_failure(detail)),
    }
}

/// Decompression restores what compression stores for `payload`. For the
/// identity this holds of every payload. For deflate it says that the
/// decoder inverts the encoder on `payload`, which is what a lossless
/// compressor is for; it is a statement about outside code and is proved
/// nowhere in this crate.
pub open spec fn compression_restores(mode: CompressionMode, payload: Seq<u8>) -> bool {
    stored_form(mode, payload) matches Some(stored) ==> restored_form(mode, stored) == Some(
        payload,
    )
}

/// A copy of `bytes`.
pub fn copy_bytes(bytes: &[u8]) -> (copy: Vec<u8>)
    ensures
        copy@ == bytes@,
{
    let mut copy: Vec<u8> = Vec::with_capacity(bytes.len());
    copy.extend_from_slice(bytes);
    copy
}

/// Turns what the deflate encoder reported into the codec's own result: the
/// stream as it is, and an error as a compression failure that names the
/// step and quotes the error.
pub fn compression_outcome(reported: Result<Vec<u8>, DeflateFailure>) -> (result: Result<
    Vec<u8>,
    TileError,
>)
    ensures
        reported matches Ok(stored) ==> result == Ok::<Vec<u8>, TileError>(stored),
        reported matches Err(DeflateFailure::Write(_)) ==> exists|report: EncoderReport|
            report is Write && bytes_outcome(result) == Err::<Seq<u8>, Failure>(
                #[trigger] compression_failure(report),
            ),
        reported matches Err(DeflateFailure::Finish(_)) ==> exists|report: EncoderReport|
            report is Finish && bytes_outcome(result) == Err::<Seq<u8>, Failure>(
                #[trigger] compression_failure(report),
            ),
{
    match reported {
        Ok(stored) => Ok(stored),
        Err(DeflateFailure::Write(cause)) => {
            let mut message: String = "Could not compress payload using deflate-raw: ".to_owned();
            let detail: String = cause.to_string();
            message.append(detail.as_str());
            let error = TileError { code: TileErrorCode::CompressionFailed, message };
            assert(error@ == compression_failure(EncoderReport::Write(detail@)));
            Err(error)
        },
        Err(DeflateFailure::Finish(cause)) => {
            let mut message: String = "Could not finish deflate-raw compression: ".to_owned();
            let detail: String = cause.to_string();
            message.append(detail.as_str());
            let error = TileError { code: TileErrorCode::CompressionFailed, message };
            assert(error@ == compression_failure(EncoderReport::Finish(detail@)));
            Err(error)
        },
    }
}

/// Turns what the deflate decoder reported into the codec's own result: the
/// bytes as they are, and an error as a decompression failure that quotes it.
pub fn decompression_outcome(reported: Result<Vec<u8>, std::io::Error>) -> (result: Result<
    Vec<u8>,
    TileError,
>)
    ensures
        reported matches Ok(payload) ==> result == Ok::<Vec<u8>, TileError>(payload),
        reported is Err ==> exists|detail: Seq<char>|
            bytes_outcome(result) == Err::<Seq<u8>, Failure>(
                #[trigger] decompression_failure(detail),
            ),
{
    match reported {
        Ok(payload) => Ok(payload),
        Err(cause) => {
            let mut message: String = "Could not decompress payload using deflate-raw: ".to_owned();
            let detail: String = cause.to_string();
            message.append(detail.as_str());
            let error = TileError { code: TileErrorCode::DecompressionFailed, message };
            assert(error@ == decompression_failure(detail@));
            Err(error)
        },
    }
}

/// Stores `payload` under `mode`. It fails only where the deflate encoder
/// reports an error, with a message that names the step that failed and ends
/// in the encoder's own words.
pub fn compress_payload(mode: CompressionMode, payload: &[u8]) -> (result: Result<
    Vec<u8>,
    TileError,
>)
    ensures
        exists|report: EncoderReport|
            bytes_outcome(result) == #[trigger] compressed(mode, payload@, report),
{
    let result = match mode {
        CompressionMode::Uncompressed => Ok(copy_bytes(payload)),
        CompressionMode::DeflateRaw => compression_outcome(deflate_raw(payload)),
    };
    proof {
        if result is Ok {
            assert(bytes_outcome(result) == compressed(
                mode,
                payload@,
                EncoderReport::Write(Seq::empty()),
            ));
        } else {
            let refusal = bytes_outcome(result)->Err_0;
            let report = choose|report: EncoderReport|
                refusal == #[trigger] compression_failure(report);
            assert(bytes_outcome(result) == compressed(mode, payload@, report));
        }
    }
    result
}

/// Restores what `stored` holds under `mode`. It fails only where the
/// deflate decoder reports an error, with a message that ends in the
/// decoder's own words.
pub fn decompress_payload(mode: CompressionMode, stored: &[u8]) -> (result: Result<
    Vec<u8>,
    TileError,
>)
    ensures
        exists|detail: Seq<char>|
            bytes_outcome(result) == #[trigger] decompressed(mode, stored@, detail),
{
    let result = match mode {
        CompressionMode::Uncompressed => Ok(copy_bytes(stored)),
        CompressionMode::DeflateRaw => decompression_outcome(inflate_raw(stored)),
    };
    proof {
        if result is Ok {
            assert(bytes_outcome(result) == decompressed(mode, stored@, Seq::empty()));
        } else {
            let detail = choose|detail: Seq<char>|
                bytes_outcome(result) == Err::<Seq<u8>, Failure>(
                    #[trigger] decompression_failure(detail),
                );
            assert(bytes_outcome(result) == decompressed(mode, stored@, detail));
        }
    }
    result
}

} // verus!
