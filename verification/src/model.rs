//! The vocabulary of the tile format: closed enumerations with their storage
//! codes, the grid dimensions, and the values that encode and decode exchange.

use vstd::prelude::*;
use crate::error::{failure, outcome, Failure, TileError, TileErrorCode};
use crate::text::{decimal_text, push_decimal};

verus! {

/// Length in bytes of the fixed header that starts every tile.
pub const TILE_FIXED_HEADER_LENGTH: usize = 58;

/// The only format version this codec reads and writes.
pub const TILE_VERSION_MAJOR: u8 = 1;

/// The failure for a code that names no member of an enumeration: an invalid
/// field value, whose message is `stem`, the code and a full stop.
fn invalid_code(stem: &str, code: u8) -> (error: TileError)
    ensures
        error@ == failure(
            TileErrorCode::InvalidFieldValue,
            stem@ + decimal_text(code as nat) + "."@,
        ),
{
    let mut message: String = stem.to_owned();
    push_decimal(&mut message, code as u64);
    message.append(".");
    TileError { code: TileErrorCode::InvalidFieldValue, message }
}

/// The addressing scheme a tile identifier belongs to.
#[derive(Debug, Clone, Copy, PartialEq, Eq, Structural)]
pub enum MeshKind {
    JisX0410,
    Xyz,
}

impl MeshKind {
    /// The code that stores the mesh kind.
    pub open spec fn spec_code(self) -> u8 {
        match self {
            MeshKind::JisX0410 => 1,
            MeshKind::Xyz => 2,
        }
    }

    /// The kind stored under `code`, if there is one.
    pub open spec fn of_code(code: u8) -> Result<MeshKind, Failure> {
        if code == 1 {
            Ok(MeshKind::JisX0410)
        } else if code == 2 {
            Ok(MeshKind::Xyz)
        } else {
            Err(
                failure(
                    TileErrorCode::InvalidFieldValue,
                    "Invalid mesh_kind code "@ + decimal_text(code as nat) + "."@,
                ),
            )
        }
    }

    /// The code that stores the mesh kind.
    #[verifier::when_used_as_spec(spec_code)]
    pub fn code(self) -> (code: u8)
        ensures
            code == self.spec_code(),
    {
        match self {
            MeshKind::JisX0410 => 1,
            MeshKind::Xyz => 2,
        }
    }

    /// The mesh kind that `code` stores, or the failure where it stores none.
    pub fn from_code(code: u8) -> (result: Result<MeshKind, TileError>)
        ensures
            outcome(result) == MeshKind::of_code(code),
    {
        if code == 1 {
            Ok(MeshKind::JisX0410)
        } else if code == 2 {
            Ok(MeshKind::Xyz)
        } else {
            Err(invalid_code("Invalid mesh_kind code ", code))
        }
    }
}

/// Byte order of multi-byte samples and of the no-data field.
#[derive(Debug, Clone, Copy, PartialEq, Eq, Structural)]
pub enum Endianness {
    Little,
    Big,
}

/// The numeric kind of every sample of a tile.
#[derive(Debug, Clone, Copy, PartialEq, Eq, Structural)]
pub enum DType {
    Uint8,
    Int8,
    Uint16,
    Int16,
    Uint32,
    Int32,
    Float32,
    Float64,
}

impl DType {
    /// The code that stores the sample kind.
    pub open spec fn spec_code(self) -> u8 {
        match self {
            DType::Uint8 => 0,
            DType::Int8 => 1,
            DType::Uint16 => 2,
            DType::Int16 => 3,
            DType::Uint32 => 4,
            DType::Int32 => 5,
            DType::Float32 => 6,
            DType::Float64 => 7,
        }
    }

    /// The kind stored under `code`, if there is one.
    pub open spec fn of_code(code: u8) -> Result<DType, Failure> {
        if code == 0 {
            Ok(DType::Uint8)
        } else if code == 1 {
            Ok(DType::Int8)
        } else if code == 2 {
            Ok(DType::Uint16)
        } else if code == 3 {
            Ok(DType::Int16)
        } else if code == 4 {
            Ok(DType::Uint32)
        } else if code == 5 {
            Ok(DType::Int32)
        } else if code == 6 {
            Ok(DType::Float32)
        } else if code == 7 {
            Ok(DType::Float64)
        } else {
            Err(
                failure(
                    TileErrorCode::InvalidFieldValue,
                    "Unsupported packed dtype code "@ + decimal_text(code as nat) + "."@,
                ),
            )
        }
    }

    /// Width in bytes of one stored sample.
    pub open spec fn width(self) -> nat {
        match self {
            DType::Uint8 | DType::Int8 => 1,
            DType::Uint16 | DType::Int16 => 2,
            DType::Uint32 | DType::Int32 | DType::Float32 => 4,
            DType::Float64 => 8,
        }
    }

    /// Whether samples of this kind are whole numbers.
    pub open spec fn is_integer(self) -> bool {
        self != DType::Float32 && self != DType::Float64
    }

    /// Smallest value an integer kind can store.
    pub open spec fn min_value(self) -> int {
        match self {
            DType::Int8 => -0x80,
            DType::Int16 => -0x8000,
            DType::Int32 => -0x8000_0000,
            _ => 0,
        }
    }

    /// Largest value an integer kind can store.
    pub open spec fn max_value(self) -> int {
        match self {
            DType::Uint8 => 0xff,
            DType::Int8 => 0x7f,
            DType::Uint16 => 0xffff,
            DType::Int16 => 0x7fff,
            DType::Uint32 => 0xffff_ffff,
            DType::Int32 => 0x7fff_ffff,
            _ => 0,
        }
    }

    /// The code that stores the sample kind.
    #[verifier::when_used_as_spec(spec_code)]
    pub fn code(self) -> (code: u8)
        ensures
            code == self.spec_code(),
    {
        match self {
            DType::Uint8 => 0,
            DType::Int8 => 1,
            DType::Uint16 => 2,
            DType::Int16 => 3,
            DType::Uint32 => 4,
            DType::Int32 => 5,
            DType::Float32 => 6,
            DType::Float64 => 7,
        }
    }

    /// The sample kind that `code` stores, or the failure where it stores none.
    pub fn from_code(code: u8) -> (result: Result<DType, TileError>)
        ensures
            outcome(result) == DType::of_code(code),
    {
        match code {
            0 => Ok(DType::Uint8),
            1 => Ok(DType::Int8),
            2 => Ok(DType::Uint16),
            3 => Ok(DType::Int16),
            4 => Ok(DType::Uint32),
            5 => Ok(DType::Int32),
            6 => Ok(DType::Float32),
            7 => Ok(DType::Float64),
            _ => Err(invalid_code("Unsupported packed dtype code ", code)),
        }
    }

    /// Width in bytes of one stored sample.
    pub fn byte_size(self) -> (size: usize)
        ensures
            size == self.width(),
    {
        match self {
            DType::Uint8 | DType::Int8 => 1,
            DType::Uint16 | DType::Int16 => 2,
            DType::Uint32 | DType::Int32 | DType::Float32 => 4,
            DType::Float64 => 8,
        }
    }
}

/// How the sample bytes are stored behind the header.
#[derive(Debug, Clone, Copy, PartialEq, Eq, Structural)]
pub enum CompressionMode {
    Uncompressed,
    DeflateRaw,
}

impl Default for CompressionMode {
    /// A payload is stored as it is unless asked otherwise.
    fn default() -> (mode: CompressionMode)
        ensures
            mode == CompressionMode::Uncompressed,
    {
        CompressionMode::Uncompressed
    }
}

impl CompressionMode {
    /// The code that stores the compression mode.
    pub open spec fn spec_code(self) -> u8 {
        match self {
            CompressionMode::Uncompressed => 0,
            CompressionMode::DeflateRaw => 1,
        }
    }

    /// The mode stored under `code`, if there is one.
    pub open spec fn of_code(code: u8) -> Result<CompressionMode, Failure> {
        if code == 0 {
            Ok(CompressionMode::Uncompressed)
        } else if code == 1 {
            Ok(CompressionMode::DeflateRaw)
        } else {
            Err(
                failure(
                    TileErrorCode::InvalidFieldValue,
                    "Invalid compression code "@ + decimal_text(code as nat) + "."@,
                ),
            )
        }
    }

    /// The code that stores the compression mode.
    #[verifier::when_used_as_spec(spec_code)]
    pub fn code(self) -> (code: u8)
        ensures
            code == self.spec_code(),
    {
        match self {
            CompressionMode::Uncompressed => 0,
            CompressionMode::DeflateRaw => 1,
        }
    }

    /// The compression mode that `code` stores, or the failure where it stores none.
    pub fn from_code(code: u8) -> (result: Result<CompressionMode, TileError>)
        ensures
            outcome(result) == CompressionMode::of_code(code),
    {
        if code == 0 {
            Ok(CompressionMode::Uncompressed)
        } else if code == 1 {
            Ok(CompressionMode::DeflateRaw)
        } else {
            Err(invalid_code("Invalid compression code ", code))
        }
    }
}

/// The extent of the sample grid.
#[derive(Debug, Clone, Copy, PartialEq, Eq, Structural)]
pub struct TileDimensions {
    pub rows: u32,
    pub cols: u32,
    pub bands: u8,
}

impl TileDimensions {
    /// All three extents are strictly positive.
    pub open spec fn well_formed(self) -> bool {
        self.rows > 0 && self.cols > 0 && self.bands > 0
    }

    /// Number of samples in the grid, as a mathematical integer.
    pub open spec fn sample_count(self) -> nat {
        (self.rows as nat) * (self.cols as nat) * (self.bands as nat)
    }

    /// Number of payload bytes a grid of this extent takes for `dtype`.
    pub open spec fn payload_length(self, dtype: DType) -> nat {
        self.sample_count() * dtype.width()
    }

    /// What `validate` yields.
    pub open spec fn validated(self) -> Result<(), Failure> {
        if self.well_formed() {
            Ok(())
        } else {
            Err(failure(TileErrorCode::InvalidFieldValue, "rows, cols, and bands must be > 0."@))
        }
    }

    /// What `total_samples` yields.
    pub open spec fn counted(self) -> Result<u64, Failure> {
        if self.sample_count() <= u64::MAX {
            Ok(self.sample_count() as u64)
        } else {
            Err(
                failure(
                    TileErrorCode::InvalidFieldValue,
                    "Invalid dimensions resulting in overflowed sample count."@,
                ),
            )
        }
    }

    /// Checks that all three extents are strictly positive.
    pub fn validate(self) -> (result: Result<(), TileError>)
        ensures
            outcome(result) == self.validated(),
    {
        if self.rows == 0 || self.cols == 0 || self.bands == 0 {
            return Err(
                TileError::new(
                    TileErrorCode::InvalidFieldValue,
                    "rows, cols, and bands must be > 0.",
                ),
            );
        }
        Ok(())
    }

    /// The number of samples in the grid, where a `u64` holds it.
    pub fn total_samples(self) -> (result: Result<u64, TileError>)
        ensures
            outcome(result) == self.counted(),
    {
        let rows: u64 = self.rows as u64;
        let cols: u64 = self.cols as u64;
        let bands: u64 = self.bands as u64;
        assert(rows * cols <= 0xffff_ffff * 0xffff_ffff) by (nonlinear_arith)
            requires
                rows <= 0xffff_ffff,
                cols <= 0xffff_ffff,
        ;
        let cells: u64 = rows * cols;
        match cells.checked_mul(bands) {
            Some(total) => Ok(total),
            None => Err(
                TileError::new(
                    TileErrorCode::InvalidFieldValue,
                    "Invalid dimensions resulting in overflowed sample count.",
                ),
            ),
        }
    }
}

/// Payload length in bytes that `dimensions` and `dtype` imply: the number
/// of samples times the width of one. A length that no `u64` holds, be it
/// that the number of samples alone is too large, and a length that the
/// platform's `usize` does not hold are invalid payload lengths.
pub open spec fn expected_length(dimensions: TileDimensions, dtype: DType) -> Result<
    usize,
    Failure,
> {
    if dimensions.payload_length(dtype) > u64::MAX {
        Err(failure(TileErrorCode::InvalidPayloadLength, "Payload length overflow."@))
    } else if dimensions.payload_length(dtype) > usize::MAX {
        Err(
            failure(
                TileErrorCode::InvalidPayloadLength,
                "Payload length exceeds platform usize."@,
            ),
        )
    } else {
        Ok(dimensions.payload_length(dtype) as usize)
    }
}

/// The payload length in bytes that the grid extent and the sample kind imply.
pub fn expected_payload_length(dimensions: TileDimensions, dtype: DType) -> (result: Result<
    usize,
    TileError,
>)
    ensures
        outcome(result) == expected_length(dimensions, dtype),
{
    let width: u64 = dtype.byte_size() as u64;
    proof {
        let samples = dimensions.sample_count();
        assert(samples * width >= samples) by (nonlinear_arith)
            requires
                width >= 1,
        ;
    }
    let byte_len: Option<u64> = match dimensions.total_samples() {
        Ok(total_samples) => total_samples.checked_mul(width),
        Err(_) => None,
    };
    let byte_len: u64 = match byte_len {
        Some(len) => len,
        None => {
            return Err(
                TileError::new(TileErrorCode::InvalidPayloadLength, "Payload length overflow."),
            );
        },
    };
    if byte_len > usize::MAX as u64 {
        return Err(
            TileError::new(
                TileErrorCode::InvalidPayloadLength,
                "Payload length exceeds platform usize.",
            ),
        );
    }
    Ok(byte_len as usize)
}

/// Everything the fixed header of a tile says. Sample values, here the
/// no-data value, are carried as IEEE 754 binary64 bit patterns.
#[derive(Debug, Clone, PartialEq)]
pub struct TileHeader {
    pub format_major: u8,
    pub tile_id: u64,
    pub mesh_kind: MeshKind,
    pub dtype: DType,
    pub endianness: Endianness,
    pub compression: CompressionMode,
    pub dimensions: TileDimensions,
    pub no_data_kind: u8,
    pub no_data_value_raw: [u8; 8],
    pub no_data: Option<u64>,
    pub payload_uncompressed_bytes: u64,
    pub payload_compressed_bytes: u64,
    pub payload_crc32: u32,
    pub header_crc32: u32,
}

/// A request to encode one tile. The payload is the flat sample bytes, in
/// the byte order that `endianness` names.
#[derive(Debug, Clone)]
pub struct TileEncodeInput<'a> {
    pub tile_id: u64,
    pub mesh_kind: MeshKind,
    pub dtype: DType,
    pub endianness: Endianness,
    pub compression: CompressionMode,
    pub dimensions: TileDimensions,
    pub no_data: Option<u64>,
    pub payload: &'a [u8],
}

/// An encoded tile: the bytes and the header they start with.
#[derive(Debug, Clone, PartialEq)]
pub struct EncodedTile {
    pub bytes: Vec<u8>,
    pub header: TileHeader,
}

/// A decoded tile: the header and the recovered sample bytes.
#[derive(Debug, Clone, PartialEq)]
pub struct DecodedTile {
    pub header: TileHeader,
    pub payload: Vec<u8>,
}

} // verus!
