//! Codec for mesh data tiles: a fixed 58-byte header followed by a raw or
//! deflate-compressed grid of numeric samples.
//!
//! The crate is verified with Verus. Every function states what it returns,
//! failures and their messages included, over the spec functions that stand
//! beside it. What the format promises as a whole is proved in `lemma_`
//! functions. Stored samples and no-data values are read back ([`payload`],
//! [`no_data`]), and an XYZ identifier is accepted exactly when it names a
//! cell ([`tile_id`]). An encoded tile has a valid header and decodes to what
//! was encoded ([`tile`]), where the tile is no longer than a slice can be:
//! of a tile stored as it is this is proved outright, of a deflated one on
//! the condition that the deflate decoder restores what the encoder stored.
//! A change to the magic or the version of a header is refused as such, and
//! a change to any later header byte as a checksum mismatch, on the
//! condition that the change alters the CRC-32 of the header ([`tile`]).
//! Both conditions are statements about outside code, which this crate
//! calls and does not prove.
//!
//! Samples are exchanged as IEEE 754 binary64 bit patterns, the `u64` that
//! `f64::to_bits` gives: the codec reasons about them as integers
//! ([`binary64`], [`binary32`]).
//!
//! Three things are taken on trust from outside crates, each behind one
//! function with a stated contract: the CRC-32 checksum ([`checksum`]) and
//! the raw deflate encoder and decoder ([`compress`]).

pub mod binary32;
pub mod binary64;
pub mod byteorder;
pub mod checksum;
pub mod compress;
pub mod error;
pub mod header;
pub mod model;
pub mod no_data;
pub mod numeric;
pub mod payload;
pub mod power;
pub mod text;
pub mod tile;
pub mod tile_id;

pub use error::{TileError, TileErrorCode};
pub use model::{
    expected_payload_length, CompressionMode, DType, DecodedTile, EncodedTile, Endianness,
    MeshKind, TileDimensions, TileEncodeInput, TileHeader, TILE_FIXED_HEADER_LENGTH,
    TILE_VERSION_MAJOR,
};
pub use payload::{decode_payload_values, encode_payload_values};
pub use tile::{decode_tile_minimal, encode_tile, inspect_tile};
pub use tile_id::{assert_valid_xyz_tile_id, validate_tile_id_for_mesh_kind};
