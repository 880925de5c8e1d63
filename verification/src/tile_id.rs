//! Validation of the 64-bit tile identifier against the mesh kind.
//!
//! An XYZ identifier packs a quadtree address: the top 6 bits hold the zoom
//! level, the low 58 bits the quadkey, which must name one of the `4^zoom`
//! cells of that level.

use vstd::prelude::*;
use vstd::arithmetic::power::pow;
use crate::error::{failure, outcome, Failure, TileError, TileErrorCode};
use crate::model::MeshKind;
use crate::power::{lemma_pow4_is_pow2, power_of_two};
use crate::text::{decimal_text, push_decimal};

verus! {

/// Number of quadkeys an identifier can hold: `2^58`.
pub const XYZ_QUADKEY_SPAN: u64 = 0x0400_0000_0000_0000;

/// Deepest zoom level an XYZ identifier may name.
pub const XYZ_MAX_ZOOM: u64 = 29;

/// The zoom level packed into the top 6 bits.
pub open spec fn xyz_zoom(tile_id: u64) -> nat {
    (tile_id / XYZ_QUADKEY_SPAN) as nat
}

/// The quadkey packed into the low 58 bits.
pub open spec fn xyz_quadkey(tile_id: u64) -> nat {
    (tile_id % XYZ_QUADKEY_SPAN) as nat
}

/// The identifier names a cell that exists: its zoom is at most 29 and its
/// quadkey is below `4^zoom`.
pub open spec fn valid_xyz_tile_id(tile_id: u64) -> bool {
    xyz_zoom(tile_id) <= XYZ_MAX_ZOOM && xyz_quadkey(tile_id) < pow(4, xyz_zoom(tile_id))
}

/// Whether `tile_id` is acceptable for `mesh_kind`. Only XYZ constrains it.
pub open spec fn tile_id_accepted(tile_id: u64, mesh_kind: MeshKind) -> bool {
    mesh_kind == MeshKind::Xyz ==> valid_xyz_tile_id(tile_id)
}

/// The identifier that packs `zoom` and `quadkey`.
pub open spec fn xyz_tile_id(zoom: nat, quadkey: nat) -> nat {
    zoom * (XYZ_QUADKEY_SPAN as nat) + quadkey
}

/// What checking an XYZ identifier yields: nothing for a valid one, and for
/// another the failure that names what is wrong with it, the zoom first.
pub open spec fn xyz_checked(tile_id: u64) -> Result<(), Failure> {
    if xyz_zoom(tile_id) > XYZ_MAX_ZOOM {
        Err(
            failure(
                TileErrorCode::InvalidFieldValue,
                "XYZ tile_id zoom must be <= 29, got "@ + decimal_text(xyz_zoom(tile_id)) + "."@,
            ),
        )
    } else if xyz_quadkey(tile_id) >= pow(4, xyz_zoom(tile_id)) {
        Err(
            failure(
                TileErrorCode::InvalidFieldValue,
                "XYZ tile_id quadkey_integer must be < 4^zoom."@,
            ),
        )
    } else {
        Ok(())
    }
}

/// What checking an identifier against its mesh kind yields.
pub open spec fn tile_id_checked(tile_id: u64, mesh_kind: MeshKind) -> Result<(), Failure> {
    match mesh_kind {
        MeshKind::Xyz => xyz_checked(tile_id),
        MeshKind::JisX0410 => Ok(()),
    }
}

/// An identifier passes the check exactly when it is accepted, and fails it
/// with an invalid field value.
pub proof fn lemma_tile_id_checked(tile_id: u64, mesh_kind: MeshKind)
    ensures
        tile_id_checked(tile_id, mesh_kind) is Ok <==> tile_id_accepted(tile_id, mesh_kind),
        xyz_checked(tile_id) is Ok <==> valid_xyz_tile_id(tile_id),
        tile_id_checked(tile_id, mesh_kind) matches Err(refusal) ==> refusal.code
            == TileErrorCode::InvalidFieldValue,
{
}

/// Checks that an XYZ identifier names a cell that exists.
pub fn assert_valid_xyz_tile_id(tile_id: u64) -> (result: Result<(), TileError>)
    ensures
        outcome(result) == xyz_checked(tile_id),
{
    let zoom: u64 = tile_id / XYZ_QUADKEY_SPAN;
    if zoom > XYZ_MAX_ZOOM {
        let mut message: String = "XYZ tile_id zoom must be <= 29, got ".to_owned();
        push_decimal(&mut message, zoom);
        message.append(".");
        return Err(TileError { code: TileErrorCode::InvalidFieldValue, message });
    }
    let quadkey: u64 = tile_id % XYZ_QUADKEY_SPAN;
    let cells: u64 = power_of_two((2 * zoom) as u32);
    proof {
        lemma_pow4_is_pow2(zoom as nat);
    }
    if quadkey >= cells {
        return Err(
            TileError::new(
                TileErrorCode::InvalidFieldValue,
                "XYZ tile_id quadkey_integer must be < 4^zoom.",
            ),
        );
    }
    Ok(())
}

/// Checks an identifier against the rules of its mesh kind.
pub fn validate_tile_id_for_mesh_kind(tile_id: u64, mesh_kind: MeshKind) -> (result: Result<
    (),
    TileError,
>)
    ensures
        outcome(result) == tile_id_checked(tile_id, mesh_kind),
{
    match mesh_kind {
        MeshKind::Xyz => assert_valid_xyz_tile_id(tile_id),
        MeshKind::JisX0410 => Ok(()),
    }
}

/// Packing a zoom level below 64 and a quadkey below `2^58` gives an
/// identifier from which both are read back.
pub proof fn lemma_xyz_tile_id_unpacks(zoom: nat, quadkey: nat)
    requires
        zoom < 64,
        quadkey < XYZ_QUADKEY_SPAN,
    ensures
        xyz_tile_id(zoom, quadkey) <= u64::MAX,
        xyz_zoom(xyz_tile_id(zoom, quadkey) as u64) == zoom,
        xyz_quadkey(xyz_tile_id(zoom, quadkey) as u64) == quadkey,
{
}

/// An XYZ identifier packed from `zoom` and `quadkey` is accepted exactly
/// when `zoom` is at most 29 and `quadkey` is below `4^zoom`: every cell of
/// every level up to 29 passes the check, and zoom 30 and beyond, or a
/// quadkey past the level's last cell, fails it with an invalid field value.
/// For the other mesh kind every identifier passes.
pub proof fn lemma_xyz_identifier_law(zoom: nat, quadkey: nat)
    requires
        zoom < 64,
        quadkey < XYZ_QUADKEY_SPAN,
    ensures
        xyz_tile_id(zoom, quadkey) <= u64::MAX,
        valid_xyz_tile_id(xyz_tile_id(zoom, quadkey) as u64) <==> (zoom <= 29 && quadkey < pow(
            4,
            zoom,
        )),
        tile_id_checked(xyz_tile_id(zoom, quadkey) as u64, MeshKind::Xyz) is Ok <==> (zoom <= 29
            && quadkey < pow(4, zoom)),
        tile_id_checked(xyz_tile_id(zoom, quadkey) as u64, MeshKind::Xyz) matches Err(refusal)
            ==> refusal.code == TileErrorCode::InvalidFieldValue,
        tile_id_checked(xyz_tile_id(zoom, quadkey) as u64, MeshKind::JisX0410) is Ok,
{
    lemma_xyz_tile_id_unpacks(zoom, quadkey);
}

} // verus!
