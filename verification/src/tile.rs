//! Tiles, their two orientations, and the six directions of travel.

use vstd::prelude::*;
use crate::rows::{col_of, isqrt, lemma_col_bound, lemma_row_below, lemma_row_col, row_of};

verus! {

/// Orientation of a unit triangle within its row.
#[derive(Clone, Copy, Debug, PartialEq, Eq, Structural)]
pub enum TileType {
    /// Apex-up triangle.
    Point,
    /// Base-up triangle.
    Flat,
}

/// One of the six signed axis directions in which a neighbour can be requested.
#[derive(Clone, Copy, Debug, PartialEq, Eq, Structural)]
pub enum Direction {
    PosX,
    PosY,
    PosZ,
    NegX,
    NegY,
    NegZ,
}

impl Direction {
    /// Full reversal: every axis direction is sent to its opposite.
    pub open spec fn negated(self) -> Direction {
        match self {
            Direction::PosX => Direction::NegX,
            Direction::PosY => Direction::NegY,
            Direction::PosZ => Direction::NegZ,
            Direction::NegX => Direction::PosX,
            Direction::NegY => Direction::PosY,
            Direction::NegZ => Direction::PosZ,
        }
    }

    /// Quarter rotation of the local frame: the two X directions trade places,
    /// and so do `+Y` with `+Z` and `-Y` with `-Z`.
    pub open spec fn rotated(self) -> Direction {
        match self {
            Direction::PosX => Direction::NegX,
            Direction::PosY => Direction::PosZ,
            Direction::PosZ => Direction::PosY,
            Direction::NegX => Direction::PosX,
            Direction::NegY => Direction::NegZ,
            Direction::NegZ => Direction::NegY,
        }
    }

    /// Reverses the direction.
    #[verifier::when_used_as_spec(negated)]
    pub fn negate(self) -> (r: Direction)
        ensures
            r == self.negated(),
    {
        match self {
            Direction::PosX => Direction::NegX,
            Direction::PosY => Direction::NegY,
            Direction::PosZ => Direction::NegZ,
            Direction::NegX => Direction::PosX,
            Direction::NegY => Direction::PosY,
            Direction::NegZ => Direction::PosZ,
        }
    }

    /// Rotates the direction by a quarter turn of the local frame.
    #[verifier::when_used_as_spec(rotated)]
    pub fn rotate_quarter(self) -> (r: Direction)
        ensures
            r == self.rotated(),
    {
        match self {
            Direction::PosX => Direction::NegX,
            Direction::PosY => Direction::PosZ,
            Direction::PosZ => Direction::PosY,
            Direction::NegX => Direction::PosX,
            Direction::NegY => Direction::NegZ,
            Direction::NegZ => Direction::NegY,
        }
    }
}

/// Reversing twice gives the direction back.
pub proof fn lemma_negate_involution(d: Direction)
    ensures
        d.negated().negated() == d,
        d.negated() != d,
{
}

/// Two quarter rotations give the direction back, hence so do four; the pair
/// of X directions is mapped onto itself.
pub proof fn lemma_rotate_quarter_period(d: Direction)
    ensures
        d.rotated().rotated() == d,
        d.rotated().rotated().rotated().rotated() == d,
        (d == Direction::PosX || d == Direction::NegX) <==> (d.rotated() == Direction::PosX
            || d.rotated() == Direction::NegX),
{
}

/// The orientation of the tile at local index `i` of a face: rows start with a
/// `Point` tile and alternate from there.
pub open spec fn kind_of(i: nat) -> TileType {
    if col_of(i) % 2 == 0 {
        TileType::Point
    } else {
        TileType::Flat
    }
}

/// Every row starts with a `Point` tile, and along its `2 * row + 1` tiles
/// each tile's orientation differs from that of the tile before it.
pub proof fn lemma_row_alternation(row: nat, k: nat)
    requires
        k <= 2 * row,
    ensures
        row_of(row * row + k) == row,
        kind_of(row * row) == TileType::Point,
        kind_of(row * row + k) == (if k % 2 == 0 {
            TileType::Point
        } else {
            TileType::Flat
        }),
        k < 2 * row ==> kind_of(row * row + k) != kind_of(row * row + k + 1),
{
    lemma_row_col(row, 0);
    lemma_row_col(row, k);
    if k < 2 * row {
        lemma_row_col(row, k + 1);
    }
}

/// Classifies local index `local_index` of a face of size `face_size`: the
/// tile's orientation and the row it lies in.
pub fn classify(face_size: usize, local_index: usize) -> (r: (TileType, usize))
    requires
        local_index < face_size * face_size,
    ensures
        r.0 == kind_of(local_index as nat),
        r.1 == row_of(local_index as nat),
        r.1 < face_size,
{
    let row = isqrt(local_index);
    proof {
        lemma_row_below(local_index as nat, face_size as nat);
        lemma_col_bound(local_index as nat);
    }
    let col = local_index - row * row;
    if col % 2 == 0 {
        (TileType::Point, row)
    } else {
        (TileType::Flat, row)
    }
}

/// One unit triangle of the mesh.
#[derive(Clone, Copy, Debug, PartialEq, Eq, Structural)]
pub struct Tile {
    pub tile_type: TileType,
    pub tile_id: usize,
}

impl Tile {
    /// The tile of orientation `tile_type` at local index `index_id` of face
    /// `face_id`, on a mesh whose faces have `face_size * face_size` tiles.
    pub fn new(tile_type: TileType, face_size: usize, face_id: usize, index_id: usize) -> (tile:
        Tile)
        requires
            face_size * face_size <= usize::MAX,
            face_id * (face_size * face_size) + index_id <= usize::MAX,
        ensures
            tile.tile_type == tile_type,
            tile.tile_id == face_id * (face_size * face_size) + index_id,
    {
        let face_base = face_size * face_size;
        assert(face_id * face_base >= 0) by (nonlinear_arith)
            requires
                face_id >= 0,
                face_base >= 0,
        ;
        Tile { tile_id: face_id * face_base + index_id, tile_type }
    }
}

} // verus!
