//! What holds of every mesh and of every step on it.

use vstd::prelude::*;
use crate::adjacency::{facing, lemma_pos_id_valid, lemma_step_in_range, lemma_tile_pos_valid,
    pos_id, step, step_pos, tile_pos, tile_total, valid_pos, Pos};
use crate::octo::{buildable, mesh_tiles};
use crate::tile::{Direction, TileType};

verus! {

/// A mesh holds eight faces of `n * n` tiles; each tile stands at its own id
/// and is either a `Point` or a `Flat` tile.
pub proof fn lemma_mesh_count(n: int)
    requires
        buildable(n),
    ensures
        mesh_tiles(n).len() == 8 * (n * n),
        forall|id: int|
            0 <= id < 8 * (n * n) ==> {
                let tile = #[trigger] mesh_tiles(n)[id];
                &&& tile.tile_id == id
                &&& (tile.tile_type == TileType::Point) != (tile.tile_type == TileType::Flat)
            },
{
    assert(n * n >= 0) by (nonlinear_arith);
}

/// On every face, every row starts with a `Point` tile, and along the row
/// `Point` and `Flat` tiles take turns: the tile at column `col` is a `Point`
/// tile where `col` is even and a `Flat` tile where it is odd.
pub proof fn lemma_mesh_rows_alternate(n: int, face: int, row: int, col: int)
    requires
        buildable(n),
        0 <= face < 8,
        0 <= row < n,
        0 <= col <= 2 * row,
    ensures
        0 <= face * (n * n) + row * row + col < 8 * (n * n),
        mesh_tiles(n)[face * (n * n) + row * row + col].tile_type == (if col % 2 == 0 {
            TileType::Point
        } else {
            TileType::Flat
        }),
{
    let p = Pos { face, row, col };
    lemma_pos_id_valid(n, p);
    lemma_tile_pos_valid(n, pos_id(n, p));
}

/// Whether stepping back from where the step from `p` in direction `d` led,
/// in the reverse of the direction it gave, leads to `p` and the reverse of
/// `d`.
pub open spec fn undone(n: int, p: Pos, d: Direction) -> bool {
    let (q, e) = step_pos(n, p, d);
    step_pos(n, q, e.negated()) == (p, d.negated())
}

/// A step with heading `PosX` is undone by stepping back.
proof fn lemma_reverse_pos_x(n: int, p: Pos, d: Direction)
    requires
        valid_pos(n, p),
        facing(p.face, d) == Direction::PosX,
    ensures
        undone(n, p, d),
{
}

/// A step with heading `NegX` is undone by stepping back.
proof fn lemma_reverse_neg_x(n: int, p: Pos, d: Direction)
    requires
        valid_pos(n, p),
        facing(p.face, d) == Direction::NegX,
    ensures
        undone(n, p, d),
{
}

/// A step with heading `PosY` is undone by stepping back.
proof fn lemma_reverse_pos_y(n: int, p: Pos, d: Direction)
    requires
        valid_pos(n, p),
        facing(p.face, d) == Direction::PosY,
    ensures
        undone(n, p, d),
{
}

/// A step with heading `NegY` is undone by stepping back.
proof fn lemma_reverse_neg_y(n: int, p: Pos, d: Direction)
    requires
        valid_pos(n, p),
        facing(p.face, d) == Direction::NegY,
    ensures
        undone(n, p, d),
{
}

/// A step with heading `PosZ` is undone by stepping back.
proof fn lemma_reverse_pos_z(n: int, p: Pos, d: Direction)
    requires
        valid_pos(n, p),
        facing(p.face, d) == Direction::PosZ,
    ensures
        undone(n, p, d),
{
}

/// A step with heading `NegZ` is undone by stepping back.
proof fn lemma_reverse_neg_z(n: int, p: Pos, d: Direction)
    requires
        valid_pos(n, p),
        facing(p.face, d) == Direction::NegZ,
    ensures
        undone(n, p, d),
{
}

/// Stepping from a position and then stepping from where that led, in the
/// reverse of the direction it gave, leads back to the position, facing the
/// reverse of the first direction.
pub proof fn lemma_step_pos_reverse(n: int, p: Pos, d: Direction)
    requires
        valid_pos(n, p),
    ensures
        undone(n, p, d),
{
    match facing(p.face, d) {
        Direction::PosX => lemma_reverse_pos_x(n, p, d),
        Direction::NegX => lemma_reverse_neg_x(n, p, d),
        Direction::PosY => lemma_reverse_pos_y(n, p, d),
        Direction::NegY => lemma_reverse_neg_y(n, p, d),
        Direction::PosZ => lemma_reverse_pos_z(n, p, d),
        Direction::NegZ => lemma_reverse_neg_z(n, p, d),
    }
}

/// Stepping from a tile and then stepping from the tile reached, in the
/// reverse of the direction reached, leads back to the first tile, facing the
/// reverse of the first direction.
pub proof fn lemma_step_reverse(n: int, id: int, d: Direction)
    requires
        0 <= n,
        0 <= id < tile_total(n),
    ensures
        step(n, step(n, id, d).0, step(n, id, d).1.negated()) == (id, d.negated()),
{
    let p = tile_pos(n, id);
    lemma_tile_pos_valid(n, id);
    lemma_step_in_range(n, id, d);
    lemma_step_pos_reverse(n, p, d);
}

} // verus!
