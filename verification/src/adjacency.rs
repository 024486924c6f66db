//! The mathematical model of the octahedron's surface and of one step on it.
//!
//! A tile is addressed by its face, its row within the face and its column
//! within the row. Faces 0 to 3 surround one apex of the octahedron, faces 4 to
//! 7 the opposite one. Row 0 of a face is the single tile at the apex; row
//! `face_size - 1` lies on the equator, where face `f` meets face `7 - f`.
//!
//! A direction is read relative to the hemisphere of the tile it leaves: on
//! faces 4 to 7 every direction means its opposite. The direction so read is
//! called the heading. `-X` heads for the equator, `+X` for the apex; `+Y` and
//! `-Z` head for the neighbouring faces of the same hemisphere.

use vstd::prelude::*;
use vstd::arithmetic::div_mod::{lemma_fundamental_div_mod, lemma_fundamental_div_mod_converse,
    lemma_mod_pos_bound};
use crate::rows::{col_of, lemma_col_bound, lemma_row_below, lemma_row_col, lemma_square_monotone,
    lemma_square_succ, row_of};
use crate::tile::{kind_of, Direction, TileType};

verus! {

/// Where a tile lies: face, row within the face, column within the row.
pub struct Pos {
    pub face: int,
    pub row: int,
    pub col: int,
}

/// `p` addresses a tile of a mesh whose faces have `n` rows.
pub open spec fn valid_pos(n: int, p: Pos) -> bool {
    &&& 0 <= p.face < 8
    &&& 0 <= p.row < n
    &&& 0 <= p.col <= 2 * p.row
}

/// The number of tiles of a mesh whose faces have `n` rows.
pub open spec fn tile_total(n: int) -> int {
    8 * (n * n)
}

/// The id of the tile at `p`.
pub open spec fn pos_id(n: int, p: Pos) -> int {
    p.face * (n * n) + p.row * p.row + p.col
}

/// The position of the tile with id `id`.
pub open spec fn tile_pos(n: int, id: int) -> Pos {
    let local = (id % (n * n)) as nat;
    Pos { face: id / (n * n), row: row_of(local) as int, col: col_of(local) as int }
}

/// The orientation of the tile at `p`.
pub open spec fn pos_kind(p: Pos) -> TileType {
    if p.col % 2 == 0 {
        TileType::Point
    } else {
        TileType::Flat
    }
}

/// The next face around the apex of the same hemisphere.
pub open spec fn right_of(f: int) -> int {
    if f == 3 {
        0
    } else if f == 7 {
        4
    } else {
        f + 1
    }
}

/// The previous face around the apex of the same hemisphere.
pub open spec fn left_of(f: int) -> int {
    if f == 0 {
        3
    } else if f == 4 {
        7
    } else {
        f - 1
    }
}

/// The face on the other side of the apex.
pub open spec fn across(f: int) -> int {
    right_of(right_of(f))
}

/// The face of the other hemisphere that shares this face's equator edge.
pub open spec fn mirror(f: int) -> int {
    7 - f
}

/// A direction leaving face `f`, read in the frame of that face's hemisphere;
/// applied to a heading, the direction that has it on face `f`.
pub open spec fn facing(f: int, d: Direction) -> Direction {
    if f >= 4 {
        d.negated()
    } else {
        d
    }
}

/// One step from `p` with heading `+X`, towards the apex.
pub open spec fn advance_pos_x(p: Pos) -> (Pos, Direction) {
    if p.row == 0 {
        (Pos { face: across(p.face), row: 0, col: 0 }, Direction::NegX)
    } else if p.col == 2 * p.row {
        (Pos { face: right_of(p.face), row: p.row - 1, col: 0 }, Direction::PosY)
    } else if p.col == 0 {
        (Pos { face: left_of(p.face), row: p.row - 1, col: 2 * (p.row - 1) }, Direction::NegZ)
    } else {
        (Pos { face: p.face, row: p.row - 1, col: p.col - 1 }, Direction::PosX)
    }
}

/// One step from `p` with heading `-X`, towards the equator.
pub open spec fn advance_neg_x(n: int, p: Pos) -> (Pos, Direction) {
    if p.row == n - 1 {
        (Pos { face: mirror(p.face), row: p.row, col: 2 * p.row - p.col }, Direction::NegX)
    } else {
        (Pos { face: p.face, row: p.row + 1, col: p.col + 1 }, Direction::NegX)
    }
}

/// One step from `p` with heading `+Y`.
pub open spec fn advance_pos_y(p: Pos) -> (Pos, Direction) {
    if p.col % 2 == 0 {
        if p.col == 2 * p.row {
            (Pos { face: right_of(p.face), row: p.row, col: 0 }, Direction::PosZ)
        } else {
            (Pos { face: p.face, row: p.row, col: p.col + 1 }, Direction::PosY)
        }
    } else {
        if p.col == 2 * p.row - 1 {
            (Pos { face: right_of(p.face), row: p.row, col: 1 }, Direction::PosZ)
        } else {
            (Pos { face: p.face, row: p.row - 1, col: p.col + 1 }, Direction::PosY)
        }
    }
}

/// One step from `p` with heading `-Y`.
pub open spec fn advance_neg_y(n: int, p: Pos) -> (Pos, Direction) {
    if p.col % 2 != 0 {
        (Pos { face: p.face, row: p.row, col: p.col - 1 }, Direction::NegY)
    } else if p.row == n - 1 {
        if p.col == 0 {
            (Pos { face: mirror(left_of(p.face)), row: p.row, col: 0 }, Direction::NegY)
        } else {
            (Pos { face: mirror(p.face), row: p.row, col: 2 * p.row + 2 - p.col }, Direction::NegY)
        }
    } else if p.col == 0 {
        (Pos { face: left_of(p.face), row: p.row + 1, col: 2 * (p.row + 1) }, Direction::NegX)
    } else {
        (Pos { face: p.face, row: p.row + 1, col: p.col - 1 }, Direction::NegY)
    }
}

/// One step from `p` with heading `+Z`.
pub open spec fn advance_pos_z(n: int, p: Pos) -> (Pos, Direction) {
    if p.col % 2 != 0 {
        (Pos { face: p.face, row: p.row, col: p.col + 1 }, Direction::PosZ)
    } else if p.row == n - 1 {
        if p.col == 2 * p.row {
            (Pos { face: mirror(right_of(p.face)), row: p.row, col: p.col }, Direction::PosZ)
        } else {
            (Pos { face: mirror(p.face), row: p.row, col: 2 * p.row - 2 - p.col }, Direction::PosZ)
        }
    } else if p.col == 2 * p.row {
        (Pos { face: right_of(p.face), row: p.row + 1, col: 0 }, Direction::NegX)
    } else {
        (Pos { face: p.face, row: p.row + 1, col: p.col + 3 }, Direction::PosZ)
    }
}

/// One step from `p` with heading `-Z`.
pub open spec fn advance_neg_z(p: Pos) -> (Pos, Direction) {
    if p.col % 2 == 0 {
        if p.col == 0 {
            (Pos { face: left_of(p.face), row: p.row, col: 2 * p.row }, Direction::NegY)
        } else {
            (Pos { face: p.face, row: p.row, col: p.col - 1 }, Direction::NegZ)
        }
    } else {
        if p.col == 1 {
            (Pos { face: left_of(p.face), row: p.row, col: 2 * p.row - 1 }, Direction::NegY)
        } else {
            (Pos { face: p.face, row: p.row - 1, col: p.col - 3 }, Direction::NegZ)
        }
    }
}

/// One step from `p` with the given heading: the tile reached, and the heading
/// there, both read in the frame of the hemisphere that the step leaves.
pub open spec fn advance(n: int, p: Pos, heading: Direction) -> (Pos, Direction) {
    match heading {
        Direction::PosX => advance_pos_x(p),
        Direction::NegX => advance_neg_x(n, p),
        Direction::PosY => advance_pos_y(p),
        Direction::NegY => advance_neg_y(n, p),
        Direction::PosZ => advance_pos_z(n, p),
        Direction::NegZ => advance_neg_z(p),
    }
}

/// One step from `p` in direction `d`: the tile reached and the direction in
/// which to go on from there.
pub open spec fn step_pos(n: int, p: Pos, d: Direction) -> (Pos, Direction) {
    let (q, heading) = advance(n, p, facing(p.face, d));
    (q, facing(p.face, heading))
}

/// One step from the tile `id` in direction `d`, by ids.
pub open spec fn step(n: int, id: int, d: Direction) -> (int, Direction) {
    let (q, e) = step_pos(n, tile_pos(n, id), d);
    (pos_id(n, q), e)
}

/// Every id below the tile total has a valid position, which gives the id back.
pub proof fn lemma_tile_pos_valid(n: int, id: int)
    requires
        0 <= n,
        0 <= id < tile_total(n),
    ensures
        valid_pos(n, tile_pos(n, id)),
        pos_id(n, tile_pos(n, id)) == id,
        pos_kind(tile_pos(n, id)) == kind_of((id % (n * n)) as nat),
{
    let base = n * n;
    assert(base > 0) by (nonlinear_arith)
        requires
            base == n * n,
            0 <= id < 8 * base,
    ;
    assert(n > 0) by (nonlinear_arith)
        requires
            0 <= n,
            n * n > 0,
    ;
    lemma_fundamental_div_mod(id, base);
    lemma_mod_pos_bound(id, base);
    let face = id / base;
    let local = (id % base) as nat;
    assert(0 <= face < 8) by (nonlinear_arith)
        requires
            id == base * face + local,
            0 <= local < base,
            0 <= id < 8 * base,
    ;
    assert(base * face == face * base) by (nonlinear_arith);
    lemma_row_below(local, n as nat);
    lemma_col_bound(local);
}

/// Every valid position has an id below the tile total, which gives the
/// position back.
pub proof fn lemma_pos_id_valid(n: int, p: Pos)
    requires
        valid_pos(n, p),
    ensures
        0 <= pos_id(n, p) < tile_total(n),
        tile_pos(n, pos_id(n, p)) == p,
{
    let base = n * n;
    let local = p.row * p.row + p.col;
    lemma_square_succ(p.row);
    lemma_square_monotone(p.row + 1, n);
    lemma_square_monotone(0, p.row);
    assert(0 <= local < base);
    assert(0 <= p.face * base <= 7 * base) by (nonlinear_arith)
        requires
            0 <= p.face <= 7,
            0 <= base,
    ;
    lemma_fundamental_div_mod_converse(pos_id(n, p), base, p.face, local);
    lemma_row_col(p.row as nat, p.col as nat);
}

/// A step from a valid position ends on a valid position.
pub proof fn lemma_step_pos_valid(n: int, p: Pos, d: Direction)
    requires
        valid_pos(n, p),
    ensures
        valid_pos(n, step_pos(n, p, d).0),
{
}

/// A step from a tile of the mesh ends on a tile of the mesh.
pub proof fn lemma_step_in_range(n: int, id: int, d: Direction)
    requires
        0 <= n,
        0 <= id < tile_total(n),
    ensures
        0 <= step(n, id, d).0 < tile_total(n),
        tile_pos(n, step(n, id, d).0) == step_pos(n, tile_pos(n, id), d).0,
{
    lemma_tile_pos_valid(n, id);
    lemma_step_pos_valid(n, tile_pos(n, id), d);
    lemma_pos_id_valid(n, step_pos(n, tile_pos(n, id), d).0);
}

} // verus!
