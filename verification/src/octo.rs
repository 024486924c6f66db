//! The mesh: all tiles of the octahedron in id order, and the neighbour of a
//! tile in a direction.

use vstd::prelude::*;
use vstd::arithmetic::div_mod::{lemma_fundamental_div_mod, lemma_fundamental_div_mod_converse};
use crate::adjacency::{facing, left_of, lemma_step_in_range, lemma_tile_pos_valid, pos_id,
    pos_kind, right_of, step, step_pos, tile_pos, tile_total, valid_pos, Pos};
use crate::rows::{col_of, isqrt, lemma_col_bound, lemma_row_below, lemma_row_bounds,
    lemma_row_unique, lemma_square_monotone, lemma_square_succ, row_of};
use crate::tile::{kind_of, Direction, Tile, TileType};

verus! {

/// The tile with id `id` on a mesh whose faces have `n` rows.
pub open spec fn tile_at(n: int, id: int) -> Tile {
    Tile { tile_type: kind_of((id % (n * n)) as nat), tile_id: id as usize }
}

/// All tiles of a mesh whose faces have `n` rows, in id order.
pub open spec fn mesh_tiles(n: int) -> Seq<Tile> {
    Seq::new(tile_total(n) as nat, |id: int| tile_at(n, id))
}

/// A face size from which a mesh can be built: at least one row, and every
/// tile id fits the machine word.
pub open spec fn buildable(face_size: int) -> bool {
    1 <= face_size && tile_total(face_size) <= usize::MAX
}

/// Why a request to the mesh was turned down.
#[derive(Clone, Copy, Debug, PartialEq, Eq, Structural)]
pub enum MeshError {
    /// A mesh needs at least one row per face.
    ZeroFaceSize,
    /// The tile ids of a mesh this large do not fit the machine word.
    FaceSizeTooLarge,
    /// The tile id is not below the number of tiles of the mesh.
    TileOutOfRange,
}

/// The octahedral mesh: eight faces of `face_size * face_size` tiles each.
#[derive(Debug, PartialEq)]
pub struct Octo {
    face_size: usize,
    tile_grid: Vec<Tile>,
}

/// Products of a face count with the number of tiles of a face.
proof fn lemma_face_product(t: int, base: int)
    requires
        0 <= t <= 8,
        0 <= base,
    ensures
        0 <= t * base <= 8 * base,
        t < 8 ==> t * base + base <= 8 * base,
        t * base == base * t,
        (t + 1) * base == t * base + base,
{
    assert(0 <= t * base <= 8 * base && (t < 8 ==> t * base + base <= 8 * base) && t * base == base
        * t && (t + 1) * base == t * base + base) by (nonlinear_arith)
        requires
            0 <= t <= 8,
            0 <= base,
    ;
}

/// A tile of the mesh together with what locates it on its face.
struct Located {
    face_size: usize,
    face_base: usize,
    tile_id: usize,
    face_id: usize,
    index_id: usize,
    row: usize,
    tile_type: TileType,
}

impl Located {
    /// Where the tile lies.
    spec fn pos(self) -> Pos {
        Pos {
            face: self.face_id as int,
            row: self.row as int,
            col: self.index_id - self.row * self.row,
        }
    }

    spec fn wf(self) -> bool {
        &&& buildable(self.face_size as int)
        &&& self.face_base == self.face_size * self.face_size
        &&& valid_pos(self.face_size as int, self.pos())
        &&& self.tile_id == self.face_id * self.face_base + self.index_id
        &&& self.tile_type == pos_kind(self.pos())
    }

    /// Whether `next` is what one step from this tile in direction `d` gives.
    spec fn reaches(self, d: Direction, next: (usize, Direction)) -> bool {
        &&& next.0 == pos_id(
            self.face_size as int,
            step_pos(self.face_size as int, self.pos(), d).0,
        )
        &&& next.1 == step_pos(self.face_size as int, self.pos(), d).1
    }

    /// What the rows around this tile's row start with, and where this tile
    /// lies among them.
    proof fn lemma_rows(self)
        requires
            self.wf(),
        ensures
            self.row < self.face_size,
            self.row * self.row <= self.index_id <= self.row * self.row + 2 * self.row,
            self.index_id < self.face_base,
            (self.row + 1) * (self.row + 1) == self.row * self.row + 2 * self.row + 1,
            (self.row + 1) * (self.row + 1) <= self.face_base,
            (self.row - 1) * (self.row - 1) == self.row * self.row - 2 * self.row + 1,
            (self.face_size - 1) * (self.face_size - 1) == self.face_base - 2 * self.face_size + 1,
            self.row < self.face_size - 1 ==> (self.row + 2) * (self.row + 2) <= self.face_base,
            (self.row + 2) * (self.row + 2) == self.row * self.row + 4 * self.row + 4,
            self.row == self.face_size - 1 ==> self.row * self.row == (self.face_size - 1) * (
            self.face_size - 1),
            0 <= self.face_id < 8,
            self.tile_id == self.face_id * self.face_base + self.index_id,
            self.face_base == self.face_size as int * self.face_size as int,
            self.face_id * self.face_base + self.face_base <= 8 * self.face_base,
            (8 - self.face_id) * self.face_base == (7 - self.face_id) * self.face_base
                + self.face_base,
            0 <= (7 - self.face_id) * self.face_base,
            (7 - self.face_id) * self.face_base + self.face_id * self.face_base == 7
                * self.face_base,
            self.row < self.face_size - 1 ==> (self.row + 1) * (self.row + 1) <= (self.face_size
                - 1) * (self.face_size - 1),
            self.row == 0 ==> self.row * self.row == 0,
            self.row >= 1 ==> self.row * self.row >= 1,
    {
        let h = self.row as int;
        let n = self.face_size as int;
        lemma_square_succ(h);
        lemma_square_succ(h - 1);
        lemma_square_succ(h + 1);
        lemma_square_succ(n - 1);
        lemma_square_monotone(h + 1, n);
        if h < n - 1 {
            lemma_square_monotone(h + 2, n);
            lemma_square_monotone(h + 1, n - 1);
        }
        assert((h + 1 + 1) * (h + 1 + 1) == (h + 2) * (h + 2));
        assert((h - 1 + 1) * (h - 1 + 1) == h * h);
        assert((n - 1 + 1) * (n - 1 + 1) == n * n);
        if h == n - 1 {
            assert(h * h == (n - 1) * (n - 1));
        }
        lemma_face_product(self.face_id as int, self.face_base as int);
        lemma_face_product(7 - self.face_id, self.face_base as int);
        assert((7 - self.face_id) * self.face_base + self.face_id * self.face_base == 7
            * self.face_base) by (nonlinear_arith);
        lemma_square_monotone(0, h);
        if h >= 1 {
            lemma_square_monotone(1, h);
        }
    }

    /// The id of the first tile of face `face`.
    fn face_start(&self, face: usize) -> (id: usize)
        requires
            self.wf(),
            face <= 8,
        ensures
            id == face * (self.face_size as int * self.face_size as int),
            id <= 8 * self.face_base,
            face < 8 ==> id + self.face_base <= 8 * self.face_base,
    {
        proof {
            lemma_face_product(face as int, self.face_base as int);
        }
        self.face_base * face
    }
}

impl Located {
    /// One step with heading `+X`, towards the apex.
    fn step_pos_x(&self, orientation: Direction) -> (next: (usize, Direction))
        requires
            self.wf(),
            facing(self.face_id as int, orientation) == Direction::PosX,
        ensures
            self.reaches(orientation, next),
    {
        let h = self.row;
        proof {
            self.lemma_rows();
        }
        if self.index_id == 0 {
            let target = match self.face_id {
                5 => 7,
                4 => 6,
                1 => 3,
                0 => 2,
                _ => self.face_id - 2,
            };
            (self.face_start(target), orientation.negate())
        } else if self.index_id + 1 == (h + 1) * (h + 1) {
            let turned = match orientation {
                Direction::PosX => Direction::PosY,
                _ => Direction::NegY,
            };
            (self.face_start(right_face(self.face_id)) + (h - 1) * (h - 1), turned)
        } else if self.index_id == h * h {
            let turned = match orientation {
                Direction::PosX => Direction::NegZ,
                _ => Direction::PosZ,
            };
            (self.face_start(left_face(self.face_id)) + h * h - 1, turned)
        } else {
            (self.tile_id - 2 * h, orientation)
        }
    }

    /// One step with heading `-X`, towards the equator.
    fn step_neg_x(&self, orientation: Direction) -> (next: (usize, Direction))
        requires
            self.wf(),
            facing(self.face_id as int, orientation) == Direction::NegX,
        ensures
            self.reaches(orientation, next),
    {
        let h = self.row;
        proof {
            self.lemma_rows();
        }
        let last_row = (self.face_size - 1) * (self.face_size - 1);
        if self.index_id >= last_row {
            (self.face_start(8 - self.face_id) - self.index_id + last_row - 1, orientation)
        } else {
            (self.tile_id + 2 * (h + 1), orientation)
        }
    }

    /// One step with heading `+Y`.
    fn step_pos_y(&self, orientation: Direction) -> (next: (usize, Direction))
        requires
            self.wf(),
            facing(self.face_id as int, orientation) == Direction::PosY,
        ensures
            self.reaches(orientation, next),
    {
        let h = self.row;
        proof {
            self.lemma_rows();
        }
        match self.tile_type {
            TileType::Point => {
                if self.index_id == 0 {
                    (self.face_start(right_face(self.face_id)), orientation.rotate_quarter())
                } else if self.index_id == (h + 1) * (h + 1) - 1 {
                    (
                        self.face_start(right_face(self.face_id)) + h * h,
                        orientation.rotate_quarter(),
                    )
                } else {
                    (self.tile_id + 1, orientation)
                }
            },
            _ => {
                if self.index_id == (h + 1) * (h + 1) - 2 {
                    (
                        self.face_start(right_face(self.face_id)) + h * h + 1,
                        orientation.rotate_quarter(),
                    )
                } else {
                    (self.tile_id - 2 * h + 2, orientation)
                }
            },
        }
    }

    /// One step with heading `-Y`.
    fn step_neg_y(&self, orientation: Direction) -> (next: (usize, Direction))
        requires
            self.wf(),
            facing(self.face_id as int, orientation) == Direction::NegY,
        ensures
            self.reaches(orientation, next),
    {
        let h = self.row;
        proof {
            self.lemma_rows();
        }
        let last_row = (self.face_size - 1) * (self.face_size - 1);
        match self.tile_type {
            TileType::Flat => (self.tile_id - 1, orientation),
            _ => {
                if self.index_id == last_row {
                    let target = match self.face_id {
                        0 => 4,
                        4 => 0,
                        _ => 8 - self.face_id,
                    };
                    (self.face_start(target) + h * h, orientation)
                } else if h == self.face_size - 1 {
                    (self.face_start(8 - self.face_id) - self.index_id + last_row + 1, orientation)
                } else if self.index_id == h * h {
                    let turned = match orientation {
                        Direction::NegY => Direction::NegX,
                        _ => Direction::PosX,
                    };
                    (
                        self.face_start(left_face(self.face_id)) + (h + 1) * (h + 1) + 2 * (h + 1),
                        turned,
                    )
                } else {
                    (self.tile_id + 2 * (h + 1) - 2, orientation)
                }
            },
        }
    }

    /// One step with heading `+Z`.
    fn step_pos_z(&self, orientation: Direction) -> (next: (usize, Direction))
        requires
            self.wf(),
            facing(self.face_id as int, orientation) == Direction::PosZ,
        ensures
            self.reaches(orientation, next),
    {
        let h = self.row;
        proof {
            self.lemma_rows();
        }
        match self.tile_type {
            TileType::Point => {
                if self.index_id == self.face_base - 1 {
                    let target = match self.face_id {
                        0 => 6,
                        3 => 7,
                        7 => 3,
                        _ => 6 - self.face_id,
                    };
                    (self.face_start(target) + h * h + 2 * h, orientation)
                } else if self.index_id == (h + 1) * (h + 1) - 1 {
                    let turned = match orientation {
                        Direction::PosZ => Direction::NegX,
                        _ => Direction::PosX,
                    };
                    (self.face_start(right_face(self.face_id)) + self.index_id + 1, turned)
                } else if h == self.face_size - 1 {
                    (self.face_start(8 - self.face_id) - self.index_id + h * h - 3, orientation)
                } else {
                    (self.tile_id + 2 * (h + 1) + 2, orientation)
                }
            },
            _ => (self.tile_id + 1, orientation),
        }
    }

    /// One step with heading `-Z`.
    fn step_neg_z(&self, orientation: Direction) -> (next: (usize, Direction))
        requires
            self.wf(),
            facing(self.face_id as int, orientation) == Direction::NegZ,
        ensures
            self.reaches(orientation, next),
    {
        let h = self.row;
        proof {
            self.lemma_rows();
        }
        match self.tile_type {
            TileType::Point => {
                if self.index_id == 0 {
                    (self.face_start(left_face(self.face_id)), orientation.rotate_quarter())
                } else if self.index_id == h * h {
                    (
                        self.face_start(left_face(self.face_id)) + (h + 1) * (h + 1) - 1,
                        orientation.rotate_quarter(),
                    )
                } else {
                    (self.tile_id - 1, orientation)
                }
            },
            TileType::Flat => {
                if self.index_id == h * h + 1 {
                    (
                        self.face_start(left_face(self.face_id)) + h * h + 2 * (h - 1) + 1,
                        orientation.rotate_quarter(),
                    )
                } else {
                    (self.tile_id - 2 * h - 2, orientation)
                }
            },
        }
    }
}

/// The next face around the apex of the same hemisphere.
fn right_face(face: usize) -> (r: usize)
    requires
        face < 8,
    ensures
        r == right_of(face as int),
        r < 8,
{
    match face {
        3 => 0,
        7 => 4,
        _ => face + 1,
    }
}

/// The previous face around the apex of the same hemisphere.
fn left_face(face: usize) -> (r: usize)
    requires
        face < 8,
    ensures
        r == left_of(face as int),
        r < 8,
{
    match face {
        0 => 3,
        4 => 7,
        _ => face - 1,
    }
}

impl View for Octo {
    type V = Seq<Tile>;

    closed spec fn view(&self) -> Seq<Tile> {
        self.tile_grid@
    }
}

impl Clone for Octo {
    fn clone(&self) -> (copy: Self)
        ensures
            copy.size() == self.size(),
            copy@ == self@,
    {
        proof {
            use_type_invariant(self);
        }
        let tile_grid = self.tile_grid.clone();
        assert(tile_grid@ =~= self.tile_grid@);
        Octo { face_size: self.face_size, tile_grid }
    }
}

impl Octo {
    #[verifier::type_invariant]
    spec fn inv(self) -> bool {
        &&& buildable(self.face_size as int)
        &&& self.tile_grid@ == mesh_tiles(self.face_size as int)
    }

    /// The number of rows of each face.
    pub closed spec fn size(self) -> int {
        self.face_size as int
    }

    /// Builds the mesh whose faces have `face_size` rows.
    pub fn new(face_size: usize) -> (mesh: Octo)
        requires
            buildable(face_size as int),
        ensures
            mesh.size() == face_size,
            mesh@ == mesh_tiles(face_size as int),
    {
        let ghost n = face_size as int;
        assert(face_size * face_size <= 8 * (face_size * face_size)) by (nonlinear_arith);
        let face_base: usize = face_size * face_size;
        let mut tile_grid: Vec<Tile> = Vec::new();
        let mut i: usize = 0;
        while i < 8
            invariant
                i <= 8,
                buildable(n),
                n == face_size,
                face_base == n * n,
                tile_grid@.len() == i * face_base,
                forall|k: int| 0 <= k < tile_grid@.len() ==> tile_grid@[k] == tile_at(n, k),
            decreases 8 - i,
        {
            let mut h: usize = 0;
            let mut d: bool = true;
            let mut j: usize = 0;
            while j < face_base
                invariant
                    i < 8,
                    j <= face_base,
                    buildable(n),
                    n == face_size,
                    face_base == n * n,
                    h <= face_size,
                    j == 0 ==> h == 0 && d,
                    j > 0 ==> h == row_of((j - 1) as nat) + 1 && (d <==> col_of((j - 1) as nat) % 2
                        == 0),
                    tile_grid@.len() == i * face_base + j,
                    forall|k: int| 0 <= k < tile_grid@.len() ==> tile_grid@[k] == tile_at(n, k),
                decreases face_base - j,
            {
                proof {
                    lemma_square_monotone(h as int, n);
                    lemma_row_bounds(j as nat);
                    lemma_row_below(j as nat, n as nat);
                    lemma_col_bound(j as nat);
                    if j > 0 {
                        lemma_row_bounds((j - 1) as nat);
                        lemma_col_bound((j - 1) as nat);
                        lemma_square_succ(h as int - 1);
                        if j >= h * h {
                            lemma_row_unique(j as nat, h as nat);
                        } else {
                            lemma_row_unique(j as nat, (h - 1) as nat);
                        }
                    }
                }
                if j >= h * h {
                    h += 1;
                } else {
                    d = !d;
                }
                assert(h == row_of(j as nat) + 1);
                assert(d <==> col_of(j as nat) % 2 == 0);
                proof {
                    assert(0 <= i * face_base <= 7 * face_base) by (nonlinear_arith)
                        requires
                            0 <= i <= 7,
                            0 <= face_base,
                    ;
                    lemma_fundamental_div_mod_converse(
                        i * face_base + j,
                        face_base as int,
                        i as int,
                        j as int,
                    );
                }
                let tile = Tile::new(
                    match d {
                        false => TileType::Flat,
                        _ => TileType::Point,
                    },
                    face_size,
                    i,
                    j,
                );
                assert(tile == tile_at(n, i * face_base + j));
                tile_grid.push(tile);
                j += 1;
            }
            assert(i * face_base + face_base == (i + 1) * face_base) by (nonlinear_arith);
            i += 1;
        }
        assert(tile_grid@ =~= mesh_tiles(n));
        Octo { face_size, tile_grid }
    }

    /// The neighbour of tile `vector.0` in direction `vector.1`: the tile one
    /// step away, and the direction in which to go on from there.
    pub fn get_adjacent(&self, vector: (usize, Direction)) -> (next: (usize, Direction))
        requires
            vector.0 < tile_total(self.size()),
        ensures
            next.0 == step(self.size(), vector.0 as int, vector.1).0,
            next.1 == step(self.size(), vector.0 as int, vector.1).1,
            next.0 < tile_total(self.size()),
    {
        let ghost n = self.face_size as int;
        proof {
            use_type_invariant(self);
            lemma_tile_pos_valid(n, vector.0 as int);
            assert(n * n <= 8 * (n * n)) by (nonlinear_arith);
        }
        let face_base = self.face_size * self.face_size;
        let tile_id = vector.0;
        let face_id = tile_id / face_base;
        let orientation = vector.1;
        let correction = match face_id {
            _ if face_id > 3 => orientation.negate(),
            _ => orientation,
        };
        proof {
            lemma_face_product(face_id as int, face_base as int);
            lemma_fundamental_div_mod(tile_id as int, face_base as int);
        }
        let index_id = tile_id - face_id * face_base;
        let h = isqrt(index_id);
        let here = Located {
            face_size: self.face_size,
            face_base,
            tile_id,
            face_id,
            index_id,
            row: h,
            tile_type: self.tile_grid[tile_id].tile_type,
        };
        assert(here.pos() == tile_pos(n, tile_id as int));
        proof {
            lemma_step_in_range(n, tile_id as int, orientation);
        }
        match correction {
            Direction::PosX => here.step_pos_x(orientation),
            Direction::NegX => here.step_neg_x(orientation),
            Direction::PosY => here.step_pos_y(orientation),
            Direction::NegY => here.step_neg_y(orientation),
            Direction::PosZ => here.step_pos_z(orientation),
            Direction::NegZ => here.step_neg_z(orientation),
        }
    }

    /// Builds the mesh whose faces have `face_size` rows, or says why there is
    /// no such mesh.
    pub fn build(face_size: usize) -> (built: Result<Octo, MeshError>)
        ensures
            face_size == 0 <==> built == Err::<Octo, MeshError>(MeshError::ZeroFaceSize),
            face_size > 0 && tile_total(face_size as int) > usize::MAX <==> built == Err::<
                Octo,
                MeshError,
            >(MeshError::FaceSizeTooLarge),
            buildable(face_size as int) <==> built is Ok,
            built matches Ok(mesh) ==> mesh.size() == face_size && mesh@ == mesh_tiles(
                face_size as int,
            ),
    {
        if face_size == 0 {
            return Err(MeshError::ZeroFaceSize);
        }
        proof {
            assert(face_size * face_size <= 8 * (face_size * face_size)) by (nonlinear_arith);
        }
        match face_size.checked_mul(face_size) {
            None => Err(MeshError::FaceSizeTooLarge),
            Some(face_base) => match face_base.checked_mul(8) {
                None => Err(MeshError::FaceSizeTooLarge),
                Some(_) => Ok(Octo::new(face_size)),
            },
        }
    }

    /// The neighbour of tile `tile_id` in direction `direction`, or
    /// `TileOutOfRange` when the mesh has no such tile.
    pub fn step(&self, tile_id: usize, direction: Direction) -> (next: Result<
        (usize, Direction),
        MeshError,
    >)
        ensures
            tile_id < tile_total(self.size()) <==> next is Ok,
            next matches Err(e) ==> e == MeshError::TileOutOfRange,
            next matches Ok(to) ==> to.0 == step(self.size(), tile_id as int, direction).0 && to.1
                == step(self.size(), tile_id as int, direction).1 && to.0 < tile_total(self.size()),
    {
        if tile_id < self.tile_count() {
            Ok(self.get_adjacent((tile_id, direction)))
        } else {
            Err(MeshError::TileOutOfRange)
        }
    }

    /// The orientation of tile `tile_id`, or `TileOutOfRange` when the mesh has
    /// no such tile.
    pub fn tile_kind(&self, tile_id: usize) -> (kind: Result<TileType, MeshError>)
        ensures
            tile_id < tile_total(self.size()) <==> kind is Ok,
            kind matches Err(e) ==> e == MeshError::TileOutOfRange,
            kind matches Ok(k) ==> k == self@[tile_id as int].tile_type && k == pos_kind(
                tile_pos(self.size(), tile_id as int),
            ),
    {
        proof {
            use_type_invariant(self);
        }
        if tile_id < self.tile_grid.len() {
            proof {
                lemma_tile_pos_valid(self.face_size as int, tile_id as int);
            }
            Ok(self.tile_grid[tile_id].tile_type)
        } else {
            Err(MeshError::TileOutOfRange)
        }
    }

    /// The number of rows of each face.
    pub fn face_size(&self) -> (n: usize)
        ensures
            n == self.size(),
            buildable(n as int),
            self@ == mesh_tiles(n as int),
    {
        proof {
            use_type_invariant(self);
        }
        self.face_size
    }

    /// The number of tiles of the mesh.
    pub fn tile_count(&self) -> (count: usize)
        ensures
            count == tile_total(self.size()),
            count == self@.len(),
            count >= 8,
    {
        proof {
            use_type_invariant(self);
            assert(self.face_size * self.face_size >= 1) by (nonlinear_arith)
                requires
                    self.face_size >= 1,
            ;
        }
        self.tile_grid.len()
    }
}

} // verus!
