use octo::octo::{MeshError, Octo};
use octo::rows::isqrt;
use octo::tile::Direction::{NegX, NegY, NegZ, PosX, PosY, PosZ};
use octo::tile::{classify, Direction, Tile, TileType};

const DIRECTIONS: [Direction; 6] = [PosX, PosY, PosZ, NegX, NegY, NegZ];

/// Neighbours on the mesh of face size 3, one row per tile, one entry per
/// direction in the order of `DIRECTIONS`.
const NEIGHBOURS_3: [[(usize, Direction); 6]; 72] = [
    [(18, NegX), (9, PosZ), (10, NegX), (2, NegX), (30, NegX), (27, NegY)],
    [(27, NegZ), (2, PosY), (7, PosZ), (5, NegX), (35, NegX), (30, NegY)],
    [(0, PosX), (11, PosZ), (3, PosZ), (6, NegX), (1, NegY), (29, NegY)],
    [(9, PosY), (10, PosZ), (13, NegX), (7, NegX), (5, NegY), (2, NegZ)],
    [(30, NegZ), (5, PosY), (69, PosZ), (71, NegX), (40, NegY), (35, NegY)],
    [(1, PosX), (3, PosY), (6, PosZ), (70, NegX), (4, NegY), (34, NegY)],
    [(2, PosX), (7, PosY), (67, PosZ), (69, NegX), (71, NegY), (5, NegZ)],
    [(3, PosX), (14, PosZ), (8, PosZ), (68, NegX), (6, NegY), (1, NegZ)],
    [(10, PosY), (13, PosZ), (62, PosZ), (67, NegX), (69, NegY), (7, NegZ)],
    [(27, NegX), (18, PosZ), (19, NegX), (11, NegX), (3, NegX), (0, NegY)],
    [(0, NegZ), (11, PosY), (16, PosZ), (14, NegX), (8, NegX), (3, NegY)],
    [(9, PosX), (20, PosZ), (12, PosZ), (15, NegX), (10, NegY), (2, NegY)],
    [(18, PosY), (19, PosZ), (22, NegX), (16, NegX), (14, NegY), (11, NegZ)],
    [(3, NegZ), (14, PosY), (60, PosZ), (62, NegX), (67, NegY), (8, NegY)],
    [(10, PosX), (12, PosY), (15, PosZ), (61, NegX), (13, NegY), (7, NegY)],
    [(11, PosX), (16, PosY), (58, PosZ), (60, NegX), (62, NegY), (14, NegZ)],
    [(12, PosX), (23, PosZ), (17, PosZ), (59, NegX), (15, NegY), (10, NegZ)],
    [(19, PosY), (22, PosZ), (53, PosZ), (58, NegX), (60, NegY), (16, NegZ)],
    [(0, NegX), (27, PosZ), (28, NegX), (20, NegX), (12, NegX), (9, NegY)],
    [(9, NegZ), (20, PosY), (25, PosZ), (23, NegX), (17, NegX), (12, NegY)],
    [(18, PosX), (29, PosZ), (21, PosZ), (24, NegX), (19, NegY), (11, NegY)],
    [(27, PosY), (28, PosZ), (31, NegX), (25, NegX), (23, NegY), (20, NegZ)],
    [(12, NegZ), (23, PosY), (51, PosZ), (53, NegX), (58, NegY), (17, NegY)],
    [(19, PosX), (21, PosY), (24, PosZ), (52, NegX), (22, NegY), (16, NegY)],
    [(20, PosX), (25, PosY), (49, PosZ), (51, NegX), (53, NegY), (23, NegZ)],
    [(21, PosX), (32, PosZ), (26, PosZ), (50, NegX), (24, NegY), (19, NegZ)],
    [(28, PosY), (31, PosZ), (44, PosZ), (49, NegX), (51, NegY), (25, NegZ)],
    [(9, NegX), (0, PosZ), (1, NegX), (29, NegX), (21, NegX), (18, NegY)],
    [(18, NegZ), (29, PosY), (34, PosZ), (32, NegX), (26, NegX), (21, NegY)],
    [(27, PosX), (2, PosZ), (30, PosZ), (33, NegX), (28, NegY), (20, NegY)],
    [(0, PosY), (1, PosZ), (4, NegX), (34, NegX), (32, NegY), (29, NegZ)],
    [(21, NegZ), (32, PosY), (42, PosZ), (44, NegX), (49, NegY), (26, NegY)],
    [(28, PosX), (30, PosY), (33, PosZ), (43, NegX), (31, NegY), (25, NegY)],
    [(29, PosX), (34, PosY), (40, PosZ), (42, NegX), (44, NegY), (32, NegZ)],
    [(30, PosX), (5, PosZ), (35, PosZ), (41, NegX), (33, NegY), (28, NegZ)],
    [(1, PosY), (4, PosZ), (71, PosZ), (40, NegX), (42, NegY), (34, NegZ)],
    [(38, PosX), (66, PosX), (63, PosY), (54, PosX), (45, NegZ), (46, PosX)],
    [(41, PosX), (71, PosX), (66, PosY), (63, PosZ), (38, NegY), (43, NegZ)],
    [(42, PosX), (37, PosY), (65, PosY), (36, NegX), (47, NegZ), (39, NegZ)],
    [(43, PosX), (41, PosY), (38, PosZ), (45, NegY), (46, NegZ), (49, PosX)],
    [(35, PosX), (4, PosY), (71, PosY), (66, PosZ), (41, NegY), (33, NegZ)],
    [(34, PosX), (40, PosY), (70, PosY), (37, NegX), (39, NegY), (42, NegZ)],
    [(33, PosX), (35, PosY), (41, PosZ), (38, NegX), (43, NegY), (31, NegZ)],
    [(32, PosX), (42, PosY), (37, PosZ), (39, NegX), (50, NegZ), (44, NegZ)],
    [(31, PosX), (33, PosY), (43, PosZ), (46, NegY), (49, NegZ), (26, NegZ)],
    [(47, PosX), (39, PosX), (36, PosY), (63, PosX), (54, NegZ), (55, PosX)],
    [(50, PosX), (44, PosX), (39, PosY), (36, PosZ), (47, NegY), (52, NegZ)],
    [(51, PosX), (46, PosY), (38, PosY), (45, NegX), (56, NegZ), (48, NegZ)],
    [(52, PosX), (50, PosY), (47, PosZ), (54, NegY), (55, NegZ), (58, PosX)],
    [(26, PosX), (31, PosY), (44, PosY), (39, PosZ), (50, NegY), (24, NegZ)],
    [(25, PosX), (49, PosY), (43, PosY), (46, NegX), (48, NegY), (51, NegZ)],
    [(24, PosX), (26, PosY), (50, PosZ), (47, NegX), (52, NegY), (22, NegZ)],
    [(23, PosX), (51, PosY), (46, PosZ), (48, NegX), (59, NegZ), (53, NegZ)],
    [(22, PosX), (24, PosY), (52, PosZ), (55, NegY), (58, NegZ), (17, NegZ)],
    [(56, PosX), (48, PosX), (45, PosY), (36, PosX), (63, NegZ), (64, PosX)],
    [(59, PosX), (53, PosX), (48, PosY), (45, PosZ), (56, NegY), (61, NegZ)],
    [(60, PosX), (55, PosY), (47, PosY), (54, NegX), (65, NegZ), (57, NegZ)],
    [(61, PosX), (59, PosY), (56, PosZ), (63, NegY), (64, NegZ), (67, PosX)],
    [(17, PosX), (22, PosY), (53, PosY), (48, PosZ), (59, NegY), (15, NegZ)],
    [(16, PosX), (58, PosY), (52, PosY), (55, NegX), (57, NegY), (60, NegZ)],
    [(15, PosX), (17, PosY), (59, PosZ), (56, NegX), (61, NegY), (13, NegZ)],
    [(14, PosX), (60, PosY), (55, PosZ), (57, NegX), (68, NegZ), (62, NegZ)],
    [(13, PosX), (15, PosY), (61, PosZ), (64, NegY), (67, NegZ), (8, NegZ)],
    [(65, PosX), (57, PosX), (54, PosY), (45, PosX), (36, NegZ), (37, PosX)],
    [(68, PosX), (62, PosX), (57, PosY), (54, PosZ), (65, NegY), (70, NegZ)],
    [(69, PosX), (64, PosY), (56, PosY), (63, NegX), (38, NegZ), (66, NegZ)],
    [(70, PosX), (68, PosY), (65, PosZ), (36, NegY), (37, NegZ), (40, PosX)],
    [(8, PosX), (13, PosY), (62, PosY), (57, PosZ), (68, NegY), (6, NegZ)],
    [(7, PosX), (67, PosY), (61, PosY), (64, NegX), (66, NegY), (69, NegZ)],
    [(6, PosX), (8, PosY), (68, PosZ), (65, NegX), (70, NegY), (4, NegZ)],
    [(5, PosX), (69, PosY), (64, PosZ), (66, NegX), (41, NegZ), (71, NegZ)],
    [(4, PosX), (6, PosY), (70, PosZ), (37, NegY), (40, NegZ), (35, NegZ)],
];

/// Neighbours on the mesh of face size 2.
const NEIGHBOURS_2: [[(usize, Direction); 6]; 32] = [
    [(8, NegX), (4, PosZ), (5, NegX), (2, NegX), (15, NegX), (12, NegY)],
    [(12, NegZ), (2, PosY), (29, PosZ), (31, NegX), (17, NegY), (15, NegY)],
    [(0, PosX), (6, PosZ), (3, PosZ), (30, NegX), (1, NegY), (14, NegY)],
    [(4, PosY), (5, PosZ), (27, PosZ), (29, NegX), (31, NegY), (2, NegZ)],
    [(12, NegX), (8, PosZ), (9, NegX), (6, NegX), (3, NegX), (0, NegY)],
    [(0, NegZ), (6, PosY), (25, PosZ), (27, NegX), (29, NegY), (3, NegY)],
    [(4, PosX), (10, PosZ), (7, PosZ), (26, NegX), (5, NegY), (2, NegY)],
    [(8, PosY), (9, PosZ), (23, PosZ), (25, NegX), (27, NegY), (6, NegZ)],
    [(0, NegX), (12, PosZ), (13, NegX), (10, NegX), (7, NegX), (4, NegY)],
    [(4, NegZ), (10, PosY), (21, PosZ), (23, NegX), (25, NegY), (7, NegY)],
    [(8, PosX), (14, PosZ), (11, PosZ), (22, NegX), (9, NegY), (6, NegY)],
    [(12, PosY), (13, PosZ), (19, PosZ), (21, NegX), (23, NegY), (10, NegZ)],
    [(4, NegX), (0, PosZ), (1, NegX), (14, NegX), (11, NegX), (8, NegY)],
    [(8, NegZ), (14, PosY), (17, PosZ), (19, NegX), (21, NegY), (11, NegY)],
    [(12, PosX), (2, PosZ), (15, PosZ), (18, NegX), (13, NegY), (10, NegY)],
    [(0, PosY), (1, PosZ), (31, PosZ), (17, NegX), (19, NegY), (14, NegZ)],
    [(18, PosX), (31, PosX), (28, PosY), (24, PosX), (20, NegZ), (21, PosX)],
    [(15, PosX), (1, PosY), (31, PosY), (28, PosZ), (18, NegY), (13, NegZ)],
    [(14, PosX), (17, PosY), (30, PosY), (16, NegX), (22, NegZ), (19, NegZ)],
    [(13, PosX), (15, PosY), (18, PosZ), (20, NegY), (21, NegZ), (11, NegZ)],
    [(22, PosX), (19, PosX), (16, PosY), (28, PosX), (24, NegZ), (25, PosX)],
    [(11, PosX), (13, PosY), (19, PosY), (16, PosZ), (22, NegY), (9, NegZ)],
    [(10, PosX), (21, PosY), (18, PosY), (20, NegX), (26, NegZ), (23, NegZ)],
    [(9, PosX), (11, PosY), (22, PosZ), (24, NegY), (25, NegZ), (7, NegZ)],
    [(26, PosX), (23, PosX), (20, PosY), (16, PosX), (28, NegZ), (29, PosX)],
    [(7, PosX), (9, PosY), (23, PosY), (20, PosZ), (26, NegY), (5, NegZ)],
    [(6, PosX), (25, PosY), (22, PosY), (24, NegX), (30, NegZ), (27, NegZ)],
    [(5, PosX), (7, PosY), (26, PosZ), (28, NegY), (29, NegZ), (3, NegZ)],
    [(30, PosX), (27, PosX), (24, PosY), (20, PosX), (16, NegZ), (17, PosX)],
    [(3, PosX), (5, PosY), (27, PosY), (24, PosZ), (30, NegY), (1, NegZ)],
    [(2, PosX), (29, PosY), (26, PosY), (28, NegX), (18, NegZ), (31, NegZ)],
    [(1, PosX), (3, PosY), (30, PosZ), (16, NegY), (17, NegZ), (15, NegZ)],
];

fn ring_length(mesh: &Octo, start: (usize, Direction)) -> usize {
    let limit = 6 * mesh.tile_count() + 1;
    let mut current = mesh.get_adjacent(start);
    let mut steps = 1;
    while current != start && steps < limit {
        current = mesh.get_adjacent(current);
        steps += 1;
    }
    assert_eq!(current, start);
    steps
}

#[test]
fn tile_count_is_eight_faces_of_squares() {
    for n in 1..=12usize {
        let mesh = Octo::new(n);
        assert_eq!(mesh.tile_count(), 8 * n * n);
        assert_eq!(mesh.face_size(), n);
    }
}

#[test]
fn every_tile_in_range_has_a_kind() {
    let mesh = Octo::new(5);
    for id in 0..mesh.tile_count() {
        let kind = mesh.tile_kind(id);
        assert!(kind == Ok(TileType::Point) || kind == Ok(TileType::Flat));
    }
    assert_eq!(mesh.tile_kind(mesh.tile_count()), Err(MeshError::TileOutOfRange));
}

#[test]
fn rows_start_with_point_and_alternate() {
    let n = 6usize;
    let mesh = Octo::new(n);
    for face in 0..8usize {
        for row in 0..n {
            let first = face * n * n + row * row;
            assert_eq!(mesh.tile_kind(first), Ok(TileType::Point));
            for k in 0..2 * row {
                assert_ne!(mesh.tile_kind(first + k), mesh.tile_kind(first + k + 1));
            }
            assert_eq!(mesh.tile_kind(first + 2 * row), Ok(TileType::Point));
        }
    }
}

#[test]
fn classify_gives_kind_and_row() {
    assert_eq!(classify(1, 0), (TileType::Point, 0));
    assert_eq!(classify(3, 0), (TileType::Point, 0));
    assert_eq!(classify(3, 1), (TileType::Point, 1));
    assert_eq!(classify(3, 2), (TileType::Flat, 1));
    assert_eq!(classify(3, 3), (TileType::Point, 1));
    assert_eq!(classify(3, 4), (TileType::Point, 2));
    assert_eq!(classify(3, 5), (TileType::Flat, 2));
    assert_eq!(classify(3, 7), (TileType::Flat, 2));
    assert_eq!(classify(3, 8), (TileType::Point, 2));
    assert_eq!(classify(10, 99), (TileType::Point, 9));
    assert_eq!(classify(10, 82), (TileType::Flat, 9));
}

#[test]
fn isqrt_is_the_floor_of_the_root() {
    assert_eq!(isqrt(0), 0);
    assert_eq!(isqrt(1), 1);
    assert_eq!(isqrt(2), 1);
    assert_eq!(isqrt(3), 1);
    assert_eq!(isqrt(4), 2);
    assert_eq!(isqrt(8), 2);
    assert_eq!(isqrt(9), 3);
    assert_eq!(isqrt(99), 9);
    assert_eq!(isqrt(100), 10);
    assert_eq!(isqrt(16_777_215), 4095);
    assert_eq!(isqrt(16_777_216), 4096);
    assert_eq!(isqrt(4_294_836_224), 65534);
    assert_eq!(isqrt(4_294_836_225), 65535);
    assert_eq!(isqrt(1_000_000_000_000 - 1), 999_999);
    assert_eq!(isqrt(18_446_744_065_119_617_025), 4_294_967_295);
    assert_eq!(isqrt(18_446_744_065_119_617_024), 4_294_967_294);
    assert_eq!(isqrt(usize::MAX), 4_294_967_295);
    for r in 0..2000usize {
        assert_eq!(isqrt(r * r), r);
        assert_eq!(isqrt(r * r + 2 * r), r);
    }
}

#[test]
fn tile_new_places_the_tile_on_its_face() {
    let tile = Tile::new(TileType::Flat, 3, 2, 5);
    assert_eq!(tile.tile_id, 23);
    assert_eq!(tile.tile_type, TileType::Flat);
    let tile = Tile::new(TileType::Point, 10, 7, 99);
    assert_eq!(tile.tile_id, 799);
    assert_eq!(tile.tile_type, TileType::Point);
    let tile = Tile::new(TileType::Point, 4, 0, 0);
    assert_eq!(tile, Tile { tile_type: TileType::Point, tile_id: 0 });
}

#[test]
fn negate_swaps_each_axis() {
    assert_eq!(Direction::PosX.negate(), Direction::NegX);
    assert_eq!(Direction::PosY.negate(), Direction::NegY);
    assert_eq!(Direction::PosZ.negate(), Direction::NegZ);
    assert_eq!(Direction::NegX.negate(), Direction::PosX);
    assert_eq!(Direction::NegY.negate(), Direction::PosY);
    assert_eq!(Direction::NegZ.negate(), Direction::PosZ);
    for d in DIRECTIONS {
        assert_eq!(d.negate().negate(), d);
    }
}

#[test]
fn rotate_quarter_swaps_y_with_z() {
    assert_eq!(Direction::PosX.rotate_quarter(), Direction::NegX);
    assert_eq!(Direction::PosY.rotate_quarter(), Direction::PosZ);
    assert_eq!(Direction::PosZ.rotate_quarter(), Direction::PosY);
    assert_eq!(Direction::NegX.rotate_quarter(), Direction::PosX);
    assert_eq!(Direction::NegY.rotate_quarter(), Direction::NegZ);
    assert_eq!(Direction::NegZ.rotate_quarter(), Direction::NegY);
    for d in DIRECTIONS {
        assert_eq!(d.rotate_quarter().rotate_quarter(), d);
        assert_eq!(d.rotate_quarter().rotate_quarter().rotate_quarter().rotate_quarter(), d);
    }
}

#[test]
fn neighbours_on_face_size_three() {
    let mesh = Octo::new(3);
    for id in 0..72usize {
        for (k, d) in DIRECTIONS.into_iter().enumerate() {
            assert_eq!(mesh.get_adjacent((id, d)), NEIGHBOURS_3[id][k], "tile {} {:?}", id, d);
        }
    }
}

#[test]
fn neighbours_on_face_size_two() {
    let mesh = Octo::new(2);
    for id in 0..32usize {
        for (k, d) in DIRECTIONS.into_iter().enumerate() {
            assert_eq!(mesh.step(id, d), Ok(NEIGHBOURS_2[id][k]), "tile {} {:?}", id, d);
        }
    }
}

#[test]
fn interior_steps_shift_the_id() {
    let mesh = Octo::new(10);
    // On face 0, tile 30 is the Flat tile at column 5 of row 5,
    // and tile 20 the Point tile at column 4 of row 4.
    assert_eq!(mesh.get_adjacent((30, Direction::PosX)), (20, Direction::PosX));
    assert_eq!(mesh.get_adjacent((30, Direction::NegX)), (42, Direction::NegX));
    assert_eq!(mesh.get_adjacent((30, Direction::PosY)), (22, Direction::PosY));
    assert_eq!(mesh.get_adjacent((30, Direction::NegY)), (29, Direction::NegY));
    assert_eq!(mesh.get_adjacent((30, Direction::PosZ)), (31, Direction::PosZ));
    assert_eq!(mesh.get_adjacent((30, Direction::NegZ)), (18, Direction::NegZ));
    assert_eq!(mesh.get_adjacent((20, Direction::PosX)), (12, Direction::PosX));
    assert_eq!(mesh.get_adjacent((20, Direction::NegX)), (30, Direction::NegX));
    assert_eq!(mesh.get_adjacent((20, Direction::PosY)), (21, Direction::PosY));
    assert_eq!(mesh.get_adjacent((20, Direction::NegY)), (28, Direction::NegY));
    assert_eq!(mesh.get_adjacent((20, Direction::PosZ)), (32, Direction::PosZ));
    assert_eq!(mesh.get_adjacent((20, Direction::NegZ)), (19, Direction::NegZ));
}

#[test]
fn lower_hemisphere_reads_directions_reversed() {
    let mesh = Octo::new(10);
    // The same two tiles on face 5.
    assert_eq!(mesh.get_adjacent((530, Direction::NegX)), (520, Direction::NegX));
    assert_eq!(mesh.get_adjacent((530, Direction::PosX)), (542, Direction::PosX));
    assert_eq!(mesh.get_adjacent((530, Direction::NegY)), (522, Direction::NegY));
    assert_eq!(mesh.get_adjacent((530, Direction::PosY)), (529, Direction::PosY));
    assert_eq!(mesh.get_adjacent((520, Direction::NegZ)), (532, Direction::NegZ));
    assert_eq!(mesh.get_adjacent((520, Direction::PosZ)), (519, Direction::PosZ));
}

#[test]
fn seams_turn_the_direction() {
    let mesh = Octo::new(3);
    assert_eq!(mesh.get_adjacent((0, Direction::PosX)), (18, Direction::NegX));
    assert_eq!(mesh.get_adjacent((0, Direction::PosY)), (9, Direction::PosZ));
    assert_eq!(mesh.get_adjacent((0, Direction::NegZ)), (27, Direction::NegY));
    assert_eq!(mesh.get_adjacent((3, Direction::PosX)), (9, Direction::PosY));
    assert_eq!(mesh.get_adjacent((1, Direction::PosX)), (27, Direction::NegZ));
    assert_eq!(mesh.get_adjacent((1, Direction::NegY)), (35, Direction::NegX));
    assert_eq!(mesh.get_adjacent((3, Direction::PosZ)), (13, Direction::NegX));
    assert_eq!(mesh.get_adjacent((36, Direction::NegX)), (54, Direction::PosX));
}

#[test]
fn equator_crossings_keep_the_direction() {
    let mesh = Octo::new(3);
    assert_eq!(mesh.get_adjacent((4, Direction::NegX)), (71, Direction::NegX));
    assert_eq!(mesh.get_adjacent((6, Direction::NegX)), (69, Direction::NegX));
    assert_eq!(mesh.get_adjacent((4, Direction::NegY)), (40, Direction::NegY));
    assert_eq!(mesh.get_adjacent((6, Direction::NegY)), (71, Direction::NegY));
    assert_eq!(mesh.get_adjacent((8, Direction::PosZ)), (62, Direction::PosZ));
    assert_eq!(mesh.get_adjacent((4, Direction::PosZ)), (69, Direction::PosZ));
}

#[test]
fn stepping_back_undoes_a_step() {
    for n in 1..=7usize {
        let mesh = Octo::new(n);
        for id in 0..mesh.tile_count() {
            for d in DIRECTIONS {
                let (to, facing) = mesh.get_adjacent((id, d));
                assert!(to < mesh.tile_count());
                assert_eq!(mesh.get_adjacent((to, facing.negate())), (id, d.negate()));
            }
        }
    }
}

#[test]
fn every_ring_closes_within_the_tile_count() {
    for n in 1..=7usize {
        let mesh = Octo::new(n);
        for id in 0..mesh.tile_count() {
            for d in DIRECTIONS {
                let steps = ring_length(&mesh, (id, d));
                assert!(steps <= mesh.tile_count());
                assert_eq!(steps, 4 * n);
            }
        }
    }
}

#[test]
fn rings_in_pos_x_return_to_their_start_tile_facing_pos_x() {
    let size = 10usize;
    let mesh = Octo::new(size);
    for start_tile in 0..size * size * 8 {
        let start_direction = Direction::PosX;
        let mut current = mesh.get_adjacent((start_tile, start_direction));
        let mut steps = 1;
        while current.0 != start_tile {
            assert!(steps < 800);
            current = mesh.get_adjacent(current);
            steps += 1;
        }
        assert_eq!(current, (start_tile, start_direction));
    }
}

#[test]
fn face_size_three_apex_and_ring() {
    let mesh = Octo::new(3);
    assert_eq!(mesh.tile_count(), 72);
    assert_eq!(mesh.tile_kind(0), Ok(TileType::Point));
    let (to, _) = mesh.get_adjacent((0, Direction::NegZ));
    assert_eq!(to / 9, 3);
    let start = (0usize, Direction::NegZ);
    let mut current = mesh.get_adjacent(start);
    let mut steps = 1;
    while current != start {
        assert!(steps < 72);
        current = mesh.get_adjacent(current);
        steps += 1;
    }
    assert!(steps <= 72);
    assert_eq!(current, (0, Direction::NegZ));
}

#[test]
fn face_size_one_is_the_bare_octahedron() {
    let mesh = Octo::new(1);
    assert_eq!(mesh.tile_count(), 8);
    for id in 0..8usize {
        assert_eq!(mesh.tile_kind(id), Ok(TileType::Point));
        for d in DIRECTIONS {
            let (to, _) = mesh.get_adjacent((id, d));
            assert!(to < 8);
            assert_ne!(to, id);
            let steps = ring_length(&mesh, (id, d));
            assert!(steps == 4 || steps == 8);
        }
    }
}

#[test]
fn build_rejects_face_size_zero() {
    assert_eq!(Octo::build(0).err(), Some(MeshError::ZeroFaceSize));
}

#[test]
fn build_rejects_a_face_size_whose_ids_overflow() {
    assert_eq!(Octo::build(usize::MAX).err(), Some(MeshError::FaceSizeTooLarge));
    assert_eq!(Octo::build(usize::MAX / 2).err(), Some(MeshError::FaceSizeTooLarge));
}

#[test]
fn build_gives_the_same_mesh_as_new() {
    for n in 1..=5usize {
        let built = Octo::build(n);
        assert_eq!(built, Ok(Octo::new(n)));
    }
}

#[test]
fn step_rejects_a_tile_outside_the_mesh() {
    let mesh = Octo::new(3);
    assert_eq!(mesh.step(72, Direction::PosX), Err(MeshError::TileOutOfRange));
    assert_eq!(mesh.step(usize::MAX, Direction::NegZ), Err(MeshError::TileOutOfRange));
    assert_eq!(mesh.step(71, Direction::NegX), Ok((37, Direction::NegY)));
}

#[test]
fn clone_keeps_the_mesh() {
    let mesh = Octo::new(4);
    let copy = mesh.clone();
    assert_eq!(copy, mesh);
    assert_eq!(copy.tile_count(), 128);
    assert_eq!(copy.get_adjacent((17, Direction::PosY)), mesh.get_adjacent((17, Direction::PosY)));
}
