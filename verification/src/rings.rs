//! Rings: walking on in the direction that each step hands back.
//!
//! On one face a walk follows a straight line of tiles, kept by one of the
//! three pairs of opposite headings. Where the line leaves the face, the step
//! that crosses the seam begins a line on the next face. Every walk passes
//! through four or eight such lines, `4 * face_size` tiles in all, and is then
//! back where it began.

use vstd::prelude::*;
use crate::adjacency::{across, advance, facing, left_of, lemma_step_in_range,
    lemma_step_pos_valid, lemma_tile_pos_valid, mirror, pos_id, right_of, step, step_pos, tile_pos,
    tile_total, valid_pos, Pos};
use crate::tile::Direction;

verus! {

/// Where `k` steps lead from position `p` when the first is taken in
/// direction `d` and each later one in the direction that the step before it
/// gave.
pub open spec fn walk(n: int, p: Pos, d: Direction, k: nat) -> (Pos, Direction)
    decreases k,
{
    if k == 0 {
        (p, d)
    } else {
        let (q, e) = step_pos(n, p, d);
        walk(n, q, e, (k - 1) as nat)
    }
}

/// Where `k` steps lead from tile `id`, by ids.
pub open spec fn travel(n: int, id: int, d: Direction, k: nat) -> (int, Direction)
    decreases k,
{
    if k == 0 {
        (id, d)
    } else {
        let (to, e) = step(n, id, d);
        travel(n, to, e, (k - 1) as nat)
    }
}

/// A walk stays on the mesh.
pub proof fn lemma_walk_valid(n: int, p: Pos, d: Direction, k: nat)
    requires
        valid_pos(n, p),
    ensures
        valid_pos(n, walk(n, p, d, k).0),
    decreases k,
{
    if k > 0 {
        let (q, e) = step_pos(n, p, d);
        lemma_step_pos_valid(n, p, d);
        lemma_walk_valid(n, q, e, (k - 1) as nat);
    }
}

/// Walking `a + b` steps is walking `a` steps and then `b` more.
pub proof fn lemma_walk_add(n: int, p: Pos, d: Direction, a: nat, b: nat)
    ensures
        walk(n, p, d, a + b) == walk(n, walk(n, p, d, a).0, walk(n, p, d, a).1, b),
    decreases a,
{
    if a > 0 {
        let (q, e) = step_pos(n, p, d);
        lemma_walk_add(n, q, e, (a - 1) as nat, b);
        assert(walk(n, p, d, a + b) == walk(n, q, e, (a + b - 1) as nat));
        assert((a + b - 1) as nat == (a - 1) as nat + b);
    }
}

/// Travelling by ids is walking by positions.
pub proof fn lemma_travel_is_walk(n: int, id: int, d: Direction, k: nat)
    requires
        0 <= n,
        0 <= id < tile_total(n),
    ensures
        travel(n, id, d, k).0 == pos_id(n, walk(n, tile_pos(n, id), d, k).0),
        travel(n, id, d, k).1 == walk(n, tile_pos(n, id), d, k).1,
        0 <= travel(n, id, d, k).0 < tile_total(n),
    decreases k,
{
    lemma_tile_pos_valid(n, id);
    if k > 0 {
        let (to, e) = step(n, id, d);
        lemma_step_in_range(n, id, d);
        lemma_travel_is_walk(n, to, e, (k - 1) as nat);
    }
}

/// How many more tiles of face `p.face` lie ahead of `p` on the line that
/// heading `heading` follows.
#[verifier::opaque]
spec fn ahead(n: int, p: Pos, heading: Direction) -> int {
    let along_y = p.row + p.col / 2;
    let along_z = 2 * p.row - (p.col + 1) / 2;
    match heading {
        Direction::PosX => if p.col >= p.row {
            2 * p.row - p.col
        } else {
            p.col
        },
        Direction::NegX => n - 1 - p.row,
        Direction::PosY => along_y - p.col,
        Direction::NegY => if along_y >= n {
            p.col - 2 * (along_y - n + 1)
        } else {
            p.col
        },
        Direction::PosZ => if along_z <= n - 1 {
            along_z - p.col / 2
        } else {
            2 * n - 2 - along_z - p.col / 2
        },
        Direction::NegZ => p.col / 2,
    }
}

/// The tile `j` tiles ahead of `p` on the line that heading `heading` follows.
#[verifier::opaque]
spec fn glide(p: Pos, heading: Direction, j: int) -> Pos {
    let along_y = p.row + p.col / 2;
    let along_z = 2 * p.row - (p.col + 1) / 2;
    match heading {
        Direction::PosX => Pos { face: p.face, row: p.row - j, col: p.col - j },
        Direction::NegX => Pos { face: p.face, row: p.row + j, col: p.col + j },
        Direction::PosY => Pos { face: p.face, row: along_y - (p.col + j) / 2, col: p.col + j },
        Direction::NegY => Pos { face: p.face, row: along_y - (p.col - j) / 2, col: p.col - j },
        Direction::PosZ => {
            let t = p.col / 2 + j;
            let odd = (along_z + t) % 2;
            Pos { face: p.face, row: (along_z + t + odd) / 2, col: 2 * t + odd }
        },
        Direction::NegZ => {
            let t = p.col / 2 - j;
            let odd = (along_z + t) % 2;
            Pos { face: p.face, row: (along_z + t + odd) / 2, col: 2 * t + odd }
        },
    }
}

/// What one step does while tiles lie ahead on the face: it leads to the
/// next tile of the line and keeps the heading.
spec fn glides_on(n: int, p: Pos, heading: Direction, j: int) -> bool {
    let q = glide(p, heading, 1);
    &&& advance(n, p, heading) == (q, heading)
    &&& valid_pos(n, q)
    &&& q.face == p.face
    &&& ahead(n, q, heading) == ahead(n, p, heading) - 1
    &&& glide(q, heading, j - 1) == glide(p, heading, j)
}

/// One step with heading `PosX` while tiles lie ahead on the face.
proof fn lemma_glide_pos_x(n: int, p: Pos, j: int)
    requires
        valid_pos(n, p),
        1 <= j <= ahead(n, p, Direction::PosX),
    ensures
        glides_on(n, p, Direction::PosX, j),
{
    reveal(ahead);
    reveal(glide);
}

/// One step with heading `NegX` while tiles lie ahead on the face.
proof fn lemma_glide_neg_x(n: int, p: Pos, j: int)
    requires
        valid_pos(n, p),
        1 <= j <= ahead(n, p, Direction::NegX),
    ensures
        glides_on(n, p, Direction::NegX, j),
{
    reveal(ahead);
    reveal(glide);
}

/// One step with heading `PosY` while tiles lie ahead on the face.
proof fn lemma_glide_pos_y(n: int, p: Pos, j: int)
    requires
        valid_pos(n, p),
        1 <= j <= ahead(n, p, Direction::PosY),
    ensures
        glides_on(n, p, Direction::PosY, j),
{
    reveal(ahead);
    reveal(glide);
}

/// One step with heading `NegY` while tiles lie ahead on the face.
proof fn lemma_glide_neg_y(n: int, p: Pos, j: int)
    requires
        valid_pos(n, p),
        1 <= j <= ahead(n, p, Direction::NegY),
    ensures
        glides_on(n, p, Direction::NegY, j),
{
    reveal(ahead);
    reveal(glide);
}

/// One step with heading `PosZ` while tiles lie ahead on the face.
proof fn lemma_glide_pos_z(n: int, p: Pos, j: int)
    requires
        valid_pos(n, p),
        1 <= j <= ahead(n, p, Direction::PosZ),
    ensures
        glides_on(n, p, Direction::PosZ, j),
{
    reveal(ahead);
    reveal(glide);
}

/// One step with heading `NegZ` while tiles lie ahead on the face.
proof fn lemma_glide_neg_z(n: int, p: Pos, j: int)
    requires
        valid_pos(n, p),
        1 <= j <= ahead(n, p, Direction::NegZ),
    ensures
        glides_on(n, p, Direction::NegZ, j),
{
    reveal(ahead);
    reveal(glide);
}

/// One step along a line while tiles lie ahead on the face.
proof fn lemma_glide_step(n: int, p: Pos, heading: Direction, j: int)
    requires
        valid_pos(n, p),
        1 <= j <= ahead(n, p, heading),
    ensures
        glides_on(n, p, heading, j),
{
    match heading {
        Direction::PosX => lemma_glide_pos_x(n, p, j),
        Direction::NegX => lemma_glide_neg_x(n, p, j),
        Direction::PosY => lemma_glide_pos_y(n, p, j),
        Direction::NegY => lemma_glide_neg_y(n, p, j),
        Direction::PosZ => lemma_glide_pos_z(n, p, j),
        Direction::NegZ => lemma_glide_neg_z(n, p, j),
    }
}

/// Gliding no tiles ahead stays in place, and gliding stays on the face.
proof fn lemma_glide_zero(p: Pos, heading: Direction)
    requires
        0 <= p.col,
    ensures
        glide(p, heading, 0) == p,
        forall|j: int| (#[trigger] glide(p, heading, j)).face == p.face,
{
    reveal(glide);
}

/// As long as tiles lie ahead on the face, steps follow the line and keep the
/// direction.
proof fn lemma_glide(n: int, p: Pos, d: Direction, j: nat)
    requires
        valid_pos(n, p),
        j <= ahead(n, p, facing(p.face, d)),
    ensures
        walk(n, p, d, j) == (glide(p, facing(p.face, d), j as int), d),
        valid_pos(n, glide(p, facing(p.face, d), j as int)),
        glide(p, facing(p.face, d), j as int).face == p.face,
        ahead(n, glide(p, facing(p.face, d), j as int), facing(p.face, d)) == ahead(
            n,
            p,
            facing(p.face, d),
        ) - j,
    decreases j,
{
    let heading = facing(p.face, d);
    if j == 0 {
        lemma_glide_zero(p, heading);
    } else {
        lemma_glide_step(n, p, heading, j as int);
        assert(facing(p.face, heading) == d);
        lemma_glide(n, glide(p, heading, 1), d, (j - 1) as nat);
    }
}

/// One straight line of tiles on one face: the face, the heading that
/// follows the line, and which of the parallel lines it is.
///
/// Lines kept by the X headings are counted from the middle one, `0`, to the
/// right, so that they run from `1 - n` to `n - 1`. Lines kept by the Y and by
/// the Z headings run from `0` to `2 * n - 2`, and the middle one is `n - 1`.
struct Line {
    face: int,
    heading: Direction,
    index: int,
}

/// Whether `l` is a line of a mesh whose faces have `n` rows.
spec fn line_ok(n: int, l: Line) -> bool {
    &&& 0 <= l.face < 8
    &&& 1 <= n
    &&& match l.heading {
        Direction::PosX | Direction::NegX => 1 - n <= l.index <= n - 1,
        _ => 0 <= l.index <= 2 * n - 2,
    }
}

/// The line through `p` that heading `heading` follows.
spec fn line_through(p: Pos, heading: Direction) -> Line {
    Line {
        face: p.face,
        heading,
        index: match heading {
            Direction::PosX | Direction::NegX => p.col - p.row,
            Direction::PosY | Direction::NegY => p.row + p.col / 2,
            Direction::PosZ | Direction::NegZ => 2 * p.row - (p.col + 1) / 2,
        },
    }
}

/// How many tiles the line holds.
spec fn line_len(n: int, l: Line) -> int {
    match l.heading {
        Direction::PosX | Direction::NegX => if l.index >= 0 {
            n - l.index
        } else {
            n + l.index
        },
        _ => if l.index <= n - 1 {
            l.index + 1
        } else {
            2 * n - 1 - l.index
        },
    }
}

/// The tile on which a walk along the line enters the face.
spec fn entry(n: int, l: Line) -> Pos {
    let i = l.index;
    match l.heading {
        Direction::PosX => Pos { face: l.face, row: n - 1, col: n - 1 + i },
        Direction::NegX => if i >= 0 {
            Pos { face: l.face, row: i, col: 2 * i }
        } else {
            Pos { face: l.face, row: -i, col: 0 }
        },
        Direction::PosY => if i <= n - 1 {
            Pos { face: l.face, row: i, col: 0 }
        } else {
            Pos { face: l.face, row: n - 1, col: 2 * (i - n + 1) }
        },
        Direction::NegY => Pos { face: l.face, row: (i + 1) / 2, col: i },
        Direction::PosZ => Pos { face: l.face, row: (i + 1) / 2, col: i % 2 },
        Direction::NegZ => if i <= n - 1 {
            Pos { face: l.face, row: i, col: 2 * i }
        } else {
            Pos { face: l.face, row: n - 1, col: 2 * (2 * n - 2 - i) }
        },
    }
}

/// The line on which a walk goes on when it leaves the face at the end of
/// line `l`.
spec fn line_next(n: int, l: Line) -> Line {
    let f = l.face;
    let i = l.index;
    match l.heading {
        Direction::PosX => if i == 0 {
            Line { face: across(f), heading: Direction::NegX, index: 0 }
        } else if i > 0 {
            Line { face: right_of(f), heading: Direction::PosY, index: i - 1 }
        } else {
            Line { face: left_of(f), heading: Direction::NegZ, index: -i - 1 }
        },
        Direction::NegX => Line { face: mirror(f), heading: Direction::PosX, index: -i },
        Direction::PosY => Line { face: right_of(f), heading: Direction::PosZ, index: i },
        Direction::NegY => if i <= n - 2 {
            Line { face: left_of(f), heading: Direction::NegX, index: i + 1 }
        } else if i == n - 1 {
            Line { face: mirror(left_of(f)), heading: Direction::PosY, index: i }
        } else {
            Line { face: mirror(f), heading: Direction::PosY, index: 3 * n - 2 - i }
        },
        Direction::PosZ => if i <= n - 2 {
            Line { face: right_of(f), heading: Direction::NegX, index: -i - 1 }
        } else if i == n - 1 {
            Line { face: mirror(right_of(f)), heading: Direction::NegZ, index: i }
        } else {
            Line { face: mirror(f), heading: Direction::NegZ, index: 3 * n - 2 - i }
        },
        Direction::NegZ => Line { face: left_of(f), heading: Direction::NegY, index: i },
    }
}

/// The heading on face `to` of a walk that left face `from` with heading
/// `heading`, read in the frame of the hemisphere of `from`.
spec fn carried(from: int, to: int, heading: Direction) -> Direction {
    if (from >= 4) == (to >= 4) {
        heading
    } else {
        heading.negated()
    }
}

/// What `lemma_line` needs of one line: its entry tile lies on the mesh, the
/// tiles ahead of it are the rest of the line, and the step from the line's
/// last tile enters the next line.
spec fn line_leads_on(n: int, l: Line) -> bool {
    let e = entry(n, l);
    let next = line_next(n, l);
    let (q, heading) = advance(n, glide(e, l.heading, ahead(n, e, l.heading)), l.heading);
    &&& valid_pos(n, e)
    &&& line_len(n, l) >= 1
    &&& ahead(n, e, l.heading) == line_len(n, l) - 1
    &&& q == entry(n, next)
    &&& carried(l.face, next.face, heading) == next.heading
    &&& line_ok(n, next)
}

/// What `lemma_walk_closes` needs of one tile: the line through it is a line of the
/// mesh, and the tile is reached from the line's entry tile by gliding.
spec fn on_line(n: int, p: Pos, heading: Direction) -> bool {
    let l = line_through(p, heading);
    let behind = ahead(n, p, heading.negated());
    &&& line_ok(n, l)
    &&& 0 <= behind <= line_len(n, l) - 1
    &&& glide(entry(n, l), heading, behind) == p
}

/// A line that heading `PosX` follows leads on to the next line.
proof fn lemma_line_pos_x(n: int, l: Line)
    requires
        line_ok(n, l),
        l.heading == Direction::PosX,
    ensures
        line_leads_on(n, l),
{
    reveal(ahead);
    reveal(glide);
}

/// A line that heading `NegX` follows leads on to the next line.
proof fn lemma_line_neg_x(n: int, l: Line)
    requires
        line_ok(n, l),
        l.heading == Direction::NegX,
    ensures
        line_leads_on(n, l),
{
    reveal(ahead);
    reveal(glide);
}

/// A line that heading `PosY` follows leads on to the next line.
proof fn lemma_line_pos_y(n: int, l: Line)
    requires
        line_ok(n, l),
        l.heading == Direction::PosY,
    ensures
        line_leads_on(n, l),
{
    reveal(ahead);
    reveal(glide);
}

/// A line that heading `NegY` follows leads on to the next line.
proof fn lemma_line_neg_y(n: int, l: Line)
    requires
        line_ok(n, l),
        l.heading == Direction::NegY,
    ensures
        line_leads_on(n, l),
{
    reveal(ahead);
    reveal(glide);
}

/// A line that heading `PosZ` follows leads on to the next line.
proof fn lemma_line_pos_z(n: int, l: Line)
    requires
        line_ok(n, l),
        l.heading == Direction::PosZ,
    ensures
        line_leads_on(n, l),
{
    reveal(ahead);
    reveal(glide);
}

/// A line that heading `NegZ` follows leads on to the next line.
proof fn lemma_line_neg_z(n: int, l: Line)
    requires
        line_ok(n, l),
        l.heading == Direction::NegZ,
    ensures
        line_leads_on(n, l),
{
    reveal(ahead);
    reveal(glide);
}

/// Every line leads on to the next line.
proof fn lemma_line_leads_on(n: int, l: Line)
    requires
        line_ok(n, l),
    ensures
        line_leads_on(n, l),
{
    match l.heading {
        Direction::PosX => lemma_line_pos_x(n, l),
        Direction::NegX => lemma_line_neg_x(n, l),
        Direction::PosY => lemma_line_pos_y(n, l),
        Direction::NegY => lemma_line_neg_y(n, l),
        Direction::PosZ => lemma_line_pos_z(n, l),
        Direction::NegZ => lemma_line_neg_z(n, l),
    }
}

/// The direction of a walk along the line.
spec fn line_dir(l: Line) -> Direction {
    facing(l.face, l.heading)
}

/// The line that a walk is on after `m` whole lines, the first of them `l`.
spec fn lines(n: int, l: Line, m: nat) -> Line
    decreases m,
{
    if m == 0 {
        l
    } else {
        lines(n, line_next(n, l), (m - 1) as nat)
    }
}

/// How many tiles `m` lines in a row hold, the first of them `l`.
spec fn lines_len(n: int, l: Line, m: nat) -> int
    decreases m,
{
    if m == 0 {
        0
    } else {
        line_len(n, l) + lines_len(n, line_next(n, l), (m - 1) as nat)
    }
}

/// A walk from the entry tile of a line, as many steps as the line has
/// tiles, ends on the entry tile of the next line.
proof fn lemma_line(n: int, l: Line)
    requires
        line_ok(n, l),
    ensures
        line_len(n, l) >= 1,
        valid_pos(n, entry(n, l)),
        line_ok(n, line_next(n, l)),
        walk(n, entry(n, l), line_dir(l), line_len(n, l) as nat) == (
            entry(n, line_next(n, l)),
            line_dir(line_next(n, l)),
        ),
{
    lemma_line_leads_on(n, l);
    let e = entry(n, l);
    let d = line_dir(l);
    let a = ahead(n, e, l.heading);
    let last = glide(e, l.heading, a);
    assert(e.face == l.face && facing(e.face, d) == l.heading) by {
        lemma_entry_face(n, l);
    }
    lemma_glide(n, e, d, a as nat);
    lemma_walk_add(n, e, d, a as nat, 1);
    assert(walk(n, last, d, 1) == step_pos(n, last, d)) by {
        let (q, h) = step_pos(n, last, d);
        assert(walk(n, q, h, 0) == (q, h));
    }
    assert(a as nat + 1 == line_len(n, l) as nat);
    lemma_entry_face(n, line_next(n, l));
}

/// The entry tile of a line lies on the line's face.
proof fn lemma_entry_face(n: int, l: Line)
    ensures
        entry(n, l).face == l.face,
{
}

/// A walk from the entry tile of a line along `m` whole lines.
proof fn lemma_lines(n: int, l: Line, m: nat)
    requires
        line_ok(n, l),
    ensures
        lines_len(n, l, m) >= 0,
        line_ok(n, lines(n, l, m)),
        walk(n, entry(n, l), line_dir(l), lines_len(n, l, m) as nat) == (
            entry(n, lines(n, l, m)),
            line_dir(lines(n, l, m)),
        ),
    decreases m,
{
    if m > 0 {
        let next = line_next(n, l);
        lemma_line(n, l);
        lemma_lines(n, next, (m - 1) as nat);
        lemma_walk_add(
            n,
            entry(n, l),
            line_dir(l),
            line_len(n, l) as nat,
            lines_len(n, next, (m - 1) as nat) as nat,
        );
        assert(line_len(n, l) as nat + lines_len(n, next, (m - 1) as nat) as nat == lines_len(
            n,
            l,
            m,
        ) as nat);
    }
}

/// Whether the line is the middle one of its parallels.
spec fn median(n: int, l: Line) -> bool {
    match l.heading {
        Direction::PosX | Direction::NegX => l.index == 0,
        _ => l.index == n - 1,
    }
}

/// The face that a walk along `l`, not a median, is on after half its ring.
spec fn half_face(n: int, l: Line) -> int {
    match l.heading {
        Direction::PosX | Direction::NegX => if l.index > 0 {
            mirror(left_of(l.face))
        } else {
            mirror(right_of(l.face))
        },
        Direction::PosY | Direction::NegY => if l.index < n - 1 {
            mirror(right_of(l.face))
        } else {
            across(l.face)
        },
        Direction::PosZ | Direction::NegZ => if l.index < n - 1 {
            mirror(left_of(l.face))
        } else {
            across(l.face)
        },
    }
}

/// What four lines in a row, the first of them `l`, come to.
spec fn four_lines(n: int, l: Line) -> bool {
    let l1 = line_next(n, l);
    let l2 = line_next(n, l1);
    let l3 = line_next(n, l2);
    let l4 = line_next(n, l3);
    let tiles = line_len(n, l) + line_len(n, l1) + line_len(n, l2) + line_len(n, l3);
    if median(n, l) {
        l4 == l && tiles == 4 * n
    } else {
        l4 == (Line { face: half_face(n, l), ..l }) && tiles == 2 * n
    }
}

/// Four lines in a row, the first kept by an X heading.
proof fn lemma_four_lines_x(n: int, l: Line)
    requires
        line_ok(n, l),
        l.heading == Direction::PosX || l.heading == Direction::NegX,
    ensures
        four_lines(n, l),
{
}

/// Four lines in a row, the first kept by a Y heading.
proof fn lemma_four_lines_y(n: int, l: Line)
    requires
        line_ok(n, l),
        l.heading == Direction::PosY || l.heading == Direction::NegY,
    ensures
        four_lines(n, l),
{
}

/// Four lines in a row, the first kept by a Z heading.
proof fn lemma_four_lines_z(n: int, l: Line)
    requires
        line_ok(n, l),
        l.heading == Direction::PosZ || l.heading == Direction::NegZ,
    ensures
        four_lines(n, l),
{
}

/// Four lines in a row: from a median they are the whole ring, `4 * n`
/// tiles; from any other line they are half the ring, `2 * n` tiles, and lead
/// to the same line of another face.
proof fn lemma_four_lines(n: int, l: Line)
    requires
        line_ok(n, l),
    ensures
        median(n, l) ==> lines(n, l, 4) == l && lines_len(n, l, 4) == 4 * n,
        !median(n, l) ==> lines(n, l, 4) == (Line { face: half_face(n, l), ..l }) && lines_len(
            n,
            l,
            4,
        ) == 2 * n,
{
    let l1 = line_next(n, l);
    let l2 = line_next(n, l1);
    let l3 = line_next(n, l2);
    let l4 = line_next(n, l3);
    assert(lines(n, l, 4) == l4 && lines_len(n, l, 4) == line_len(n, l) + line_len(n, l1)
        + line_len(n, l2) + line_len(n, l3)) by {
        lemma_lines_add(n, l, 1, 3);
        lemma_lines_add(n, l1, 1, 2);
        lemma_lines_add(n, l2, 1, 1);
        reveal_with_fuel(lines, 2);
        reveal_with_fuel(lines_len, 2);
    }
    assert(four_lines(n, l)) by {
        match l.heading {
            Direction::PosX | Direction::NegX => lemma_four_lines_x(n, l),
            Direction::PosY | Direction::NegY => lemma_four_lines_y(n, l),
            Direction::PosZ | Direction::NegZ => lemma_four_lines_z(n, l),
        }
    }
}

/// How many lines make up the ring through `l`.
spec fn ring_lines(n: int, l: Line) -> nat {
    if median(n, l) {
        4
    } else {
        8
    }
}

/// The lines of a ring hold `4 * n` tiles and lead back to the first.
proof fn lemma_lines_close(n: int, l: Line)
    requires
        line_ok(n, l),
    ensures
        lines(n, l, ring_lines(n, l)) == l,
        lines_len(n, l, ring_lines(n, l)) == 4 * n,
{
    lemma_four_lines(n, l);
    if !median(n, l) {
        let half = lines(n, l, 4);
        lemma_lines(n, l, 4);
        lemma_four_lines(n, half);
        lemma_lines_add(n, l, 4, 4);
    }
}

/// `a + b` lines in a row are `a` lines and then `b` more.
proof fn lemma_lines_add(n: int, l: Line, a: nat, b: nat)
    ensures
        lines(n, l, a + b) == lines(n, lines(n, l, a), b),
        lines_len(n, l, a + b) == lines_len(n, l, a) + lines_len(n, lines(n, l, a), b),
    decreases a,
{
    if a > 0 {
        lemma_lines_add(n, line_next(n, l), (a - 1) as nat, b);
        assert((a + b - 1) as nat == (a - 1) as nat + b);
    }
}

/// Every tile lies on a line that heading `PosX` follows.
proof fn lemma_on_line_pos_x(n: int, p: Pos)
    requires
        valid_pos(n, p),
    ensures
        on_line(n, p, Direction::PosX),
{
    reveal(ahead);
    reveal(glide);
}

/// Every tile lies on a line that heading `NegX` follows.
proof fn lemma_on_line_neg_x(n: int, p: Pos)
    requires
        valid_pos(n, p),
    ensures
        on_line(n, p, Direction::NegX),
{
    reveal(ahead);
    reveal(glide);
}

/// Every tile lies on a line that heading `PosY` follows.
proof fn lemma_on_line_pos_y(n: int, p: Pos)
    requires
        valid_pos(n, p),
    ensures
        on_line(n, p, Direction::PosY),
{
    reveal(ahead);
    reveal(glide);
}

/// Every tile lies on a line that heading `NegY` follows.
proof fn lemma_on_line_neg_y(n: int, p: Pos)
    requires
        valid_pos(n, p),
    ensures
        on_line(n, p, Direction::NegY),
{
    reveal(ahead);
    reveal(glide);
}

/// Every tile lies on a line that heading `PosZ` follows.
proof fn lemma_on_line_pos_z(n: int, p: Pos)
    requires
        valid_pos(n, p),
    ensures
        on_line(n, p, Direction::PosZ),
{
    reveal(ahead);
    reveal(glide);
}

/// Every tile lies on a line that heading `NegZ` follows.
proof fn lemma_on_line_neg_z(n: int, p: Pos)
    requires
        valid_pos(n, p),
    ensures
        on_line(n, p, Direction::NegZ),
{
    reveal(ahead);
    reveal(glide);
}

/// Every tile lies on a line that the heading follows.
proof fn lemma_on_line(n: int, p: Pos, heading: Direction)
    requires
        valid_pos(n, p),
    ensures
        on_line(n, p, heading),
{
    match heading {
        Direction::PosX => lemma_on_line_pos_x(n, p),
        Direction::NegX => lemma_on_line_neg_x(n, p),
        Direction::PosY => lemma_on_line_pos_y(n, p),
        Direction::NegY => lemma_on_line_neg_y(n, p),
        Direction::PosZ => lemma_on_line_pos_z(n, p),
        Direction::NegZ => lemma_on_line_neg_z(n, p),
    }
}

/// A walk of `4 * n` steps, begun anywhere in any direction, ends where it
/// began, facing as it began.
pub proof fn lemma_walk_closes(n: int, p: Pos, d: Direction)
    requires
        valid_pos(n, p),
    ensures
        walk(n, p, d, (4 * n) as nat) == (p, d),
{
    let heading = facing(p.face, d);
    assert(facing(p.face, heading) == d);
    let l = line_through(p, heading);
    let behind = ahead(n, p, heading.negated());
    lemma_on_line(n, p, heading);
    let e = entry(n, l);
    lemma_entry_face(n, l);
    lemma_line(n, l);
    // From the line's entry tile to `p`.
    lemma_line_leads_on(n, l);
    lemma_glide(n, e, d, behind as nat);
    assert(walk(n, e, d, behind as nat) == (p, d));
    // Once round the ring from the entry tile.
    lemma_lines(n, l, ring_lines(n, l));
    lemma_lines_close(n, l);
    assert(walk(n, e, d, (4 * n) as nat) == (e, d));
    // Both ways of walking `behind + 4 * n` steps from the entry tile.
    lemma_walk_add(n, e, d, behind as nat, (4 * n) as nat);
    lemma_walk_add(n, e, d, (4 * n) as nat, behind as nat);
    assert(behind as nat + (4 * n) as nat == (4 * n) as nat + behind as nat);
}

/// Stepping on from any tile in any direction, each time in the direction
/// that the step before gave, leads back to that tile and that direction
/// after `4 * n` steps, which is at most the number of tiles.
pub proof fn lemma_ring_closes(n: int, id: int, d: Direction)
    requires
        0 <= n,
        0 <= id < tile_total(n),
    ensures
        travel(n, id, d, (4 * n) as nat) == (id, d),
        1 <= 4 * n <= tile_total(n),
{
    lemma_tile_pos_valid(n, id);
    lemma_walk_closes(n, tile_pos(n, id), d);
    lemma_travel_is_walk(n, id, d, (4 * n) as nat);
    assert(4 * n <= 8 * (n * n)) by (nonlinear_arith)
        requires
            1 <= n,
    ;
}

} // verus!
