//! The seven tetromino shapes and their 90-degree rotation.

use vstd::prelude::*;
use crate::geometry::Point;
use crate::board::Board;

verus! {

/// The seven tetromino kinds, a closed enumeration.
#[derive(Clone, Copy, Debug, PartialEq, Eq, Structural)]
pub enum PieceKind {
    I,
    J,
    L,
    O,
    S,
    T,
    Z,
}

/// Cosmetic colour metadata carried by a piece and by locked cells.
/// It has no gameplay weight, but must survive clears and cascades.
#[derive(Clone, Copy, Debug, PartialEq, Eq, Structural)]
pub struct Color {
    pub red: u8,
    pub green: u8,
    pub blue: u8,
}

/// A tetromino: four cells relative to a local origin, an anchor position
/// on the board, a rotation pivot and a colour.
///
/// The pivot `(cx, cy)` may be half-integral (the O piece rotates about
/// the centre of its square).  A 90-degree rotation about it maps a
/// relative cell `(px, py)` to `(cx + cy - py, px - (cx - cy))`, so only
/// the two combinations `cx + cy` and `cx - cy` are ever needed, and for
/// every shape both are whole numbers.  They are stored directly as
/// `pivot_sum` and `pivot_diff`, which keeps the arithmetic exact.
#[derive(Clone, Copy, Debug)]
pub struct Tetromino {
    /// Grid anchor: absolute board cell `i` is `points[i] + position`.
    pub position: Point,
    /// The four occupied cells, relative to the piece's local origin.
    pub points: [Point; 4],
    /// The rotation pivot's `cx + cy`.
    pub pivot_sum: i32,
    /// The rotation pivot's `cx - cy`.
    pub pivot_diff: i32,
    /// Cosmetic colour.
    pub color: Color,
}

impl Tetromino {
    /// The `i`-th relative cell, as a spec value.
    pub open spec fn rel(self, i: int) -> Point {
        self.points@[i]
    }

    /// Well-formedness: the pivot combinations are small, and every
    /// relative cell lies within max-norm distance 2 of the pivot.
    /// A 90-degree rotation about the pivot swaps the two coordinate
    /// distances, so this bound is preserved by rotation; it keeps all
    /// rotation arithmetic within `i32`.
    pub open spec fn wf(self) -> bool {
        &&& 0 <= self.pivot_sum <= 4
        &&& -4 <= self.pivot_diff <= 4
        &&& forall|i: int|
            0 <= i < 4 ==> {
                &&& -4 <= 2 * (#[trigger] self.rel(i)).x - (self.pivot_sum + self.pivot_diff) <= 4
                &&& -4 <= 2 * self.rel(i).y - (self.pivot_sum - self.pivot_diff) <= 4
            }
    }

    /// `b` is `a` with its relative points rotated 90 degrees in place:
    /// anchor, pivot and colour are untouched.
    pub open spec fn rotated_once(a: Tetromino, b: Tetromino) -> bool {
        &&& b.position == a.position
        &&& b.pivot_sum == a.pivot_sum
        &&& b.pivot_diff == a.pivot_diff
        &&& b.color == a.color
        &&& forall|i: int|
            0 <= i < 4 ==> {
                &&& (#[trigger] b.rel(i)).x == a.pivot_sum - a.rel(i).y
                &&& b.rel(i).y == a.rel(i).x - a.pivot_diff
            }
    }

    /// The relative cell layout a kind starts with, before any rotation.
    pub open spec fn initial_points(kind: PieceKind) -> Seq<Point> {
        match kind {
            PieceKind::I => seq![
                Point { x: 0, y: 0 },
                Point { x: 1, y: 0 },
                Point { x: 2, y: 0 },
                Point { x: 3, y: 0 },
            ],
            PieceKind::J => seq![
                Point { x: 0, y: 0 },
                Point { x: 0, y: 1 },
                Point { x: 1, y: 1 },
                Point { x: 2, y: 1 },
            ],
            PieceKind::L => seq![
                Point { x: 0, y: 1 },
                Point { x: 1, y: 1 },
                Point { x: 2, y: 1 },
                Point { x: 2, y: 0 },
            ],
            PieceKind::O => seq![
                Point { x: 0, y: 0 },
                Point { x: 0, y: 1 },
                Point { x: 1, y: 1 },
                Point { x: 1, y: 0 },
            ],
            PieceKind::S => seq![
                Point { x: 0, y: 1 },
                Point { x: 1, y: 1 },
                Point { x: 1, y: 0 },
                Point { x: 2, y: 0 },
            ],
            PieceKind::T => seq![
                Point { x: 0, y: 1 },
                Point { x: 1, y: 1 },
                Point { x: 2, y: 1 },
                Point { x: 1, y: 0 },
            ],
            PieceKind::Z => seq![
                Point { x: 0, y: 0 },
                Point { x: 1, y: 0 },
                Point { x: 1, y: 1 },
                Point { x: 2, y: 1 },
            ],
        }
    }

    /// `cx + cy` for a kind's rotation pivot.
    pub open spec fn initial_pivot_sum(kind: PieceKind) -> int {
        match kind {
            PieceKind::I => 2,
            PieceKind::O => 1,
            _ => 2,
        }
    }

    /// `cx - cy` for a kind's rotation pivot.
    pub open spec fn initial_pivot_diff(kind: PieceKind) -> int {
        match kind {
            PieceKind::I => 2,
            _ => 0,
        }
    }

    /// The colour a kind is drawn with.
    pub open spec fn initial_color(kind: PieceKind) -> Color {
        match kind {
            PieceKind::I => Color { red: 69, green: 245, blue: 242 },
            PieceKind::J => Color { red: 46, green: 0, blue: 214 },
            PieceKind::L => Color { red: 232, green: 166, blue: 13 },
            PieceKind::O => Color { red: 235, green: 245, blue: 15 },
            PieceKind::S => Color { red: 46, green: 245, blue: 0 },
            PieceKind::T => Color { red: 161, green: 0, blue: 240 },
            PieceKind::Z => Color { red: 245, green: 13, blue: 18 },
        }
    }

    /// Every freshly spawned piece occupies cells within columns 0-3
    /// and rows 0-1 of its anchor.
    pub open spec fn spawn_cell_bounds(t: Tetromino) -> bool {
        forall|i: int|
            0 <= i < 4 ==> {
                &&& 0 <= (#[trigger] t.rel(i)).x <= 3
                &&& 0 <= t.rel(i).y <= 1
            }
    }

    /// `t` is the freshly spawned piece of kind `kind`: anchored at the
    /// origin, with the kind's initial layout, pivot and colour.
    pub open spec fn is_spawn(kind: PieceKind, t: Tetromino) -> bool {
        &&& t.position == (Point { x: 0, y: 0 })
        &&& t.points@ == Self::initial_points(kind)
        &&& t.pivot_sum == Self::initial_pivot_sum(kind)
        &&& t.pivot_diff == Self::initial_pivot_diff(kind)
        &&& t.color == Self::initial_color(kind)
    }

    /// The I piece: a horizontal bar.
    pub fn i() -> (r: Tetromino)
        ensures
            Self::spawn_cell_bounds(r),
            Self::is_spawn(PieceKind::I, r),
            r.wf(),
    {
        let r = Tetromino {
            position: Point { x: 0, y: 0 },
            points: [
                Point { x: 0, y: 0 },
                Point { x: 1, y: 0 },
                Point { x: 2, y: 0 },
                Point { x: 3, y: 0 },
            ],
            pivot_sum: 2,
            pivot_diff: 2,
            color: Color { red: 69, green: 245, blue: 242 },
        };
        proof {
            assert(r.points@ =~= Self::initial_points(PieceKind::I));
        }
        r
    }

    /// The J piece.
    pub fn j() -> (r: Tetromino)
        ensures
            Self::spawn_cell_bounds(r),
            Self::is_spawn(PieceKind::J, r),
            r.wf(),
    {
        let r = Tetromino {
            position: Point { x: 0, y: 0 },
            points: [
                Point { x: 0, y: 0 },
                Point { x: 0, y: 1 },
                Point { x: 1, y: 1 },
                Point { x: 2, y: 1 },
            ],
            pivot_sum: 2,
            pivot_diff: 0,
            color: Color { red: 46, green: 0, blue: 214 },
        };
        proof {
            assert(r.points@ =~= Self::initial_points(PieceKind::J));
        }
        r
    }

    /// The L piece.
    pub fn l() -> (r: Tetromino)
        ensures
            Self::spawn_cell_bounds(r),
            Self::is_spawn(PieceKind::L, r),
            r.wf(),
    {
        let r = Tetromino {
            position: Point { x: 0, y: 0 },
            points: [
                Point { x: 0, y: 1 },
                Point { x: 1, y: 1 },
                Point { x: 2, y: 1 },
                Point { x: 2, y: 0 },
            ],
            pivot_sum: 2,
            pivot_diff: 0,
            color: Color { red: 232, green: 166, blue: 13 },
        };
        proof {
            assert(r.points@ =~= Self::initial_points(PieceKind::L));
        }
        r
    }

    /// The O piece: a square, rotating about its own centre.
    pub fn o() -> (r: Tetromino)
        ensures
            Self::spawn_cell_bounds(r),
            Self::is_spawn(PieceKind::O, r),
            r.wf(),
    {
        let r = Tetromino {
            position: Point { x: 0, y: 0 },
            points: [
                Point { x: 0, y: 0 },
                Point { x: 0, y: 1 },
                Point { x: 1, y: 1 },
                Point { x: 1, y: 0 },
            ],
            pivot_sum: 1,
            pivot_diff: 0,
            color: Color { red: 235, green: 245, blue: 15 },
        };
        proof {
            assert(r.points@ =~= Self::initial_points(PieceKind::O));
        }
        r
    }

    /// The S piece.
    pub fn s() -> (r: Tetromino)
        ensures
            Self::spawn_cell_bounds(r),
            Self::is_spawn(PieceKind::S, r),
            r.wf(),
    {
        let r = Tetromino {
            position: Point { x: 0, y: 0 },
            points: [
                Point { x: 0, y: 1 },
                Point { x: 1, y: 1 },
                Point { x: 1, y: 0 },
                Point { x: 2, y: 0 },
            ],
            pivot_sum: 2,
            pivot_diff: 0,
            color: Color { red: 46, green: 245, blue: 0 },
        };
        proof {
            assert(r.points@ =~= Self::initial_points(PieceKind::S));
        }
        r
    }

    /// The T piece.
    pub fn t() -> (r: Tetromino)
        ensures
            Self::spawn_cell_bounds(r),
            Self::is_spawn(PieceKind::T, r),
            r.wf(),
    {
        let r = Tetromino {
            position: Point { x: 0, y: 0 },
            points: [
                Point { x: 0, y: 1 },
                Point { x: 1, y: 1 },
                Point { x: 2, y: 1 },
                Point { x: 1, y: 0 },
            ],
            pivot_sum: 2,
            pivot_diff: 0,
            color: Color { red: 161, green: 0, blue: 240 },
        };
        proof {
            assert(r.points@ =~= Self::initial_points(PieceKind::T));
        }
        r
    }

    /// The Z piece.
    pub fn z() -> (r: Tetromino)
        ensures
            Self::spawn_cell_bounds(r),
            Self::is_spawn(PieceKind::Z, r),
            r.wf(),
    {
        let r = Tetromino {
            position: Point { x: 0, y: 0 },
            points: [
                Point { x: 0, y: 0 },
                Point { x: 1, y: 0 },
                Point { x: 1, y: 1 },
                Point { x: 2, y: 1 },
            ],
            pivot_sum: 2,
            pivot_diff: 0,
            color: Color { red: 245, green: 13, blue: 18 },
        };
        proof {
            assert(r.points@ =~= Self::initial_points(PieceKind::Z));
        }
        r
    }

    /// The freshly spawned piece of the given kind.
    pub fn from_kind(kind: PieceKind) -> (r: Tetromino)
        ensures
            Self::spawn_cell_bounds(r),
            Self::is_spawn(kind, r),
            r.wf(),
    {
        match kind {
            PieceKind::I => Self::i(),
            PieceKind::J => Self::j(),
            PieceKind::L => Self::l(),
            PieceKind::O => Self::o(),
            PieceKind::S => Self::s(),
            PieceKind::T => Self::t(),
            PieceKind::Z => Self::z(),
        }
    }

    /// The same piece with its anchor moved to `p`.
    pub open spec fn at_position(self, p: Point) -> Tetromino {
        Tetromino { position: p, ..self }
    }

    /// The same piece with its anchor's row set to `y`.
    pub open spec fn with_y(self, y: int) -> Tetromino {
        self.at_position(Point { x: self.position.x, y: y as i32 })
    }

    /// x of the `i`-th relative cell after a 90-degree rotation.
    pub open spec fn rot_rel_x(self, i: int) -> int {
        self.pivot_sum - self.rel(i).y
    }

    /// y of the `i`-th relative cell after a 90-degree rotation.
    pub open spec fn rot_rel_y(self, i: int) -> int {
        self.rel(i).x - self.pivot_diff
    }

    /// `post` is `pre` rotated 90 degrees with its anchor shifted
    /// `dx` columns; pivot and colour are untouched.
    pub open spec fn rotated_shifted(pre: Tetromino, post: Tetromino, dx: int) -> bool {
        &&& post.position.x == pre.position.x + dx
        &&& post.position.y == pre.position.y
        &&& post.pivot_sum == pre.pivot_sum
        &&& post.pivot_diff == pre.pivot_diff
        &&& post.color == pre.color
        &&& forall|i: int|
            0 <= i < 4 ==> {
                &&& (#[trigger] post.rel(i)).x == pre.rot_rel_x(i)
                &&& post.rel(i).y == pre.rot_rel_y(i)
            }
    }

    /// Rotate the four relative points 90 degrees about the pivot,
    /// in place.  `position` and the pivot are unchanged.
    pub fn rotate_once(&mut self)
        requires
            old(self).wf(),
        ensures
            final(self).wf(),
            Self::rotated_once(*old(self), *final(self)),
    {
        proof {
            assert(old(self).wf());
            assert(2 * old(self).rel(0).y - (self.pivot_sum - self.pivot_diff) <= 4);
            assert(2 * old(self).rel(1).y - (self.pivot_sum - self.pivot_diff) <= 4);
            assert(2 * old(self).rel(2).y - (self.pivot_sum - self.pivot_diff) <= 4);
            assert(2 * old(self).rel(3).y - (self.pivot_sum - self.pivot_diff) <= 4);
        }
        let s = self.pivot_sum;
        let d = self.pivot_diff;
        self.points = [
            Point { x: s - self.points[0].y, y: self.points[0].x - d },
            Point { x: s - self.points[1].y, y: self.points[1].x - d },
            Point { x: s - self.points[2].y, y: self.points[2].x - d },
            Point { x: s - self.points[3].y, y: self.points[3].x - d },
        ];
    }
}

impl Tetromino {
    /// Attempt an in-place rotation against the board, with the
    /// simplified wall kick: the rotated shape is tried at the
    /// current anchor, then shifted one column right, then one
    /// column left of the original anchor.  If all three positions
    /// collide, the rotation is discarded and the piece is left
    /// exactly as it was.
    pub fn rotate(&mut self, board: &Board)
        requires
            old(self).wf(),
            board.wf(),
            i32::MIN + 8 <= old(self).position.x <= i32::MAX - 8,
        ensures
            final(self).wf(),
            board.kick_rel(*old(self), *final(self)),
    {
        let pre = *self;
        self.rotate_once();
        let ghost mid = *self;
        proof {
            assert(Tetromino::rotated_shifted(pre, *self, 0));
            board.lemma_collides_rotated(pre, *self, 0);
        }
        if !board.check_collision(self) {
            return;
        }
        self.position.x = self.position.x + 1;
        proof {
            assert forall|i: int| 0 <= i < 4 implies (#[trigger] (*self).rel(i)) == mid.rel(
                i,
            ) by {}
            assert(Tetromino::rotated_shifted(pre, *self, 1));
            board.lemma_collides_rotated(pre, *self, 1);
        }
        if !board.check_collision(self) {
            return;
        }
        self.position.x = self.position.x - 2;
        proof {
            assert forall|i: int| 0 <= i < 4 implies (#[trigger] (*self).rel(i)) == mid.rel(
                i,
            ) by {}
            assert(Tetromino::rotated_shifted(pre, *self, -1));
            board.lemma_collides_rotated(pre, *self, -1);
        }
        if !board.check_collision(self) {
            return;
        }
        *self = pre;
    }

    /// Smallest relative x among the four cells.
    pub open spec fn rel_min_x(self) -> int {
        vstd::math::min(
            vstd::math::min(self.rel(0).x as int, self.rel(1).x as int),
            vstd::math::min(self.rel(2).x as int, self.rel(3).x as int),
        )
    }

    /// Largest relative x among the four cells.
    pub open spec fn rel_max_x(self) -> int {
        vstd::math::max(
            vstd::math::max(self.rel(0).x as int, self.rel(1).x as int),
            vstd::math::max(self.rel(2).x as int, self.rel(3).x as int),
        )
    }

    /// Smallest relative y among the four cells.
    pub open spec fn rel_min_y(self) -> int {
        vstd::math::min(
            vstd::math::min(self.rel(0).y as int, self.rel(1).y as int),
            vstd::math::min(self.rel(2).y as int, self.rel(3).y as int),
        )
    }

    /// Largest relative y among the four cells.
    pub open spec fn rel_max_y(self) -> int {
        vstd::math::max(
            vstd::math::max(self.rel(0).y as int, self.rel(1).y as int),
            vstd::math::max(self.rel(2).y as int, self.rel(3).y as int),
        )
    }

    /// The absolute bounding box: componentwise minimum and maximum
    /// over the four absolute cells, as a `(top_left, bottom_right)`
    /// pair.
    pub fn generate_bounds(&self) -> (r: (Point, Point))
        requires
            self.wf(),
            i32::MIN + 8 <= self.position.x <= i32::MAX - 8,
            i32::MIN + 8 <= self.position.y <= i32::MAX - 8,
        ensures
            r.0.x == self.rel_min_x() + self.position.x,
            r.0.y == self.rel_min_y() + self.position.y,
            r.1.x == self.rel_max_x() + self.position.x,
            r.1.y == self.rel_max_y() + self.position.y,
    {
        proof {
            assert(self.rel(0) == self.points@[0]);
            assert(self.rel(1) == self.points@[1]);
            assert(self.rel(2) == self.points@[2]);
            assert(self.rel(3) == self.points@[3]);
        }
        let mut min_x = self.points[0].x;
        let mut max_x = self.points[0].x;
        let mut min_y = self.points[0].y;
        let mut max_y = self.points[0].y;
        let mut i: usize = 1;
        while i < 4
            invariant
                1 <= i <= 4,
                forall|j: int| #![trigger self.rel(j)] 0 <= j < i ==> {
                    &&& min_x <= self.rel(j).x
                    &&& self.rel(j).x <= max_x
                    &&& min_y <= self.rel(j).y
                    &&& self.rel(j).y <= max_y
                },
                exists|j: int| 0 <= j < i && min_x == (#[trigger] self.rel(j)).x,
                exists|j: int| 0 <= j < i && max_x == (#[trigger] self.rel(j)).x,
                exists|j: int| 0 <= j < i && min_y == (#[trigger] self.rel(j)).y,
                exists|j: int| 0 <= j < i && max_y == (#[trigger] self.rel(j)).y,
            decreases 4 - i,
        {
            let p = self.points[i];
            proof {
                assert(p == self.rel(i as int));
            }
            if p.x < min_x {
                min_x = p.x;
            }
            if p.x > max_x {
                max_x = p.x;
            }
            if p.y < min_y {
                min_y = p.y;
            }
            if p.y > max_y {
                max_y = p.y;
            }
            i = i + 1;
        }
        proof {
            assert(forall|j: int| 0 <= j < 4 ==> -4 <= (#[trigger] self.rel(j)).x <= 6
                && -4 <= self.rel(j).y <= 6);
        }
        (
            Point { x: min_x + self.position.x, y: min_y + self.position.y },
            Point { x: max_x + self.position.x, y: max_y + self.position.y },
        )
    }
}

/// Four successive rotations restore the relative points exactly.
///
/// Two rotations about the pivot send `(px, py)` to
/// `(pivot_sum + pivot_diff - px, pivot_sum - pivot_diff - py)`, a point
/// reflection; applying that twice is the identity.
pub proof fn lemma_rotation_period(p0: Tetromino, p1: Tetromino, p2: Tetromino, p3: Tetromino, p4: Tetromino)
    requires
        Tetromino::rotated_once(p0, p1),
        Tetromino::rotated_once(p1, p2),
        Tetromino::rotated_once(p2, p3),
        Tetromino::rotated_once(p3, p4),
    ensures
        p4.points@ =~= p0.points@,
        p4.position == p0.position,
{
    assert(p4.points@.len() == 4);
    assert(p0.points@.len() == 4);
    assert forall|i: int| 0 <= i < 4 implies p4.points@[i] == p0.points@[i] by {
        assert(p2.rel(i).x == p0.pivot_sum + p0.pivot_diff - p0.rel(i).x);
        assert(p2.rel(i).y == p0.pivot_sum - p0.pivot_diff - p0.rel(i).y);
        assert(p4.rel(i).x == p0.rel(i).x);
        assert(p4.rel(i).y == p0.rel(i).y);
    }
}

} // verus!
