//! The per-step game state machine: gravity, player moves, locking,
//! line clears and piece advancement.

use vstd::prelude::*;
use crate::board::{Board, clear_spec, Cell};
use crate::geometry::Point;
use crate::piece::{PieceKind, Tetromino};
use crate::sequencer::PieceSequencer;

verus! {

/// Time the input-repeat timer must accumulate before a held
/// direction moves the piece again, in milliseconds.
pub const INPUT_DELAY_MS: u64 = 100;

/// Gravity tick threshold, in milliseconds.
pub const TICK_DELAY_MS: u64 = 500;

/// Gravity tick threshold while soft drop is held, in milliseconds.
pub const TICK_DELAY_FAST_MS: u64 = 200;

/// The board the game plays on is fixed at 10 columns by 20 rows.
pub const BOARD_WIDTH: u32 = 10;

/// See `BOARD_WIDTH`.
pub const BOARD_HEIGHT: u32 = 20;

/// One step's worth of player intent, as the input adapter reports
/// it: `left`, `right` and `soft_drop` are level-triggered (held),
/// `rotate` and `hard_drop` are edge-triggered (just pressed).
#[derive(Clone, Copy, Debug)]
pub struct InputState {
    pub left: bool,
    pub right: bool,
    pub soft_drop: bool,
    pub rotate: bool,
    pub hard_drop: bool,
}

/// The horizontal direction the held keys ask for: left counts -1,
/// right counts +1, both cancel out.
pub open spec fn axis_spec(left: bool, right: bool) -> int {
    (if left {
        -1int
    } else {
        0int
    }) + (if right {
        1int
    } else {
        0int
    })
}

/// Executable form of `axis_spec`.
pub fn axis(left: bool, right: bool) -> (r: i32)
    ensures
        r as int == axis_spec(left, right),
{
    let mut direction: i32 = 0;
    if left {
        direction = direction - 1;
    }
    if right {
        direction = direction + 1;
    }
    direction
}

/// Saturating addition on the millisecond timers.
pub open spec fn sat_add(a: int, b: int) -> int {
    if a + b <= u64::MAX {
        a + b
    } else {
        u64::MAX as int
    }
}

/// `p` is where the piece comes to rest when dropped straight down:
/// the last position at or below the current one that does not
/// collide.  A piece that already collides stays where it is.
pub open spec fn is_drop_position(b: Board, t: Tetromino, p: Point) -> bool {
    &&& p.x == t.position.x
    &&& if b.collides(t) {
        p.y == t.position.y
    } else {
        &&& t.position.y <= p.y
        &&& forall|y: int| t.position.y <= y <= p.y ==> !b.collides(#[trigger] t.with_y(y))
        &&& b.collides(t.with_y(p.y + 1))
    }
}

/// The whole game state: the board, the falling piece, the two
/// timers, and the upcoming-piece sequencer.
pub struct Game {
    pub board: Board,
    pub active_piece: Tetromino,
    pub input_timer: u64,
    pub tick_timer: u64,
    pub sequencer: PieceSequencer,
}

impl Game {
    /// Well-formedness: the board is the fixed 10 by 20 field, the
    /// active piece is sound and inside the walls (it may stick out
    /// above the top), and the sequencer holds two proper bags.
    pub open spec fn wf(self) -> bool {
        &&& self.board.wf()
        &&& self.board.width == BOARD_WIDTH
        &&& self.board.height == BOARD_HEIGHT
        &&& self.active_piece.wf()
        &&& self.board.piece_in_field(self.active_piece)
        &&& self.sequencer.wf()
    }

    /// How a lock event steps the game: the active piece is merged
    /// into the board, lines are cleared, and the next kind drawn
    /// from the sequencer spawns at the origin.  Timers are not
    /// touched by the lock itself.
    pub open spec fn lock_step_rel(pre: Game, post: Game) -> bool {
        let drawn = pre.sequencer.current@[pre.sequencer.cursor as int];
        &&& post.board.width == pre.board.width
        &&& post.board.height == pre.board.height
        &&& post.board.cells@ == clear_spec(
            pre.board.lock_spec(pre.active_piece),
            pre.board.width as int,
            pre.board.height as int,
        )
        &&& PieceSequencer::advance_rel(pre.sequencer, post.sequencer, drawn)
        &&& Tetromino::is_spawn(drawn, post.active_piece)
    }

    /// The side-collision test at the end of the input stage: a
    /// piece that collides after the horizontal move and rotation
    /// has its anchor (but not its rotation) reverted to `mid`'s.
    pub open spec fn reverted_after_input(mid: Game, p2: Tetromino) -> Tetromino {
        if mid.board.collides(p2) {
            p2.at_position(mid.active_piece.position)
        } else {
            p2
        }
    }

    /// The piece after the horizontal move the input stage makes: a
    /// one-column step in the held direction, when one is held and
    /// the repeat timer allows it.
    pub open spec fn moved_piece(mid: Game, inp: InputState) -> Tetromino {
        if axis_spec(inp.left, inp.right) != 0 && mid.input_timer > INPUT_DELAY_MS {
            mid.active_piece.at_position(
                Point {
                    x: (mid.active_piece.position.x + axis_spec(inp.left, inp.right)) as i32,
                    y: mid.active_piece.position.y,
                },
            )
        } else {
            mid.active_piece
        }
    }

    /// The input-repeat timer after the input stage: moving or
    /// rotating resets it.
    pub open spec fn input_timer_after(mid: Game, inp: InputState) -> int {
        if inp.rotate {
            0
        } else if axis_spec(inp.left, inp.right) != 0 && mid.input_timer > INPUT_DELAY_MS {
            0
        } else {
            mid.input_timer as int
        }
    }

    /// What happens after the rotation stage of a step, given the
    /// piece `p2` that stage produced and the input-repeat timer
    /// value `it3` it left behind: a final side-collision test
    /// reverts the anchor (but not the rotation) to `mid`'s anchor,
    /// and a hard-drop intent drops and locks the piece.
    pub open spec fn after_rotation_rel(
        mid: Game,
        p2: Tetromino,
        it3: int,
        post: Game,
        inp: InputState,
    ) -> bool {
        let p3 = Self::reverted_after_input(mid, p2);
        if inp.hard_drop {
            &&& exists|dp: Point|
                #![trigger is_drop_position(mid.board, p3, dp)]
                is_drop_position(mid.board, p3, dp) && Self::lock_step_rel(
                    Game {
                        board: mid.board,
                        active_piece: p3.at_position(dp),
                        input_timer: mid.input_timer,
                        tick_timer: mid.tick_timer,
                        sequencer: mid.sequencer,
                    },
                    post,
                )
            &&& post.input_timer == it3
            &&& post.tick_timer == mid.tick_timer
        } else {
            &&& post.board == mid.board
            &&& post.active_piece == p3
            &&& post.sequencer == mid.sequencer
            &&& post.input_timer == it3
            &&& post.tick_timer == mid.tick_timer
        }
    }

    /// The input stage of a step, run from the intermediate state
    /// `mid` that the gravity stage left: a horizontal move when one
    /// is asked for and the repeat timer allows it, then a rotation
    /// attempt with wall kick, then `after_rotation_rel`.  Moving or
    /// rotating resets the input-repeat timer.
    pub open spec fn input_phase_rel(mid: Game, post: Game, inp: InputState) -> bool {
        let p1 = Self::moved_piece(mid, inp);
        let it3 = Self::input_timer_after(mid, inp);
        if inp.rotate {
            exists|p2: Tetromino|
                #![trigger mid.board.kick_rel(p1, p2)]
                mid.board.kick_rel(p1, p2) && Self::after_rotation_rel(mid, p2, it3, post, inp)
        } else {
            Self::after_rotation_rel(mid, p1, it3, post, inp)
        }
    }

    /// One simulation step, as a relation between the state before
    /// and after.  Time `dt_ms` accumulates into both timers; when
    /// the gravity timer exceeds its threshold (faster under soft
    /// drop) the piece falls one row, and if that row collides the
    /// piece locks where it was — clearing lines, drawing the next
    /// piece and skipping the input stage.  Otherwise the input
    /// stage runs.  The relation is exact except where a lock draws
    /// a fresh shuffled bag, whose order is unconstrained.
    pub open spec fn step_rel(pre: Game, post: Game, dt_ms: u64, inp: InputState) -> bool {
        let it1 = sat_add(pre.input_timer as int, dt_ms as int);
        let tt1 = sat_add(pre.tick_timer as int, dt_ms as int);
        let delay: int = if inp.soft_drop {
            TICK_DELAY_FAST_MS as int
        } else {
            TICK_DELAY_MS as int
        };
        if tt1 > delay {
            let moved = pre.active_piece.with_y(pre.active_piece.position.y + 1);
            if pre.board.collides(moved) {
                &&& Self::lock_step_rel(pre, post)
                &&& post.input_timer == it1
                &&& post.tick_timer == 0
            } else {
                Self::input_phase_rel(
                    Game {
                        board: pre.board,
                        active_piece: moved,
                        input_timer: it1 as u64,
                        tick_timer: 0,
                        sequencer: pre.sequencer,
                    },
                    post,
                    inp,
                )
            }
        } else {
            Self::input_phase_rel(
                Game {
                    board: pre.board,
                    active_piece: pre.active_piece,
                    input_timer: it1 as u64,
                    tick_timer: tt1 as u64,
                    sequencer: pre.sequencer,
                },
                post,
                inp,
            )
        }
    }

    /// Assembles `after_rotation_rel` for a step that ends in a hard
    /// drop, from the drop position and lock outcome the step
    /// produced.
    proof fn lemma_after_rotation_hard_drop(
        mid: Game,
        p2: Tetromino,
        p3: Tetromino,
        drop: Point,
        it3: int,
        post: Game,
        inp: InputState,
    )
        requires
            inp.hard_drop,
            p3 == Self::reverted_after_input(mid, p2),
            is_drop_position(mid.board, p3, drop),
            Self::lock_step_rel(
                Game {
                    board: mid.board,
                    active_piece: p3.at_position(drop),
                    input_timer: mid.input_timer,
                    tick_timer: mid.tick_timer,
                    sequencer: mid.sequencer,
                },
                post,
            ),
            post.input_timer == it3,
            post.tick_timer == mid.tick_timer,
        ensures
            Self::after_rotation_rel(mid, p2, it3, post, inp),
    {
        let p3s = Self::reverted_after_input(mid, p2);
        assert(is_drop_position(mid.board, p3s, drop));
        assert(Self::lock_step_rel(
            Game {
                board: mid.board,
                active_piece: p3s.at_position(drop),
                input_timer: mid.input_timer,
                tick_timer: mid.tick_timer,
                sequencer: mid.sequencer,
            },
            post,
        ));
    }

    /// Assembles `input_phase_rel` from the pieces the input stage
    /// actually produced.
    proof fn lemma_input_phase(
        mid: Game,
        p1: Tetromino,
        p2: Tetromino,
        it3: int,
        post: Game,
        inp: InputState,
    )
        requires
            p1 == Self::moved_piece(mid, inp),
            it3 == Self::input_timer_after(mid, inp),
            inp.rotate ==> mid.board.kick_rel(p1, p2),
            !inp.rotate ==> p2 == p1,
            Self::after_rotation_rel(mid, p2, it3, post, inp),
        ensures
            Self::input_phase_rel(mid, post, inp),
    {
        if inp.rotate {
            assert(mid.board.kick_rel(Self::moved_piece(mid, inp), p2)
                && Self::after_rotation_rel(mid, p2, Self::input_timer_after(mid, inp), post, inp));
        } else {
            assert(Self::after_rotation_rel(
                mid,
                Self::moved_piece(mid, inp),
                Self::input_timer_after(mid, inp),
                post,
                inp,
            ));
        }
    }

    /// Assembles `step_rel` for a step whose gravity stage did not
    /// lock the piece.
    proof fn lemma_step_no_lock(pre: Game, mid: Game, post: Game, dt_ms: u64, inp: InputState)
        requires
            ({
                let it1 = sat_add(pre.input_timer as int, dt_ms as int);
                let tt1 = sat_add(pre.tick_timer as int, dt_ms as int);
                let delay: int = if inp.soft_drop {
                    TICK_DELAY_FAST_MS as int
                } else {
                    TICK_DELAY_MS as int
                };
                if tt1 > delay {
                    let moved = pre.active_piece.with_y(pre.active_piece.position.y + 1);
                    &&& !pre.board.collides(moved)
                    &&& mid == Game {
                        board: pre.board,
                        active_piece: moved,
                        input_timer: it1 as u64,
                        tick_timer: 0,
                        sequencer: pre.sequencer,
                    }
                } else {
                    mid == Game {
                        board: pre.board,
                        active_piece: pre.active_piece,
                        input_timer: it1 as u64,
                        tick_timer: tt1 as u64,
                        sequencer: pre.sequencer,
                    }
                }
            }),
            Self::input_phase_rel(mid, post, inp),
        ensures
            Self::step_rel(pre, post, dt_ms, inp),
    {
    }

    /// A new game: empty 10 by 20 board, zeroed timers, a freshly
    /// shuffled sequencer, and the first drawn kind spawned at the
    /// origin.
    pub fn new() -> (r: Game)
        ensures
            r.wf(),
            forall|n: int| 0 <= n < r.board.cells@.len() ==> r.board.cells@[n] == Cell::Empty,
            r.input_timer == 0,
            r.tick_timer == 0,
            r.sequencer.cursor == 1,
            Tetromino::is_spawn(r.sequencer.current@[0], r.active_piece),
    {
        let board = Board::new(BOARD_WIDTH, BOARD_HEIGHT);
        let mut sequencer = PieceSequencer::new();
        let kind = sequencer.advance();
        let active_piece = Tetromino::from_kind(kind);
        Game { board, active_piece, input_timer: 0, tick_timer: 0, sequencer }
    }

    /// Where the given piece would come to rest if dropped straight
    /// down on the current board.  Used both for the hard drop and
    /// for the ghost-piece preview.
    pub fn get_drop_position(&self, tetromino: &Tetromino) -> (r: Point)
        requires
            self.board.wf(),
            tetromino.wf(),
        ensures
            is_drop_position(self.board, *tetromino, r),
    {
        let mut temp = *tetromino;
        if self.board.check_collision(&temp) {
            return temp.position;
        }
        proof {
            if temp.position.y >= self.board.height + 4 {
                self.board.lemma_below_field_collides(temp);
            }
            assert(temp == tetromino.with_y(temp.position.y as int));
        }
        loop
            invariant
                self.board.wf(),
                tetromino.wf(),
                temp.wf(),
                temp == tetromino.with_y(temp.position.y as int),
                tetromino.position.y <= temp.position.y,
                !self.board.collides(temp),
                temp.position.y < self.board.height + 4,
                forall|y: int|
                    tetromino.position.y <= y <= temp.position.y ==> !self.board.collides(
                        #[trigger] tetromino.with_y(y),
                    ),
            decreases self.board.height + 4 - temp.position.y,
        {
            let mut probe = temp;
            probe.position.y = probe.position.y + 1;
            proof {
                assert forall|i: int| 0 <= i < 4 implies (#[trigger] probe.rel(i)) == temp.rel(
                    i,
                ) by {}
                assert(probe == tetromino.with_y(temp.position.y + 1));
            }
            if self.board.check_collision(&probe) {
                proof {
                    assert(tetromino.with_y(tetromino.position.y as int) == *tetromino);
                }
                return temp.position;
            }
            proof {
                if probe.position.y >= self.board.height + 4 {
                    self.board.lemma_below_field_collides(probe);
                }
            }
            temp = probe;
        }
    }

    /// Lock the active piece into the board, clear lines, and spawn
    /// the next piece from the sequencer.
    pub fn apply_piece_to_board(&mut self)
        requires
            old(self).wf(),
        ensures
            final(self).wf(),
            Self::lock_step_rel(*old(self), *final(self)),
            final(self).input_timer == old(self).input_timer,
            final(self).tick_timer == old(self).tick_timer,
    {
        self.board.lock(&self.active_piece);
        self.board.clear_lines();
        let kind = self.sequencer.advance();
        self.active_piece = Tetromino::from_kind(kind);
        proof {
            assert(self.board.piece_in_field(self.active_piece)) by {
                assert(Tetromino::spawn_cell_bounds(self.active_piece));
            }
        }
    }

    /// One simulation step: accumulate the elapsed time, apply
    /// gravity (locking the piece when it can no longer fall), then
    /// the horizontal move, the rotation attempt and the hard drop
    /// the input asks for.  A lock ends the step at once.
    #[verifier::rlimit(100)]
    pub fn update(&mut self, dt_ms: u64, input: InputState)
        requires
            old(self).wf(),
        ensures
            final(self).wf(),
            Self::step_rel(*old(self), *final(self), dt_ms, input),
    {
        if self.input_timer <= u64::MAX - dt_ms {
            self.input_timer = self.input_timer + dt_ms;
        } else {
            self.input_timer = u64::MAX;
        }
        if self.tick_timer <= u64::MAX - dt_ms {
            self.tick_timer = self.tick_timer + dt_ms;
        } else {
            self.tick_timer = u64::MAX;
        }
        let delay = if input.soft_drop {
            TICK_DELAY_FAST_MS
        } else {
            TICK_DELAY_MS
        };
        if self.tick_timer > delay {
            self.tick_timer = 0;
            let previous_position = self.active_piece.position;
            proof {
                self.board.lemma_in_field_anchor_bounds(self.active_piece);
            }
            self.active_piece.position.y = self.active_piece.position.y + 1;
            proof {
                assert forall|i: int|
                    0 <= i < 4 implies (#[trigger] self.active_piece.rel(i)) == old(
                    self,
                ).active_piece.rel(i) by {}
                assert(self.active_piece == old(self).active_piece.with_y(
                    old(self).active_piece.position.y + 1,
                ));
            }
            if self.board.check_collision(&self.active_piece) {
                self.active_piece.position = previous_position;
                proof {
                    assert(self.active_piece == old(self).active_piece);
                }
                self.apply_piece_to_board();
                return;
            }
        }
        let ghost mid = *self;
        proof {
            assert(self.board.piece_in_field(self.active_piece)) by {
                if self.board.collides(self.active_piece) {
                    assert(self.active_piece == old(self).active_piece);
                } else {
                    self.board.lemma_noncolliding_in_field(self.active_piece);
                }
            }
            self.board.lemma_in_field_anchor_bounds(self.active_piece);
        }
        let previous_position = self.active_piece.position;
        let direction = axis(input.left, input.right);
        if direction != 0 && self.input_timer > INPUT_DELAY_MS {
            self.active_piece.position.x = self.active_piece.position.x + direction;
            self.input_timer = 0;
        }
        let ghost p1 = self.active_piece;
        proof {
            assert forall|i: int|
                0 <= i < 4 implies (#[trigger] p1.rel(i)) == mid.active_piece.rel(i) by {}
        }
        if input.rotate {
            self.active_piece.rotate(&self.board);
            self.input_timer = 0;
        }
        let ghost p2 = self.active_piece;
        let ghost it3 = self.input_timer as int;
        proof {
            if !input.rotate {
                assert(p2 == p1);
            } else {
                assert(mid.board.kick_rel(p1, p2));
            }
        }
        if self.board.check_collision(&self.active_piece) {
            self.active_piece.position = previous_position;
            proof {
                assert forall|i: int|
                    0 <= i < 4 implies (#[trigger] self.active_piece.rel(i)) == p2.rel(i) by {}
                assert(self.active_piece == p2.at_position(mid.active_piece.position));
                assert(self.board.collides(p2) ==> p2 == p1) by {
                    if input.rotate && self.board.collides(p2) {
                        if !self.board.collides_rotated(p1, 0) {
                            self.board.lemma_collides_rotated(p1, p2, 0);
                        } else if !self.board.collides_rotated(p1, 1) {
                            self.board.lemma_collides_rotated(p1, p2, 1);
                        } else if !self.board.collides_rotated(p1, -1) {
                            self.board.lemma_collides_rotated(p1, p2, -1);
                        }
                    }
                }
                assert(self.active_piece == mid.active_piece);
            }
        } else {
            proof {
                self.board.lemma_noncolliding_in_field(self.active_piece);
            }
        }
        let ghost p3 = self.active_piece;
        proof {
            assert(self.board.piece_in_field(p3));
            assert(p3.wf());
            assert(p3 == (if mid.board.collides(p2) {
                p2.at_position(mid.active_piece.position)
            } else {
                p2
            }));
        }
        if input.hard_drop {
            let drop = self.get_drop_position(&self.active_piece);
            self.active_piece.position = drop;
            proof {
                assert forall|i: int|
                    0 <= i < 4 implies (#[trigger] self.active_piece.rel(i)) == p3.rel(i) by {}
                assert(self.active_piece == p3.at_position(drop));
                assert(self.board.piece_in_field(self.active_piece)) by {
                    if self.board.collides(p3) {
                        assert(self.active_piece == p3);
                    } else {
                        assert(self.active_piece == p3.with_y(drop.y as int));
                        assert(!self.board.collides(p3.with_y(drop.y as int)));
                        self.board.lemma_noncolliding_in_field(self.active_piece);
                    }
                }
            }
            self.apply_piece_to_board();
            proof {
                Self::lemma_after_rotation_hard_drop(mid, p2, p3, drop, it3, *self, input);
            }
        } else {
            proof {
                assert(Self::after_rotation_rel(mid, p2, it3, *self, input));
            }
        }
        proof {
            Self::lemma_input_phase(mid, p1, p2, it3, *self, input);
            Self::lemma_step_no_lock(*old(self), mid, *self, dt_ms, input);
        }
    }
}

} // verus!
