//! The game state machine: board, bag, active and held piece, score, level
//! and speed, with the move / rotate / drop / hold / pause operations and
//! the gravity transition that locks pieces, clears lines and levels up.

use vstd::prelude::*;
use vstd::multiset::Multiset;

use crate::board::{
    board_wf, cell_cmd, cleared_board, collides_at, empty_board, floor_cmd, lemma_contains_concat,
    lock_spec, num_full, wall_cmd, Board, CellCmd, BOARD_HEIGHT, BOARD_WIDTH, HIDDEN_ROWS,
};
use crate::piece::{
    bag_wf, cell_filled, colors_of, full_bag, is_canonical, lemma_canonical_wf, piece_colors,
    piece_wf, rotated, shadow_of, Piece, PieceBag, PieceV,
};
use crate::util::{Color, Direction, Point};

verus! {

/// A logical key, as decoded from raw terminal input.
#[derive(Clone, Copy, Debug, PartialEq, Eq, Structural)]
pub enum Key {
    Up,
    Down,
    Left,
    Right,
    Space,
    CtrlC,
    Hold,
    Pause,
    Char(char),
}

/// One event consumed by the game loop: a key press or a gravity tick.
#[derive(Clone, Copy, Debug, PartialEq, Eq, Structural)]
pub enum GameUpdate {
    KeyPress(Key),
    Tick,
}

/// The whole game state. The embedding program publishes `speed` and
/// `paused` to its tick producer after every event it dispatches.
pub struct Game {
    pub board: Board,
    pub piece_bag: PieceBag,
    pub piece: Piece,
    pub hold: Option<Piece>,
    pub piece_position: Point,
    pub score: u32,
    pub switched: bool,
    pub level: u32,
    pub speed: u64,
    pub to_clear: i32,
    pub paused: bool,
}

/// The game invariant: well-formed board, pieces and bag, a level of at
/// least 1, a positive line quota, and a tick interval between 20 and 500
/// milliseconds.
pub open spec fn game_wf(g: Game) -> bool {
    &&& board_wf(g.board@)
    &&& piece_wf(g.piece@)
    &&& bag_wf(g.piece_bag)
    &&& (g.hold is Some ==> piece_wf(g.hold.unwrap()@))
    &&& g.level >= 1
    &&& g.to_clear >= 1
    &&& 20 <= g.speed <= 500
}

/// The active piece stands on a non-colliding placement. Established at
/// spawn and preserved by every successful operation; it fails to hold only
/// once the game is over.
pub open spec fn placement_ok(g: Game) -> bool {
    !collides_at(g.board@, g.piece@, g.piece_position.x as int, g.piece_position.y as int)
}

/// Room in the machine integers for one more lock: the largest possible
/// score award still fits in the score counter, and the level counter is
/// far from its limits.
pub open spec fn scoring_headroom(g: Game) -> bool {
    &&& g.score + 800 * (g.level as int) <= u32::MAX
    &&& (g.level as int) <= 0x0400_0000
}

/// The spawn column for a piece whose shape has side `n`: horizontally
/// centered.
pub open spec fn spawn_x(n: int) -> int {
    (BOARD_WIDTH as int - n) / 2
}

/// The score awarded for clearing `cleared` rows at once on the given
/// level: the fixed 100/300/500/800 table, scaled by the level.
pub open spec fn award(cleared: int, level: int) -> int {
    if cleared == 1 {
        100 * level
    } else if cleared == 2 {
        300 * level
    } else if cleared == 3 {
        500 * level
    } else if cleared == 4 {
        800 * level
    } else {
        0
    }
}

/// The tick interval for a level: 500 ms shortened by 20 ms per level,
/// clamped to [20, 500].
pub open spec fn speed_of(level: int) -> int {
    if 500 - 20 * level < 20 {
        20
    } else if 500 - 20 * level > 500 {
        500
    } else {
        500 - 20 * level
    }
}

/// The bag after one pop: the front piece is gone, and if that emptied the
/// queue it has been refilled with a fresh full bag.
pub open spec fn bag_popped(pre: PieceBag, post: PieceBag) -> bool {
    if pre.pieces@.len() > 1 {
        post.pieces@ == pre.pieces@.drop_first()
    } else {
        full_bag(post.pieces@)
    }
}

/// Everything except the active piece's position is unchanged.
pub open spec fn same_but_position(pre: Game, post: Game) -> bool {
    &&& post.board == pre.board
    &&& post.piece_bag == pre.piece_bag
    &&& post.piece == pre.piece
    &&& post.hold == pre.hold
    &&& post.score == pre.score
    &&& post.switched == pre.switched
    &&& post.level == pre.level
    &&& post.speed == pre.speed
    &&& post.to_clear == pre.to_clear
    &&& post.paused == pre.paused
}

/// The move transition: the piece shifts by `(dx, dy)` exactly when the
/// shifted placement does not collide; otherwise nothing changes.
pub open spec fn move_rel(pre: Game, post: Game, dx: int, dy: int, moved: bool) -> bool {
    let nx = pre.piece_position.x + dx;
    let ny = pre.piece_position.y + dy;
    if collides_at(pre.board@, pre.piece@, nx, ny) {
        &&& !moved
        &&& post == pre
    } else {
        &&& moved
        &&& same_but_position(pre, post)
        &&& post.piece_position.x == nx
        &&& post.piece_position.y == ny
    }
}

/// The rotate transition: the piece takes its rotated shape exactly when
/// the rotated shape does not collide at the current position; otherwise
/// nothing changes. There is no wall-kick search.
pub open spec fn rotate_rel(pre: Game, post: Game, d: Direction, ok: bool) -> bool {
    let rp = PieceV { color: pre.piece@.color, shape: rotated(d, pre.piece@.shape) };
    if collides_at(pre.board@, rp, pre.piece_position.x as int, pre.piece_position.y as int) {
        &&& !ok
        &&& post == pre
    } else {
        &&& ok
        &&& post.piece@ == rp
        &&& post.board == pre.board
        &&& post.piece_bag == pre.piece_bag
        &&& post.hold == pre.hold
        &&& post.piece_position == pre.piece_position
        &&& post.score == pre.score
        &&& post.switched == pre.switched
        &&& post.level == pre.level
        &&& post.speed == pre.speed
        &&& post.to_clear == pre.to_clear
        &&& post.paused == pre.paused
    }
}

/// The landing position of the active piece: the last non-colliding
/// placement straight below the current one. If the current placement
/// already collides, one step above the current row.
pub open spec fn dropped_rel(pre: Game, p: Point) -> bool {
    let px = pre.piece_position.x as int;
    let py = pre.piece_position.y as int;
    if collides_at(pre.board@, pre.piece@, px, py) {
        p.x == pre.piece_position.x && p.y == py - 1
    } else {
        &&& p.x == pre.piece_position.x
        &&& p.y >= py
        &&& forall|yy: int| py <= yy <= p.y ==> !collides_at(pre.board@, pre.piece@, px, yy)
        &&& collides_at(pre.board@, pre.piece@, px, p.y + 1)
    }
}

/// The spawn transition: the piece is re-placed at the spawn origin exactly
/// when that placement does not collide; a blocked spawn leaves the
/// position unchanged and signals game over.
pub open spec fn place_rel(pre: Game, post: Game, ok: bool) -> bool {
    let sx = spawn_x(pre.piece@.shape.len() as int);
    if collides_at(pre.board@, pre.piece@, sx, 0) {
        &&& !ok
        &&& post == pre
    } else {
        &&& ok
        &&& same_but_position(pre, post)
        &&& post.piece_position.x == sx
        &&& post.piece_position.y == 0
    }
}

/// The pause transition: the shared pause flag flips and nothing else
/// changes.
pub open spec fn pause_rel(pre: Game, post: Game) -> bool {
    &&& post.paused == !pre.paused
    &&& post.board == pre.board
    &&& post.piece_bag == pre.piece_bag
    &&& post.piece == pre.piece
    &&& post.hold == pre.hold
    &&& post.piece_position == pre.piece_position
    &&& post.score == pre.score
    &&& post.switched == pre.switched
    &&& post.level == pre.level
    &&& post.speed == pre.speed
    &&& post.to_clear == pre.to_clear
}

/// The hold transition. A second hold without an intervening lock is
/// refused and changes nothing. Otherwise the active piece goes to the hold
/// slot; the previously held piece (or, with an empty slot, the next bag
/// piece) becomes active and is re-placed at the spawn origin, whose
/// blocking signals game over exactly as a normal spawn does.
pub open spec fn hold_rel(pre: Game, post: Game, ok: bool) -> bool {
    if pre.switched {
        &&& !ok
        &&& post == pre
    } else {
        &&& post.hold is Some
        &&& post.hold.unwrap()@ == pre.piece@
        &&& match pre.hold {
            Some(h) => post.piece@ == h@ && post.piece_bag == pre.piece_bag,
            None => post.piece == pre.piece_bag.pieces@[0] && bag_popped(
                pre.piece_bag,
                post.piece_bag,
            ),
        }
        &&& post.switched == true
        &&& post.board == pre.board
        &&& post.score == pre.score
        &&& post.level == pre.level
        &&& post.speed == pre.speed
        &&& post.to_clear == pre.to_clear
        &&& post.paused == pre.paused
        &&& ({
            let sx = spawn_x(post.piece@.shape.len() as int);
            if collides_at(pre.board@, post.piece@, sx, 0) {
                !ok && post.piece_position == pre.piece_position
            } else {
                ok && post.piece_position.x == sx && post.piece_position.y == 0
            }
        })
    }
}

/// The grid after the active piece locks at its current position.
pub open spec fn after_lock(pre: Game) -> Seq<Seq<Option<Color>>> {
    lock_spec(pre.board@, pre.piece@, pre.piece_position.x as int, pre.piece_position.y as int)
}

/// The lock half of the gravity transition: the piece locks, full rows
/// clear, the score grows by the level-scaled award, the line quota falls
/// by the cleared count (leveling up and speeding up when it runs out), the
/// next bag piece becomes active with the hold guard reset, and it spawns
/// unless the spawn is blocked, which signals game over.
pub open spec fn lock_rel(pre: Game, post: Game, alive: bool) -> bool {
    let cleared = num_full(after_lock(pre));
    &&& post.board@ == cleared_board(after_lock(pre))
    &&& post.score == pre.score + award(cleared, pre.level as int)
    &&& ({
        let t = pre.to_clear - cleared;
        if t <= 0 {
            &&& post.level == pre.level + 1
            &&& post.to_clear == 10 * (pre.level + 1)
            &&& post.speed == speed_of(pre.level as int + 1)
        } else {
            &&& post.level == pre.level
            &&& post.to_clear == t
            &&& post.speed == pre.speed
        }
    })
    &&& post.piece == pre.piece_bag.pieces@[0]
    &&& bag_popped(pre.piece_bag, post.piece_bag)
    &&& post.switched == false
    &&& post.hold == pre.hold
    &&& post.paused == pre.paused
    &&& ({
        let sx = spawn_x(post.piece@.shape.len() as int);
        if collides_at(post.board@, post.piece@, sx, 0) {
            !alive && post.piece_position == pre.piece_position
        } else {
            alive && post.piece_position.x == sx && post.piece_position.y == 0
        }
    })
}

/// The gravity transition: the piece falls one row if it can; otherwise the
/// lock half runs. `alive` is false exactly when the next piece cannot
/// spawn: game over.
pub open spec fn advance_rel(pre: Game, post: Game, alive: bool) -> bool {
    if !collides_at(
        pre.board@,
        pre.piece@,
        pre.piece_position.x as int,
        pre.piece_position.y as int + 1,
    ) {
        &&& alive
        &&& same_but_position(pre, post)
        &&& post.piece_position.x == pre.piece_position.x
        &&& post.piece_position.y == pre.piece_position.y + 1
    } else {
        lock_rel(pre, post, alive)
    }
}

/// `g` with the active piece moved to row `yd`.
pub open spec fn with_y(pre: Game, yd: int) -> Game {
    Game { piece_position: Point { x: pre.piece_position.x, y: yd as i32 }, ..pre }
}

/// The hard-drop transition: the piece falls straight to its landing
/// position and the gravity transition then locks it there.
pub open spec fn drop_rel(pre: Game, post: Game, alive: bool) -> bool {
    exists|yd: int|
        {
            &&& #[trigger] dropped_rel(pre, Point { x: pre.piece_position.x, y: yd as i32 })
            &&& pre.piece_position.y <= yd <= BOARD_HEIGHT as int
            &&& advance_rel(with_y(pre, yd), post, alive)
        }
}

/// The key dispatch: when paused only the pause key does anything; when
/// running each key triggers its operation and unrecognized keys change
/// nothing. Results of the operations are discarded.
pub open spec fn keypress_rel(pre: Game, post: Game, key: Key) -> bool {
    if pre.paused {
        match key {
            Key::Pause => pause_rel(pre, post),
            _ => post == pre,
        }
    } else {
        match key {
            Key::Left => move_rel(
                pre,
                post,
                -1,
                0,
                !collides_at(
                    pre.board@,
                    pre.piece@,
                    pre.piece_position.x - 1,
                    pre.piece_position.y as int,
                ),
            ),
            Key::Right => move_rel(
                pre,
                post,
                1,
                0,
                !collides_at(
                    pre.board@,
                    pre.piece@,
                    pre.piece_position.x + 1,
                    pre.piece_position.y as int,
                ),
            ),
            Key::Down => exists|alive: bool| #[trigger] advance_rel(pre, post, alive),
            Key::Up => exists|ok: bool| #[trigger] rotate_rel(pre, post, Direction::Left, ok),
            Key::Space => exists|alive: bool| #[trigger] drop_rel(pre, post, alive),
            Key::Hold => exists|ok: bool| #[trigger] hold_rel(pre, post, ok),
            Key::Pause => pause_rel(pre, post),
            Key::Char(ch) => if ch == 'q' {
                exists|ok: bool| #[trigger] rotate_rel(pre, post, Direction::Left, ok)
            } else if ch == 'e' {
                exists|ok: bool| #[trigger] rotate_rel(pre, post, Direction::Right, ok)
            } else {
                post == pre
            },
            Key::CtrlC => post == pre,
        }
    }
}

/// The consumer dispatch: the quit keys end the session with the state
/// unchanged; any other key press is dispatched and the session continues;
/// a tick runs the gravity transition and the session continues exactly
/// while the game is not over.
pub open spec fn event_rel(pre: Game, post: Game, update: GameUpdate, cont: bool) -> bool {
    match update {
        GameUpdate::Tick => advance_rel(pre, post, cont),
        GameUpdate::KeyPress(k) => match k {
            Key::CtrlC => !cont && post == pre,
            Key::Char(ch) => if ch == 'z' {
                !cont && post == pre
            } else {
                cont && keypress_rel(pre, post, k)
            },
            _ => cont && keypress_rel(pre, post, k),
        },
    }
}

/// A well-formed piece on a non-colliding placement keeps its position in a
/// narrow window around the grid.
pub proof fn lemma_placement_bounds(g: Game)
    requires
        piece_wf(g.piece@),
        placement_ok(g),
    ensures
        -3 <= g.piece_position.x <= 9,
        -3 <= g.piece_position.y <= 19,
{
    let (r, c) = choose|r: int, c: int| cell_filled(g.piece@.shape, r, c);
    assert(!crate::board::cell_blocked(
        g.board@,
        g.piece_position.x + c,
        g.piece_position.y + r,
    ));
    assert(r < 4 && c < 4);
}

/// A canonical piece spawns without collision on an empty grid.
pub proof fn lemma_spawn_on_empty(p: PieceV)
    requires
        piece_wf(p),
    ensures
        !collides_at(empty_board(), p, spawn_x(p.shape.len() as int), 0),
{
    let n = p.shape.len() as int;
    let sx = spawn_x(n);
    assert(2 <= n <= 4);
    assert(3 <= sx <= 4);
    assert forall|r: int, c: int| #[trigger] cell_filled(p.shape, r, c) implies !crate::board::cell_blocked(
        empty_board(),
        sx + c,
        0 + r,
    ) by {
        assert(0 <= sx + c < BOARD_WIDTH);
        assert(0 <= r < BOARD_HEIGHT);
        assert(empty_board()[r][sx + c] is None);
    }
}

impl Game {
    /// A fresh session: empty board, freshly shuffled bag, the first bag
    /// piece spawned (which cannot fail on an empty board), score 0, level
    /// 1, a 10-line quota and the initial 500 ms tick interval.
    pub fn new() -> (g: Game)
        ensures
            game_wf(g),
            placement_ok(g),
            scoring_headroom(g),
            g.board@ == empty_board(),
            g.score == 0,
            g.level == 1,
            g.speed == 500,
            g.to_clear == 10,
            g.switched == false,
            g.hold is None,
            g.paused == false,
            is_canonical(g.piece@),
            g.piece_bag.pieces@.len() == 6,
            colors_of(g.piece_bag.pieces@).to_multiset().insert(g.piece.color) == piece_colors()
                .to_multiset(),
            g.piece_position.x == spawn_x(g.piece@.shape.len() as int),
            g.piece_position.y == 0,
    {
        let mut piece_bag = PieceBag::new();
        let ghost bag0 = piece_bag.pieces@;
        let piece = piece_bag.pop();
        proof {
            broadcast use vstd::seq_lib::group_to_multiset_ensures;
            broadcast use vstd::multiset::group_multiset_axioms;

            let cs = colors_of(bag0);
            assert(piece_bag.pieces@ == bag0.drop_first());
            assert(colors_of(bag0.drop_first()) =~= cs.remove(0));
            assert(cs.remove(0).to_multiset() == cs.to_multiset().remove(cs[0]));
            assert(cs.contains(cs[0]));
            assert(cs.to_multiset().count(cs[0]) > 0);
            assert(cs.remove(0).to_multiset().insert(cs[0]) =~= cs.to_multiset());
            assert(piece.color == cs[0]);
        }
        let mut game = Game {
            board: Board::new(),
            piece_bag,
            piece,
            hold: None,
            piece_position: Point { x: 0, y: 0 },
            score: 0,
            switched: false,
            level: 1,
            speed: 500,
            to_clear: 10,
            paused: false,
        };
        proof {
            lemma_canonical_wf(game.piece@);
            lemma_spawn_on_empty(game.piece@);
        }
        let ok = game.place_new_piece();
        assert(ok);
        game
    }

    /// Shifts the active piece by `(x, y)` if the shifted placement does
    /// not collide; reports whether it moved.
    pub fn move_piece(&mut self, x: i32, y: i32) -> (moved: bool)
        requires
            game_wf(*old(self)),
            i32::MIN <= old(self).piece_position.x + x <= i32::MAX,
            i32::MIN <= old(self).piece_position.y + y <= i32::MAX,
        ensures
            game_wf(*final(self)),
            move_rel(*old(self), *final(self), x as int, y as int, moved),
            moved ==> placement_ok(*final(self)),
    {
        let new_position = Point { x: self.piece_position.x + x, y: self.piece_position.y + y };
        if self.board.collision_test(&self.piece, new_position) {
            false
        } else {
            self.piece_position = new_position;
            true
        }
    }

    /// Rotates the active piece in the given direction if the rotated shape
    /// does not collide at the current position; reports whether it turned.
    pub fn rotate_piece(&mut self, direction: Direction) -> (ok: bool)
        requires
            game_wf(*old(self)),
        ensures
            game_wf(*final(self)),
            rotate_rel(*old(self), *final(self), direction, ok),
            ok ==> placement_ok(*final(self)),
            !ok ==> placement_ok(*old(self)) == placement_ok(*final(self)),
    {
        let mut new_piece = self.piece.clone();
        new_piece.rotate(direction);
        if self.board.collision_test(&new_piece, self.piece_position) {
            false
        } else {
            self.piece = new_piece;
            true
        }
    }

    /// The landing position of the active piece: straight down from the
    /// current position until the step below would collide. Pure.
    pub fn find_dropped_position(&self) -> (p: Point)
        requires
            game_wf(*self),
            placement_ok(*self),
        ensures
            dropped_rel(*self, p),
            p.y <= BOARD_HEIGHT as int,
    {
        proof {
            lemma_placement_bounds(*self);
        }
        let mut origin = self.piece_position;
        loop
            invariant_except_break
                game_wf(*self),
                placement_ok(*self),
                origin.x == self.piece_position.x,
                self.piece_position.y <= origin.y <= BOARD_HEIGHT as int,
                -3 <= self.piece_position.y,
                forall|yy: int| self.piece_position.y <= yy < origin.y ==> !collides_at(
                    self.board@,
                    self.piece@,
                    origin.x as int,
                    yy,
                ),
            ensures
                origin.x == self.piece_position.x,
                self.piece_position.y <= origin.y <= BOARD_HEIGHT as int,
                forall|yy: int| self.piece_position.y <= yy < origin.y ==> !collides_at(
                    self.board@,
                    self.piece@,
                    origin.x as int,
                    yy,
                ),
                collides_at(self.board@, self.piece@, origin.x as int, origin.y as int),
                origin.y > self.piece_position.y,
            decreases BOARD_HEIGHT as int - origin.y,
        {
            if self.board.collision_test(&self.piece, origin) {
                break;
            }
            proof {
                let (r, c) = choose|r: int, c: int| cell_filled(self.piece@.shape, r, c);
                assert(!crate::board::cell_blocked(self.board@, origin.x + c, origin.y + r));
                assert(origin.y < BOARD_HEIGHT as int);
            }
            origin.y = origin.y + 1;
        }
        origin.y = origin.y - 1;
        origin
    }

    /// Re-places the active piece at the spawn origin (horizontally
    /// centered, row 0) if that placement does not collide. A blocked spawn
    /// reports false: game over.
    pub fn place_new_piece(&mut self) -> (ok: bool)
        requires
            game_wf(*old(self)),
        ensures
            game_wf(*final(self)),
            place_rel(*old(self), *final(self), ok),
            ok ==> placement_ok(*final(self)),
    {
        let n = self.piece.shape.len();
        proof {
            assert(self.piece@.shape.len() == n);
            assert(2 <= n <= 4);
        }
        let origin = Point { x: ((BOARD_WIDTH - n) / 2) as i32, y: 0 };
        assert(origin.x as int == spawn_x(n as int));
        if self.board.collision_test(&self.piece, origin) {
            false
        } else {
            self.piece_position = origin;
            true
        }
    }

    /// Banks the active piece. Refused (false, no change) if a hold already
    /// happened since the last lock. Otherwise swaps with the held piece,
    /// or with the next bag piece when the hold slot is empty, and spawns
    /// the incoming piece; a blocked spawn reports false, as game over.
    pub fn switch_hold(&mut self) -> (ok: bool)
        requires
            game_wf(*old(self)),
        ensures
            game_wf(*final(self)),
            hold_rel(*old(self), *final(self), ok),
            ok ==> placement_ok(*final(self)),
    {
        if self.switched {
            return false;
        }
        match &self.hold {
            Some(p) => {
                let tmp = p.clone();
                self.hold = Some(self.piece.clone());
                self.piece = tmp;
            },
            None => {
                self.hold = Some(self.piece.clone());
                self.piece = self.piece_bag.pop();
                proof {
                    lemma_canonical_wf(self.piece@);
                }
            },
        }
        self.switched = true;
        self.place_new_piece()
    }

    /// Flips the pause flag; always reports true.
    pub fn pause(&mut self) -> (r: bool)
        requires
            game_wf(*old(self)),
        ensures
            game_wf(*final(self)),
            pause_rel(*old(self), *final(self)),
            r == true,
    {
        self.paused = !self.paused;
        true
    }

    /// The gravity transition: the piece falls one row, or, when it cannot,
    /// locks at its place; lines clear, score and level update, the next
    /// piece spawns. Reports false exactly when that spawn is blocked: the
    /// player has lost.
    pub fn advance_game(&mut self) -> (alive: bool)
        requires
            game_wf(*old(self)),
            placement_ok(*old(self)),
            scoring_headroom(*old(self)),
        ensures
            game_wf(*final(self)),
            advance_rel(*old(self), *final(self), alive),
            alive ==> placement_ok(*final(self)),
    {
        let ghost pre = *self;
        proof {
            lemma_placement_bounds(pre);
        }
        if !self.move_piece(0, 1) {
            let pos = self.piece_position;
            self.board.lock_piece(&self.piece, pos);
            let cleared = self.board.clear_lines();
            proof {
                crate::board::lemma_kept_rows_len(after_lock(pre));
                assert(cleared <= BOARD_HEIGHT);
            }
            match cleared {
                1 => {
                    self.score = self.score + 100 * self.level;
                },
                2 => {
                    self.score = self.score + 300 * self.level;
                },
                3 => {
                    self.score = self.score + 500 * self.level;
                },
                4 => {
                    self.score = self.score + 800 * self.level;
                },
                _ => {},
            }
            assert(self.score == pre.score + award(cleared as int, pre.level as int));
            self.to_clear = self.to_clear - cleared as i32;
            if self.to_clear <= 0 {
                self.level = self.level + 1;
                self.to_clear = (self.level as i32) * 10;
                let l = self.level as u64;
                let new_speed: u64 = if l * 20 + 20 > 500 {
                    20
                } else {
                    500 - l * 20
                };
                self.speed = new_speed;
                assert(self.speed == speed_of(pre.level as int + 1));
            }
            self.piece = self.piece_bag.pop();
            self.switched = false;
            proof {
                lemma_canonical_wf(self.piece@);
            }
            if !self.place_new_piece() {
                return false;
            }
        }
        true
    }

    /// Hard drop: the piece falls straight to its landing position and the
    /// gravity transition locks it there at once. Reports the gravity
    /// transition's result.
    pub fn drop_piece(&mut self) -> (alive: bool)
        requires
            game_wf(*old(self)),
            placement_ok(*old(self)),
            scoring_headroom(*old(self)),
        ensures
            game_wf(*final(self)),
            drop_rel(*old(self), *final(self), alive),
            alive ==> placement_ok(*final(self)),
    {
        let ghost pre = *self;
        loop
            invariant_except_break
                game_wf(*self),
                placement_ok(*self),
                scoring_headroom(*self),
                same_but_position(pre, *self),
                piece_wf(pre.piece@),
                self.piece_position.x == pre.piece_position.x,
                self.piece_position.y >= pre.piece_position.y,
                forall|yy: int| pre.piece_position.y <= yy <= self.piece_position.y
                    ==> !collides_at(
                    pre.board@,
                    pre.piece@,
                    pre.piece_position.x as int,
                    yy,
                ),
            ensures
                game_wf(*self),
                placement_ok(*self),
                scoring_headroom(*self),
                same_but_position(pre, *self),
                self.piece_position.x == pre.piece_position.x,
                self.piece_position.y >= pre.piece_position.y,
                forall|yy: int| pre.piece_position.y <= yy <= self.piece_position.y
                    ==> !collides_at(
                    pre.board@,
                    pre.piece@,
                    pre.piece_position.x as int,
                    yy,
                ),
                collides_at(
                    pre.board@,
                    pre.piece@,
                    pre.piece_position.x as int,
                    self.piece_position.y + 1,
                ),
                self.piece_position.y <= BOARD_HEIGHT as int,
            decreases BOARD_HEIGHT as int - self.piece_position.y,
        {
            proof {
                lemma_placement_bounds(*self);
            }
            let moved = self.move_piece(0, 1);
            if !moved {
                proof {
                    lemma_placement_bounds(*self);
                }
                break;
            }
        }
        let ghost yd = self.piece_position.y as int;
        assert(*self == with_y(pre, yd));
        let alive = self.advance_game();
        proof {
            assert(dropped_rel(pre, Point { x: pre.piece_position.x, y: yd as i32 }));
            assert(advance_rel(with_y(pre, yd), *self, alive));
        }
        alive
    }

    /// Dispatches one key. When paused, every key but the pause key is
    /// ignored. Results of the triggered operations are discarded, exactly
    /// as the event loop discards them.
    pub fn keypress(&mut self, key: Key)
        requires
            game_wf(*old(self)),
            placement_ok(*old(self)),
            scoring_headroom(*old(self)),
        ensures
            game_wf(*final(self)),
            keypress_rel(*old(self), *final(self), key),
    {
        let ghost pre = *self;
        proof {
            lemma_placement_bounds(pre);
        }
        if self.paused {
            match key {
                Key::Pause => {
                    self.pause();
                },
                _ => {},
            }
            return;
        }
        match key {
            Key::Left => {
                self.move_piece(-1, 0);
            },
            Key::Right => {
                self.move_piece(1, 0);
            },
            Key::Down => {
                let alive = self.advance_game();
                assert(advance_rel(pre, *self, alive));
            },
            Key::Up => {
                let ok = self.rotate_piece(Direction::Left);
                assert(rotate_rel(pre, *self, Direction::Left, ok));
            },
            Key::Space => {
                let alive = self.drop_piece();
                assert(drop_rel(pre, *self, alive));
            },
            Key::Hold => {
                let ok = self.switch_hold();
                assert(hold_rel(pre, *self, ok));
            },
            Key::Pause => {
                self.pause();
            },
            Key::Char(ch) => {
                if ch == 'q' {
                    let ok = self.rotate_piece(Direction::Left);
                    assert(rotate_rel(pre, *self, Direction::Left, ok));
                } else if ch == 'e' {
                    let ok = self.rotate_piece(Direction::Right);
                    assert(rotate_rel(pre, *self, Direction::Right, ok));
                }
            },
            Key::CtrlC => {},
        }
    }

    /// Dispatches one event for the consumer loop. Reports false when the
    /// session ends: a quit key, or a tick on which the game is over.
    pub fn handle_event(&mut self, update: GameUpdate) -> (cont: bool)
        requires
            game_wf(*old(self)),
            placement_ok(*old(self)),
            scoring_headroom(*old(self)),
        ensures
            game_wf(*final(self)),
            event_rel(*old(self), *final(self), update, cont),
    {
        match update {
            GameUpdate::KeyPress(key) => match key {
                Key::Char('z') | Key::CtrlC => false,
                k => {
                    self.keypress(k);
                    true
                },
            },
            GameUpdate::Tick => self.advance_game(),
        }
    }

    /// The draw requests for one piece at display origin `origin`: two
    /// display cells per occupied shape cell, painted in the piece's color,
    /// or in its dimmed shadow color for the ghost projection.
    pub fn render_piece(&self, piece: &Piece, origin: Point, dim: bool) -> (cmds: Vec<CellCmd>)
        requires
            crate::piece::is_square(piece@.shape),
            piece@.shape.len() <= 4,
            forall|r: int, c: int| #[trigger] cell_filled(piece@.shape, r, c) ==> 0 <= origin.x + 2
                * c && origin.x + 2 * c + 1 <= 100000 && 0 <= origin.y + r <= 100000,
        ensures
            forall|r: int, c: int| #[trigger] cell_filled(piece@.shape, r, c) ==> cmds@.contains(
                cell_cmd(origin.x + 2 * c, origin.y + r, paint_color(piece@.color, dim)),
            ) && cmds@.contains(
                cell_cmd(origin.x + 2 * c + 1, origin.y + r, paint_color(piece@.color, dim)),
            ),
    {
        let color = if dim {
            piece.get_shadow_color()
        } else {
            piece.color
        };
        let pts = piece.each_point();
        let mut cmds: Vec<CellCmd> = Vec::new();
        let mut k: usize = 0;
        while k < pts.len()
            invariant
                color == paint_color(piece@.color, dim),
                crate::piece::is_square(piece@.shape),
                piece@.shape.len() <= 4,
                forall|r: int, c: int| #[trigger] cell_filled(piece@.shape, r, c) ==> 0 <= origin.x
                    + 2 * c && origin.x + 2 * c + 1 <= 100000 && 0 <= origin.y + r <= 100000,
                k <= pts@.len(),
                forall|j: int| 0 <= j < pts@.len() ==> cell_filled(
                    piece@.shape,
                    (#[trigger] pts@[j]).0 as int,
                    pts@[j].1 as int,
                ),
                forall|r: int, c: int| #[trigger] cell_filled(piece@.shape, r, c)
                    ==> pts@.contains((r as usize, c as usize)),
                forall|j: int| 0 <= j < k ==> cmds@.contains(
                    cell_cmd(
                        origin.x + 2 * (#[trigger] pts@[j]).1,
                        origin.y + pts@[j].0,
                        color,
                    ),
                ) && cmds@.contains(
                    cell_cmd(origin.x + 2 * pts@[j].1 + 1, origin.y + pts@[j].0, color),
                ),
            decreases pts@.len() - k,
        {
            broadcast use vstd::seq_lib::lemma_seq_contains_after_push;

            let (row, col) = pts[k];
            proof {
                assert(cell_filled(piece@.shape, pts@[k as int].0 as int, pts@[k as int].1 as int));
                assert(row < 4 && col < 4);
            }
            let cx = origin.x + 2 * (col as i32);
            let cy = origin.y + (row as i32);
            cmds.push(CellCmd { ch: ' ', x: cx as u32, y: cy as u32, fg: color, bg: color });
            cmds.push(CellCmd { ch: ' ', x: (cx + 1) as u32, y: cy as u32, fg: color, bg: color });
            k += 1;
        }
        proof {
            assert forall|r: int, c: int| #[trigger] cell_filled(piece@.shape, r, c) implies cmds@.contains(
                cell_cmd(origin.x + 2 * c, origin.y + r, paint_color(piece@.color, dim)),
            ) && cmds@.contains(
                cell_cmd(origin.x + 2 * c + 1, origin.y + r, paint_color(piece@.color, dim)),
            ) by {
                assert(pts@.contains((r as usize, c as usize)));
                let j = choose|j: int| 0 <= j < pts@.len() && pts@[j] == (r as usize, c as usize);
                assert(cmds@.contains(cell_cmd(origin.x + 2 * pts@[j].1, origin.y + pts@[j].0, color)));
            }
        }
        cmds
    }

    /// The draw requests for one frame: the field, the ghost projection at
    /// the landing position, the falling piece, the next-piece preview and
    /// the held piece if any. The caption text beside the field is the
    /// renderer's own business.
    pub fn render(&self) -> (cmds: Vec<CellCmd>)
        requires
            game_wf(*self),
            placement_ok(*self),
        ensures
            forall|y: int| HIDDEN_ROWS <= y < BOARD_HEIGHT ==> cmds@.contains(
                #[trigger] wall_cmd(0, y),
            ) && cmds@.contains(wall_cmd(2 * BOARD_WIDTH + 1, y)),
            forall|x: int| 0 <= x <= 2 * BOARD_WIDTH ==> cmds@.contains(#[trigger] floor_cmd(x)),
            forall|row: int, col: int|
                0 <= row < BOARD_HEIGHT && 0 <= col < BOARD_WIDTH && (#[trigger] self.board@[row][col])
                    is Some ==> cmds@.contains(
                    cell_cmd(1 + 2 * col, row, self.board@[row][col].unwrap()),
                ) && cmds@.contains(cell_cmd(2 + 2 * col, row, self.board@[row][col].unwrap())),
            forall|r: int, c: int| #[trigger] cell_filled(self.piece@.shape, r, c)
                ==> cmds@.contains(
                cell_cmd(
                    1 + 2 * (self.piece_position.x + c),
                    self.piece_position.y + r,
                    self.piece@.color,
                ),
            ) && cmds@.contains(
                cell_cmd(
                    2 + 2 * (self.piece_position.x + c),
                    self.piece_position.y + r,
                    self.piece@.color,
                ),
            ),
            exists|gy: int|
                {
                    &&& #[trigger] dropped_rel(
                        *self,
                        Point { x: self.piece_position.x, y: gy as i32 },
                    )
                    &&& self.piece_position.y <= gy <= BOARD_HEIGHT as int
                    &&& forall|r: int, c: int| #[trigger] cell_filled(self.piece@.shape, r, c)
                        ==> cmds@.contains(
                        cell_cmd(
                            1 + 2 * (self.piece_position.x + c),
                            gy + r,
                            shadow_of(self.piece@.color),
                        ),
                    ) && cmds@.contains(
                        cell_cmd(
                            2 + 2 * (self.piece_position.x + c),
                            gy + r,
                            shadow_of(self.piece@.color),
                        ),
                    )
                },
            forall|r: int, c: int|
                #[trigger] cell_filled(self.piece_bag.pieces@[0]@.shape, r, c) ==> cmds@.contains(
                    cell_cmd(27 + 2 * c, 9 + r, self.piece_bag.pieces@[0]@.color),
                ) && cmds@.contains(cell_cmd(28 + 2 * c, 9 + r, self.piece_bag.pieces@[0]@.color)),
            self.hold is Some ==> forall|r: int, c: int|
                #[trigger] cell_filled(self.hold.unwrap()@.shape, r, c) ==> cmds@.contains(
                    cell_cmd(27 + 2 * c, 13 + r, self.hold.unwrap()@.color),
                ) && cmds@.contains(cell_cmd(28 + 2 * c, 13 + r, self.hold.unwrap()@.color)),
    {
        proof {
            lemma_placement_bounds(*self);
        }
        let mut cmds = self.board.render();
        let x0 = 1 + 2 * self.piece_position.x;
        let ghost px = self.piece_position.x as int;
        let ghost py = self.piece_position.y as int;

        // Ghost projection at the landing position.
        let gp = self.find_dropped_position();
        proof {
            assert forall|r: int, c: int| #[trigger] cell_filled(self.piece@.shape, r, c) implies 0
                <= x0 + 2 * c && x0 + 2 * c + 1 <= 100000 && 0 <= gp.y + r <= 100000 by {
                assert(!crate::board::cell_blocked(self.board@, px + c, py + r));
                assert(!collides_at(self.board@, self.piece@, px, gp.y as int));
                assert(!crate::board::cell_blocked(self.board@, px + c, gp.y + r));
            }
        }
        let ghost c0 = cmds@;
        let mut ghost_cmds = self.render_piece(&self.piece, Point { x: x0, y: gp.y }, true);
        let ghost g0 = ghost_cmds@;
        cmds.append(&mut ghost_cmds);
        proof {
            lemma_contains_concat(c0, g0);
        }

        // The falling piece itself.
        proof {
            assert forall|r: int, c: int| #[trigger] cell_filled(self.piece@.shape, r, c) implies 0
                <= x0 + 2 * c && x0 + 2 * c + 1 <= 100000 && 0 <= self.piece_position.y + r
                <= 100000 by {
                assert(!crate::board::cell_blocked(self.board@, px + c, py + r));
            }
        }
        let ghost c1 = cmds@;
        let mut piece_cmds = self.render_piece(
            &self.piece,
            Point { x: x0, y: self.piece_position.y },
            false,
        );
        let ghost p0 = piece_cmds@;
        cmds.append(&mut piece_cmds);
        proof {
            lemma_contains_concat(c1, p0);
        }

        // The next-piece preview.
        let next_piece = self.piece_bag.peek();
        proof {
            lemma_canonical_wf(next_piece@);
        }
        let ghost c2 = cmds@;
        let mut next_cmds = self.render_piece(&next_piece, Point { x: 27, y: 9 }, false);
        let ghost n0 = next_cmds@;
        cmds.append(&mut next_cmds);
        proof {
            lemma_contains_concat(c2, n0);
        }

        // The held piece, when one is banked.
        match &self.hold {
            Some(p) => {
                let ghost c3 = cmds@;
                let mut hold_cmds = self.render_piece(p, Point { x: 27, y: 13 }, false);
                let ghost h0 = hold_cmds@;
                cmds.append(&mut hold_cmds);
                proof {
                    lemma_contains_concat(c3, h0);
                }
            },
            None => (),
        }
        proof {
            let gy: int = gp.y as int;
            assert(dropped_rel(*self, Point { x: self.piece_position.x, y: gy as i32 }));
            assert forall|r: int, c: int| #[trigger] cell_filled(self.piece@.shape, r, c) implies cmds@.contains(
                cell_cmd(
                    1 + 2 * (self.piece_position.x + c),
                    gy + r,
                    shadow_of(self.piece@.color),
                ),
            ) && cmds@.contains(
                cell_cmd(
                    2 + 2 * (self.piece_position.x + c),
                    gy + r,
                    shadow_of(self.piece@.color),
                ),
            ) by {
                assert(g0.contains(
                    cell_cmd(x0 + 2 * c, gp.y + r, paint_color(self.piece@.color, true)),
                ));
                assert(g0.contains(
                    cell_cmd(x0 + 2 * c + 1, gp.y + r, paint_color(self.piece@.color, true)),
                ));
            }
        }
        cmds
    }
}

/// The color a piece is painted with: its own, or its dimmed shadow color
/// for the ghost projection.
pub open spec fn paint_color(c: Color, dim: bool) -> Color {
    if dim {
        shadow_of(c)
    } else {
        c
    }
}

} // verus!
