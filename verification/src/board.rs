//! The playing field: a fixed 10-wide, 20-tall grid of optional colors,
//! with collision testing, piece locking and line clearing.

use vstd::prelude::*;

use crate::piece::{cell_filled, Piece, PieceV};
use crate::util::{Color, Point};

verus! {

/// Grid width in cells.
pub const BOARD_WIDTH: usize = 10;

/// Grid height in cells, the top `HIDDEN_ROWS` of which are the spawn buffer.
pub const BOARD_HEIGHT: usize = 20;

/// Rows at the top that rendering conventionally hides; collision and line
/// clearing treat them like any other row.
pub const HIDDEN_ROWS: usize = 2;

/// One draw request for the embedding program's renderer: paint `ch` at
/// display cell `(x, y)` with the given foreground and background colors.
#[derive(Clone, Copy, Debug, PartialEq, Eq, Structural)]
pub struct CellCmd {
    pub ch: char,
    pub x: u32,
    pub y: u32,
    pub fg: Color,
    pub bg: Color,
}

/// The draw request for one of the wall cells beside visible row `y`.
pub open spec fn wall_cmd(x: int, y: int) -> CellCmd {
    CellCmd { ch: '|', x: x as u32, y: y as u32, fg: Color::Red, bg: Color::Black }
}

/// The draw request for one cell of the floor line below the field.
pub open spec fn floor_cmd(x: int) -> CellCmd {
    CellCmd { ch: '-', x: x as u32, y: BOARD_HEIGHT as u32, fg: Color::Red, bg: Color::Black }
}

/// The draw request for one display cell painted in a solid color.
pub open spec fn cell_cmd(x: int, y: int, color: Color) -> CellCmd {
    CellCmd { ch: ' ', x: x as u32, y: y as u32, fg: color, bg: color }
}

/// The occupancy grid. Row 0 is the top; each cell is `None` (empty) or
/// `Some(color)` (locked).
pub struct Board {
    pub cells: Vec<Vec<Option<Color>>>,
}

impl View for Board {
    type V = Seq<Seq<Option<Color>>>;

    open spec fn view(&self) -> Seq<Seq<Option<Color>>> {
        self.cells@.map_values(|row: Vec<Option<Color>>| row@)
    }
}

/// A well-formed grid: exactly `BOARD_HEIGHT` rows of `BOARD_WIDTH` cells.
pub open spec fn board_wf(b: Seq<Seq<Option<Color>>>) -> bool {
    &&& b.len() == BOARD_HEIGHT
    &&& forall|y: int| 0 <= y < b.len() ==> (#[trigger] b[y]).len() == BOARD_WIDTH
}

/// A fully empty row.
pub open spec fn empty_row() -> Seq<Option<Color>> {
    Seq::new(BOARD_WIDTH as nat, |x: int| None::<Color>)
}

/// A fully empty grid.
pub open spec fn empty_board() -> Seq<Seq<Option<Color>>> {
    Seq::new(BOARD_HEIGHT as nat, |y: int| empty_row())
}

/// Absolute cell `(x, y)` cannot take a piece cell: it lies outside the
/// grid, or it is already occupied.
pub open spec fn cell_blocked(b: Seq<Seq<Option<Color>>>, x: int, y: int) -> bool {
    ||| x < 0
    ||| x >= BOARD_WIDTH
    ||| y < 0
    ||| y >= BOARD_HEIGHT
    ||| b[y][x] is Some
}

/// The piece, with its shape origin at `(px, py)`, collides: some occupied
/// shape cell maps to a blocked absolute cell.
pub open spec fn collides_at(b: Seq<Seq<Option<Color>>>, p: PieceV, px: int, py: int) -> bool {
    exists|r: int, c: int| #[trigger] cell_filled(p.shape, r, c) && cell_blocked(b, px + c, py + r)
}

/// Absolute cell `(x, y)` is covered by some occupied cell of the piece
/// placed at `(px, py)`.
pub open spec fn covered(p: PieceV, px: int, py: int, x: int, y: int) -> bool {
    exists|r: int, c: int| #[trigger] cell_filled(p.shape, r, c) && px + c == x && py + r == y
}

/// The grid after writing the piece's color into every cell it covers.
pub open spec fn lock_spec(b: Seq<Seq<Option<Color>>>, p: PieceV, px: int, py: int) -> Seq<
    Seq<Option<Color>>,
> {
    Seq::new(
        b.len(),
        |y: int|
            Seq::new(
                b[y].len(),
                |x: int|
                    if covered(p, px, py, x, y) {
                        Some(p.color)
                    } else {
                        b[y][x]
                    },
            ),
    )
}

/// Every cell of the row is occupied.
pub open spec fn row_full(row: Seq<Option<Color>>) -> bool {
    forall|x: int| 0 <= x < row.len() ==> (#[trigger] row[x]) is Some
}

/// The rows that survive a clear: the non-full rows, in their original
/// relative order.
pub open spec fn kept_rows(b: Seq<Seq<Option<Color>>>) -> Seq<Seq<Option<Color>>>
    decreases b.len(),
{
    if b.len() == 0 {
        Seq::empty()
    } else if row_full(b.last()) {
        kept_rows(b.drop_last())
    } else {
        kept_rows(b.drop_last()).push(b.last())
    }
}

/// How many rows of the grid are full.
pub open spec fn num_full(b: Seq<Seq<Option<Color>>>) -> int {
    b.len() - kept_rows(b).len()
}

/// The grid after a clear: one fresh empty row at the top for every removed
/// full row, followed by the surviving rows.
pub open spec fn cleared_board(b: Seq<Seq<Option<Color>>>) -> Seq<Seq<Option<Color>>> {
    Seq::new(num_full(b) as nat, |y: int| empty_row()).add(kept_rows(b))
}

/// No more rows survive than existed.
pub proof fn lemma_kept_rows_len(b: Seq<Seq<Option<Color>>>)
    ensures
        kept_rows(b).len() <= b.len(),
    decreases b.len(),
{
    if b.len() > 0 {
        lemma_kept_rows_len(b.drop_last());
    }
}

/// Surviving rows are rows of the original grid: none is full, and each
/// keeps its width.
pub proof fn lemma_kept_rows_are_rows(b: Seq<Seq<Option<Color>>>)
    ensures
        forall|k: int| 0 <= k < kept_rows(b).len() ==> exists|y: int|
            0 <= y < b.len() && #[trigger] kept_rows(b)[k] == b[y],
        forall|k: int| 0 <= k < kept_rows(b).len() ==> !row_full(#[trigger] kept_rows(b)[k]),
    decreases b.len(),
{
    if b.len() > 0 {
        lemma_kept_rows_are_rows(b.drop_last());
        assert forall|k: int| 0 <= k < kept_rows(b).len() implies exists|y: int|
            0 <= y < b.len() && #[trigger] kept_rows(b)[k] == b[y] by {
            if !row_full(b.last()) && k == kept_rows(b).len() - 1 {
                assert(kept_rows(b)[k] == b[b.len() - 1]);
            } else {
                let y = choose|y: int|
                    0 <= y < b.drop_last().len() && kept_rows(b.drop_last())[k] == b.drop_last()[y];
                assert(b.drop_last()[y] == b[y]);
            }
        }
    }
}

/// Concatenation keeps every element of both halves.
pub proof fn lemma_contains_concat<T>(a: Seq<T>, b: Seq<T>)
    ensures
        forall|x: T| a.contains(x) ==> #[trigger] (a + b).contains(x),
        forall|x: T| b.contains(x) ==> #[trigger] (a + b).contains(x),
{
    assert forall|x: T| a.contains(x) implies #[trigger] (a + b).contains(x) by {
        let i = choose|i: int| 0 <= i < a.len() && a[i] == x;
        assert((a + b)[i] == x);
    }
    assert forall|x: T| b.contains(x) implies #[trigger] (a + b).contains(x) by {
        let i = choose|i: int| 0 <= i < b.len() && b[i] == x;
        assert((a + b)[a.len() + i] == x);
    }
}

impl Board {
    /// A fully empty grid.
    pub fn new() -> (b: Board)
        ensures
            b@ == empty_board(),
            board_wf(b@),
    {
        let mut cells: Vec<Vec<Option<Color>>> = Vec::new();
        let mut y: usize = 0;
        while y < BOARD_HEIGHT
            invariant
                y <= BOARD_HEIGHT,
                cells@.len() == y,
                forall|i: int| 0 <= i < y ==> (#[trigger] cells@[i])@ == empty_row(),
            decreases BOARD_HEIGHT - y,
        {
            cells.push(make_empty_row());
            y += 1;
        }
        let b = Board { cells };
        assert(b@ =~~= empty_board());
        b
    }

    /// Overwrites one cell.
    pub fn set_cell(&mut self, y: usize, x: usize, v: Option<Color>)
        requires
            board_wf(old(self)@),
            y < BOARD_HEIGHT,
            x < BOARD_WIDTH,
        ensures
            board_wf(final(self)@),
            final(self)@ == old(self)@.update(y as int, old(self)@[y as int].update(x as int, v)),
    {
        let ghost orig = self@;
        let mut row: Vec<Option<Color>> = Vec::new();
        let mut j: usize = 0;
        while j < BOARD_WIDTH
            invariant
                board_wf(orig),
                orig == self@,
                x < BOARD_WIDTH,
                y < BOARD_HEIGHT,
                j <= BOARD_WIDTH,
                row@.len() == j,
                forall|k: int| 0 <= k < j ==> row@[k] == if k == x {
                    v
                } else {
                    orig[y as int][k]
                },
            decreases BOARD_WIDTH - j,
        {
            proof {
                assert(self.cells@.len() == BOARD_HEIGHT);
                assert(self@[y as int].len() == BOARD_WIDTH);
            }
            if j == x {
                row.push(v);
            } else {
                row.push(self.cells[y][j]);
            }
            j += 1;
        }
        assert(row@ =~= orig[y as int].update(x as int, v));
        self.cells[y] = row;
        assert(self@ =~~= orig.update(y as int, orig[y as int].update(x as int, v)));
    }

    /// Reads one cell.
    pub fn get_cell(&self, y: usize, x: usize) -> (v: Option<Color>)
        requires
            board_wf(self@),
            y < BOARD_HEIGHT,
            x < BOARD_WIDTH,
        ensures
            v == self@[y as int][x as int],
    {
        proof {
            assert(self.cells@.len() == BOARD_HEIGHT);
            assert(self@[y as int].len() == BOARD_WIDTH);
        }
        self.cells[y][x]
    }

    /// Tests whether the piece, placed with its shape origin at `origin`,
    /// would overlap the grid edge or an occupied cell. Side-effect-free.
    pub fn collision_test(&self, piece: &Piece, origin: Point) -> (hit: bool)
        requires
            board_wf(self@),
            crate::piece::is_square(piece@.shape),
            piece@.shape.len() <= 4,
        ensures
            hit == collides_at(self@, piece@, origin.x as int, origin.y as int),
    {
        let pts = piece.each_point();
        let ghost px = origin.x as int;
        let ghost py = origin.y as int;
        let mut k: usize = 0;
        while k < pts.len()
            invariant
                board_wf(self@),
                crate::piece::is_square(piece@.shape),
                piece@.shape.len() <= 4,
                px == origin.x as int,
                py == origin.y as int,
                k <= pts@.len(),
                forall|j: int| 0 <= j < pts@.len() ==> cell_filled(
                    piece@.shape,
                    (#[trigger] pts@[j]).0 as int,
                    pts@[j].1 as int,
                ),
                forall|r: int, c: int| #[trigger] cell_filled(piece@.shape, r, c)
                    ==> pts@.contains((r as usize, c as usize)),
                forall|j: int| 0 <= j < k ==> !cell_blocked(
                    self@,
                    px + (#[trigger] pts@[j]).1,
                    py + pts@[j].0,
                ),
            decreases pts@.len() - k,
        {
            let (row, col) = pts[k];
            proof {
                assert(row == pts@[k as int].0 && col == pts@[k as int].1);
                assert(cell_filled(piece@.shape, pts@[k as int].0 as int, pts@[k as int].1 as int));
                assert(row < 4 && col < 4);
            }
            let x: i64 = origin.x as i64 + col as i64;
            let y: i64 = origin.y as i64 + row as i64;
            if x < 0 || x >= BOARD_WIDTH as i64 || y < 0 || y >= BOARD_HEIGHT as i64 {
                assert(cell_blocked(self@, px + pts@[k as int].1, py + pts@[k as int].0));
                assert(collides_at(self@, piece@, px, py));
                return true;
            }
            proof {
                assert(self.cells@.len() == BOARD_HEIGHT);
                assert(self@[y as int].len() == BOARD_WIDTH);
            }
            if self.cells[y as usize][x as usize].is_some() {
                assert(cell_blocked(self@, px + pts@[k as int].1, py + pts@[k as int].0));
                assert(collides_at(self@, piece@, px, py));
                return true;
            }
            k += 1;
        }
        proof {
            if collides_at(self@, piece@, px, py) {
                let (r, c) = choose|r: int, c: int|
                    #[trigger] cell_filled(piece@.shape, r, c) && cell_blocked(
                        self@,
                        px + c,
                        py + r,
                    );
                assert(0 <= r && 0 <= c);
                assert(pts@.contains((r as usize, c as usize)));
                let j = choose|j: int|
                    0 <= j < pts@.len() && pts@[j] == (r as usize, c as usize);
                assert(!cell_blocked(self@, px + pts@[j].1, py + pts@[j].0));
            }
        }
        false
    }

    /// Writes the piece's color into every absolute cell its occupied shape
    /// cells cover. The caller must already have ruled out a collision.
    pub fn lock_piece(&mut self, piece: &Piece, origin: Point)
        requires
            board_wf(old(self)@),
            crate::piece::is_square(piece@.shape),
            piece@.shape.len() <= 4,
            !collides_at(old(self)@, piece@, origin.x as int, origin.y as int),
        ensures
            board_wf(final(self)@),
            final(self)@ == lock_spec(old(self)@, piece@, origin.x as int, origin.y as int),
    {
        let ghost orig = self@;
        let ghost px = origin.x as int;
        let ghost py = origin.y as int;
        let pts = piece.each_point();
        let mut k: usize = 0;
        while k < pts.len()
            invariant
                board_wf(orig),
                board_wf(self@),
                crate::piece::is_square(piece@.shape),
                piece@.shape.len() <= 4,
                px == origin.x as int,
                py == origin.y as int,
                !collides_at(orig, piece@, px, py),
                k <= pts@.len(),
                forall|j: int| 0 <= j < pts@.len() ==> cell_filled(
                    piece@.shape,
                    (#[trigger] pts@[j]).0 as int,
                    pts@[j].1 as int,
                ),
                forall|r: int, c: int| #[trigger] cell_filled(piece@.shape, r, c)
                    ==> pts@.contains((r as usize, c as usize)),
                forall|yy: int, xx: int| 0 <= yy < BOARD_HEIGHT && 0 <= xx < BOARD_WIDTH
                    ==> #[trigger] self@[yy][xx] == if exists|j: int|
                    0 <= j < k && px + (#[trigger] pts@[j]).1 == xx && py + pts@[j].0 == yy {
                    Some(piece@.color)
                } else {
                    orig[yy][xx]
                },
            decreases pts@.len() - k,
        {
            let (row, col) = pts[k];
            proof {
                assert(cell_filled(piece@.shape, row as int, col as int));
                assert(row < 4 && col < 4);
                assert(!cell_blocked(orig, px + col, py + row));
                assert(0 <= px + col < BOARD_WIDTH);
                assert(0 <= py + row < BOARD_HEIGHT);
            }
            let x = (origin.x as i64 + col as i64) as usize;
            let y = (origin.y as i64 + row as i64) as usize;
            let ghost prev = self@;
            self.set_cell(y, x, Some(piece.color));
            proof {
                assert forall|yy: int, xx: int|
                    0 <= yy < BOARD_HEIGHT && 0 <= xx < BOARD_WIDTH implies #[trigger] self@[yy][xx]
                    == if exists|j: int|
                    0 <= j < k + 1 && px + (#[trigger] pts@[j]).1 == xx && py + pts@[j].0 == yy {
                    Some(piece@.color)
                } else {
                    orig[yy][xx]
                } by {
                    if yy == y as int && xx == x as int {
                        assert(px + pts@[k as int].1 == xx && py + pts@[k as int].0 == yy);
                    } else {
                        assert(self@[yy][xx] == prev[yy][xx]);
                        if exists|j: int|
                            0 <= j < k + 1 && px + (#[trigger] pts@[j]).1 == xx && py + pts@[j].0
                                == yy {
                            let j = choose|j: int|
                                0 <= j < k + 1 && px + (#[trigger] pts@[j]).1 == xx && py
                                    + pts@[j].0 == yy;
                            assert(j < k);
                        }
                    }
                }
            }
            k += 1;
        }
        proof {
            assert forall|yy: int, xx: int|
                0 <= yy < BOARD_HEIGHT && 0 <= xx < BOARD_WIDTH implies #[trigger] self@[yy][xx]
                == lock_spec(orig, piece@, px, py)[yy][xx] by {
                assert(lock_spec(orig, piece@, px, py)[yy][xx] == if covered(
                    piece@,
                    px,
                    py,
                    xx,
                    yy,
                ) {
                    Some(piece@.color)
                } else {
                    orig[yy][xx]
                });
                if covered(piece@, px, py, xx, yy) {
                    let (r, c) = choose|r: int, c: int|
                        #[trigger] cell_filled(piece@.shape, r, c) && px + c == xx && py + r == yy;
                    assert(pts@.contains((r as usize, c as usize)));
                    let j = choose|j: int|
                        0 <= j < pts@.len() && pts@[j] == (r as usize, c as usize);
                    assert(px + pts@[j].1 == xx && py + pts@[j].0 == yy);
                } else {
                    if exists|j: int|
                        0 <= j < pts@.len() && px + (#[trigger] pts@[j]).1 == xx && py + pts@[j].0
                            == yy {
                        let j = choose|j: int|
                            0 <= j < pts@.len() && px + (#[trigger] pts@[j]).1 == xx && py
                                + pts@[j].0 == yy;
                        assert(cell_filled(piece@.shape, pts@[j].0 as int, pts@[j].1 as int));
                        assert(covered(piece@, px, py, xx, yy));
                    }
                }
            }
            assert(self@ =~~= lock_spec(orig, piece@, px, py));
        }
    }

    /// The draw requests for the field: the side walls beside the visible
    /// rows, the floor line below the field, and two display cells (at
    /// columns `1 + 2*col` and `2 + 2*col`) for every occupied grid cell,
    /// painted in the cell's color. Each board cell is two display cells
    /// wide.
    pub fn render(&self) -> (cmds: Vec<CellCmd>)
        requires
            board_wf(self@),
        ensures
            forall|y: int| HIDDEN_ROWS <= y < BOARD_HEIGHT ==> cmds@.contains(
                #[trigger] wall_cmd(0, y),
            ) && cmds@.contains(wall_cmd(2 * BOARD_WIDTH + 1, y)),
            forall|x: int| 0 <= x <= 2 * BOARD_WIDTH ==> cmds@.contains(#[trigger] floor_cmd(x)),
            forall|row: int, col: int|
                0 <= row < BOARD_HEIGHT && 0 <= col < BOARD_WIDTH && (#[trigger] self@[row][col])
                    is Some ==> cmds@.contains(
                    cell_cmd(1 + 2 * col, row, self@[row][col].unwrap()),
                ) && cmds@.contains(cell_cmd(2 + 2 * col, row, self@[row][col].unwrap())),
    {
        let mut cmds: Vec<CellCmd> = Vec::new();
        let mut y: usize = HIDDEN_ROWS;
        while y < BOARD_HEIGHT
            invariant
                HIDDEN_ROWS <= y <= BOARD_HEIGHT,
                forall|yy: int| HIDDEN_ROWS <= yy < y ==> cmds@.contains(
                    #[trigger] wall_cmd(0, yy),
                ) && cmds@.contains(wall_cmd(2 * BOARD_WIDTH + 1, yy)),
            decreases BOARD_HEIGHT - y,
        {
            broadcast use vstd::seq_lib::lemma_seq_contains_after_push;

            cmds.push(CellCmd { ch: '|', x: 0, y: y as u32, fg: Color::Red, bg: Color::Black });
            cmds.push(
                CellCmd {
                    ch: '|',
                    x: (2 * BOARD_WIDTH + 1) as u32,
                    y: y as u32,
                    fg: Color::Red,
                    bg: Color::Black,
                },
            );
            y += 1;
        }
        let ghost walls = cmds@;
        let mut x: usize = 0;
        while x < 2 * BOARD_WIDTH + 1
            invariant
                x <= 2 * BOARD_WIDTH + 1,
                forall|cc: CellCmd| walls.contains(cc) ==> #[trigger] cmds@.contains(cc),
                forall|xx: int| 0 <= xx < x ==> cmds@.contains(#[trigger] floor_cmd(xx)),
            decreases 2 * BOARD_WIDTH + 1 - x,
        {
            broadcast use vstd::seq_lib::lemma_seq_contains_after_push;

            cmds.push(
                CellCmd {
                    ch: '-',
                    x: x as u32,
                    y: BOARD_HEIGHT as u32,
                    fg: Color::Red,
                    bg: Color::Black,
                },
            );
            x += 1;
        }
        let ghost floor = cmds@;
        let mut row: usize = 0;
        while row < BOARD_HEIGHT
            invariant
                board_wf(self@),
                row <= BOARD_HEIGHT,
                forall|cc: CellCmd| floor.contains(cc) ==> #[trigger] cmds@.contains(cc),
                forall|rr: int, cl: int|
                    0 <= rr < row && 0 <= cl < BOARD_WIDTH && (#[trigger] self@[rr][cl]) is Some
                        ==> cmds@.contains(cell_cmd(1 + 2 * cl, rr, self@[rr][cl].unwrap()))
                        && cmds@.contains(cell_cmd(2 + 2 * cl, rr, self@[rr][cl].unwrap())),
            decreases BOARD_HEIGHT - row,
        {
            let mut col: usize = 0;
            while col < BOARD_WIDTH
                invariant
                    board_wf(self@),
                    row < BOARD_HEIGHT,
                    col <= BOARD_WIDTH,
                    forall|cc: CellCmd| floor.contains(cc) ==> #[trigger] cmds@.contains(cc),
                    forall|rr: int, cl: int|
                        0 <= rr < row && 0 <= cl < BOARD_WIDTH && (#[trigger] self@[rr][cl])
                            is Some ==> cmds@.contains(
                            cell_cmd(1 + 2 * cl, rr, self@[rr][cl].unwrap()),
                        ) && cmds@.contains(cell_cmd(2 + 2 * cl, rr, self@[rr][cl].unwrap())),
                    forall|cl: int|
                        0 <= cl < col && (#[trigger] self@[row as int][cl]) is Some
                            ==> cmds@.contains(
                            cell_cmd(1 + 2 * cl, row as int, self@[row as int][cl].unwrap()),
                        ) && cmds@.contains(
                            cell_cmd(2 + 2 * cl, row as int, self@[row as int][cl].unwrap()),
                        ),
                decreases BOARD_WIDTH - col,
            {
                broadcast use vstd::seq_lib::lemma_seq_contains_after_push;

                proof {
                    assert(self.cells@.len() == BOARD_HEIGHT);
                    assert(self@[row as int].len() == BOARD_WIDTH);
                }
                match self.cells[row][col] {
                    Some(color) => {
                        let c = 1 + (col as u32) * 2;
                        cmds.push(CellCmd { ch: ' ', x: c, y: row as u32, fg: color, bg: color });
                        cmds.push(
                            CellCmd { ch: ' ', x: c + 1, y: row as u32, fg: color, bg: color },
                        );
                    },
                    None => (),
                }
                col += 1;
            }
            row += 1;
        }
        cmds
    }

    /// Removes every full row, shifts the rows above each removed row down,
    /// and introduces fresh empty rows at the top; returns how many rows
    /// were removed. Relative order of the surviving rows is preserved.
    pub fn clear_lines(&mut self) -> (cleared: u32)
        requires
            board_wf(old(self)@),
        ensures
            board_wf(final(self)@),
            cleared as int == num_full(old(self)@),
            final(self)@ == cleared_board(old(self)@),
    {
        let ghost orig = self@;
        let mut kept: Vec<Vec<Option<Color>>> = Vec::new();
        let mut i: usize = 0;
        while i < BOARD_HEIGHT
            invariant
                board_wf(orig),
                orig == self@,
                i <= BOARD_HEIGHT,
                kept@.map_values(|row: Vec<Option<Color>>| row@) == kept_rows(
                    orig.take(i as int),
                ),
                forall|k: int| 0 <= k < kept@.len() ==> (#[trigger] kept@[k])@.len()
                    == BOARD_WIDTH,
            decreases BOARD_HEIGHT - i,
        {
            let ghost prefix = orig.take(i as int);
            proof {
                assert(self.cells@.len() == BOARD_HEIGHT);
            }
            let full = row_is_full(&self.cells[i]);
            if !full {
                let mut row: Vec<Option<Color>> = Vec::new();
                let mut j: usize = 0;
                while j < BOARD_WIDTH
                    invariant
                        board_wf(orig),
                        orig == self@,
                        i < BOARD_HEIGHT,
                        j <= BOARD_WIDTH,
                        row@.len() == j,
                        forall|k: int| 0 <= k < j ==> row@[k] == orig[i as int][k],
                    decreases BOARD_WIDTH - j,
                {
                    proof {
                        assert(self.cells@.len() == BOARD_HEIGHT);
                        assert(self@[i as int].len() == BOARD_WIDTH);
                    }
                    row.push(self.cells[i][j]);
                    j += 1;
                }
                assert(row@ =~= orig[i as int]);
                kept.push(row);
            }
            proof {
                assert(orig.take(i + 1).drop_last() =~= prefix);
                assert(orig.take(i + 1).last() == orig[i as int]);
                assert(kept_rows(orig.take(i + 1)) == if row_full(orig[i as int]) {
                    kept_rows(prefix)
                } else {
                    kept_rows(prefix).push(orig[i as int])
                });
                if !row_full(orig[i as int]) {
                    assert(kept@.map_values(|row: Vec<Option<Color>>| row@) =~= kept_rows(
                        orig.take(i + 1),
                    ));
                }
            }
            i += 1;
        }
        proof {
            assert(orig.take(BOARD_HEIGHT as int) =~= orig);
            lemma_kept_rows_len(orig);
        }
        let kept_count = kept.len();
        let cleared_count = BOARD_HEIGHT - kept_count;
        let mut cells: Vec<Vec<Option<Color>>> = Vec::new();
        let mut y: usize = 0;
        while y < cleared_count
            invariant
                y <= cleared_count,
                cells@.len() == y,
                forall|k: int| 0 <= k < y ==> (#[trigger] cells@[k])@ == empty_row(),
            decreases cleared_count - y,
        {
            cells.push(make_empty_row());
            y += 1;
        }
        cells.append(&mut kept);
        self.cells = cells;
        proof {
            assert(self@ =~~= cleared_board(orig));
        }
        #[verifier::truncate]
        (cleared_count as u32)
    }
}

/// Tests whether every cell of the row is occupied.
fn row_is_full(row: &Vec<Option<Color>>) -> (full: bool)
    ensures
        full == row_full(row@),
{
    let mut j: usize = 0;
    while j < row.len()
        invariant
            j <= row@.len(),
            forall|k: int| 0 <= k < j ==> (#[trigger] row@[k]) is Some,
        decreases row@.len() - j,
    {
        if row[j].is_none() {
            return false;
        }
        j += 1;
    }
    true
}

/// Builds one empty row.
fn make_empty_row() -> (v: Vec<Option<Color>>)
    ensures
        v@ == empty_row(),
{
    let mut v: Vec<Option<Color>> = Vec::new();
    let mut x: usize = 0;
    while x < BOARD_WIDTH
        invariant
            x <= BOARD_WIDTH,
            v@.len() == x,
            forall|k: int| 0 <= k < x ==> v@[k] is None,
        decreases BOARD_WIDTH - x,
    {
        v.push(None);
        x += 1;
    }
    assert(v@ =~= empty_row());
    v
}

} // verus!

