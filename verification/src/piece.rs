//! Tetromino pieces: the seven canonical shapes, 90-degree rotation and
//! point iteration, plus the bag randomizer that deals each of the seven
//! kinds exactly once per refill.

use vstd::prelude::*;
use vstd::multiset::Multiset;

use crate::util::{Color, Direction};

verus! {

/// A piece: an occupancy matrix (square, side 2 to 4) of 0/1 cells, and the
/// color that its locked cells take on the board.
pub struct Piece {
    pub color: Color,
    pub shape: Vec<Vec<u8>>,
}

/// The mathematical value of a `Piece`: its color and its shape matrix as a
/// sequence of rows.
pub ghost struct PieceV {
    pub color: Color,
    pub shape: Seq<Seq<u8>>,
}

impl View for Piece {
    type V = PieceV;

    open spec fn view(&self) -> PieceV {
        PieceV { color: self.color, shape: self.shape@.map_values(|row: Vec<u8>| row@) }
    }
}

/// The shape matrix is square: every row is as long as the matrix is tall.
pub open spec fn is_square(m: Seq<Seq<u8>>) -> bool {
    forall|i: int| 0 <= i < m.len() ==> (#[trigger] m[i]).len() == m.len()
}

/// Cell `(r, c)` of the shape matrix exists and is occupied.
pub open spec fn cell_filled(m: Seq<Seq<u8>>, r: int, c: int) -> bool {
    0 <= r < m.len() && 0 <= c < m.len() && m[r][c] != 0
}

/// A well-formed piece shape: square with side 2, 3 or 4, and at least one
/// occupied cell.
pub open spec fn shape_wf(m: Seq<Seq<u8>>) -> bool {
    &&& 2 <= m.len() <= 4
    &&& is_square(m)
    &&& exists|r: int, c: int| cell_filled(m, r, c)
}

/// A well-formed piece.
pub open spec fn piece_wf(p: PieceV) -> bool {
    shape_wf(p.shape)
}

/// The shape matrix turned 90 degrees counter-clockwise.
pub open spec fn rotated_left(m: Seq<Seq<u8>>) -> Seq<Seq<u8>> {
    Seq::new(m.len(), |r: int| Seq::new(m.len(), |c: int| m[c][m.len() - 1 - r]))
}

/// The shape matrix turned 90 degrees clockwise.
pub open spec fn rotated_right(m: Seq<Seq<u8>>) -> Seq<Seq<u8>> {
    Seq::new(m.len(), |r: int| Seq::new(m.len(), |c: int| m[m.len() - 1 - c][r]))
}

/// The shape matrix turned 90 degrees in the given direction.
pub open spec fn rotated(d: Direction, m: Seq<Seq<u8>>) -> Seq<Seq<u8>> {
    match d {
        Direction::Left => rotated_left(m),
        Direction::Right => rotated_right(m),
    }
}

impl Clone for Piece {
    /// A deep copy: the clone has the same color and an equal shape matrix,
    /// owned separately so the two pieces can diverge after rotation.
    fn clone(&self) -> (r: Piece)
        ensures
            r@ == self@,
    {
        let mut shape: Vec<Vec<u8>> = Vec::new();
        let mut i: usize = 0;
        while i < self.shape.len()
            invariant
                i <= self.shape@.len(),
                shape@.len() == i,
                forall|k: int| 0 <= k < i ==> (#[trigger] shape@[k])@ == self.shape@[k]@,
            decreases self.shape@.len() - i,
        {
            let mut row: Vec<u8> = Vec::new();
            let mut j: usize = 0;
            while j < self.shape[i].len()
                invariant
                    i < self.shape@.len(),
                    j <= self.shape@[i as int]@.len(),
                    row@.len() == j,
                    forall|k: int| 0 <= k < j ==> row@[k] == self.shape@[i as int]@[k],
                decreases self.shape@[i as int]@.len() - j,
            {
                row.push(self.shape[i][j]);
                j += 1;
            }
            assert(row@ =~= self.shape@[i as int]@);
            shape.push(row);
            i += 1;
        }
        let r = Piece { color: self.color, shape };
        assert(r@.shape =~~= self@.shape);
        r
    }
}

impl Piece {
    /// The O piece: a 2x2 yellow square.
    pub fn new_o() -> (p: Piece)
        ensures
            p@ == (PieceV { color: Color::Yellow, shape: o_shape() }),
    {
        let mut shape: Vec<Vec<u8>> = Vec::new();
        shape.push(row2(1, 1));
        shape.push(row2(1, 1));
        let p = Piece { color: Color::Yellow, shape };
        assert(p@.shape =~~= o_shape());
        p
    }

    /// The L piece: orange.
    pub fn new_l() -> (p: Piece)
        ensures
            p@ == (PieceV { color: Color::Orange, shape: l_shape() }),
    {
        let mut shape: Vec<Vec<u8>> = Vec::new();
        shape.push(row3(0, 0, 1));
        shape.push(row3(1, 1, 1));
        shape.push(row3(0, 0, 0));
        let p = Piece { color: Color::Orange, shape };
        assert(p@.shape =~~= l_shape());
        p
    }

    /// The J piece: blue.
    pub fn new_j() -> (p: Piece)
        ensures
            p@ == (PieceV { color: Color::Blue, shape: j_shape() }),
    {
        let mut shape: Vec<Vec<u8>> = Vec::new();
        shape.push(row3(1, 0, 0));
        shape.push(row3(1, 1, 1));
        shape.push(row3(0, 0, 0));
        let p = Piece { color: Color::Blue, shape };
        assert(p@.shape =~~= j_shape());
        p
    }

    /// The T piece: purple.
    pub fn new_t() -> (p: Piece)
        ensures
            p@ == (PieceV { color: Color::Purple, shape: t_shape() }),
    {
        let mut shape: Vec<Vec<u8>> = Vec::new();
        shape.push(row3(0, 1, 0));
        shape.push(row3(1, 1, 1));
        shape.push(row3(0, 0, 0));
        let p = Piece { color: Color::Purple, shape };
        assert(p@.shape =~~= t_shape());
        p
    }

    /// The S piece: green.
    pub fn new_s() -> (p: Piece)
        ensures
            p@ == (PieceV { color: Color::Green, shape: s_shape() }),
    {
        let mut shape: Vec<Vec<u8>> = Vec::new();
        shape.push(row3(0, 1, 1));
        shape.push(row3(1, 1, 0));
        shape.push(row3(0, 0, 0));
        let p = Piece { color: Color::Green, shape };
        assert(p@.shape =~~= s_shape());
        p
    }

    /// The Z piece: red.
    pub fn new_z() -> (p: Piece)
        ensures
            p@ == (PieceV { color: Color::Red, shape: z_shape() }),
    {
        let mut shape: Vec<Vec<u8>> = Vec::new();
        shape.push(row3(1, 1, 0));
        shape.push(row3(0, 1, 1));
        shape.push(row3(0, 0, 0));
        let p = Piece { color: Color::Red, shape };
        assert(p@.shape =~~= z_shape());
        p
    }

    /// The I piece: a cyan 4-in-a-row.
    pub fn new_i() -> (p: Piece)
        ensures
            p@ == (PieceV { color: Color::Cyan, shape: i_shape() }),
    {
        let mut shape: Vec<Vec<u8>> = Vec::new();
        shape.push(row4(0, 0, 0, 0));
        shape.push(row4(1, 1, 1, 1));
        shape.push(row4(0, 0, 0, 0));
        shape.push(row4(0, 0, 0, 0));
        let p = Piece { color: Color::Cyan, shape };
        assert(p@.shape =~~= i_shape());
        p
    }

    /// Turns the shape matrix 90 degrees in place in the given direction.
    pub fn rotate(&mut self, direction: Direction)
        requires
            is_square(old(self)@.shape),
        ensures
            final(self)@.color == old(self)@.color,
            final(self)@.shape == rotated(direction, old(self)@.shape),
            piece_wf(old(self)@) ==> piece_wf(final(self)@),
    {
        let n = self.shape.len();
        let ghost m = self@.shape;
        let mut new_shape: Vec<Vec<u8>> = Vec::new();
        let mut r: usize = 0;
        while r < n
            invariant
                n == m.len(),
                m == self@.shape,
                is_square(m),
                r <= n,
                new_shape@.len() == r,
                forall|i: int| 0 <= i < r ==> (#[trigger] new_shape@[i])@ =~= rotated(
                    direction,
                    m,
                )[i],
            decreases n - r,
        {
            let mut row: Vec<u8> = Vec::new();
            let mut c: usize = 0;
            while c < n
                invariant
                    n == m.len(),
                    m == self@.shape,
                    is_square(m),
                    r < n,
                    c <= n,
                    row@.len() == c,
                    forall|j: int| 0 <= j < c ==> row@[j] == rotated(direction, m)[r as int][j],
                decreases n - c,
            {
                proof {
                    assert(self.shape@.len() == n);
                    assert(m[c as int].len() == n);
                    assert(m[(n - 1 - c) as int].len() == n);
                }
                let v = match direction {
                    Direction::Left => self.shape[c][n - 1 - r],
                    Direction::Right => self.shape[n - 1 - c][r],
                };
                row.push(v);
                c += 1;
            }
            assert(row@ =~= rotated(direction, m)[r as int]);
            new_shape.push(row);
            r += 1;
        }
        self.shape = new_shape;
        assert(self@.shape =~~= rotated(direction, m));
        proof {
            if piece_wf(PieceV { color: self.color, shape: m }) {
                lemma_rotated_wf(direction, m);
            }
        }
    }

    /// The coordinates `(row, col)` of every occupied cell of the shape, in
    /// row-major order, each exactly once.
    pub fn each_point(&self) -> (pts: Vec<(usize, usize)>)
        requires
            is_square(self@.shape),
        ensures
            forall|k: int| 0 <= k < pts@.len() ==> cell_filled(
                self@.shape,
                (#[trigger] pts@[k]).0 as int,
                pts@[k].1 as int,
            ),
            forall|r: int, c: int| #[trigger] cell_filled(self@.shape, r, c) ==> pts@.contains(
                (r as usize, c as usize),
            ),
            forall|k1: int, k2: int| 0 <= k1 < k2 < pts@.len() ==> #[trigger] pts@[k1].0
                < #[trigger] pts@[k2].0 || (pts@[k1].0 == pts@[k2].0 && pts@[k1].1 < pts@[k2].1),
    {
        let n = self.shape.len();
        let ghost m = self@.shape;
        let mut pts: Vec<(usize, usize)> = Vec::new();
        let mut r: usize = 0;
        while r < n
            invariant
                n == m.len(),
                m == self@.shape,
                is_square(m),
                r <= n,
                forall|k: int| 0 <= k < pts@.len() ==> cell_filled(
                    m,
                    (#[trigger] pts@[k]).0 as int,
                    pts@[k].1 as int,
                ),
                forall|k: int| 0 <= k < pts@.len() ==> (#[trigger] pts@[k]).0 < r,
                forall|r0: int, c0: int| #[trigger] cell_filled(m, r0, c0) && r0 < r
                    ==> pts@.contains((r0 as usize, c0 as usize)),
                forall|k1: int, k2: int| 0 <= k1 < k2 < pts@.len() ==> #[trigger] pts@[k1].0
                    < #[trigger] pts@[k2].0 || (pts@[k1].0 == pts@[k2].0 && pts@[k1].1
                    < pts@[k2].1),
            decreases n - r,
        {
            let mut c: usize = 0;
            while c < n
                invariant
                    n == m.len(),
                    m == self@.shape,
                    is_square(m),
                    r < n,
                    c <= n,
                    forall|k: int| 0 <= k < pts@.len() ==> cell_filled(
                        m,
                        (#[trigger] pts@[k]).0 as int,
                        pts@[k].1 as int,
                    ),
                    forall|k: int| 0 <= k < pts@.len() ==> (#[trigger] pts@[k]).0 < r || (
                    pts@[k].0 == r && pts@[k].1 < c),
                    forall|r0: int, c0: int| #[trigger] cell_filled(m, r0, c0) && (r0 < r || (r0
                        == r && c0 < c)) ==> pts@.contains((r0 as usize, c0 as usize)),
                    forall|k1: int, k2: int| 0 <= k1 < k2 < pts@.len() ==> #[trigger] pts@[k1].0
                        < #[trigger] pts@[k2].0 || (pts@[k1].0 == pts@[k2].0 && pts@[k1].1
                        < pts@[k2].1),
                decreases n - c,
            {
                proof {
                    assert(self.shape@.len() == n);
                    assert(m[r as int].len() == n);
                }
                if self.shape[r][c] != 0 {
                    let ghost oldpts = pts@;
                    pts.push((r, c));
                    assert(forall|r0: int, c0: int|
                        #[trigger] cell_filled(m, r0, c0) && (r0 < r || (r0 == r && c0 < c + 1))
                            ==> pts@.contains((r0 as usize, c0 as usize))) by {
                        assert(forall|x: (usize, usize)| oldpts.contains(x)
                            ==> #[trigger] pts@.contains(x)) by {
                            assert(forall|k: int| 0 <= k < oldpts.len() ==> pts@[k] == oldpts[k]);
                        }
                        assert(pts@[pts@.len() - 1] == (r, c));
                        assert(pts@.contains((r, c)));
                    }
                }
                c += 1;
            }
            r += 1;
        }
        pts
    }

    /// The dimmed counterpart of this piece's color, used for the ghost
    /// projection; colors without a dimmed counterpart map to black.
    pub fn get_shadow_color(&self) -> (c: Color)
        ensures
            c == shadow_of(self@.color),
    {
        match self.color {
            Color::Cyan => Color::DarkCyan,
            Color::Purple => Color::DarkPurple,
            Color::Green => Color::DarkGreen,
            Color::Red => Color::DarkRed,
            Color::Blue => Color::DarkBlue,
            Color::Orange => Color::DarkOrange,
            Color::Yellow => Color::DarkYellow,
            _ => Color::Black,
        }
    }
}

/// The dimmed counterpart of a piece color; black for colors that are
/// already dimmed.
pub open spec fn shadow_of(c: Color) -> Color {
    match c {
        Color::Cyan => Color::DarkCyan,
        Color::Purple => Color::DarkPurple,
        Color::Green => Color::DarkGreen,
        Color::Red => Color::DarkRed,
        Color::Blue => Color::DarkBlue,
        Color::Orange => Color::DarkOrange,
        Color::Yellow => Color::DarkYellow,
        _ => Color::Black,
    }
}

/// The canonical O shape.
pub open spec fn o_shape() -> Seq<Seq<u8>> {
    seq![seq![1u8, 1u8], seq![1u8, 1u8]]
}

/// The canonical L shape.
pub open spec fn l_shape() -> Seq<Seq<u8>> {
    seq![seq![0u8, 0u8, 1u8], seq![1u8, 1u8, 1u8], seq![0u8, 0u8, 0u8]]
}

/// The canonical J shape.
pub open spec fn j_shape() -> Seq<Seq<u8>> {
    seq![seq![1u8, 0u8, 0u8], seq![1u8, 1u8, 1u8], seq![0u8, 0u8, 0u8]]
}

/// The canonical T shape.
pub open spec fn t_shape() -> Seq<Seq<u8>> {
    seq![seq![0u8, 1u8, 0u8], seq![1u8, 1u8, 1u8], seq![0u8, 0u8, 0u8]]
}

/// The canonical S shape.
pub open spec fn s_shape() -> Seq<Seq<u8>> {
    seq![seq![0u8, 1u8, 1u8], seq![1u8, 1u8, 0u8], seq![0u8, 0u8, 0u8]]
}

/// The canonical Z shape.
pub open spec fn z_shape() -> Seq<Seq<u8>> {
    seq![seq![1u8, 1u8, 0u8], seq![0u8, 1u8, 1u8], seq![0u8, 0u8, 0u8]]
}

/// The canonical I shape.
pub open spec fn i_shape() -> Seq<Seq<u8>> {
    seq![
        seq![0u8, 0u8, 0u8, 0u8],
        seq![1u8, 1u8, 1u8, 1u8],
        seq![0u8, 0u8, 0u8, 0u8],
        seq![0u8, 0u8, 0u8, 0u8],
    ]
}

/// The colors of the seven canonical pieces, one per kind.
pub open spec fn piece_colors() -> Seq<Color> {
    seq![
        Color::Yellow,
        Color::Orange,
        Color::Blue,
        Color::Purple,
        Color::Green,
        Color::Red,
        Color::Cyan,
    ]
}

/// `p` is one of the seven canonical pieces in spawn orientation.
pub open spec fn is_canonical(p: PieceV) -> bool {
    ||| p == (PieceV { color: Color::Yellow, shape: o_shape() })
    ||| p == (PieceV { color: Color::Orange, shape: l_shape() })
    ||| p == (PieceV { color: Color::Blue, shape: j_shape() })
    ||| p == (PieceV { color: Color::Purple, shape: t_shape() })
    ||| p == (PieceV { color: Color::Green, shape: s_shape() })
    ||| p == (PieceV { color: Color::Red, shape: z_shape() })
    ||| p == (PieceV { color: Color::Cyan, shape: i_shape() })
}

/// Every canonical piece is well formed.
pub proof fn lemma_canonical_wf(p: PieceV)
    requires
        is_canonical(p),
    ensures
        piece_wf(p),
{
    if p.shape == o_shape() {
        assert(cell_filled(p.shape, 0, 0));
    } else if p.shape == l_shape() {
        assert(cell_filled(p.shape, 1, 0));
    } else if p.shape == j_shape() {
        assert(cell_filled(p.shape, 1, 0));
    } else if p.shape == t_shape() {
        assert(cell_filled(p.shape, 1, 0));
    } else if p.shape == s_shape() {
        assert(cell_filled(p.shape, 1, 0));
    } else if p.shape == z_shape() {
        assert(cell_filled(p.shape, 1, 1));
    } else {
        assert(cell_filled(p.shape, 1, 0));
    }
}

/// Rotation sends a well-formed shape to a well-formed shape: the result is
/// square of the same side, and every occupied cell has an occupied image.
pub proof fn lemma_rotated_wf(d: Direction, m: Seq<Seq<u8>>)
    requires
        is_square(m),
        shape_wf(m),
    ensures
        shape_wf(rotated(d, m)),
{
    let n = m.len() as int;
    let (r0, c0) = choose|r0: int, c0: int| cell_filled(m, r0, c0);
    match d {
        Direction::Left => {
            assert(rotated_left(m)[n - 1 - c0][r0] == m[r0][c0]);
            assert(cell_filled(rotated_left(m), n - 1 - c0, r0));
        },
        Direction::Right => {
            assert(rotated_right(m)[c0][n - 1 - r0] == m[r0][c0]);
            assert(cell_filled(rotated_right(m), c0, n - 1 - r0));
        },
    }
}

/// Turning a square matrix counter-clockwise four times restores it exactly.
pub proof fn lemma_rotate_left_four(m: Seq<Seq<u8>>)
    requires
        is_square(m),
    ensures
        rotated_left(rotated_left(rotated_left(rotated_left(m)))) == m,
{
    let n = m.len() as int;
    let m1 = rotated_left(m);
    let m2 = rotated_left(m1);
    let m3 = rotated_left(m2);
    let m4 = rotated_left(m3);
    assert forall|r: int, c: int| 0 <= r < n && 0 <= c < n implies m2[r][c] == m[n - 1 - r][n - 1
        - c] by {
        assert(m2[r][c] == m1[c][n - 1 - r]);
    }
    assert forall|r: int, c: int| 0 <= r < n && 0 <= c < n implies m4[r][c] == m[r][c] by {
        assert(m4[r][c] == m3[c][n - 1 - r]);
        assert(m3[c][n - 1 - r] == m2[n - 1 - r][n - 1 - c]);
    }
    assert(m4 =~~= m);
}

/// Turning a square matrix clockwise four times restores it exactly.
pub proof fn lemma_rotate_right_four(m: Seq<Seq<u8>>)
    requires
        is_square(m),
    ensures
        rotated_right(rotated_right(rotated_right(rotated_right(m)))) == m,
{
    let n = m.len() as int;
    let m1 = rotated_right(m);
    let m2 = rotated_right(m1);
    let m3 = rotated_right(m2);
    let m4 = rotated_right(m3);
    assert forall|r: int, c: int| 0 <= r < n && 0 <= c < n implies m2[r][c] == m[n - 1 - r][n - 1
        - c] by {
        assert(m2[r][c] == m1[n - 1 - c][r]);
    }
    assert forall|r: int, c: int| 0 <= r < n && 0 <= c < n implies m4[r][c] == m[r][c] by {
        assert(m4[r][c] == m3[n - 1 - c][r]);
        assert(m3[n - 1 - c][r] == m2[n - 1 - r][n - 1 - c]);
    }
    assert(m4 =~~= m);
}

/// The two rotation directions are inverses of each other.
pub proof fn lemma_rotate_inverse(m: Seq<Seq<u8>>)
    requires
        is_square(m),
    ensures
        rotated_right(rotated_left(m)) == m,
        rotated_left(rotated_right(m)) == m,
{
    let n = m.len() as int;
    let ml = rotated_left(m);
    let mr = rotated_right(m);
    assert forall|r: int, c: int| 0 <= r < n && 0 <= c < n implies rotated_right(ml)[r][c]
        == m[r][c] by {
        assert(rotated_right(ml)[r][c] == ml[n - 1 - c][r]);
    }
    assert forall|r: int, c: int| 0 <= r < n && 0 <= c < n implies rotated_left(mr)[r][c]
        == m[r][c] by {
        assert(rotated_left(mr)[r][c] == mr[c][n - 1 - r]);
    }
    assert(rotated_right(ml) =~~= m);
    assert(rotated_left(mr) =~~= m);
}

/// The colors of a sequence of pieces, in order.
pub open spec fn colors_of(s: Seq<Piece>) -> Seq<Color> {
    s.map_values(|p: Piece| p.color)
}

/// A freshly filled bag: seven pieces, all canonical, with exactly one piece
/// of each of the seven kinds (the colors form a permutation of the seven
/// piece colors).
pub open spec fn full_bag(s: Seq<Piece>) -> bool {
    &&& s.len() == 7
    &&& forall|i: int| 0 <= i < s.len() ==> is_canonical((#[trigger] s[i])@)
    &&& colors_of(s).to_multiset() == piece_colors().to_multiset()
}

/// The bag invariant: never observably empty, never more than one refill
/// deep, and holding only canonical pieces in spawn orientation.
pub open spec fn bag_wf(b: PieceBag) -> bool {
    &&& 1 <= b.pieces@.len() <= 7
    &&& forall|i: int| 0 <= i < b.pieces@.len() ==> is_canonical((#[trigger] b.pieces@[i])@)
}

/// A randomized, exhaustive supply of the seven piece kinds. Each refill
/// deals every kind exactly once, in a uniformly random order; the queue is
/// refilled eagerly whenever it runs out, so no caller ever sees it empty.
pub struct PieceBag {
    pub pieces: Vec<Piece>,
}

impl PieceBag {
    /// A bag holding one freshly shuffled set of the seven pieces.
    pub fn new() -> (b: PieceBag)
        ensures
            bag_wf(b),
            full_bag(b.pieces@),
    {
        let mut b = PieceBag { pieces: Vec::new() };
        b.fill_bag();
        b
    }

    /// Removes and returns the front piece; refills the bag first if that
    /// would leave it empty, so the bag stays observably non-empty.
    pub fn pop(&mut self) -> (p: Piece)
        requires
            bag_wf(*old(self)),
        ensures
            bag_wf(*final(self)),
            p == old(self).pieces@[0],
            is_canonical(p@),
            old(self).pieces@.len() > 1 ==> final(self).pieces@ == old(self).pieces@.drop_first(),
            old(self).pieces@.len() == 1 ==> full_bag(final(self).pieces@),
    {
        let ghost orig = self.pieces@;
        let p = self.pieces.remove(0);
        assert(self.pieces@ =~= orig.drop_first());
        if self.pieces.is_empty() {
            self.fill_bag();
        }
        p
    }

    /// Returns a copy of the front piece without changing the queue.
    pub fn peek(&self) -> (p: Piece)
        requires
            bag_wf(*self),
        ensures
            p@ == self.pieces@[0]@,
            is_canonical(p@),
    {
        self.pieces[0].clone()
    }

    /// Deals one of each of the seven pieces into the queue, in a uniformly
    /// random order, by drawing without replacement from a working pool.
    fn fill_bag(&mut self)
        requires
            old(self).pieces@.len() == 0,
        ensures
            full_bag(final(self).pieces@),
    {
        let mut pool: Vec<Piece> = Vec::new();
        pool.push(Piece::new_o());
        pool.push(Piece::new_l());
        pool.push(Piece::new_j());
        pool.push(Piece::new_t());
        pool.push(Piece::new_s());
        pool.push(Piece::new_z());
        pool.push(Piece::new_i());
        proof {
            assert(colors_of(pool@) =~= piece_colors());
            assert(colors_of(self.pieces@) =~= Seq::<Color>::empty());
            broadcast use vstd::seq_lib::group_to_multiset_ensures;
            broadcast use vstd::multiset::group_multiset_axioms;

            assert(colors_of(self.pieces@).to_multiset() =~= Multiset::<Color>::empty());
            assert(colors_of(self.pieces@).to_multiset().add(colors_of(pool@).to_multiset())
                =~= piece_colors().to_multiset());
        }
        while pool.len() > 0
            invariant
                forall|i: int| 0 <= i < pool@.len() ==> is_canonical((#[trigger] pool@[i])@),
                forall|i: int| 0 <= i < self.pieces@.len() ==> is_canonical(
                    (#[trigger] self.pieces@[i])@,
                ),
                colors_of(self.pieces@).to_multiset().add(colors_of(pool@).to_multiset())
                    == piece_colors().to_multiset(),
                self.pieces@.len() + pool@.len() == 7,
            decreases pool@.len(),
        {
            let idx = random_usize() % pool.len();
            let ghost oldpool = pool@;
            let ghost oldq = self.pieces@;
            let p = pool.swap_remove(idx);
            self.pieces.push(p);
            proof {
                broadcast use vstd::seq_lib::group_to_multiset_ensures;
                broadcast use vstd::multiset::group_multiset_axioms;

                let cp = colors_of(oldpool);
                let cq = colors_of(oldq);
                let x = cp[idx as int];
                let u = cp.update(idx as int, cp.last());
                assert(colors_of(pool@) =~= u.drop_last());
                assert(u.drop_last() =~= u.remove(u.len() - 1));
                assert(u.to_multiset() == cp.to_multiset().remove(x).insert(cp.last()));
                assert(u[u.len() - 1] == cp.last());
                assert(colors_of(pool@).to_multiset() == cp.to_multiset().remove(x).insert(
                    cp.last(),
                ).remove(cp.last()));
                assert(colors_of(pool@).to_multiset() =~= cp.to_multiset().remove(x));
                assert(colors_of(self.pieces@) =~= cq.push(x));
                assert(colors_of(self.pieces@).to_multiset() == cq.to_multiset().insert(x));
                assert(cp.contains(x));
                assert(cp.to_multiset().count(x) > 0);
                assert(colors_of(self.pieces@).to_multiset().add(colors_of(pool@).to_multiset())
                    =~= cq.to_multiset().add(cp.to_multiset()));
            }
        }
        proof {
            broadcast use vstd::seq_lib::group_to_multiset_ensures;
            broadcast use vstd::multiset::group_multiset_axioms;

            assert(colors_of(pool@) =~= Seq::<Color>::empty());
            assert(colors_of(pool@).to_multiset() =~= Multiset::<Color>::empty());
            assert(colors_of(self.pieces@).to_multiset() =~= colors_of(
                self.pieces@,
            ).to_multiset().add(colors_of(pool@).to_multiset()));
            assert(colors_of(self.pieces@).len() == self.pieces@.len());
            assert(piece_colors().to_multiset().len() == 7);
        }
    }
}

/// A full bag holds exactly one piece of each of the seven kinds: every
/// canonical color occurs at exactly one queue position.
pub proof fn lemma_full_bag_one_of_each(s: Seq<Piece>)
    requires
        full_bag(s),
    ensures
        forall|c: Color| piece_colors().contains(c) ==> colors_of(s).to_multiset().count(c) == 1,
        forall|c: Color| piece_colors().contains(c) ==> exists|i: int|
            0 <= i < s.len() && (#[trigger] s[i]).color == c,
{
    broadcast use vstd::seq_lib::group_to_multiset_ensures;
    broadcast use vstd::multiset::group_multiset_axioms;

    assert(piece_colors().no_duplicates());
    piece_colors().lemma_multiset_has_no_duplicates();
    assert forall|c: Color| piece_colors().contains(c) implies colors_of(s).to_multiset().count(c)
        == 1 by {
        assert(piece_colors().to_multiset().count(c) == 1);
    }
    assert forall|c: Color| piece_colors().contains(c) implies exists|i: int|
        0 <= i < s.len() && (#[trigger] s[i]).color == c by {
        assert(colors_of(s).to_multiset().count(c) == 1);
        assert(colors_of(s).contains(c));
        let i = choose|i: int| 0 <= i < colors_of(s).len() && colors_of(s)[i] == c;
        assert(s[i].color == c);
    }
}

/// Relies on rand::random: draws a uniformly distributed machine-word
/// integer from the thread-local generator. Nothing is promised of the
/// value; callers reduce it to the range they need.
#[verifier::external_body]
fn random_usize() -> usize {
    rand::random::<usize>()
}

/// Builds a two-cell row.
fn row2(a: u8, b: u8) -> (v: Vec<u8>)
    ensures
        v@ == seq![a, b],
{
    let mut v: Vec<u8> = Vec::new();
    v.push(a);
    v.push(b);
    assert(v@ =~= seq![a, b]);
    v
}

/// Builds a three-cell row.
fn row3(a: u8, b: u8, c: u8) -> (v: Vec<u8>)
    ensures
        v@ == seq![a, b, c],
{
    let mut v: Vec<u8> = Vec::new();
    v.push(a);
    v.push(b);
    v.push(c);
    assert(v@ =~= seq![a, b, c]);
    v
}

/// Builds a four-cell row.
fn row4(a: u8, b: u8, c: u8, d: u8) -> (v: Vec<u8>)
    ensures
        v@ == seq![a, b, c, d],
{
    let mut v: Vec<u8> = Vec::new();
    v.push(a);
    v.push(b);
    v.push(c);
    v.push(d);
    assert(v@ =~= seq![a, b, c, d]);
    v
}

} // verus!
