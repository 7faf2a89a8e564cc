//! The executable board: a flat vector of 64 squares viewed as the 8×8
//! position of `rules`, with move generation, legality filtering, move
//! application and end-of-game detection, each proved against that model.
use vstd::prelude::*;

use crate::piece::Color;
use crate::piece::Piece;
use crate::piece::PieceType;
use crate::rules::at;
use crate::rules::attacks_from;
use crate::rules::apply_move;
use crate::rules::back_rank;
use crate::rules::capturable;
use crate::rules::enemy_at;
use crate::rules::has_king;
use crate::rules::init_board;
use crate::rules::init_piece;
use crate::rules::is_king_of;
use crate::rules::king_attacked;
use crate::rules::king_sq;
use crate::rules::king_unique;
use crate::rules::legal_move;
use crate::rules::lemma_move_keeps_own_king;
use crate::rules::no_legal_moves;
use crate::rules::on_board;
use crate::rules::on_board_pt;
use crate::rules::empty_pt;
use crate::rules::piece_moves;
use crate::rules::piece_on;
use crate::rules::ray_hit;
use crate::rules::ray_pt;
use crate::rules::ray_reaches;
use crate::rules::square_attacked;

verus! {

/// One cell of the grid, holding at most one piece.
#[derive(Clone, Copy, Debug, PartialEq, Eq)]
pub struct Square {
    pub piece: Option<Piece>,
}

/// One applied move, as the board's history records it.
#[derive(Clone, Copy, Debug, PartialEq, Eq)]
pub struct MoveRecord {
    pub from: (usize, usize),
    pub to: (usize, usize),
    pub piece: Piece,
    pub captured: Option<Piece>,
}

/// The board: 64 squares in file-major order (file f, rank r at index
/// 8 * f + r), and the ordered history of applied moves.
pub struct Board {
    pub squares: Vec<Square>,
    pub history: Vec<MoveRecord>,
}

impl View for Board {
    type V = Seq<Seq<Option<Piece>>>;

    open spec fn view(&self) -> Seq<Seq<Option<Piece>>> {
        Seq::new(8, |i: int| Seq::new(8, |j: int| self.squares@[i * 8 + j].piece))
    }
}

impl Board {
    pub open spec fn wf(self) -> bool {
        self.squares@.len() == 64
    }

    /// An empty board with an empty history.
    pub fn new() -> (b: Board)
        ensures
            b.wf(),
            forall|i: int, j: int| on_board(i, j) ==> #[trigger] at(b@, i, j) is None,
            b.history@.len() == 0,
    {
        let mut squares: Vec<Square> = Vec::new();
        let mut n: usize = 0;
        while n < 64
            invariant
                squares@.len() == n,
                n <= 64,
                forall|m: int| 0 <= m < n ==> (#[trigger] squares@[m]).piece is None,
            decreases 64 - n,
        {
            squares.push(Square { piece: None });
            n = n + 1;
        }
        Board { squares, history: Vec::new() }
    }

    /// The occupant of square (i, j), for rendering and for play.
    pub fn piece_at(&self, i: usize, j: usize) -> (r: Option<Piece>)
        requires
            self.wf(),
            i < 8,
            j < 8,
        ensures
            r == at(self@, i as int, j as int),
    {
        self.squares[i * 8 + j].piece
    }

    /// Put a piece on (i, j), or clear it: the way to set up a position.
    pub fn place_piece(&mut self, i: usize, j: usize, p: Option<Piece>)
        requires
            old(self).wf(),
            i < 8,
            j < 8,
        ensures
            final(self).wf(),
            at(final(self)@, i as int, j as int) == p,
            forall|x: int, y: int|
                on_board(x, y) && !(x == i && y == j)
                    ==> #[trigger] at(final(self)@, x, y) == at(old(self)@, x, y),
            final(self).history@ == old(self).history@,
    {
        self.squares[i * 8 + j] = Square { piece: p };
    }

    /// Fill the board with the standard starting position.
    pub fn init(&mut self)
        requires
            old(self).wf(),
        ensures
            final(self).wf(),
            final(self)@ == init_board(),
            final(self).history@ == old(self).history@,
    {
        let mut v: Vec<Square> = Vec::new();
        let mut idx: usize = 0;
        while idx < 64
            invariant
                v@.len() == idx,
                idx <= 64,
                forall|m: int|
                    0 <= m < idx ==> (#[trigger] v@[m]).piece == init_piece(m / 8, m % 8),
            decreases 64 - idx,
        {
            let i = idx / 8;
            let j = idx % 8;
            v.push(Square { piece: starting_piece(i, j) });
            idx = idx + 1;
        }
        self.squares = v;
        proof {
            assert forall|x: int, y: int| on_board(x, y) implies #[trigger] at(self@, x, y)
                == init_piece(x, y) by {
                assert((x * 8 + y) / 8 == x && (x * 8 + y) % 8 == y) by (nonlinear_arith)
                    requires
                        0 <= x < 8 && 0 <= y < 8,
                ;
            }
            assert(self@ =~~= init_board());
        }
    }

    /// Whether square (i, j) is empty.
    fn empty_at(&self, i: usize, j: usize) -> (r: bool)
        requires
            self.wf(),
            i < 8,
            j < 8,
        ensures
            r == (at(self@, i as int, j as int) is None),
    {
        match self.squares[i * 8 + j].piece {
            None => true,
            Some(_) => false,
        }
    }

    /// Whether a mover of color c may land on (i, j): empty or opposing.
    fn capturable_at(&self, c: Color, i: usize, j: usize) -> (r: bool)
        requires
            self.wf(),
            i < 8,
            j < 8,
        ensures
            r == capturable(self@, c, i as int, j as int),
    {
        match self.squares[i * 8 + j].piece {
            None => true,
            Some(q) => q.color != c,
        }
    }

    /// Whether (i, j) holds an opponent of color c.
    fn enemy_on(&self, c: Color, i: usize, j: usize) -> (r: bool)
        requires
            self.wf(),
            i < 8,
            j < 8,
        ensures
            r == enemy_at(self@, c, i as int, j as int),
    {
        match self.squares[i * 8 + j].piece {
            None => false,
            Some(q) => q.color != c,
        }
    }

    /// Walk one ray from (fi, fj) by (dx, dy) and decide whether it reaches
    /// (ti, tj): the walk stops at the board's edge or at the first occupied
    /// square, which counts only as a capture of an opposing piece.
    fn ray(&self, c: Color, fi: usize, fj: usize, dx: i64, dy: i64, ti: usize, tj: usize) -> (r:
        bool)
        requires
            self.wf(),
            fi < 8,
            fj < 8,
            ti < 8,
            tj < 8,
            -1 <= dx <= 1,
            -1 <= dy <= 1,
            !(dx == 0 && dy == 0),
        ensures
            r == ray_reaches(self@, c, fi as int, fj as int, dx as int, dy as int, ti as int,
            tj as int),
    {
        let mut ci: i64 = fi as i64;
        let mut cj: i64 = fj as i64;
        let mut k: usize = 0;
        while k < 7
            invariant
                self.wf(),
                fi < 8,
                fj < 8,
                ti < 8,
                tj < 8,
                -1 <= dx <= 1,
                -1 <= dy <= 1,
                !(dx == 0 && dy == 0),
                k <= 7,
                0 <= ci < 8,
                0 <= cj < 8,
                (ci as int, cj as int) == ray_pt(fi as int, fj as int, dx as int, dy as int,
                k as int),
                forall|m: int|
                    1 <= m <= k ==> on_board_pt(
                        #[trigger] ray_pt(fi as int, fj as int, dx as int, dy as int, m),
                    ),
                forall|m: int|
                    1 <= m <= k ==> empty_pt(
                        self@,
                        #[trigger] ray_pt(fi as int, fj as int, dx as int, dy as int, m),
                    ) && ray_pt(fi as int, fj as int, dx as int, dy as int, m) != (
                    ti as int,
                    tj as int,
                    ),
            decreases 7 - k,
        {
            let ni = ci + dx;
            let nj = cj + dy;
            proof {
                assert(ray_pt(fi as int, fj as int, dx as int, dy as int, k as int + 1) == (
                    ni as int,
                    nj as int,
                ));
            }
            if ni < 0 || ni > 7 || nj < 0 || nj > 7 {
                return false;
            }
            k = k + 1;
            let idx: usize = (ni as usize) * 8 + (nj as usize);
            let hit = ni as usize == ti && nj as usize == tj;
            match self.squares[idx].piece {
                Some(q) => {
                    if hit {
                        proof {
                            if q.color != c {
                                assert(ray_hit(self@, c, fi as int, fj as int, dx as int,
                                dy as int, ti as int, tj as int, k as int));
                            }
                        }
                        return q.color != c;
                    } else {
                        return false;
                    }
                },
                None => {
                    if hit {
                        proof {
                            assert(ray_hit(self@, c, fi as int, fj as int, dx as int, dy as int,
                            ti as int, tj as int, k as int));
                        }
                        return true;
                    }
                    ci = ni;
                    cj = nj;
                },
            }
        }
        false
    }

    /// Decide the pseudo-legal movement rule of piece p at (fi, fj) toward
    /// (ti, tj).
    fn reaches(&self, p: Piece, fi: usize, fj: usize, ti: usize, tj: usize) -> (r: bool)
        requires
            self.wf(),
            fi < 8,
            fj < 8,
            ti < 8,
            tj < 8,
        ensures
            r == piece_moves(self@, p, fi as int, fj as int, ti as int, tj as int),
    {
        let c = p.color;
        match p.piece_type {
            PieceType::Rook => {
                self.ray(c, fi, fj, 1, 0, ti, tj) || self.ray(c, fi, fj, -1, 0, ti, tj)
                    || self.ray(c, fi, fj, 0, 1, ti, tj) || self.ray(c, fi, fj, 0, -1, ti, tj)
            },
            PieceType::Bishop => {
                self.ray(c, fi, fj, 1, 1, ti, tj) || self.ray(c, fi, fj, 1, -1, ti, tj)
                    || self.ray(c, fi, fj, -1, 1, ti, tj) || self.ray(c, fi, fj, -1, -1, ti, tj)
            },
            PieceType::Queen => {
                self.ray(c, fi, fj, 1, 0, ti, tj) || self.ray(c, fi, fj, -1, 0, ti, tj)
                    || self.ray(c, fi, fj, 0, 1, ti, tj) || self.ray(c, fi, fj, 0, -1, ti, tj)
                    || self.ray(c, fi, fj, 1, 1, ti, tj) || self.ray(c, fi, fj, 1, -1, ti, tj)
                    || self.ray(c, fi, fj, -1, 1, ti, tj) || self.ray(c, fi, fj, -1, -1, ti, tj)
            },
            PieceType::Knight => {
                let di = ti as i64 - fi as i64;
                let dj = tj as i64 - fj as i64;
                let shape = (di == 1 && dj == 2) || (di == 2 && dj == 1) || (di == -1 && dj == 2)
                    || (di == -2 && dj == 1) || (di == 1 && dj == -2) || (di == 2 && dj == -1)
                    || (di == -1 && dj == -2) || (di == -2 && dj == -1);
                shape && self.capturable_at(c, ti, tj)
            },
            PieceType::King => {
                let di = ti as i64 - fi as i64;
                let dj = tj as i64 - fj as i64;
                let near = -1 <= di && di <= 1 && -1 <= dj && dj <= 1 && !(di == 0 && dj == 0);
                near && self.capturable_at(c, ti, tj)
            },
            PieceType::Pawn => {
                match c {
                    Color::White => {
                        let single = ti == fi && tj == fj + 1 && self.empty_at(ti, tj);
                        let double = ti == fi && fj == 1 && tj == 3 && self.empty_at(fi, 2)
                            && self.empty_at(fi, 3);
                        let capture = (ti == fi + 1 || ti + 1 == fi) && tj == fj + 1
                            && self.enemy_on(c, ti, tj);
                        single || double || capture
                    },
                    Color::Black => {
                        let single = ti == fi && tj + 1 == fj && self.empty_at(ti, tj);
                        let double = ti == fi && fj == 6 && tj == 4 && self.empty_at(fi, 5)
                            && self.empty_at(fi, 4);
                        let capture = (ti == fi + 1 || ti + 1 == fi) && tj + 1 == fj
                            && self.enemy_on(c, ti, tj);
                        single || double || capture
                    },
                }
            },
        }
    }

    /// A scratch copy of the position with the occupant of (fi, fj) moved to
    /// (ti, tj); its history is of no interest.
    fn simulate_move(&self, fi: usize, fj: usize, ti: usize, tj: usize) -> (r: Board)
        requires
            self.wf(),
            fi < 8,
            fj < 8,
            ti < 8,
            tj < 8,
        ensures
            r.wf(),
            r@ == apply_move(self@, fi as int, fj as int, ti as int, tj as int),
    {
        let mut sq = copy_squares(&self.squares);
        let moved = self.squares[fi * 8 + fj].piece;
        sq[fi * 8 + fj] = Square { piece: None };
        sq[ti * 8 + tj] = Square { piece: moved };
        let r = Board { squares: sq, history: Vec::new() };
        proof {
            let b2 = apply_move(self@, fi as int, fj as int, ti as int, tj as int);
            assert forall|x: int, y: int| on_board(x, y) implies #[trigger] at(r@, x, y) == at(
                b2,
                x,
                y,
            ) by {
                assert(x * 8 + y == fi * 8 + fj <==> (x == fi && y == fj));
                assert(x * 8 + y == ti * 8 + tj <==> (x == ti && y == tj));
            }
            assert(r@ =~~= b2);
        }
        r
    }

    /// Whether color's king is attacked: find the king, then test every
    /// opposing piece's pseudo-legal movement against its square.
    pub fn is_king_attacked(&self, color: Color) -> (r: bool)
        requires
            self.wf(),
            has_king(self@, color),
            king_unique(self@, color),
        ensures
            r == king_attacked(self@, color),
    {
        let mut ki: usize = 0;
        let mut kj: usize = 0;
        let mut found: bool = false;
        let mut i: usize = 0;
        while i < 8
            invariant
                self.wf(),
                i <= 8,
                found ==> ki < 8 && kj < 8 && is_king_of(self@, color, ki as int, kj as int),
                !found ==> forall|x: int, y: int|
                    on_board(x, y) && x < i ==> !is_king_of(self@, color, x, y),
            decreases 8 - i,
        {
            let mut j: usize = 0;
            while j < 8
                invariant
                    self.wf(),
                    i < 8,
                    j <= 8,
                    found ==> ki < 8 && kj < 8 && is_king_of(self@, color, ki as int, kj as int),
                    !found ==> forall|x: int, y: int|
                        on_board(x, y) && (x < i || (x == i && y < j)) ==> !is_king_of(
                            self@,
                            color,
                            x,
                            y,
                        ),
                decreases 8 - j,
            {
                match self.squares[i * 8 + j].piece {
                    Some(q) => {
                        if q.color == color && q.piece_type == PieceType::King {
                            ki = i;
                            kj = j;
                            found = true;
                        }
                    },
                    None => {},
                }
                j = j + 1;
            }
            i = i + 1;
        }
        proof {
            if !found {
                let (x, y) = choose|x: int, y: int| is_king_of(self@, color, x, y);
                assert(is_king_of(self@, color, x, y));
                assert(false);
            }
            let k = king_sq(self@, color);
            assert(is_king_of(self@, color, k.0, k.1));
            assert(k == (ki as int, kj as int));
        }
        let enemy = color.opposite();
        let mut att: bool = false;
        let mut x: usize = 0;
        while x < 8
            invariant
                self.wf(),
                x <= 8,
                ki < 8,
                kj < 8,
                king_sq(self@, color) == (ki as int, kj as int),
                enemy == color.opposite(),
                att ==> king_attacked(self@, color),
                !att ==> forall|u: int, v: int|
                    on_board(u, v) && u < x ==> !attacks_from(self@, enemy, u, v, ki as int,
                    kj as int),
            decreases 8 - x,
        {
            let mut y: usize = 0;
            while y < 8
                invariant
                    self.wf(),
                    x < 8,
                    y <= 8,
                    ki < 8,
                    kj < 8,
                    king_sq(self@, color) == (ki as int, kj as int),
                    enemy == color.opposite(),
                    att ==> king_attacked(self@, color),
                    !att ==> forall|u: int, v: int|
                        on_board(u, v) && (u < x || (u == x && v < y)) ==> !attacks_from(
                            self@,
                            enemy,
                            u,
                            v,
                            ki as int,
                            kj as int,
                        ),
                decreases 8 - y,
            {
                match self.squares[x * 8 + y].piece {
                    Some(q) => {
                        if q.color == enemy {
                            if self.reaches(q, x, y, ki, kj) {
                                att = true;
                                proof {
                                    assert(attacks_from(self@, enemy, x as int, y as int,
                                    ki as int, kj as int));
                                    assert(square_attacked(self@, enemy, ki as int, kj as int));
                                }
                            }
                        }
                    },
                    None => {},
                }
                y = y + 1;
            }
            x = x + 1;
        }
        proof {
            if !att {
                assert(!square_attacked(self@, enemy, ki as int, kj as int));
            }
        }
        att
    }

    /// Decide whether moving color's piece from (fi, fj) to (ti, tj) is legal:
    /// the origin must hold color's piece, the movement rule must admit the
    /// destination, and a simulation of the move must leave color's king safe.
    fn is_legal_move(&self, c: Color, fi: usize, fj: usize, ti: usize, tj: usize) -> (r: bool)
        requires
            self.wf(),
            has_king(self@, c),
            king_unique(self@, c),
            fi < 8,
            fj < 8,
            ti < 8,
            tj < 8,
        ensures
            r == legal_move(self@, c, fi as int, fj as int, ti as int, tj as int),
    {
        match self.squares[fi * 8 + fj].piece {
            None => false,
            Some(p) => {
                if p.color != c {
                    false
                } else if !self.reaches(p, fi, fj, ti, tj) {
                    false
                } else {
                    proof {
                        lemma_move_keeps_own_king(self@, c, fi as int, fj as int, ti as int,
                        tj as int);
                    }
                    let scratch = self.simulate_move(fi, fj, ti, tj);
                    !scratch.is_king_attacked(c)
                }
            },
        }
    }

    /// The legal destinations of the given piece standing on sq: its
    /// pseudo-legal destinations, each kept only if a simulation of the move
    /// leaves the mover's own king safe. The result lists each destination
    /// once, in scan order.
    pub fn filter_available_moves(&self, sq: (usize, usize), piece: Piece) -> (r: Vec<
        (usize, usize),
    >)
        requires
            self.wf(),
            sq.0 < 8,
            sq.1 < 8,
            at(self@, sq.0 as int, sq.1 as int) == Some(piece),
            has_king(self@, piece.color),
            king_unique(self@, piece.color),
        ensures
            forall|t: (usize, usize)|
                t.0 < 8 && t.1 < 8 ==> (#[trigger] r@.contains(t) <==> legal_move(
                    self@,
                    piece.color,
                    sq.0 as int,
                    sq.1 as int,
                    t.0 as int,
                    t.1 as int,
                )),
            forall|m: int|
                0 <= m < r@.len() ==> (#[trigger] r@[m]).0 < 8 && r@[m].1 < 8 && legal_move(
                    self@,
                    piece.color,
                    sq.0 as int,
                    sq.1 as int,
                    r@[m].0 as int,
                    r@[m].1 as int,
                ),
            forall|m1: int, m2: int| 0 <= m1 < m2 < r@.len() ==> r@[m1] != r@[m2],
    {
        let c = piece.color;
        let mut r: Vec<(usize, usize)> = Vec::new();
        let mut ti: usize = 0;
        while ti < 8
            invariant
                self.wf(),
                sq.0 < 8,
                sq.1 < 8,
                at(self@, sq.0 as int, sq.1 as int) == Some(piece),
                has_king(self@, c),
                king_unique(self@, c),
                c == piece.color,
                ti <= 8,
                forall|m: int|
                    0 <= m < r@.len() ==> (#[trigger] r@[m]).0 < ti && r@[m].1 < 8 && legal_move(
                        self@,
                        c,
                        sq.0 as int,
                        sq.1 as int,
                        r@[m].0 as int,
                        r@[m].1 as int,
                    ),
                forall|m1: int, m2: int| 0 <= m1 < m2 < r@.len() ==> r@[m1] != r@[m2],
                forall|t: (usize, usize)|
                    t.0 < ti && t.1 < 8 && legal_move(
                        self@,
                        c,
                        sq.0 as int,
                        sq.1 as int,
                        t.0 as int,
                        t.1 as int,
                    ) ==> #[trigger] r@.contains(t),
            decreases 8 - ti,
        {
            let mut tj: usize = 0;
            while tj < 8
                invariant
                    self.wf(),
                    sq.0 < 8,
                    sq.1 < 8,
                    at(self@, sq.0 as int, sq.1 as int) == Some(piece),
                    has_king(self@, c),
                    king_unique(self@, c),
                    c == piece.color,
                    ti < 8,
                    tj <= 8,
                    forall|m: int|
                        0 <= m < r@.len() ==> ((#[trigger] r@[m]).0 < ti || (r@[m].0 == ti
                            && r@[m].1 < tj)) && r@[m].1 < 8 && legal_move(
                            self@,
                            c,
                            sq.0 as int,
                            sq.1 as int,
                            r@[m].0 as int,
                            r@[m].1 as int,
                        ),
                    forall|m1: int, m2: int| 0 <= m1 < m2 < r@.len() ==> r@[m1] != r@[m2],
                    forall|t: (usize, usize)|
                        ((t.0 < ti && t.1 < 8) || (t.0 == ti && t.1 < tj)) && legal_move(
                            self@,
                            c,
                            sq.0 as int,
                            sq.1 as int,
                            t.0 as int,
                            t.1 as int,
                        ) ==> #[trigger] r@.contains(t),
                decreases 8 - tj,
            {
                let ghost r_before = r@;
                let leg = self.is_legal_move(c, sq.0, sq.1, ti, tj);
                if leg {
                    r.push((ti, tj));
                }
                proof {
                    assert forall|t2: (usize, usize)| r_before.contains(t2) implies r@.contains(
                        t2,
                    ) by {
                        let idx = choose|i: int| 0 <= i < r_before.len() && r_before[i] == t2;
                        assert(r@[idx] == t2);
                    }
                    if leg {
                        assert(r@[r@.len() - 1] == (ti, tj));
                        assert(r@.contains((ti, tj)));
                    }
                    assert forall|t: (usize, usize)|
                        ((t.0 < ti && t.1 < 8) || (t.0 == ti && t.1 <= tj)) && legal_move(
                            self@,
                            c,
                            sq.0 as int,
                            sq.1 as int,
                            t.0 as int,
                            t.1 as int,
                        ) implies #[trigger] r@.contains(t) by {
                        if t.0 == ti && t.1 == tj {
                            assert(t == (ti, tj));
                            assert(leg);
                            assert(r@.contains((ti, tj)));
                        } else {
                            assert(r_before.contains(t));
                        }
                    }
                }
                tj = tj + 1;
            }
            ti = ti + 1;
        }
        r
    }

    /// Apply a move for the given color if it is legal; otherwise change
    /// nothing. Acceptance is observable only through the history, which grows
    /// by exactly the applied move.
    pub fn move_piece(&mut self, from: (usize, usize), to: (usize, usize), color: Color)
        requires
            old(self).wf(),
            from.0 < 8,
            from.1 < 8,
            to.0 < 8,
            to.1 < 8,
            has_king(old(self)@, color),
            king_unique(old(self)@, color),
        ensures
            final(self).wf(),
            legal_move(old(self)@, color, from.0 as int, from.1 as int, to.0 as int, to.1 as int)
                ==> final(self)@ == apply_move(old(self)@, from.0 as int, from.1 as int,
            to.0 as int, to.1 as int) && final(self).history@ == old(self).history@.push(
                (MoveRecord {
                    from,
                    to,
                    piece: piece_on(old(self)@, from.0 as int, from.1 as int),
                    captured: at(old(self)@, to.0 as int, to.1 as int),
                }),
            ),
            !legal_move(old(self)@, color, from.0 as int, from.1 as int, to.0 as int, to.1 as int)
                ==> *final(self) == *old(self),
    {
        let legal = self.is_legal_move(color, from.0, from.1, to.0, to.1);
        if legal {
            let moved = self.squares[from.0 * 8 + from.1].piece;
            let captured = self.squares[to.0 * 8 + to.1].piece;
            let ghost b0 = self@;
            self.squares[from.0 * 8 + from.1] = Square { piece: None };
            self.squares[to.0 * 8 + to.1] = Square { piece: moved };
            proof {
                let b2 = apply_move(b0, from.0 as int, from.1 as int, to.0 as int, to.1 as int);
                assert forall|x: int, y: int| on_board(x, y) implies #[trigger] at(self@, x, y)
                    == at(b2, x, y) by {
                    assert(x * 8 + y == from.0 * 8 + from.1 <==> (x == from.0 && y == from.1));
                    assert(x * 8 + y == to.0 * 8 + to.1 <==> (x == to.0 && y == to.1));
                }
                assert(self@ =~~= b2);
            }
            match moved {
                Some(p) => {
                    self.history.push(MoveRecord { from, to, piece: p, captured });
                },
                None => {
                    proof {
                        assert(false);
                    }
                },
            }
        }
    }

    /// End-of-game test for the given color to move: checkmate if it has no
    /// legal move while its king is attacked, stalemate if it has no legal
    /// move while its king is safe. At most one of the two holds.
    pub fn check_for_winner(&self, color: Color) -> (r: (bool, bool))
        requires
            self.wf(),
            has_king(self@, color),
            king_unique(self@, color),
        ensures
            r.0 == (no_legal_moves(self@, color) && king_attacked(self@, color)),
            r.1 == (no_legal_moves(self@, color) && !king_attacked(self@, color)),
            !(r.0 && r.1),
    {
        let mut any: bool = false;
        let mut fi: usize = 0;
        while fi < 8
            invariant
                self.wf(),
                has_king(self@, color),
                king_unique(self@, color),
                fi <= 8,
                any ==> !no_legal_moves(self@, color),
                !any ==> forall|x: int, y: int, u: int, v: int|
                    x < fi ==> !(#[trigger] legal_move(self@, color, x, y, u, v)),
            decreases 8 - fi,
        {
            let mut fj: usize = 0;
            while fj < 8
                invariant
                    self.wf(),
                    has_king(self@, color),
                    king_unique(self@, color),
                    fi < 8,
                    fj <= 8,
                    any ==> !no_legal_moves(self@, color),
                    !any ==> forall|x: int, y: int, u: int, v: int|
                        (x < fi || (x == fi && y < fj)) ==> !(#[trigger] legal_move(
                            self@,
                            color,
                            x,
                            y,
                            u,
                            v,
                        )),
                decreases 8 - fj,
            {
                match self.squares[fi * 8 + fj].piece {
                    Some(p) => {
                        if p.color == color {
                            let moves = self.filter_available_moves((fi, fj), p);
                            if moves.len() > 0 {
                                proof {
                                    assert(moves@.contains(moves@[0]));
                                }
                                any = true;
                            } else {
                                proof {
                                    assert forall|u: int, v: int| !(#[trigger] legal_move(
                                        self@,
                                        color,
                                        fi as int,
                                        fj as int,
                                        u,
                                        v,
                                    )) by {
                                        if on_board(u, v) {
                                            let t = (u as usize, v as usize);
                                            assert(!moves@.contains(t));
                                        }
                                    }
                                }
                            }
                        } else {
                            proof {
                                assert forall|u: int, v: int| !(#[trigger] legal_move(
                                    self@,
                                    color,
                                    fi as int,
                                    fj as int,
                                    u,
                                    v,
                                )) by {}
                            }
                        }
                    },
                    None => {
                        proof {
                            assert forall|u: int, v: int| !(#[trigger] legal_move(
                                self@,
                                color,
                                fi as int,
                                fj as int,
                                u,
                                v,
                            )) by {}
                        }
                    },
                }
                fj = fj + 1;
            }
            fi = fi + 1;
        }
        proof {
            if !any {
                assert forall|x: int, y: int, u: int, v: int| !(#[trigger] legal_move(
                    self@,
                    color,
                    x,
                    y,
                    u,
                    v,
                )) by {
                    if on_board(x, y) {
                    }
                }
                assert(no_legal_moves(self@, color));
            }
        }
        let attacked = self.is_king_attacked(color);
        (!any && attacked, !any && !attacked)
    }
}

/// A plain copy of a square vector.
fn copy_squares(v: &Vec<Square>) -> (r: Vec<Square>)
    ensures
        r@ == v@,
{
    let mut r: Vec<Square> = Vec::new();
    let mut n: usize = 0;
    while n < v.len()
        invariant
            n <= v@.len(),
            r@.len() == n,
            forall|m: int| 0 <= m < n ==> r@[m] == v@[m],
        decreases v@.len() - n,
    {
        let s = v[n];
        r.push(s);
        n = n + 1;
    }
    proof {
        assert(r@ =~= v@);
    }
    r
}

/// The occupant of square (i, j) in the starting position.
fn starting_piece(i: usize, j: usize) -> (r: Option<Piece>)
    requires
        i < 8,
        j < 8,
    ensures
        r == init_piece(i as int, j as int),
{
    if j == 0 {
        Some(Piece { color: Color::White, piece_type: back_rank_piece(i) })
    } else if j == 1 {
        Some(Piece { color: Color::White, piece_type: PieceType::Pawn })
    } else if j == 6 {
        Some(Piece { color: Color::Black, piece_type: PieceType::Pawn })
    } else if j == 7 {
        Some(Piece { color: Color::Black, piece_type: back_rank_piece(i) })
    } else {
        None
    }
}

/// The starting back-rank piece kind on file i.
fn back_rank_piece(i: usize) -> (r: PieceType)
    requires
        i < 8,
    ensures
        r == back_rank(i as int),
{
    if i == 0 || i == 7 {
        PieceType::Rook
    } else if i == 1 || i == 6 {
        PieceType::Knight
    } else if i == 2 || i == 5 {
        PieceType::Bishop
    } else if i == 3 {
        PieceType::Queen
    } else {
        PieceType::King
    }
}

} // verus!
