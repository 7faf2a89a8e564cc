//! The mathematical model of the chess rules: the board as an 8×8 sequence of
//! optional pieces, pseudo-legal movement per piece kind, move application,
//! attack detection, and legality (a pseudo-legal move that leaves the mover's
//! own king safe).
use vstd::prelude::*;

use crate::piece::Color;
use crate::piece::Piece;
use crate::piece::PieceType;

verus! {

/// A board position: 8 files, each a sequence of 8 ranks, each square holding
/// at most one piece.
pub type BoardView = Seq<Seq<Option<Piece>>>;

pub open spec fn in_range(x: int) -> bool {
    0 <= x < 8
}

pub open spec fn on_board(i: int, j: int) -> bool {
    in_range(i) && in_range(j)
}

pub open spec fn board_wf(b: BoardView) -> bool {
    b.len() == 8 && forall|i: int| 0 <= i < 8 ==> (#[trigger] b[i]).len() == 8
}

/// The occupant of square (file i, rank j).
pub open spec fn at(b: BoardView, i: int, j: int) -> Option<Piece> {
    b[i][j]
}

/// The piece on a square, meaningful only where the square is occupied.
pub open spec fn piece_on(b: BoardView, i: int, j: int) -> Piece {
    match at(b, i, j) {
        Some(p) => p,
        None => vstd::pervasive::arbitrary(),
    }
}

/// A square a mover of color c may land on: empty, or held by the opponent.
pub open spec fn capturable(b: BoardView, c: Color, i: int, j: int) -> bool {
    match at(b, i, j) {
        Some(q) => q.color != c,
        None => true,
    }
}

/// A square held by an opponent of color c.
pub open spec fn enemy_at(b: BoardView, c: Color, i: int, j: int) -> bool {
    match at(b, i, j) {
        Some(q) => q.color != c,
        None => false,
    }
}

/// The k-th square of the ray that starts at (fi, fj) and steps by (dx, dy).
pub open spec fn ray_pt(fi: int, fj: int, dx: int, dy: int, k: int) -> (int, int)
    decreases k,
{
    if k <= 0 {
        (fi, fj)
    } else {
        let p = ray_pt(fi, fj, dx, dy, k - 1);
        (p.0 + dx, p.1 + dy)
    }
}

pub open spec fn on_board_pt(p: (int, int)) -> bool {
    on_board(p.0, p.1)
}

pub open spec fn empty_pt(b: BoardView, p: (int, int)) -> bool {
    at(b, p.0, p.1) is None
}

/// The target (ti, tj) is the k-th step of the ray from (fi, fj) along
/// (dx, dy): every step up to it lies on the board, every strictly earlier
/// step is empty, and the target itself is empty or holds an opposing piece.
pub open spec fn ray_hit(
    b: BoardView,
    c: Color,
    fi: int,
    fj: int,
    dx: int,
    dy: int,
    ti: int,
    tj: int,
    k: int,
) -> bool {
    &&& 1 <= k <= 7
    &&& ray_pt(fi, fj, dx, dy, k) == (ti, tj)
    &&& forall|m: int| 1 <= m <= k ==> on_board_pt(#[trigger] ray_pt(fi, fj, dx, dy, m))
    &&& forall|m: int| 1 <= m < k ==> empty_pt(b, #[trigger] ray_pt(fi, fj, dx, dy, m))
    &&& capturable(b, c, ti, tj)
}

/// A sliding piece of color c at (fi, fj) reaches (ti, tj) along direction
/// (dx, dy): the ray stops at the first occupied square, which counts only as
/// a capture of an opposing piece.
pub open spec fn ray_reaches(
    b: BoardView,
    c: Color,
    fi: int,
    fj: int,
    dx: int,
    dy: int,
    ti: int,
    tj: int,
) -> bool {
    exists|k: int| #[trigger] ray_hit(b, c, fi, fj, dx, dy, ti, tj, k)
}

pub open spec fn rook_move(b: BoardView, c: Color, fi: int, fj: int, ti: int, tj: int) -> bool {
    ||| ray_reaches(b, c, fi, fj, 1, 0, ti, tj)
    ||| ray_reaches(b, c, fi, fj, -1, 0, ti, tj)
    ||| ray_reaches(b, c, fi, fj, 0, 1, ti, tj)
    ||| ray_reaches(b, c, fi, fj, 0, -1, ti, tj)
}

pub open spec fn bishop_move(b: BoardView, c: Color, fi: int, fj: int, ti: int, tj: int) -> bool {
    ||| ray_reaches(b, c, fi, fj, 1, 1, ti, tj)
    ||| ray_reaches(b, c, fi, fj, 1, -1, ti, tj)
    ||| ray_reaches(b, c, fi, fj, -1, 1, ti, tj)
    ||| ray_reaches(b, c, fi, fj, -1, -1, ti, tj)
}

pub open spec fn queen_move(b: BoardView, c: Color, fi: int, fj: int, ti: int, tj: int) -> bool {
    rook_move(b, c, fi, fj, ti, tj) || bishop_move(b, c, fi, fj, ti, tj)
}

pub open spec fn knight_offset(fi: int, fj: int, ti: int, tj: int) -> bool {
    ||| (ti == fi + 1 && tj == fj + 2)
    ||| (ti == fi + 2 && tj == fj + 1)
    ||| (ti == fi - 1 && tj == fj + 2)
    ||| (ti == fi - 2 && tj == fj + 1)
    ||| (ti == fi + 1 && tj == fj - 2)
    ||| (ti == fi + 2 && tj == fj - 1)
    ||| (ti == fi - 1 && tj == fj - 2)
    ||| (ti == fi - 2 && tj == fj - 1)
}

pub open spec fn knight_move(b: BoardView, c: Color, fi: int, fj: int, ti: int, tj: int) -> bool {
    knight_offset(fi, fj, ti, tj) && on_board(ti, tj) && capturable(b, c, ti, tj)
}

pub open spec fn king_move(b: BoardView, c: Color, fi: int, fj: int, ti: int, tj: int) -> bool {
    &&& fi - 1 <= ti <= fi + 1
    &&& fj - 1 <= tj <= fj + 1
    &&& !(ti == fi && tj == fj)
    &&& on_board(ti, tj)
    &&& capturable(b, c, ti, tj)
}

/// Pawns advance toward increasing ranks for White and decreasing ranks for
/// Black: one step onto an empty square, a double step from the starting rank
/// through an empty square, or a diagonal capture of an opposing piece.
pub open spec fn pawn_move(b: BoardView, c: Color, fi: int, fj: int, ti: int, tj: int) -> bool {
    match c {
        Color::White => {
            ||| (ti == fi && tj == fj + 1 && on_board(ti, tj) && at(b, ti, tj) is None)
            ||| (ti == fi && fj == 1 && tj == 3 && on_board(ti, tj) && at(b, fi, 2) is None
                && at(b, fi, 3) is None)
            ||| ((ti == fi + 1 || ti == fi - 1) && tj == fj + 1 && on_board(ti, tj)
                && enemy_at(b, c, ti, tj))
        },
        Color::Black => {
            ||| (ti == fi && tj == fj - 1 && on_board(ti, tj) && at(b, ti, tj) is None)
            ||| (ti == fi && fj == 6 && tj == 4 && on_board(ti, tj) && at(b, fi, 5) is None
                && at(b, fi, 4) is None)
            ||| ((ti == fi + 1 || ti == fi - 1) && tj == fj - 1 && on_board(ti, tj)
                && enemy_at(b, c, ti, tj))
        },
    }
}

/// The pseudo-legal movement rule of piece p standing at (fi, fj): geometry
/// and occupancy only, ignoring whether the mover's own king stays safe.
pub open spec fn piece_moves(b: BoardView, p: Piece, fi: int, fj: int, ti: int, tj: int) -> bool {
    match p.piece_type {
        PieceType::Rook => rook_move(b, p.color, fi, fj, ti, tj),
        PieceType::Bishop => bishop_move(b, p.color, fi, fj, ti, tj),
        PieceType::Queen => queen_move(b, p.color, fi, fj, ti, tj),
        PieceType::Knight => knight_move(b, p.color, fi, fj, ti, tj),
        PieceType::King => king_move(b, p.color, fi, fj, ti, tj),
        PieceType::Pawn => pawn_move(b, p.color, fi, fj, ti, tj),
    }
}

/// The position after moving the occupant of (fi, fj) to (ti, tj): the origin
/// is cleared and the destination overwritten (a capture removes its occupant).
pub open spec fn apply_move(b: BoardView, fi: int, fj: int, ti: int, tj: int) -> BoardView {
    let p = at(b, fi, fj);
    let b1 = b.update(fi, b[fi].update(fj, None));
    b1.update(ti, b1[ti].update(tj, p))
}

pub open spec fn is_king_of(b: BoardView, c: Color, i: int, j: int) -> bool {
    on_board(i, j) && at(b, i, j) == Some(Piece { color: c, piece_type: PieceType::King })
}

pub open spec fn has_king(b: BoardView, c: Color) -> bool {
    exists|i: int, j: int| is_king_of(b, c, i, j)
}

pub open spec fn king_unique(b: BoardView, c: Color) -> bool {
    forall|i1: int, j1: int, i2: int, j2: int|
        is_king_of(b, c, i1, j1) && is_king_of(b, c, i2, j2) ==> i1 == i2 && j1 == j2
}

/// Exactly one king of each color stands on the board.
pub open spec fn kings_ok(b: BoardView) -> bool {
    &&& has_king(b, Color::White)
    &&& king_unique(b, Color::White)
    &&& has_king(b, Color::Black)
    &&& king_unique(b, Color::Black)
}

/// The square holding color c's king.
pub open spec fn king_sq(b: BoardView, c: Color) -> (int, int) {
    choose|i: int, j: int| is_king_of(b, c, i, j)
}

/// Some piece of the attacker stands at (i, j) and pseudo-legally reaches
/// (ti, tj).
pub open spec fn attacks_from(
    b: BoardView,
    attacker: Color,
    i: int,
    j: int,
    ti: int,
    tj: int,
) -> bool {
    &&& on_board(i, j)
    &&& match at(b, i, j) {
        Some(p) => p.color == attacker && piece_moves(b, p, i, j, ti, tj),
        None => false,
    }
}

pub open spec fn square_attacked(b: BoardView, attacker: Color, ti: int, tj: int) -> bool {
    exists|i: int, j: int| #[trigger] attacks_from(b, attacker, i, j, ti, tj)
}

/// Color c's king is attacked: some opposing piece pseudo-legally reaches the
/// king's square.
pub open spec fn king_attacked(b: BoardView, c: Color) -> bool {
    square_attacked(b, c.opposite(), king_sq(b, c).0, king_sq(b, c).1)
}

/// A legal move of color c: the origin holds c's piece, the movement rule of
/// that piece admits the destination, and the mover's own king is not attacked
/// immediately after the move.
pub open spec fn legal_move(b: BoardView, c: Color, fi: int, fj: int, ti: int, tj: int) -> bool {
    &&& on_board(fi, fj)
    &&& on_board(ti, tj)
    &&& match at(b, fi, fj) {
        Some(p) => p.color == c && piece_moves(b, p, fi, fj, ti, tj),
        None => false,
    }
    &&& !king_attacked(apply_move(b, fi, fj, ti, tj), c)
}

/// A destination the game offers for the piece standing on (fi, fj), whatever
/// its color; an empty origin offers none.
pub open spec fn available_move(b: BoardView, fi: int, fj: int, ti: int, tj: int) -> bool {
    match at(b, fi, fj) {
        Some(p) => legal_move(b, p.color, fi, fj, ti, tj),
        None => false,
    }
}

pub open spec fn no_legal_moves(b: BoardView, c: Color) -> bool {
    forall|fi: int, fj: int, ti: int, tj: int| !(#[trigger] legal_move(b, c, fi, fj, ti, tj))
}

/// The back rank of the starting position, file by file.
pub open spec fn back_rank(i: int) -> PieceType {
    if i == 0 || i == 7 {
        PieceType::Rook
    } else if i == 1 || i == 6 {
        PieceType::Knight
    } else if i == 2 || i == 5 {
        PieceType::Bishop
    } else if i == 3 {
        PieceType::Queen
    } else {
        PieceType::King
    }
}

/// The occupant of square (i, j) in the standard starting position.
pub open spec fn init_piece(i: int, j: int) -> Option<Piece> {
    if j == 0 {
        Some(Piece { color: Color::White, piece_type: back_rank(i) })
    } else if j == 1 {
        Some(Piece { color: Color::White, piece_type: PieceType::Pawn })
    } else if j == 6 {
        Some(Piece { color: Color::Black, piece_type: PieceType::Pawn })
    } else if j == 7 {
        Some(Piece { color: Color::Black, piece_type: back_rank(i) })
    } else {
        None
    }
}

/// The standard starting position.
pub open spec fn init_board() -> BoardView {
    Seq::new(8, |i: int| Seq::new(8, |j: int| init_piece(i, j)))
}

/// A position a game can stand in: well formed, one king of each color, and
/// the player who is not to move is not in check (their move just ended).
pub open spec fn position_ok(b: BoardView, to_move: Color) -> bool {
    &&& board_wf(b)
    &&& kings_ok(b)
    &&& !king_attacked(b, to_move.opposite())
}

/// The k-th square of a ray lies k steps along each axis from its origin.
pub broadcast proof fn lemma_ray_pt_linear(fi: int, fj: int, dx: int, dy: int, k: int)
    requires
        k >= 0,
    ensures
        (#[trigger] ray_pt(fi, fj, dx, dy, k)) == (fi + k * dx, fj + k * dy),
    decreases k,
{
    if k > 0 {
        lemma_ray_pt_linear(fi, fj, dx, dy, k - 1);
        assert(k * dx == (k - 1) * dx + dx) by (nonlinear_arith);
        assert(k * dy == (k - 1) * dy + dy) by (nonlinear_arith);
    } else {
        assert(k * dx == 0) by (nonlinear_arith)
            requires
                k == 0,
        ;
        assert(k * dy == 0) by (nonlinear_arith)
            requires
                k == 0,
        ;
    }
}

/// What a single ray guarantees of its target: on the board, distinct from the
/// origin, and empty or opposing.
pub proof fn lemma_ray_props(
    b: BoardView,
    c: Color,
    fi: int,
    fj: int,
    dx: int,
    dy: int,
    ti: int,
    tj: int,
)
    requires
        ray_reaches(b, c, fi, fj, dx, dy, ti, tj),
        !(dx == 0 && dy == 0),
    ensures
        !(ti == fi && tj == fj),
        on_board(ti, tj),
        capturable(b, c, ti, tj),
{
    broadcast use lemma_ray_pt_linear;

    let k = choose|k: int| ray_hit(b, c, fi, fj, dx, dy, ti, tj, k);
    assert(ray_hit(b, c, fi, fj, dx, dy, ti, tj, k));
    assert(on_board_pt(ray_pt(fi, fj, dx, dy, k)));
    assert(ti == fi + k * dx && tj == fj + k * dy);
    if dx != 0 {
        assert(k * dx != 0) by (nonlinear_arith)
            requires
                1 <= k,
                dx != 0,
        ;
    } else {
        assert(k * dy != 0) by (nonlinear_arith)
            requires
                1 <= k,
                dy != 0,
        ;
    }
}

/// What every pseudo-legal move guarantees: the destination is on the board,
/// distinct from the origin, and empty or held by the opponent.
pub proof fn lemma_moves_props(b: BoardView, p: Piece, fi: int, fj: int, ti: int, tj: int)
    requires
        piece_moves(b, p, fi, fj, ti, tj),
    ensures
        !(ti == fi && tj == fj),
        on_board(ti, tj),
        capturable(b, p.color, ti, tj),
{
    let c = p.color;
    match p.piece_type {
        PieceType::Rook | PieceType::Bishop | PieceType::Queen => {
            if ray_reaches(b, c, fi, fj, 1, 0, ti, tj) {
                lemma_ray_props(b, c, fi, fj, 1, 0, ti, tj);
            } else if ray_reaches(b, c, fi, fj, -1, 0, ti, tj) {
                lemma_ray_props(b, c, fi, fj, -1, 0, ti, tj);
            } else if ray_reaches(b, c, fi, fj, 0, 1, ti, tj) {
                lemma_ray_props(b, c, fi, fj, 0, 1, ti, tj);
            } else if ray_reaches(b, c, fi, fj, 0, -1, ti, tj) {
                lemma_ray_props(b, c, fi, fj, 0, -1, ti, tj);
            } else if ray_reaches(b, c, fi, fj, 1, 1, ti, tj) {
                lemma_ray_props(b, c, fi, fj, 1, 1, ti, tj);
            } else if ray_reaches(b, c, fi, fj, 1, -1, ti, tj) {
                lemma_ray_props(b, c, fi, fj, 1, -1, ti, tj);
            } else if ray_reaches(b, c, fi, fj, -1, 1, ti, tj) {
                lemma_ray_props(b, c, fi, fj, -1, 1, ti, tj);
            } else {
                lemma_ray_props(b, c, fi, fj, -1, -1, ti, tj);
            }
        },
        PieceType::Knight => {},
        PieceType::King => {},
        PieceType::Pawn => {},
    }
}

/// How squares read after a move: the destination holds the moved piece, the
/// origin is cleared, and every other square is untouched.
pub proof fn lemma_apply_at(b: BoardView, fi: int, fj: int, ti: int, tj: int)
    requires
        board_wf(b),
        on_board(fi, fj),
        on_board(ti, tj),
    ensures
        board_wf(apply_move(b, fi, fj, ti, tj)),
        at(apply_move(b, fi, fj, ti, tj), ti, tj) == at(b, fi, fj),
        !(fi == ti && fj == tj) ==> at(apply_move(b, fi, fj, ti, tj), fi, fj) is None,
        forall|i: int, j: int|
            on_board(i, j) && !(i == fi && j == fj) && !(i == ti && j == tj)
                ==> #[trigger] at(apply_move(b, fi, fj, ti, tj), i, j) == at(b, i, j),
{
}

/// A pseudo-legal move of color c never removes c's own king: it either moves
/// it or leaves it where it stood, and it never lands on it.
pub proof fn lemma_move_keeps_own_king(b: BoardView, c: Color, fi: int, fj: int, ti: int, tj: int)
    requires
        board_wf(b),
        has_king(b, c),
        king_unique(b, c),
        on_board(fi, fj),
        at(b, fi, fj) matches Some(p) && p.color == c && piece_moves(b, p, fi, fj, ti, tj),
    ensures
        has_king(apply_move(b, fi, fj, ti, tj), c),
        king_unique(apply_move(b, fi, fj, ti, tj), c),
{
    let p = piece_on(b, fi, fj);
    let b2 = apply_move(b, fi, fj, ti, tj);
    lemma_moves_props(b, p, fi, fj, ti, tj);
    lemma_apply_at(b, fi, fj, ti, tj);
    let k = king_sq(b, c);
    assert(is_king_of(b, c, k.0, k.1));
    if fi == k.0 && fj == k.1 {
        // the king itself moves to (ti, tj)
        assert(is_king_of(b2, c, ti, tj));
        assert forall|i: int, j: int| is_king_of(b2, c, i, j) implies i == ti && j == tj by {
            if !(i == ti && j == tj) {
                if i == fi && j == fj {
                    assert(at(b2, i, j) is None);
                } else {
                    assert(at(b2, i, j) == at(b, i, j));
                    assert(is_king_of(b, c, i, j));
                }
            }
        }
    } else {
        // the king stays put; the destination cannot hold it
        assert(!(ti == k.0 && tj == k.1));
        assert(at(b2, k.0, k.1) == at(b, k.0, k.1));
        assert(is_king_of(b2, c, k.0, k.1));
        assert forall|i: int, j: int| is_king_of(b2, c, i, j) implies i == k.0 && j == k.1 by {
            if !(i == k.0 && j == k.1) {
                if i == ti && j == tj {
                    // the moved piece is not c's king, else it stood on k
                    assert(at(b2, i, j) == Some(p));
                    if p.piece_type == PieceType::King {
                        assert(is_king_of(b, c, fi, fj));
                    }
                } else if i == fi && j == fj {
                    assert(at(b2, i, j) is None);
                } else {
                    assert(at(b2, i, j) == at(b, i, j));
                    assert(is_king_of(b, c, i, j));
                }
            }
        }
    }
}

/// A legal move, played from a position a game can reach, leads again to such
/// a position: both kings survive and the mover's king is left safe.
pub proof fn lemma_legal_keeps_position(
    b: BoardView,
    c: Color,
    fi: int,
    fj: int,
    ti: int,
    tj: int,
)
    requires
        position_ok(b, c),
        legal_move(b, c, fi, fj, ti, tj),
    ensures
        position_ok(apply_move(b, fi, fj, ti, tj), c.opposite()),
{
    let p = piece_on(b, fi, fj);
    let b2 = apply_move(b, fi, fj, ti, tj);
    lemma_moves_props(b, p, fi, fj, ti, tj);
    lemma_apply_at(b, fi, fj, ti, tj);
    lemma_move_keeps_own_king(b, c, fi, fj, ti, tj);
    crate::piece::lemma_opposite_involutive(c);
    let e = c.opposite();
    let k = king_sq(b, e);
    assert(is_king_of(b, e, k.0, k.1));
    // the destination cannot hold the opposing king: that king is not attacked
    if ti == k.0 && tj == k.1 {
        assert(attacks_from(b, c, fi, fj, ti, tj));
        assert(square_attacked(b, c, k.0, k.1));
        assert(king_attacked(b, e));
        assert(false);
    }
    // nor the origin, which holds c's piece
    assert(!(fi == k.0 && fj == k.1));
    assert(at(b2, k.0, k.1) == at(b, k.0, k.1));
    assert(is_king_of(b2, e, k.0, k.1));
    assert forall|i: int, j: int| is_king_of(b2, e, i, j) implies i == k.0 && j == k.1 by {
        if !(i == k.0 && j == k.1) {
            if i == ti && j == tj {
                assert(at(b2, i, j) == Some(p));
            } else if i == fi && j == fj {
                assert(at(b2, i, j) is None);
            } else {
                assert(at(b2, i, j) == at(b, i, j));
                assert(is_king_of(b, e, i, j));
            }
        }
    }
}

/// Law: a destination whose application would leave the mover's own king
/// attacked is never a legal move, so it is absent from every set of
/// available moves.
pub proof fn lemma_self_check_excluded(
    b: BoardView,
    c: Color,
    fi: int,
    fj: int,
    ti: int,
    tj: int,
)
    requires
        king_attacked(apply_move(b, fi, fj, ti, tj), c),
    ensures
        !legal_move(b, c, fi, fj, ti, tj),
{
}

/// Law: a destination offered for the piece on (fi, fj) never leaves that
/// piece's own king attacked after the move.
pub proof fn lemma_available_moves_safe(b: BoardView, fi: int, fj: int, ti: int, tj: int)
    requires
        available_move(b, fi, fj, ti, tj),
    ensures
        !king_attacked(apply_move(b, fi, fj, ti, tj), piece_on(b, fi, fj).color),
{
}

/// The starting position is one a game can stand in with White to move: well
/// formed, one king per color, and Black (who has not moved) not in check.
#[verifier::rlimit(60)]
pub proof fn lemma_init_position_ok()
    ensures
        position_ok(init_board(), Color::White),
{
    let b = init_board();
    assert(board_wf(b));
    assert(is_king_of(b, Color::White, 4, 0));
    assert(is_king_of(b, Color::Black, 4, 7));
    assert forall|i: int, j: int| is_king_of(b, Color::White, i, j) implies i == 4 && j == 0 by {
        assert(at(b, i, j) == init_piece(i, j));
    }
    assert forall|i: int, j: int| is_king_of(b, Color::Black, i, j) implies i == 4 && j == 7 by {
        assert(at(b, i, j) == init_piece(i, j));
    }
    let k = king_sq(b, Color::Black);
    assert(is_king_of(b, Color::Black, k.0, k.1));
    assert(k == (4int, 7int));
    assert forall|i: int, j: int| !(#[trigger] attacks_from(b, Color::White, i, j, 4, 7)) by {
        broadcast use lemma_ray_pt_linear;

        if attacks_from(b, Color::White, i, j, 4, 7) {
            assert(at(b, i, j) == init_piece(i, j));
            assert(j == 0 || j == 1);
            assert(false);
        }
    }
    assert(!square_attacked(b, Color::White, 4, 7));
}

} // verus!
