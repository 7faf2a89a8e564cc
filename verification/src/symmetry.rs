//! Mirror symmetry of the rules: reflecting a position across the rank axis
//! and swapping the colors carries legal moves to legal moves. The starting
//! position is its own mirror, so the two sides' opening moves are mirror
//! images of one another.
use vstd::prelude::*;

use crate::piece::Color;
use crate::piece::Piece;
use crate::piece::PieceType;
use crate::rules::apply_move;
use crate::rules::at;
use crate::rules::attacks_from;
use crate::rules::available_move;
use crate::rules::BoardView;
use crate::rules::board_wf;
use crate::rules::empty_pt;
use crate::rules::has_king;
use crate::rules::init_board;
use crate::rules::init_piece;
use crate::rules::is_king_of;
use crate::rules::king_attacked;
use crate::rules::king_sq;
use crate::rules::king_unique;
use crate::rules::legal_move;
use crate::rules::lemma_apply_at;
use crate::rules::lemma_init_position_ok;
use crate::rules::lemma_move_keeps_own_king;
use crate::rules::lemma_ray_pt_linear;
use crate::rules::on_board;
use crate::rules::on_board_pt;
use crate::rules::piece_moves;
use crate::rules::ray_hit;
use crate::rules::ray_pt;
use crate::rules::ray_reaches;
use crate::rules::square_attacked;

verus! {

/// The same piece in the opposing color.
pub open spec fn flip_piece(p: Piece) -> Piece {
    Piece { color: p.color.opposite(), piece_type: p.piece_type }
}

pub open spec fn flip_square(s: Option<Piece>) -> Option<Piece> {
    match s {
        Some(p) => Some(flip_piece(p)),
        None => None,
    }
}

/// The position reflected across the rank axis, with the colors swapped.
pub open spec fn mirror(b: BoardView) -> BoardView {
    Seq::new(8, |i: int| Seq::new(8, |j: int| flip_square(at(b, i, 7 - j))))
}

/// Reading the mirror: square (x, y) of the mirror holds the flipped occupant
/// of square (x, 7 - y).
pub broadcast proof fn lemma_mirror_at(b: BoardView, x: int, y: int)
    requires
        on_board(x, y),
    ensures
        #[trigger] at(mirror(b), x, y) == flip_square(at(b, x, 7 - y)),
{
}

/// The starting position is its own mirror.
pub proof fn lemma_mirror_init()
    ensures
        mirror(init_board()) == init_board(),
{
    broadcast use lemma_mirror_at;

    assert forall|x: int, y: int| on_board(x, y) implies #[trigger] at(mirror(init_board()), x, y)
        == at(init_board(), x, y) by {
        assert(at(init_board(), x, 7 - y) == init_piece(x, 7 - y));
        assert(at(init_board(), x, y) == init_piece(x, y));
    }
    assert(mirror(init_board()) =~~= init_board());
}

/// A ray of the mirrored position runs like the ray it reflects, with its
/// rank step negated.
pub proof fn lemma_ray_mirror(
    b: BoardView,
    c: Color,
    fi: int,
    fj: int,
    dx: int,
    dy: int,
    ti: int,
    tj: int,
)
    ensures
        ray_reaches(b, c, fi, fj, dx, dy, ti, tj) <==> ray_reaches(
            mirror(b),
            c.opposite(),
            fi,
            7 - fj,
            dx,
            -dy,
            ti,
            7 - tj,
        ),
{
    broadcast use lemma_ray_pt_linear;
    broadcast use lemma_mirror_at;

    let mb = mirror(b);
    let e = c.opposite();
    let mfj = 7 - fj;
    let mdy = -dy;
    let mtj = 7 - tj;
    assert forall|k: int| ray_hit(b, c, fi, fj, dx, dy, ti, tj, k) implies ray_hit(
        mb,
        e,
        fi,
        mfj,
        dx,
        mdy,
        ti,
        mtj,
        k,
    ) by {
        assert forall|m: int| 1 <= m <= k implies on_board_pt(
            #[trigger] ray_pt(fi, mfj, dx, mdy, m),
        ) by {
            assert(m * mdy == -(m * dy)) by (nonlinear_arith)
                requires
                    mdy == -dy,
            ;
            assert(on_board_pt(ray_pt(fi, fj, dx, dy, m)));
        }
        assert forall|m: int| 1 <= m < k implies empty_pt(
            mb,
            #[trigger] ray_pt(fi, mfj, dx, mdy, m),
        ) by {
            assert(m * mdy == -(m * dy)) by (nonlinear_arith)
                requires
                    mdy == -dy,
            ;
            assert(on_board_pt(ray_pt(fi, fj, dx, dy, m)));
            assert(empty_pt(b, ray_pt(fi, fj, dx, dy, m)));
        }
        assert(k * mdy == -(k * dy)) by (nonlinear_arith)
            requires
                mdy == -dy,
        ;
        assert(on_board_pt(ray_pt(fi, fj, dx, dy, k)));
        assert(at(mb, ti, mtj) == flip_square(at(b, ti, tj)));
    }
    assert forall|k: int| ray_hit(mb, e, fi, mfj, dx, mdy, ti, mtj, k) implies ray_hit(
        b,
        c,
        fi,
        fj,
        dx,
        dy,
        ti,
        tj,
        k,
    ) by {
        assert forall|m: int| 1 <= m <= k implies on_board_pt(
            #[trigger] ray_pt(fi, fj, dx, dy, m),
        ) by {
            assert(m * mdy == -(m * dy)) by (nonlinear_arith)
                requires
                    mdy == -dy,
            ;
            assert(on_board_pt(ray_pt(fi, mfj, dx, mdy, m)));
        }
        assert forall|m: int| 1 <= m < k implies empty_pt(b, #[trigger] ray_pt(fi, fj, dx, dy, m))
            by {
            assert(m * mdy == -(m * dy)) by (nonlinear_arith)
                requires
                    mdy == -dy,
            ;
            assert(on_board_pt(ray_pt(fi, mfj, dx, mdy, m)));
            assert(empty_pt(mb, ray_pt(fi, mfj, dx, mdy, m)));
            assert(at(mb, fi + m * dx, mfj + m * mdy) == flip_square(
                at(b, fi + m * dx, fj + m * dy),
            ));
        }
        assert(k * mdy == -(k * dy)) by (nonlinear_arith)
            requires
                mdy == -dy,
        ;
        assert(on_board_pt(ray_pt(fi, mfj, dx, mdy, k)));
        assert(at(mb, ti, mtj) == flip_square(at(b, ti, tj)));
    }
    if ray_reaches(b, c, fi, fj, dx, dy, ti, tj) {
        let k = choose|k: int| ray_hit(b, c, fi, fj, dx, dy, ti, tj, k);
        assert(ray_hit(mb, e, fi, mfj, dx, mdy, ti, mtj, k));
    }
    if ray_reaches(mb, e, fi, mfj, dx, mdy, ti, mtj) {
        let k = choose|k: int| ray_hit(mb, e, fi, mfj, dx, mdy, ti, mtj, k);
        assert(ray_hit(b, c, fi, fj, dx, dy, ti, tj, k));
    }
}

/// A piece's movement rule is carried by the mirror: the flipped piece on the
/// mirrored origin reaches exactly the mirrored destinations.
pub proof fn lemma_piece_moves_mirror(b: BoardView, p: Piece, fi: int, fj: int, ti: int, tj: int)
    ensures
        piece_moves(b, p, fi, fj, ti, tj) <==> piece_moves(
            mirror(b),
            flip_piece(p),
            fi,
            7 - fj,
            ti,
            7 - tj,
        ),
{
    broadcast use lemma_mirror_at;

    let c = p.color;
    let mb = mirror(b);
    match p.piece_type {
        PieceType::Rook | PieceType::Bishop | PieceType::Queen => {
            lemma_ray_mirror(b, c, fi, fj, 1, 0, ti, tj);
            lemma_ray_mirror(b, c, fi, fj, -1, 0, ti, tj);
            lemma_ray_mirror(b, c, fi, fj, 0, 1, ti, tj);
            lemma_ray_mirror(b, c, fi, fj, 0, -1, ti, tj);
            lemma_ray_mirror(b, c, fi, fj, 1, 1, ti, tj);
            lemma_ray_mirror(b, c, fi, fj, 1, -1, ti, tj);
            lemma_ray_mirror(b, c, fi, fj, -1, 1, ti, tj);
            lemma_ray_mirror(b, c, fi, fj, -1, -1, ti, tj);
        },
        PieceType::Knight => {
            if on_board(ti, tj) {
                assert(at(mb, ti, 7 - tj) == flip_square(at(b, ti, tj)));
            }
        },
        PieceType::King => {
            if on_board(ti, tj) {
                assert(at(mb, ti, 7 - tj) == flip_square(at(b, ti, tj)));
            }
        },
        PieceType::Pawn => {
            if on_board(ti, tj) {
                assert(at(mb, ti, 7 - tj) == flip_square(at(b, ti, tj)));
            }
            if on_board(fi, fj) {
                assert(at(mb, fi, 5) == flip_square(at(b, fi, 2)));
                assert(at(mb, fi, 4) == flip_square(at(b, fi, 3)));
                assert(at(mb, fi, 2) == flip_square(at(b, fi, 5)));
                assert(at(mb, fi, 3) == flip_square(at(b, fi, 4)));
            }
        },
    }
}

/// Mirroring and applying a move commute.
pub proof fn lemma_apply_mirror(b: BoardView, fi: int, fj: int, ti: int, tj: int)
    requires
        board_wf(b),
        on_board(fi, fj),
        on_board(ti, tj),
    ensures
        mirror(apply_move(b, fi, fj, ti, tj)) == apply_move(mirror(b), fi, 7 - fj, ti, 7 - tj),
{
    broadcast use lemma_mirror_at;

    let lhs = mirror(apply_move(b, fi, fj, ti, tj));
    let rhs = apply_move(mirror(b), fi, 7 - fj, ti, 7 - tj);
    lemma_apply_at(b, fi, fj, ti, tj);
    assert(board_wf(mirror(b))) by {
        assert forall|i: int| 0 <= i < 8 implies (#[trigger] mirror(b)[i]).len() == 8 by {}
    }
    lemma_apply_at(mirror(b), fi, 7 - fj, ti, 7 - tj);
    assert(at(mirror(b), fi, 7 - fj) == flip_square(at(b, fi, fj)));
    assert forall|x: int, y: int| on_board(x, y) implies #[trigger] at(lhs, x, y) == at(
        rhs,
        x,
        y,
    ) by {
        assert(at(lhs, x, y) == flip_square(at(apply_move(b, fi, fj, ti, tj), x, 7 - y)));
        if x == ti && y == 7 - tj {
            assert(at(apply_move(b, fi, fj, ti, tj), ti, tj) == at(b, fi, fj));
            assert(at(rhs, x, y) == at(mirror(b), fi, 7 - fj));
        } else if x == fi && y == 7 - fj {
            assert(at(rhs, x, y) is None);
        } else {
            assert(at(apply_move(b, fi, fj, ti, tj), x, 7 - y) == at(b, x, 7 - y));
            assert(at(rhs, x, y) == at(mirror(b), x, y));
            assert(at(mirror(b), x, y) == flip_square(at(b, x, 7 - y)));
        }
    }
    assert(lhs =~~= rhs);
}

/// Mirroring carries each color's king to the mirrored square, and attack to
/// attack.
pub proof fn lemma_attack_mirror(b: BoardView, c: Color)
    requires
        has_king(b, c),
        king_unique(b, c),
    ensures
        has_king(mirror(b), c.opposite()),
        king_unique(mirror(b), c.opposite()),
        king_attacked(mirror(b), c.opposite()) <==> king_attacked(b, c),
{
    broadcast use lemma_mirror_at;

    let mb = mirror(b);
    let e = c.opposite();
    let k = king_sq(b, c);
    assert(is_king_of(b, c, k.0, k.1));
    assert forall|i: int, j: int| is_king_of(mb, e, i, j) <==> is_king_of(b, c, i, 7 - j) by {
        if on_board(i, j) {
            assert(at(mb, i, j) == flip_square(at(b, i, 7 - j)));
        }
    }
    assert(is_king_of(mb, e, k.0, 7 - k.1));
    assert(has_king(mb, e));
    assert forall|i1: int, j1: int, i2: int, j2: int|
        is_king_of(mb, e, i1, j1) && is_king_of(mb, e, i2, j2) implies i1 == i2 && j1 == j2 by {
        assert(is_king_of(b, c, i1, 7 - j1));
        assert(is_king_of(b, c, i2, 7 - j2));
    }
    let mk = king_sq(mb, e);
    assert(is_king_of(mb, e, mk.0, mk.1));
    assert(mk == (k.0, 7 - k.1));
    crate::piece::lemma_opposite_involutive(c);
    // each attacker of the king mirrors to an attacker of the mirrored king
    assert forall|i: int, j: int|
        attacks_from(mb, c, i, j, mk.0, mk.1) <==> attacks_from(
            b,
            e,
            i,
            7 - j,
            k.0,
            k.1,
        ) by {
        if on_board(i, j) {
            assert(at(mb, i, j) == flip_square(at(b, i, 7 - j)));
            match at(b, i, 7 - j) {
                Some(p) => {
                    lemma_piece_moves_mirror(b, p, i, 7 - j, k.0, k.1);
                },
                None => {},
            }
        }
    }
    if square_attacked(b, e, k.0, k.1) {
        let (i, j) = choose|i: int, j: int| attacks_from(b, e, i, j, k.0, k.1);
        assert(attacks_from(mb, c, i, 7 - j, mk.0, mk.1));
        assert(square_attacked(mb, c, mk.0, mk.1));
    }
    if square_attacked(mb, c, mk.0, mk.1) {
        let (i, j) = choose|i: int, j: int| attacks_from(mb, c, i, j, mk.0, mk.1);
        assert(attacks_from(b, e, i, 7 - j, k.0, k.1));
        assert(square_attacked(b, e, k.0, k.1));
    }
}

/// Legality is carried by the mirror: a move of color c is legal exactly when
/// the mirrored move of the opposing color is legal on the mirrored position.
pub proof fn lemma_legal_mirror(b: BoardView, c: Color, fi: int, fj: int, ti: int, tj: int)
    requires
        board_wf(b),
        has_king(b, c),
        king_unique(b, c),
    ensures
        legal_move(b, c, fi, fj, ti, tj) <==> legal_move(
            mirror(b),
            c.opposite(),
            fi,
            7 - fj,
            ti,
            7 - tj,
        ),
{
    broadcast use lemma_mirror_at;

    let mb = mirror(b);
    let e = c.opposite();
    crate::piece::lemma_opposite_involutive(c);
    if on_board(fi, fj) && on_board(ti, tj) {
        assert(at(mb, fi, 7 - fj) == flip_square(at(b, fi, fj)));
        match at(b, fi, fj) {
            None => {},
            Some(p) => {
                lemma_piece_moves_mirror(b, p, fi, fj, ti, tj);
                if p.color == c && piece_moves(b, p, fi, fj, ti, tj) {
                    // both pseudo-legal: compare the simulated positions
                    lemma_move_keeps_own_king(b, c, fi, fj, ti, tj);
                    lemma_apply_mirror(b, fi, fj, ti, tj);
                    lemma_attack_mirror(apply_move(b, fi, fj, ti, tj), c);
                }
            },
        }
    }
    // off the board, both sides fail their range conditions together
}

/// Law: in the starting position, the moves available on a square and on its
/// rank-mirrored square are mirror images of one another — each side opens
/// with the reflection of the other's choices.
pub proof fn lemma_initial_symmetry(fi: int, fj: int, ti: int, tj: int)
    requires
        on_board(fi, fj),
        on_board(ti, tj),
    ensures
        available_move(init_board(), fi, fj, ti, tj) <==> available_move(
            init_board(),
            fi,
            7 - fj,
            ti,
            7 - tj,
        ),
{
    broadcast use lemma_mirror_at;

    let b = init_board();
    lemma_init_position_ok();
    lemma_mirror_init();
    assert(at(b, fi, 7 - fj) == at(mirror(b), fi, 7 - fj));
    assert(at(mirror(b), fi, 7 - fj) == flip_square(at(b, fi, fj)));
    match at(b, fi, fj) {
        None => {},
        Some(p) => {
            lemma_legal_mirror(b, p.color, fi, fj, ti, tj);
            crate::piece::lemma_opposite_involutive(p.color);
        },
    }
}

} // verus!
