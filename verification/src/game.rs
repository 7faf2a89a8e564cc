//! The game: one board and the color to move. A successful move flips the
//! current player; a rejected attempt changes nothing. Every position a game
//! reaches keeps one king of each color on the board, and the player who just
//! moved is never left in check.
use vstd::prelude::*;

use crate::board::Board;
use crate::board::MoveRecord;
use crate::piece::Color;
use crate::piece::PieceType;
use crate::rules::apply_move;
use crate::rules::at;
use crate::rules::available_move;
use crate::rules::init_board;
use crate::rules::king_attacked;
use crate::rules::legal_move;
use crate::rules::lemma_init_position_ok;
use crate::rules::lemma_legal_keeps_position;
use crate::rules::no_legal_moves;
use crate::rules::piece_on;
use crate::rules::position_ok;

verus! {

pub struct Game {
    pub board: Board,
    pub curr_player: Color,
}

impl Game {
    /// The game invariant: a position the rules can reach, with the player
    /// who is not to move out of check.
    pub open spec fn wf(self) -> bool {
        self.board.wf() && position_ok(self.board@, self.curr_player)
    }

    /// A fresh game: the standard starting position, White to move, empty
    /// history.
    pub fn new() -> (g: Game)
        ensures
            g.wf(),
            g.board@ == init_board(),
            g.curr_player == Color::White,
            g.board.history@.len() == 0,
    {
        let mut board = Board::new();
        board.init();
        proof {
            lemma_init_position_ok();
        }
        Game { board, curr_player: Color::White }
    }

    /// The legal destinations of the piece standing on the given square, of
    /// whatever color, or nothing if the square is empty. A pure query.
    pub fn get_available_moves(&self, sq: (usize, usize)) -> (r: Vec<(usize, usize)>)
        requires
            self.wf(),
            sq.0 < 8,
            sq.1 < 8,
        ensures
            forall|t: (usize, usize)|
                t.0 < 8 && t.1 < 8 ==> (#[trigger] r@.contains(t) <==> available_move(
                    self.board@,
                    sq.0 as int,
                    sq.1 as int,
                    t.0 as int,
                    t.1 as int,
                )),
            forall|m: int| 0 <= m < r@.len() ==> (#[trigger] r@[m]).0 < 8 && r@[m].1 < 8,
            forall|m1: int, m2: int| 0 <= m1 < m2 < r@.len() ==> r@[m1] != r@[m2],
            at(self.board@, sq.0 as int, sq.1 as int) is None ==> r@.len() == 0,
    {
        match self.board.piece_at(sq.0, sq.1) {
            Some(piece) => self.board.filter_available_moves(sq, piece),
            None => Vec::new(),
        }
    }

    /// Try to move the current player's piece. On a legal move the board and
    /// history change as the rules say and the turn passes to the opponent;
    /// on anything else the game is left exactly as it was.
    pub fn move_piece(&mut self, from: (usize, usize), to: (usize, usize))
        requires
            old(self).wf(),
            from.0 < 8,
            from.1 < 8,
            to.0 < 8,
            to.1 < 8,
        ensures
            final(self).wf(),
            legal_move(old(self).board@, old(self).curr_player, from.0 as int, from.1 as int,
            to.0 as int, to.1 as int) ==> final(self).board@ == apply_move(old(self).board@,
            from.0 as int, from.1 as int, to.0 as int, to.1 as int) && final(self).curr_player
                == old(self).curr_player.opposite() && final(self).board.history@ == old(
            self,
            ).board.history@.push(
                (MoveRecord {
                    from,
                    to,
                    piece: piece_on(old(self).board@, from.0 as int, from.1 as int),
                    captured: at(old(self).board@, to.0 as int, to.1 as int),
                }),
            ),
            !legal_move(old(self).board@, old(self).curr_player, from.0 as int, from.1 as int,
            to.0 as int, to.1 as int) ==> *final(self) == *old(self),
    {
        let before = self.board.history.len();
        self.board.move_piece(from, to, self.curr_player);
        if before < self.board.history.len() {
            proof {
                lemma_legal_keeps_position(old(self).board@, old(self).curr_player,
                from.0 as int, from.1 as int, to.0 as int, to.1 as int);
                crate::piece::lemma_opposite_involutive(old(self).curr_player);
            }
            self.curr_player = self.curr_player.opposite();
        }
    }

    /// End-of-game test for the player to move: (checkmate, stalemate), never
    /// both at once.
    pub fn check_for_win(&self) -> (r: (bool, bool))
        requires
            self.wf(),
        ensures
            r.0 == (no_legal_moves(self.board@, self.curr_player) && king_attacked(
                self.board@,
                self.curr_player,
            )),
            r.1 == (no_legal_moves(self.board@, self.curr_player) && !king_attacked(
                self.board@,
                self.curr_player,
            )),
            !(r.0 && r.1),
    {
        let (checkmate, stalemate) = self.board.check_for_winner(self.curr_player);
        (checkmate, stalemate)
    }
}

/// The piece kind a leading letter selects; anything unknown is a pawn.
pub open spec fn piece_type_of_char(p: char) -> PieceType {
    if p == 'r' {
        PieceType::Rook
    } else if p == 'n' {
        PieceType::Knight
    } else if p == 'b' {
        PieceType::Bishop
    } else if p == 'q' {
        PieceType::Queen
    } else if p == 'k' {
        PieceType::King
    } else {
        PieceType::Pawn
    }
}

/// The file index a column letter selects; anything unknown maps far off the
/// board, for the caller to reject.
pub open spec fn file_index_of_char(c: char) -> int {
    if c == 'a' {
        0
    } else if c == 'b' {
        1
    } else if c == 'c' {
        2
    } else if c == 'd' {
        3
    } else if c == 'e' {
        4
    } else if c == 'f' {
        5
    } else if c == 'g' {
        6
    } else if c == 'h' {
        7
    } else {
        100
    }
}

/// Decode one parsed input token (piece letter, column letter, rank digit)
/// into a file index, a rank index and a piece kind. The rank must be present
/// and at least one.
pub fn format_input(input: (char, char, Option<u32>)) -> (r: (usize, usize, PieceType))
    requires
        input.2 matches Some(d) && d >= 1,
    ensures
        r.0 == file_index_of_char(input.1),
        input.2 matches Some(d) && r.1 == d - 1,
        r.2 == piece_type_of_char(input.0),
{
    let (p, c, rk) = input;

    let piece_type = match p {
        'r' => PieceType::Rook,
        'n' => PieceType::Knight,
        'b' => PieceType::Bishop,
        'q' => PieceType::Queen,
        'k' => PieceType::King,
        _ => PieceType::Pawn,
    };

    let i: usize = match c {
        'a' => 0,
        'b' => 1,
        'c' => 2,
        'd' => 3,
        'e' => 4,
        'f' => 5,
        'g' => 6,
        'h' => 7,
        _ => 100,
    };

    let j: usize = match rk {
        Some(d) => (d as usize) - 1,
        None => 0,
    };

    (i, j, piece_type)
}

} // verus!
