use engine::board::Board;
use engine::game::Game;
use engine::piece::{Color, Piece, PieceType};

fn white(kind: PieceType) -> Option<Piece> {
    Some(Piece { color: Color::White, piece_type: kind })
}

fn black(kind: PieceType) -> Option<Piece> {
    Some(Piece { color: Color::Black, piece_type: kind })
}

fn snapshot(game: &Game) -> Vec<Option<Piece>> {
    let mut v = Vec::new();
    for i in 0..8 {
        for j in 0..8 {
            v.push(game.board.piece_at(i, j));
        }
    }
    v
}

#[test]
fn test_initial_mirror_symmetry() {
    let game = Game::new();
    for i in 0..8 {
        for j in 0..8 {
            let white_moves = game.get_available_moves((i, j));
            let mirror_moves = game.get_available_moves((i, 7 - j));
            assert_eq!(white_moves.len(), mirror_moves.len(), "square ({}, {})", i, j);
            for t in &white_moves {
                assert!(
                    mirror_moves.contains(&(t.0, 7 - t.1)),
                    "({}, {}) -> ({}, {}) has no mirror",
                    i,
                    j,
                    t.0,
                    t.1
                );
            }
        }
    }
}

#[test]
fn test_initial_queen_mirror() {
    let game = Game::new();
    let white_queen = game.get_available_moves((3, 0));
    let black_queen = game.get_available_moves((3, 7));
    assert_eq!(white_queen.len(), black_queen.len());
    for t in &white_queen {
        assert!(black_queen.contains(&(t.0, 7 - t.1)));
    }
}

#[test]
fn test_pinned_rook_cannot_leave_file() {
    let mut board = Board::new();
    board.place_piece(4, 0, white(PieceType::King));
    board.place_piece(4, 3, white(PieceType::Rook));
    board.place_piece(4, 7, black(PieceType::Rook));
    board.place_piece(0, 7, black(PieceType::King));
    let game = Game { board, curr_player: Color::White };
    let moves = game.get_available_moves((4, 3));
    assert!(moves.contains(&(4, 4)));
    assert!(moves.contains(&(4, 7)));
    assert!(moves.contains(&(4, 1)));
    assert!(!moves.contains(&(3, 3)));
    assert!(!moves.contains(&(5, 3)));
    assert!(!moves.contains(&(0, 3)));
    assert!(!moves.contains(&(4, 0)));
}

#[test]
fn test_rejected_move_changes_nothing() {
    let mut game = Game::new();
    let before = snapshot(&game);
    let hist_before = game.board.history.len();
    // a blocked rook slide: illegal from the start position
    game.move_piece((0, 0), (0, 5));
    assert_eq!(snapshot(&game), before);
    assert_eq!(game.board.history.len(), hist_before);
    assert_eq!(game.curr_player, Color::White);
    // an opponent's piece while White is to move
    game.move_piece((0, 6), (0, 5));
    assert_eq!(snapshot(&game), before);
    assert_eq!(game.board.history.len(), hist_before);
    assert_eq!(game.curr_player, Color::White);
    // an empty origin
    game.move_piece((4, 4), (4, 5));
    assert_eq!(snapshot(&game), before);
    assert_eq!(game.board.history.len(), hist_before);
    assert_eq!(game.curr_player, Color::White);
}

#[test]
fn test_turn_alternation() {
    let mut game = Game::new();
    assert_eq!(game.curr_player, Color::White);
    game.move_piece((4, 1), (4, 3));
    assert_eq!(game.curr_player, Color::Black);
    // a rejected attempt leaves the turn alone
    game.move_piece((0, 0), (0, 5));
    assert_eq!(game.curr_player, Color::Black);
    game.move_piece((0, 6), (0, 5));
    assert_eq!(game.curr_player, Color::White);
}

#[test]
fn test_initial_no_verdict() {
    let game = Game::new();
    assert_eq!(game.check_for_win(), (false, false));
}

#[test]
fn test_fools_mate_checkmate() {
    let mut game = Game::new();
    game.move_piece((5, 1), (5, 2)); // f3
    assert_eq!(game.curr_player, Color::Black);
    game.move_piece((4, 6), (4, 4)); // e5
    assert_eq!(game.curr_player, Color::White);
    game.move_piece((6, 1), (6, 3)); // g4
    assert_eq!(game.curr_player, Color::Black);
    game.move_piece((3, 7), (7, 3)); // Qh4, mate
    assert_eq!(game.curr_player, Color::White);
    assert_eq!(game.check_for_win(), (true, false));
    assert!(game.board.is_king_attacked(Color::White));
    for i in 0..8 {
        for j in 0..8 {
            if let Some(p) = game.board.piece_at(i, j) {
                if p.color == Color::White {
                    assert_eq!(game.get_available_moves((i, j)).len(), 0);
                }
            }
        }
    }
}

#[test]
fn test_pawn_double_step_gating() {
    let mut game = Game::new();
    let moves = game.get_available_moves((4, 1));
    assert!(moves.contains(&(4, 2)));
    assert!(moves.contains(&(4, 3)));
    game.move_piece((4, 1), (4, 2)); // one step only
    game.move_piece((0, 6), (0, 5)); // a quiet reply
    let moves = game.get_available_moves((4, 2));
    assert!(moves.contains(&(4, 3)));
    assert!(!moves.contains(&(4, 4)));
}

#[test]
fn test_blocked_slider_friendly() {
    let mut board = Board::new();
    board.place_piece(0, 0, white(PieceType::Rook));
    board.place_piece(0, 2, white(PieceType::Pawn));
    board.place_piece(4, 0, white(PieceType::King));
    board.place_piece(4, 7, black(PieceType::King));
    let game = Game { board, curr_player: Color::White };
    let moves = game.get_available_moves((0, 0));
    assert!(moves.contains(&(0, 1)));
    assert!(!moves.contains(&(0, 2)));
    assert!(!moves.contains(&(0, 3)));
}

#[test]
fn test_blocked_slider_enemy() {
    let mut board = Board::new();
    board.place_piece(0, 0, white(PieceType::Rook));
    board.place_piece(0, 2, black(PieceType::Pawn));
    board.place_piece(4, 0, white(PieceType::King));
    board.place_piece(4, 7, black(PieceType::King));
    let game = Game { board, curr_player: Color::White };
    let moves = game.get_available_moves((0, 0));
    assert!(moves.contains(&(0, 1)));
    assert!(moves.contains(&(0, 2)));
    assert!(!moves.contains(&(0, 3)));
}

#[test]
fn test_stalemate() {
    let mut board = Board::new();
    board.place_piece(0, 7, black(PieceType::King));
    board.place_piece(1, 5, white(PieceType::Queen));
    board.place_piece(7, 0, white(PieceType::King));
    let game = Game { board, curr_player: Color::Black };
    assert!(!game.board.is_king_attacked(Color::Black));
    assert_eq!(game.check_for_win(), (false, true));
}

#[test]
fn test_capture_enters_history() {
    let mut game = Game::new();
    game.move_piece((4, 1), (4, 3)); // e4
    game.move_piece((3, 6), (3, 4)); // d5
    game.move_piece((4, 3), (3, 4)); // exd5
    assert_eq!(game.board.history.len(), 3);
    let last = game.board.history[2];
    assert_eq!(last.from, (4, 3));
    assert_eq!(last.to, (3, 4));
    assert_eq!(last.piece, Piece { color: Color::White, piece_type: PieceType::Pawn });
    assert_eq!(last.captured, Some(Piece { color: Color::Black, piece_type: PieceType::Pawn }));
    assert_eq!(game.board.piece_at(3, 4), white(PieceType::Pawn));
    assert_eq!(game.board.piece_at(4, 3), None);
}

#[test]
fn test_king_attack_detection() {
    let mut board = Board::new();
    board.place_piece(4, 5, white(PieceType::Queen));
    board.place_piece(4, 7, black(PieceType::King));
    board.place_piece(0, 0, white(PieceType::King));
    assert!(board.is_king_attacked(Color::Black));
    assert!(!board.is_king_attacked(Color::White));
}

#[test]
fn test_blocked_pawn_has_no_moves() {
    let mut board = Board::new();
    board.place_piece(4, 1, white(PieceType::Pawn));
    board.place_piece(4, 2, black(PieceType::Rook));
    board.place_piece(0, 0, white(PieceType::King));
    board.place_piece(7, 7, black(PieceType::King));
    let game = Game { board, curr_player: Color::White };
    assert_eq!(game.get_available_moves((4, 1)).len(), 0);
}

#[test]
fn test_pawn_diagonal_capture_only() {
    let mut game = Game::new();
    game.move_piece((4, 1), (4, 3)); // e4
    game.move_piece((3, 6), (3, 4)); // d5
    let moves = game.get_available_moves((4, 3));
    assert!(moves.contains(&(3, 4))); // capture d5
    assert!(moves.contains(&(4, 4))); // advance e5
    assert!(!moves.contains(&(5, 4))); // empty diagonal: no capture
}

#[test]
fn test_empty_square_has_no_moves() {
    let game = Game::new();
    assert_eq!(game.get_available_moves((4, 4)).len(), 0);
}

#[test]
fn test_initial_layout() {
    let game = Game::new();
    assert_eq!(game.board.piece_at(0, 0), white(PieceType::Rook));
    assert_eq!(game.board.piece_at(1, 0), white(PieceType::Knight));
    assert_eq!(game.board.piece_at(2, 0), white(PieceType::Bishop));
    assert_eq!(game.board.piece_at(3, 0), white(PieceType::Queen));
    assert_eq!(game.board.piece_at(4, 0), white(PieceType::King));
    assert_eq!(game.board.piece_at(5, 0), white(PieceType::Bishop));
    assert_eq!(game.board.piece_at(6, 0), white(PieceType::Knight));
    assert_eq!(game.board.piece_at(7, 0), white(PieceType::Rook));
    for i in 0..8 {
        assert_eq!(game.board.piece_at(i, 1), white(PieceType::Pawn));
        assert_eq!(game.board.piece_at(i, 6), black(PieceType::Pawn));
        for j in 2..6 {
            assert_eq!(game.board.piece_at(i, j), None);
        }
        assert_eq!(
            game.board.piece_at(i, 7).map(|p| p.color),
            Some(Color::Black)
        );
    }
    assert_eq!(game.board.piece_at(4, 7), black(PieceType::King));
    assert_eq!(game.board.piece_at(3, 7), black(PieceType::Queen));
    assert_eq!(game.curr_player, Color::White);
    assert_eq!(game.board.history.len(), 0);
}

#[test]
fn test_knight_moves_from_start() {
    let game = Game::new();
    let moves = game.get_available_moves((1, 0));
    assert_eq!(moves.len(), 2);
    assert!(moves.contains(&(0, 2)));
    assert!(moves.contains(&(2, 2)));
}
