use engine::game::format_input;
use engine::piece::PieceType;

#[test]
fn test_format_input_full_token() {
    let (i, j, kind) = format_input(('q', 'd', Some(8)));
    assert_eq!(i, 3);
    assert_eq!(j, 7);
    assert_eq!(kind, PieceType::Queen);
}

#[test]
fn test_format_input_pawn_default() {
    let (i, j, kind) = format_input((' ', 'e', Some(2)));
    assert_eq!(i, 4);
    assert_eq!(j, 1);
    assert_eq!(kind, PieceType::Pawn);
}

#[test]
fn test_format_input_each_piece_letter() {
    assert_eq!(format_input(('r', 'a', Some(1))).2, PieceType::Rook);
    assert_eq!(format_input(('n', 'b', Some(1))).2, PieceType::Knight);
    assert_eq!(format_input(('b', 'c', Some(1))).2, PieceType::Bishop);
    assert_eq!(format_input(('q', 'd', Some(1))).2, PieceType::Queen);
    assert_eq!(format_input(('k', 'e', Some(1))).2, PieceType::King);
    assert_eq!(format_input(('x', 'f', Some(1))).2, PieceType::Pawn);
}

#[test]
fn test_format_input_bad_file_is_off_board() {
    let (i, _, _) = format_input(('q', 'z', Some(4)));
    assert_eq!(i, 100);
}

#[test]
fn test_format_input_each_file_letter() {
    let letters = ['a', 'b', 'c', 'd', 'e', 'f', 'g', 'h'];
    for (want, c) in letters.iter().enumerate() {
        assert_eq!(format_input(('p', *c, Some(3))).0, want);
        assert_eq!(format_input(('p', *c, Some(3))).1, 2);
    }
}
