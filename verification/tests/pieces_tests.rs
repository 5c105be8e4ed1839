use chess_engine::pieces::{Color, Piece, PieceType};

#[test]
fn test_piece_creation() {
    let white_pawn = Piece::new(PieceType::Pawn, Color::White);
    assert_eq!(white_pawn.piece_type, PieceType::Pawn);
    assert_eq!(white_pawn.color, Color::White);
    assert!(!white_pawn.has_moved);
    assert_eq!(white_pawn.moves_made, 0);
}

#[test]
fn test_from_fen() {
    let white_king = Piece::from_fen('K').unwrap();
    assert_eq!(white_king.piece_type, PieceType::King);
    assert_eq!(white_king.color, Color::White);

    let black_queen = Piece::from_fen('q').unwrap();
    assert_eq!(black_queen.piece_type, PieceType::Queen);
    assert_eq!(black_queen.color, Color::Black);

    assert!(Piece::from_fen('x').is_none());
}

#[test]
fn test_unicode_display() {
    let white_rook = Piece::new(PieceType::Rook, Color::White);
    assert_eq!(white_rook.to_unicode(), "\u{265C}");

    let black_knight = Piece::new(PieceType::Knight, Color::Black);
    assert_eq!(black_knight.to_unicode(), "\u{2658}");
}

#[test]
fn test_piece_char_round_trip() {
    let pieces = [
        Piece::new(PieceType::Pawn, Color::White),
        Piece::new(PieceType::Rook, Color::Black),
        Piece::new(PieceType::Knight, Color::White),
        Piece::new(PieceType::Queen, Color::Black),
    ];
    for p in pieces.iter() {
        let back = Piece::from_fen(p.to_char()).unwrap();
        assert_eq!(back.piece_type, p.piece_type);
        assert_eq!(back.color, p.color);
    }
    assert_eq!(Color::White.opposite(), Color::Black);
    assert_eq!(Color::Black.opposite(), Color::White);
}
