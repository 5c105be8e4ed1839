use chess_engine::game::{CastlingSide, GameState, MoveRecord};
use chess_engine::pgn::{
    fuzzy_match, generate_save_filename, parse_algebraic_move, parse_player_names,
    piece_type_name, sanitize_filename, save_filename_for, find_piece_for_move, NotationError,
};
use chess_engine::pieces::{Color, Piece, PieceType};
use chess_engine::position::Position;

fn pos(n: &str) -> Position {
    Position::from_notation(n).unwrap()
}

#[test]
fn test_fuzzy_match() {
    assert!(fuzzy_match("pgn/Alice-Bob-2024.pgn", ""));
    // case folding must actually happen for these to match
    assert!(fuzzy_match("pgn/ALICE-BOB.PGN", "alice"));
    assert!(fuzzy_match("pgn/alice-bob.pgn", "BOB"));
    assert!(!fuzzy_match("pgn/alice-bob.pgn", "carol"));
}

#[test]
fn test_sanitize_filename() {
    assert_eq!(sanitize_filename("Alice Bob"), "Alice_Bob");
    assert_eq!(sanitize_filename("a-b_c"), "a-b_c");
    assert_eq!(sanitize_filename("x/y:z"), "x_y_z");
}

#[test]
fn test_save_filename_for() {
    let name = save_filename_for("Alice", "Bob", "stamp");
    assert_eq!(name, "pgn/Alice-Bob-stamp.pgn");
}

#[test]
fn test_generate_save_filename_changes_with_names() {
    let filename1 = generate_save_filename("Alice", "Bob");
    let filename2 = generate_save_filename("Charlie", "Dave");

    assert!(filename1.contains("Alice-Bob"), "Filename should contain player names");
    assert!(filename2.contains("Charlie-Dave"), "Filename should contain player names");
    assert_ne!(filename1, filename2, "Different names should produce different filenames");
}

#[test]
fn test_piece_type_name() {
    assert_eq!(piece_type_name(PieceType::King), "king");
    assert_eq!(piece_type_name(PieceType::Knight), "knight");
    assert_eq!(piece_type_name(PieceType::Pawn), "pawn");
}

#[test]
fn test_parse_player_names() {
    let content = "[Event \"Test\"]\n[White \"Alice\"]\n[Black \"Bob\"]\n\n1. e4 e5 *\n";
    let (white, black) = parse_player_names(content);
    assert_eq!(white, "Alice");
    assert_eq!(black, "Bob");

    let (white, black) = parse_player_names("1. e4 *\n");
    assert_eq!(white, "White");
    assert_eq!(black, "Black");
}

#[test]
fn test_to_algebraic() {
    let quiet = MoveRecord {
        piece: PieceType::Pawn,
        color: Color::White,
        from: pos("e2"),
        to: pos("e4"),
        captured: None,
        is_check: false,
        is_checkmate: false,
        castling: None,
        promotion: None,
    };
    assert_eq!(quiet.to_algebraic(false), "e4");

    let knight = MoveRecord { piece: PieceType::Knight, from: pos("g1"), to: pos("f3"), ..quiet };
    assert_eq!(knight.to_algebraic(false), "Nf3");

    let capture = MoveRecord {
        from: pos("e4"),
        to: pos("d5"),
        captured: Some(Piece::new(PieceType::Pawn, Color::Black)),
        ..quiet
    };
    assert_eq!(capture.to_algebraic(false), "exd5");

    let castle = MoveRecord {
        piece: PieceType::King,
        from: pos("e1"),
        to: pos("g1"),
        castling: Some(CastlingSide::Kingside),
        ..quiet
    };
    assert_eq!(castle.to_algebraic(false), "O-O");

    let promo_mate = MoveRecord {
        from: pos("a7"),
        to: pos("a8"),
        promotion: Some(PieceType::Queen),
        is_check: true,
        is_checkmate: true,
        ..quiet
    };
    assert_eq!(promo_mate.to_algebraic(false), "a8=Q#");
}

#[test]
fn test_parse_algebraic_move() {
    let game = GameState::new();
    assert_eq!(parse_algebraic_move(&game, "e4").unwrap(), (pos("e2"), pos("e4"), None));
    assert_eq!(parse_algebraic_move(&game, "Nf3").unwrap(), (pos("g1"), pos("f3"), None));
    assert_eq!(
        parse_algebraic_move(&game, "zz").unwrap_err(),
        NotationError::BadDestination
    );
    assert_eq!(
        parse_algebraic_move(&game, "Qe5").unwrap_err(),
        NotationError::NoPieceCan
    );
    assert_eq!(
        parse_algebraic_move(&game, "e4=X").unwrap_err(),
        NotationError::BadPromotion
    );
    assert_eq!(
        parse_algebraic_move(&game, "K").unwrap_err(),
        NotationError::BadNotation
    );

    let castled =
        GameState::from_fen("r3k2r/pppppppp/8/8/8/8/PPPPPPPP/R3K2R w KQkq - 0 1").unwrap();
    assert_eq!(
        parse_algebraic_move(&castled, "O-O").unwrap(),
        (pos("e1"), pos("g1"), None)
    );
    assert_eq!(
        parse_algebraic_move(&castled, "O-O-O").unwrap(),
        (pos("e1"), pos("c1"), None)
    );
}

#[test]
fn test_parse_algebraic_disambiguation() {
    // both rooks on the first rank can reach b1
    let game = GameState::from_fen("4k3/8/8/8/8/8/4K3/R6R w - - 0 1").unwrap();
    assert_eq!(
        parse_algebraic_move(&game, "Rb1").unwrap_err(),
        NotationError::Ambiguous
    );
    assert_eq!(
        parse_algebraic_move(&game, "Rab1").unwrap(),
        (pos("a1"), pos("b1"), None)
    );
    assert_eq!(
        find_piece_for_move(&game, PieceType::Rook, pos("b1"), "h").unwrap(),
        pos("h1")
    );
}

#[test]
fn test_replay_simple_line() {
    // the engine accepts the parsed tokens of a short opening
    let mut game = GameState::new();
    for token in ["e4", "e5", "Nf3", "Nc6", "Bc4", "Bc5", "O-O"] {
        let (from, to, promotion) = parse_algebraic_move(&game, token).unwrap();
        game.make_move(from, to, promotion).unwrap();
    }
    assert_eq!(game.move_history.len(), 7);
    assert_eq!(game.board.get_piece(pos("g1")).unwrap().piece_type, PieceType::King);
}
