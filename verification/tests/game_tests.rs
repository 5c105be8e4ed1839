use chess_engine::game::{CastlingSide, GameState};
use chess_engine::moves::get_valid_moves;
use chess_engine::board::Board;
use chess_engine::pieces::{Color, PieceType};
use chess_engine::position::Position;

fn pos(n: &str) -> Position {
    Position::from_notation(n).unwrap()
}

#[test]
fn test_checkmate() {
    let game =
        GameState::from_fen("rnb1kbnr/pppp1ppp/8/4p3/6Pq/5P2/PPPPP2P/RNBQKBNR w KQkq - 1 3")
            .unwrap();

    assert!(game.checkmate);
    assert!(game.board.is_in_check(Color::White));

    let king_pos = game.board.get_king_position(Color::White).unwrap();
    assert!(game.board.get_legal_moves(king_pos).is_empty());
}

#[test]
fn test_king_stalemate() {
    let mut game = GameState::from_fen("8/8/8/8/8/1k6/p7/K7 b - - 0 1").unwrap();

    let black_king_pos = game.board.get_king_position(Color::Black).unwrap();
    game.make_move(black_king_pos, pos("a3"), None).unwrap();

    let white_king_pos = game.board.get_king_position(Color::White).unwrap();
    let king_moves = game.board.get_legal_moves(white_king_pos);
    assert!(king_moves.is_empty(), "King should have no legal moves");

    assert!(!game.has_any_legal_moves(), "White should have no legal moves");
    assert!(!game.board.is_in_check(Color::White), "White king should not be in check");
    assert!(!game.checkmate, "Should not be checkmate");
    assert!(game.stalemate, "Should be stalemate");
}

#[test]
fn test_threefold_repetition() {
    let mut game = GameState::new();

    game.make_move(pos("g1"), pos("f3"), None).unwrap();
    game.make_move(pos("g8"), pos("f6"), None).unwrap();

    game.make_move(pos("f3"), pos("g1"), None).unwrap();
    game.make_move(pos("f6"), pos("g8"), None).unwrap();

    game.make_move(pos("g1"), pos("f3"), None).unwrap();
    game.make_move(pos("g8"), pos("f6"), None).unwrap();

    game.make_move(pos("f3"), pos("g1"), None).unwrap();
    game.make_move(pos("f6"), pos("g8"), None).unwrap();

    assert!(game.is_threefold_repetition(), "Should detect threefold repetition");
    assert!(game.stalemate, "Should be stalemate due to threefold repetition");
    assert!(!game.check, "Should not be in check");
    assert!(!game.checkmate, "Should not be checkmate");
}

#[test]
fn test_turn_switching() {
    let mut game_state = GameState::new();

    assert_eq!(game_state.active_color, Color::White);

    game_state.make_move(pos("e2"), pos("e4"), None).unwrap();
    assert_eq!(game_state.active_color, Color::Black);

    game_state.make_move(pos("e7"), pos("e5"), None).unwrap();
    assert_eq!(game_state.active_color, Color::White);
}

#[test]
fn mod_test_pawn_moves() {
    let board = Board::new();
    let e2 = pos("e2");
    let moves = get_valid_moves(&board, e2);
    assert_eq!(moves.len(), 2);
    assert!(moves.contains(&pos("e3")));
    assert!(moves.contains(&pos("e4")));
}

#[test]
fn test_knight_moves() {
    let board = Board::new();
    let g1 = pos("g1");
    let moves = get_valid_moves(&board, g1);
    assert_eq!(moves.len(), 2);
    assert!(moves.contains(&pos("f3")));
    assert!(moves.contains(&pos("h3")));
}

#[test]
fn test_knight_mobility_e4() {
    // a lone knight in the middle of an otherwise empty board
    let game = GameState::from_fen("4k3/8/8/8/4N3/8/8/4K3 w - - 0 1").unwrap();
    let moves = game.board.get_legal_moves(pos("e4"));
    assert_eq!(moves.len(), 8);
}

#[test]
fn test_fools_mate() {
    let mut game = GameState::new();
    game.make_move(pos("f2"), pos("f3"), None).unwrap();
    game.make_move(pos("e7"), pos("e5"), None).unwrap();
    game.make_move(pos("g2"), pos("g4"), None).unwrap();
    game.make_move(pos("d8"), pos("h4"), None).unwrap();

    assert!(game.check);
    assert!(game.checkmate);
    assert_eq!(game.active_color, Color::White);
}

#[test]
fn test_promotion_choices() {
    for (choice, expected) in [
        (None, PieceType::Queen),
        (Some(PieceType::Rook), PieceType::Rook),
        (Some(PieceType::Bishop), PieceType::Bishop),
        (Some(PieceType::Knight), PieceType::Knight),
    ] {
        let mut game = GameState::from_fen("4k3/P7/8/8/8/8/8/4K3 w - - 0 1").unwrap();
        game.make_move(pos("a7"), pos("a8"), choice).unwrap();
        assert_eq!(game.board.get_piece(pos("a8")).unwrap().piece_type, expected);
    }
}

#[test]
fn test_promotion_gives_check() {
    // promoting on a8 attacks the c8 king along the back rank
    let mut game = GameState::from_fen("2k5/P7/8/8/8/8/8/4K3 w - - 0 1").unwrap();
    game.make_move(pos("a7"), pos("a8"), None).unwrap();
    assert!(game.check);
    let record = game.move_history.last().unwrap();
    assert_eq!(record.promotion, Some(PieceType::Queen));
    assert!(record.is_check);
}

#[test]
fn test_make_move_records_history() {
    let mut game = GameState::new();
    game.make_move(pos("e2"), pos("e4"), None).unwrap();
    game.make_move(pos("d7"), pos("d5"), None).unwrap();
    game.make_move(pos("e4"), pos("d5"), None).unwrap();

    assert_eq!(game.move_history.len(), 3);
    let capture = &game.move_history[2];
    assert_eq!(capture.piece, PieceType::Pawn);
    assert_eq!(capture.color, Color::White);
    assert!(capture.captured.is_some());
    assert_eq!(capture.captured.unwrap().piece_type, PieceType::Pawn);
    assert_eq!(game.captured_by_white.len(), 1);
    assert_eq!(game.captured_by_black.len(), 0);
}

#[test]
fn test_make_move_rejects_and_rolls_back() {
    let mut game = GameState::new();
    let before = game.board.to_fen();
    assert!(game.make_move(pos("e2"), pos("d3"), None).is_err());
    assert_eq!(game.board.to_fen(), before);
    assert_eq!(game.move_history.len(), 0);
    assert_eq!(game.active_color, Color::White);
}

#[test]
fn test_castling_move_record() {
    let mut game =
        GameState::from_fen("r3k2r/pppppppp/8/8/8/8/PPPPPPPP/R3K2R w KQkq - 0 1").unwrap();
    game.make_move(pos("e1"), pos("g1"), None).unwrap();
    let record = game.move_history.last().unwrap();
    assert_eq!(record.castling, Some(CastlingSide::Kingside));
    assert_eq!(
        game.board.get_piece(pos("f1")).unwrap().piece_type,
        PieceType::Rook
    );
}

#[test]
fn test_en_passant_capture_recorded() {
    let mut game =
        GameState::from_fen("rnbqkbnr/ppp1p1pp/8/3pPp2/8/8/PPPP1PPP/RNBQKBNR w KQkq f6 0 3")
            .unwrap();
    game.make_move(pos("e5"), pos("f6"), None).unwrap();
    assert!(game.board.get_piece(pos("f5")).is_none());
    let record = game.move_history.last().unwrap();
    assert!(record.captured.is_some());
    assert_eq!(game.captured_by_white.len(), 1);
}
