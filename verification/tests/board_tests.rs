use chess_engine::apply::MoveError;
use chess_engine::board::Board;
use chess_engine::fen::FenError;
use chess_engine::pieces::{Color, Piece, PieceType};
use chess_engine::position::Position;

const STARTING_FEN: &str = "rnbqkbnr/pppppppp/8/8/8/8/PPPPPPPP/RNBQKBNR w KQkq - 0 1";

#[test]
fn test_initial_board_setup() {
    let board = Board::from_fen(STARTING_FEN).unwrap();

    assert_eq!(
        board.get_piece(Position::from_notation("a1").unwrap()).unwrap().piece_type,
        PieceType::Rook
    );
    assert_eq!(
        board.get_piece(Position::from_notation("e1").unwrap()).unwrap().piece_type,
        PieceType::King
    );
    assert_eq!(
        board.get_piece(Position::from_notation("e8").unwrap()).unwrap().piece_type,
        PieceType::King
    );
    assert_eq!(
        board.get_piece(Position::from_notation("a2").unwrap()).unwrap().piece_type,
        PieceType::Pawn
    );
    assert_eq!(
        board.get_piece(Position::from_notation("b1").unwrap()).unwrap().piece_type,
        PieceType::Knight
    );

    for rank in 2..6 {
        for file in 0..8 {
            let pos = Position::new(file, rank).unwrap();
            assert!(board.get_piece(pos).is_none());
        }
    }
}

#[test]
fn tests_test_pawn_moves() {
    let board = Board::from_fen(STARTING_FEN).unwrap();
    let e2 = Position::from_notation("e2").unwrap();
    let e4 = Position::from_notation("e4").unwrap();
    let e3 = Position::from_notation("e3").unwrap();

    let moves = board.get_legal_moves(e2);
    assert_eq!(moves.len(), 2);
    assert!(moves.contains(&e3));
    assert!(moves.contains(&e4));

    let board =
        Board::from_fen("rnbqkbnr/ppp1pppp/8/3p4/4P3/8/PPPP1PPP/RNBQKBNR w KQkq d6 0 2").unwrap();
    let e4 = Position::from_notation("e4").unwrap();
    let d5 = Position::from_notation("d5").unwrap();

    let moves = board.get_legal_moves(e4);
    assert_eq!(moves.len(), 2);
    assert!(moves.contains(&d5));
}

#[test]
fn test_castling() {
    let mut board =
        Board::from_fen("r3k2r/pppppppp/8/8/8/8/PPPPPPPP/RNBQK2R w KQkq - 0 1").unwrap();
    let e1 = Position::from_notation("e1").unwrap();
    let g1 = Position::from_notation("g1").unwrap();

    let moves = board.get_legal_moves(e1);
    assert!(moves.contains(&g1));

    board.move_piece(e1, g1).unwrap();

    assert_eq!(board.get_piece(g1).unwrap().piece_type, PieceType::King);
    assert_eq!(
        board.get_piece(Position::from_notation("f1").unwrap()).unwrap().piece_type,
        PieceType::Rook
    );
}

#[test]
fn test_en_passant() {
    let mut board =
        Board::from_fen("rnbqkbnr/ppp1p1pp/8/3pPp2/8/8/PPPP1PPP/RNBQKBNR w KQkq f6 0 3").unwrap();
    let e5 = Position::from_notation("e5").unwrap();
    let f6 = Position::from_notation("f6").unwrap();

    let moves = board.get_legal_moves(e5);
    assert!(moves.contains(&f6));

    board.move_piece(e5, f6).unwrap();

    assert!(board.get_piece(Position::from_notation("f5").unwrap()).is_none());
    assert_eq!(board.get_piece(f6).unwrap().piece_type, PieceType::Pawn);
}

#[test]
fn test_check_detection() {
    let board =
        Board::from_fen("rnbqkbnr/pppp1ppp/8/4p3/4P3/8/PPPP1PPP/RNBQKBNR b KQkq - 0 1").unwrap();
    assert!(!board.is_in_check(Color::Black));

    let board =
        Board::from_fen("rnbq2rk/ppppbNp1/5n1p/4p3/4P3/8/PPPP1PPP/RNBQKB1R b KQ - 1 2").unwrap();
    assert!(board.is_in_check(Color::Black));
}

#[test]
fn test_promotion() {
    let mut board = Board::from_fen("4k3/P7/8/8/8/8/8/4K3 w - - 0 1").unwrap();
    let a7 = Position::from_notation("a7").unwrap();
    let a8 = Position::from_notation("a8").unwrap();

    board.move_piece(a7, a8).unwrap();

    let piece = board.get_piece(a8).unwrap();
    assert_eq!(piece.piece_type, PieceType::Queen);
    assert_eq!(piece.color, Color::White);
}

#[test]
fn test_castling_rights_after_king_move() {
    let mut board =
        Board::from_fen("r3k2r/pppppppp/8/8/8/8/PPPPPPPP/R3K2R w KQkq - 0 1").unwrap();
    let e1 = Position::from_notation("e1").unwrap();
    let f1 = Position::from_notation("f1").unwrap();

    board.move_piece(e1, f1).unwrap();

    let (wk, wq, bk, bq) = board.castling_flags();
    assert!(!wk && !wq);
    assert!(bk && bq);
}

#[test]
fn test_pin_detection() {
    let board =
        Board::from_fen("r1bqkbnr/ppp1pppp/2n5/1B1p4/3P4/4P3/PPP2PPP/RNBQK1NR b KQkq - 0 1")
            .unwrap();

    let moves = board.get_legal_moves(Position::from_notation("c6").unwrap());
    assert!(moves.is_empty());
}

#[test]
fn test_check_evasion() {
    let board =
        Board::from_fen("rnbq2rk/ppppbNp1/5n1p/4p3/4P3/8/PPPP1PPP/RNBQKB1R b KQ - 1 2").unwrap();

    let moves = board.get_legal_moves(board.get_king_position(Color::Black).unwrap());
    assert_eq!(moves.len(), 1);
    assert!(!moves.contains(&Position::from_notation("g1").unwrap()));
}

#[test]
fn test_fen_round_trip() {
    let fens = [
        STARTING_FEN,
        "rnbqkbnr/ppp1p1pp/8/3pPp2/8/8/PPPP1PPP/RNBQKBNR w KQkq f6 0 3",
        "r3k2r/pppppppp/8/8/8/8/PPPPPPPP/R3K2R w KQkq - 0 1",
        "8/8/8/8/8/1k6/p7/K7 b - - 0 1",
        "4k3/P7/8/8/8/8/8/4K3 w - - 12 34",
    ];
    for fen in fens.iter() {
        let board = Board::from_fen(fen).unwrap();
        assert_eq!(board.to_fen(), *fen);
    }
}

#[test]
fn test_fen_errors() {
    assert_eq!(Board::from_fen("").unwrap_err(), FenError::Empty);
    assert_eq!(Board::from_fen("8/8/8/8/8/8/8 w - - 0 1").unwrap_err(), FenError::BadRankCount);
    assert_eq!(
        Board::from_fen("8/8/8/8/8/8/8/7z w - - 0 1").unwrap_err(),
        FenError::BadPiece
    );
    assert_eq!(
        Board::from_fen("9/8/8/8/8/8/8/8 w - - 0 1").unwrap_err(),
        FenError::RankTooLong
    );
    assert_eq!(
        Board::from_fen("7/8/8/8/8/8/8/8 w - - 0 1").unwrap_err(),
        FenError::RankTooShort
    );
    assert_eq!(
        Board::from_fen("8/8/8/8/8/8/8/8 x - - 0 1").unwrap_err(),
        FenError::BadColor
    );
    assert_eq!(
        Board::from_fen("8/8/8/8/8/8/8/8 w Kx - 0 1").unwrap_err(),
        FenError::BadCastling
    );
    assert_eq!(
        Board::from_fen("8/8/8/8/8/8/8/8 w - z9 0 1").unwrap_err(),
        FenError::BadEnPassant
    );
}

#[test]
fn test_load_fen_atomic() {
    let mut board = Board::from_fen(STARTING_FEN).unwrap();
    let before = board.to_fen();
    assert!(board.load_fen("8/8/8 w - - 0 1").is_err());
    assert_eq!(board.to_fen(), before);
}

#[test]
fn test_move_errors() {
    let mut board = Board::from_fen(STARTING_FEN).unwrap();
    let e4 = Position::from_notation("e4").unwrap();
    let e5 = Position::from_notation("e5").unwrap();
    let e2 = Position::from_notation("e2").unwrap();
    assert_eq!(board.move_piece(e4, e5).unwrap_err(), MoveError::NoPieceAtSource);
    assert_eq!(board.move_piece(e2, e5).unwrap_err(), MoveError::IllegalMove);

    // the c6 knight is pinned by the b5 bishop
    let mut pinned =
        Board::from_fen("r1bqkbnr/ppp1pppp/2n5/1B1p4/3P4/4P3/PPP2PPP/RNBQK1NR b KQkq - 0 1")
            .unwrap();
    let c6 = Position::from_notation("c6").unwrap();
    let b4 = Position::from_notation("b4").unwrap();
    assert_eq!(pinned.move_piece(c6, b4).unwrap_err(), MoveError::SelfCheck);
}

#[test]
fn test_square_helpers() {
    let mut board = Board::empty();
    let e4 = Position::from_notation("e4").unwrap();
    assert!(board.is_square_empty(e4));
    board.set_piece(e4, Piece::new(PieceType::Knight, Color::White));
    assert!(!board.is_square_empty(e4));
    assert_eq!(board.get_piece(e4).unwrap().piece_type, PieceType::Knight);
    let removed = board.remove_piece(e4).unwrap();
    assert_eq!(removed.piece_type, PieceType::Knight);
    assert!(board.get_piece(e4).is_none());
    assert_eq!(board.en_passant_target(), None);
}

#[test]
fn test_attack_scan() {
    let board = Board::from_fen("4k3/8/8/8/4r3/8/8/4K3 w - - 0 1").unwrap();
    // the e4 rook attacks along its rank and file
    assert!(board.is_square_under_attack(Position::from_notation("e2").unwrap(), Color::Black));
    assert!(board.is_square_under_attack(Position::from_notation("a4").unwrap(), Color::Black));
    assert!(!board.is_square_under_attack(Position::from_notation("d3").unwrap(), Color::Black));
    assert!(board.is_in_check(Color::White));
    assert!(!board.is_in_check(Color::Black));
    assert_eq!(
        board.get_king_position(Color::White),
        Some(Position::from_notation("e1").unwrap())
    );
}

#[test]
fn test_castling_gating() {
    // queenside and kingside both open
    let board = Board::from_fen("r3k2r/pppppppp/8/8/8/8/PPPPPPPP/R3K2R w KQkq - 0 1").unwrap();
    let e1 = Position::from_notation("e1").unwrap();
    let moves = board.get_legal_moves(e1);
    assert!(moves.contains(&Position::from_notation("g1").unwrap()));
    assert!(moves.contains(&Position::from_notation("c1").unwrap()));

    // a rook on f8 attacks f1, the square the king passes through
    let board = Board::from_fen("4kr2/8/8/8/8/8/8/R3K2R w KQ - 0 1").unwrap();
    let moves = board.get_legal_moves(e1);
    assert!(!moves.contains(&Position::from_notation("g1").unwrap()));
    assert!(moves.contains(&Position::from_notation("c1").unwrap()));

    // the king is in check: neither castle appears
    let board = Board::from_fen("4k3/8/8/8/8/8/4r3/R3K2R w KQ - 0 1").unwrap();
    let moves = board.get_legal_moves(e1);
    assert!(!moves.contains(&Position::from_notation("g1").unwrap()));
    assert!(!moves.contains(&Position::from_notation("c1").unwrap()));
}
