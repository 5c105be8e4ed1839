use chess_engine::modals::{LoadGameModal, PromotionModal, SaveGameModal, SaveModalField};
use chess_engine::pieces::{Color, Piece, PieceType};
use chess_engine::ui::{
    calculate_board_layout, calculate_material, div_round_nearest, get_piece_char,
    get_piece_symbol, piece_value, CapturedPiecesBar, MoveHistoryPanel, PieceSprites, Pixel,
};

#[test]
fn test_piece_values() {
    assert_eq!(piece_value(PieceType::Pawn), 1);
    assert_eq!(piece_value(PieceType::Knight), 3);
    assert_eq!(piece_value(PieceType::Bishop), 3);
    assert_eq!(piece_value(PieceType::Rook), 5);
    assert_eq!(piece_value(PieceType::Queen), 9);
    assert_eq!(piece_value(PieceType::King), 0);
}

#[test]
fn test_calculate_material() {
    let pieces = vec![
        Piece::new(PieceType::Queen, Color::Black),
        Piece::new(PieceType::Pawn, Color::Black),
        Piece::new(PieceType::Knight, Color::Black),
    ];
    assert_eq!(calculate_material(&pieces), 13);
    assert_eq!(calculate_material(&Vec::new()), 0);
}

#[test]
fn test_piece_glyphs() {
    assert_eq!(get_piece_symbol(PieceType::Pawn, Color::White), "\u{2659}");
    assert_eq!(get_piece_symbol(PieceType::King, Color::Black), "\u{265A}");
    assert_eq!(get_piece_char(PieceType::King, Color::White), '\u{2654}');
    assert_eq!(get_piece_char(PieceType::Pawn, Color::Black), '\u{265F}');
}

#[test]
fn test_div_round_nearest() {
    assert_eq!(div_round_nearest(1, 2), 1);
    assert_eq!(div_round_nearest(-1, 2), -1);
    assert_eq!(div_round_nearest(3, 2), 2);
    assert_eq!(div_round_nearest(-3, 2), -2);
    assert_eq!(div_round_nearest(10, 4), 3);
}

#[test]
fn test_board_layout() {
    let ideal = calculate_board_layout(100, 40);
    assert_eq!(ideal.square_width, 9);
    assert_eq!(ideal.square_height, 4);
    assert!(ideal.use_sprites);
    assert!(!ideal.too_small);

    let cramped = calculate_board_layout(48, 24);
    assert_eq!(cramped.square_width, 5);
    assert_eq!(cramped.square_height, 3);
    assert!(!cramped.use_sprites);
    assert!(!cramped.too_small);

    let tiny = calculate_board_layout(8, 4);
    assert!(tiny.too_small);
}

#[test]
fn test_sprites_shape() {
    let sprites = PieceSprites::new();
    assert_eq!(sprites.pawn.len(), 8);
    assert_eq!(sprites.pawn[0].len(), 5);
    assert_eq!(sprites.pawn[0][0], Pixel::Transparent);
    assert_eq!(sprites.king[0][2], Pixel::Accent);
    assert_eq!(sprites.rook[7][0], Pixel::Outline);
}

#[test]
fn test_captured_bar_and_history_panel() {
    let captured = vec![Piece::new(PieceType::Pawn, Color::Black)];
    let bar = CapturedPiecesBar::new(&captured, "White", 1);
    assert_eq!(bar.material_advantage, 1);
    assert_eq!(bar.label, "White");

    let moves = Vec::new();
    let panel = MoveHistoryPanel::new(&moves, true)
        .scroll_offset(2)
        .selected_move(Some(1))
        .focused(true)
        .viewing_history(false);
    assert_eq!(panel.scroll_offset, 2);
    assert_eq!(panel.selected_move, Some(1));
    assert!(panel.is_focused);
    assert!(!panel.viewing_history);
}

#[test]
fn test_load_game_modal() {
    let mut modal = LoadGameModal::new();
    assert_eq!(modal.selected_file(), None);

    modal.refresh(vec![
        String::from("pgn/alice-bob.pgn"),
        String::from("pgn/carol-dan.pgn"),
        String::from("pgn/ALICE-eve.pgn"),
    ]);
    assert_eq!(modal.selected_file(), Some("pgn/alice-bob.pgn"));

    modal.next();
    assert_eq!(modal.selected_file(), Some("pgn/carol-dan.pgn"));
    modal.prev();
    modal.prev();
    assert_eq!(modal.selected_file(), Some("pgn/ALICE-eve.pgn"));

    modal.add_char('a');
    modal.add_char('l');
    assert_eq!(modal.filtered_files.len(), 2);
    modal.backspace();
    modal.add_char('l');
    assert_eq!(modal.filtered_files.len(), 2);
}

#[test]
fn test_save_game_modal() {
    let mut modal = SaveGameModal::new();
    assert_eq!(modal.white_name(), "Player 1");
    modal.add_char('A');
    assert_eq!(modal.white_name(), "A");
    modal.next_field();
    assert_eq!(modal.active_field, SaveModalField::Black);
    modal.add_char('B');
    modal.add_char('o');
    modal.backspace();
    assert_eq!(modal.black_name(), "B");

    let named = SaveGameModal::new_with_names("Alice", "Bob");
    assert_eq!(named.white_name(), "Alice");
    assert_eq!(named.black_name(), "Bob");
}

#[test]
fn test_promotion_modal() {
    let mut modal = PromotionModal::new(false);
    assert_eq!(modal.selected_choice(), PieceType::Queen);
    modal.next();
    assert_eq!(modal.selected_choice(), PieceType::Rook);
    modal.next();
    modal.next();
    assert_eq!(modal.selected_choice(), PieceType::Knight);
    modal.next();
    assert_eq!(modal.selected_choice(), PieceType::Queen);
    assert_eq!(modal.piece_char(PieceType::Queen), "Q");
    assert_eq!(modal.piece_label(PieceType::Knight), "Knight");
    let unicode = PromotionModal::new(true);
    assert_eq!(unicode.piece_char(PieceType::Rook), "\u{265C}");
}
