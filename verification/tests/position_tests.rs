use chess_engine::position::Position;

#[test]
fn test_position_creation() {
    let pos = Position::new(0, 0).unwrap();
    assert_eq!(pos.x, 0);
    assert_eq!(pos.y, 0);
    assert!(pos.is_valid());
}

#[test]
fn test_position_notation() {
    let pos = Position::from_notation("a1").unwrap();
    assert_eq!(pos.x, 0);
    assert_eq!(pos.y, 0);
    assert_eq!(pos.to_notation(), "a1");

    let pos = Position::from_notation("h8").unwrap();
    assert_eq!(pos.x, 7);
    assert_eq!(pos.y, 7);
    assert_eq!(pos.to_notation(), "h8");
}

#[test]
fn test_invalid_notation() {
    assert!(Position::from_notation("i1").is_err());
    assert!(Position::from_notation("a9").is_err());
    assert!(Position::from_notation("a").is_err());
    assert!(Position::from_notation("a11").is_err());
}

#[test]
fn test_position_geometry() {
    let a1 = Position::from_notation("a1").unwrap();
    let h8 = Position::from_notation("h8").unwrap();
    let a8 = Position::from_notation("a8").unwrap();
    let b2 = Position::from_notation("b2").unwrap();
    assert_eq!(a1.distance(&h8), (7, 7));
    assert!(a1.is_diagonal(&h8));
    assert!(a1.is_straight_line(&a8));
    assert!(a1.is_adjacent(&b2));
    assert!(!a1.is_adjacent(&a1));
    assert!(Position::is_valid_file(0));
    assert!(!Position::is_valid_rank(8));
    let between = a1.squares_between(&h8);
    assert_eq!(between.len(), 6);
    assert!(between.contains(&b2));
    assert_eq!(Position::new(8, 0), None);
    assert_eq!(Position { x: -1, y: 0 }.to_notation(), "-");
}
