use rust_exercises::queen_attack::ChessPosition;
use rust_exercises::queen_attack::Queen;

#[test]
fn test_position_on_the_board() {
    assert!(ChessPosition::new(2, 4).is_some());
    assert!(ChessPosition::new(0, 0).is_some());
    assert!(ChessPosition::new(7, 7).is_some());
}

#[test]
fn test_position_off_the_board() {
    assert!(ChessPosition::new(-1, 2).is_none());
    assert!(ChessPosition::new(8, 4).is_none());
    assert!(ChessPosition::new(3, 8).is_none());
    assert!(ChessPosition::new(5, -3).is_none());
}

#[test]
fn test_queens_on_the_same_rank_can_attack() {
    let white = Queen::new(ChessPosition::new(2, 4).unwrap());
    let black = Queen::new(ChessPosition::new(2, 6).unwrap());
    assert!(white.can_attack(&black));
}

#[test]
fn test_queens_on_the_same_file_can_attack() {
    let white = Queen::new(ChessPosition::new(4, 5).unwrap());
    let black = Queen::new(ChessPosition::new(3, 5).unwrap());
    assert!(white.can_attack(&black));
}

#[test]
fn test_queens_on_a_diagonal_can_attack() {
    let white = Queen::new(ChessPosition::new(2, 2).unwrap());
    let black = Queen::new(ChessPosition::new(0, 4).unwrap());
    assert!(white.can_attack(&black));
    let third = Queen::new(ChessPosition::new(5, 5).unwrap());
    assert!(white.can_attack(&third));
}

#[test]
fn test_queens_elsewhere_cannot_attack() {
    let white = Queen::new(ChessPosition::new(2, 4).unwrap());
    let black = Queen::new(ChessPosition::new(6, 6).unwrap());
    assert!(!white.can_attack(&black));
}

#[test]
fn test_position_difference() {
    let a = ChessPosition::new(6, 1).unwrap();
    let b = ChessPosition::new(2, 4).unwrap();
    let d = a.sub(&b);
    let back = Queen::new(d);
    let same = Queen::new(ChessPosition::new(4, 0).unwrap());
    // The difference (4, -3) shares its rank with (4, 0).
    assert!(back.can_attack(&same));
}
