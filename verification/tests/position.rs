use four_win_three_lose::Position;

#[test]
fn position_try_from_string() {
    assert_eq!(
        Position::try_from("1 0".to_string()),
        Ok(Position { x: 1, y: 0 })
    );
    assert_eq!(
        Position::try_from("1 0\n".to_string()),
        Ok(Position { x: 1, y: 0 })
    );
}
