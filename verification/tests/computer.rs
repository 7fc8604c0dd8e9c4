use four_win_three_lose::field::Field;
use four_win_three_lose::player::computer::ComputerPlayer;

#[test]
fn test_make_move() {
    let player: ComputerPlayer = ComputerPlayer::new(false);
    let t = Some(true);
    let f = Some(false);
    let n: Option<bool> = None;

    let field = Field::from([[f, f, t, t], [t, t, f, f], [f, t, n, t], [f, f, n, f]]);
    assert_eq!(player.make_move(&field), (2, 3).into());
}
